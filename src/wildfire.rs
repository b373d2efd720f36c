//! The wildfire simulation state and its environment lifecycle: agents and fires
//! in batched entity stores, a dense fuel grid per environment, and the
//! reset / seeded reset that repopulate them from the configuration.
use crate::backend::{AgentActions, WildfireBackend};
use crate::error::WildfireError;
use crate::spaces::{eligible, Discrete, OneOf, SampleModel, Space};
use crate::rng::{draw_index_fresh, draw_index_seeded, seeded_index};
use crate::store::{lemma_window_in_bounds, Columns, Entity, EntityStore};
use vstd::prelude::*;

verus! {

/// A firefighting agent.
#[derive(Clone, Copy, Debug, PartialEq, Eq, Structural)]
pub struct Agent {
    pub id: u64,
    pub x: usize,
    pub y: usize,
    /// Suppressant carried, in whole units.
    pub suppressant: u32,
    /// Equipment condition, in whole units.
    pub equipment: u32,
}

/// A burning fire.
#[derive(Clone, Copy, Debug, PartialEq, Eq, Structural)]
pub struct Fire {
    pub id: u64,
    pub x: usize,
    pub y: usize,
    pub power: u32,
    pub intensity: u32,
}

impl Entity for Agent {
    open spec fn spec_with_id(&self, id: u64) -> Agent {
        Agent { id, ..*self }
    }

    open spec fn spec_position(&self) -> (usize, usize) {
        (self.x, self.y)
    }

    fn with_id(&self, id: u64) -> (r: Agent) {
        Agent { id, ..*self }
    }

    fn position(&self) -> (r: (usize, usize)) {
        (self.x, self.y)
    }
}

impl Entity for Fire {
    open spec fn spec_with_id(&self, id: u64) -> Fire {
        Fire { id, ..*self }
    }

    open spec fn spec_position(&self) -> (usize, usize) {
        (self.x, self.y)
    }

    fn with_id(&self, id: u64) -> (r: Fire) {
        Fire { id, ..*self }
    }

    fn position(&self) -> (r: (usize, usize)) {
        (self.x, self.y)
    }
}

/// The agents of a batch, one array per field.
pub struct AgentColumns {
    pub id: Vec<u64>,
    pub x: Vec<usize>,
    pub y: Vec<usize>,
    pub suppressant: Vec<u32>,
    pub equipment: Vec<u32>,
}

/// The fires of a batch, one array per field.
pub struct FireColumns {
    pub id: Vec<u64>,
    pub x: Vec<usize>,
    pub y: Vec<usize>,
    pub power: Vec<u32>,
    pub intensity: Vec<u32>,
}

impl Columns for AgentColumns {
    type Record = Agent;

    open spec fn wf(&self) -> bool {
        &&& self.x.len() == self.id.len()
        &&& self.y.len() == self.id.len()
        &&& self.suppressant.len() == self.id.len()
        &&& self.equipment.len() == self.id.len()
    }

    open spec fn slots(&self) -> Seq<Agent> {
        Seq::new(
            self.id.len() as nat,
            |i: int|
                Agent {
                    id: self.id@[i],
                    x: self.x@[i],
                    y: self.y@[i],
                    suppressant: self.suppressant@[i],
                    equipment: self.equipment@[i],
                },
        )
    }

    fn filled(n: usize, fill: Agent) -> (r: AgentColumns) {
        let mut c = AgentColumns {
            id: Vec::new(),
            x: Vec::new(),
            y: Vec::new(),
            suppressant: Vec::new(),
            equipment: Vec::new(),
        };
        let mut i: usize = 0;
        while i < n
            invariant
                i <= n,
                c.wf(),
                c.id.len() == i,
                forall|k: int|
                    0 <= k < i ==> #[trigger] c.id@[k] == fill.id && c.x@[k] == fill.x && c.y@[k]
                        == fill.y && c.suppressant@[k] == fill.suppressant && c.equipment@[k] == fill.equipment,
            decreases n - i,
        {
            c.id.push(fill.id);
            c.x.push(fill.x);
            c.y.push(fill.y);
            c.suppressant.push(fill.suppressant);
            c.equipment.push(fill.equipment);
            i = i + 1;
        }
        assert(c.slots() =~= Seq::new(n as nat, |k: int| fill));
        c
    }

    fn read(&self, i: usize) -> (r: Agent) {
        Agent {
            id: self.id[i],
            x: self.x[i],
            y: self.y[i],
            suppressant: self.suppressant[i],
            equipment: self.equipment[i],
        }
    }

    fn write(&mut self, i: usize, rec: Agent) {
        self.id.set(i, rec.id);
        self.x.set(i, rec.x);
        self.y.set(i, rec.y);
        self.suppressant.set(i, rec.suppressant);
        self.equipment.set(i, rec.equipment);
        assert(self.slots() =~= old(self).slots().update(i as int, rec));
    }
}

impl Columns for FireColumns {
    type Record = Fire;

    open spec fn wf(&self) -> bool {
        &&& self.x.len() == self.id.len()
        &&& self.y.len() == self.id.len()
        &&& self.power.len() == self.id.len()
        &&& self.intensity.len() == self.id.len()
    }

    open spec fn slots(&self) -> Seq<Fire> {
        Seq::new(
            self.id.len() as nat,
            |i: int|
                Fire {
                    id: self.id@[i],
                    x: self.x@[i],
                    y: self.y@[i],
                    power: self.power@[i],
                    intensity: self.intensity@[i],
                },
        )
    }

    fn filled(n: usize, fill: Fire) -> (r: FireColumns) {
        let mut c = FireColumns {
            id: Vec::new(),
            x: Vec::new(),
            y: Vec::new(),
            power: Vec::new(),
            intensity: Vec::new(),
        };
        let mut i: usize = 0;
        while i < n
            invariant
                i <= n,
                c.wf(),
                c.id.len() == i,
                forall|k: int|
                    0 <= k < i ==> #[trigger] c.id@[k] == fill.id && c.x@[k] == fill.x && c.y@[k]
                        == fill.y && c.power@[k] == fill.power && c.intensity@[k] == fill.intensity,
            decreases n - i,
        {
            c.id.push(fill.id);
            c.x.push(fill.x);
            c.y.push(fill.y);
            c.power.push(fill.power);
            c.intensity.push(fill.intensity);
            i = i + 1;
        }
        assert(c.slots() =~= Seq::new(n as nat, |k: int| fill));
        c
    }

    fn read(&self, i: usize) -> (r: Fire) {
        Fire {
            id: self.id[i],
            x: self.x[i],
            y: self.y[i],
            power: self.power[i],
            intensity: self.intensity[i],
        }
    }

    fn write(&mut self, i: usize, rec: Fire) {
        self.id.set(i, rec.id);
        self.x.set(i, rec.x);
        self.y.set(i, rec.y);
        self.power.set(i, rec.power);
        self.intensity.set(i, rec.intensity);
        assert(self.slots() =~= old(self).slots().update(i as int, rec));
    }
}


/// `count` entities spawned from one template; the template's identity is
/// replaced by a fresh one for each.
#[derive(Clone, Copy, Debug)]
pub struct SpawnGroup<R> {
    pub count: usize,
    pub template: R,
}

/// Number of entities that the groups spawn.
pub open spec fn total<R>(groups: Seq<SpawnGroup<R>>) -> nat
    decreases groups.len(),
{
    if groups.len() == 0 {
        0
    } else {
        total(groups.drop_last()) + groups.last().count as nat
    }
}

/// The entities that the groups spawn, in declared order, the `k`-th of them
/// carrying identity `base + k` (wrapping).
pub open spec fn expand<R: Entity>(groups: Seq<SpawnGroup<R>>, base: u64) -> Seq<R>
    decreases groups.len(),
{
    if groups.len() == 0 {
        Seq::empty()
    } else {
        let p = expand(groups.drop_last(), base);
        p + Seq::new(
            groups.last().count as nat,
            |j: int| groups.last().template.spec_with_id(base.wrapping_add((p.len() + j) as u64)),
        )
    }
}

/// The groups spawn `total` entities.
pub proof fn lemma_expand_len<R: Entity>(groups: Seq<SpawnGroup<R>>, base: u64)
    ensures
        expand(groups, base).len() == total(groups),
    decreases groups.len(),
{
    if groups.len() > 0 {
        lemma_expand_len(groups.drop_last(), base);
    }
}

/// Totals of prefixes grow by one group at a time and never exceed the whole.
pub proof fn lemma_total_prefix<R>(groups: Seq<SpawnGroup<R>>, j: int)
    requires
        0 <= j <= groups.len(),
    ensures
        total(groups.take(j)) <= total(groups),
        j < groups.len() ==> total(groups.take(j + 1)) == total(groups.take(j)) + groups[j].count,
    decreases groups.len() - j,
{
    if j < groups.len() {
        assert(groups.take(j + 1).drop_last() =~= groups.take(j));
        lemma_total_prefix(groups, j + 1);
    } else {
        assert(groups.take(j) =~= groups);
    }
}

/// Fills every environment of an emptied store with the entities the groups
/// spawn, identities counted from `base`.
fn populate<C: Columns>(store: &mut EntityStore<C>, groups: &Vec<SpawnGroup<C::Record>>, base: u64)
    requires
        old(store).wf(),
        forall|e: int| 0 <= e < old(store).spec_num_envs() ==> #[trigger] old(store).entities(e).len() == 0,
        total(groups@) <= old(store).spec_max_per_env(),
    ensures
        final(store).wf(),
        final(store).spec_num_envs() == old(store).spec_num_envs(),
        final(store).spec_max_per_env() == old(store).spec_max_per_env(),
        forall|e: int|
            0 <= e < final(store).spec_num_envs() ==> #[trigger] final(store).entities(e) == expand(
                groups@,
                base,
            ),
{
    let ghost n0 = store.spec_num_envs();
    let ghost cap = store.spec_max_per_env();
    let n = store.num_envs();
    let limit = store.max_per_env();
    let mut e: usize = 0;
    while e < n
        invariant
            store.wf(),
            store.spec_num_envs() == n0,
            store.spec_max_per_env() == cap,
            n == n0,
            e <= n,
            total(groups@) <= cap,
            cap == limit,
            forall|k: int| 0 <= k < e ==> #[trigger] store.entities(k) == expand(groups@, base),
            forall|k: int| e <= k < n ==> #[trigger] store.entities(k).len() == 0,
        decreases n - e,
    {
        let ghost outer = *store;
        let mut g: usize = 0;
        let mut made: usize = 0;
        proof {
            assert(groups@.take(0) =~= Seq::<SpawnGroup<C::Record>>::empty());
            assert(store.entities(e as int) =~= expand(groups@.take(0), base));
        }
        while g < groups.len()
            invariant
                store.wf(),
                store.spec_num_envs() == n0,
                store.spec_max_per_env() == cap,
                n == n0,
                e < n,
                g <= groups.len(),
                total(groups@) <= cap,
                cap == limit,
            cap == limit,
                made == total(groups@.take(g as int)),
                store.entities(e as int) == expand(groups@.take(g as int), base),
                forall|k: int|
                    0 <= k < n && k != e ==> #[trigger] store.entities(k) == outer.entities(k),
            decreases groups.len() - g,
        {
            let grp = &groups[g];
            proof {
                lemma_total_prefix(groups@, g as int);
                lemma_total_prefix(groups@, g + 1);
                lemma_expand_len(groups@.take(g as int), base);
            }
            let ghost prefix = expand(groups@.take(g as int), base);
            let mut c: usize = 0;
            while c < grp.count
                invariant
                    store.wf(),
                    store.spec_num_envs() == n0,
                    store.spec_max_per_env() == cap,
                    n == n0,
                    e < n,
                    g < groups.len(),
                    *grp == groups@[g as int],
                    c <= grp.count,
                    made + grp.count <= total(groups@),
                    total(groups@) <= cap,
                    cap == limit,
                cap == limit,
            cap == limit,
                    prefix.len() == made,
                    store.entities(e as int) == prefix + Seq::new(
                        c as nat,
                        |j: int| grp.template.spec_with_id(base.wrapping_add((made + j) as u64)),
                    ),
                    forall|k: int|
                        0 <= k < n && k != e ==> #[trigger] store.entities(k) == outer.entities(k),
                decreases grp.count - c,
            {
                let rec = grp.template.with_id(base.wrapping_add((made + c) as u64));
                let ghost before = store.entities(e as int);
                let r = store.add(e, rec);
                proof {
                    assert(r is Ok);
                    assert(store.entities(e as int) =~= prefix + Seq::new(
                        (c + 1) as nat,
                        |j: int| grp.template.spec_with_id(base.wrapping_add((made + j) as u64)),
                    ));
                }
                c = c + 1;
            }
            proof {
                let t = groups@.take(g + 1);
                assert(t.drop_last() =~= groups@.take(g as int));
                assert(t.last() == groups@[g as int]);
                assert(store.entities(e as int) =~= expand(t, base));
            }
            made = made + grp.count;
            g = g + 1;
        }
        proof {
            assert(groups@.take(g as int) =~= groups@);
        }
        e = e + 1;
    }
}


/// Identities of a reset are drawn from `0 .. ID_SPAN` upward.
pub const ID_SPAN: usize = 2147483648;

/// Sum of the fuel over all cells.
pub open spec fn fuel_total(s: Seq<u32>) -> nat
    decreases s.len(),
{
    if s.len() == 0 {
        0
    } else {
        fuel_total(s.drop_last()) + s.last() as nat
    }
}

/// Fuel totals of prefixes grow by one cell at a time and never exceed the whole.
pub proof fn lemma_fuel_prefix(s: Seq<u32>, j: int)
    requires
        0 <= j <= s.len(),
    ensures
        fuel_total(s.take(j)) <= fuel_total(s),
        j < s.len() ==> fuel_total(s.take(j + 1)) == fuel_total(s.take(j)) + s[j] as nat,
    decreases s.len() - j,
{
    if j < s.len() {
        assert(s.take(j + 1).drop_last() =~= s.take(j));
        lemma_fuel_prefix(s, j + 1);
    } else {
        assert(s.take(j) =~= s);
    }
}

/// Configuration of a batch of wildfire environments.
pub struct WildfireConfig {
    /// Grid dimensions `(rows, cols)`; a position `(x, y)` is in the grid when
    /// `x < cols` and `y < rows`.
    pub grid_size: (usize, usize),
    pub num_envs: usize,
    /// The most agents one environment may hold.
    pub max_agents: usize,
    /// The most fires one environment may hold.
    pub max_fires: usize,
    /// Agents spawned in every environment on reset.
    pub agents: Vec<SpawnGroup<Agent>>,
    /// Fires spawned in every environment on reset.
    pub fires: Vec<SpawnGroup<Fire>>,
    /// Fuel of each cell, row-major, copied into every environment on reset.
    pub initial_fuel: Vec<u32>,
    /// The most agents each cell may hold, row-major.
    pub max_agents_per_cell: Vec<usize>,
    /// The most fires each cell may hold, row-major.
    pub max_fires_per_cell: Vec<usize>,
}

/// The row-major cell of position `(x, y)` in a grid of `cols` columns.
pub open spec fn cell_of(pos: (usize, usize), cols: usize) -> int {
    pos.1 * cols + pos.0
}

/// Number of entities that the groups spawn in cell `cell`.
pub open spec fn cell_count<R: Entity>(groups: Seq<SpawnGroup<R>>, cols: usize, cell: int) -> nat
    decreases groups.len(),
{
    if groups.len() == 0 {
        0
    } else {
        cell_count(groups.drop_last(), cols, cell) + if cell_of(
            groups.last().template.spec_position(),
            cols,
        ) == cell {
            groups.last().count as nat
        } else {
            0
        }
    }
}

/// No cell receives more entities than its maximum.
pub open spec fn within_cell_maxima<R: Entity>(
    groups: Seq<SpawnGroup<R>>,
    cols: usize,
    maxima: Seq<usize>,
) -> bool {
    forall|c: int| 0 <= c < maxima.len() ==> cell_count(groups, cols, c) <= #[trigger] maxima[c]
}

/// Cell counts of prefixes grow one group at a time and never exceed the whole.
pub proof fn lemma_cell_count_prefix<R: Entity>(groups: Seq<SpawnGroup<R>>, cols: usize, cell: int, j: int)
    requires
        0 <= j <= groups.len(),
    ensures
        cell_count(groups.take(j), cols, cell) <= cell_count(groups, cols, cell),
    decreases groups.len() - j,
{
    if j < groups.len() {
        assert(groups.take(j + 1).drop_last() =~= groups.take(j));
        lemma_cell_count_prefix(groups, cols, cell, j + 1);
    } else {
        assert(groups.take(j) =~= groups);
    }
}

/// A position inside a grid of `rows` by `cols` lies in one of its cells.
proof fn lemma_cell_in_grid(x: int, y: int, rows: int, cols: int)
    requires
        0 <= x < cols,
        0 <= y < rows,
    ensures
        0 <= y * cols + x < rows * cols,
{
    assert(0 <= y * cols + x < rows * cols) by (nonlinear_arith)
        requires
            0 <= x < cols,
            0 <= y < rows,
    ;
}

/// Whether no cell of a `rows` by `cols` grid receives more entities from the
/// groups than its maximum.
fn cells_within<R: Entity>(
    groups: &Vec<SpawnGroup<R>>,
    rows: usize,
    cols: usize,
    maxima: &Vec<usize>,
) -> (r: bool)
    requires
        in_grid(groups@, rows, cols),
        maxima.len() == rows * cols,
    ensures
        r == within_cell_maxima(groups@, cols, maxima@),
{
    let mut counts: Vec<usize> = Vec::new();
    let mut c: usize = 0;
    while c < maxima.len()
        invariant
            c <= maxima.len(),
            counts.len() == c,
            forall|k: int| 0 <= k < c ==> #[trigger] counts@[k] == 0,
        decreases maxima.len() - c,
    {
        counts.push(0);
        c = c + 1;
    }
    assert(groups@.take(0) =~= Seq::<SpawnGroup<R>>::empty());
    let mut i: usize = 0;
    while i < groups.len()
        invariant
            in_grid(groups@, rows, cols),
            maxima.len() == rows * cols,
            counts.len() == maxima.len(),
            i <= groups.len(),
            forall|k: int|
                0 <= k < counts.len() ==> #[trigger] counts@[k] == cell_count(
                    groups@.take(i as int),
                    cols,
                    k,
                ) && counts@[k] <= maxima@[k],
        decreases groups.len() - i,
    {
        let (x, y) = groups[i].template.position();
        proof {
            assert(groups@[i as int].template.spec_position().0 < cols);
            lemma_cell_in_grid(x as int, y as int, rows as int, cols as int);
            let t = groups@.take(i + 1);
            assert(t.drop_last() =~= groups@.take(i as int));
            assert(t.last() == groups@[i as int]);
        }
        let cell = y * cols + x;
        let n = groups[i].count;
        if n > maxima[cell] - counts[cell] {
            proof {
                lemma_cell_count_prefix(groups@, cols, cell as int, i + 1);
                assert(cell_count(groups@.take(i + 1), cols, cell as int) > maxima@[cell as int]);
            }
            return false;
        }
        counts.set(cell, counts[cell] + n);
        i = i + 1;
    }
    assert(groups@.take(i as int) =~= groups@);
    assert forall|k: int| 0 <= k < maxima.len() implies cell_count(groups@, cols, k) <= #[trigger] maxima@[k] by {
        assert(counts@[k] == cell_count(groups@, cols, k));
    }
    true
}

/// Every group spawns inside the grid.
pub open spec fn in_grid<R: Entity>(groups: Seq<SpawnGroup<R>>, rows: usize, cols: usize) -> bool {
    forall|i: int|
        0 <= i < groups.len() ==> (#[trigger] groups[i]).template.spec_position().0 < cols
            && groups[i].template.spec_position().1 < rows
}

impl WildfireConfig {
    /// The configuration can back an environment: array sizes agree with the
    /// grid, allocations fit in memory, declared entities fit the grid and their
    /// global and per-cell maxima, and there is no more fire than fuel.
    pub open spec fn spec_valid(&self) -> bool {
        &&& self.grid_size.0 * self.grid_size.1 == self.initial_fuel.len()
        &&& self.num_envs * self.initial_fuel.len() <= usize::MAX
        &&& self.max_agents < usize::MAX
        &&& self.max_fires < usize::MAX
        &&& self.num_envs * self.max_agents <= usize::MAX
        &&& self.num_envs * self.max_fires <= usize::MAX
        &&& total(self.agents@) <= self.max_agents
        &&& total(self.fires@) <= self.max_fires
        &&& in_grid(self.agents@, self.grid_size.0, self.grid_size.1)
        &&& in_grid(self.fires@, self.grid_size.0, self.grid_size.1)
        &&& total(self.fires@) <= fuel_total(self.initial_fuel@)
        &&& self.max_agents_per_cell.len() == self.initial_fuel.len()
        &&& self.max_fires_per_cell.len() == self.initial_fuel.len()
        &&& within_cell_maxima(self.agents@, self.grid_size.1, self.max_agents_per_cell@)
        &&& within_cell_maxima(self.fires@, self.grid_size.1, self.max_fires_per_cell@)
    }

    /// Accepts a valid configuration; rejects any other with
    /// `InvalidWildfireOperation`.
    pub fn validate(&self) -> (r: Result<(), WildfireError>)
        ensures
            r is Ok <==> self.spec_valid(),
            r matches Err(e) ==> e is InvalidWildfireOperation,
    {
        let (rows, cols) = self.grid_size;
        match rows.checked_mul(cols) {
            Some(c) => {
                if c != self.initial_fuel.len() {
                    return Err(invalid("fuel array does not match the grid"));
                }
            },
            None => {
                return Err(invalid("fuel array does not match the grid"));
            },
        }
        if self.num_envs.checked_mul(self.initial_fuel.len()).is_none() {
            return Err(invalid("fuel arrays do not fit in memory"));
        }
        if self.max_agents == usize::MAX || self.num_envs.checked_mul(self.max_agents).is_none() {
            return Err(invalid("agent arrays do not fit in memory"));
        }
        if self.max_fires == usize::MAX || self.num_envs.checked_mul(self.max_fires).is_none() {
            return Err(invalid("fire arrays do not fit in memory"));
        }
        if group_total(&self.agents, self.max_agents).is_none() {
            return Err(invalid("declared agents exceed the maximum"));
        }
        let fires = group_total(&self.fires, self.max_fires);
        match fires {
            None => {
                return Err(invalid("declared fires exceed the maximum"));
            },
            Some(n) => {
                if !groups_in_grid(&self.agents, rows, cols) {
                    return Err(invalid("an agent lies outside the grid"));
                }
                if !groups_in_grid(&self.fires, rows, cols) {
                    return Err(invalid("a fire lies outside the grid"));
                }
                if !fuel_covers(&self.initial_fuel, n) {
                    return Err(invalid("declared fires exceed the fuel"));
                }
                if self.max_agents_per_cell.len() != self.initial_fuel.len()
                    || self.max_fires_per_cell.len() != self.initial_fuel.len() {
                    return Err(invalid("per-cell maxima do not match the grid"));
                }
                if !cells_within(&self.agents, rows, cols, &self.max_agents_per_cell) {
                    return Err(invalid("declared agents exceed a cell's maximum"));
                }
                if !cells_within(&self.fires, rows, cols, &self.max_fires_per_cell) {
                    return Err(invalid("declared fires exceed a cell's maximum"));
                }
            },
        }
        Ok(())
    }
}

/// A configuration error with message `msg`.
fn invalid(msg: &str) -> (r: WildfireError)
    ensures
        r is InvalidWildfireOperation,
{
    WildfireError::InvalidWildfireOperation(msg.to_owned())
}

/// The number of entities the groups spawn, when it is at most `limit`.
fn group_total<R>(groups: &Vec<SpawnGroup<R>>, limit: usize) -> (r: Option<usize>)
    ensures
        r is Some <==> total(groups@) <= limit,
        r matches Some(n) ==> n == total(groups@),
{
    let mut sum: usize = 0;
    let mut i: usize = 0;
    while i < groups.len()
        invariant
            i <= groups.len(),
            sum == total(groups@.take(i as int)),
            sum <= limit,
        decreases groups.len() - i,
    {
        proof {
            lemma_total_prefix(groups@, i as int);
            lemma_total_prefix(groups@, i + 1);
        }
        if groups[i].count > limit - sum {
            proof {
                lemma_total_prefix(groups@, i + 1);
            }
            return None;
        }
        sum = sum + groups[i].count;
        i = i + 1;
    }
    proof {
        assert(groups@.take(i as int) =~= groups@);
    }
    Some(sum)
}

/// Whether every group spawns inside a grid of `rows` by `cols`.
fn groups_in_grid<R: Entity>(groups: &Vec<SpawnGroup<R>>, rows: usize, cols: usize) -> (r: bool)
    ensures
        r == in_grid(groups@, rows, cols),
{
    let mut i: usize = 0;
    while i < groups.len()
        invariant
            i <= groups.len(),
            forall|k: int|
                0 <= k < i ==> (#[trigger] groups@[k]).template.spec_position().0 < cols
                    && groups@[k].template.spec_position().1 < rows,
        decreases groups.len() - i,
    {
        let (x, y) = groups[i].template.position();
        if x >= cols || y >= rows {
            return false;
        }
        i = i + 1;
    }
    true
}

/// Whether the fuel adds up to at least `need`.
fn fuel_covers(fuel: &Vec<u32>, need: usize) -> (r: bool)
    ensures
        r == (need <= fuel_total(fuel@)),
{
    let mut acc: u128 = 0;
    let mut i: usize = 0;
    while i < fuel.len()
        invariant
            i <= fuel.len(),
            acc == fuel_total(fuel@.take(i as int)),
            acc < need + 0x1_0000_0000,
        decreases fuel.len() - i,
    {
        if acc >= need as u128 {
            proof {
                lemma_fuel_prefix(fuel@, i as int);
            }
            return true;
        }
        proof {
            lemma_fuel_prefix(fuel@, i as int);
        }
        acc = acc + fuel[i] as u128;
        i = i + 1;
    }
    proof {
        assert(fuel@.take(i as int) =~= fuel@);
    }
    acc >= need as u128
}


/// The identity base that a reset seeded with `seed` counts identities from.
pub open spec fn seeded_id_base(seed: u64) -> u64 {
    seeded_index(seed, ID_SPAN) as u64
}

/// A batch of wildfire environments: agents and fires in batched entity stores,
/// and the fuel of every cell of every environment.
pub struct WildfireEnv {
    config: WildfireConfig,
    agents: EntityStore<AgentColumns>,
    fires: EntityStore<FireColumns>,
    /// `num_envs` fuel grids, one after the other.
    fuel: Vec<u32>,
    /// Identities of the last reset were counted from this value.
    id_base: u64,
    /// The seed of the last seeded reset, if the last reset was seeded.
    seed: Option<u64>,
}

impl WildfireEnv {
    pub closed spec fn wf(&self) -> bool {
        let c = self.config;
        &&& c.spec_valid()
        &&& self.agents.wf()
        &&& self.fires.wf()
        &&& self.agents.spec_num_envs() == c.num_envs
        &&& self.fires.spec_num_envs() == c.num_envs
        &&& self.agents.spec_max_per_env() == c.max_agents
        &&& self.fires.spec_max_per_env() == c.max_fires
        &&& self.fuel.len() == c.num_envs * c.initial_fuel.len()
    }

    pub closed spec fn spec_config(&self) -> WildfireConfig {
        self.config
    }

    pub closed spec fn spec_id_base(&self) -> u64 {
        self.id_base
    }

    /// The seed of the last reset, if it was seeded.
    pub closed spec fn spec_last_seed(&self) -> Option<u64> {
        self.seed
    }

    /// The live agents of environment `e`.
    pub closed spec fn agents_in(&self, e: int) -> Seq<Agent> {
        self.agents.entities(e)
    }

    /// The live fires of environment `e`.
    pub closed spec fn fires_in(&self, e: int) -> Seq<Fire> {
        self.fires.entities(e)
    }

    /// The fuel grid of environment `e`.
    pub closed spec fn fuel_in(&self, e: int) -> Seq<u32> {
        let n = self.config.initial_fuel.len() as int;
        self.fuel@.subrange(e * n, e * n + n)
    }

    /// Every environment holds exactly the entities that the configuration
    /// declares, identities counted from the current base, and the configured
    /// fuel.
    pub open spec fn is_reset_state(&self) -> bool {
        forall|e: int|
            0 <= e < self.spec_config().num_envs ==> {
                &&& #[trigger] self.agents_in(e) == expand(
                    self.spec_config().agents@,
                    self.spec_id_base(),
                )
                &&& self.fires_in(e) == expand(self.spec_config().fires@, self.spec_id_base())
                &&& self.fuel_in(e) == self.spec_config().initial_fuel@
            }
    }

    /// An environment batch for a valid configuration, with every environment
    /// empty; rejects an invalid configuration before allocating anything.
    pub fn new(config: WildfireConfig) -> (r: Result<WildfireEnv, WildfireError>)
        ensures
            r is Ok <==> config.spec_valid(),
            r matches Err(e) ==> e is InvalidWildfireOperation,
            r matches Ok(env) ==> env.wf() && env.spec_config() == config && forall|e: int|
                0 <= e < config.num_envs ==> (#[trigger] env.agents_in(e)).len() == 0
                    && env.fires_in(e).len() == 0,
    {
        match config.validate() {
            Err(e) => {
                return Err(e);
            },
            Ok(()) => {},
        }
        let blank_agent = Agent { id: 0, x: 0, y: 0, suppressant: 0, equipment: 0 };
        let blank_fire = Fire { id: 0, x: 0, y: 0, power: 0, intensity: 0 };
        let agents = EntityStore::<AgentColumns>::new(config.num_envs, config.max_agents, blank_agent);
        let fires = EntityStore::<FireColumns>::new(config.num_envs, config.max_fires, blank_fire);
        let n = config.num_envs * config.initial_fuel.len();
        let mut fuel: Vec<u32> = Vec::new();
        let mut i: usize = 0;
        while i < n
            invariant
                i <= n,
                fuel.len() == i,
            decreases n - i,
        {
            fuel.push(0);
            i = i + 1;
        }
        let env = WildfireEnv { config, agents, fires, fuel, id_base: 0, seed: None };
        assert forall|e: int| 0 <= e < config.num_envs implies (#[trigger] env.agents_in(e)).len()
            == 0 && env.fires_in(e).len() == 0 by {}
        Ok(env)
    }

    /// The configuration.
    pub fn config(&self) -> (r: &WildfireConfig)
        ensures
            *r == self.spec_config(),
    {
        &self.config
    }

    /// The seed of the last reset, if it was seeded.
    pub fn last_seed(&self) -> (r: Option<u64>)
        ensures
            r == self.spec_last_seed(),
    {
        self.seed
    }

    /// The live agents of every environment, in slot order.
    pub fn agents(&self) -> (r: &EntityStore<AgentColumns>)
        ensures
            forall|e: int| #[trigger] r.entities(e) == self.agents_in(e),
    {
        &self.agents
    }

    /// The live fires of every environment, in slot order.
    pub fn fires(&self) -> (r: &EntityStore<FireColumns>)
        ensures
            forall|e: int| #[trigger] r.entities(e) == self.fires_in(e),
    {
        &self.fires
    }

    /// The fuel grid of environment `env`.
    pub fn fuel(&self, env: usize) -> (r: Vec<u32>)
        requires
            self.wf(),
            env < self.spec_config().num_envs,
        ensures
            r@ == self.fuel_in(env as int),
    {
        let n = self.config.initial_fuel.len();
        proof {
            lemma_window_in_bounds(env as int, self.config.num_envs as int, n as int);
        }
        let start = env * n;
        let mut out: Vec<u32> = Vec::new();
        let mut i: usize = 0;
        while i < n
            invariant
                i <= n,
                n == self.config.initial_fuel.len(),
                start == env * n,
                start + n <= self.fuel.len(),
                out@ == self.fuel@.subrange(start as int, start + i),
            decreases n - i,
        {
            out.push(self.fuel[start + i]);
            i = i + 1;
            assert(out@ =~= self.fuel@.subrange(start as int, start + i));
        }
        out
    }

    /// Clears every store and array, then repopulates every environment
    /// identically from the configuration, identities drawn from fresh entropy.
    pub fn reset(&mut self)
        requires
            old(self).wf(),
        ensures
            final(self).wf(),
            final(self).spec_config() == old(self).spec_config(),
            final(self).is_reset_state(),
            final(self).spec_last_seed() is None,
    {
        let base = draw_index_fresh(ID_SPAN) as u64;
        self.seed = None;
        self.reset_with_id_base(base);
    }

    /// Clears every store and array, then repopulates every environment
    /// identically from the configuration, identities derived from `seed`: the
    /// result depends on the configuration and the seed alone.
    pub fn reset_seeded(&mut self, seed: u64)
        requires
            old(self).wf(),
        ensures
            final(self).wf(),
            final(self).spec_config() == old(self).spec_config(),
            final(self).is_reset_state(),
            final(self).spec_id_base() == seeded_id_base(seed),
            final(self).spec_last_seed() == Some(seed),
    {
        let base = draw_index_seeded(seed, ID_SPAN) as u64;
        self.seed = Some(seed);
        self.reset_with_id_base(base);
    }

    /// Clears every store and array, then repopulates every environment
    /// identically from the configuration, identities counted from `base`.
    pub fn reset_with_id_base(&mut self, base: u64)
        requires
            old(self).wf(),
        ensures
            final(self).wf(),
            final(self).spec_config() == old(self).spec_config(),
            final(self).spec_id_base() == base,
            final(self).spec_last_seed() == old(self).spec_last_seed(),
            final(self).is_reset_state(),
    {
        self.agents.clear();
        self.fires.clear();
        populate(&mut self.agents, &self.config.agents, base);
        populate(&mut self.fires, &self.config.fires, base);
        self.id_base = base;
        self.fill_fuel();
    }

    /// Copies the configured fuel into every environment's grid.
    fn fill_fuel(&mut self)
        requires
            old(self).wf(),
        ensures
            final(self).wf(),
            final(self).config == old(self).config,
            final(self).agents == old(self).agents,
            final(self).fires == old(self).fires,
            final(self).id_base == old(self).id_base,
            final(self).seed == old(self).seed,
            forall|e: int|
                0 <= e < final(self).config.num_envs ==> #[trigger] final(self).fuel_in(e)
                    == final(self).config.initial_fuel@,
    {
        let n = self.config.initial_fuel.len();
        let envs = self.config.num_envs;
        let mut e: usize = 0;
        while e < envs
            invariant
                self.wf(),
                self.config == old(self).config,
                self.agents == old(self).agents,
                self.fires == old(self).fires,
                self.id_base == old(self).id_base,
                self.seed == old(self).seed,
                n == self.config.initial_fuel.len(),
                envs == self.config.num_envs,
                e <= envs,
                forall|k: int| 0 <= k < e ==> #[trigger] self.fuel_in(k) == self.config.initial_fuel@,
            decreases envs - e,
        {
            proof {
                lemma_window_in_bounds(e as int, envs as int, n as int);
            }
            let start = e * n;
            let mut c: usize = 0;
            while c < n
                invariant
                    self.wf(),
                    self.config == old(self).config,
                    self.agents == old(self).agents,
                    self.fires == old(self).fires,
                    self.id_base == old(self).id_base,
                    self.seed == old(self).seed,
                self.seed == old(self).seed,
                    n == self.config.initial_fuel.len(),
                    envs == self.config.num_envs,
                    e < envs,
                    start == e * n,
                    start + n <= self.fuel.len(),
                    c <= n,
                    forall|k: int| 0 <= k < e ==> #[trigger] self.fuel_in(k) == self.config.initial_fuel@,
                    self.fuel@.subrange(start as int, start + c) == self.config.initial_fuel@.take(
                        c as int,
                    ),
                decreases n - c,
            {
                let ghost before = *self;
                let v = self.config.initial_fuel[c];
                self.fuel.set(start + c, v);
                proof {
                    assert forall|k: int| 0 <= k < e implies #[trigger] self.fuel_in(k)
                        == self.config.initial_fuel@ by {
                        crate::store::lemma_windows_disjoint(k, e as int, n as int);
                        lemma_window_in_bounds(k, envs as int, n as int);
                        assert(self.fuel_in(k) =~= before.fuel_in(k));
                    }
                    assert(self.fuel@.subrange(start as int, start + c + 1)
                        =~= self.config.initial_fuel@.take(c + 1));
                }
                c = c + 1;
            }
            proof {
                assert(self.config.initial_fuel@.take(n as int) =~= self.config.initial_fuel@);
            }
            e = e + 1;
        }
    }
}


/// A seeded reset is reproducible: two resets with one seed, of environments with
/// one configuration, leave identical entity sets and fuel grids, whatever the
/// states before.
pub proof fn lemma_reset_seeded_reproducible(x: WildfireEnv, y: WildfireEnv, seed: u64)
    requires
        x.spec_config() == y.spec_config(),
        x.is_reset_state(),
        y.is_reset_state(),
        x.spec_id_base() == seeded_id_base(seed),
        y.spec_id_base() == seeded_id_base(seed),
    ensures
        forall|e: int|
            0 <= e < x.spec_config().num_envs ==> #[trigger] x.agents_in(e) == y.agents_in(e)
                && x.fires_in(e) == y.fires_in(e) && x.fuel_in(e) == y.fuel_in(e),
{
}


/// The no-op branch of an action space.
pub open spec fn no_op_space() -> Space {
    Space::Discrete(Discrete { n: 1, start: 0 })
}

/// A choice among `count` targets, numbered from zero.
pub open spec fn target_space(count: nat) -> Space {
    Space::Discrete(
        Discrete { n: if count <= i32::MAX { count as i32 } else { i32::MAX }, start: 0 },
    )
}

impl WildfireEnv {
    /// The action space of an agent of environment `env`: a choice between a
    /// no-op and one target per live fire (at most `i32::MAX` targets). It
    /// follows the live state, so it is to be derived anew after every change.
    pub fn action_space(&self, env: usize) -> (r: Option<Space>)
        requires
            self.wf(),
        ensures
            r is Some <==> env < self.spec_config().num_envs,
            r matches Some(s) ==> (s matches Space::OneOf(o) && o.spaces@ == seq![
                no_op_space(),
                target_space(self.fires_in(env as int).len()),
            ]),
    {
        if env >= self.config.num_envs {
            return None;
        }
        let count = self.fires.live_count(env);
        let n: i32 = if count <= i32::MAX as usize { count as i32 } else { i32::MAX };
        let mut spaces: Vec<Space> = Vec::new();
        spaces.push(Space::new_discrete(1, 0));
        spaces.push(Space::new_discrete(n, 0));
        assert(spaces@ =~= seq![no_op_space(), target_space(self.fires_in(env as int).len())]);
        Some(Space::new_one_of(spaces))
    }

    /// Every agent's actions hold one sample per environment, each a legal action
    /// there.
    pub open spec fn actions_legal(&self, actions: Seq<AgentActions>) -> bool {
        forall|i: int|
            0 <= i < actions.len() ==> {
                let a = #[trigger] actions[i];
                &&& a.samples.len() == self.spec_config().num_envs
                &&& forall|e: int|
                    0 <= e < a.samples.len() ==> legal_action(
                        self.fires_in(e).len(),
                        (#[trigger] a.samples@[e])@,
                    )
            }
    }

    /// Validates the actions against each environment's current action space,
    /// then advances every environment by one step through `backend`. On invalid
    /// actions nothing changes and `InvalidWildfireOperation` is returned.
    pub fn step<B: WildfireBackend>(&mut self, backend: &mut B, actions: &Vec<AgentActions>) -> (r:
        Result<(), WildfireError>)
        requires
            old(self).wf(),
        ensures
            final(self).wf(),
            final(self).spec_config() == old(self).spec_config(),
            r is Ok <==> old(self).actions_legal(actions@),
            r matches Err(e) ==> e is InvalidWildfireOperation && *final(self) == *old(self),
    {
        let n = self.config.num_envs;
        let mut i: usize = 0;
        while i < actions.len()
            invariant
                self.wf(),
                *self == *old(self),
                n == self.spec_config().num_envs,
                i <= actions.len(),
                forall|j: int|
                    0 <= j < i ==> {
                        let a = #[trigger] actions@[j];
                        &&& a.samples.len() == n
                        &&& forall|e: int|
                            0 <= e < a.samples.len() ==> legal_action(
                                self.fires_in(e).len(),
                                (#[trigger] a.samples@[e])@,
                            )
                    },
            decreases actions.len() - i,
        {
            let a = &actions[i];
            if a.samples.len() != n {
                return Err(invalid("an agent's actions do not match the environments"));
            }
            let mut e: usize = 0;
            while e < n
                invariant
                    self.wf(),
                    *self == *old(self),
                    n == self.spec_config().num_envs,
                    i < actions.len(),
                    *a == actions@[i as int],
                    a.samples.len() == n,
                    e <= n,
                    forall|k: int|
                        0 <= k < e ==> legal_action(
                            self.fires_in(k).len(),
                            (#[trigger] a.samples@[k])@,
                        ),
                decreases n - e,
            {
                match self.action_space(e) {
                    Some(space) => {
                        let ok = space.contains(&a.samples[e]);
                        proof {
                            lemma_action_space_admits(
                                space,
                                self.fires_in(e as int).len(),
                                a.samples@[e as int]@,
                            );
                        }
                        if !ok {
                            assert(!legal_action(
                                self.fires_in(e as int).len(),
                                a.samples@[e as int]@,
                            ));
                            assert(!old(self).actions_legal(actions@)) by {
                                if old(self).actions_legal(actions@) {
                                    let b = actions@[i as int];
                                    assert(b.samples@[e as int] == a.samples@[e as int]);
                                }
                            }
                            return Err(invalid("an action lies outside its action space"));
                        }
                    },
                    None => {},
                }
                e = e + 1;
            }
            i = i + 1;
        }
        backend.step_batch(self, actions);
        Ok(())
    }
}

/// Whether `m` is a legal action where `count` fires are live: the no-op, or a
/// target among the live fires (at most `i32::MAX` of them).
pub open spec fn legal_action(count: nat, m: SampleModel) -> bool {
    match m {
        SampleModel::OneOf(k, x) => (k == 0 && *x == SampleModel::Discrete(0)) || (k == 1 && (
        *x matches SampleModel::Discrete(v) && 0 <= v && v < count && v < i32::MAX)),
        _ => false,
    }
}

/// An action space of the shape that `action_space` builds admits exactly the
/// legal actions.
pub proof fn lemma_action_space_admits(s: Space, count: nat, m: SampleModel)
    requires
        s matches Space::OneOf(o) && o.spaces@ == seq![no_op_space(), target_space(count)],
    ensures
        s.admits(m) == legal_action(count, m),
{
    let o = s->OneOf_0;
    assert(match s {
        Space::OneOf(t) => t == o,
        _ => false,
    });
    assert(o.spaces@[0] == no_op_space());
    assert(o.spaces@[1] == target_space(count));
    assert(o.spaces.len() == 2);
    match m {
        SampleModel::OneOf(k, x) => {
            if k == 0 {
                assert(eligible(no_op_space()));
                assert(no_op_space().admits(*x) == (*x == SampleModel::Discrete(0)));
            } else if k == 1 {
                let t = target_space(count);
                assert(eligible(t) == (count > 0));
                assert(t.admits(*x) == (count > 0 && (*x matches SampleModel::Discrete(v) && 0 <= v
                    && v < count && v < i32::MAX)));
            }
        },
        _ => {},
    }
}

} // verus!
