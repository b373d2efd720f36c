//! The batched entity store: a fixed-capacity, structure-of-arrays store that
//! holds a variable number of entities per environment inside one flat
//! allocation, each environment owning the slice
//! `[env * max_per_env, (env + 1) * max_per_env)` of it.
use crate::error::CoreError;
use vstd::prelude::*;

verus! {

/// An entity record that carries an identity and a grid position.
pub trait Entity: Copy {
    /// The record with its identity replaced by `id`.
    spec fn spec_with_id(&self, id: u64) -> Self;

    /// The grid position `(x, y)` of the record.
    spec fn spec_position(&self) -> (usize, usize);

    fn with_id(&self, id: u64) -> (r: Self)
        ensures
            r == self.spec_with_id(id),
    ;

    fn position(&self) -> (r: (usize, usize))
        ensures
            r == self.spec_position(),
    ;
}

/// The per-field columns of one entity kind: one array per attribute, all of
/// one length.
pub trait Columns: Sized {
    /// One entity, all of its fields together.
    type Record: Entity;

    /// The columns are of one length.
    spec fn wf(&self) -> bool;

    /// The record at each slot.
    spec fn slots(&self) -> Seq<Self::Record>;

    /// `n` slots, each holding `fill`.
    fn filled(n: usize, fill: Self::Record) -> (r: Self)
        ensures
            r.wf(),
            r.slots() == Seq::new(n as nat, |i: int| fill),
    ;

    /// The record at slot `i`.
    fn read(&self, i: usize) -> (r: Self::Record)
        requires
            self.wf(),
            i < self.slots().len(),
        ensures
            r == self.slots()[i as int],
    ;

    /// Writes `rec` into slot `i`, field by field.
    fn write(&mut self, i: usize, rec: Self::Record)
        requires
            old(self).wf(),
            i < old(self).slots().len(),
        ensures
            final(self).wf(),
            final(self).slots() == old(self).slots().update(i as int, rec),
    ;
}

/// Entities of one kind for `num_envs` environments, at most `max_per_env` each.
pub struct EntityStore<C: Columns> {
    num_envs: usize,
    max_per_env: usize,
    /// The live window `(start, end)` of each environment.
    windows: Vec<(usize, usize)>,
    columns: C,
}

/// A read-only window onto the live entities of one environment.
pub struct EnvView<'a, C: Columns> {
    columns: &'a C,
    start: usize,
    end: usize,
}

impl<C: Columns> EntityStore<C> {
    /// Windows stay inside their environment's reserved slice, start at its
    /// beginning, and never exceed the capacity.
    pub closed spec fn wf(&self) -> bool {
        &&& self.windows.len() == self.num_envs
        &&& self.columns.wf()
        &&& self.columns.slots().len() == self.num_envs * self.max_per_env
        &&& self.max_per_env < usize::MAX
        &&& self.num_envs * self.max_per_env <= usize::MAX
        &&& forall|e: int|
            0 <= e < self.num_envs ==> {
                let (s, t) = #[trigger] self.windows@[e];
                &&& s == e * self.max_per_env
                &&& s <= t <= s + self.max_per_env
            }
    }

    pub closed spec fn spec_num_envs(&self) -> nat {
        self.num_envs as nat
    }

    pub closed spec fn spec_max_per_env(&self) -> nat {
        self.max_per_env as nat
    }

    /// The live window `[start, end)` of environment `e`.
    pub closed spec fn window(&self, e: int) -> (int, int) {
        (self.windows@[e].0 as int, self.windows@[e].1 as int)
    }

    /// The live entities of environment `e`, in slot order.
    pub closed spec fn entities(&self, e: int) -> Seq<C::Record> {
        self.columns.slots().subrange(self.window(e).0, self.window(e).1)
    }

    /// An empty store for `num_envs` environments of `max_per_env` entities each,
    /// every slot holding `fill`.
    pub fn new(num_envs: usize, max_per_env: usize, fill: C::Record) -> (r: Self)
        requires
            num_envs * max_per_env <= usize::MAX,
            max_per_env < usize::MAX,
        ensures
            r.wf(),
            r.spec_num_envs() == num_envs,
            r.spec_max_per_env() == max_per_env,
            forall|e: int| 0 <= e < num_envs ==> #[trigger] r.entities(e).len() == 0,
    {
        let columns = C::filled(num_envs * max_per_env, fill);
        let mut windows: Vec<(usize, usize)> = Vec::new();
        let mut e: usize = 0;
        while e < num_envs
            invariant
                e <= num_envs,
                num_envs * max_per_env <= usize::MAX,
                windows.len() == e,
                forall|k: int|
                    0 <= k < e ==> (#[trigger] windows@[k]).0 == k * max_per_env && windows@[k].1
                        == windows@[k].0,
            decreases num_envs - e,
        {
            proof {
                assert(e * max_per_env <= num_envs * max_per_env) by (nonlinear_arith)
                    requires
                        e < num_envs,
                ;
            }
            let s = e * max_per_env;
            windows.push((s, s));
            e = e + 1;
        }
        let r = EntityStore { num_envs, max_per_env, windows, columns };
        assert forall|k: int| 0 <= k < num_envs implies #[trigger] r.entities(k).len() == 0 by {
            lemma_window_in_bounds(k, num_envs as int, max_per_env as int);
        }
        r
    }

    /// Number of environments.
    pub fn num_envs(&self) -> (r: usize)
        ensures
            r == self.spec_num_envs(),
    {
        self.num_envs
    }

    /// The most entities one environment may hold.
    pub fn max_per_env(&self) -> (r: usize)
        ensures
            r == self.spec_max_per_env(),
    {
        self.max_per_env
    }

    /// Number of live entities of environment `env`.
    pub fn live_count(&self, env: usize) -> (r: usize)
        requires
            self.wf(),
            env < self.spec_num_envs(),
        ensures
            r == self.entities(env as int).len(),
    {
        let (s, t) = self.windows[env];
        proof {
            lemma_window_in_bounds(env as int, self.num_envs as int, self.max_per_env as int);
        }
        t - s
    }

    /// Empties every environment, without touching the field data.
    pub fn clear(&mut self)
        requires
            old(self).wf(),
        ensures
            final(self).wf(),
            final(self).spec_num_envs() == old(self).spec_num_envs(),
            final(self).spec_max_per_env() == old(self).spec_max_per_env(),
            forall|e: int|
                0 <= e < final(self).spec_num_envs() ==> #[trigger] final(self).entities(e).len()
                    == 0,
    {
        let mut e: usize = 0;
        while e < self.windows.len()
            invariant
                self.wf(),
                self.num_envs == old(self).num_envs,
                self.max_per_env == old(self).max_per_env,
                e <= self.num_envs,
                forall|k: int| 0 <= k < e ==> #[trigger] self.entities(k).len() == 0,
            decreases self.num_envs - e,
        {
            let s = self.windows[e].0;
            let ghost before = *self;
            self.windows.set(e, (s, s));
            proof {
                assert forall|k: int| 0 <= k < e + 1 implies #[trigger] self.entities(k).len()
                    == 0 by {
                    lemma_window_in_bounds(k, self.num_envs as int, self.max_per_env as int);
                    if k < e {
                        assert(self.windows@[k] == before.windows@[k]);
                        assert(before.entities(k).len() == 0);
                    }
                }
            }
            e = e + 1;
        }
    }

    /// Appends `rec` to the live entities of `env`; fails, changing nothing, when
    /// `env` is not an environment of the store or its window is full.
    pub fn add(&mut self, env: usize, rec: C::Record) -> (r: Result<(), CoreError>)
        requires
            old(self).wf(),
        ensures
            final(self).wf(),
            final(self).spec_num_envs() == old(self).spec_num_envs(),
            final(self).spec_max_per_env() == old(self).spec_max_per_env(),
            env >= old(self).spec_num_envs() ==> r == Err::<(), CoreError>(
                CoreError::IndexOutOfBounds(env),
            ) && *final(self) == *old(self),
            env < old(self).spec_num_envs() && old(self).entities(env as int).len()
                == old(self).spec_max_per_env() ==> r == Err::<(), CoreError>(
                CoreError::CapacityExceeded {
                    attempted: (old(self).spec_max_per_env() + 1) as usize,
                    max: old(self).spec_max_per_env() as usize,
                },
            ) && *final(self) == *old(self),
            env < old(self).spec_num_envs() && old(self).entities(env as int).len()
                < old(self).spec_max_per_env() ==> r is Ok && final(self).entities(env as int)
                == old(self).entities(env as int).push(rec) && forall|e: int|
                0 <= e < old(self).spec_num_envs() && e != env
                    ==> #[trigger] final(self).entities(e) == old(self).entities(e),
    {
        if env >= self.windows.len() {
            return Err(CoreError::IndexOutOfBounds(env));
        }
        let (s, t) = self.windows[env];
        proof {
            lemma_window_in_bounds(env as int, self.num_envs as int, self.max_per_env as int);
        }
        if t - s == self.max_per_env {
            return Err(
                CoreError::CapacityExceeded {
                    attempted: self.max_per_env + 1,
                    max: self.max_per_env,
                },
            );
        }
        proof {
            lemma_window_in_bounds(env as int, self.num_envs as int, self.max_per_env as int);
        }
        let ghost before = *self;
        self.columns.write(t, rec);
        self.windows.set(env, (s, t + 1));
        proof {
            assert(self.entities(env as int) =~= before.entities(env as int).push(rec));
            assert forall|e: int|
                0 <= e < self.num_envs && e != env implies #[trigger] self.entities(e)
                == before.entities(e) by {
                lemma_windows_disjoint(e, env as int, self.max_per_env as int);
                lemma_window_in_bounds(e, self.num_envs as int, self.max_per_env as int);
                assert(self.entities(e) =~= before.entities(e));
            }
        }
        Ok(())
    }

    /// Removes the live entity at `local` of `env` by swap-delete: the last live
    /// entity moves into its slot and the window shrinks by one. Fails, changing
    /// nothing, when `env` is not an environment of the store or `local` is not
    /// live.
    pub fn remove(&mut self, env: usize, local: usize) -> (r: Result<(), CoreError>)
        requires
            old(self).wf(),
        ensures
            final(self).wf(),
            final(self).spec_num_envs() == old(self).spec_num_envs(),
            final(self).spec_max_per_env() == old(self).spec_max_per_env(),
            env >= old(self).spec_num_envs() ==> r == Err::<(), CoreError>(
                CoreError::IndexOutOfBounds(env),
            ) && *final(self) == *old(self),
            env < old(self).spec_num_envs() && local >= old(self).entities(env as int).len()
                ==> r == Err::<(), CoreError>(CoreError::IndexOutOfBounds(local)) && *final(self)
                == *old(self),
            env < old(self).spec_num_envs() && local < old(self).entities(env as int).len() ==> {
                let before = old(self).entities(env as int);
                &&& r is Ok
                &&& final(self).entities(env as int) == before.update(
                    local as int,
                    before.last(),
                ).drop_last()
                &&& final(self).entities(env as int).to_multiset() == before.to_multiset().remove(
                    before[local as int],
                )
                &&& forall|e: int|
                    0 <= e < old(self).spec_num_envs() && e != env
                        ==> #[trigger] final(self).entities(e) == old(self).entities(e)
            },
    {
        if env >= self.windows.len() {
            return Err(CoreError::IndexOutOfBounds(env));
        }
        let (s, t) = self.windows[env];
        proof {
            lemma_window_in_bounds(env as int, self.num_envs as int, self.max_per_env as int);
        }
        if local >= t - s {
            return Err(CoreError::IndexOutOfBounds(local));
        }
        proof {
            lemma_window_in_bounds(env as int, self.num_envs as int, self.max_per_env as int);
        }
        let ghost before = *self;
        let last = t - 1;
        let slot = s + local;
        if slot != last {
            let moved = self.columns.read(last);
            self.columns.write(slot, moved);
        }
        self.windows.set(env, (s, last));
        proof {
            let b = before.entities(env as int);
            assert(self.entities(env as int) =~= b.update(local as int, b.last()).drop_last());
            lemma_swap_delete_keeps_survivors(b, local as int);
            assert forall|e: int|
                0 <= e < self.num_envs && e != env implies #[trigger] self.entities(e)
                == before.entities(e) by {
                lemma_windows_disjoint(e, env as int, self.max_per_env as int);
                lemma_window_in_bounds(e, self.num_envs as int, self.max_per_env as int);
                assert(self.entities(e) =~= before.entities(e));
            }
        }
        Ok(())
    }

    /// A read-only view of the live entities of `env`, or `None` when `env` is
    /// not an environment of the store.
    pub fn index_view(&self, env: usize) -> (r: Option<EnvView<'_, C>>)
        requires
            self.wf(),
        ensures
            env < self.spec_num_envs() <==> r is Some,
            r matches Some(v) ==> v.wf() && v.entities() == self.entities(env as int),
    {
        if env >= self.windows.len() {
            return None;
        }
        let (s, t) = self.windows[env];
        proof {
            lemma_window_in_bounds(env as int, self.num_envs as int, self.max_per_env as int);
        }
        Some(EnvView { columns: &self.columns, start: s, end: t })
    }
}

impl<'a, C: Columns> EnvView<'a, C> {
    pub closed spec fn wf(&self) -> bool {
        self.columns.wf() && self.start <= self.end <= self.columns.slots().len()
    }

    /// The entities seen through the view.
    pub closed spec fn entities(&self) -> Seq<C::Record> {
        self.columns.slots().subrange(self.start as int, self.end as int)
    }

    /// Number of entities seen.
    pub fn len(&self) -> (r: usize)
        requires
            self.wf(),
        ensures
            r == self.entities().len(),
    {
        self.end - self.start
    }

    /// The entity at local index `i`.
    pub fn get(&self, i: usize) -> (r: C::Record)
        requires
            self.wf(),
            i < self.entities().len(),
        ensures
            r == self.entities()[i as int],
    {
        self.columns.read(self.start + i)
    }
}

/// Read-only, per-environment views onto batched data.
pub trait IndexView<'a> {
    type View;

    /// The data is ready to be viewed.
    spec fn viewable(&self) -> bool;

    /// Whether `v` is a faithful view of environment `idx`.
    spec fn views(&self, idx: int, v: Self::View) -> bool;

    /// The view of environment `idx`.
    fn index_view(&'a self, idx: usize) -> (r: Self::View)
        requires
            self.viewable(),
        ensures
            self.views(idx as int, r),
    ;

    /// The views of the environments `indices`, in order.
    fn index_views(&'a self, indices: &Vec<usize>) -> (r: Vec<Self::View>)
        requires
            self.viewable(),
        ensures
            r.len() == indices.len(),
            forall|i: int| 0 <= i < r.len() ==> self.views(indices@[i] as int, #[trigger] r@[i]),
    {
        let mut out: Vec<Self::View> = Vec::new();
        let mut i: usize = 0;
        while i < indices.len()
            invariant
                self.viewable(),
                i <= indices.len(),
                out.len() == i,
                forall|k: int| 0 <= k < i ==> self.views(indices@[k] as int, #[trigger] out@[k]),
            decreases indices.len() - i,
        {
            out.push(self.index_view(indices[i]));
            i = i + 1;
        }
        out
    }
}

impl<'a, C: Columns + 'a> IndexView<'a> for EntityStore<C> {
    type View = Option<EnvView<'a, C>>;

    open spec fn viewable(&self) -> bool {
        self.wf()
    }

    open spec fn views(&self, idx: int, v: Option<EnvView<'a, C>>) -> bool {
        &&& (v is Some <==> 0 <= idx < self.spec_num_envs())
        &&& v matches Some(w) ==> w.wf() && w.entities() == self.entities(idx)
    }

    fn index_view(&'a self, idx: usize) -> (r: Option<EnvView<'a, C>>) {
        EntityStore::index_view(self, idx)
    }
}

/// The reserved slice of environment `e` lies inside the whole allocation.
pub proof fn lemma_window_in_bounds(e: int, num_envs: int, cap: int)
    requires
        0 <= e < num_envs,
        0 <= cap,
    ensures
        0 <= e * cap,
        e * cap + cap <= num_envs * cap,
{
    assert(e * cap + cap <= num_envs * cap) by (nonlinear_arith)
        requires
            0 <= e < num_envs,
            0 <= cap,
    ;
    assert(0 <= e * cap) by (nonlinear_arith)
        requires
            0 <= e,
            0 <= cap,
    ;
}

/// The reserved slices of two distinct environments do not overlap.
pub proof fn lemma_windows_disjoint(a: int, b: int, cap: int)
    requires
        0 <= a,
        0 <= b,
        a != b,
        0 <= cap,
    ensures
        a * cap + cap <= b * cap || b * cap + cap <= a * cap,
{
    if a < b {
        assert(a * cap + cap <= b * cap) by (nonlinear_arith)
            requires
                a < b,
                0 <= cap,
        ;
    } else {
        assert(b * cap + cap <= a * cap) by (nonlinear_arith)
            requires
                b < a,
                0 <= cap,
        ;
    }
}


/// The live windows of two distinct environments of a store never overlap; as
/// every operation keeps the store well formed, this holds before and after
/// any sequence of them.
pub proof fn lemma_store_windows_disjoint<C: Columns>(store: &EntityStore<C>, a: int, b: int)
    requires
        store.wf(),
        0 <= a < store.spec_num_envs(),
        0 <= b < store.spec_num_envs(),
        a != b,
    ensures
        store.window(a).1 <= store.window(b).0 || store.window(b).1 <= store.window(a).0,
        store.window(a).0 <= store.window(a).1 <= store.window(a).0 + store.spec_max_per_env(),
{
    lemma_windows_disjoint(a, b, store.max_per_env as int);
}


/// Swap-delete keeps the survivors: after removing the entity at `local` by
/// moving the last one into its place, the live entities are, as a multiset,
/// those before less the removed one.
pub proof fn lemma_swap_delete_keeps_survivors<R>(before: Seq<R>, local: int)
    requires
        0 <= local < before.len(),
    ensures
        before.update(local, before.last()).drop_last().to_multiset() == before.to_multiset().remove(
            before[local],
        ),
{
    broadcast use vstd::seq_lib::group_to_multiset_ensures;

    let n = before.len() - 1;
    let t = before.update(local, before.last());
    assert(t.remove(local) =~= before.remove(local));
    assert(t.drop_last() =~= t.remove(n));
    assert(t[local] == t[n]);
}

} // verus!
