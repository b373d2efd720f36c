//! Spaces: descriptions of sets of legal values, with seeded sampling and
//! exhaustive enumeration over arbitrarily nested compositions.
use crate::rng::{
    draw_fresh, draw_index_fresh, draw_index_seeded, draw_seeded, seeded_draws, seeded_index,
};
use vstd::arithmetic::div_mod::lemma_fundamental_div_mod_converse;
use vstd::prelude::*;

verus! {

/// Integers in `[start, start + n)`; empty when `n <= 0`, and giving no value
/// either when its values would pass `i32::MAX`.
#[derive(Debug)]
pub struct Discrete {
    pub n: i32,
    pub start: i32,
}

/// A fixed-length integer vector whose component `i` lies in `[low[i], high[i]]`.
#[derive(Debug)]
pub struct Box {
    pub low: Vec<i32>,
    pub high: Vec<i32>,
}

/// A discriminated union over an ordered list of sub-spaces.
#[derive(Debug)]
pub struct OneOf {
    pub spaces: Vec<Space>,
}

/// An ordered, fixed-arity composite.
#[derive(Debug)]
pub struct TupleSpace {
    pub spaces: Vec<Space>,
}

/// Named sub-spaces, kept in declared order; the names are pairwise distinct.
#[derive(Debug)]
pub struct DictSpace {
    pub spaces: Vec<(String, Space)>,
}

/// Independent spaces, one per slot.
#[derive(Debug)]
pub struct VectorSpace {
    pub spaces: Vec<Space>,
}

/// A space of any kind.
#[derive(Debug)]
pub enum Space {
    Discrete(Discrete),
    Box(Box),
    OneOf(OneOf),
    Tuple(TupleSpace),
    Dict(DictSpace),
    Vector(VectorSpace),
}

/// A value drawn from a `Discrete` space.
#[derive(Clone, Copy, Debug, PartialEq, Eq, Structural)]
pub struct DiscreteSample(pub i32);

/// A value drawn from a `Box` space.
#[derive(Debug)]
pub struct BoxSample(pub Vec<i32>);

/// A value drawn from a `OneOf` space: the chosen branch and its sample.
#[derive(Debug)]
pub struct OneOfSample(pub usize, pub std::boxed::Box<Sample>);

/// A value drawn from a `TupleSpace`.
#[derive(Debug)]
pub struct TupleSample(pub Vec<Sample>);

/// A value drawn from a `DictSpace`: one sample per name, in declared order.
#[derive(Debug)]
pub struct DictSample(pub Vec<(String, Sample)>);

/// A value drawn from a `VectorSpace`: one sample per slot.
#[derive(Debug)]
pub struct VectorSample(pub Vec<Sample>);

/// A value of one of the spaces, tagged with its kind.
#[derive(Debug)]
pub enum Sample {
    Discrete(DiscreteSample),
    Box(BoxSample),
    OneOf(OneOfSample),
    Tuple(TupleSample),
    Dict(DictSample),
    Vector(VectorSample),
}

/// The mathematical value of a `Sample`.
pub enum SampleModel {
    Discrete(i32),
    Box(Seq<i32>),
    OneOf(usize, std::boxed::Box<SampleModel>),
    Tuple(Seq<SampleModel>),
    Dict(Seq<(Seq<char>, SampleModel)>),
    Vector(Seq<SampleModel>),
}

/// The models of a sequence of samples.
pub open spec fn models(s: Seq<Sample>) -> Seq<SampleModel>
    decreases s,
{
    Seq::new(s.len(), |i: int| if 0 <= i < s.len() { s[i]@ } else { SampleModel::Discrete(0) })
}

/// The models of a sequence of named samples.
pub open spec fn named_models(s: Seq<(String, Sample)>) -> Seq<(Seq<char>, SampleModel)>
    decreases s,
{
    Seq::new(
        s.len(),
        |i: int|
            if 0 <= i < s.len() {
                (s[i].0@, s[i].1@)
            } else {
                (Seq::empty(), SampleModel::Discrete(0))
            },
    )
}

impl Sample {
    pub open spec fn view(&self) -> SampleModel
        decreases *self,
    {
        match *self {
            Sample::Discrete(d) => SampleModel::Discrete(d.0),
            Sample::Box(b) => SampleModel::Box(b.0@),
            Sample::OneOf(o) => SampleModel::OneOf(o.0, std::boxed::Box::new((*o.1)@)),
            Sample::Tuple(t) => SampleModel::Tuple(models(t.0@)),
            Sample::Dict(d) => SampleModel::Dict(named_models(d.0@)),
            Sample::Vector(v) => SampleModel::Vector(models(v.0@)),
        }
    }
}

/// Every model of `s` is the model of the sample at the same place.
pub proof fn lemma_models(s: Seq<Sample>)
    ensures
        models(s).len() == s.len(),
        forall|k: int| 0 <= k < s.len() ==> #[trigger] models(s)[k] == s[k]@,
{
}

/// Every named model of `s` is the name and model of the entry at the same place.
pub proof fn lemma_named_models(s: Seq<(String, Sample)>)
    ensures
        named_models(s).len() == s.len(),
        forall|k: int|
            0 <= k < s.len() ==> #[trigger] named_models(s)[k] == (s[k].0@, s[k].1@),
{
}

impl Sample {
    /// A copy of the sample.
    pub fn deep_copy(&self) -> (r: Sample)
        ensures
            r@ == self@,
        decreases self,
    {
        match self {
            Sample::Discrete(d) => Sample::Discrete(DiscreteSample(d.0)),
            Sample::Box(b) => Sample::Box(BoxSample(copy_ints(&b.0))),
            Sample::OneOf(o) => {
                let inner = o.1.deep_copy();
                Sample::OneOf(OneOfSample(o.0, std::boxed::Box::new(inner)))
            },
            Sample::Tuple(t) => Sample::Tuple(TupleSample(copy_samples(&t.0))),
            Sample::Dict(d) => Sample::Dict(DictSample(copy_named(&d.0))),
            Sample::Vector(v) => Sample::Vector(VectorSample(copy_samples(&v.0))),
        }
    }
}

/// A copy of a sequence of samples.
fn copy_samples(v: &Vec<Sample>) -> (r: Vec<Sample>)
    ensures
        models(r@) == models(v@),
    decreases v,
{
    let mut out: Vec<Sample> = Vec::new();
    let mut i: usize = 0;
    while i < v.len()
        invariant
            i <= v.len(),
            out.len() == i,
            forall|k: int| 0 <= k < i ==> #[trigger] out@[k]@ == v@[k]@,
        decreases v.len() - i,
    {
        out.push(v[i].deep_copy());
        i = i + 1;
    }
    proof {
        lemma_models(out@);
        lemma_models(v@);
    }
    assert(models(out@) =~= models(v@));
    out
}

/// A copy of a sequence of named samples.
fn copy_named(v: &Vec<(String, Sample)>) -> (r: Vec<(String, Sample)>)
    ensures
        named_models(r@) == named_models(v@),
    decreases v,
{
    let mut out: Vec<(String, Sample)> = Vec::new();
    let mut i: usize = 0;
    while i < v.len()
        invariant
            i <= v.len(),
            out.len() == i,
            forall|k: int|
                0 <= k < i ==> #[trigger] out@[k].0@ == v@[k].0@ && out@[k].1@ == v@[k].1@,
        decreases v.len() - i,
    {
        let key = v[i].0.clone();
        proof {
            assert(decreases_to!(v => v@));
            assert(decreases_to!(v@ => v@[i as int]));
            assert(decreases_to!(v@[i as int] => v@[i as int].1));
        }
        let value = v[i].1.deep_copy();
        out.push((key, value));
        i = i + 1;
    }
    proof {
        lemma_named_models(out@);
        lemma_named_models(v@);
    }
    assert(named_models(out@) =~= named_models(v@));
    out
}

/// A copy of a vector of integers.
fn copy_ints(v: &Vec<i32>) -> (r: Vec<i32>)
    ensures
        r@ == v@,
{
    let mut out: Vec<i32> = Vec::new();
    let mut i: usize = 0;
    while i < v.len()
        invariant
            i <= v.len(),
            out@ == v@.take(i as int),
        decreases v.len() - i,
    {
        out.push(v[i]);
        i = i + 1;
        assert(out@ =~= v@.take(i as int));
    }
    assert(v@.take(v.len() as int) =~= v@);
    out
}

/// Row-major cartesian product: every row of `p` extended by every element of
/// `e`, the element varying fastest.
pub open spec fn product<A>(p: Seq<Seq<A>>, e: Seq<A>) -> Seq<Seq<A>> {
    Seq::new((p.len() * e.len()) as nat, |k: int| p[k / e.len() as int].push(e[k % e.len() as int]))
}

/// The integers `lo ..= hi`, in increasing order.
pub open spec fn span(lo: i32, hi: i32) -> Seq<i32> {
    Seq::new((hi - lo + 1) as nat, |i: int| (lo + i) as i32)
}

/// Every integer vector whose component `i` lies in `low[i] ..= high[i]`, in
/// row-major order.
pub open spec fn grid(low: Seq<i32>, high: Seq<i32>) -> Seq<Seq<i32>>
    decreases low.len(),
{
    if low.len() == 0 {
        seq![Seq::empty()]
    } else {
        product(grid(low.drop_last(), high.drop_last()), span(low.last(), high.last()))
    }
}

/// The values of a sequence of integer vectors.
pub open spec fn rows(p: Seq<Vec<i32>>) -> Seq<Seq<i32>> {
    p.map_values(|v: Vec<i32>| v@)
}

/// The models of a sequence of sample vectors.
pub open spec fn sample_rows(p: Seq<Vec<Sample>>) -> Seq<Seq<SampleModel>> {
    p.map_values(|v: Vec<Sample>| models(v@))
}

/// Index arithmetic of a row-major product with rows of width `m`.
proof fn lemma_product_index(a: int, m: int, j: int)
    requires
        0 <= a,
        0 <= j < m,
    ensures
        (a * m + j) / m == a,
        (a * m + j) % m == j,
        a * m + j < (a + 1) * m,
{
    lemma_fundamental_div_mod_converse(a * m + j, m, a, j);
    assert(a * m + j < (a + 1) * m) by (nonlinear_arith)
        requires
            0 <= j < m,
    ;
}

/// Every row of `prefixes` extended by every integer of `lo ..= hi`.
fn extend_grid(prefixes: &Vec<Vec<i32>>, lo: i32, hi: i32) -> (r: Vec<Vec<i32>>)
    requires
        lo <= hi,
    ensures
        rows(r@) == product(rows(prefixes@), span(lo, hi)),
{
    let ghost e = span(lo, hi);
    let ghost m: int = hi - lo + 1;
    assert(e.len() == m);
    let d: usize = (hi as i64 - lo as i64) as usize;
    let mut out: Vec<Vec<i32>> = Vec::new();
    let mut a: usize = 0;
    while a < prefixes.len()
        invariant
            a <= prefixes.len(),
            m == e.len(),
            m == d + 1,
            e == span(lo, hi),
            lo <= hi,
            out.len() == a * m,
            forall|k: int|
                0 <= k < out.len() ==> #[trigger] out@[k]@ == prefixes@[k / m]@.push(e[k % m]),
        decreases prefixes.len() - a,
    {
        let mut j: usize = 0;
        loop
            invariant_except_break
                out.len() == a * m + j,
            invariant
                a < prefixes.len(),
                j <= d,
                m == e.len(),
                m == d + 1,
                e == span(lo, hi),
                lo <= hi,
                out.len() <= a * m + j + 1,
                forall|k: int|
                    0 <= k < out.len() ==> #[trigger] out@[k]@ == prefixes@[k / m]@.push(e[k % m]),
            ensures
                out.len() == a * m + m,
                forall|k: int|
                    0 <= k < out.len() ==> #[trigger] out@[k]@ == prefixes@[k / m]@.push(e[k % m]),
            decreases d - j,
        {
            let mut row = copy_ints(&prefixes[a]);
            row.push((lo as i64 + j as i64) as i32);
            proof {
                lemma_product_index(a as int, m, j as int);
            }
            out.push(row);
            if j == d {
                break;
            }
            j = j + 1;
        }
        proof {
            assert((a + 1) * m == a * m + m) by (nonlinear_arith);
        }
        a = a + 1;
    }
    assert forall|k: int| 0 <= k < out.len() implies #[trigger] rows(out@)[k] == product(
        rows(prefixes@),
        e,
    )[k] by {
        assert(0 <= k / m < prefixes.len()) by {
            vstd::arithmetic::div_mod::lemma_div_pos_is_pos(k, m);
            vstd::arithmetic::div_mod::lemma_div_by_multiple_is_strongly_ordered(
                k,
                out.len() as int,
                prefixes.len() as int,
                m,
            );
            lemma_fundamental_div_mod_converse(out.len() as int, m, prefixes.len() as int, 0);
        }
    }
    assert(rows(out@) =~= product(rows(prefixes@), e));
    out
}

/// Every row of `prefixes` extended by every sample of `options`.
fn extend_samples(prefixes: &Vec<Vec<Sample>>, options: &Vec<Sample>) -> (r: Vec<Vec<Sample>>)
    ensures
        sample_rows(r@) == product(sample_rows(prefixes@), models(options@)),
{
    let ghost e = models(options@);
    proof {
        lemma_models(options@);
    }
    let m: usize = options.len();
    let mut out: Vec<Vec<Sample>> = Vec::new();
    if m == 0 {
        assert(sample_rows(out@) =~= product(sample_rows(prefixes@), e));
        return out;
    }
    let mut a: usize = 0;
    while a < prefixes.len()
        invariant
            a <= prefixes.len(),
            m == e.len(),
            m == options.len(),
            m > 0,
            e == models(options@),
            forall|k: int| 0 <= k < options.len() ==> #[trigger] e[k] == options@[k]@,
            out.len() == a * m,
            forall|k: int|
                0 <= k < out.len() ==> #[trigger] models(out@[k]@) == models(
                    prefixes@[k / (m as int)]@,
                ).push(e[k % (m as int)]),
        decreases prefixes.len() - a,
    {
        let mut j: usize = 0;
        while j < m
            invariant
                a < prefixes.len(),
                j <= m,
                m == e.len(),
                m == options.len(),
                m > 0,
                e == models(options@),
                forall|k: int| 0 <= k < options.len() ==> #[trigger] e[k] == options@[k]@,
                out.len() == a * m + j,
                forall|k: int|
                    0 <= k < out.len() ==> #[trigger] models(out@[k]@) == models(
                        prefixes@[k / (m as int)]@,
                    ).push(e[k % (m as int)]),
            decreases m - j,
        {
            let mut row = copy_samples(&prefixes[a]);
            let item = options[j].deep_copy();
            let ghost before = row@;
            row.push(item);
            proof {
                lemma_models(before);
                lemma_models(row@);
                assert(models(row@) =~= models(before).push(e[j as int]));
                lemma_product_index(a as int, m as int, j as int);
            }
            out.push(row);
            j = j + 1;
        }
        proof {
            assert((a + 1) * m == a * m + m) by (nonlinear_arith);
        }
        a = a + 1;
    }
    assert forall|k: int| 0 <= k < out.len() implies #[trigger] sample_rows(out@)[k] == product(
        sample_rows(prefixes@),
        e,
    )[k] by {
        assert(0 <= k / (m as int) < prefixes.len()) by {
            vstd::arithmetic::div_mod::lemma_div_pos_is_pos(k, m as int);
            vstd::arithmetic::div_mod::lemma_div_by_multiple_is_strongly_ordered(
                k,
                out.len() as int,
                prefixes.len() as int,
                m as int,
            );
            lemma_fundamental_div_mod_converse(out.len() as int, m as int, prefixes.len() as int, 0);
        }
    }
    assert(sample_rows(out@) =~= product(sample_rows(prefixes@), e));
    out
}

// ---------------------------------------------------------------------------
// Discrete
impl Discrete {
    /// The space holds at least one value, and all its values fit in `i32`.
    pub open spec fn spec_valid(&self) -> bool {
        self.n > 0 && self.start + self.n - 1 <= i32::MAX
    }

    /// The highest value of a valid space.
    pub open spec fn spec_last(&self) -> i32 {
        (self.start + self.n - 1) as i32
    }

    /// The sample drawn with `seed`.
    pub open spec fn spec_seeded(&self, seed: u64) -> Option<SampleModel> {
        if self.spec_valid() {
            Some(SampleModel::Discrete(seeded_draws(seed, seq![self.start], seq![self.spec_last()])[0]))
        } else {
            None
        }
    }

    /// All values, in increasing order.
    pub open spec fn spec_enumerate(&self) -> Option<Seq<SampleModel>> {
        if self.spec_valid() {
            Some(Seq::new(self.n as nat, |i: int| SampleModel::Discrete((self.start + i) as i32)))
        } else {
            None
        }
    }

    fn valid(&self) -> (r: bool)
        ensures
            r == self.spec_valid(),
    {
        self.n > 0 && self.start as i64 + self.n as i64 - 1 <= i32::MAX as i64
    }

    /// Number of values of the space.
    pub fn len(&self) -> (r: usize)
        ensures
            r == if self.n > 0 { self.n as int } else { 0 },
    {
        if self.n > 0 { self.n as usize } else { 0 }
    }

    /// Whether the space has no value.
    pub fn is_empty(&self) -> (r: bool)
        ensures
            r == (self.n <= 0),
    {
        self.n <= 0
    }

    /// A value drawn from fresh entropy, or `None` for an empty space.
    pub fn sample(&self) -> (r: Option<Sample>)
        ensures
            r is Some <==> self.spec_valid(),
            r matches Some(s) ==> s@ matches SampleModel::Discrete(v) && self.start <= v
                <= self.spec_last(),
    {
        if !self.valid() {
            return None;
        }
        let low = vec![self.start];
        let high = vec![(self.start as i64 + self.n as i64 - 1) as i32];
        let v = draw_fresh(&low, &high);
        Some(Sample::Discrete(DiscreteSample(v[0])))
    }

    /// The value drawn with `seed`, or `None` for an empty space.
    pub fn sample_with_seed(&self, seed: u64) -> (r: Option<Sample>)
        ensures
            r matches Some(s) ==> self.spec_seeded(seed) == Some(s@),
            r is None ==> self.spec_seeded(seed) is None,
            r matches Some(s) ==> s@ matches SampleModel::Discrete(v) && self.start <= v
                <= self.spec_last(),
    {
        if !self.valid() {
            return None;
        }
        let low = vec![self.start];
        let high = vec![(self.start as i64 + self.n as i64 - 1) as i32];
        assert(low@ == seq![self.start]);
        assert(high@ == seq![self.spec_last()]);
        let v = draw_seeded(seed, &low, &high);
        Some(Sample::Discrete(DiscreteSample(v[0])))
    }

    /// Every value, in increasing order, or `None` for an empty space.
    pub fn enumerate(&self) -> (r: Option<Vec<Sample>>)
        ensures
            r matches Some(v) ==> self.spec_enumerate() == Some(models(v@)),
            r is None ==> self.spec_enumerate() is None,
    {
        if !self.valid() {
            return None;
        }
        let mut out: Vec<Sample> = Vec::new();
        let mut i: i32 = 0;
        while i < self.n
            invariant
                self.spec_valid(),
                0 <= i <= self.n,
                out.len() == i,
                forall|k: int|
                    0 <= k < i ==> #[trigger] out@[k]@ == SampleModel::Discrete(
                        (self.start + k) as i32,
                    ),
            decreases self.n - i,
        {
            out.push(Sample::Discrete(DiscreteSample(self.start + i)));
            i = i + 1;
        }
        assert forall|k: int| 0 <= k < out.len() implies #[trigger] models(out@)[k] == out@[k]@ by {}
        assert(models(out@) =~= Seq::new(
            self.n as nat,
            |i: int| SampleModel::Discrete((self.start + i) as i32),
        ));
        Some(out)
    }
}


// ---------------------------------------------------------------------------
// Box
impl Box {
    /// The bounds have one equal, non-zero length, and no lower bound exceeds
    /// its upper bound.
    pub open spec fn spec_valid(&self) -> bool {
        &&& self.low.len() == self.high.len()
        &&& self.low.len() > 0
        &&& forall|i: int| 0 <= i < self.low.len() ==> self.low[i] <= self.high[i]
    }

    /// The sample drawn with `seed`.
    pub open spec fn spec_seeded(&self, seed: u64) -> Option<SampleModel> {
        if self.spec_valid() {
            Some(SampleModel::Box(seeded_draws(seed, self.low@, self.high@)))
        } else {
            None
        }
    }

    /// All values, in row-major order.
    pub open spec fn spec_enumerate(&self) -> Option<Seq<SampleModel>> {
        if self.spec_valid() {
            Some(grid(self.low@, self.high@).map_values(|v: Seq<i32>| SampleModel::Box(v)))
        } else {
            None
        }
    }

    fn valid(&self) -> (r: bool)
        ensures
            r == self.spec_valid(),
    {
        if self.low.len() != self.high.len() || self.low.len() == 0 {
            return false;
        }
        let mut i: usize = 0;
        while i < self.low.len()
            invariant
                self.low.len() == self.high.len(),
                i <= self.low.len(),
                forall|k: int| 0 <= k < i ==> self.low[k] <= self.high[k],
            decreases self.low.len() - i,
        {
            if self.low[i] > self.high[i] {
                return false;
            }
            i = i + 1;
        }
        true
    }

    /// Number of components.
    pub fn len(&self) -> (r: usize)
        ensures
            r == self.low.len(),
    {
        self.low.len()
    }

    /// Whether the space has no component.
    pub fn is_empty(&self) -> (r: bool)
        ensures
            r == (self.low.len() == 0),
    {
        self.low.len() == 0
    }

    /// A value drawn from fresh entropy, or `None` for an empty or malformed space.
    pub fn sample(&self) -> (r: Option<Sample>)
        ensures
            r is Some <==> self.spec_valid(),
            r matches Some(s) ==> s@ matches SampleModel::Box(v) && v.len() == self.low.len()
                && forall|i: int| 0 <= i < v.len() ==> self.low[i] <= #[trigger] v[i] <= self.high[i],
    {
        if !self.valid() {
            return None;
        }
        let v = draw_fresh(&self.low, &self.high);
        Some(Sample::Box(BoxSample(v)))
    }

    /// The value drawn with `seed`, or `None` for an empty or malformed space.
    pub fn sample_with_seed(&self, seed: u64) -> (r: Option<Sample>)
        ensures
            r matches Some(s) ==> self.spec_seeded(seed) == Some(s@),
            r is None ==> self.spec_seeded(seed) is None,
            r matches Some(s) ==> s@ matches SampleModel::Box(v) && v.len() == self.low.len()
                && forall|i: int| 0 <= i < v.len() ==> self.low[i] <= #[trigger] v[i] <= self.high[i],
    {
        if !self.valid() {
            return None;
        }
        let v = draw_seeded(seed, &self.low, &self.high);
        Some(Sample::Box(BoxSample(v)))
    }

    /// Every value, in row-major order (last component fastest), or `None` for an
    /// empty or malformed space.
    pub fn enumerate(&self) -> (r: Option<Vec<Sample>>)
        ensures
            r matches Some(v) ==> self.spec_enumerate() == Some(models(v@)),
            r is None ==> self.spec_enumerate() is None,
    {
        if !self.valid() {
            return None;
        }
        let mut acc: Vec<Vec<i32>> = Vec::new();
        acc.push(Vec::new());
        assert(rows(acc@) =~= grid(self.low@.take(0), self.high@.take(0)));
        let mut d: usize = 0;
        while d < self.low.len()
            invariant
                self.spec_valid(),
                d <= self.low.len(),
                rows(acc@) == grid(self.low@.take(d as int), self.high@.take(d as int)),
            decreases self.low.len() - d,
        {
            let next = extend_grid(&acc, self.low[d], self.high[d]);
            proof {
                let lo = self.low@.take(d + 1);
                let hi = self.high@.take(d + 1);
                assert(lo.drop_last() =~= self.low@.take(d as int));
                assert(hi.drop_last() =~= self.high@.take(d as int));
            }
            acc = next;
            d = d + 1;
        }
        assert(self.low@.take(d as int) =~= self.low@);
        assert(self.high@.take(d as int) =~= self.high@);
        let mut out: Vec<Sample> = Vec::new();
        let mut i: usize = 0;
        while i < acc.len()
            invariant
                i <= acc.len(),
                out.len() == i,
                forall|k: int|
                    0 <= k < i ==> #[trigger] out@[k]@ == SampleModel::Box(acc@[k]@),
            decreases acc.len() - i,
        {
            out.push(Sample::Box(BoxSample(copy_ints(&acc[i]))));
            i = i + 1;
        }
        proof {
            lemma_models(out@);
        }
        assert(models(out@) =~= rows(acc@).map_values(|v: Seq<i32>| SampleModel::Box(v)));
        Some(out)
    }
}


// ---------------------------------------------------------------------------
// Composite spaces: the mathematical meaning
/// The seed handed to the child at position `i` of a space sampled with `seed`.
pub open spec fn child_seed(seed: u64, i: int) -> u64 {
    seed.wrapping_add(i as u64)
}

/// A sub-space of a `OneOf` may be chosen unless it is an empty `Discrete`.
pub open spec fn eligible(s: Space) -> bool {
    !(s matches Space::Discrete(d) && !d.spec_valid())
}

/// The positions of the eligible spaces of `s`, in increasing order.
pub open spec fn eligible_indices(s: Seq<Space>) -> Seq<int>
    decreases s.len(),
{
    if s.len() == 0 {
        Seq::empty()
    } else if eligible(s.last()) {
        eligible_indices(s.drop_last()).push(s.len() - 1)
    } else {
        eligible_indices(s.drop_last())
    }
}

/// The names of named entries.
pub open spec fn names<A>(s: Seq<(String, A)>) -> Seq<Seq<char>> {
    s.map_values(|e: (String, A)| e.0@)
}

/// Pairs each name with the value at the same place.
pub open spec fn zip_names(keys: Seq<Seq<char>>, vals: Seq<SampleModel>) -> Seq<(Seq<char>, SampleModel)> {
    Seq::new(vals.len(), |i: int| (keys[i], vals[i]))
}

/// The samples of `s` tagged with the branch `i`.
pub open spec fn tagged(i: int, s: Seq<SampleModel>) -> Seq<SampleModel> {
    s.map_values(|x: SampleModel| SampleModel::OneOf(i as usize, std::boxed::Box::new(x)))
}

impl Space {
    /// The sample drawn with `seed`, or `None` when the space has no value to give.
    pub open spec fn spec_seeded(&self, seed: u64) -> Option<SampleModel>
        decreases *self,
    {
        match *self {
            Space::Discrete(d) => d.spec_seeded(seed),
            Space::Box(b) => b.spec_seeded(seed),
            Space::OneOf(o) => seeded_choice(o.spaces@, seed),
            Space::Tuple(t) => match seeded_each(t.spaces@, seed) {
                Some(v) => Some(SampleModel::Tuple(v)),
                None => None,
            },
            Space::Dict(d) => match seeded_named(d.spaces@, seed) {
                Some(v) => Some(SampleModel::Dict(zip_names(names(d.spaces@), v))),
                None => None,
            },
            Space::Vector(v) => match seeded_each(v.spaces@, seed) {
                Some(v) => Some(SampleModel::Vector(v)),
                None => None,
            },
        }
    }

    /// Every value of the space, or `None` when the space cannot be enumerated.
    pub open spec fn spec_enumerate(&self) -> Option<Seq<SampleModel>>
        decreases *self,
    {
        match *self {
            Space::Discrete(d) => d.spec_enumerate(),
            Space::Box(b) => b.spec_enumerate(),
            Space::OneOf(o) => {
                let u = union_enum(o.spaces@);
                if u.len() == 0 {
                    None
                } else {
                    Some(u)
                }
            },
            Space::Tuple(t) => match product_enum(t.spaces@) {
                Some(p) => Some(p.map_values(|row: Seq<SampleModel>| SampleModel::Tuple(row))),
                None => None,
            },
            Space::Dict(d) => match product_named(d.spaces@) {
                Some(p) => Some(
                    p.map_values(
                        |row: Seq<SampleModel>| SampleModel::Dict(zip_names(names(d.spaces@), row)),
                    ),
                ),
                None => None,
            },
            Space::Vector(v) => match each_enum(v.spaces@) {
                Some(e) => Some(e.map_values(|col: Seq<SampleModel>| SampleModel::Vector(col))),
                None => None,
            },
        }
    }
}

/// Each space sampled with the seed of its position, or `None` if one fails.
pub open spec fn seeded_each(s: Seq<Space>, seed: u64) -> Option<Seq<SampleModel>>
    decreases s,
{
    if forall|i: int| 0 <= i < s.len() ==> (#[trigger] s[i]).spec_seeded(child_seed(seed, i)) is Some {
        Some(
            Seq::new(
                s.len(),
                |i: int|
                    if 0 <= i < s.len() {
                        s[i].spec_seeded(child_seed(seed, i))->Some_0
                    } else {
                        SampleModel::Discrete(0)
                    },
            ),
        )
    } else {
        None
    }
}

/// Each named space sampled with the seed of its position, or `None` if one fails.
pub open spec fn seeded_named(s: Seq<(String, Space)>, seed: u64) -> Option<Seq<SampleModel>>
    decreases s,
{
    if forall|i: int| 0 <= i < s.len() ==> (#[trigger] s[i]).1.spec_seeded(child_seed(seed, i)) is Some {
        Some(
            Seq::new(
                s.len(),
                |i: int|
                    if 0 <= i < s.len() {
                        s[i].1.spec_seeded(child_seed(seed, i))->Some_0
                    } else {
                        SampleModel::Discrete(0)
                    },
            ),
        )
    } else {
        None
    }
}

/// The branch chosen with `seed` among the eligible ones, sampled with the next seed.
pub open spec fn seeded_choice(s: Seq<Space>, seed: u64) -> Option<SampleModel>
    decreases s,
{
    let e = eligible_indices(s);
    if e.len() == 0 {
        None
    } else {
        let k = e[seeded_index(seed, e.len() as usize) as int];
        if 0 <= k < s.len() {
            match s[k].spec_seeded(child_seed(seed, 1)) {
                Some(x) => Some(SampleModel::OneOf(k as usize, std::boxed::Box::new(x))),
                None => None,
            }
        } else {
            None
        }
    }
}

/// The disjoint union of the enumerations of the spaces that can be enumerated,
/// each value tagged with its branch.
pub open spec fn union_enum(s: Seq<Space>) -> Seq<SampleModel>
    decreases s,
{
    if s.len() == 0 {
        Seq::empty()
    } else {
        union_enum(s.drop_last()) + match s.last().spec_enumerate() {
            Some(e) => tagged(s.len() - 1, e),
            None => Seq::empty(),
        }
    }
}

/// The cartesian product of the enumerations, or `None` if one fails.
pub open spec fn product_enum(s: Seq<Space>) -> Option<Seq<Seq<SampleModel>>>
    decreases s,
{
    if s.len() == 0 {
        Some(seq![Seq::empty()])
    } else {
        match (product_enum(s.drop_last()), s.last().spec_enumerate()) {
            (Some(p), Some(e)) => Some(product(p, e)),
            _ => None,
        }
    }
}

/// The cartesian product of the enumerations of named spaces, or `None` if one fails.
pub open spec fn product_named(s: Seq<(String, Space)>) -> Option<Seq<Seq<SampleModel>>>
    decreases s,
{
    if s.len() == 0 {
        Some(seq![Seq::empty()])
    } else {
        match (product_named(s.drop_last()), s.last().1.spec_enumerate()) {
            (Some(p), Some(e)) => Some(product(p, e)),
            _ => None,
        }
    }
}

/// One enumeration per space, or `None` if one fails.
pub open spec fn each_enum(s: Seq<Space>) -> Option<Seq<Seq<SampleModel>>>
    decreases s,
{
    if forall|i: int| 0 <= i < s.len() ==> (#[trigger] s[i]).spec_enumerate() is Some {
        Some(
            Seq::new(
                s.len(),
                |i: int|
                    if 0 <= i < s.len() {
                        s[i].spec_enumerate()->Some_0
                    } else {
                        Seq::empty()
                    },
            ),
        )
    } else {
        None
    }
}


// ---------------------------------------------------------------------------
// Composite spaces: what a sample may be
impl Space {
    /// Whether `m` is a legal value of the space.
    pub open spec fn admits(&self, m: SampleModel) -> bool
        decreases *self,
    {
        match *self {
            Space::Discrete(d) => d.spec_valid() && (m matches SampleModel::Discrete(v) && d.start
                <= v <= d.spec_last()),
            Space::Box(b) => b.spec_valid() && (m matches SampleModel::Box(v) && v.len()
                == b.low.len() && forall|i: int|
                0 <= i < v.len() ==> b.low[i] <= #[trigger] v[i] <= b.high[i]),
            Space::OneOf(o) => m matches SampleModel::OneOf(k, x) && k < o.spaces.len() && eligible(
                o.spaces@[k as int],
            ) && o.spaces@[k as int].admits(*x),
            Space::Tuple(t) => m matches SampleModel::Tuple(v) && admits_each(t.spaces@, v),
            Space::Dict(d) => m matches SampleModel::Dict(v) && admits_named(d.spaces@, v),
            Space::Vector(t) => m matches SampleModel::Vector(v) && admits_each(t.spaces@, v),
        }
    }

    /// Whether sampling is sure to give a value, whatever the draws.
    pub open spec fn spec_sampleable(&self) -> bool
        decreases *self,
    {
        match *self {
            Space::Discrete(d) => d.spec_valid(),
            Space::Box(b) => b.spec_valid(),
            Space::OneOf(o) => eligible_indices(o.spaces@).len() > 0 && forall|k: int|
                0 <= k < o.spaces.len() && eligible(#[trigger] o.spaces@[k])
                    ==> o.spaces@[k].spec_sampleable(),
            Space::Tuple(t) => forall|k: int|
                0 <= k < t.spaces.len() ==> (#[trigger] t.spaces@[k]).spec_sampleable(),
            Space::Dict(d) => forall|k: int|
                0 <= k < d.spaces.len() ==> (#[trigger] d.spaces@[k]).1.spec_sampleable(),
            Space::Vector(t) => forall|k: int|
                0 <= k < t.spaces.len() ==> (#[trigger] t.spaces@[k]).spec_sampleable(),
        }
    }
}

/// Each value is legal for the space at the same place.
pub open spec fn admits_each(s: Seq<Space>, v: Seq<SampleModel>) -> bool
    decreases s,
{
    v.len() == s.len() && forall|i: int| 0 <= i < s.len() ==> (#[trigger] s[i]).admits(v[i])
}

/// Each entry carries the name of, and a legal value for, the named space at the
/// same place.
pub open spec fn admits_named(s: Seq<(String, Space)>, v: Seq<(Seq<char>, SampleModel)>) -> bool
    decreases s,
{
    v.len() == s.len() && forall|i: int|
        0 <= i < s.len() ==> v[i].0 == s[i].0@ && (#[trigger] s[i]).1.admits(v[i].1)
}

/// The eligible positions are in range, eligible, and increasing.
pub proof fn lemma_eligible_indices(s: Seq<Space>)
    ensures
        forall|j: int|
            0 <= j < eligible_indices(s).len() ==> 0 <= #[trigger] eligible_indices(s)[j] < s.len()
                && eligible(s[eligible_indices(s)[j]]),
        eligible_indices(s).len() == 0 <==> forall|k: int| 0 <= k < s.len() ==> !eligible(
            #[trigger] s[k],
        ),
    decreases s.len(),
{
    if s.len() > 0 {
        let p = s.drop_last();
        lemma_eligible_indices(p);
        assert forall|k: int| 0 <= k < p.len() implies #[trigger] p[k] == s[k] by {}
        let e = eligible_indices(s);
        let q = eligible_indices(p);
        assert forall|j: int| 0 <= j < e.len() implies 0 <= #[trigger] e[j] < s.len() && eligible(
            s[e[j]],
        ) by {
            if j < q.len() {
                assert(e[j] == q[j]);
                assert(p[q[j]] == s[q[j]]);
            }
        }
        if eligible(s.last()) {
            assert(eligible(s[s.len() - 1]));
        } else {
            assert forall|k: int| 0 <= k < s.len() && !(#[trigger] eligible(s[k])) implies true by {}
            if eligible_indices(p).len() == 0 {
                assert forall|k: int| 0 <= k < s.len() implies !eligible(#[trigger] s[k]) by {
                    if k < p.len() {
                        assert(p[k] == s[k]);
                    }
                }
            }
        }
    }
}

/// The positions of the eligible spaces.
fn eligible_positions(spaces: &Vec<Space>) -> (r: Vec<usize>)
    ensures
        r.len() == eligible_indices(spaces@).len(),
        forall|j: int| 0 <= j < r.len() ==> r@[j] == #[trigger] eligible_indices(spaces@)[j],
{
    let mut out: Vec<usize> = Vec::new();
    let mut i: usize = 0;
    while i < spaces.len()
        invariant
            i <= spaces.len(),
            out.len() == eligible_indices(spaces@.take(i as int)).len(),
            forall|j: int|
                0 <= j < out.len() ==> out@[j] == #[trigger] eligible_indices(
                    spaces@.take(i as int),
                )[j],
        decreases spaces.len() - i,
    {
        let ok = spaces[i].is_eligible();
        proof {
            let t = spaces@.take(i + 1);
            assert(t.drop_last() =~= spaces@.take(i as int));
            assert(t.last() == spaces@[i as int]);
        }
        if ok {
            out.push(i);
        }
        i = i + 1;
    }
    assert(spaces@.take(i as int) =~= spaces@);
    out
}

/// The models of a sequence extended by one sample.
pub proof fn lemma_models_push(s: Seq<Sample>, x: Sample)
    ensures
        models(s.push(x)) == models(s).push(x@),
{
    lemma_models(s);
    lemma_models(s.push(x));
    assert(models(s.push(x)) =~= models(s).push(x@));
}

/// Once a prefix of the spaces cannot be enumerated, neither can their product.
pub proof fn lemma_product_enum_prefix(s: Seq<Space>, j: int)
    requires
        0 <= j <= s.len(),
        product_enum(s.take(j)) is None,
    ensures
        product_enum(s) is None,
    decreases s.len() - j,
{
    if j == s.len() {
        assert(s.take(j) =~= s);
    } else {
        assert(s.take(j + 1).drop_last() =~= s.take(j));
        lemma_product_enum_prefix(s, j + 1);
    }
}

/// Once a prefix of the named spaces cannot be enumerated, neither can their product.
pub proof fn lemma_product_named_prefix(s: Seq<(String, Space)>, j: int)
    requires
        0 <= j <= s.len(),
        product_named(s.take(j)) is None,
    ensures
        product_named(s) is None,
    decreases s.len() - j,
{
    if j == s.len() {
        assert(s.take(j) =~= s);
    } else {
        assert(s.take(j + 1).drop_last() =~= s.take(j));
        lemma_product_named_prefix(s, j + 1);
    }
}

/// Every row of the product of named enumerations has one value per name.
pub proof fn lemma_product_named_rows(s: Seq<(String, Space)>)
    requires
        product_named(s) is Some,
    ensures
        forall|k: int|
            0 <= k < product_named(s)->Some_0.len() ==> (#[trigger] product_named(s)->Some_0[k]).len()
                == s.len(),
    decreases s.len(),
{
    if s.len() > 0 {
        lemma_product_named_rows(s.drop_last());
        let p = product_named(s.drop_last())->Some_0;
        let e = s.last().1.spec_enumerate()->Some_0;
        assert forall|k: int| 0 <= k < product(p, e).len() implies (#[trigger] product(p, e)[k]).len()
            == s.len() by {
            assert(0 <= k / (e.len() as int) < p.len()) by {
                vstd::arithmetic::div_mod::lemma_div_pos_is_pos(k, e.len() as int);
                vstd::arithmetic::div_mod::lemma_div_by_multiple_is_strongly_ordered(
                    k,
                    product(p, e).len() as int,
                    p.len() as int,
                    e.len() as int,
                );
                lemma_fundamental_div_mod_converse(
                    product(p, e).len() as int,
                    e.len() as int,
                    p.len() as int,
                    0,
                );
            }
        }
    }
}


// ---------------------------------------------------------------------------
// OneOf
impl OneOf {
    /// The sample drawn with `seed`.
    pub open spec fn spec_seeded(&self, seed: u64) -> Option<SampleModel> {
        Space::OneOf(*self).spec_seeded(seed)
    }

    /// All values: the disjoint union of the branches' enumerations.
    pub open spec fn spec_enumerate(&self) -> Option<Seq<SampleModel>> {
        Space::OneOf(*self).spec_enumerate()
    }

    /// Number of branches.
    pub fn len(&self) -> (r: usize)
        ensures
            r == self.spaces.len(),
    {
        self.spaces.len()
    }

    /// Whether there is no branch.
    pub fn is_empty(&self) -> (r: bool)
        ensures
            r == (self.spaces.len() == 0),
    {
        self.spaces.len() == 0
    }

    /// A value of a branch chosen from fresh entropy among the eligible ones, or
    /// `None` when no branch is eligible or the chosen one gives no value.
    pub fn sample(&self) -> (r: Option<Sample>)
        ensures
            Space::OneOf(*self).spec_sampleable() ==> r is Some,
            eligible_indices(self.spaces@).len() == 0 ==> r is None,
            r matches Some(s) ==> Space::OneOf(*self).admits(s@),
        decreases self,
    {
        let e = eligible_positions(&self.spaces);
        if e.len() == 0 {
            return None;
        }
        let j = draw_index_fresh(e.len());
        proof {
            lemma_eligible_indices(self.spaces@);
            assert(e@[j as int] == eligible_indices(self.spaces@)[j as int]);
        }
        let k = e[j];
        assert(eligible(self.spaces@[k as int]));
        match self.spaces[k].sample() {
            Some(x) => Some(Sample::OneOf(OneOfSample(k, std::boxed::Box::new(x)))),
            None => None,
        }
    }

    /// The value of the `choice`-th eligible branch, sampled with `seed + 1`
    /// (wrapping), tagged with its position; `None` when there is no such branch
    /// or it gives no value.
    pub fn sample_choice_with_seed(&self, choice: usize, seed: u64) -> (r: Option<Sample>)
        ensures
            ({
                let e = eligible_indices(self.spaces@);
                if choice < e.len() {
                    let k = e[choice as int];
                    &&& r is Some <==> self.spaces@[k].spec_seeded(child_seed(seed, 1)) is Some
                    &&& r matches Some(s) ==> s@ == SampleModel::OneOf(
                        k as usize,
                        std::boxed::Box::new(self.spaces@[k].spec_seeded(child_seed(seed, 1))->Some_0),
                    )
                } else {
                    r is None
                }
            }),
            r matches Some(s) ==> Space::OneOf(*self).admits(s@),
    {
        let e = eligible_positions(&self.spaces);
        if choice >= e.len() {
            return None;
        }
        proof {
            lemma_eligible_indices(self.spaces@);
        }
        let k = e[choice];
        assert(eligible(self.spaces@[k as int]));
        match self.spaces[k].sample_with_seed(seed.wrapping_add(1)) {
            Some(x) => Some(Sample::OneOf(OneOfSample(k, std::boxed::Box::new(x)))),
            None => None,
        }
    }

    /// The value drawn with `seed`: the branch is drawn with `seed` among the
    /// eligible ones, and sampled with `seed + 1` (wrapping).
    pub fn sample_with_seed(&self, seed: u64) -> (r: Option<Sample>)
        ensures
            r matches Some(s) ==> self.spec_seeded(seed) == Some(s@),
            r is None ==> self.spec_seeded(seed) is None,
            r matches Some(s) ==> Space::OneOf(*self).admits(s@),
        decreases self,
    {
        let e = eligible_positions(&self.spaces);
        if e.len() == 0 {
            return None;
        }
        let j = draw_index_seeded(seed, e.len());
        proof {
            lemma_eligible_indices(self.spaces@);
        }
        let k = e[j];
        assert(eligible(self.spaces@[k as int]));
        match self.spaces[k].sample_with_seed(seed.wrapping_add(1)) {
            Some(x) => Some(Sample::OneOf(OneOfSample(k, std::boxed::Box::new(x)))),
            None => None,
        }
    }

    /// Every value of every branch that can be enumerated, tagged with its branch,
    /// or `None` when there is none.
    pub fn enumerate(&self) -> (r: Option<Vec<Sample>>)
        ensures
            r matches Some(v) ==> self.spec_enumerate() == Some(models(v@)),
            r is None ==> self.spec_enumerate() is None,
        decreases self,
    {
        let mut out: Vec<Sample> = Vec::new();
        let mut i: usize = 0;
        while i < self.spaces.len()
            invariant
                i <= self.spaces.len(),
                models(out@) == union_enum(self.spaces@.take(i as int)),
            decreases self.spaces.len() - i,
        {
            let c = self.spaces[i].enumerate();
            proof {
                let t = self.spaces@.take(i + 1);
                assert(t.drop_last() =~= self.spaces@.take(i as int));
                assert(t.last() == self.spaces@[i as int]);
            }
            match c {
                Some(v) => {
                    let ghost base = models(out@);
                    proof {
                        lemma_models(v@);
                    }
                    let mut j: usize = 0;
                    while j < v.len()
                        invariant
                            j <= v.len(),
                            models(out@) == base + tagged(i as int, models(v@)).take(j as int),
                        decreases v.len() - j,
                    {
                        let x = v[j].deep_copy();
                        let ghost before = out@;
                        let item = Sample::OneOf(OneOfSample(i, std::boxed::Box::new(x)));
                        out.push(item);
                        proof {
                            lemma_models_push(before, item);
                            lemma_models(v@);
                            assert(tagged(i as int, models(v@)).take(j + 1) =~= tagged(
                                i as int,
                                models(v@),
                            ).take(j as int).push(item@));
                        }
                        j = j + 1;
                    }
                    assert(tagged(i as int, models(v@)).take(j as int) =~= tagged(
                        i as int,
                        models(v@),
                    ));
                },
                None => {
                    assert(models(out@) =~= models(out@) + Seq::<SampleModel>::empty());
                },
            }
            i = i + 1;
        }
        assert(self.spaces@.take(i as int) =~= self.spaces@);
        if out.len() == 0 {
            None
        } else {
            Some(out)
        }
    }
}

// ---------------------------------------------------------------------------
// Tuple
impl TupleSpace {
    /// The sample drawn with `seed`.
    pub open spec fn spec_seeded(&self, seed: u64) -> Option<SampleModel> {
        Space::Tuple(*self).spec_seeded(seed)
    }

    /// All values: the cartesian product of the parts' enumerations.
    pub open spec fn spec_enumerate(&self) -> Option<Seq<SampleModel>> {
        Space::Tuple(*self).spec_enumerate()
    }

    /// Number of parts.
    pub fn len(&self) -> (r: usize)
        ensures
            r == self.spaces.len(),
    {
        self.spaces.len()
    }

    /// Whether there is no part.
    pub fn is_empty(&self) -> (r: bool)
        ensures
            r == (self.spaces.len() == 0),
    {
        self.spaces.len() == 0
    }

    /// One value per part, drawn from fresh entropy, or `None` if a part gives none.
    pub fn sample(&self) -> (r: Option<Sample>)
        ensures
            Space::Tuple(*self).spec_sampleable() ==> r is Some,
            r matches Some(s) ==> Space::Tuple(*self).admits(s@),
        decreases self,
    {
        proof {
            if Space::Tuple(*self).spec_sampleable() {
                assert forall|k: int| 0 <= k < self.spaces.len() implies (
                #[trigger] self.spaces@[k]).spec_sampleable() by {}
            }
        }
        match sample_each(&self.spaces) {
            Some(v) => Some(Sample::Tuple(TupleSample(v))),
            None => None,
        }
    }

    /// One value per part, part `i` drawn with `seed + i` (wrapping), or `None`
    /// if a part gives none.
    pub fn sample_with_seed(&self, seed: u64) -> (r: Option<Sample>)
        ensures
            r matches Some(s) ==> self.spec_seeded(seed) == Some(s@),
            r is None ==> self.spec_seeded(seed) is None,
            r matches Some(s) ==> Space::Tuple(*self).admits(s@),
        decreases self,
    {
        match sample_each_seeded(&self.spaces, seed) {
            Some(v) => Some(Sample::Tuple(TupleSample(v))),
            None => None,
        }
    }

    /// The cartesian product of the parts' enumerations in row-major order (last
    /// part fastest), or `None` if a part cannot be enumerated.
    pub fn enumerate(&self) -> (r: Option<Vec<Sample>>)
        ensures
            r matches Some(v) ==> self.spec_enumerate() == Some(models(v@)),
            r is None ==> self.spec_enumerate() is None,
        decreases self,
    {
        let mut acc: Vec<Vec<Sample>> = Vec::new();
        acc.push(Vec::new());
        proof {
            lemma_models(Seq::<Sample>::empty());
            assert(models(acc@[0]@) =~= Seq::<SampleModel>::empty());
            assert(sample_rows(acc@) =~= seq![Seq::<SampleModel>::empty()]);
            assert(self.spaces@.take(0) =~= Seq::<Space>::empty());
        }
        let mut i: usize = 0;
        while i < self.spaces.len()
            invariant
                i <= self.spaces.len(),
                product_enum(self.spaces@.take(i as int)) == Some(sample_rows(acc@)),
            decreases self.spaces.len() - i,
        {
            let c = self.spaces[i].enumerate();
            proof {
                let t = self.spaces@.take(i + 1);
                assert(t.drop_last() =~= self.spaces@.take(i as int));
                assert(t.last() == self.spaces@[i as int]);
            }
            match c {
                Some(v) => {
                    acc = extend_samples(&acc, &v);
                },
                None => {
                    proof {
                        lemma_product_enum_prefix(self.spaces@, i + 1);
                    }
                    return None;
                },
            }
            i = i + 1;
        }
        assert(self.spaces@.take(i as int) =~= self.spaces@);
        let mut out: Vec<Sample> = Vec::new();
        let mut k: usize = 0;
        while k < acc.len()
            invariant
                k <= acc.len(),
                out.len() == k,
                forall|m: int|
                    0 <= m < k ==> #[trigger] out@[m]@ == SampleModel::Tuple(models(acc@[m]@)),
            decreases acc.len() - k,
        {
            out.push(Sample::Tuple(TupleSample(copy_samples(&acc[k]))));
            k = k + 1;
        }
        proof {
            lemma_models(out@);
        }
        assert(models(out@) =~= sample_rows(acc@).map_values(
            |row: Seq<SampleModel>| SampleModel::Tuple(row),
        ));
        Some(out)
    }
}

/// One value per space, drawn from fresh entropy, or `None` if one gives none.
fn sample_each(spaces: &Vec<Space>) -> (r: Option<Vec<Sample>>)
    ensures
        (forall|k: int| 0 <= k < spaces.len() ==> (#[trigger] spaces@[k]).spec_sampleable())
            ==> r is Some,
        r matches Some(v) ==> admits_each(spaces@, models(v@)),
    decreases spaces,
{
    let mut out: Vec<Sample> = Vec::new();
    let mut i: usize = 0;
    while i < spaces.len()
        invariant
            i <= spaces.len(),
            out.len() == i,
            forall|k: int| 0 <= k < i ==> (#[trigger] spaces@[k]).admits(out@[k]@),
        decreases spaces.len() - i,
    {
        match spaces[i].sample() {
            Some(x) => out.push(x),
            None => {
                return None;
            },
        }
        i = i + 1;
    }
    proof {
        lemma_models(out@);
    }
    Some(out)
}

/// One value per space, space `i` drawn with `seed + i` (wrapping), or `None` if
/// one gives none.
fn sample_each_seeded(spaces: &Vec<Space>, seed: u64) -> (r: Option<Vec<Sample>>)
    ensures
        r matches Some(v) ==> seeded_each(spaces@, seed) == Some(models(v@)),
        r is None ==> seeded_each(spaces@, seed) is None,
        r matches Some(v) ==> admits_each(spaces@, models(v@)),
    decreases spaces,
{
    let mut out: Vec<Sample> = Vec::new();
    let mut i: usize = 0;
    while i < spaces.len()
        invariant
            i <= spaces.len(),
            out.len() == i,
            forall|k: int|
                0 <= k < i ==> (#[trigger] spaces@[k]).spec_seeded(child_seed(seed, k)) == Some(
                    out@[k]@,
                ),
            forall|k: int| 0 <= k < i ==> (#[trigger] spaces@[k]).admits(out@[k]@),
        decreases spaces.len() - i,
    {
        match spaces[i].sample_with_seed(seed.wrapping_add(i as u64)) {
            Some(x) => out.push(x),
            None => {
                assert(spaces@[i as int].spec_seeded(child_seed(seed, i as int)) is None);
                return None;
            },
        }
        i = i + 1;
    }
    proof {
        lemma_models(out@);
    }
    assert(seeded_each(spaces@, seed)->Some_0 =~= models(out@));
    Some(out)
}


// ---------------------------------------------------------------------------
// Dict
impl DictSpace {
    /// The names are pairwise distinct.
    pub open spec fn spec_valid(&self) -> bool {
        forall|i: int, j: int|
            0 <= i < j < self.spaces.len() ==> (#[trigger] self.spaces@[i]).0@ != (
            #[trigger] self.spaces@[j]).0@
    }

    /// The sample drawn with `seed`.
    pub open spec fn spec_seeded(&self, seed: u64) -> Option<SampleModel> {
        Space::Dict(*self).spec_seeded(seed)
    }

    /// All values: the cartesian product of the named spaces' enumerations.
    pub open spec fn spec_enumerate(&self) -> Option<Seq<SampleModel>> {
        Space::Dict(*self).spec_enumerate()
    }

    /// Number of names.
    pub fn len(&self) -> (r: usize)
        ensures
            r == self.spaces.len(),
    {
        self.spaces.len()
    }

    /// Whether there is no name.
    pub fn is_empty(&self) -> (r: bool)
        ensures
            r == (self.spaces.len() == 0),
    {
        self.spaces.len() == 0
    }

    /// One value per name, drawn from fresh entropy, or `None` if a named space
    /// gives none.
    pub fn sample(&self) -> (r: Option<Sample>)
        ensures
            Space::Dict(*self).spec_sampleable() ==> r is Some,
            r matches Some(s) ==> Space::Dict(*self).admits(s@),
        decreases self,
    {
        let mut out: Vec<(String, Sample)> = Vec::new();
        let mut i: usize = 0;
        while i < self.spaces.len()
            invariant
                i <= self.spaces.len(),
                out.len() == i,
                forall|k: int|
                    0 <= k < i ==> (#[trigger] out@[k]).0@ == self.spaces@[k].0@
                        && self.spaces@[k].1.admits(out@[k].1@),
            decreases self.spaces.len() - i,
        {
            proof {
                assert(decreases_to!(self.spaces@[i as int] => self.spaces@[i as int].1));
            }
            match self.spaces[i].1.sample() {
                Some(x) => out.push((self.spaces[i].0.clone(), x)),
                None => {
                    assert(!self.spaces@[i as int].1.spec_sampleable());
                    assert(match Space::Dict(*self) {
                        Space::Dict(t) => t == *self,
                        _ => false,
                    });
                    return None;
                },
            }
            i = i + 1;
        }
        proof {
            lemma_named_models(out@);
            let v = named_models(out@);
            assert forall|k: int| 0 <= k < self.spaces.len() implies v[k].0 == self.spaces@[k].0@
                && (#[trigger] self.spaces@[k]).1.admits(v[k].1) by {
                assert(out@[k].0@ == self.spaces@[k].0@);
            }
            assert(admits_named(self.spaces@, v));
        }
        Some(Sample::Dict(DictSample(out)))
    }

    /// One value per name, the name at position `i` drawn with `seed + i`
    /// (wrapping), or `None` if a named space gives none.
    pub fn sample_with_seed(&self, seed: u64) -> (r: Option<Sample>)
        ensures
            r matches Some(s) ==> self.spec_seeded(seed) == Some(s@),
            r is None ==> self.spec_seeded(seed) is None,
            r matches Some(s) ==> Space::Dict(*self).admits(s@),
        decreases self,
    {
        let mut out: Vec<(String, Sample)> = Vec::new();
        let mut i: usize = 0;
        while i < self.spaces.len()
            invariant
                i <= self.spaces.len(),
                out.len() == i,
                forall|k: int|
                    0 <= k < i ==> (#[trigger] out@[k]).0@ == self.spaces@[k].0@
                        && self.spaces@[k].1.admits(out@[k].1@) && self.spaces@[k].1.spec_seeded(
                        child_seed(seed, k),
                    ) == Some(out@[k].1@),
            decreases self.spaces.len() - i,
        {
            proof {
                assert(decreases_to!(self.spaces@[i as int] => self.spaces@[i as int].1));
            }
            match self.spaces[i].1.sample_with_seed(seed.wrapping_add(i as u64)) {
                Some(x) => out.push((self.spaces[i].0.clone(), x)),
                None => {
                    assert((self.spaces@[i as int]).1.spec_seeded(child_seed(seed, i as int)) is None);
                    return None;
                },
            }
            i = i + 1;
        }
        proof {
            lemma_named_models(out@);
            assert forall|k: int| 0 <= k < self.spaces.len() implies (
            #[trigger] self.spaces@[k]).1.spec_seeded(child_seed(seed, k)) is Some by {
                assert(out@[k].0@ == self.spaces@[k].0@);
            }
            let v = seeded_named(self.spaces@, seed)->Some_0;
            let n = named_models(out@);
            assert forall|k: int| 0 <= k < self.spaces.len() implies n[k].0 == self.spaces@[k].0@
                && (#[trigger] self.spaces@[k]).1.admits(n[k].1) && n[k] == zip_names(
                names(self.spaces@),
                v,
            )[k] by {
                assert(out@[k].0@ == self.spaces@[k].0@);
            }
            assert(named_models(out@) =~= zip_names(names(self.spaces@), v));
            assert(admits_named(self.spaces@, n));
        }
        Some(Sample::Dict(DictSample(out)))
    }

    /// The cartesian product of the named spaces' enumerations in row-major order
    /// (last name fastest), or `None` if one cannot be enumerated.
    pub fn enumerate(&self) -> (r: Option<Vec<Sample>>)
        ensures
            r matches Some(v) ==> self.spec_enumerate() == Some(models(v@)),
            r is None ==> self.spec_enumerate() is None,
        decreases self,
    {
        let mut acc: Vec<Vec<Sample>> = Vec::new();
        acc.push(Vec::new());
        proof {
            lemma_models(Seq::<Sample>::empty());
            assert(models(acc@[0]@) =~= Seq::<SampleModel>::empty());
            assert(sample_rows(acc@) =~= seq![Seq::<SampleModel>::empty()]);
            assert(self.spaces@.take(0) =~= Seq::<(String, Space)>::empty());
        }
        let mut i: usize = 0;
        while i < self.spaces.len()
            invariant
                i <= self.spaces.len(),
                product_named(self.spaces@.take(i as int)) == Some(sample_rows(acc@)),
            decreases self.spaces.len() - i,
        {
            proof {
                assert(decreases_to!(self.spaces@[i as int] => self.spaces@[i as int].1));
            }
            let c = self.spaces[i].1.enumerate();
            proof {
                let t = self.spaces@.take(i + 1);
                assert(t.drop_last() =~= self.spaces@.take(i as int));
                assert(t.last() == self.spaces@[i as int]);
            }
            match c {
                Some(v) => {
                    acc = extend_samples(&acc, &v);
                },
                None => {
                    proof {
                        lemma_product_named_prefix(self.spaces@, i + 1);
                    }
                    return None;
                },
            }
            i = i + 1;
        }
        assert(self.spaces@.take(i as int) =~= self.spaces@);
        proof {
            lemma_product_named_rows(self.spaces@);
        }
        let ghost p = sample_rows(acc@);
        let mut out: Vec<Sample> = Vec::new();
        let mut k: usize = 0;
        while k < acc.len()
            invariant
                k <= acc.len(),
                out.len() == k,
                p == sample_rows(acc@),
                forall|m: int| 0 <= m < acc.len() ==> (#[trigger] p[m]).len() == self.spaces.len(),
                forall|m: int|
                    0 <= m < k ==> #[trigger] out@[m]@ == SampleModel::Dict(
                        zip_names(names(self.spaces@), p[m]),
                    ),
            decreases acc.len() - k,
        {
            let row = &acc[k];
            proof {
                lemma_models(row@);
                assert(p[k as int].len() == self.spaces.len());
                assert(models(row@) == p[k as int]);
            }
            let mut entries: Vec<(String, Sample)> = Vec::new();
            let mut m: usize = 0;
            while m < self.spaces.len()
                invariant
                    m <= self.spaces.len(),
                    row.len() == self.spaces.len(),
                    models(row@) == p[k as int],
                    entries.len() == m,
                    forall|q: int|
                        0 <= q < m ==> (#[trigger] entries@[q]).0@ == self.spaces@[q].0@
                            && entries@[q].1@ == row@[q]@,
                decreases self.spaces.len() - m,
            {
                entries.push((self.spaces[m].0.clone(), row[m].deep_copy()));
                m = m + 1;
            }
            proof {
                lemma_named_models(entries@);
                lemma_models(row@);
                assert(named_models(entries@) =~= zip_names(names(self.spaces@), p[k as int]));
            }
            out.push(Sample::Dict(DictSample(entries)));
            k = k + 1;
        }
        proof {
            lemma_models(out@);
        }
        assert(models(out@) =~= p.map_values(
            |row: Seq<SampleModel>| SampleModel::Dict(zip_names(names(self.spaces@), row)),
        ));
        Some(out)
    }
}

// ---------------------------------------------------------------------------
// Vector
impl VectorSpace {
    /// The sample drawn with `seed`.
    pub open spec fn spec_seeded(&self, seed: u64) -> Option<SampleModel> {
        Space::Vector(*self).spec_seeded(seed)
    }

    /// One enumeration per slot.
    pub open spec fn spec_enumerate(&self) -> Option<Seq<SampleModel>> {
        Space::Vector(*self).spec_enumerate()
    }

    /// Number of slots.
    pub fn len(&self) -> (r: usize)
        ensures
            r == self.spaces.len(),
    {
        self.spaces.len()
    }

    /// Whether there is no slot.
    pub fn is_empty(&self) -> (r: bool)
        ensures
            r == (self.spaces.len() == 0),
    {
        self.spaces.len() == 0
    }

    /// One value per slot, drawn from fresh entropy, or `None` if a slot gives none.
    pub fn sample(&self) -> (r: Option<Sample>)
        ensures
            Space::Vector(*self).spec_sampleable() ==> r is Some,
            r matches Some(s) ==> Space::Vector(*self).admits(s@),
        decreases self,
    {
        proof {
            assert(match Space::Vector(*self) {
                Space::Vector(t) => t == *self,
                _ => false,
            });
            if Space::Vector(*self).spec_sampleable() {
                assert forall|k: int| 0 <= k < self.spaces.len() implies (
                #[trigger] self.spaces@[k]).spec_sampleable() by {}
            }
        }
        match sample_each(&self.spaces) {
            Some(v) => Some(Sample::Vector(VectorSample(v))),
            None => None,
        }
    }

    /// One value per slot, slot `i` drawn with `seed + i` (wrapping), or `None` if
    /// a slot gives none.
    pub fn sample_with_seed(&self, seed: u64) -> (r: Option<Sample>)
        ensures
            r matches Some(s) ==> self.spec_seeded(seed) == Some(s@),
            r is None ==> self.spec_seeded(seed) is None,
            r matches Some(s) ==> Space::Vector(*self).admits(s@),
        decreases self,
    {
        match sample_each_seeded(&self.spaces, seed) {
            Some(v) => Some(Sample::Vector(VectorSample(v))),
            None => None,
        }
    }

    /// The enumeration of each slot, or `None` if a slot cannot be enumerated.
    pub fn enumerate_nested(&self) -> (r: Option<Vec<Vec<Sample>>>)
        ensures
            r matches Some(v) ==> each_enum(self.spaces@) == Some(sample_rows(v@)),
            r is None ==> each_enum(self.spaces@) is None,
    {
        enumerate_each(&self.spaces)
    }

    /// One sample per slot, each holding every value of its slot, or `None` if a
    /// slot cannot be enumerated.
    pub fn enumerate(&self) -> (r: Option<Vec<Sample>>)
        ensures
            r matches Some(v) ==> self.spec_enumerate() == Some(models(v@)),
            r is None ==> self.spec_enumerate() is None,
        decreases self,
    {
        match enumerate_each(&self.spaces) {
            Some(cols) => {
                let mut out: Vec<Sample> = Vec::new();
                let mut k: usize = 0;
                while k < cols.len()
                    invariant
                        k <= cols.len(),
                        out.len() == k,
                        forall|m: int|
                            0 <= m < k ==> #[trigger] out@[m]@ == SampleModel::Vector(
                                models(cols@[m]@),
                            ),
                    decreases cols.len() - k,
                {
                    out.push(Sample::Vector(VectorSample(copy_samples(&cols[k]))));
                    k = k + 1;
                }
                proof {
                    lemma_models(out@);
                }
                assert(models(out@) =~= sample_rows(cols@).map_values(
                    |col: Seq<SampleModel>| SampleModel::Vector(col),
                ));
                Some(out)
            },
            None => None,
        }
    }
}


/// The enumeration of each space, or `None` if one cannot be enumerated.
fn enumerate_each(spaces: &Vec<Space>) -> (r: Option<Vec<Vec<Sample>>>)
    ensures
        r matches Some(v) ==> each_enum(spaces@) == Some(sample_rows(v@)),
        r is None ==> each_enum(spaces@) is None,
    decreases spaces,
{
    let mut out: Vec<Vec<Sample>> = Vec::new();
    let mut i: usize = 0;
    while i < spaces.len()
        invariant
            i <= spaces.len(),
            out.len() == i,
            forall|k: int|
                0 <= k < i ==> (#[trigger] spaces@[k]).spec_enumerate() == Some(
                    models(out@[k]@),
                ),
        decreases spaces.len() - i,
    {
        match spaces[i].enumerate() {
            Some(v) => out.push(v),
            None => {
                return None;
            },
        }
        i = i + 1;
    }
    assert(each_enum(spaces@)->Some_0 =~= sample_rows(out@));
    Some(out)
}

// ---------------------------------------------------------------------------
// Space
impl Space {
    pub fn new_discrete(n: i32, start: i32) -> (r: Space)
        ensures
            r == Space::Discrete(Discrete { n, start }),
    {
        Space::Discrete(Discrete { n, start })
    }

    pub fn new_one_of(spaces: Vec<Space>) -> (r: Space)
        ensures
            r == Space::OneOf(OneOf { spaces }),
    {
        Space::OneOf(OneOf { spaces })
    }

    pub fn new_tuple(spaces: Vec<Space>) -> (r: Space)
        ensures
            r == Space::Tuple(TupleSpace { spaces }),
    {
        Space::Tuple(TupleSpace { spaces })
    }

    pub fn new_box(low: Vec<i32>, high: Vec<i32>) -> (r: Space)
        ensures
            r == Space::Box(Box { low, high }),
    {
        Space::Box(Box { low, high })
    }

    /// A dictionary space over named sub-spaces; the names must be distinct.
    pub fn new_dict(spaces: Vec<(String, Space)>) -> (r: Space)
        requires
            (DictSpace { spaces }).spec_valid(),
        ensures
            r == Space::Dict(DictSpace { spaces }),
    {
        Space::Dict(DictSpace { spaces })
    }

    pub fn new_vector(spaces: Vec<Space>) -> (r: Space)
        ensures
            r == Space::Vector(VectorSpace { spaces }),
    {
        Space::Vector(VectorSpace { spaces })
    }

    /// Structural size: the number of values of a `Discrete` space, the number of
    /// components of a `Box`, the number of direct children otherwise.
    pub fn len(&self) -> (r: usize)
        ensures
            r == match *self {
                Space::Discrete(d) => if d.n > 0 { d.n as int } else { 0 },
                Space::Box(b) => b.low.len() as int,
                Space::OneOf(o) => o.spaces.len() as int,
                Space::Tuple(t) => t.spaces.len() as int,
                Space::Dict(d) => d.spaces.len() as int,
                Space::Vector(v) => v.spaces.len() as int,
            },
    {
        match self {
            Space::Discrete(d) => d.len(),
            Space::Box(b) => b.len(),
            Space::OneOf(o) => o.len(),
            Space::Tuple(t) => t.len(),
            Space::Dict(d) => d.len(),
            Space::Vector(v) => v.len(),
        }
    }

    /// Whether the structural size is zero.
    pub fn is_empty(&self) -> (r: bool)
        ensures
            r == (match *self {
                Space::Discrete(d) => d.n <= 0,
                Space::Box(b) => b.low.len() == 0,
                Space::OneOf(o) => o.spaces.len() == 0,
                Space::Tuple(t) => t.spaces.len() == 0,
                Space::Dict(d) => d.spaces.len() == 0,
                Space::Vector(v) => v.spaces.len() == 0,
            }),
    {
        match self {
            Space::Discrete(d) => d.is_empty(),
            Space::Box(b) => b.is_empty(),
            Space::OneOf(o) => o.is_empty(),
            Space::Tuple(t) => t.is_empty(),
            Space::Dict(d) => d.is_empty(),
            Space::Vector(v) => v.is_empty(),
        }
    }

    /// Whether a `OneOf` may choose this space.
    pub fn is_eligible(&self) -> (r: bool)
        ensures
            r == eligible(*self),
    {
        match self {
            Space::Discrete(d) => d.valid(),
            _ => true,
        }
    }

    /// One value drawn from fresh entropy, or `None` when the space gives none.
    pub fn sample(&self) -> (r: Option<Sample>)
        ensures
            self.spec_sampleable() ==> r is Some,
            r matches Some(s) ==> self.admits(s@),
        decreases self,
    {
        match self {
            Space::Discrete(d) => d.sample(),
            Space::Box(b) => b.sample(),
            Space::OneOf(o) => o.sample(),
            Space::Tuple(t) => t.sample(),
            Space::Dict(d) => d.sample(),
            Space::Vector(v) => v.sample(),
        }
    }

    /// The value drawn with `seed`, or `None` when the space gives none. The same
    /// space and seed always give the same value.
    pub fn sample_with_seed(&self, seed: u64) -> (r: Option<Sample>)
        ensures
            r matches Some(s) ==> self.spec_seeded(seed) == Some(s@),
            r is None ==> self.spec_seeded(seed) is None,
            r matches Some(s) ==> self.admits(s@),
        decreases self,
    {
        match self {
            Space::Discrete(d) => d.sample_with_seed(seed),
            Space::Box(b) => b.sample_with_seed(seed),
            Space::OneOf(o) => o.sample_with_seed(seed),
            Space::Tuple(t) => t.sample_with_seed(seed),
            Space::Dict(d) => d.sample_with_seed(seed),
            Space::Vector(v) => v.sample_with_seed(seed),
        }
    }

    /// For a `Vector` space, one value per slot drawn from fresh entropy; `None`
    /// for other spaces or when a slot gives none.
    pub fn sample_nested(&self) -> (r: Option<Vec<Sample>>)
        ensures
            r matches Some(v) ==> (self matches Space::Vector(t) && admits_each(
                t.spaces@,
                models(v@),
            )),
            (self matches Space::Vector(t) && forall|k: int|
                0 <= k < t.spaces.len() ==> (#[trigger] t.spaces@[k]).spec_sampleable()) ==> r is Some,
    {
        match self {
            Space::Vector(v) => sample_each(&v.spaces),
            _ => None,
        }
    }

    /// For a `Vector` space, one value per slot, slot `i` drawn with `seed + i`
    /// (wrapping); `None` for other spaces or when a slot gives none.
    pub fn sample_nested_with_seed(&self, seed: u64) -> (r: Option<Vec<Sample>>)
        ensures
            r matches Some(v) ==> (self matches Space::Vector(t) && seeded_each(t.spaces@, seed)
                == Some(models(v@))),
            r is None ==> !(self matches Space::Vector(t) && seeded_each(t.spaces@, seed) is Some),
    {
        match self {
            Space::Vector(v) => sample_each_seeded(&v.spaces, seed),
            _ => None,
        }
    }

    /// Every value of the space, or `None` when it cannot be enumerated.
    pub fn enumerate(&self) -> (r: Option<Vec<Sample>>)
        ensures
            r matches Some(v) ==> self.spec_enumerate() == Some(models(v@)),
            r is None ==> self.spec_enumerate() is None,
        decreases self,
    {
        match self {
            Space::Discrete(d) => d.enumerate(),
            Space::Box(b) => b.enumerate(),
            Space::OneOf(o) => o.enumerate(),
            Space::Tuple(t) => t.enumerate(),
            Space::Dict(d) => d.enumerate(),
            Space::Vector(v) => v.enumerate(),
        }
    }

    /// For a `Vector` space, the enumeration of each slot; `None` for other spaces
    /// or when a slot cannot be enumerated.
    pub fn enumerate_nested(&self) -> (r: Option<Vec<Vec<Sample>>>)
        ensures
            r matches Some(v) ==> (self matches Space::Vector(t) && each_enum(t.spaces@) == Some(
                sample_rows(v@),
            )),
            r is None ==> !(self matches Space::Vector(t) && each_enum(t.spaces@) is Some),
    {
        match self {
            Space::Vector(v) => v.enumerate_nested(),
            _ => None,
        }
    }
}


/// Seeded sampling is deterministic: two draws from one space with one seed give
/// the same outcome.
pub proof fn lemma_seeded_sampling_deterministic(
    s: Space,
    seed: u64,
    a: Option<Sample>,
    b: Option<Sample>,
)
    requires
        call_ensures(Space::sample_with_seed, (&s, seed), a),
        call_ensures(Space::sample_with_seed, (&s, seed), b),
    ensures
        a is Some <==> b is Some,
        a matches Some(x) ==> (b matches Some(y) && x@ == y@),
{
}


// ---------------------------------------------------------------------------
// Capability-checked access to samples
impl Sample {
    /// The discrete value, if this is a `Discrete` sample.
    pub fn as_discrete(&self) -> (r: Option<&DiscreteSample>)
        ensures
            r is Some <==> self is Discrete,
            r matches Some(d) ==> *self == Sample::Discrete(*d),
    {
        match self {
            Sample::Discrete(d) => Some(d),
            _ => None,
        }
    }

    /// The integer vector, if this is a `Box` sample.
    pub fn as_box(&self) -> (r: Option<&BoxSample>)
        ensures
            r is Some <==> self is Box,
            r matches Some(b) ==> *self == Sample::Box(*b),
    {
        match self {
            Sample::Box(b) => Some(b),
            _ => None,
        }
    }

    /// The chosen branch and its sample, if this is a `OneOf` sample.
    pub fn as_one_of(&self) -> (r: Option<&OneOfSample>)
        ensures
            r is Some <==> self is OneOf,
            r matches Some(o) ==> *self == Sample::OneOf(*o),
    {
        match self {
            Sample::OneOf(o) => Some(o),
            _ => None,
        }
    }

    /// The parts, if this is a `Tuple` sample.
    pub fn as_tuple(&self) -> (r: Option<&Vec<Sample>>)
        ensures
            r is Some <==> self is Tuple,
            r matches Some(v) ==> *self == Sample::Tuple(TupleSample(*v)),
    {
        match self {
            Sample::Tuple(t) => Some(&t.0),
            _ => None,
        }
    }

    /// The named samples, if this is a `Dict` sample.
    pub fn as_dict(&self) -> (r: Option<&DictSample>)
        ensures
            r is Some <==> self is Dict,
            r matches Some(d) ==> *self == Sample::Dict(*d),
    {
        match self {
            Sample::Dict(d) => Some(d),
            _ => None,
        }
    }

    /// The per-slot samples, if this is a `Vector` sample.
    pub fn as_vector(&self) -> (r: Option<&Vec<Sample>>)
        ensures
            r is Some <==> self is Vector,
            r matches Some(v) ==> *self == Sample::Vector(VectorSample(*v)),
    {
        match self {
            Sample::Vector(v) => Some(&v.0),
            _ => None,
        }
    }
}

impl DictSample {
    /// Number of names.
    pub fn len(&self) -> (r: usize)
        ensures
            r == self.0.len(),
    {
        self.0.len()
    }

    /// Whether there is no name.
    pub fn is_empty(&self) -> (r: bool)
        ensures
            r == (self.0.len() == 0),
    {
        self.0.len() == 0
    }

    /// The sample under `key`, the first one if the name repeats.
    pub fn get(&self, key: &String) -> (r: Option<&Sample>)
        ensures
            r is None <==> forall|i: int| 0 <= i < self.0.len() ==> (#[trigger] self.0@[i]).0@ != key@,
            r matches Some(v) ==> exists|i: int|
                0 <= i < self.0.len() && (#[trigger] self.0@[i]).0@ == key@ && self.0@[i].1 == *v,
    {
        let mut i: usize = 0;
        while i < self.0.len()
            invariant
                i <= self.0.len(),
                forall|k: int| 0 <= k < i ==> (#[trigger] self.0@[k]).0@ != key@,
            decreases self.0.len() - i,
        {
            if self.0[i].0 == *key {
                return Some(&self.0[i].1);
            }
            i = i + 1;
        }
        None
    }
}

/// A concrete kind of sample, which can stand as a `Sample`.
pub trait ConcreteSample: Sized {
    /// The model of the sample once tagged with its kind.
    spec fn spec_tagged(&self) -> SampleModel;

    /// The sample, tagged with its kind.
    fn into_sample(self) -> (r: Sample)
        ensures
            r@ == self.spec_tagged(),
    ;
}

impl ConcreteSample for DiscreteSample {
    open spec fn spec_tagged(&self) -> SampleModel {
        Sample::Discrete(*self)@
    }

    fn into_sample(self) -> (r: Sample) {
        Sample::Discrete(self)
    }
}

impl ConcreteSample for BoxSample {
    open spec fn spec_tagged(&self) -> SampleModel {
        Sample::Box(*self)@
    }

    fn into_sample(self) -> (r: Sample) {
        Sample::Box(self)
    }
}

impl ConcreteSample for OneOfSample {
    open spec fn spec_tagged(&self) -> SampleModel {
        Sample::OneOf(*self)@
    }

    fn into_sample(self) -> (r: Sample) {
        Sample::OneOf(self)
    }
}

impl ConcreteSample for TupleSample {
    open spec fn spec_tagged(&self) -> SampleModel {
        Sample::Tuple(*self)@
    }

    fn into_sample(self) -> (r: Sample) {
        Sample::Tuple(self)
    }
}

impl ConcreteSample for DictSample {
    open spec fn spec_tagged(&self) -> SampleModel {
        Sample::Dict(*self)@
    }

    fn into_sample(self) -> (r: Sample) {
        Sample::Dict(self)
    }
}

impl ConcreteSample for VectorSample {
    open spec fn spec_tagged(&self) -> SampleModel {
        Sample::Vector(*self)@
    }

    fn into_sample(self) -> (r: Sample) {
        Sample::Vector(self)
    }
}

/// The samples, each tagged with its kind, in order.
fn tag_all<T: ConcreteSample>(v: Vec<T>) -> (r: Vec<Sample>)
    ensures
        models(r@) == v@.map_values(|t: T| t.spec_tagged()),
{
    let ghost orig = v@;
    let mut rest = v;
    let mut out: Vec<Sample> = Vec::new();
    while rest.len() > 0
        invariant
            out.len() + rest.len() == orig.len(),
            rest@ == orig.subrange(out.len() as int, orig.len() as int),
            forall|k: int| 0 <= k < out.len() ==> #[trigger] out@[k]@ == orig[k].spec_tagged(),
        decreases rest.len(),
    {
        let t = rest.remove(0);
        out.push(t.into_sample());
        assert(rest@ =~= orig.subrange(out.len() as int, orig.len() as int));
    }
    proof {
        lemma_models(out@);
    }
    assert(models(out@) =~= orig.map_values(|t: T| t.spec_tagged()));
    out
}

impl TupleSample {
    /// A tuple of samples of one concrete kind.
    pub fn from_concrete<T: ConcreteSample>(v: Vec<T>) -> (r: TupleSample)
        ensures
            models(r.0@) == v@.map_values(|t: T| t.spec_tagged()),
    {
        TupleSample(tag_all(v))
    }
}

impl VectorSample {
    /// A vector of samples of one concrete kind.
    pub fn from_concrete<T: ConcreteSample>(v: Vec<T>) -> (r: VectorSample)
        ensures
            models(r.0@) == v@.map_values(|t: T| t.spec_tagged()),
    {
        VectorSample(tag_all(v))
    }
}

impl DictSample {
    /// A dictionary of named samples of one concrete kind, in the given order.
    pub fn from_concrete<T: ConcreteSample>(m: Vec<(String, T)>) -> (r: DictSample)
        ensures
            r.0.len() == m.len(),
            forall|i: int|
                0 <= i < m.len() ==> (#[trigger] r.0@[i]).0 == m@[i].0 && r.0@[i].1@
                    == m@[i].1.spec_tagged(),
    {
        let ghost orig = m@;
        let mut rest = m;
        let mut out: Vec<(String, Sample)> = Vec::new();
        while rest.len() > 0
            invariant
                out.len() + rest.len() == orig.len(),
                rest@ == orig.subrange(out.len() as int, orig.len() as int),
                forall|k: int|
                    0 <= k < out.len() ==> (#[trigger] out@[k]).0 == orig[k].0 && out@[k].1@
                        == orig[k].1.spec_tagged(),
            decreases rest.len(),
        {
            let (name, t) = rest.remove(0);
            out.push((name, t.into_sample()));
            assert(rest@ =~= orig.subrange(out.len() as int, orig.len() as int));
        }
        DictSample(out)
    }
}


// ---------------------------------------------------------------------------
// Membership
impl Space {
    /// Whether `s` is a legal value of the space.
    pub fn contains(&self, s: &Sample) -> (r: bool)
        ensures
            r == self.admits(s@),
        decreases self,
    {
        match self {
            Space::Discrete(d) => match s {
                Sample::Discrete(v) => d.valid() && d.start <= v.0 && v.0 as i64 <= d.start as i64
                    + d.n as i64 - 1,
                _ => false,
            },
            Space::Box(b) => match s {
                Sample::Box(v) => b.valid() && within(&b.low, &b.high, &v.0),
                _ => false,
            },
            Space::OneOf(o) => match s {
                Sample::OneOf(x) => {
                    let k = x.0;
                    if k >= o.spaces.len() {
                        false
                    } else {
                        o.spaces[k].is_eligible() && o.spaces[k].contains(&x.1)
                    }
                },
                _ => false,
            },
            Space::Tuple(t) => match s {
                Sample::Tuple(v) => contains_each(&t.spaces, &v.0),
                _ => false,
            },
            Space::Dict(d) => match s {
                Sample::Dict(v) => contains_named(&d.spaces, &v.0),
                _ => false,
            },
            Space::Vector(t) => match s {
                Sample::Vector(v) => contains_each(&t.spaces, &v.0),
                _ => false,
            },
        }
    }
}

/// Whether `v` has one component per bound, each within its bounds.
fn within(low: &Vec<i32>, high: &Vec<i32>, v: &Vec<i32>) -> (r: bool)
    requires
        low.len() == high.len(),
    ensures
        r == (v.len() == low.len() && forall|i: int|
            0 <= i < v.len() ==> low[i] <= #[trigger] v[i] <= high[i]),
{
    if v.len() != low.len() {
        return false;
    }
    let mut i: usize = 0;
    while i < v.len()
        invariant
            v.len() == low.len(),
            low.len() == high.len(),
            i <= v.len(),
            forall|k: int| 0 <= k < i ==> low[k] <= #[trigger] v[k] <= high[k],
        decreases v.len() - i,
    {
        if v[i] < low[i] || v[i] > high[i] {
            return false;
        }
        i = i + 1;
    }
    true
}

/// Whether each entry carries the name of, and a legal value for, the named
/// space at the same place.
fn contains_named(spaces: &Vec<(String, Space)>, v: &Vec<(String, Sample)>) -> (r: bool)
    ensures
        r == admits_named(spaces@, named_models(v@)),
    decreases spaces,
{
    proof {
        lemma_named_models(v@);
    }
    if v.len() != spaces.len() {
        return false;
    }
    let mut i: usize = 0;
    while i < spaces.len()
        invariant
            v.len() == spaces.len(),
            i <= spaces.len(),
            named_models(v@).len() == v.len(),
            forall|k: int|
                0 <= k < v.len() ==> #[trigger] named_models(v@)[k] == (v@[k].0@, v@[k].1@),
            forall|k: int|
                0 <= k < i ==> named_models(v@)[k].0 == spaces@[k].0@ && (
                #[trigger] spaces@[k]).1.admits(named_models(v@)[k].1),
        decreases spaces.len() - i,
    {
        proof {
            assert(decreases_to!(spaces@[i as int] => spaces@[i as int].1));
        }
        if spaces[i].0 != v[i].0 || !spaces[i].1.contains(&v[i].1) {
            assert(named_models(v@)[i as int] == (v@[i as int].0@, v@[i as int].1@));
            return false;
        }
        i = i + 1;
    }
    true
}

/// Whether each sample is a legal value of the space at the same place.
fn contains_each(spaces: &Vec<Space>, v: &Vec<Sample>) -> (r: bool)
    ensures
        r == admits_each(spaces@, models(v@)),
    decreases spaces,
{
    proof {
        lemma_models(v@);
    }
    if v.len() != spaces.len() {
        return false;
    }
    let mut i: usize = 0;
    while i < spaces.len()
        invariant
            v.len() == spaces.len(),
            i <= spaces.len(),
            models(v@).len() == v.len(),
            forall|k: int| 0 <= k < v.len() ==> #[trigger] models(v@)[k] == v@[k]@,
            forall|k: int| 0 <= k < i ==> (#[trigger] spaces@[k]).admits(models(v@)[k]),
        decreases spaces.len() - i,
    {
        if !spaces[i].contains(&v[i]) {
            assert(models(v@)[i as int] == v@[i as int]@);
            return false;
        }
        i = i + 1;
    }
    true
}

} // verus!
