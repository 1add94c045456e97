//! Raw intersections, the hit register, and hit finalisation.
//!
//! Hit times are order codes: signed integers whose order and sign agree with
//! the real-valued times of the scene's intersections. The register collects
//! raw intersections in traversal order, sorts them stably by time, selects
//! the first hit at a non-negative time, and computes the refraction boundary
//! at that hit by tracking which media the ray is inside.

use vstd::prelude::*;

verus! {

/// A raw intersection: the hit time as an order code, and the identity of the
/// primitive that was hit.
#[derive(Clone, Copy, Debug, PartialEq, Eq, Structural)]
pub struct Intersect {
    /// Order code of the hit time: its order and sign agree with the real hit time.
    pub t: i64,
    /// Identity of the primitive hit.
    pub object: usize,
}

impl Intersect {
    pub fn new(t: i64, object: usize) -> (r: Intersect)
        ensures
            r == (Intersect { t, object }),
    {
        Intersect { t, object }
    }

    pub fn t(&self) -> (r: i64)
        ensures
            r == self.t,
    {
        self.t
    }

    pub fn object(&self) -> (r: usize)
        ensures
            r == self.object,
    {
        self.object
    }
}

/// The refractive media on either side of a hit: `n1` is the medium the ray
/// leaves, `n2` the medium it enters. `None` stands for the ambient medium;
/// `Some(id)` for the inside of the primitive with that identity.
#[derive(Clone, Copy, Debug, PartialEq, Eq)]
pub struct RefractionBoundary {
    pub n1: Option<usize>,
    pub n2: Option<usize>,
}

/// The visible hit of a cast, finalised: the chosen raw intersection together
/// with its refraction boundary.
#[derive(Clone, Copy, Debug, PartialEq, Eq)]
pub struct ComputedIntersect {
    pub intersect: Intersect,
    pub refraction_boundary: RefractionBoundary,
}

impl ComputedIntersect {
    pub fn t(&self) -> (r: i64)
        ensures
            r == self.intersect.t,
    {
        self.intersect.t
    }

    pub fn object(&self) -> (r: usize)
        ensures
            r == self.intersect.object,
    {
        self.intersect.object
    }

    pub fn refraction_boundary(&self) -> (r: RefractionBoundary)
        ensures
            r == self.refraction_boundary,
    {
        self.refraction_boundary
    }
}

/// Whether a sequence of intersections is ordered by non-decreasing time.
pub open spec fn sorted_by_t(s: Seq<Intersect>) -> bool {
    forall|i: int, j: int| 0 <= i <= j < s.len() ==> s[i].t <= s[j].t
}

/// Stable insertion of one intersection into a sequence: the new element goes
/// after every element whose time is not greater than its own.
pub open spec fn insert_by_t(s: Seq<Intersect>, x: Intersect) -> Seq<Intersect>
    decreases s.len(),
{
    if s.len() == 0 {
        seq![x]
    } else if s.last().t > x.t {
        insert_by_t(s.drop_last(), x).push(s.last())
    } else {
        s.push(x)
    }
}

/// Stable sort by time: insertion sort, so intersections with equal times keep
/// their relative order from the input.
pub open spec fn sort_by_t(s: Seq<Intersect>) -> Seq<Intersect>
    decreases s.len(),
{
    if s.len() == 0 {
        Seq::empty()
    } else {
        insert_by_t(sort_by_t(s.drop_last()), s.last())
    }
}

/// One step of the refraction bookkeeping: if the object is already among the
/// media the ray is inside, its first occurrence leaves the list (the ray
/// exits it); otherwise it is appended (the ray enters it).
pub open spec fn toggle_container(objs: Seq<usize>, object: usize) -> Seq<usize>
    decreases objs.len(),
{
    if objs.len() == 0 {
        seq![object]
    } else if objs[0] == object {
        objs.drop_first()
    } else {
        seq![objs[0]] + toggle_container(objs.drop_first(), object)
    }
}

/// The ordered list of media the ray is inside after passing the first `n`
/// intersections of `s`.
pub open spec fn containers(s: Seq<Intersect>, n: int) -> Seq<usize>
    decreases n,
{
    if n <= 0 {
        Seq::empty()
    } else {
        toggle_container(containers(s, n - 1), s[n - 1].object)
    }
}

/// The innermost medium of a container list: the last object entered, or the
/// ambient medium when the list is empty.
pub open spec fn medium(objs: Seq<usize>) -> Option<usize> {
    if objs.len() == 0 {
        None
    } else {
        Some(objs.last())
    }
}

/// The refraction boundary at intersection `idx` of the sorted sequence `s`:
/// the medium the ray is inside just before the hit, and just after it.
pub open spec fn boundary_at(s: Seq<Intersect>, idx: int) -> RefractionBoundary {
    RefractionBoundary { n1: medium(containers(s, idx)), n2: medium(containers(s, idx + 1)) }
}

/// The index of the first intersection at a non-negative time, or `s.len()`
/// when every intersection lies behind the ray.
pub open spec fn first_nonneg_index(s: Seq<Intersect>) -> int
    decreases s.len(),
{
    if s.len() == 0 {
        0
    } else if s[0].t >= 0 {
        0
    } else {
        1 + first_nonneg_index(s.drop_first())
    }
}

/// What finalising a register of raw intersections yields: sort stably by
/// time, take the first hit at a non-negative time if there is one, and pair
/// it with its refraction boundary.
pub open spec fn finalise_spec(hits: Seq<Intersect>) -> Option<ComputedIntersect> {
    let s = sort_by_t(hits);
    let idx = first_nonneg_index(s);
    if idx < s.len() {
        Some(
            ComputedIntersect {
                intersect: s[idx],
                refraction_boundary: boundary_at(s, idx),
            },
        )
    } else {
        None
    }
}

proof fn lemma_insert_by_t_at(s: Seq<Intersect>, x: Intersect, j: int)
    requires
        0 <= j <= s.len(),
        forall|k: int| j <= k < s.len() ==> s[k].t > x.t,
        j > 0 ==> s[j - 1].t <= x.t,
    ensures
        insert_by_t(s, x) == s.insert(j, x),
    decreases s.len(),
{
    if s.len() == 0 {
        assert(insert_by_t(s, x) =~= s.insert(0, x));
    } else if j == s.len() {
        assert(insert_by_t(s, x) == s.push(x));
        assert(s.push(x) =~= s.insert(j, x));
    } else {
        assert(s.last().t > x.t);
        assert(forall|k: int| j <= k < s.drop_last().len() ==> s.drop_last()[k].t > x.t);
        lemma_insert_by_t_at(s.drop_last(), x, j);
        assert(s.drop_last().insert(j, x).push(s.last()) =~= s.insert(j, x));
    }
}

proof fn lemma_insert_by_t_ensures(s: Seq<Intersect>, x: Intersect)
    ensures
        insert_by_t(s, x).len() == s.len() + 1,
        insert_by_t(s, x).to_multiset() == s.to_multiset().insert(x),
        sorted_by_t(s) ==> sorted_by_t(insert_by_t(s, x)),
    decreases s.len(),
{
    broadcast use vstd::seq_lib::group_to_multiset_ensures;

    if s.len() == 0 {
        assert(insert_by_t(s, x) =~= Seq::empty().push(x));
        assert(Seq::<Intersect>::empty().push(x).to_multiset() =~= s.to_multiset().insert(x));
    } else if s.last().t > x.t {
        let dl = s.drop_last();
        lemma_insert_by_t_ensures(dl, x);
        let r = insert_by_t(dl, x);
        assert(s =~= dl.push(s.last()));
        assert(r.push(s.last()).to_multiset() =~= s.to_multiset().insert(x)) by {
            assert(r.push(s.last()).to_multiset() =~= r.to_multiset().insert(s.last()));
            assert(dl.push(s.last()).to_multiset() =~= dl.to_multiset().insert(s.last()));
            assert(r.to_multiset() == dl.to_multiset().insert(x));
            assert(dl.to_multiset().insert(x).insert(s.last()) =~= dl.to_multiset().insert(
                s.last(),
            ).insert(x));
        }
        if sorted_by_t(s) {
            assert(sorted_by_t(dl));
            assert(sorted_by_t(r));
            assert forall|i: int| 0 <= i < r.len() implies r[i].t <= s.last().t by {
                assert(r.contains(r[i]));
                assert(r.to_multiset().count(r[i]) > 0);
                if r[i] != x {
                    assert(dl.to_multiset().count(r[i]) > 0);
                    assert(dl.contains(r[i]));
                    let k = choose|k: int| 0 <= k < dl.len() && dl[k] == r[i];
                    assert(s[k].t <= s.last().t);
                }
            }
            assert(sorted_by_t(r.push(s.last())));
        }
    } else {
        assert(insert_by_t(s, x) == s.push(x));
        assert(s.push(x).to_multiset() =~= s.to_multiset().insert(x));
        if sorted_by_t(s) {
            assert(forall|i: int| 0 <= i < s.len() ==> s[i].t <= s.last().t);
            assert(sorted_by_t(s.push(x)));
        }
    }
}

/// Stable sorting by time keeps exactly the intersections of the input (as a
/// multiset) and orders them by non-decreasing time.
pub proof fn lemma_sort_by_t_ensures(s: Seq<Intersect>)
    ensures
        sort_by_t(s).len() == s.len(),
        sort_by_t(s).to_multiset() == s.to_multiset(),
        sorted_by_t(sort_by_t(s)),
    decreases s.len(),
{
    broadcast use vstd::seq_lib::group_to_multiset_ensures;

    if s.len() == 0 {
    } else {
        let dl = s.drop_last();
        lemma_sort_by_t_ensures(dl);
        lemma_insert_by_t_ensures(sort_by_t(dl), s.last());
        assert(s =~= dl.push(s.last()));
        assert(dl.push(s.last()).to_multiset() =~= dl.to_multiset().insert(s.last()));
    }
}

proof fn lemma_first_nonneg_index_at(s: Seq<Intersect>, i: int)
    requires
        0 <= i <= s.len(),
        forall|k: int| 0 <= k < i ==> s[k].t < 0,
        i < s.len() ==> s[i].t >= 0,
    ensures
        first_nonneg_index(s) == i,
    decreases s.len(),
{
    if s.len() == 0 {
    } else if s[0].t >= 0 {
        assert(i == 0);
    } else {
        assert(i >= 1);
        let df = s.drop_first();
        assert(forall|k: int| 0 <= k < i - 1 ==> df[k] == s[k + 1] && df[k].t < 0);
        lemma_first_nonneg_index_at(df, i - 1);
    }
}

/// Where the first non-negative-time intersection of a sorted sequence sits:
/// everything before it lies behind the ray, and it is in bounds exactly when
/// some intersection has non-negative time.
pub proof fn lemma_first_nonneg_index_props(s: Seq<Intersect>)
    ensures
        0 <= first_nonneg_index(s) <= s.len(),
        forall|k: int| 0 <= k < first_nonneg_index(s) ==> s[k].t < 0,
        first_nonneg_index(s) < s.len() ==> s[first_nonneg_index(s)].t >= 0,
    decreases s.len(),
{
    if s.len() == 0 {
    } else if s[0].t >= 0 {
    } else {
        let df = s.drop_first();
        lemma_first_nonneg_index_props(df);
        assert(forall|k: int| 0 <= k < df.len() ==> df[k] == s[k + 1]);
        assert forall|k: int| 0 <= k < first_nonneg_index(s) implies s[k].t < 0 by {
            if k > 0 {
                assert(df[k - 1] == s[k]);
                assert(df[k - 1].t < 0);
            }
        }
    }
}

/// The law of hit selection: when finalisation yields a hit, that hit is one
/// of the raw intersections, its time is non-negative, and no raw intersection
/// at a non-negative time is earlier; when it yields none, every raw
/// intersection lies behind the ray.
pub proof fn lemma_finalised_hit_minimal(hits: Seq<Intersect>)
    ensures
        match finalise_spec(hits) {
            Some(c) => hits.contains(c.intersect) && c.intersect.t >= 0 && forall|k: int|
                0 <= k < hits.len() && hits[k].t >= 0 ==> c.intersect.t <= hits[k].t,
            None => forall|k: int| 0 <= k < hits.len() ==> hits[k].t < 0,
        },
{
    broadcast use vstd::seq_lib::group_to_multiset_ensures;

    let s = sort_by_t(hits);
    lemma_sort_by_t_ensures(hits);
    lemma_first_nonneg_index_props(s);
    let idx = first_nonneg_index(s);
    if idx < s.len() {
        let c = finalise_spec(hits).unwrap();
        assert(c.intersect == s[idx]);
        assert(s.contains(s[idx]));
        assert(s.to_multiset().count(c.intersect) > 0);
        assert(hits.to_multiset().count(c.intersect) > 0);
        assert(hits.contains(c.intersect));
        assert forall|k: int| 0 <= k < hits.len() && hits[k].t >= 0 implies c.intersect.t
            <= hits[k].t by {
            assert(hits.contains(hits[k]));
            assert(hits.to_multiset().count(hits[k]) > 0);
            assert(s.to_multiset().count(hits[k]) > 0);
            assert(s.contains(hits[k]));
            let j = choose|j: int| 0 <= j < s.len() && s[j] == hits[k];
            assert(j >= idx);
            assert(s[idx].t <= s[j].t);
        }
    } else {
        assert forall|k: int| 0 <= k < hits.len() implies hits[k].t < 0 by {
            assert(hits.contains(hits[k]));
            assert(hits.to_multiset().count(hits[k]) > 0);
            assert(s.to_multiset().count(hits[k]) > 0);
            assert(s.contains(hits[k]));
            let j = choose|j: int| 0 <= j < s.len() && s[j] == hits[k];
            assert(s[j].t < 0);
        }
    }
}

/// The law of the refraction stack: successive boundaries chain. The medium a
/// ray enters at one intersection is exactly the medium it leaves at the next,
/// and the very first boundary is left from the ambient medium. Over a pass
/// through a row of media this yields each transition in the order
/// encountered.
pub proof fn lemma_refraction_boundaries_chain(s: Seq<Intersect>, idx: int)
    requires
        0 <= idx,
        idx + 1 < s.len(),
    ensures
        boundary_at(s, idx).n2 == boundary_at(s, idx + 1).n1,
        boundary_at(s, 0).n1 == None::<usize>,
{
    assert(containers(s, 0) =~= Seq::empty());
}

/// The law of entering a medium: when the hit's object is not among the media
/// the ray is already inside, the medium entered at that hit is that object
/// itself.
pub proof fn lemma_entering_becomes_medium(s: Seq<Intersect>, idx: int)
    requires
        0 <= idx < s.len(),
        !containers(s, idx).contains(s[idx].object),
    ensures
        boundary_at(s, idx).n2 == Some(s[idx].object),
{
    let objs = containers(s, idx);
    assert(forall|k: int| 0 <= k < objs.len() ==> objs[k] != s[idx].object);
    lemma_toggle_absent(objs, s[idx].object);
}

proof fn lemma_toggle_first_occurrence(objs: Seq<usize>, object: usize, i: int)
    requires
        0 <= i < objs.len(),
        objs[i] == object,
        forall|k: int| 0 <= k < i ==> objs[k] != object,
    ensures
        toggle_container(objs, object) == objs.remove(i),
    decreases objs.len(),
{
    if i == 0 {
        assert(toggle_container(objs, object) =~= objs.remove(0));
    } else {
        let df = objs.drop_first();
        assert(forall|k: int| 0 <= k < i - 1 ==> df[k] == objs[k + 1]);
        lemma_toggle_first_occurrence(df, object, i - 1);
        assert(seq![objs[0]] + df.remove(i - 1) =~= objs.remove(i));
    }
}

proof fn lemma_toggle_absent(objs: Seq<usize>, object: usize)
    requires
        forall|k: int| 0 <= k < objs.len() ==> objs[k] != object,
    ensures
        toggle_container(objs, object) == objs.push(object),
    decreases objs.len(),
{
    if objs.len() == 0 {
        assert(toggle_container(objs, object) =~= objs.push(object));
    } else {
        let df = objs.drop_first();
        lemma_toggle_absent(df, object);
        assert(seq![objs[0]] + df.push(object) =~= objs.push(object));
    }
}

/// An unordered register of the raw intersections accumulated while a ray
/// traverses the scene.
#[derive(Clone, Debug)]
pub struct HitRegister {
    pub hits: Vec<Intersect>,
}

impl View for HitRegister {
    type V = Seq<Intersect>;

    open spec fn view(&self) -> Seq<Intersect> {
        self.hits@
    }
}

impl HitRegister {
    /// A register with no intersections.
    pub fn empty() -> (r: HitRegister)
        ensures
            r@ == Seq::<Intersect>::empty(),
    {
        HitRegister { hits: Vec::new() }
    }

    /// Record one raw intersection.
    pub fn add_raw_intersect(&mut self, intersect: Intersect)
        ensures
            final(self)@ == old(self)@.push(intersect),
    {
        self.hits.push(intersect);
    }

    /// Merge another register's intersections after this register's own.
    pub fn combine_registers(&mut self, hit_register: HitRegister)
        ensures
            final(self)@ == old(self)@ + hit_register@,
    {
        let mut other = hit_register;
        self.hits.append(&mut other.hits);
    }

    /// The recorded intersections, in their current order.
    pub fn expose(&self) -> (r: &Vec<Intersect>)
        ensures
            r@ == self@,
    {
        &self.hits
    }

    /// Sort the register stably by non-decreasing hit time.
    #[verifier::loop_isolation(false)]
    pub fn sort_intersections_by_t(&mut self)
        ensures
            final(self)@ == sort_by_t(old(self)@),
            sorted_by_t(final(self)@),
    {
        let ghost input = self.hits@;
        let mut res: Vec<Intersect> = Vec::new();
        let mut i: usize = 0;
        while i < self.hits.len()
            invariant
                0 <= i <= self.hits.len(),
                self.hits@ == input,
                res@ == sort_by_t(input.take(i as int)),
                sorted_by_t(res@),
            decreases self.hits.len() - i,
        {
            let x = self.hits[i];
            let mut j: usize = res.len();
            while j > 0 && res[j - 1].t > x.t
                invariant
                    0 <= j <= res.len(),
                    forall|k: int| j <= k < res@.len() ==> res@[k].t > x.t,
                decreases j,
            {
                j = j - 1;
            }
            let ghost before = res@;
            res.insert(j, x);
            proof {
                lemma_insert_by_t_at(before, x, j as int);
                lemma_insert_by_t_ensures(before, x);
                assert(input.take(i + 1).drop_last() =~= input.take(i as int));
                assert(input.take(i + 1).last() == input[i as int]);
                assert(res@ == sort_by_t(input.take(i + 1)));
            }
            i = i + 1;
        }
        proof {
            assert(input.take(input.len() as int) =~= input);
        }
        self.hits = res;
    }

    /// The refraction boundary at intersection `idx_hit` of this register's
    /// current order: walk the earlier intersections, keeping the ordered list
    /// of media the ray is inside, and read the medium on each side of the hit.
    #[verifier::loop_isolation(false)]
    pub fn compute_refraction_boundary(&self, idx_hit: usize) -> (r: RefractionBoundary)
        requires
            idx_hit < self@.len(),
        ensures
            r == boundary_at(self@, idx_hit as int),
    {
        let mut in_objects: Vec<usize> = Vec::new();
        let mut i: usize = 0;
        while i < idx_hit
            invariant
                0 <= i <= idx_hit,
                in_objects@ == containers(self@, i as int),
            decreases idx_hit - i,
        {
            Self::update_containers(&mut in_objects, self.hits[i].object);
            i = i + 1;
        }
        let n1 = Self::innermost_medium(&in_objects);
        Self::update_containers(&mut in_objects, self.hits[idx_hit].object);
        let n2 = Self::innermost_medium(&in_objects);
        RefractionBoundary { n1, n2 }
    }

    /// Toggle membership of `object` in the ordered list of media the ray is
    /// inside: remove its first occurrence when present, append it otherwise.
    #[verifier::loop_isolation(false)]
    fn update_containers(in_objects: &mut Vec<usize>, object: usize)
        ensures
            final(in_objects)@ == toggle_container(old(in_objects)@, object),
    {
        let n = in_objects.len();
        let mut i: usize = 0;
        while i < n
            invariant
                0 <= i <= n,
                in_objects@ == old(in_objects)@,
                n == in_objects@.len(),
                forall|k: int| 0 <= k < i ==> in_objects@[k] != object,
            decreases n - i,
        {
            if in_objects[i] == object {
                let ghost before = in_objects@;
                in_objects.remove(i);
                proof {
                    lemma_toggle_first_occurrence(before, object, i as int);
                }
                return ;
            }
            i = i + 1;
        }
        let ghost before = in_objects@;
        in_objects.push(object);
        proof {
            lemma_toggle_absent(before, object);
        }
    }

    fn innermost_medium(in_objects: &Vec<usize>) -> (r: Option<usize>)
        ensures
            r == medium(in_objects@),
    {
        if in_objects.len() == 0 {
            None
        } else {
            Some(in_objects[in_objects.len() - 1])
        }
    }

    /// Finalise the register: sort stably by time, pick the first intersection
    /// at a non-negative time, and compute its refraction boundary. Yields
    /// nothing when every intersection lies behind the ray.
    #[verifier::loop_isolation(false)]
    pub fn finalise_hit(self) -> (r: Option<ComputedIntersect>)
        ensures
            r == finalise_spec(self@),
    {
        let mut reg = self;
        reg.sort_intersections_by_t();
        let ghost s = reg@;
        let mut idx: usize = 0;
        while idx < reg.hits.len() && reg.hits[idx].t < 0
            invariant
                0 <= idx <= s.len(),
                reg@ == s,
                forall|k: int| 0 <= k < idx ==> s[k].t < 0,
            decreases reg.hits.len() - idx,
        {
            idx = idx + 1;
        }
        if idx < reg.hits.len() {
            proof {
                lemma_first_nonneg_index_at(s, idx as int);
            }
            let refraction_boundary = reg.compute_refraction_boundary(idx);
            Some(
                ComputedIntersect {
                    intersect: reg.hits[idx],
                    refraction_boundary,
                },
            )
        } else {
            proof {
                lemma_first_nonneg_index_at(s, s.len() as int);
            }
            None
        }
    }
}

impl From<Vec<Intersect>> for HitRegister {
    /// A register holding exactly the given intersections, in order.
    fn from(hits: Vec<Intersect>) -> (r: HitRegister) {
        HitRegister { hits }
    }
}

impl vstd::std_specs::convert::FromSpecImpl<Vec<Intersect>> for HitRegister {
    open spec fn obeys_from_spec() -> bool {
        true
    }

    open spec fn from_spec(hits: Vec<Intersect>) -> HitRegister {
        HitRegister { hits }
    }
}

} // verus!
