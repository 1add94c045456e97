//! Constructive solid geometry: boolean composition of two shapes.
//!
//! A CSG node combines the intersections of its two subtrees: the combined
//! register is walked in sorted time order while tracking whether the ray is
//! currently inside the left and the right subtree, and each intersection is
//! kept or dropped by the truth table of the node's operation.

use vstd::prelude::*;

use crate::intersections::{sort_by_t, sorted_by_t, HitRegister, Intersect};
use crate::shapes::Shape;

verus! {

/// The boolean operation of a CSG node.
#[derive(Clone, Copy, Debug, PartialEq, Eq, Structural)]
pub enum CsgOperation {
    Union,
    Intersect,
    Difference,
}

/// A CSG node: an operation over a left and a right subtree.
pub struct Csg {
    pub csg_operation: CsgOperation,
    pub lshape: Shape,
    pub rshape: Shape,
}

/// Whether an intersection is kept, given the operation, whether the
/// intersected object lies in the left subtree, and whether the ray is
/// currently inside the left and the right subtree.
pub open spec fn csg_keep(
    op: CsgOperation,
    left_hit: bool,
    in_left: bool,
    in_right: bool,
) -> bool {
    match op {
        CsgOperation::Union => (left_hit && !in_right) || (!left_hit && !in_left),
        CsgOperation::Intersect => (left_hit && in_right) || (!left_hit && in_left),
        CsgOperation::Difference => (left_hit && !in_right) || (!left_hit && in_left),
    }
}

/// The intersections kept by a CSG evaluation over the sequence `s`, started
/// with the given inside flags: each step consults the truth table, then flips
/// the flag of the subtree the intersected object belongs to.
pub open spec fn csg_filter(
    op: CsgOperation,
    lids: Set<usize>,
    s: Seq<Intersect>,
    in_left: bool,
    in_right: bool,
) -> Seq<Intersect>
    decreases s.len(),
{
    if s.len() == 0 {
        Seq::empty()
    } else {
        let left_hit = lids.contains(s[0].object);
        let rest = csg_filter(
            op,
            lids,
            s.drop_first(),
            if left_hit {
                !in_left
            } else {
                in_left
            },
            if left_hit {
                in_right
            } else {
                !in_right
            },
        );
        if csg_keep(op, left_hit, in_left, in_right) {
            seq![s[0]] + rest
        } else {
            rest
        }
    }
}

/// The law of CSG filtering: it invents nothing and keeps time order. Every
/// kept intersection is one of the recorded intersections, and filtering a
/// time-sorted sequence yields a time-sorted sequence.
pub proof fn lemma_csg_filter_keeps_subsequence(
    op: CsgOperation,
    lids: Set<usize>,
    s: Seq<Intersect>,
    in_left: bool,
    in_right: bool,
)
    ensures
        forall|i: int|
            0 <= i < csg_filter(op, lids, s, in_left, in_right).len() ==> s.contains(
                #[trigger] csg_filter(op, lids, s, in_left, in_right)[i],
            ),
        sorted_by_t(s) ==> sorted_by_t(csg_filter(op, lids, s, in_left, in_right)),
    decreases s.len(),
{
    if s.len() == 0 {
    } else {
        let left_hit = lids.contains(s[0].object);
        let next_left = if left_hit {
            !in_left
        } else {
            in_left
        };
        let next_right = if left_hit {
            in_right
        } else {
            !in_right
        };
        let df = s.drop_first();
        lemma_csg_filter_keeps_subsequence(op, lids, df, next_left, next_right);
        let rest = csg_filter(op, lids, df, next_left, next_right);
        let r = csg_filter(op, lids, s, in_left, in_right);

        assert(forall|i: int| 0 <= i < df.len() ==> df[i] == s[i + 1]);
        assert forall|i: int| 0 <= i < rest.len() implies s.contains(rest[i]) by {
            assert(df.contains(rest[i]));
            let k = choose|k: int| 0 <= k < df.len() && df[k] == rest[i];
            assert(s[k + 1] == rest[i]);
        }
        if csg_keep(op, left_hit, in_left, in_right) {
            assert(r =~= seq![s[0]] + rest);
            assert(forall|i: int| 0 <= i < r.len() ==> r[i] == if i == 0 {
                s[0]
            } else {
                rest[i - 1]
            });
        }

        if sorted_by_t(s) {
            assert(sorted_by_t(df));
            assert(sorted_by_t(rest));
            if csg_keep(op, left_hit, in_left, in_right) {
                assert forall|i: int, j: int| 0 <= i <= j < r.len() implies r[i].t <= r[j].t by {
                    if i == 0 && j > 0 {
                        assert(df.contains(rest[j - 1]));
                        let k = choose|k: int| 0 <= k < df.len() && df[k] == rest[j - 1];
                        assert(s[0].t <= s[k + 1].t);
                    } else if i > 0 {
                        assert(rest[i - 1].t <= rest[j - 1].t);
                    }
                }
            }
        }
    }
}

impl Csg {
    pub fn new(csg_operation: CsgOperation, lshape: Shape, rshape: Shape) -> (r: Csg)
        ensures
            r == (Csg { csg_operation, lshape, rshape }),
    {
        Csg { csg_operation, lshape, rshape }
    }

    pub fn csg_operation(&self) -> (r: CsgOperation)
        ensures
            r == self.csg_operation,
    {
        self.csg_operation
    }

    pub fn lshape(&self) -> (r: &Shape)
        ensures
            r == &self.lshape,
    {
        &self.lshape
    }

    pub fn rshape(&self) -> (r: &Shape)
        ensures
            r == &self.rshape,
    {
        &self.rshape
    }

    /// The union truth table: keep a left hit while outside the right subtree,
    /// and a right hit while outside the left subtree.
    pub fn union_evaluate_intersection(left_hit: bool, in_left: bool, in_right: bool) -> (r: bool)
        ensures
            r == ((left_hit && !in_right) || (!left_hit && !in_left)),
            r == csg_keep(CsgOperation::Union, left_hit, in_left, in_right),
    {
        (left_hit && !in_right) || (!left_hit && !in_left)
    }

    /// The intersection truth table: keep a left hit while inside the right
    /// subtree, and a right hit while inside the left subtree.
    pub fn intersect_evaluate_intersection(left_hit: bool, in_left: bool, in_right: bool) -> (r:
        bool)
        ensures
            r == ((left_hit && in_right) || (!left_hit && in_left)),
            r == csg_keep(CsgOperation::Intersect, left_hit, in_left, in_right),
    {
        (left_hit && in_right) || (!left_hit && in_left)
    }

    /// The difference truth table: keep a left hit while outside the right
    /// subtree, and a right hit while inside the left subtree.
    pub fn difference_evaluate_intersection(left_hit: bool, in_left: bool, in_right: bool) -> (r:
        bool)
        ensures
            r == ((left_hit && !in_right) || (!left_hit && in_left)),
            r == csg_keep(CsgOperation::Difference, left_hit, in_left, in_right),
    {
        (left_hit && !in_right) || (!left_hit && in_left)
    }

    fn keep(op: CsgOperation, left_hit: bool, in_left: bool, in_right: bool) -> (r: bool)
        ensures
            r == csg_keep(op, left_hit, in_left, in_right),
    {
        match op {
            CsgOperation::Union => Self::union_evaluate_intersection(left_hit, in_left, in_right),
            CsgOperation::Intersect => Self::intersect_evaluate_intersection(
                left_hit,
                in_left,
                in_right,
            ),
            CsgOperation::Difference => Self::difference_evaluate_intersection(
                left_hit,
                in_left,
                in_right,
            ),
        }
    }

    /// Filter the combined intersections of the two subtrees: sort by time,
    /// then walk them with the inside flags, keeping each intersection the
    /// operation's truth table accepts.
    #[verifier::loop_isolation(false)]
    pub fn evaluate_intersections(&self, hit_register: HitRegister) -> (r: HitRegister)
        ensures
            r@ == csg_filter(
                self.csg_operation,
                self.lshape.id_set(),
                sort_by_t(hit_register@),
                false,
                false,
            ),
    {
        let ghost lids = self.lshape.id_set();
        let mut reg = hit_register;
        reg.sort_intersections_by_t();
        let ghost s = reg@;

        let mut in_left = false;
        let mut in_right = false;
        let mut out = HitRegister::empty();
        let mut i: usize = 0;
        proof {
            assert(s.skip(0) =~= s);
            assert(out@ + csg_filter(self.csg_operation, lids, s, false, false) =~= csg_filter(
                self.csg_operation,
                lids,
                s,
                false,
                false,
            ));
        }
        while i < reg.hits.len()
            invariant
                0 <= i <= s.len(),
                reg@ == s,
                csg_filter(self.csg_operation, lids, s, false, false) == out@ + csg_filter(
                    self.csg_operation,
                    lids,
                    s.skip(i as int),
                    in_left,
                    in_right,
                ),
            decreases reg.hits.len() - i,
        {
            let hit = reg.hits[i];
            let left_hit = self.lshape.contains(hit.object);
            proof {
                assert(s.skip(i as int)[0] == s[i as int]);
                assert(s.skip(i as int).drop_first() =~= s.skip(i + 1));
            }
            if Self::keep(self.csg_operation, left_hit, in_left, in_right) {
                out.add_raw_intersect(hit);
                proof {
                    assert(out@ + csg_filter(
                        self.csg_operation,
                        lids,
                        s.skip(i + 1),
                        if left_hit {
                            !in_left
                        } else {
                            in_left
                        },
                        if left_hit {
                            in_right
                        } else {
                            !in_right
                        },
                    ) =~= csg_filter(self.csg_operation, lids, s, false, false));
                }
            }
            if left_hit {
                in_left = !in_left;
            } else {
                in_right = !in_right;
            }
            i = i + 1;
        }
        proof {
            assert(s.skip(s.len() as int) =~= Seq::<Intersect>::empty());
            assert(out@ =~= out@ + Seq::<Intersect>::empty());
        }
        out
    }
}

} // verus!
