//! Merge-join (set-sum) of two sorted, deduplicated sequences.

use vstd::prelude::*;
use core::cmp::Ordering;

use crate::iter::total_order::TotalOrdered;

verus! {

/// Indicates which source sequence an item yielded from `SumIter` came from.
#[derive(Clone, Copy, Debug, PartialEq, Eq, Structural)]
pub enum SumIterSelector {
    Left,
    Right,
    Both,
}

impl SumIterSelector {
    /// Tags `v` with `self`.
    pub fn wrap<T>(self, v: Option<T>) -> (r: Option<(SumIterSelector, T)>)
        ensures
            r == (match v {
                Option::Some(x) => Option::Some((self, x)),
                Option::None => Option::None::<(SumIterSelector, T)>,
            }),
{
        match v {
            Option::Some(x) => Option::Some((self, x)),
            Option::None => Option::None,
        }
    }
}

/// Strictly ascending: sorted and free of equivalent duplicates.
pub open spec fn sorted_strict<T: TotalOrdered>(s: Seq<T>) -> bool {
    forall|i: int, j: int| 0 <= i < j < s.len() ==> s[i].lt(s[j])
}

/// Whether `s` holds an element equivalent to `x`.
pub open spec fn has_eqv<T: TotalOrdered>(s: Seq<T>, x: T) -> bool {
    exists|i: int| 0 <= i < s.len() && #[trigger] s[i].eqv(x)
}

/// The items of a tagged sequence, tags dropped.
pub open spec fn items_of<T>(s: Seq<(SumIterSelector, T)>) -> Seq<T> {
    s.map(|i: int, p: (SumIterSelector, T)| p.1)
}

/// What the merge-join promises of one produced pair, against the full inputs:
/// the item stems from the named side(s), and an equivalent item exists in the
/// other input exactly when the tag is `Both`.
pub open spec fn tag_correct<T: TotalOrdered>(lhs: Seq<T>, rhs: Seq<T>, p: (SumIterSelector, T)) -> bool {
    match p.0 {
        SumIterSelector::Left => lhs.contains(p.1) && !has_eqv(rhs, p.1),
        SumIterSelector::Right => rhs.contains(p.1) && !has_eqv(lhs, p.1),
        SumIterSelector::Both => lhs.contains(p.1) && has_eqv(rhs, p.1),
    }
}

/// Iterator yielding the sum (in the set-theoretic sense) of two sorted
/// sequences along with a selector indicating which input yielded each item.
///
/// Assumes that the contents of `lhs` and `rhs` are unique and sorted under
/// the `TotalOrdered` order of `T`; `merge_all` states what is produced then.
pub struct SumIter<T: TotalOrdered> {
    lhs_iter: Vec<T>,
    rhs_iter: Vec<T>,
}

impl<T: TotalOrdered> SumIter<T> {
    /// What is still pending on the left side.
    pub closed spec fn lhs(&self) -> Seq<T> {
        self.lhs_iter@
    }

    /// What is still pending on the right side.
    pub closed spec fn rhs(&self) -> Seq<T> {
        self.rhs_iter@
    }

    /// Creates a new `SumIter` over the two pending sequences.
    pub fn new(lhs: Vec<T>, rhs: Vec<T>) -> (r: SumIter<T>)
        ensures
            r.lhs() == lhs@,
            r.rhs() == rhs@,
    {
        SumIter { lhs_iter: lhs, rhs_iter: rhs }
    }

    /// Consumes the front of both sides, handing out the left item.
    pub fn skip_rhs_take_lhs(&mut self) -> (r: Option<T>)
        requires
            old(self).lhs().len() > 0,
            old(self).rhs().len() > 0,
        ensures
            r == Option::Some(old(self).lhs()[0]),
            final(self).lhs() == old(self).lhs().drop_first(),
            final(self).rhs() == old(self).rhs().drop_first(),
    {
        let _ = self.rhs_iter.remove(0);
        let v = self.lhs_iter.remove(0);
        proof {
            assert(final(self).lhs() =~= old(self).lhs().drop_first());
            assert(final(self).rhs() =~= old(self).rhs().drop_first());
        }
        Option::Some(v)
    }

    /// Takes the next merged item: the smaller pending head, or both heads
    /// merged into one item when they are equivalent.
    pub fn next(&mut self) -> (r: Option<(SumIterSelector, T)>)
        ensures
            ({
                let l = old(self).lhs();
                let rr = old(self).rhs();
                if l.len() == 0 && rr.len() == 0 {
                    &&& r is None
                    &&& final(self).lhs() == l
                    &&& final(self).rhs() == rr
                } else if rr.len() == 0 || (l.len() > 0 && rr.len() > 0 && l[0].lt(rr[0])) {
                    &&& r == Option::Some((SumIterSelector::Left, l[0]))
                    &&& final(self).lhs() == l.drop_first()
                    &&& final(self).rhs() == rr
                } else if l.len() == 0 || rr[0].lt(l[0]) {
                    &&& r == Option::Some((SumIterSelector::Right, rr[0]))
                    &&& final(self).lhs() == l
                    &&& final(self).rhs() == rr.drop_first()
                } else {
                    &&& r == Option::Some((SumIterSelector::Both, l[0]))
                    &&& l[0].eqv(rr[0])
                    &&& final(self).lhs() == l.drop_first()
                    &&& final(self).rhs() == rr.drop_first()
                }
            }),
    {
        if self.lhs_iter.len() == 0 && self.rhs_iter.len() == 0 {
            return Option::None;
        }
        if self.rhs_iter.len() == 0 {
            let v = self.lhs_iter.remove(0);
            proof {
                assert(final(self).lhs() =~= old(self).lhs().drop_first());
            }
            return SumIterSelector::Left.wrap(Option::Some(v));
        }
        if self.lhs_iter.len() == 0 {
            let v = self.rhs_iter.remove(0);
            proof {
                assert(final(self).rhs() =~= old(self).rhs().drop_first());
            }
            return SumIterSelector::Right.wrap(Option::Some(v));
        }
        let o = self.lhs_iter[0].cmp_to(&self.rhs_iter[0]);
        match o {
            Ordering::Less => {
                let v = self.lhs_iter.remove(0);
                proof {
                    assert(final(self).lhs() =~= old(self).lhs().drop_first());
                }
                SumIterSelector::Left.wrap(Option::Some(v))
            },
            Ordering::Greater => {
                let v = self.rhs_iter.remove(0);
                proof {
                    assert(final(self).rhs() =~= old(self).rhs().drop_first());
                }
                SumIterSelector::Right.wrap(Option::Some(v))
            },
            Ordering::Equal => {
                let v = self.skip_rhs_take_lhs();
                SumIterSelector::Both.wrap(v)
            },
        }
    }
}

/// Merging a sequence with an identical copy of itself tags every produced
/// item `Both`: nothing is ever reported as present on one side only.
pub proof fn lemma_merge_self_all_both<T: TotalOrdered>(s: Seq<T>, out: Seq<(SumIterSelector, T)>)
    requires
        forall|k: int| 0 <= k < out.len() ==> tag_correct(s, s, #[trigger] out[k]),
    ensures
        forall|k: int| 0 <= k < out.len() ==> (#[trigger] out[k]).0 == SumIterSelector::Both,
{
    assert forall|k: int| 0 <= k < out.len() implies (#[trigger] out[k]).0
        == SumIterSelector::Both by {
        let p = out[k];
        if p.0 != SumIterSelector::Both {
            // a one-sided tag would deny an equivalent item on the other
            // side, yet the item itself is there
            assert(s.contains(p.1));
            let i = choose|i: int| 0 <= i < s.len() && s[i] == p.1;
            T::lemma_eqv_refl(p.1);
            assert(s[i].eqv(p.1));
            assert(has_eqv(s, p.1));
        }
    }
}

proof fn lemma_items_push<T>(s: Seq<(SumIterSelector, T)>, p: (SumIterSelector, T))
    ensures
        items_of(s.push(p)) =~= items_of(s).push(p.1),
{
}

/// Drains a `SumIter`, returning all merged items.
///
/// For all well-formed sorted inputs (each internally sorted and
/// deduplicated under the order of `T`), the produced item sequence
/// (ignoring tags) is the sorted union of both inputs with duplicates
/// merged; every element common to both inputs is tagged `Both` exactly
/// once, and elements of a single input keep that side's tag.
#[verifier::loop_isolation(false)]
pub fn merge_all<T: TotalOrdered>(lhs: Vec<T>, rhs: Vec<T>) -> (r: Vec<(SumIterSelector, T)>)
    requires
        sorted_strict(lhs@),
        sorted_strict(rhs@),
    ensures
        sorted_strict(items_of(r@)),
        forall|k: int| 0 <= k < r@.len() ==> tag_correct(lhs@, rhs@, #[trigger] r@[k]),
        forall|i: int| 0 <= i < lhs@.len() ==> has_eqv(items_of(r@), #[trigger] lhs@[i]),
        forall|i: int| 0 <= i < rhs@.len() ==> has_eqv(items_of(r@), #[trigger] rhs@[i]),
{
    let ghost gl = lhs@;
    let ghost gr = rhs@;
    let mut it = SumIter::new(lhs, rhs);
    let mut out: Vec<(SumIterSelector, T)> = Vec::new();
    let ghost mut li: int = 0;
    let ghost mut ri: int = 0;
    proof {
        assert(it.lhs() =~= gl.skip(0));
        assert(it.rhs() =~= gr.skip(0));
    }
    loop
        invariant
            0 <= li <= gl.len(),
            0 <= ri <= gr.len(),
            it.lhs() == gl.skip(li),
            it.rhs() == gr.skip(ri),
            sorted_strict(items_of(out@)),
            // every produced item is below everything still pending
            forall|k: int, i: int|
                0 <= k < out@.len() && li <= i < gl.len() ==> (#[trigger] out@[k].1).lt(#[trigger] gl[i]),
            forall|k: int, i: int|
                0 <= k < out@.len() && ri <= i < gr.len() ==> (#[trigger] out@[k].1).lt(#[trigger] gr[i]),
            // everything consumed is below everything still pending on the other side
            forall|j: int, i: int|
                0 <= j < li && ri <= i < gr.len() ==> (#[trigger] gl[j]).lt(#[trigger] gr[i]),
            forall|j: int, i: int|
                0 <= j < ri && li <= i < gl.len() ==> (#[trigger] gr[j]).lt(#[trigger] gl[i]),
            // tags of everything produced are correct
            forall|k: int| 0 <= k < out@.len() ==> tag_correct(gl, gr, #[trigger] out@[k]),
            // everything consumed is covered by the produced items
            forall|j: int| 0 <= j < li ==> has_eqv(items_of(out@), #[trigger] gl[j]),
            forall|j: int| 0 <= j < ri ==> has_eqv(items_of(out@), #[trigger] gr[j]),
        decreases it.lhs().len() + it.rhs().len(),
    {
        let step = it.next();
        match step {
            Option::None => {
                break;
            },
            Option::Some(p) => {
                proof {
                    lemma_items_push(out@, p);
                    let x = p.1;
                    let ghost old_li = li;
                    let ghost old_ri = ri;
                    let lrem = gl.skip(li);
                    let rrem = gr.skip(ri);
                    assert(lrem.len() > 0 ==> lrem[0] == gl[li]);
                    assert(rrem.len() > 0 ==> rrem[0] == gr[ri]);
                    if lrem.len() > 0 {
                        assert(gl.skip(li).drop_first() =~= gl.skip(li + 1));
                    }
                    if rrem.len() > 0 {
                        assert(gr.skip(ri).drop_first() =~= gr.skip(ri + 1));
                    }
                    match p.0 {
                        SumIterSelector::Left => {
                            // x == gl[li], and either the right side is done
                            // or x is strictly below its head
                            assert(gl.contains(x)) by {
                                assert(gl[li] == x);
                            }
                            assert forall|i: int| ri <= i < gr.len() implies x.lt(#[trigger] gr[i]) by {
                                if i > ri {
                                    T::lemma_lt_trans(x, gr[ri], gr[i]);
                                }
                            }
                            assert(!has_eqv(gr, x)) by {
                                assert forall|i: int| 0 <= i < gr.len() implies !(#[trigger] gr[i].eqv(x)) by {
                                    if i < ri {
                                        T::lemma_trichotomy(gr[i], x);
                                    } else {
                                        T::lemma_trichotomy(x, gr[i]);
                                        if gr[i].eqv(x) {
                                            T::lemma_eqv_sym(gr[i], x);
                                        }
                                    }
                                }
                            }
                            li = li + 1;
                        },
                        SumIterSelector::Right => {
                            assert(gr.contains(x)) by {
                                assert(gr[ri] == x);
                            }
                            assert forall|i: int| li <= i < gl.len() implies x.lt(#[trigger] gl[i]) by {
                                if i > li {
                                    T::lemma_lt_trans(x, gl[li], gl[i]);
                                }
                            }
                            assert(!has_eqv(gl, x)) by {
                                assert forall|i: int| 0 <= i < gl.len() implies !(#[trigger] gl[i].eqv(x)) by {
                                    if i < li {
                                        T::lemma_trichotomy(gl[i], x);
                                    } else {
                                        T::lemma_trichotomy(x, gl[i]);
                                        if gl[i].eqv(x) {
                                            T::lemma_eqv_sym(gl[i], x);
                                        }
                                    }
                                }
                            }
                            ri = ri + 1;
                        },
                        SumIterSelector::Both => {
                            // x == gl[li], equivalent to gr[ri]
                            assert(gl.contains(x)) by {
                                assert(gl[li] == x);
                            }
                            assert(has_eqv(gr, x)) by {
                                T::lemma_eqv_sym(x, gr[ri]);
                                assert(gr[ri].eqv(x));
                            }
                            assert forall|i: int| ri + 1 <= i < gr.len() implies x.lt(#[trigger] gr[i]) by {
                                T::lemma_lt_trans(x, gr[ri], gr[i]);
                            }
                            assert forall|i: int| li + 1 <= i < gl.len() implies (#[trigger] gr[ri]).lt(gl[i]) by {
                                T::lemma_eqv_sym(x, gr[ri]);
                                T::lemma_lt_trans(gr[ri], x, gl[i]);
                            }
                            li = li + 1;
                            ri = ri + 1;
                        },
                    }
                    // the new item extends the produced prefix in order
                    assert(items_of(out@.push(p))[out@.len() as int] == x);
                    assert forall|a: int, b: int|
                        #![trigger items_of(out@.push(p))[a], items_of(out@.push(p))[b]]
                        0 <= a < b < items_of(out@.push(p)).len() implies
                        (items_of(out@.push(p))[a]).lt(items_of(out@.push(p))[b]) by {
                        if b < out@.len() {
                            assert(items_of(out@)[a].lt(items_of(out@)[b]));
                        } else {
                            assert(items_of(out@)[a].lt(x));
                        }
                    }
                    // coverage carries over to the extended output and now
                    // includes the freshly consumed head(s)
                    T::lemma_eqv_refl(x);
                    assert forall|j: int| 0 <= j < li implies has_eqv(items_of(out@.push(p)), #[trigger] gl[j]) by {
                        if j < old_li {
                            let w = choose|i: int| 0 <= i < items_of(out@).len() && #[trigger] items_of(out@)[i].eqv(gl[j]);
                            assert(items_of(out@.push(p))[w].eqv(gl[j]));
                        } else {
                            assert(x == gl[j]);
                            assert(items_of(out@.push(p))[out@.len() as int].eqv(gl[j]));
                        }
                    }
                    assert forall|j: int| 0 <= j < ri implies has_eqv(items_of(out@.push(p)), #[trigger] gr[j]) by {
                        if j < old_ri {
                            let w = choose|i: int| 0 <= i < items_of(out@).len() && #[trigger] items_of(out@)[i].eqv(gr[j]);
                            assert(items_of(out@.push(p))[w].eqv(gr[j]));
                        } else {
                            assert(x.eqv(gr[j]));
                            assert(items_of(out@.push(p))[out@.len() as int].eqv(gr[j]));
                        }
                    }
                }
                out.push(p);
            },
        }
    }
    proof {
        assert(gl.skip(li).len() == 0 && gr.skip(ri).len() == 0);
        assert(li == gl.len() && ri == gr.len());
    }
    out
}

} // verus!
