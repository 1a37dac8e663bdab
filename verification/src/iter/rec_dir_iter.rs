//! Sorted recursive directory traversal.
//!
//! `RecDirIter` is the decision half of the traversal: it owns the FIFO
//! queue of pending relative paths and the latched traversal error, and it
//! guarantees that paths are yielded in strictly ascending path ordering.
//! The embedding program performs the actual directory listings and feeds
//! each result back through `append_dir_elems`.

use vstd::prelude::*;
use core::cmp::Ordering;
use std::collections::VecDeque;
use vstd::multiset::Multiset;

use crate::bytes::copy_bytes;
use crate::bytes::push_bytes;
use crate::io::print_diff::encoded_path_bytes;
use crate::io::print_diff::utf8_percent_encode_path;
use crate::iter::total_order::TotalOrdered;
use crate::rel_path::RelPath;
use crate::rel_path::bytes_lt;
use crate::rel_path::comps_lt;
use crate::rel_path::path_lt;
use crate::rel_path::join_bytes;
use crate::rel_path::lemma_bytes_lt_trans;
use crate::rel_path::lemma_bytes_lt_trichotomy;
use crate::rel_path::lemma_comps_lt_append;
use crate::rel_path::lemma_comps_lt_sibling;
use crate::rel_path::lemma_comps_lt_trans;
use crate::rel_path::lemma_path_lt_trans;
use crate::verdict::ErrorKind;
use crate::verdict::FileKind;

verus! {

/// Compares paths, so that:
/// - paths with a smaller number of components are smaller
/// - paths with equal numbers of components are compared lexicographically
pub fn cmp_paths(lhs: &RelPath, rhs: &RelPath) -> (o: Ordering)
    ensures
        (o == Ordering::Less) <==> path_lt(lhs@, rhs@),
        (o == Ordering::Equal) <==> (lhs@ == rhs@),
        (o == Ordering::Greater) <==> path_lt(rhs@, lhs@),
{
    lhs.cmp_to(rhs)
}

/// An I/O failure met while listing a directory, annotated with the
/// directory that failed.
#[derive(Debug)]
pub struct WalkError {
    pub kind: ErrorKind,
    /// The raw bytes of the failing directory's path, tree root included.
    pub dir: Vec<u8>,
}

impl WalkError {
    /// A printable description naming the failing directory.
    pub fn describe(&self) -> (r: Vec<u8>)
        ensures
            r@ == crate::bytes::ascii_bytes("reading directory "@) + encoded_path_bytes(self.dir@),
    {
        let s = "reading directory ";
        proof {
            reveal_strlit("reading directory ");
            assert(vstd::string::is_ascii(s));
        }
        let mut r = crate::bytes::str_to_bytes(s);
        let enc = utf8_percent_encode_path(&self.dir);
        push_bytes(&mut r, &enc);
        r
    }
}

/// The distinguished construction failure: the root is not a directory.
#[derive(Debug)]
pub struct RecDirIterTopIsNotDir;

/// The display path of the directory `p` under the root `top`.
pub open spec fn join_display(top: Seq<u8>, p: Seq<Seq<u8>>) -> Seq<u8> {
    if p.len() == 0 {
        top
    } else {
        top + seq![47u8] + join_bytes(p)
    }
}

/// Inserting `v` at the first position not below it keeps the sequence
/// sorted.
proof fn lemma_insert_sorted(s: Seq<Vec<u8>>, v: Vec<u8>, pos: int)
    requires
        0 <= pos <= s.len(),
        forall|i: int, j: int|
            0 <= i < j < s.len() ==> bytes_lt(#[trigger] s[i]@, #[trigger] s[j]@) || s[i]@ == s[j]@,
        forall|j: int| 0 <= j < pos ==> bytes_lt(#[trigger] s[j]@, v@),
        pos < s.len() ==> (bytes_lt(v@, s[pos]@) || v@ == s[pos]@),
    ensures
        forall|i: int, j: int|
            0 <= i < j < s.insert(pos, v).len() ==> bytes_lt(
                #[trigger] s.insert(pos, v)[i]@,
                #[trigger] s.insert(pos, v)[j]@,
            ) || s.insert(pos, v)[i]@ == s.insert(pos, v)[j]@,
{
    s.insert_ensures(pos, v);
    let t = s.insert(pos, v);
    // v is at or below everything that follows it
    assert forall|j: int| pos < j < t.len() implies bytes_lt(v@, #[trigger] t[j]@) || v@ == t[j]@ by {
        assert(t[j] == s[j - 1]);
        if j - 1 > pos {
            if bytes_lt(v@, s[pos]@) || bytes_lt(s[pos]@, s[j - 1]@) {
                lemma_bytes_lt_trans(v@, s[pos]@, s[j - 1]@);
            }
        }
    }
    assert forall|i: int, j: int|
        0 <= i < j < t.len() implies bytes_lt(#[trigger] t[i]@, #[trigger] t[j]@) || t[i]@
            == t[j]@ by {
        if j < pos {
            assert(t[i] == s[i] && t[j] == s[j]);
        } else if i < pos && j == pos {
            assert(t[i] == s[i] && t[j] == v);
        } else if i < pos && j > pos {
            assert(t[i] == s[i]);
            // s[i] < v <= t[j]
            if bytes_lt(v@, t[j]@) || bytes_lt(s[i]@, v@) {
                lemma_bytes_lt_trans(s[i]@, v@, t[j]@);
            }
        } else if i == pos {
            assert(t[i] == v);
        } else {
            assert(t[i] == s[i - 1] && t[j] == s[j - 1]);
        }
    }
}

/// Sorts names byte-wise, keeping multiplicities.
fn sort_names(names: Vec<Vec<u8>>) -> (r: Vec<Vec<u8>>)
    ensures
        r@.to_multiset() == names@.to_multiset(),
        r@.len() == names@.len(),
        forall|i: int, j: int|
            0 <= i < j < r@.len() ==> bytes_lt(#[trigger] r@[i]@, #[trigger] r@[j]@) || r@[i]@
                == r@[j]@,
{
    broadcast use vstd::seq_lib::group_to_multiset_ensures;
    broadcast use vstd::multiset::group_multiset_axioms;

    let mut src = names;
    let mut r: Vec<Vec<u8>> = Vec::new();
    let ghost all = src@;
    proof {
        assert(r@.to_multiset().add(src@.to_multiset()) =~= all.to_multiset());
    }
    while src.len() > 0
        invariant
            r@.to_multiset().add(src@.to_multiset()) == all.to_multiset(),
            r@.len() + src@.len() == all.len(),
            forall|i: int, j: int|
                0 <= i < j < r@.len() ==> bytes_lt(#[trigger] r@[i]@, #[trigger] r@[j]@) || r@[i]@
                    == r@[j]@,
        decreases src.len(),
    {
        let ghost old_src = src@;
        let ghost old_r = r@;
        let v = src.remove(0);
        let mut pos: usize = 0;
        while pos < r.len() && matches!(crate::rel_path::cmp_bytes(&r[pos], &v), Ordering::Less)
            invariant
                pos <= r@.len(),
                r@ == old_r,
                forall|j: int| 0 <= j < pos ==> bytes_lt(#[trigger] r@[j]@, v@),
            decreases r@.len() - pos,
        {
            pos = pos + 1;
        }
        proof {
            if pos < r@.len() {
                lemma_bytes_lt_trichotomy(r@[pos as int]@, v@);
            }
        }
        r.insert(pos, v);
        proof {
            old_r.insert_ensures(pos as int, v);
            // multiset bookkeeping: moving one element keeps the sum
            assert(old_src[0] == v);
            assert(old_src.contains(v));
            assert(src@ =~= old_src.remove(0));
            vstd::seq_lib::to_multiset_remove(old_src, 0);
            vstd::seq_lib::to_multiset_insert(old_r, pos as int, v);
            vstd::seq_lib::to_multiset_contains(old_src, v);
            assert(old_src.to_multiset().count(v) > 0);
            assert(src@.to_multiset() =~= old_src.to_multiset().remove(v));
            assert(r@.to_multiset() =~= old_r.to_multiset().insert(v));
            assert(r@.to_multiset().add(src@.to_multiset()) =~= all.to_multiset());
            lemma_insert_sorted(old_r, v, pos as int);
        }
    }
    proof {
        assert(src@.to_multiset() =~= Multiset::<Vec<u8>>::empty());
        assert(r@.to_multiset() =~= all.to_multiset());
    }
    r
}

/// A sorted permutation of pairwise distinct names is strictly ascending,
/// and draws its name bytes from the given names, and vice versa.
proof fn lemma_sorted_names_strict(names: Seq<Vec<u8>>, sorted: Seq<Vec<u8>>)
    requires
        sorted.to_multiset() == names.to_multiset(),
        sorted.len() == names.len(),
        forall|i: int, j: int|
            0 <= i < j < sorted.len() ==> bytes_lt(#[trigger] sorted[i]@, #[trigger] sorted[j]@)
                || sorted[i]@ == sorted[j]@,
        forall|i: int, j: int|
            0 <= i < j < names.len() ==> (#[trigger] names[i])@ != (#[trigger] names[j])@,
    ensures
        forall|i: int, j: int|
            0 <= i < j < sorted.len() ==> bytes_lt(#[trigger] sorted[i]@, #[trigger] sorted[j]@),
        names_among(sorted, names),
        names_among(names, sorted),
{
    broadcast use vstd::seq_lib::group_to_multiset_ensures;
    broadcast use vstd::multiset::group_multiset_axioms;

    assert forall|n: int| 0 <= n < sorted.len() implies names.contains(#[trigger] sorted[n]) by {
        assert(sorted.contains(sorted[n]));
        assert(names.to_multiset().count(sorted[n]) > 0);
    }
    assert forall|m: int| 0 <= m < names.len() implies sorted.contains(#[trigger] names[m]) by {
        assert(names.contains(names[m]));
        assert(sorted.to_multiset().count(names[m]) > 0);
    }
    assert(names_among(sorted, names));
    assert(names_among(names, sorted));
    assert forall|i: int, j: int|
        0 <= i < j < sorted.len() implies bytes_lt(#[trigger] sorted[i]@, #[trigger] sorted[j]@) by {
        if !bytes_lt(sorted[i]@, sorted[j]@) {
            assert(sorted[i]@ == sorted[j]@);
            if sorted[i] == sorted[j] {
                // the same value twice: its multiplicity would be >= 2,
                // impossible for pairwise distinct names
                assert(sorted.remove(i).to_multiset() =~= sorted.to_multiset().remove(sorted[i]));
                assert(sorted.remove(i)[j - 1] == sorted[j]);
                assert(sorted.remove(i).contains(sorted[j]));
                assert(sorted.remove(i).to_multiset().count(sorted[j]) > 0);
                assert(names.to_multiset().count(sorted[i]) >= 2);
                names.lemma_multiset_has_no_duplicates();
            } else {
                // two distinct values with equal bytes would sit at two
                // distinct name positions with equal bytes
                let p1 = choose|p: int| 0 <= p < names.len() && names[p] == sorted[i];
                let p2 = choose|p: int| 0 <= p < names.len() && names[p] == sorted[j];
                assert(names[p1]@ == names[p2]@);
            }
        }
    }
}

/// One queued or yielded path is in place relative to the last yielded path
/// `last`: either a later sibling at the same depth, or one level deeper
/// with its parent at or before `last` (at `last` only once `last` has been
/// expanded).
pub open spec fn wf_item(p: Seq<Seq<u8>>, last: Seq<Seq<u8>>, expandable: bool) -> bool {
    ||| (p.len() == last.len() && comps_lt(last, p))
    ||| (p.len() == last.len() + 1 && (comps_lt(p.drop_last(), last) || (p.drop_last() == last
        && !expandable)))
}

/// What a successful expansion does to the queue: the existing entries
/// stay in place, and one entry per listed name is appended, each a child
/// of `parent` carrying that name.
pub open spec fn expanded_queue(
    pre: Seq<Seq<Seq<u8>>>,
    post: Seq<Seq<Seq<u8>>>,
    parent: Seq<Seq<u8>>,
    names: Seq<Vec<u8>>,
) -> bool {
    &&& post.len() == pre.len() + names.len()
    &&& forall|i: int| 0 <= i < pre.len() ==> #[trigger] post[i] == pre[i]
    &&& forall|i: int|
        pre.len() <= i < post.len() ==> {
            &&& (#[trigger] post[i]).len() == parent.len() + 1
            &&& post[i].drop_last() == parent
            &&& exists|n: int| 0 <= n < names.len() && post[i].last() == (#[trigger] names[n])@
        }
}

/// Every element of `sub` occurs, as a value, in `sup`.
pub open spec fn names_among(sub: Seq<Vec<u8>>, sup: Seq<Vec<u8>>) -> bool {
    forall|m: int| 0 <= m < sub.len() ==> sup.contains(#[trigger] sub[m])
}

/// Some queue entry at or after `lo` carries `name`.
pub open spec fn carried(q: Seq<Seq<Seq<u8>>>, lo: int, name: Vec<u8>) -> bool {
    exists|i: int| lo <= i < q.len() && (#[trigger] q[i]).last() == name@
}

/// Every listed name is carried by some queue entry at or after `lo`.
pub open spec fn covers_names(q: Seq<Seq<Seq<u8>>>, lo: int, names: Seq<Vec<u8>>) -> bool {
    forall|n: int| 0 <= n < names.len() ==> carried(q, lo, #[trigger] names[n])
}

/// The appended children cover all listed names: the sorted copy is a
/// permutation of the names, and each of its entries ends up in the queue.
proof fn lemma_covers_names_intro(
    pre: Seq<Seq<Seq<u8>>>,
    post: Seq<Seq<Seq<u8>>>,
    parent: Seq<Seq<u8>>,
    names: Seq<Vec<u8>>,
    sorted: Seq<Vec<u8>>,
    children: Seq<Seq<u8>>,
)
    requires
        post.len() == pre.len() + names.len(),
        sorted.len() == names.len(),
        children.len() == sorted.len(),
        forall|i: int| 0 <= i < children.len() ==> #[trigger] children[i] == (sorted[i])@,
        forall|i: int|
            pre.len() <= i < post.len() ==> #[trigger] post[i] == parent.push(
                children[i - pre.len()],
            ),
        names_among(names, sorted),
    ensures
        covers_names(post, pre.len() as int, names),
{
    assert forall|n: int| 0 <= n < names.len() implies carried(
        post,
        pre.len() as int,
        #[trigger] names[n],
    ) by {
        assert(names_among(names, sorted));
        assert(sorted.contains(names[n]));
        let idx = choose|idx: int| 0 <= idx < sorted.len() && sorted[idx] == names[n];
        assert(post[pre.len() + idx] == parent.push(children[idx]));
        assert(post[pre.len() + idx].last() == children[idx]);
        assert(pre.len() as int <= pre.len() + idx < post.len() && post[pre.len() + idx].last()
            == (names[n])@);
    }
}

/// After appending the sorted children of the freshly expanded path, the
/// queue is strictly ascending again and every entry is in place.
proof fn lemma_append_children_wf(
    base: Seq<Seq<Seq<u8>>>,
    lastv: Seq<Seq<u8>>,
    children: Seq<Seq<u8>>,
    q: Seq<Seq<Seq<u8>>>,
)
    requires
        q.len() == base.len() + children.len(),
        forall|i: int| 0 <= i < base.len() ==> #[trigger] q[i] == base[i],
        forall|i: int|
            base.len() <= i < q.len() ==> #[trigger] q[i] == lastv.push(children[i - base.len()]),
        forall|i: int, j: int|
            0 <= i < j < base.len() ==> path_lt(#[trigger] base[i], #[trigger] base[j]),
        forall|i: int| 0 <= i < base.len() ==> wf_item(#[trigger] base[i], lastv, true),
        forall|i: int, j: int|
            0 <= i < j < children.len() ==> bytes_lt(#[trigger] children[i], #[trigger] children[j]),
    ensures
        forall|i: int, j: int| 0 <= i < j < q.len() ==> path_lt(#[trigger] q[i], #[trigger] q[j]),
        forall|i: int| 0 <= i < q.len() ==> wf_item(#[trigger] q[i], lastv, false),
        forall|i: int|
            base.len() <= i < q.len() ==> (#[trigger] q[i]).len() == lastv.len() + 1
                && q[i].drop_last() == lastv && q[i].last() == children[i - base.len()],
{
    assert forall|i: int|
        base.len() <= i < q.len() implies (#[trigger] q[i]).len() == lastv.len() + 1
            && q[i].drop_last() == lastv && q[i].last() == children[i - base.len()] by {
        assert(q[i] == lastv.push(children[i - base.len()]));
        assert(q[i].drop_last() =~= lastv);
    }
    assert forall|i: int, j: int| 0 <= i < j < q.len() implies path_lt(
        #[trigger] q[i],
        #[trigger] q[j],
    ) by {
        if j < base.len() {
        } else if i >= base.len() {
            lemma_comps_lt_sibling(lastv, children[i - base.len()], children[j - base.len()]);
        } else {
            assert(wf_item(base[i], lastv, true));
            if base[i].len() == lastv.len() {
                // shallower than the new children: smaller by component count
            } else {
                let par = base[i].drop_last();
                assert(comps_lt(par, lastv));
                lemma_comps_lt_append(par, lastv, base[i].last(), children[j - base.len()]);
                assert(par.push(base[i].last()) =~= base[i]);
            }
        }
    }
    assert forall|i: int| 0 <= i < q.len() implies wf_item(#[trigger] q[i], lastv, false) by {
        if i < base.len() {
            assert(wf_item(base[i], lastv, true));
        }
    }
}

/// Packaging of the queue-extension facts established by the append loop.
proof fn lemma_expanded_queue_intro(
    pre: Seq<Seq<Seq<u8>>>,
    post: Seq<Seq<Seq<u8>>>,
    parent: Seq<Seq<u8>>,
    names: Seq<Vec<u8>>,
    sorted: Seq<Vec<u8>>,
    children: Seq<Seq<u8>>,
)
    requires
        post.len() == pre.len() + names.len(),
        sorted.len() == names.len(),
        children.len() == sorted.len(),
        forall|i: int| 0 <= i < children.len() ==> #[trigger] children[i] == (sorted[i])@,
        forall|i: int| 0 <= i < pre.len() ==> #[trigger] post[i] == pre[i],
        forall|i: int|
            pre.len() <= i < post.len() ==> #[trigger] post[i] == parent.push(
                children[i - pre.len()],
            ),
        names_among(sorted, names),
    ensures
        expanded_queue(pre, post, parent, names),
{
    assert forall|i: int| pre.len() <= i < post.len() implies {
        &&& (#[trigger] post[i]).len() == parent.len() + 1
        &&& post[i].drop_last() == parent
        &&& exists|n: int| 0 <= n < names.len() && post[i].last() == (#[trigger] names[n])@
    } by {
        assert(post[i] == parent.push(children[i - pre.len()]));
        assert(post[i].drop_last() =~= parent);
        let idx = i - pre.len();
        assert(names_among(sorted, names));
        assert(names.contains(sorted[idx]));
        let n = choose|n: int| 0 <= n < names.len() && names[n] == sorted[idx];
        assert(post[i].last() == children[idx]);
        assert(post[i].last() == (names[n])@);
    }
}

/// Recursive directory iterator (decision half).
///
/// It yields paths in the order given by `cmp_paths`. The embedding program
/// drives it: after each yielded directory path it lists that directory and
/// hands the outcome to `append_dir_elems`.
pub struct RecDirIter {
    top: Vec<u8>,
    to_traverse: VecDeque<RelPath>,
    error: Option<WalkError>,
    last: Ghost<Seq<Seq<u8>>>,
    expandable: Ghost<bool>,
    produced: Ghost<Seq<Seq<Seq<u8>>>>,
}

impl RecDirIter {
    /// The raw bytes of the tree root's path.
    pub closed spec fn top_bytes(&self) -> Seq<u8> {
        self.top@
    }

    /// The pending queue, as path views.
    pub closed spec fn queue(&self) -> Seq<Seq<Seq<u8>>> {
        Seq::new(self.to_traverse@.len(), |i: int| self.to_traverse@[i]@)
    }

    /// The latched traversal error.
    pub closed spec fn latched(&self) -> Option<WalkError> {
        self.error
    }

    /// The most recently yielded path (the empty path before any yield).
    pub closed spec fn last_path(&self) -> Seq<Seq<u8>> {
        self.last@
    }

    /// Whether the last yielded path may still be expanded.
    pub closed spec fn expandable(&self) -> bool {
        self.expandable@
    }

    /// All paths yielded so far, in order.
    pub closed spec fn produced(&self) -> Seq<Seq<Seq<u8>>> {
        self.produced@
    }

    /// The traversal invariant: the queue is strictly ascending in path
    /// ordering and stays within one level of the last yielded path, and
    /// everything yielded so far is strictly ascending as well — no path is
    /// ever yielded before one that sorts earlier.
    pub open spec fn wf(&self) -> bool {
        &&& forall|i: int, j: int|
            0 <= i < j < self.queue().len() ==> path_lt(
                #[trigger] self.queue()[i],
                #[trigger] self.queue()[j],
            )
        &&& forall|i: int|
            0 <= i < self.queue().len() ==> wf_item(
                #[trigger] self.queue()[i],
                self.last_path(),
                self.expandable(),
            )
        &&& forall|k: int|
            0 <= k < self.produced().len() ==> (#[trigger] self.produced()[k]) == self.last_path()
                || path_lt(self.produced()[k], self.last_path())
        &&& forall|k: int, l: int|
            0 <= k < l < self.produced().len() ==> path_lt(
                #[trigger] self.produced()[k],
                #[trigger] self.produced()[l],
            )
    }

    /// Creates a traversal for the tree rooted at `top`, whose metadata the
    /// caller has read (without following symlinks). Construction succeeds
    /// if and only if the root exists as a directory; a root that is
    /// missing, unreadable or of any other kind fails with the
    /// distinguished construction error, before anything is compared.
    pub fn try_new(top: Vec<u8>, root_meta: Result<FileKind, ErrorKind>) -> (r: Result<
        RecDirIter,
        RecDirIterTopIsNotDir,
    >)
        ensures
            ({
                match root_meta {
                    Result::Ok(FileKind::Dir) => {
                        &&& r matches Result::Ok(it)
                        &&& it.wf()
                        &&& it.top_bytes() == top@
                        &&& it.queue().len() == 0
                        &&& it.latched() is None
                        &&& it.last_path() == Seq::<Seq<u8>>::empty()
                        &&& it.expandable()
                        &&& it.produced().len() == 0
                    },
                    Result::Ok(_) => r is Err,
                    Result::Err(_) => r is Err,
                }
            }),
    {
        match root_meta {
            Result::Ok(FileKind::Dir) => {
                let it = RecDirIter {
                    top,
                    to_traverse: VecDeque::new(),
                    error: Option::None,
                    last: Ghost(Seq::empty()),
                    expandable: Ghost(true),
                    produced: Ghost(Seq::empty()),
                };
                Result::Ok(it)
            },
            Result::Ok(_) => Result::Err(RecDirIterTopIsNotDir),
            Result::Err(_) => Result::Err(RecDirIterTopIsNotDir),
        }
    }

    /// Yields the next path, in strictly ascending path ordering. A latched
    /// error discards the remaining queue and is yielded as the final item.
    pub fn next(&mut self) -> (r: Option<Result<RelPath, WalkError>>)
        requires
            old(self).wf(),
        ensures
            final(self).wf(),
            final(self).top_bytes() == old(self).top_bytes(),
            ({
                match old(self).latched() {
                    Option::Some(e) => {
                        &&& r == Option::Some(Result::<RelPath, WalkError>::Err(e))
                        &&& final(self).latched() is None
                        &&& final(self).queue().len() == 0
                        &&& final(self).produced() == old(self).produced()
                    },
                    Option::None => {
                        if old(self).queue().len() == 0 {
                            &&& r is None
                            &&& final(self).queue() == old(self).queue()
                            &&& final(self).latched() is None
                            &&& final(self).produced() == old(self).produced()
                            &&& final(self).last_path() == old(self).last_path()
                            &&& final(self).expandable() == old(self).expandable()
                        } else {
                            &&& r matches Option::Some(Result::Ok(p))
                            &&& p@ == old(self).queue()[0]
                            &&& path_lt(old(self).last_path(), p@)
                            &&& final(self).queue() == old(self).queue().drop_first()
                            &&& final(self).latched() is None
                            &&& final(self).last_path() == p@
                            &&& final(self).expandable()
                            &&& final(self).produced() == old(self).produced().push(p@)
                        }
                    },
                }
            }),
    {
        if self.error.is_some() {
            self.to_traverse.clear();
            let e = self.error.take();
            proof {
                assert(self.queue() =~= Seq::<Seq<Seq<u8>>>::empty());
            }
            return Option::Some(Result::Err(e.unwrap()));
        }
        let popped = self.to_traverse.pop_front();
        match popped {
            Option::None => {
                proof {
                    assert(self.queue() =~= old(self).queue());
                }
                Option::None
            },
            Option::Some(p) => {
                proof {
                    self.last@ = p@;
                    self.expandable@ = true;
                    self.produced@ = self.produced@.push(p@);
                }
                proof {
                    let q = old(self).queue();
                    let lastv = old(self).last_path();
                    assert(q[0] == p@);
                    assert(self.queue() =~= q.drop_first());
                    // the head is strictly above the last yielded path
                    assert(wf_item(q[0], lastv, old(self).expandable()));
                    assert(path_lt(lastv, q[0]));
                    // remaining queue items are in place relative to the new last
                    assert forall|i: int| 0 <= i < self.queue().len() implies wf_item(
                        #[trigger] self.queue()[i],
                        p@,
                        true,
                    ) by {
                        let x = q[i + 1];
                        assert(self.queue()[i] == x);
                        assert(wf_item(x, lastv, old(self).expandable()));
                        assert(path_lt(q[0], x));
                        if x.len() == q[0].len() {
                            // same depth: strictly later, so a later sibling
                        } else {
                            assert(x.len() == q[0].len() + 1);
                            // one level deeper: its parent lies strictly
                            // before the new last path
                            assert(q[0].len() == lastv.len());
                            assert(comps_lt(lastv, q[0]));
                            let par = x.drop_last();
                            assert(comps_lt(par, lastv) || par == lastv);
                            lemma_comps_lt_trans(par, lastv, q[0]);
                        }
                    }
                    // everything produced stays strictly below the new last
                    assert forall|k: int| 0 <= k < old(self).produced().len() implies path_lt(
                        #[trigger] old(self).produced()[k],
                        p@,
                    ) by {
                        assert(old(self).produced()[k] == lastv || path_lt(
                            old(self).produced()[k],
                            lastv,
                        ));
                        lemma_path_lt_trans(old(self).produced()[k], lastv, p@);
                    }
                }
                Option::Some(Result::Ok(p))
            },
        }
    }

    /// Appends the children of `parent` — the path yielded most recently —
    /// to the queue, in byte-wise name order.
    #[verifier::loop_isolation(false)]
    #[verifier::rlimit(100)]
    fn append_children(&mut self, parent: &RelPath, names: Vec<Vec<u8>>)
        requires
            old(self).wf(),
            old(self).expandable(),
            parent@ == old(self).last_path(),
            old(self).latched() is None,
            forall|i: int, j: int|
                0 <= i < j < names@.len() ==> (#[trigger] names@[i])@ != (#[trigger] names@[j])@,
        ensures
            final(self).wf(),
            !final(self).expandable(),
            final(self).top_bytes() == old(self).top_bytes(),
            final(self).last_path() == old(self).last_path(),
            final(self).produced() == old(self).produced(),
            final(self).latched() is None,
            expanded_queue(old(self).queue(), final(self).queue(), parent@, names@),
            covers_names(final(self).queue(), old(self).queue().len() as int, names@),
    {
        proof {
            self.expandable@ = false;
        }
        let ghost gnames = names@;
        let ghost base = old(self).queue();
        let ghost lastv = old(self).last_path();
        let sorted = sort_names(names);
        let ghost children = Seq::new(sorted@.len(), |i: int| sorted@[i]@);
        proof {
            lemma_sorted_names_strict(gnames, sorted@);
            assert(self.queue() =~= base);
        }
        let mut k: usize = 0;
        while k < sorted.len()
            invariant
                k <= sorted@.len(),
                self.queue().len() == base.len() + k,
                forall|i: int| 0 <= i < base.len() ==> #[trigger] self.queue()[i] == base[i],
                forall|i: int|
                    base.len() <= i < self.queue().len() ==> #[trigger] self.queue()[i]
                        == lastv.push(children[i - base.len()]),
                self.top@ == old(self).top@,
                self.error == old(self).error,
                self.last@ == old(self).last@,
                self.expandable@ == false,
                self.produced@ == old(self).produced@,
            decreases sorted@.len() - k,
        {
            let ghost qprev = self.queue();
            let child = parent.child(&sorted[k]);
            self.to_traverse.push_back(child);
            proof {
                assert(self.queue() =~= qprev.push(lastv.push(children[k as int])));
            }
            k = k + 1;
        }
        proof {
            lemma_append_children_wf(base, lastv, children, self.queue());
            let q = self.queue();
            lemma_expanded_queue_intro(base, q, lastv, gnames, sorted@, children);
            lemma_covers_names_intro(base, q, lastv, gnames, sorted@, children);
            assert(final(self).queue() == self.queue());
            assert(expanded_queue(old(self).queue(), final(self).queue(), parent@, names@));
            assert(covers_names(final(self).queue(), base.len() as int, gnames));
            // the untouched ghost state keeps the invariant over what was
            // already produced
            assert forall|k2: int|
                0 <= k2 < self.produced().len() implies (#[trigger] self.produced()[k2])
                    == self.last_path() || path_lt(self.produced()[k2], self.last_path()) by {
                assert(old(self).produced()[k2] == old(self).last_path() || path_lt(
                    old(self).produced()[k2],
                    old(self).last_path(),
                ));
            }
            assert forall|k2: int, l: int|
                0 <= k2 < l < self.produced().len() implies path_lt(
                    #[trigger] self.produced()[k2],
                    #[trigger] self.produced()[l],
                ) by {
                assert(path_lt(old(self).produced()[k2], old(self).produced()[l]));
            }
            assert(self.wf());
        }
    }

    /// Feeds back the result of listing the children of `parent`, which must
    /// be the path yielded most recently (the empty path right after
    /// construction, for the root itself). Directory entry names are
    /// appended to the queue in byte-wise name order; a listing failure is
    /// latched instead, annotated with the failing directory.
    pub fn append_dir_elems(&mut self, parent: &RelPath, listing: Result<Vec<Vec<u8>>, ErrorKind>)
        requires
            old(self).wf(),
            old(self).expandable(),
            parent@ == old(self).last_path(),
            old(self).latched() is None,
            (listing matches Result::Ok(names) ==> forall|i: int, j: int|
                0 <= i < j < names@.len() ==> (#[trigger] names@[i])@ != (#[trigger] names@[j])@),
        ensures
            final(self).wf(),
            !final(self).expandable(),
            final(self).top_bytes() == old(self).top_bytes(),
            final(self).last_path() == old(self).last_path(),
            final(self).produced() == old(self).produced(),
            ({
                match listing {
                    Result::Ok(names) => {
                        &&& final(self).latched() is None
                        &&& expanded_queue(
                            old(self).queue(),
                            final(self).queue(),
                            parent@,
                            names@,
                        )
                        &&& covers_names(
                            final(self).queue(),
                            old(self).queue().len() as int,
                            names@,
                        )
                    },
                    Result::Err(k) => {
                        &&& final(self).queue() == old(self).queue()
                        &&& final(self).latched() matches Option::Some(e) && e.kind == k
                            && e.dir@ == join_display(old(self).top_bytes(), parent@)
                    },
                }
            }),
    {
        match listing {
            Result::Ok(names) => {
                self.append_children(parent, names);
                proof {
                    assert(self.wf());
                }
            },
            Result::Err(k) => {
                proof {
                    self.expandable@ = false;
                }
                let mut dir = copy_bytes(&self.top);
                if parent.depth() > 0 {
                    dir.push(47);
                    let pb = parent.to_bytes();
                    push_bytes(&mut dir, &pb);
                    proof {
                        assert(dir@ =~= join_display(self.top@, parent@));
                    }
                }
                self.error = Option::Some(WalkError { kind: k, dir });
                proof {
                    assert(self.queue() =~= old(self).queue());
                    assert forall|i: int| 0 <= i < self.queue().len() implies wf_item(
                        #[trigger] self.queue()[i],
                        self.last_path(),
                        false,
                    ) by {
                        assert(wf_item(
                            old(self).queue()[i],
                            old(self).last_path(),
                            old(self).expandable(),
                        ));
                    }
                    assert forall|k2: int|
                        0 <= k2 < self.produced().len() implies (#[trigger] self.produced()[k2])
                            == self.last_path() || path_lt(
                            self.produced()[k2],
                            self.last_path(),
                        ) by {
                        assert(old(self).produced()[k2] == old(self).last_path() || path_lt(
                            old(self).produced()[k2],
                            old(self).last_path(),
                        ));
                    }
                    assert forall|k2: int, l: int|
                        0 <= k2 < l < self.produced().len() implies path_lt(
                            #[trigger] self.produced()[k2],
                            #[trigger] self.produced()[l],
                        ) by {
                        assert(path_lt(old(self).produced()[k2], old(self).produced()[l]));
                    }
                    assert forall|i: int, j: int|
                        0 <= i < j < self.queue().len() implies path_lt(
                            #[trigger] self.queue()[i],
                            #[trigger] self.queue()[j],
                        ) by {
                        assert(path_lt(old(self).queue()[i], old(self).queue()[j]));
                    }
                    assert(self.wf());
                }
            },
        }
    }
}

} // verus!
