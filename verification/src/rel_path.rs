//! Relative paths and the total order the whole pipeline sorts by.
//!
//! A relative path is a sequence of components, each an arbitrary byte
//! string. The order ("path ordering") puts paths with fewer components
//! first and breaks ties lexicographically, component by component, with
//! components compared byte-wise. Both directory traversals and the
//! merge-join use exactly this order.

use vstd::prelude::*;
use core::cmp::Ordering;

use crate::bytes::copy_bytes;
use crate::iter::total_order::TotalOrdered;

verus! {

/// Strict lexicographic order on byte strings.
pub open spec fn bytes_lt(a: Seq<u8>, b: Seq<u8>) -> bool
    decreases a.len(),
{
    if b.len() == 0 {
        false
    } else if a.len() == 0 {
        true
    } else if a[0] != b[0] {
        a[0] < b[0]
    } else {
        bytes_lt(a.drop_first(), b.drop_first())
    }
}

/// Strict lexicographic order on component sequences; components are
/// compared byte-wise.
pub open spec fn comps_lt(a: Seq<Seq<u8>>, b: Seq<Seq<u8>>) -> bool
    decreases a.len(),
{
    if b.len() == 0 {
        false
    } else if a.len() == 0 {
        true
    } else if a[0] != b[0] {
        bytes_lt(a[0], b[0])
    } else {
        comps_lt(a.drop_first(), b.drop_first())
    }
}

/// The path ordering: fewer components first, then lexicographic.
pub open spec fn path_lt(a: Seq<Seq<u8>>, b: Seq<Seq<u8>>) -> bool {
    a.len() < b.len() || (a.len() == b.len() && comps_lt(a, b))
}

pub proof fn lemma_bytes_lt_trichotomy(a: Seq<u8>, b: Seq<u8>)
    ensures
        bytes_lt(a, b) || bytes_lt(b, a) || a == b,
        bytes_lt(a, b) ==> !bytes_lt(b, a) && a != b,
        bytes_lt(b, a) ==> a != b,
    decreases a.len(),
{
    if a.len() == 0 && b.len() == 0 {
        assert(a =~= b);
    } else if a.len() > 0 && b.len() > 0 {
        if a[0] == b[0] {
            lemma_bytes_lt_trichotomy(a.drop_first(), b.drop_first());
            if a.drop_first() == b.drop_first() {
                assert forall|j: int| 0 <= j < a.len() implies a[j] == b[j] by {
                    if j > 0 {
                        assert(a[j] == a.drop_first()[j - 1]);
                        assert(b[j] == b.drop_first()[j - 1]);
                    }
                }
                assert(a =~= b);
            }
            if a == b {
                assert(a.drop_first() =~= b.drop_first());
            }
        }
    }
}

pub proof fn lemma_bytes_lt_trans(a: Seq<u8>, b: Seq<u8>, c: Seq<u8>)
    requires
        bytes_lt(a, b) || a == b,
        bytes_lt(b, c) || b == c,
        bytes_lt(a, b) || bytes_lt(b, c),
    ensures
        bytes_lt(a, c),
    decreases a.len() + b.len() + c.len(),
{
    if a == b || b == c {
        // the strict step carries over unchanged
    } else {
        // both steps strict
        if a.len() == 0 {
        } else {
            assert(b.len() > 0 && c.len() > 0);
            if a[0] == b[0] && b[0] == c[0] {
                lemma_bytes_lt_trans(a.drop_first(), b.drop_first(), c.drop_first());
            } else {
                lemma_bytes_lt_trichotomy(a.drop_first(), b.drop_first());
                lemma_bytes_lt_trichotomy(b.drop_first(), c.drop_first());
            }
        }
    }
}

pub proof fn lemma_comps_lt_trichotomy(a: Seq<Seq<u8>>, b: Seq<Seq<u8>>)
    ensures
        comps_lt(a, b) || comps_lt(b, a) || a == b,
        comps_lt(a, b) ==> !comps_lt(b, a) && a != b,
        comps_lt(b, a) ==> a != b,
    decreases a.len(),
{
    if a.len() == 0 && b.len() == 0 {
        assert(a =~= b);
    } else if a.len() > 0 && b.len() > 0 {
        lemma_bytes_lt_trichotomy(a[0], b[0]);
        if a[0] == b[0] {
            lemma_comps_lt_trichotomy(a.drop_first(), b.drop_first());
            if a.drop_first() == b.drop_first() {
                assert forall|j: int| 0 <= j < a.len() implies a[j] == b[j] by {
                    if j > 0 {
                        assert(a[j] == a.drop_first()[j - 1]);
                        assert(b[j] == b.drop_first()[j - 1]);
                    }
                }
                assert(a =~= b);
            }
            if a == b {
                assert(a.drop_first() =~= b.drop_first());
            }
        }
    }
}

pub proof fn lemma_comps_lt_trans(a: Seq<Seq<u8>>, b: Seq<Seq<u8>>, c: Seq<Seq<u8>>)
    requires
        comps_lt(a, b) || a == b,
        comps_lt(b, c) || b == c,
        comps_lt(a, b) || comps_lt(b, c),
    ensures
        comps_lt(a, c),
    decreases a.len() + b.len() + c.len(),
{
    if a == b || b == c {
    } else {
        if a.len() == 0 {
        } else {
            assert(b.len() > 0 && c.len() > 0);
            if a[0] == b[0] && b[0] == c[0] {
                lemma_comps_lt_trans(a.drop_first(), b.drop_first(), c.drop_first());
            } else if a[0] == b[0] {
                // b[0] != c[0], so bytes_lt(b[0], c[0]) decides
            } else if b[0] == c[0] {
            } else {
                lemma_bytes_lt_trans(a[0], b[0], c[0]);
                lemma_bytes_lt_trichotomy(a[0], c[0]);
            }
        }
    }
}

pub proof fn lemma_path_lt_trichotomy(a: Seq<Seq<u8>>, b: Seq<Seq<u8>>)
    ensures
        path_lt(a, b) || path_lt(b, a) || a == b,
        path_lt(a, b) ==> !path_lt(b, a) && a != b,
        path_lt(b, a) ==> a != b,
{
    lemma_comps_lt_trichotomy(a, b);
}

pub proof fn lemma_path_lt_trans(a: Seq<Seq<u8>>, b: Seq<Seq<u8>>, c: Seq<Seq<u8>>)
    requires
        path_lt(a, b) || a == b,
        path_lt(b, c) || b == c,
        path_lt(a, b) || path_lt(b, c),
    ensures
        path_lt(a, c),
{
    if a.len() == b.len() && b.len() == c.len() {
        lemma_comps_lt_trans(a, b, c);
    }
}

/// Appending one component to each of two ordered equal-length sequences
/// keeps them ordered: the first difference lies before the appended parts.
pub proof fn lemma_comps_lt_append(a: Seq<Seq<u8>>, b: Seq<Seq<u8>>, x: Seq<u8>, y: Seq<u8>)
    requires
        a.len() == b.len(),
        comps_lt(a, b),
    ensures
        comps_lt(a.push(x), b.push(y)),
    decreases a.len(),
{
    assert(a.len() > 0);
    assert(a.push(x)[0] == a[0]);
    assert(b.push(y)[0] == b[0]);
    if a[0] != b[0] {
    } else {
        lemma_comps_lt_append(a.drop_first(), b.drop_first(), x, y);
        assert(a.push(x).drop_first() =~= a.drop_first().push(x));
        assert(b.push(y).drop_first() =~= b.drop_first().push(y));
    }
}

/// Children of one parent are ordered as their names are.
pub proof fn lemma_comps_lt_sibling(p: Seq<Seq<u8>>, x: Seq<u8>, y: Seq<u8>)
    requires
        bytes_lt(x, y),
    ensures
        comps_lt(p.push(x), p.push(y)),
    decreases p.len(),
{
    lemma_bytes_lt_trichotomy(x, y);
    if p.len() == 0 {
        assert(p.push(x)[0] == x);
        assert(p.push(y)[0] == y);
    } else {
        assert(p.push(x)[0] == p[0]);
        assert(p.push(y)[0] == p[0]);
        lemma_comps_lt_sibling(p.drop_first(), x, y);
        assert(p.push(x).drop_first() =~= p.drop_first().push(x));
        assert(p.push(y).drop_first() =~= p.drop_first().push(y));
    }
}

/// `bytes_lt` holds as soon as the first difference favors `a`.
pub proof fn lemma_bytes_lt_from_diff(a: Seq<u8>, b: Seq<u8>, i: int)
    requires
        0 <= i <= a.len(),
        i <= b.len(),
        forall|j: int| 0 <= j < i ==> a[j] == b[j],
        (i < a.len() && i < b.len() && a[i] < b[i]) || (i == a.len() && i < b.len()),
    ensures
        bytes_lt(a, b),
    decreases i,
{
    if i > 0 {
        lemma_bytes_lt_from_diff(a.drop_first(), b.drop_first(), i - 1);
    }
}

/// `comps_lt` holds as soon as the first differing component favors `a`.
pub proof fn lemma_comps_lt_from_diff(a: Seq<Seq<u8>>, b: Seq<Seq<u8>>, i: int)
    requires
        0 <= i <= a.len(),
        i <= b.len(),
        forall|j: int| 0 <= j < i ==> a[j] == b[j],
        (i < a.len() && i < b.len() && bytes_lt(a[i], b[i])) || (i == a.len() && i < b.len()),
    ensures
        comps_lt(a, b),
    decreases i,
{
    if i == 0 {
        if i < a.len() {
            lemma_bytes_lt_trichotomy(a[0], b[0]);
        }
    } else {
        lemma_comps_lt_from_diff(a.drop_first(), b.drop_first(), i - 1);
    }
}

/// Compares two byte strings lexicographically.
#[verifier::loop_isolation(false)]
pub fn cmp_bytes(a: &Vec<u8>, b: &Vec<u8>) -> (o: Ordering)
    ensures
        (o == Ordering::Less) <==> bytes_lt(a@, b@),
        (o == Ordering::Equal) <==> (a@ == b@),
        (o == Ordering::Greater) <==> bytes_lt(b@, a@),
{
    proof {
        lemma_bytes_lt_trichotomy(a@, b@);
    }
    let mut i: usize = 0;
    loop
        invariant
            i <= a.len(),
            i <= b.len(),
            forall|j: int| 0 <= j < i ==> a@[j] == b@[j],
        decreases a.len() - i,
    {
        if i == a.len() && i == b.len() {
            proof {
                assert(a@ =~= b@);
            }
            return Ordering::Equal;
        }
        if i == a.len() {
            proof {
                lemma_bytes_lt_from_diff(a@, b@, i as int);
            }
            return Ordering::Less;
        }
        if i == b.len() {
            proof {
                lemma_bytes_lt_from_diff(b@, a@, i as int);
            }
            return Ordering::Greater;
        }
        if a[i] < b[i] {
            proof {
                lemma_bytes_lt_from_diff(a@, b@, i as int);
            }
            return Ordering::Less;
        }
        if b[i] < a[i] {
            proof {
                lemma_bytes_lt_from_diff(b@, a@, i as int);
            }
            return Ordering::Greater;
        }
        i = i + 1;
    }
}

/// A path relative to a tree root: a sequence of byte-string components.
#[derive(Debug)]
pub struct RelPath {
    pub components: Vec<Vec<u8>>,
}

impl View for RelPath {
    type V = Seq<Seq<u8>>;

    open spec fn view(&self) -> Seq<Seq<u8>> {
        Seq::new(self.components@.len(), |i: int| self.components@[i]@)
    }
}

/// The byte rendering of a path: its components joined by `/`.
pub open spec fn join_bytes(p: Seq<Seq<u8>>) -> Seq<u8>
    decreases p.len(),
{
    if p.len() == 0 {
        Seq::empty()
    } else if p.len() == 1 {
        p[0]
    } else {
        join_bytes(p.drop_last()) + seq![47u8] + p.last()
    }
}

impl RelPath {
    /// The empty path, denoting the tree root itself.
    pub fn new() -> (r: RelPath)
        ensures
            r@ == Seq::<Seq<u8>>::empty(),
    {
        let r = RelPath { components: Vec::new() };
        proof {
            assert(r@ =~= Seq::<Seq<u8>>::empty());
        }
        r
    }

    /// How many components the path has.
    pub fn depth(&self) -> (r: usize)
        ensures
            r == self@.len(),
    {
        self.components.len()
    }

    /// A fresh copy.
    pub fn dup(&self) -> (r: RelPath)
        ensures
            r@ == self@,
    {
        let mut components: Vec<Vec<u8>> = Vec::new();
        let mut i: usize = 0;
        while i < self.components.len()
            invariant
                i <= self.components.len(),
                components@.len() == i,
                forall|j: int| 0 <= j < i ==> components@[j]@ == self.components@[j]@,
            decreases self.components.len() - i,
        {
            components.push(copy_bytes(&self.components[i]));
            i = i + 1;
        }
        let r = RelPath { components };
        proof {
            assert(r@ =~= self@);
        }
        r
    }

    /// The path extended by one more component.
    pub fn child(&self, name: &Vec<u8>) -> (r: RelPath)
        ensures
            r@ == self@.push(name@),
    {
        let mut r = self.dup();
        r.components.push(copy_bytes(name));
        proof {
            assert(r@ =~= self@.push(name@));
        }
        r
    }

    /// The components joined by `/`, for rendering.
    pub fn to_bytes(&self) -> (r: Vec<u8>)
        ensures
            r@ == join_bytes(self@),
    {
        let mut r: Vec<u8> = Vec::new();
        let mut i: usize = 0;
        proof {
            assert(r@ =~= join_bytes(self@.subrange(0, 0)));
        }
        while i < self.components.len()
            invariant
                i <= self.components.len(),
                r@ == join_bytes(self@.subrange(0, i as int)),
            decreases self.components.len() - i,
        {
            if i > 0 {
                r.push(47);
            }
            crate::bytes::push_bytes(&mut r, &self.components[i]);
            proof {
                let upto = self@.subrange(0, i + 1 as int);
                assert(upto.drop_last() =~= self@.subrange(0, i as int));
                assert(upto.last() == self@[i as int]);
                if i == 0 {
                    assert(r@ =~= join_bytes(upto));
                } else {
                    assert(r@ =~= join_bytes(upto.drop_last()) + seq![47u8] + upto.last());
                }
            }
            i = i + 1;
        }
        proof {
            assert(self@.subrange(0, self@.len() as int) =~= self@);
        }
        r
    }
}

impl TotalOrdered for RelPath {
    open spec fn lt(self, other: RelPath) -> bool {
        path_lt(self@, other@)
    }

    open spec fn eqv(self, other: RelPath) -> bool {
        self@ == other@
    }

    proof fn lemma_eqv_refl(a: RelPath) {
    }

    proof fn lemma_eqv_sym(a: RelPath, b: RelPath) {
    }

    proof fn lemma_eqv_trans(a: RelPath, b: RelPath, c: RelPath) {
    }

    proof fn lemma_trichotomy(a: RelPath, b: RelPath) {
        lemma_path_lt_trichotomy(a@, b@);
    }

    proof fn lemma_lt_trans(a: RelPath, b: RelPath, c: RelPath) {
        lemma_path_lt_trans(a@, b@, c@);
    }

    #[verifier::loop_isolation(false)]
    fn cmp_to(&self, other: &RelPath) -> (o: Ordering) {
        proof {
            lemma_comps_lt_trichotomy(self@, other@);
        }
        if self.components.len() < other.components.len() {
            return Ordering::Less;
        }
        if other.components.len() < self.components.len() {
            return Ordering::Greater;
        }
        let mut i: usize = 0;
        loop
            invariant
                self@.len() == other@.len(),
                i <= self@.len(),
                forall|j: int| 0 <= j < i ==> self@[j] == other@[j],
        decreases self@.len() - i,
        {
            if i == self.components.len() {
                proof {
                    assert(self@ =~= other@);
                }
                return Ordering::Equal;
            }
            let o = cmp_bytes(&self.components[i], &other.components[i]);
            match o {
                Ordering::Less => {
                    proof {
                        lemma_comps_lt_from_diff(self@, other@, i as int);
                    }
                    return Ordering::Less;
                },
                Ordering::Greater => {
                    proof {
                        lemma_comps_lt_from_diff(other@, self@, i as int);
                    }
                    return Ordering::Greater;
                },
                Ordering::Equal => {
                    i = i + 1;
                },
            }
        }
    }
}

} // verus!
