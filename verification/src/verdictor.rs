//! The verdict engine: deciding how one path differs between the trees.
//!
//! The embedding program reads metadata, link targets and file contents;
//! every decision about them is made here. `cmp_files` classifies a pair by
//! its metadata, `cmp_symlinks` compares link targets, and `cmp_contents`
//! runs the chunked, interrupt-tolerant content comparison.

use vstd::prelude::*;

use crate::bytes::eq_prefix;
use crate::bytes::zero_vec;
use crate::io::read_int_mitigator::ByteSource;
use crate::io::read_int_mitigator::read_mitigated;
use crate::iter::rec_dir_iter::join_display;
use crate::iter::sum_iter::SumIterSelector;
use crate::rel_path::RelPath;
use crate::rel_path::join_bytes;
use crate::verdict::ErrorKind;
use crate::verdict::FileKind;
use crate::verdict::Verdict;

verus! {

/// Which tree a per-file failure was encountered in.
#[derive(Copy, Clone, PartialEq, Eq, Structural, Debug)]
pub enum Side {
    Left,
    Right,
}

/// Metadata of one filesystem object, read without following symlinks.
#[derive(Copy, Clone, PartialEq, Eq, Structural, Debug)]
pub struct FileMeta {
    pub kind: FileKind,
    pub len: u64,
}

/// Default block size used to read files (512 KiB).
pub const DEFAULT_BLKSIZE: usize = 524288;

/// What comparing a pair's metadata decides: a final verdict (or error), or
/// which kind of further comparison is needed.
pub enum CmpFilesStep {
    Resolved(Result<Verdict, (ErrorKind, Side)>),
    CompareLinks,
    CompareContents,
}

/// The metadata decision of §`cmp_files`, as a function: errors surface
/// with their side (left first); differing kinds are a modification; equal
/// symlinks or regular files need their targets or contents compared —
/// except that files of different sizes are already known to differ;
/// directories are the same by definition; any other kind is invalid data.
pub open spec fn spec_cmp_files(
    lhs_meta: Result<FileMeta, ErrorKind>,
    rhs_meta: Result<FileMeta, ErrorKind>,
) -> CmpFilesStep {
    match lhs_meta {
        Result::Err(k) => CmpFilesStep::Resolved(Result::Err((k, Side::Left))),
        Result::Ok(lm) => match rhs_meta {
            Result::Err(k) => CmpFilesStep::Resolved(Result::Err((k, Side::Right))),
            Result::Ok(rm) => {
                if lm.kind != rm.kind {
                    CmpFilesStep::Resolved(Result::Ok(Verdict::Modified))
                } else if lm.kind == FileKind::Symlink {
                    CmpFilesStep::CompareLinks
                } else if lm.kind == FileKind::File {
                    if lm.len == rm.len {
                        CmpFilesStep::CompareContents
                    } else {
                        CmpFilesStep::Resolved(Result::Ok(Verdict::Modified))
                    }
                } else if lm.kind == FileKind::Dir {
                    CmpFilesStep::Resolved(Result::Ok(Verdict::Same))
                } else {
                    CmpFilesStep::Resolved(Result::Err((ErrorKind::InvalidData, Side::Left)))
                }
            },
        },
    }
}

/// The symlink decision: errors surface with their side (left first);
/// otherwise the targets are compared for byte equality.
pub open spec fn spec_cmp_symlinks(
    ll: Result<Vec<u8>, ErrorKind>,
    rl: Result<Vec<u8>, ErrorKind>,
) -> Result<Verdict, (ErrorKind, Side)> {
    match ll {
        Result::Err(k) => Result::Err((k, Side::Left)),
        Result::Ok(l) => match rl {
            Result::Err(k) => Result::Err((k, Side::Right)),
            Result::Ok(r) => if l@ == r@ {
                Result::Ok(Verdict::Same)
            } else {
                Result::Ok(Verdict::Modified)
            },
        },
    }
}

/// The join-level decision for one merged path: a path seen only on one
/// side is already resolved, a path seen on both must be compared.
pub enum VerdictStep {
    /// Final verdict and the path's display bytes.
    Done(Verdict, Vec<u8>),
    /// The caller must read both sides' metadata and continue with
    /// `cmp_files`.
    Compare(RelPath),
}

/// Based on items from `SumIter`, gives verdicts whether files at a
/// specified path (under the two tree roots) differ.
pub struct Verdictor {
    lhs_prefix: Vec<u8>,
    rhs_prefix: Vec<u8>,
    blksize: usize,
}

impl Verdictor {
    /// The raw bytes of the left tree root.
    pub closed spec fn lhs_prefix_bytes(&self) -> Seq<u8> {
        self.lhs_prefix@
    }

    /// The raw bytes of the right tree root.
    pub closed spec fn rhs_prefix_bytes(&self) -> Seq<u8> {
        self.rhs_prefix@
    }

    /// The configured read-chunk size.
    pub closed spec fn blk(&self) -> nat {
        self.blksize as nat
    }

    /// The chunk size is positive.
    pub open spec fn wf(&self) -> bool {
        self.blk() >= 1
    }

    /// Creates a new verdictor; the chunk size must be positive when given
    /// and defaults to `DEFAULT_BLKSIZE`.
    pub fn new(lhs_prefix: Vec<u8>, rhs_prefix: Vec<u8>, blksize_override: Option<usize>) -> (r:
        Verdictor)
        requires
            (blksize_override matches Option::Some(b) ==> b > 0),
        ensures
            r.wf(),
            r.lhs_prefix_bytes() == lhs_prefix@,
            r.rhs_prefix_bytes() == rhs_prefix@,
            r.blk() == (match blksize_override {
                Option::Some(b) => b as nat,
                Option::None => DEFAULT_BLKSIZE as nat,
            }),
    {
        let blksize = match blksize_override {
            Option::Some(b) => b,
            Option::None => DEFAULT_BLKSIZE,
        };
        Verdictor { lhs_prefix, rhs_prefix, blksize }
    }

    /// The configured chunk size.
    pub fn blksize(&self) -> (r: usize)
        ensures
            r == self.blk(),
    {
        self.blksize
    }

    /// Compares symlink target paths, read by the caller.
    pub fn cmp_symlinks(&self, ll: Result<Vec<u8>, ErrorKind>, rl: Result<Vec<u8>, ErrorKind>) -> (r:
        Result<Verdict, (ErrorKind, Side)>)
        ensures
            r == spec_cmp_symlinks(ll, rl),
    {
        match ll {
            Result::Err(k) => Result::Err((k, Side::Left)),
            Result::Ok(l) => match rl {
                Result::Err(k) => Result::Err((k, Side::Right)),
                Result::Ok(rv) => {
                    let o = crate::rel_path::cmp_bytes(&l, &rv);
                    if matches!(o, core::cmp::Ordering::Equal) {
                        Result::Ok(Verdict::Same)
                    } else {
                        Result::Ok(Verdict::Modified)
                    }
                },
            },
        }
    }

    /// Classifies the pair at one path by both sides' metadata, read by the
    /// caller without following symlinks.
    pub fn cmp_files(&self, lhs_meta: Result<FileMeta, ErrorKind>, rhs_meta: Result<
        FileMeta,
        ErrorKind,
    >) -> (r: CmpFilesStep)
        ensures
            r == spec_cmp_files(lhs_meta, rhs_meta),
    {
        let lm = match lhs_meta {
            Result::Err(k) => {
                return CmpFilesStep::Resolved(Result::Err((k, Side::Left)));
            },
            Result::Ok(m) => m,
        };
        let rm = match rhs_meta {
            Result::Err(k) => {
                return CmpFilesStep::Resolved(Result::Err((k, Side::Right)));
            },
            Result::Ok(m) => m,
        };
        if !matches!((lm.kind, rm.kind), (FileKind::Dir, FileKind::Dir) | (FileKind::File, FileKind::File) | (FileKind::Symlink, FileKind::Symlink) | (FileKind::Other, FileKind::Other)) {
            CmpFilesStep::Resolved(Result::Ok(Verdict::Modified))
        } else if matches!(lm.kind, FileKind::Symlink) {
            CmpFilesStep::CompareLinks
        } else if matches!(lm.kind, FileKind::File) {
            if lm.len == rm.len {
                CmpFilesStep::CompareContents
            } else {
                CmpFilesStep::Resolved(Result::Ok(Verdict::Modified))
            }
        } else if matches!(lm.kind, FileKind::Dir) {
            CmpFilesStep::Resolved(Result::Ok(Verdict::Same))
        } else {
            CmpFilesStep::Resolved(Result::Err((ErrorKind::InvalidData, Side::Left)))
        }
    }

    /// Compares the contents of two equally long streams chunk by chunk,
    /// using the interrupt-tolerant reader in lock-step.
    ///
    /// The verdict depends on the stream contents alone — in particular it
    /// is the same for every positive chunk size: `Same` exactly when the
    /// bytes are equal, `Modified` exactly when they are not. An error is
    /// only possible on a broken stream; it carries the side that failed
    /// and a non-transient kind that side itself delivered.
    #[verifier::loop_isolation(false)]
    pub fn cmp_contents<S: ByteSource>(&self, lhs: &mut S, rhs: &mut S) -> (r: Result<
        Verdict,
        (ErrorKind, Side),
    >)
        requires
            self.wf(),
            old(lhs).inv(),
            old(rhs).inv(),
            old(lhs).pos() == 0,
            old(rhs).pos() == 0,
        ensures
            final(lhs).inv(),
            final(rhs).inv(),
            final(lhs).data() == old(lhs).data(),
            final(rhs).data() == old(rhs).data(),
            (r == Result::<Verdict, (ErrorKind, Side)>::Ok(Verdict::Same)) <==> (r is Ok
                && old(lhs).data() == old(rhs).data()),
            (r == Result::<Verdict, (ErrorKind, Side)>::Ok(Verdict::Modified)) <==> (r is Ok
                && old(lhs).data() != old(rhs).data()),
            !old(lhs).broken() && !old(rhs).broken() ==> r is Ok,
            (r matches Result::Err((k, side)) ==> k != ErrorKind::Interrupted && (match side {
                Side::Left => old(lhs).broken() && final(lhs).failed().contains(k),
                Side::Right => old(rhs).broken() && final(rhs).failed().contains(k),
            })),
    {
        let mut lhs_buf = zero_vec(self.blksize);
        let mut rhs_buf = zero_vec(self.blksize);

        loop
            invariant
                lhs.inv(),
                rhs.inv(),
                lhs.data() == old(lhs).data(),
                rhs.data() == old(rhs).data(),
                lhs.broken() == old(lhs).broken(),
                rhs.broken() == old(rhs).broken(),
                lhs.pos() == rhs.pos(),
                lhs.pos() <= lhs.data().len(),
                rhs.pos() <= rhs.data().len(),
                lhs_buf.len() == self.blk(),
                rhs_buf.len() == self.blk(),
                lhs.data().subrange(0, lhs.pos() as int) == rhs.data().subrange(
                    0,
                    rhs.pos() as int,
                ),
            decreases lhs.data().len() - lhs.pos(),
        {
            let ghost pos = lhs.pos();
            let lhs_n = match read_mitigated(lhs, &mut lhs_buf) {
                Result::Ok(n) => n,
                Result::Err(k) => {
                    return Result::Err((k, Side::Left));
                },
            };
            let rhs_n = match read_mitigated(rhs, &mut rhs_buf) {
                Result::Ok(n) => n,
                Result::Err(k) => {
                    return Result::Err((k, Side::Right));
                },
            };
            if lhs_n != rhs_n {
                // one stream ended first: the lengths differ
                proof {
                    assert(lhs.data().len() != rhs.data().len());
                }
                return Result::Ok(Verdict::Modified);
            } else if lhs_n == 0 {
                // simultaneous end of stream with all previous chunks equal
                proof {
                    assert(pos == lhs.data().len());
                    assert(pos == rhs.data().len());
                    assert(lhs.data().subrange(0, pos as int) =~= lhs.data());
                    assert(rhs.data().subrange(0, pos as int) =~= rhs.data());
                }
                return Result::Ok(Verdict::Same);
            } else if !eq_prefix(&lhs_buf, &rhs_buf, lhs_n) {
                // a byte differs within this chunk
                proof {
                    if lhs.data() == rhs.data() {
                        assert forall|j: int| 0 <= j < lhs_n implies lhs_buf@.subrange(
                            0,
                            lhs_n as int,
                        )[j] == rhs_buf@.subrange(0, lhs_n as int)[j] by {
                            assert(lhs_buf@[j] == lhs.data()[pos + j]);
                            assert(rhs_buf@[j] == rhs.data()[pos + j]);
                        }
                        assert(lhs_buf@.subrange(0, lhs_n as int) =~= rhs_buf@.subrange(
                            0,
                            lhs_n as int,
                        ));
                    }
                }
                return Result::Ok(Verdict::Modified);
            }
            proof {
                // the equal chunk extends the equal prefix
                let newpos = lhs.pos();
                assert forall|j: int|
                    0 <= j < newpos implies lhs.data().subrange(0, newpos as int)[j] == rhs.data()
                    .subrange(0, newpos as int)[j] by {
                    if j < pos {
                        assert(lhs.data().subrange(0, pos as int)[j] == rhs.data().subrange(
                            0,
                            pos as int,
                        )[j]);
                    } else {
                        assert(lhs_buf@.subrange(0, lhs_n as int)[j - pos] == rhs_buf@.subrange(
                            0,
                            lhs_n as int,
                        )[j - pos]);
                        assert(lhs_buf@[j - pos] == lhs.data()[j]);
                        assert(rhs_buf@[j - pos] == rhs.data()[j]);
                    }
                }
                assert(lhs.data().subrange(0, newpos as int) =~= rhs.data().subrange(
                    0,
                    newpos as int,
                ));
            }
        }
    }

    /// Resolves one merged path as far as the join alone can: a path seen
    /// only in the left tree was deleted, one seen only in the right tree
    /// was added; a path seen in both must be compared against both roots.
    pub fn get_verdict(&self, sel: SumIterSelector, path: RelPath) -> (r: VerdictStep)
        ensures
            match sel {
                SumIterSelector::Left => (r matches VerdictStep::Done(v, p) && v
                    == Verdict::Deleted && p@ == join_bytes(path@)),
                SumIterSelector::Right => (r matches VerdictStep::Done(v, p) && v == Verdict::Added
                    && p@ == join_bytes(path@)),
                SumIterSelector::Both => (r matches VerdictStep::Compare(p) && p@ == path@),
            },
    {
        match sel {
            SumIterSelector::Left => VerdictStep::Done(Verdict::Deleted, path.to_bytes()),
            SumIterSelector::Right => VerdictStep::Done(Verdict::Added, path.to_bytes()),
            SumIterSelector::Both => VerdictStep::Compare(path),
        }
    }

    /// Converts a comparison outcome into `(Verdict, display path)`: an
    /// error becomes an `Error` verdict with the failing side's root
    /// prefixed onto the path.
    pub fn priv_result_to_ver_path(&self, result: Result<Verdict, (ErrorKind, Side)>, path: RelPath) -> (r: (
        Verdict,
        Vec<u8>,
    ))
        ensures
            match result {
                Result::Ok(v) => r.0 == v && r.1@ == join_bytes(path@),
                Result::Err((k, side)) => r.0 == Verdict::Error(k) && r.1@ == join_display(
                    (match side {
                        Side::Left => self.lhs_prefix_bytes(),
                        Side::Right => self.rhs_prefix_bytes(),
                    }),
                    path@,
                ),
            },
    {
        match result {
            Result::Ok(v) => (v, path.to_bytes()),
            Result::Err((k, side)) => {
                let prefix = match side {
                    Side::Left => &self.lhs_prefix,
                    Side::Right => &self.rhs_prefix,
                };
                let mut display = crate::bytes::copy_bytes(prefix);
                if path.depth() > 0 {
                    display.push(47);
                    let pb = path.to_bytes();
                    crate::bytes::push_bytes(&mut display, &pb);
                }
                (Verdict::Error(k), display)
            },
        }
    }
}

/// Comparing a tree against an identical copy of itself yields only `Same`
/// verdicts: identical metadata either settles the pair as `Same` at once
/// (directories) or defers to a comparison of identical link targets or
/// identical contents, both of which settle as `Same`.
pub proof fn lemma_identical_resolves_same(m: FileMeta, link: Vec<u8>)
    ensures
        m.kind == FileKind::Dir ==> spec_cmp_files(Result::Ok(m), Result::Ok(m))
            == CmpFilesStep::Resolved(Result::<Verdict, (ErrorKind, Side)>::Ok(Verdict::Same)),
        m.kind == FileKind::Symlink ==> spec_cmp_files(Result::Ok(m), Result::Ok(m))
            == CmpFilesStep::CompareLinks,
        spec_cmp_symlinks(Result::Ok(link), Result::Ok(link)) == Result::<Verdict, (ErrorKind,
            Side,
        )>::Ok(Verdict::Same),
        m.kind == FileKind::File ==> spec_cmp_files(Result::Ok(m), Result::Ok(m))
            == CmpFilesStep::CompareContents,
{
}

} // verus!
