//! End-to-end tests of the diff pipeline: traversal, merge, verdicts and
//! rendering, over in-memory trees.

use durduff::DiffStatus;
use durduff::ErrorStatus;
use durduff::ExecResult;
use durduff::keep_printing;
use durduff::note_verdict;
use durduff::io::line_status_color_codes::LineStatusColorCodes;
use durduff::io::print_diff::fmt_error_kind;
use durduff::io::print_diff::print_diff;
use durduff::io::print_diff::utf8_percent_encode_path;
use durduff::io::read_int_mitigator::InterruptingReader;
use durduff::io::record_printer::PlainRecordPrinter;
use durduff::iter::ok_iter::OkIter;
use durduff::iter::rec_dir_iter::RecDirIter;
use durduff::iter::rec_dir_iter::WalkError;
use durduff::iter::sum_iter::merge_all;
use durduff::rel_path::RelPath;
use durduff::verdict::ErrorKind;
use durduff::verdict::FileKind;
use durduff::verdict::Verdict;
use durduff::verdictor::CmpFilesStep;
use durduff::verdictor::FileMeta;
use durduff::verdictor::Side;
use durduff::verdictor::Verdictor;
use durduff::verdictor::VerdictStep;

/// One filesystem object of a simulated tree.
#[derive(Clone)]
enum Entry {
    Dir(Vec<&'static [u8]>),
    File(&'static [u8]),
    Link(&'static [u8]),
}

/// A simulated tree: its root path and its entries, keyed by relative
/// joined path.
struct Tree {
    top: &'static [u8],
    nodes: Vec<(&'static [u8], Entry)>,
}

impl Tree {
    fn lookup(&self, path: &[u8]) -> Option<&Entry> {
        self.nodes.iter().find(|(p, _)| *p == path).map(|(_, e)| e)
    }

    fn meta(&self, path: &[u8]) -> Result<FileMeta, ErrorKind> {
        match self.lookup(path) {
            None => Err(ErrorKind::NotFound),
            Some(Entry::Dir(_)) => Ok(FileMeta { kind: FileKind::Dir, len: 0 }),
            Some(Entry::File(c)) => Ok(FileMeta { kind: FileKind::File, len: c.len() as u64 }),
            Some(Entry::Link(_)) => Ok(FileMeta { kind: FileKind::Symlink, len: 0 }),
        }
    }

    fn read_link(&self, path: &[u8]) -> Result<Vec<u8>, ErrorKind> {
        match self.lookup(path) {
            Some(Entry::Link(t)) => Ok(t.to_vec()),
            _ => Err(ErrorKind::Other),
        }
    }

    fn reader(&self, path: &[u8]) -> Result<InterruptingReader, ErrorKind> {
        match self.lookup(path) {
            Some(Entry::File(c)) => Ok(InterruptingReader {
                content: c.to_vec(),
                pos: 0,
                max_len: c.len().max(1),
                interrupt_no: 0,
            }),
            _ => Err(ErrorKind::Other),
        }
    }

    fn root_children(&self) -> Vec<Vec<u8>> {
        match self.lookup(b"") {
            Some(Entry::Dir(kids)) => kids.iter().map(|k| k.to_vec()).collect(),
            _ => Vec::new(),
        }
    }
}

/// Drives the traversal over a simulated tree, collecting clean paths and
/// the latched error, if any.
fn traverse(tree: &Tree) -> (Vec<RelPath>, Option<WalkError>) {
    let mut it = RecDirIter::try_new(tree.top.to_vec(), Ok(FileKind::Dir)).unwrap();
    it.append_dir_elems(&RelPath::new(), Ok(tree.root_children()));

    let mut adapter: OkIter<RelPath, WalkError> = OkIter::new();
    let mut paths: Vec<RelPath> = Vec::new();
    while let Some(item) = it.next() {
        if let Ok(ref p) = item {
            if let Some(Entry::Dir(kids)) = tree.lookup(&p.to_bytes()) {
                let kid_names: Vec<Vec<u8>> = kids.iter().map(|k| k.to_vec()).collect();
                it.append_dir_elems(p, Ok(kid_names));
            }
        }
        if let Some(p) = adapter.offer(item) {
            paths.push(p);
        }
    }
    (paths, adapter.into_err())
}

struct RunOutcome {
    stdout: Vec<u8>,
    stderr: Vec<u8>,
    exit_code: i32,
}

/// The whole pipeline over two simulated trees, with a plain printer.
fn run_diff(old: &Tree, new: &Tree, brief: bool, nul: bool, blksize: Option<usize>) -> RunOutcome {
    let (lhs_paths, lhs_err) = traverse(old);
    let (rhs_paths, rhs_err) = traverse(new);

    let merged = merge_all(lhs_paths, rhs_paths);

    let verdictor = Verdictor::new(old.top.to_vec(), new.top.to_vec(), blksize);

    let mut error_status = ErrorStatus::NoErrors;
    let mut diff_status = DiffStatus::TreesSame;
    let mut outcomes: Vec<(Verdict, Vec<u8>)> = Vec::new();

    for (sel, path) in merged {
        let (v, display) = match verdictor.get_verdict(sel, path) {
            VerdictStep::Done(v, p) => (v, p),
            VerdictStep::Compare(p) => {
                let pb = p.to_bytes();
                let result = match verdictor.cmp_files(old.meta(&pb), new.meta(&pb)) {
                    CmpFilesStep::Resolved(r) => r,
                    CmpFilesStep::CompareLinks => {
                        verdictor.cmp_symlinks(old.read_link(&pb), new.read_link(&pb))
                    },
                    CmpFilesStep::CompareContents => {
                        match (old.reader(&pb), new.reader(&pb)) {
                            (Ok(mut l), Ok(mut r)) => verdictor.cmp_contents(&mut l, &mut r),
                            (Err(k), _) => Err((k, Side::Left)),
                            (_, Err(k)) => Err((k, Side::Right)),
                        }
                    },
                };
                verdictor.priv_result_to_ver_path(result, p)
            },
        };
        let (es, ds) = note_verdict(error_status, diff_status, &v);
        error_status = es;
        diff_status = ds;
        if !keep_printing(brief, &v) {
            break;
        }
        outcomes.push((v, display));
    }

    let mut printer = PlainRecordPrinter::new(Vec::<u8>::new(), Vec::<u8>::new());
    print_diff(outcomes, &mut printer, LineStatusColorCodes::no_color(), nul);
    let (stdout, stderr) = printer.into_streams();

    let exec_result = if lhs_err.is_some() || rhs_err.is_some() {
        ExecResult::Fatal
    } else {
        ExecResult::NonFatal(error_status, diff_status)
    };

    RunOutcome { stdout, stderr, exit_code: exec_result.exit_code() }
}

fn rudimentary_old() -> Tree {
    Tree {
        top: b"trees/old",
        nodes: vec![
            (b"", Entry::Dir(vec![b"a", b"b", b"foo"])),
            (b"a", Entry::File(b"alpha")),
            (b"b", Entry::File(b"identical contents")),
            (b"foo", Entry::Dir(vec![b"a"])),
            (b"foo/a", Entry::File(b"left!")),
        ],
    }
}

fn rudimentary_new() -> Tree {
    Tree {
        top: b"trees/new",
        nodes: vec![
            (b"", Entry::Dir(vec![b"b", b"c", b"foo"])),
            (b"b", Entry::File(b"identical contents")),
            (b"c", Entry::File(b"gamma")),
            (b"foo", Entry::Dir(vec![b"a"])),
            (b"foo/a", Entry::File(b"right")),
        ],
    }
}

#[test]
fn scenario_deleted_added_modified_with_newline() {
    let outcome = run_diff(&rudimentary_old(), &rudimentary_new(), false, false, Some(100));
    assert_eq!(outcome.stdout, b"- a\n+ c\n~ foo/a\n".to_vec());
    assert_eq!(outcome.stderr, b"".to_vec());
    assert_eq!(outcome.exit_code, 1);
}

#[test]
fn scenario_deleted_added_modified_with_null() {
    let outcome = run_diff(&rudimentary_old(), &rudimentary_new(), false, true, Some(100));
    assert_eq!(outcome.stdout, b"- a\x00+ c\x00~ foo/a\x00".to_vec());
    assert_eq!(outcome.stderr, b"".to_vec());
    assert_eq!(outcome.exit_code, 1);
}

#[test]
fn scenario_identical_trees_print_nothing() {
    let make = |top: &'static [u8]| Tree {
        top,
        nodes: vec![
            (b"", Entry::Dir(vec![b"b", b"foo"])),
            (b"b", Entry::File(b"same bytes")),
            (b"foo", Entry::Dir(vec![b"a", b"link"])),
            (b"foo/a", Entry::File(b"more of the same")),
            (b"foo/link", Entry::Link(b"b")),
        ],
    };
    for blksize in [None, Some(1), Some(3), Some(100)] {
        let outcome = run_diff(&make(b"trees/old"), &make(b"trees/new"), false, false, blksize);
        assert_eq!(outcome.stdout, b"".to_vec());
        assert_eq!(outcome.stderr, b"".to_vec());
        assert_eq!(outcome.exit_code, 0);
    }
}

#[test]
fn scenario_brief_suppresses_diff_lines() {
    let outcome = run_diff(&rudimentary_old(), &rudimentary_new(), true, false, Some(100));
    assert_eq!(outcome.stdout, b"".to_vec());
    // the "directory trees differ" summary is printed by the embedding
    // program; the library reports the status through the exit code
    assert_eq!(outcome.exit_code, 1);
}

#[test]
fn scenario_symlink_targets_differ() {
    let old = Tree {
        top: b"trees/old",
        nodes: vec![
            (b"", Entry::Dir(vec![b"a", b"foo"])),
            (b"a", Entry::File(b"gone")),
            (b"foo", Entry::Dir(vec![b"symlink"])),
            (b"foo/symlink", Entry::Link(b"target-one")),
        ],
    };
    let new = Tree {
        top: b"trees/new",
        nodes: vec![
            (b"", Entry::Dir(vec![b"b", b"foo"])),
            (b"b", Entry::File(b"fresh")),
            (b"foo", Entry::Dir(vec![b"symlink"])),
            (b"foo/symlink", Entry::Link(b"target-two")),
        ],
    };
    let outcome = run_diff(&old, &new, false, false, Some(100));
    assert_eq!(outcome.stdout, b"- a\n+ b\n~ foo/symlink\n".to_vec());
    assert_eq!(outcome.exit_code, 1);
}

#[test]
fn fatal_when_root_is_not_a_directory() {
    let r = RecDirIter::try_new(b"trees/old/foo/a".to_vec(), Ok(FileKind::File));
    assert!(r.is_err());
    // the embedding program reports "<old> is not a directory" and exits
    // with the distinct fatal code
    assert_eq!(ExecResult::Fatal.exit_code(), 4);
}

#[test]
fn chunk_size_does_not_change_the_verdict() {
    let content: &'static [u8] = b"0123456789abcdef";
    let make = |top: &'static [u8], data: &'static [u8]| Tree {
        top,
        nodes: vec![(b"", Entry::Dir(vec![b"f"])), (b"f", Entry::File(data))],
    };
    // equal contents: Same at every chunk size, including the boundary
    // sizes around the content length
    for blksize in [1, 2, 15, 16, 17, 100] {
        let outcome = run_diff(
            &make(b"trees/old", content),
            &make(b"trees/new", content),
            false,
            false,
            Some(blksize),
        );
        assert_eq!(outcome.stdout, b"".to_vec());
        assert_eq!(outcome.exit_code, 0);
    }
    // a one-byte difference: Modified at every chunk size
    let changed: &'static [u8] = b"0123456789abcdeX";
    for blksize in [1, 2, 15, 16, 17, 100] {
        let outcome = run_diff(
            &make(b"trees/old", content),
            &make(b"trees/new", changed),
            false,
            false,
            Some(blksize),
        );
        assert_eq!(outcome.stdout, b"~ f\n".to_vec());
        assert_eq!(outcome.exit_code, 1);
    }
    // a length difference is found without content comparison
    let longer: &'static [u8] = b"0123456789abcdef!";
    let outcome = run_diff(
        &make(b"trees/old", content),
        &make(b"trees/new", longer),
        false,
        false,
        Some(16),
    );
    assert_eq!(outcome.stdout, b"~ f\n".to_vec());
}

#[test]
fn per_file_errors_are_reported_and_not_fatal() {
    // "ghost" is listed in both trees but only backed by an entry in the
    // new one, so reading its metadata on the left side fails
    let old = Tree {
        top: b"trees/old",
        nodes: vec![
            (b"", Entry::Dir(vec![b"ghost", b"x"])),
            (b"x", Entry::File(b"ok")),
        ],
    };
    let new = Tree {
        top: b"trees/new",
        nodes: vec![
            (b"", Entry::Dir(vec![b"ghost", b"x"])),
            (b"ghost", Entry::File(b"hm")),
            (b"x", Entry::File(b"ok")),
        ],
    };
    let outcome = run_diff(&old, &new, false, false, Some(100));
    assert_eq!(outcome.stdout, b"! trees/old/ghost\n".to_vec());
    assert_eq!(outcome.stderr, b"^ file not found\n".to_vec());
    // non-fatal errors, no difference reported
    assert_eq!(outcome.exit_code, 2);
}

#[test]
fn unsupported_file_kinds_are_invalid_data() {
    let verdictor = Verdictor::new(b"l".to_vec(), b"r".to_vec(), None);
    let other = Ok(FileMeta { kind: FileKind::Other, len: 0 });
    match verdictor.cmp_files(other, other) {
        CmpFilesStep::Resolved(Err((ErrorKind::InvalidData, Side::Left))) => {},
        _ => panic!("expected invalid data on the left side"),
    }
}

#[test]
fn metadata_errors_carry_their_side() {
    let verdictor = Verdictor::new(b"l".to_vec(), b"r".to_vec(), None);
    let good = Ok(FileMeta { kind: FileKind::File, len: 1 });
    match verdictor.cmp_files(Err(ErrorKind::PermissionDenied), good) {
        CmpFilesStep::Resolved(Err((ErrorKind::PermissionDenied, Side::Left))) => {},
        _ => panic!("expected the left-side error first"),
    }
    match verdictor.cmp_files(good, Err(ErrorKind::PermissionDenied)) {
        CmpFilesStep::Resolved(Err((ErrorKind::PermissionDenied, Side::Right))) => {},
        _ => panic!("expected the right-side error"),
    }
}

#[test]
fn percent_encoding_escapes_control_bytes() {
    let encoded = utf8_percent_encode_path(&b"hello\nworld".to_vec());
    assert_eq!(encoded, b"hello%0Aworld".to_vec());
}

#[test]
fn percent_encoding_escapes_invalid_utf8() {
    let encoded = utf8_percent_encode_path(&vec![0xf1, 0x52]);
    // the invalid byte decodes to the replacement character, whose UTF-8
    // bytes are then percent-escaped
    assert_eq!(encoded, b"%EF%BF%BDR".to_vec());
}

#[test]
fn problematic_file_names_with_newline_are_encoded() {
    let old = Tree {
        top: b"trees/old",
        nodes: vec![
            (b"", Entry::Dir(vec![b"hello\nworld"])),
            (b"hello\nworld", Entry::File(b"x")),
        ],
    };
    let new = Tree { top: b"trees/new", nodes: vec![(b"", Entry::Dir(vec![]))] };
    let outcome = run_diff(&old, &new, false, false, Some(100));
    assert_eq!(outcome.stdout, b"- hello%0Aworld\n".to_vec());

    let outcome_raw = run_diff(&old, &new, false, true, Some(100));
    assert_eq!(outcome_raw.stdout, b"- hello\nworld\x00".to_vec());
}

#[test]
fn error_kind_descriptions() {
    assert_eq!(fmt_error_kind(ErrorKind::NotFound), "file not found");
    assert_eq!(fmt_error_kind(ErrorKind::PermissionDenied), "permission denied");
    assert_eq!(fmt_error_kind(ErrorKind::Interrupted), "file reading was interrupted");
    assert_eq!(fmt_error_kind(ErrorKind::InvalidData), "invalid data");
    assert_eq!(fmt_error_kind(ErrorKind::Other), "unexpected error");
}

#[test]
fn exit_codes_cover_all_outcomes() {
    assert_eq!(ExecResult::NonFatal(ErrorStatus::NoErrors, DiffStatus::TreesSame).exit_code(), 0);
    assert_eq!(ExecResult::NonFatal(ErrorStatus::NoErrors, DiffStatus::TreesDiff).exit_code(), 1);
    assert_eq!(ExecResult::NonFatal(ErrorStatus::SomeErrors, DiffStatus::TreesSame).exit_code(), 2);
    assert_eq!(ExecResult::NonFatal(ErrorStatus::SomeErrors, DiffStatus::TreesDiff).exit_code(), 3);
    assert_eq!(ExecResult::Fatal.exit_code(), 4);
}

#[test]
fn version_string() {
    assert_eq!(durduff::get_version(), "0.1.0");
}

#[test]
fn type_changes_are_modifications() {
    let old = Tree {
        top: b"trees/old",
        nodes: vec![(b"", Entry::Dir(vec![b"x"])), (b"x", Entry::File(b"data"))],
    };
    let new = Tree {
        top: b"trees/new",
        nodes: vec![(b"", Entry::Dir(vec![b"x"])), (b"x", Entry::Link(b"data"))],
    };
    let outcome = run_diff(&old, &new, false, false, None);
    assert_eq!(outcome.stdout, b"~ x\n".to_vec());
    assert_eq!(outcome.exit_code, 1);
}

#[test]
fn interrupted_sources_still_compare_correctly() {
    let verdictor = Verdictor::new(b"l".to_vec(), b"r".to_vec(), Some(7));
    let make = |interrupts: usize| InterruptingReader {
        content: b"the very same bytes".to_vec(),
        pos: 0,
        max_len: 3,
        interrupt_no: interrupts,
    };
    let mut a = make(2);
    let mut b = make(5);
    assert_eq!(verdictor.cmp_contents(&mut a, &mut b), Ok(Verdict::Same));

    let mut c = make(2);
    let mut changed = InterruptingReader {
        content: b"the very same byteZ".to_vec(),
        pos: 0,
        max_len: 3,
        interrupt_no: 1,
    };
    assert_eq!(verdictor.cmp_contents(&mut c, &mut changed), Ok(Verdict::Modified));
}
