//! Tests for the error adapter, the merge-join and the sorted traversal.

use std::cmp::Ordering;

use durduff::iter::ok_iter::OkIter;
use durduff::iter::rec_dir_iter::RecDirIter;
use durduff::iter::rec_dir_iter::cmp_paths;
use durduff::iter::sum_iter::SumIter;
use durduff::iter::sum_iter::SumIterSelector;
use durduff::iter::sum_iter::merge_all;
use durduff::rel_path::RelPath;
use durduff::verdict::ErrorKind;
use durduff::verdict::FileKind;

fn path_of(components: &[&[u8]]) -> RelPath {
    let mut p = RelPath::new();
    for c in components {
        p = p.child(&c.to_vec());
    }
    p
}

#[test]
fn ok_iter_rudimentary() {
    let results: Vec<Result<u32, u32>> = vec![Ok(4), Ok(27), Ok(1), Err(5), Ok(9), Err(500)];
    let mut adapter: OkIter<u32, u32> = OkIter::new();

    let mut oked: Vec<u32> = Vec::new();
    for r in results {
        if let Some(v) = adapter.offer(r) {
            oked.push(v);
        }
    }

    assert_eq!(oked, vec![4, 27, 1]);
    assert_eq!(*adapter.err(), Some(5));
}

#[test]
fn sum_iter_rudimentary() {
    let lhs: Vec<u32> = vec![2, 5, 9];
    let rhs: Vec<u32> = vec![1, 7, 8, 9];

    let mut it = SumIter::new(lhs, rhs);
    let mut sum: Vec<(SumIterSelector, u32)> = Vec::new();
    while let Some(p) = it.next() {
        sum.push(p);
    }

    let expected = vec![
        (SumIterSelector::Right, 1),
        (SumIterSelector::Left, 2),
        (SumIterSelector::Left, 5),
        (SumIterSelector::Right, 7),
        (SumIterSelector::Right, 8),
        (SumIterSelector::Both, 9),
    ];

    assert_eq!(sum, expected);
}

#[test]
fn merge_all_matches_stepwise_merge() {
    let lhs: Vec<u32> = vec![2, 5, 9];
    let rhs: Vec<u32> = vec![1, 7, 8, 9];

    let merged = merge_all(lhs, rhs);

    let expected = vec![
        (SumIterSelector::Right, 1),
        (SumIterSelector::Left, 2),
        (SumIterSelector::Left, 5),
        (SumIterSelector::Right, 7),
        (SumIterSelector::Right, 8),
        (SumIterSelector::Both, 9),
    ];

    assert_eq!(merged, expected);
}

#[test]
fn path_ordering_depth_first_then_lexicographic() {
    let shallow = path_of(&[b"zz"]);
    let deep = path_of(&[b"a", b"a"]);
    assert_eq!(cmp_paths(&shallow, &deep), Ordering::Less);

    let ab = path_of(&[b"a", b"b"]);
    let ac = path_of(&[b"a", b"c"]);
    assert_eq!(cmp_paths(&ab, &ac), Ordering::Less);
    assert_eq!(cmp_paths(&ac, &ab), Ordering::Greater);
    assert_eq!(cmp_paths(&ab, &ab), Ordering::Equal);
}

fn names(list: &[&[u8]]) -> Vec<Vec<u8>> {
    list.iter().map(|n| n.to_vec()).collect()
}

/// The children of each directory of the simulated tree, by joined path.
fn rudimentary_children(path: &[u8]) -> Option<Vec<Vec<u8>>> {
    match path {
        b"new" => Some(names(&[b"d", b"c", b"b", b"foo"])),
        b"old" => Some(names(&[b"foo", b"d", b"c"])),
        b"new/foo" => Some(names(&[b"a"])),
        b"old/foo" => Some(names(&[b"a"])),
        _ => None,
    }
}

#[test]
fn rec_dir_iter_rudimentary() {
    let mut it = RecDirIter::try_new(b"test-data/rudimentary".to_vec(), Ok(FileKind::Dir)).unwrap();
    it.append_dir_elems(&RelPath::new(), Ok(names(&[b"old", b"new"])));

    let mut paths: Vec<Vec<u8>> = Vec::new();
    while let Some(item) = it.next() {
        let p = item.unwrap();
        let bytes = p.to_bytes();
        paths.push(bytes.clone());
        if let Some(kids) = rudimentary_children(&bytes) {
            it.append_dir_elems(&p, Ok(kids));
        }
    }

    let expected: Vec<Vec<u8>> = vec![
        b"new".to_vec(),
        b"old".to_vec(),
        b"new/b".to_vec(),
        b"new/c".to_vec(),
        b"new/d".to_vec(),
        b"new/foo".to_vec(),
        b"old/c".to_vec(),
        b"old/d".to_vec(),
        b"old/foo".to_vec(),
        b"new/foo/a".to_vec(),
        b"old/foo/a".to_vec(),
    ];

    assert_eq!(paths, expected);
}

#[test]
fn root_dir_does_not_exist() {
    // a missing root is not a directory: construction is rejected with the
    // distinguished error, and no comparison is ever attempted
    let r = RecDirIter::try_new(
        b"xb1suKLrl0Ltenl6T0CgzbI0shecZpXYLmEqzg".to_vec(),
        Err(ErrorKind::NotFound),
    );

    assert!(r.is_err());
}

#[test]
fn root_dir_is_a_regular_file() {
    let r = RecDirIter::try_new(b"test-data/rudimentary/old/foo/a".to_vec(), Ok(FileKind::File));

    assert!(r.is_err());
}

#[test]
fn listing_failure_is_latched_and_final() {
    let mut it = RecDirIter::try_new(b"top".to_vec(), Ok(FileKind::Dir)).unwrap();
    it.append_dir_elems(&RelPath::new(), Ok(names(&[b"sub", b"zz"])));

    // "sub" is yielded first, but listing it fails
    let p = it.next().unwrap().unwrap();
    assert_eq!(p.to_bytes(), b"sub".to_vec());
    it.append_dir_elems(&p, Err(ErrorKind::PermissionDenied));

    // the queued "zz" is discarded; the annotated error is the final item
    let e = it.next().unwrap().unwrap_err();
    assert_eq!(e.kind, ErrorKind::PermissionDenied);
    assert_eq!(e.dir, b"top/sub".to_vec());
    assert_eq!(
        e.describe(),
        b"reading directory top/sub".to_vec(),
    );
    assert!(it.next().is_none());
}

#[test]
fn merge_of_empty_inputs_is_empty() {
    let merged = merge_all(Vec::<u32>::new(), Vec::<u32>::new());
    assert!(merged.is_empty());

    let only_left = merge_all(vec![1u32, 2], Vec::new());
    assert_eq!(
        only_left,
        vec![(SumIterSelector::Left, 1), (SumIterSelector::Left, 2)],
    );
}

#[test]
fn breadth_first_order_across_three_levels() {
    let mut it = RecDirIter::try_new(b"top".to_vec(), Ok(FileKind::Dir)).unwrap();
    it.append_dir_elems(&RelPath::new(), Ok(names(&[b"b", b"a"])));

    let mut paths: Vec<Vec<u8>> = Vec::new();
    while let Some(item) = it.next() {
        let p = item.unwrap();
        let bytes = p.to_bytes();
        paths.push(bytes.clone());
        let kids: Option<Vec<Vec<u8>>> = match bytes.as_slice() {
            b"a" => Some(names(&[b"z", b"y"])),
            b"b" => Some(names(&[b"c"])),
            b"a/z" => Some(names(&[b"q"])),
            _ => None,
        };
        if let Some(kids) = kids {
            it.append_dir_elems(&p, Ok(kids));
        }
    }

    // all first-level entries come before any second-level entry, which
    // come before any third-level entry; ties are lexicographic
    let expected: Vec<Vec<u8>> = vec![
        b"a".to_vec(),
        b"b".to_vec(),
        b"a/y".to_vec(),
        b"a/z".to_vec(),
        b"b/c".to_vec(),
        b"a/z/q".to_vec(),
    ];
    assert_eq!(paths, expected);
}
