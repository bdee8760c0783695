use std::cmp::Ordering;
use std::path::{Component, Path};

use theme_picker::lex::Order;
use theme_picker::path::WallPath;
use theme_picker::path_list::sort_paths;

fn wp(s: &str) -> WallPath {
    WallPath::new(s.as_bytes().to_vec())
}

fn std_keys(s: &str) -> Vec<Vec<u8>> {
    Path::new(s)
        .components()
        .map(|c| match c {
            Component::RootDir => vec![0u8],
            Component::CurDir => vec![1u8],
            Component::ParentDir => vec![2u8],
            Component::Normal(n) => {
                let mut k = vec![3u8];
                k.extend_from_slice(n.to_str().unwrap().as_bytes());
                k
            }
            Component::Prefix(_) => unreachable!(),
        })
        .collect()
}

const SAMPLES: &[&str] = &[
    "", ".", "..", "/", "//", "a", "a/", "a//b", "a/b", "a/./b", "./a", "./", ".a", "a.", "...",
    "/a/b/c.png", "/a/b/c.PNG", "a/../b", "../a", "/..", "a-b", "a/b-c", "a/bc", "ab", "a b",
    "/home/u/Pictures/x.jpg", "/home/u/Pictures/x.jpeg", "/home/u/Pictures//y.webp", "x/.", "x/./",
    "/x/.", "./.", "a/b/", "b", "B", "é/a", "a/é",
];

#[test]
fn components_match_std() {
    for s in SAMPLES {
        assert_eq!(wp(s).components(), std_keys(s), "components of {:?}", s);
    }
}

#[test]
fn compare_matches_std_ordering() {
    for a in SAMPLES {
        for b in SAMPLES {
            let expected = Path::new(a).cmp(Path::new(b));
            let got = wp(a).compare(&wp(b));
            let got = match got {
                Order::Less => Ordering::Less,
                Order::Equal => Ordering::Equal,
                Order::Greater => Ordering::Greater,
            };
            assert_eq!(got, expected, "compare {:?} {:?}", a, b);
            assert_eq!(wp(a).same(&wp(b)), Path::new(a) == Path::new(b));
            assert_eq!(wp(a).precedes(&wp(b)), Path::new(a) < Path::new(b));
        }
    }
}

#[test]
fn same_path_ignores_repeated_separators_and_current_dirs() {
    assert!(wp("a//b").same(&wp("a/b")));
    assert!(wp("a/./b").same(&wp("a/b")));
    assert!(wp("a/b/").same(&wp("a/b")));
    assert!(!wp("./a").same(&wp("a")));
    assert!(!wp("/a").same(&wp("a")));
}

#[test]
fn extension_matches_std() {
    for s in SAMPLES {
        let expected = Path::new(s).extension().map(|e| e.to_str().unwrap().as_bytes().to_vec());
        assert_eq!(wp(s).extension(), expected, "extension of {:?}", s);
    }
    assert_eq!(wp("/w/photo.tar.gz").extension(), Some(b"gz".to_vec()));
    assert_eq!(wp("/w/.hidden").extension(), None);
    assert_eq!(wp("/w/name.").extension(), Some(Vec::new()));
    assert_eq!(wp("/w/x.png/.").extension(), Some(b"png".to_vec()));
}

#[test]
fn join_matches_std() {
    for base in ["", "/", "/a", "/a/", "a", "a//"] {
        for name in ["x.jpg", "/abs", ""] {
            let expected = Path::new(base).join(name);
            let got = wp(base).join(&name.as_bytes().to_vec());
            assert_eq!(got.raw, expected.to_str().unwrap().as_bytes().to_vec(), "{:?} join {:?}", base, name);
        }
    }
}

#[test]
fn duplicate_keeps_raw_bytes() {
    let p = wp("a//b");
    assert_eq!(p.duplicate().raw, b"a//b".to_vec());
}

#[test]
fn sort_matches_std_stable_sort() {
    let input: Vec<&str> = vec!["b", "a//x", "a/x", "/z", "a", "a/x/", "./q", "..", "a-b", "a/b"];
    let mut list: Vec<WallPath> = input.iter().map(|s| wp(s)).collect();
    sort_paths(&mut list);
    let mut expected: Vec<std::path::PathBuf> = input.iter().map(|s| std::path::PathBuf::from(s)).collect();
    expected.sort();
    let got: Vec<Vec<u8>> = list.iter().map(|p| p.raw.clone()).collect();
    let want: Vec<Vec<u8>> = expected.iter().map(|p| p.to_str().unwrap().as_bytes().to_vec()).collect();
    assert_eq!(got, want);
}

#[test]
fn sort_keeps_equal_paths_in_their_order() {
    let mut list = vec![wp("a/x"), wp("b"), wp("a//x"), wp("a/x/")];
    sort_paths(&mut list);
    let got: Vec<Vec<u8>> = list.iter().map(|p| p.raw.clone()).collect();
    assert_eq!(got, vec![b"a/x".to_vec(), b"a//x".to_vec(), b"a/x/".to_vec(), b"b".to_vec()]);
}

#[test]
fn sort_of_empty_list_is_empty() {
    let mut list: Vec<WallPath> = Vec::new();
    sort_paths(&mut list);
    assert!(list.is_empty());
}
