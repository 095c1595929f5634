use parser_ai::classify::{classify, count_text_files, is_text_file, Classification, ExcludeReason};
use parser_ai::fs_model::{is_valid_path, FsNode};
use parser_ai::tree::{
    build_file_tree, build_file_tree_shallow, create_shallow_node, expand_folder,
    expand_parsed_folder, find_children_in_tree, get_parsed_preview_tree, get_preview_tree,
    get_recursive_dir_size, to_shallow_node, ParsedPath,
};

fn text_file(name: &str, path: &str, content: &str) -> FsNode {
    FsNode::File {
        name: name.to_string(),
        path: path.to_string(),
        symlink: false,
        size: content.len() as u64,
        sample: Some(content.as_bytes().to_vec()),
        text: Some(content.to_string()),
    }
}

fn binary_file(name: &str, path: &str, bytes: &[u8]) -> FsNode {
    FsNode::File {
        name: name.to_string(),
        path: path.to_string(),
        symlink: false,
        size: bytes.len() as u64,
        sample: Some(bytes.to_vec()),
        text: None,
    }
}

fn dir(name: &str, path: &str, children: Vec<FsNode>) -> FsNode {
    FsNode::Dir {
        name: name.to_string(),
        path: path.to_string(),
        symlink: false,
        children,
    }
}

fn node_path(p: &ParsedPath) -> &str {
    p.path()
}

fn node_size(p: &ParsedPath) -> u64 {
    match p {
        ParsedPath::File { size, .. } => *size,
        ParsedPath::Directory { size, .. } => *size,
    }
}

#[test]
fn classify_text_is_eligible() {
    let f = text_file("a.txt", "/r/a.txt", "hello world");
    assert_eq!(classify(&f), Classification::Eligible);
    assert!(is_text_file(&f));
}

#[test]
fn classify_zero_byte_is_binary() {
    let f = binary_file("a.bin", "/r/a.bin", &[0x41, 0x00, 0x42]);
    assert_eq!(classify(&f), Classification::Excluded(ExcludeReason::Binary));
    assert!(!is_text_file(&f));
}

#[test]
fn classify_pdf_magic_is_binary() {
    let f = binary_file("d.pdf", "/r/d.pdf", b"%PDF-1.4 stuff");
    assert_eq!(classify(&f), Classification::Excluded(ExcludeReason::Binary));
}

#[test]
fn classify_utf16_bom_with_zero_bytes_is_text() {
    // A byte-order mark wins over the zero-byte scan.
    let f = FsNode::File {
        name: "u.txt".to_string(),
        path: "/r/u.txt".to_string(),
        symlink: false,
        size: 4,
        sample: Some(vec![0xFF, 0xFE, 0x00, 0x41]),
        text: None,
    };
    assert_eq!(classify(&f), Classification::Eligible);
}

#[test]
fn classify_empty_sample_is_eligible() {
    let f = text_file("e.txt", "/r/e.txt", "");
    assert_eq!(classify(&f), Classification::Eligible);
}

#[test]
fn classify_unreadable_sample_is_excluded() {
    let f = FsNode::File {
        name: "locked".to_string(),
        path: "/r/locked".to_string(),
        symlink: false,
        size: 7,
        sample: None,
        text: None,
    };
    assert_eq!(classify(&f), Classification::Excluded(ExcludeReason::Unreadable));
}

#[test]
fn classify_symlink_and_hidden_are_excluded() {
    let s = FsNode::File {
        name: "ln".to_string(),
        path: "/r/ln".to_string(),
        symlink: true,
        size: 3,
        sample: Some(b"abc".to_vec()),
        text: Some("abc".to_string()),
    };
    assert_eq!(classify(&s), Classification::Excluded(ExcludeReason::Symlink));
    let h = text_file(".hidden", "/r/.hidden", "abc");
    assert_eq!(classify(&h), Classification::Excluded(ExcludeReason::Hidden));
    assert!(!is_valid_path(&h));
    assert!(is_valid_path(&text_file("x", "/r/x", "abc")));
}

#[test]
fn classify_twice_gives_same_result() {
    let f = text_file("a.txt", "/r/a.txt", "stable contents");
    assert_eq!(classify(&f), classify(&f));
    let b = binary_file("b.bin", "/r/b.bin", &[0x00]);
    assert_eq!(classify(&b), classify(&b));
}

#[test]
fn count_text_files_counts_only_eligible() {
    let roots = vec![dir(
        "r",
        "/r",
        vec![
            text_file("a.txt", "/r/a.txt", "aaa"),
            binary_file("b.bin", "/r/b.bin", &[0x00]),
            text_file(".h.txt", "/r/.h.txt", "hidden"),
            dir("sub", "/r/sub", vec![text_file("c.txt", "/r/sub/c.txt", "cc")]),
        ],
    )];
    assert_eq!(count_text_files(&roots), 2);
}

#[test]
fn eager_tree_zero_sizes_excluded_files_and_sums_up() {
    let root = dir(
        "r",
        "/r",
        vec![
            text_file("a.txt", "/r/a.txt", "aaaaa"),
            binary_file("b.bin", "/r/b.bin", &[0x00, 0x01, 0x02]),
            dir("sub", "/r/sub", vec![text_file("c.txt", "/r/sub/c.txt", "cc")]),
        ],
    );
    let t = build_file_tree(&root);
    match &t {
        ParsedPath::Directory { size, children, path, .. } => {
            assert_eq!(path, "/r");
            assert_eq!(children.len(), 3);
            // the excluded binary file still appears, with size zero
            assert_eq!(node_path(&children[1]), "/r/b.bin");
            assert_eq!(node_size(&children[1]), 0);
            assert_eq!(node_size(&children[0]), 5);
            assert_eq!(node_size(&children[2]), 2);
            assert_eq!(*size, 7);
        }
        _ => panic!("expected a directory"),
    }
}

fn assert_sizes_sum(node: &ParsedPath) {
    if let ParsedPath::Directory { size, children, .. } = node {
        let sum: u64 = children.iter().map(node_size).sum();
        assert_eq!(*size, sum);
        for c in children {
            assert_sizes_sum(c);
        }
    }
}

#[test]
fn eager_tree_directory_sizes_are_sums_of_children() {
    // a synthetic tree of pseudo-random file sizes
    let mut seed: u64 = 0x2545F4914F6CDD1D;
    let mut next = move || {
        seed ^= seed << 13;
        seed ^= seed >> 7;
        seed ^= seed << 17;
        seed % 1000
    };
    let mut leaves = Vec::new();
    for i in 0..8 {
        let sz = next();
        leaves.push(FsNode::File {
            name: format!("f{i}"),
            path: format!("/r/d/f{i}"),
            symlink: false,
            size: sz,
            sample: Some(vec![b'x'; 4]),
            text: Some("xxxx".to_string()),
        });
    }
    let root = dir(
        "r",
        "/r",
        vec![dir("d", "/r/d", leaves), text_file("top.txt", "/r/top.txt", "top")],
    );
    let t = build_file_tree(&root);
    assert_sizes_sum(&t);
}

#[test]
fn recursive_dir_size_counts_every_valid_file() {
    let root = dir(
        "r",
        "/r",
        vec![
            text_file("a.txt", "/r/a.txt", "aaaaa"),
            binary_file("b.bin", "/r/b.bin", &[0x00, 0x01, 0x02]),
            text_file(".h", "/r/.h", "zz"),
        ],
    );
    // binary files count toward the raw recursive size; hidden ones do not
    assert_eq!(get_recursive_dir_size(&root), 8);
}

#[test]
fn shallow_tree_orders_directories_first_then_by_path() {
    let root = dir(
        "a",
        "/a",
        vec![
            text_file("file.txt", "/a/file.txt", "1234"),
            dir("zdir", "/a/zdir", vec![]),
            dir("bdir", "/a/bdir", vec![]),
        ],
    );
    let t = build_file_tree_shallow(&root);
    match &t {
        ParsedPath::Directory { children, .. } => {
            let order: Vec<&str> = children.iter().map(node_path).collect();
            assert_eq!(order, vec!["/a/bdir", "/a/zdir", "/a/file.txt"]);
        }
        _ => panic!("expected a directory"),
    }
}

#[test]
fn shallow_nodes_have_no_grandchildren() {
    let root = dir(
        "a",
        "/a",
        vec![dir(
            "b",
            "/a/b",
            vec![text_file("c.txt", "/a/b/c.txt", "ccc")],
        )],
    );
    let t = build_file_tree_shallow(&root);
    match &t {
        ParsedPath::Directory { children, size, .. } => {
            assert_eq!(*size, 3);
            match &children[0] {
                ParsedPath::Directory { children, size, .. } => {
                    assert_eq!(*size, 3);
                    assert!(children.is_empty());
                }
                _ => panic!("expected a directory"),
            }
        }
        _ => panic!("expected a directory"),
    }
}

#[test]
fn create_shallow_node_uses_raw_sizes() {
    let f = binary_file("b.bin", "/r/b.bin", &[0x00, 0x01]);
    match create_shallow_node(&f) {
        ParsedPath::File { size, .. } => assert_eq!(size, 2),
        _ => panic!("expected a file"),
    }
}

#[test]
fn expand_folder_of_file_is_empty() {
    let f = text_file("a.txt", "/a.txt", "aa");
    assert!(expand_folder(&f).is_empty());
}

#[test]
fn expand_folder_lists_sorted_children() {
    let root = dir(
        "a",
        "/a",
        vec![
            text_file("z.txt", "/a/z.txt", "z"),
            dir("d", "/a/d", vec![text_file("x", "/a/d/x", "xx")]),
        ],
    );
    let children = expand_folder(&root);
    let order: Vec<&str> = children.iter().map(node_path).collect();
    assert_eq!(order, vec!["/a/d", "/a/z.txt"]);
    assert_eq!(node_size(&children[0]), 2);
}

#[test]
fn to_shallow_node_clears_children_and_keeps_size() {
    let node = ParsedPath::Directory {
        name: "d".to_string(),
        path: "/d".to_string(),
        size: 42,
        children: vec![ParsedPath::File {
            name: "f".to_string(),
            path: "/d/f".to_string(),
            size: 42,
        }],
    };
    match to_shallow_node(&node) {
        ParsedPath::Directory { size, children, path, .. } => {
            assert_eq!(size, 42);
            assert_eq!(path, "/d");
            assert!(children.is_empty());
        }
        _ => panic!("expected a directory"),
    }
}

fn sample_tree() -> Vec<ParsedPath> {
    vec![ParsedPath::Directory {
        name: "r".to_string(),
        path: "/r".to_string(),
        size: 10,
        children: vec![
            ParsedPath::Directory {
                name: "sub".to_string(),
                path: "/r/sub".to_string(),
                size: 4,
                children: vec![ParsedPath::File {
                    name: "c".to_string(),
                    path: "/r/sub/c".to_string(),
                    size: 4,
                }],
            },
            ParsedPath::File {
                name: "a".to_string(),
                path: "/r/a".to_string(),
                size: 6,
            },
        ],
    }]
}

#[test]
fn find_children_in_tree_finds_nested_directory() {
    let tree = sample_tree();
    let found = find_children_in_tree(&tree, "/r/sub").expect("should find /r/sub");
    assert_eq!(found.len(), 1);
    assert_eq!(node_path(&found[0]), "/r/sub/c");
}

#[test]
fn find_children_returns_shallow_copies() {
    let tree = sample_tree();
    let found = find_children_in_tree(&tree, "/r").unwrap();
    assert_eq!(found.len(), 2);
    match &found[0] {
        ParsedPath::Directory { children, size, .. } => {
            assert!(children.is_empty());
            assert_eq!(*size, 4);
        }
        _ => panic!("expected a directory"),
    }
}

#[test]
fn expand_missing_path_yields_empty_not_error() {
    let tree = sample_tree();
    assert!(expand_parsed_folder(&tree, "/nowhere").is_empty());
    assert!(find_children_in_tree(&tree, "/nowhere").is_none());
}

#[test]
fn expand_file_path_yields_empty() {
    let tree = sample_tree();
    // the path exists but names a file, so there is nothing to expand
    assert!(expand_parsed_folder(&tree, "/r/a").is_empty());
}

#[test]
fn preview_of_live_roots_builds_one_level_each() {
    let roots = vec![
        dir("b", "/b", vec![text_file("x.txt", "/b/x.txt", "xx")]),
        text_file("top.txt", "/top.txt", "top"),
    ];
    let preview = get_preview_tree(&roots);
    assert_eq!(preview.len(), 2);
    match &preview[0] {
        ParsedPath::Directory { size, children, .. } => {
            assert_eq!(*size, 2);
            assert_eq!(children.len(), 1);
            assert!(matches!(&children[0], ParsedPath::File { .. }));
        }
        _ => panic!("expected a directory"),
    }
    assert_eq!(node_size(&preview[1]), 3);
}

#[test]
fn preview_tree_reduces_roots_to_summaries() {
    let tree = sample_tree();
    let preview = get_parsed_preview_tree(&tree);
    assert_eq!(preview.len(), 1);
    match &preview[0] {
        ParsedPath::Directory { size, children, .. } => {
            assert_eq!(*size, 10);
            assert!(children.is_empty());
        }
        _ => panic!("expected a directory"),
    }
}
