use treedoc::capture::{capture, capture_tree, resolve, Probe};
use treedoc::error::Error;
use treedoc::fs_model::FsTree;
use treedoc::materialize::{materialize, plan};
use treedoc::value::TreeValue;

fn file(name: &str) -> FsTree {
    FsTree::File { name: name.to_string() }
}

fn dir(name: &str, entries: Vec<FsTree>) -> FsTree {
    FsTree::Dir { name: name.to_string(), entries }
}

fn scalar(s: &str) -> TreeValue {
    TreeValue::Scalar(s.to_string())
}

fn probe_file(name: &str) -> Probe {
    Probe::File { name: Some(name.to_string()) }
}

fn probe_dir(name: &str, entries: Vec<Probe>) -> Probe {
    Probe::Dir { name: Some(name.to_string()), entries: Some(entries) }
}

#[test]
fn capture_file_and_empty_dir() {
    // A path `proj/` holding the file `a.txt` and the empty directory `b/`.
    let probes = vec![probe_dir(
        "proj",
        vec![probe_file("a.txt"), probe_dir("b", vec![])],
    )];
    let value = capture(&probes).unwrap();
    let expected = TreeValue::Sequence(vec![TreeValue::Mapping(vec![(
        "proj/".to_string(),
        TreeValue::Sequence(vec![scalar("a.txt"), scalar("b/")]),
    )])]);
    assert_eq!(value, expected);
}

#[test]
fn capture_single_file_is_sequence() {
    let value = capture(&vec![probe_file("note.md")]).unwrap();
    assert_eq!(value, TreeValue::Sequence(vec![scalar("note.md")]));
}

#[test]
fn capture_missing_path_is_not_found() {
    let probes = vec![Probe::Missing { name: Some("ghost".to_string()) }];
    assert_eq!(capture(&probes), Err(Error::NotFound));
}

#[test]
fn capture_undecodable_name_is_invalid_path() {
    let probes = vec![Probe::File { name: None }];
    assert_eq!(capture(&probes), Err(Error::InvalidPath));
}

#[test]
fn capture_unreadable_dir_is_io_error() {
    let probes = vec![Probe::Dir { name: Some("locked".to_string()), entries: None }];
    assert_eq!(capture(&probes), Err(Error::IOError));
}

#[test]
fn capture_aborts_on_first_defect() {
    // The first path resolves; the second is missing: the whole capture fails.
    let probes = vec![
        probe_file("ok.txt"),
        Probe::Missing { name: Some("gone".to_string()) },
    ];
    assert_eq!(capture(&probes), Err(Error::NotFound));
}

#[test]
fn capture_checks_name_before_kind() {
    // A missing path whose name cannot even be read reports the name first.
    let probes = vec![Probe::Missing { name: None }];
    assert_eq!(capture(&probes), Err(Error::InvalidPath));
}

#[test]
fn capture_is_idempotent() {
    let probes = vec![probe_dir(
        "src",
        vec![probe_file("lib.rs"), probe_dir("sub", vec![probe_file("m.rs")])],
    )];
    let first = capture(&probes).unwrap();
    let second = capture(&probes).unwrap();
    assert_eq!(first, second);
}

#[test]
fn resolve_builds_the_tree_model() {
    let probe = probe_dir("root", vec![probe_file("x"), probe_dir("d", vec![])]);
    let tree = resolve(&probe).unwrap();
    assert_eq!(tree, dir("root", vec![file("x"), dir("d", vec![])]));
}

#[test]
fn capture_tree_marks_directories() {
    // Marker on every directory name, no marker on any file name.
    let t = dir("top", vec![file("plain"), dir("empty", vec![]), dir(
        "full",
        vec![file("inner")],
    )]);
    let value = capture_tree(&t);
    let expected = TreeValue::Mapping(vec![(
        "top/".to_string(),
        TreeValue::Sequence(vec![
            scalar("plain"),
            scalar("empty/"),
            TreeValue::Mapping(vec![(
                "full/".to_string(),
                TreeValue::Sequence(vec![scalar("inner")]),
            )]),
        ]),
    )]);
    assert_eq!(value, expected);
}

#[test]
fn materialize_files_and_directories() {
    // Sequence[ Scalar("x.txt"), Mapping{"y/": Sequence[Scalar("z.txt")]} ]
    // under root R creates R/x.txt, R/y/ and R/y/z.txt.
    let doc = TreeValue::Sequence(vec![
        scalar("x.txt"),
        TreeValue::Mapping(vec![(
            "y/".to_string(),
            TreeValue::Sequence(vec![scalar("z.txt")]),
        )]),
    ]);
    let mut root = dir("R", vec![]);
    assert_eq!(materialize(&doc, &mut root), Ok(()));
    assert_eq!(
        root,
        dir("R", vec![file("x.txt"), dir("y", vec![file("z.txt")])])
    );
}

#[test]
fn materialize_ignores_other_shapes() {
    // A bare number or boolean in the document creates nothing and is no error.
    let doc = TreeValue::Sequence(vec![TreeValue::Other, scalar("kept.txt"), TreeValue::Other]);
    let mut root = dir("R", vec![]);
    assert_eq!(materialize(&doc, &mut root), Ok(()));
    assert_eq!(root, dir("R", vec![file("kept.txt")]));
}

#[test]
fn materialize_conflict_fails_keeping_earlier_siblings() {
    // The root already holds `taken`; earlier-created siblings stay in place.
    let doc = TreeValue::Sequence(vec![scalar("early.txt"), scalar("taken"), scalar("late.txt")]);
    let mut root = dir("R", vec![file("taken")]);
    assert_eq!(materialize(&doc, &mut root), Err(Error::IOError));
    assert_eq!(root, dir("R", vec![file("taken"), file("early.txt")]));
}

#[test]
fn materialize_conflict_between_marker_kinds() {
    // A directory name conflicts with an existing file of the same bare name.
    let doc = TreeValue::Sequence(vec![scalar("x/")]);
    let mut root = dir("R", vec![file("x")]);
    assert_eq!(materialize(&doc, &mut root), Err(Error::IOError));
    assert_eq!(root, dir("R", vec![file("x")]));
}

#[test]
fn materialize_duplicate_names_in_document_fail() {
    let doc = TreeValue::Sequence(vec![scalar("twice"), scalar("twice")]);
    let mut root = dir("R", vec![]);
    assert_eq!(materialize(&doc, &mut root), Err(Error::IOError));
    assert_eq!(root, dir("R", vec![file("twice")]));
}

#[test]
fn materialize_under_unmarked_key_fails_like_a_file() {
    // A mapping key without the marker creates a file; filling it then fails,
    // and the file stays.
    let doc = TreeValue::Sequence(vec![TreeValue::Mapping(vec![(
        "y".to_string(),
        TreeValue::Sequence(vec![scalar("z.txt")]),
    )])]);
    let mut root = dir("R", vec![]);
    assert_eq!(materialize(&doc, &mut root), Err(Error::IOError));
    assert_eq!(root, dir("R", vec![file("y")]));
}

#[test]
fn materialize_rejects_unusable_names() {
    let doc = TreeValue::Sequence(vec![scalar("")]);
    let mut root = dir("R", vec![]);
    assert_eq!(materialize(&doc, &mut root), Err(Error::IOError));
    assert_eq!(root, dir("R", vec![]));
}

#[test]
fn round_trip_rebuilds_the_tree() {
    let original = vec![
        dir("proj", vec![file("a.txt"), dir("b", vec![]), dir(
            "c",
            vec![file("d.txt"), file("e.txt")],
        )]),
        file("top.txt"),
    ];
    let mut captured: Vec<TreeValue> = Vec::new();
    for t in &original {
        captured.push(capture_tree(t));
    }
    let doc = TreeValue::Sequence(captured);
    let mut root = dir("root", vec![]);
    assert_eq!(materialize(&doc, &mut root), Ok(()));
    assert_eq!(root, FsTree::Dir { name: "root".to_string(), entries: original });
}

#[test]
fn plan_lists_creations_in_order() {
    let doc = TreeValue::Sequence(vec![
        scalar("x.txt"),
        TreeValue::Mapping(vec![(
            "y/".to_string(),
            TreeValue::Sequence(vec![scalar("z.txt")]),
        )]),
    ]);
    let ops = plan(&doc);
    let got: Vec<(Vec<String>, bool)> = ops.into_iter().map(|o| (o.path, o.dir)).collect();
    assert_eq!(
        got,
        vec![
            (vec!["x.txt".to_string()], false),
            (vec!["y".to_string()], true),
            (vec!["y".to_string(), "z.txt".to_string()], false),
        ]
    );
}

#[test]
fn plan_marks_empty_directory() {
    let doc = TreeValue::Sequence(vec![scalar("b/")]);
    let ops = plan(&doc);
    assert_eq!(ops.len(), 1);
    assert_eq!(ops[0].path, vec!["b".to_string()]);
    assert!(ops[0].dir);
}

#[test]
fn plan_skips_other_shapes() {
    let doc = TreeValue::Sequence(vec![TreeValue::Other]);
    assert_eq!(plan(&doc).len(), 0);
}

#[test]
fn error_descriptions_are_stable() {
    assert_eq!(Error::InvalidPath.describe(), "invalid path name");
    assert_eq!(Error::NotFound.describe(), "not a file or directory");
    assert_eq!(Error::IOError.describe(), "input/output error");
    assert_eq!(Error::InvalidDocument.describe(), "invalid document");
}

#[test]
fn materialize_rejects_bare_separator() {
    let doc = TreeValue::Sequence(vec![scalar("/")]);
    let mut root = dir("R", vec![]);
    assert_eq!(materialize(&doc, &mut root), Err(Error::IOError));
    assert_eq!(root, dir("R", vec![]));
}

#[test]
fn materialize_rejects_dot_names() {
    let doc = TreeValue::Sequence(vec![scalar(".")]);
    let mut root = dir("R", vec![]);
    assert_eq!(materialize(&doc, &mut root), Err(Error::IOError));
    assert_eq!(root, dir("R", vec![]));
}

#[test]
fn materialize_into_a_file_fails() {
    let doc = TreeValue::Sequence(vec![scalar("x.txt")]);
    let mut root = file("plain");
    assert_eq!(materialize(&doc, &mut root), Err(Error::IOError));
    assert_eq!(root, file("plain"));
}

#[test]
fn materialize_empty_sequence_creates_nothing() {
    let doc = TreeValue::Sequence(vec![]);
    let mut root = dir("R", vec![]);
    assert_eq!(materialize(&doc, &mut root), Ok(()));
    assert_eq!(root, dir("R", vec![]));
}

#[test]
fn capture_reports_defect_deep_in_a_tree() {
    let probes = vec![probe_dir(
        "top",
        vec![probe_file("fine"), probe_dir("sub", vec![Probe::File { name: None }])],
    )];
    assert_eq!(capture(&probes), Err(Error::InvalidPath));
}

#[test]
fn capture_rejects_separator_in_a_name() {
    let probes = vec![probe_file("a/b")];
    assert_eq!(capture(&probes), Err(Error::InvalidPath));
}
