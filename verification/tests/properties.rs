//! Scenario tests for the engine's documented properties: round trips,
//! atomicity of a failing push, the extension policies, batch length
//! checking, soft-delete recovery, and the codec helpers.

use json_tables::{
    build_directory, content_from_text, render_content, Directory, FileContent, FsNode,
    PathStatus, Table, TableError,
};

#[derive(Debug, Default, Clone, Copy, PartialEq)]
struct Point {
    x: i32,
}

/// One decodable `.json` file and one decodable `.txt` file.
fn two_ext_dir() -> Directory<Point> {
    let mut d = Directory::new();
    d.put_entry("a.json", FsNode::File(FileContent::Value(Point { x: 1 })));
    d.put_entry("b.txt", FsNode::File(FileContent::Value(Point { x: 2 })));
    d
}

#[test]
fn extension_policies_three_ways() {
    // lenient: the .txt file is skipped silently
    let t = Table::<Point>::builder("tests/ext").load(two_ext_dir()).unwrap();
    assert_eq!(t.len(), 1);
    // strict: the .txt file fails the whole load
    match Table::<Point>::builder("tests/ext")
        .set_read_non_json_is_error()
        .load(two_ext_dir())
    {
        Err(TableError::JsonError) => {}
        _ => panic!("expected an extension violation"),
    }
    // extension-blind: both files load, keyed by their base names
    let t = Table::<Point>::builder("tests/ext")
        .set_ignore_extensions()
        .load(two_ext_dir())
        .unwrap();
    assert_eq!(t.len(), 2);
    assert_eq!(t.get_element("a").unwrap().info, Point { x: 1 });
    assert_eq!(t.get_element("b").unwrap().info, Point { x: 2 });
}

#[test]
fn append_length_mismatch_leaves_no_file() {
    let mut t = Table::<Point>::builder("tests/batch").build(PathStatus::Vacant).unwrap();
    let names = vec!["k1".to_owned(), "k2".to_owned()];
    let values = [Point { x: 1 }];
    match t.append(&names, &values) {
        Err(TableError::AppendLengthError) => {}
        _ => panic!("expected a batch length mismatch"),
    }
    assert_eq!(t.len(), 0);
    assert!(!t.directory().contains_entry("k1.json"));
    assert!(!t.directory().contains_entry("k2.json"));
}

#[test]
fn manual_policy_round_trip() {
    // create at an empty directory with a manual write policy
    let mut t = Table::<Point>::builder("tests/scenario")
        .set_manual_write()
        .build(PathStatus::Vacant)
        .unwrap();
    t.push("a", Point { x: 1 }).unwrap();
    assert_eq!(t.len(), 1);
    assert!(t.is_modified());
    t.write_back().unwrap();
    assert!(!t.is_modified());
    let (dir, r) = t.close();
    assert!(r.is_ok());
    // reload as read-only: the record survived the trip
    let t = Table::<Point>::builder("tests/scenario").set_read_only().load(dir).unwrap();
    assert_eq!(t.len(), 1);
    assert_eq!(t.get_element("a").unwrap().info, Point { x: 1 });
}

#[test]
fn push_on_existing_key_is_atomic() {
    // a record whose backing file is not `<key>.json`: the push gets far
    // enough to create its own file and must clean it up again
    let mut d: Directory<Point> = Directory::new();
    d.put_entry("a.txt", FsNode::File(FileContent::Value(Point { x: 7 })));
    let mut t = Table::<Point>::builder("tests/atomic")
        .set_ignore_extensions()
        .load(d)
        .unwrap();
    assert_eq!(t.len(), 1);
    match t.push("a", Point { x: 8 }) {
        Err(TableError::PushError(k)) => assert_eq!(k, "a"),
        _ => panic!("expected a duplicate key error"),
    }
    // no orphan file, the old record intact
    assert!(!t.directory().contains_entry("a.json"));
    assert_eq!(t.len(), 1);
    assert_eq!(t.get_element("a").unwrap().info, Point { x: 7 });
}

#[test]
fn pop_missing_changes_nothing() {
    let mut t = Table::<Point>::builder("tests/missing").build(PathStatus::Vacant).unwrap();
    t.push("here", Point { x: 3 }).unwrap();
    t.write_back().unwrap();
    assert!(!t.is_modified());
    match t.pop("gone") {
        Err(TableError::PopError(k)) => assert_eq!(k, "gone"),
        _ => panic!("expected a missing key error"),
    }
    assert!(!t.is_modified());
    assert_eq!(t.len(), 1);
    assert!(t.directory().contains_entry("here.json"));
}

#[test]
fn soft_delete_preserves_content() {
    let mut t = Table::<Point>::builder("tests/soft").build(PathStatus::Vacant).unwrap();
    t.push("k", Point { x: 9 }).unwrap();
    t.write_back().unwrap();
    t.soft_pop("k", Some("alt")).unwrap();
    assert!(t.get_element("k").is_none());
    let (mut dir, r) = t.close();
    assert!(r.is_ok());
    assert!(dir.contains_entry("alt.json_soft_delete"));
    assert!(!dir.contains_entry("k.json"));
    // rename the soft-deleted copy back into the active namespace
    assert!(dir.rename_entry("alt.json_soft_delete", "alt.json"));
    let t = Table::<Point>::builder("tests/soft").load(dir).unwrap();
    assert_eq!(t.get_element("alt").unwrap().info, Point { x: 9 });
}

#[test]
fn soft_deleted_files_never_rescanned() {
    let mut d: Directory<Point> = Directory::new();
    d.put_entry("live.json", FsNode::File(FileContent::Value(Point { x: 1 })));
    d.put_entry("gone.json_soft_delete", FsNode::File(FileContent::Value(Point { x: 2 })));
    // even the extension-blind policy leaves soft-deleted files out
    let t = Table::<Point>::builder("tests/soft2")
        .set_ignore_extensions()
        .load(d)
        .unwrap();
    assert_eq!(t.len(), 1);
    assert!(t.get_element("gone").is_none());
}

#[test]
fn colliding_base_names_yield_one_record() {
    // two decodable files share the base name "a": exactly one record
    // results, backed by one of the two, and which one is unspecified
    let mut d: Directory<Point> = Directory::new();
    d.put_entry("a.json", FsNode::File(FileContent::Value(Point { x: 1 })));
    d.put_entry("a.txt", FsNode::File(FileContent::Value(Point { x: 2 })));
    let t = Table::<Point>::builder("tests/collide")
        .set_ignore_extensions()
        .load(d)
        .unwrap();
    assert_eq!(t.len(), 1);
    let x = t.get_element("a").unwrap().info.x;
    assert!(x == 1 || x == 2);
}

#[test]
fn dirty_flag_lifecycle() {
    let mut t = Table::<Point>::builder("tests/dirty").build(PathStatus::Vacant).unwrap();
    assert!(!t.is_modified());
    t.push("a", Point { x: 1 }).unwrap();
    assert!(t.is_modified());
    t.write_back().unwrap();
    assert!(!t.is_modified());
    // a mutable access counts as a change, even if nothing changed
    let mut v = Point { x: 1 };
    t.swap_element("a", &mut v);
    assert!(t.is_modified());
    t.write_back().unwrap();
    assert!(!t.is_modified());
    t.pop("a").unwrap();
    assert!(t.is_modified());
}

#[test]
fn rename_keeps_value_and_files() {
    let mut t = Table::<Point>::builder("tests/ren").build(PathStatus::Vacant).unwrap();
    t.push("old", Point { x: 4 }).unwrap();
    t.rename("old", "new").unwrap();
    assert!(t.get_element("old").is_none());
    assert_eq!(t.get_element("new").unwrap().info, Point { x: 4 });
    assert!(!t.directory().contains_entry("old.json"));
    assert!(t.directory().contains_entry("new.json"));
}

#[test]
fn rename_to_taken_key_loses_the_value() {
    let mut t = Table::<Point>::builder("tests/ren2").build(PathStatus::Vacant).unwrap();
    t.push("a", Point { x: 1 }).unwrap();
    t.push("b", Point { x: 2 }).unwrap();
    // the pop succeeds, the push fails: "a" is gone from both keys
    match t.rename("a", "b") {
        Err(TableError::FileOpError(_)) => {}
        _ => panic!("expected the push under the taken name to fail"),
    }
    assert!(t.get_element("a").is_none());
    assert_eq!(t.get_element("b").unwrap().info, Point { x: 2 });
}

#[test]
fn empty_key_round_trip() {
    // the empty key is allowed: its backing file is named ".json"
    let mut t = Table::<Point>::builder("tests/empty").build(PathStatus::Vacant).unwrap();
    t.push("", Point { x: 5 }).unwrap();
    assert!(t.directory().contains_entry(".json"));
    t.write_back().unwrap();
    let (dir, r) = t.close();
    assert!(r.is_ok());
    let t = Table::<Point>::builder("tests/empty").load(dir).unwrap();
    assert_eq!(t.get_element("").unwrap().info, Point { x: 5 });
}

#[test]
fn error_descriptions() {
    assert_eq!(
        TableError::PopError("0".to_owned()).describe(),
        "File 0.json doesn't exist in the table"
    );
    assert_eq!(
        TableError::PushError("a".to_owned()).describe(),
        "File a.json already exists in table and can't be pushed into the table"
    );
    assert_eq!(
        TableError::AppendLengthError.describe(),
        "Not equal lengths of file names and elements"
    );
    assert_eq!(TableError::JsonError.describe(), "Non Json file in Table");
    assert_eq!(
        TableError::NoWritePolicyError.describe(),
        "You are trying to modify a Table without permission to do so"
    );
    assert_eq!(
        TableError::SerdeError("bad.json".to_owned()).describe(),
        "File bad.json could not be decoded"
    );
    assert_eq!(
        TableError::FileOpError(json_tables::FileOpKind::AlreadyExists).describe(),
        "A file operation failed: the file already exists"
    );
    assert_eq!(
        json_tables::TableBuilderError::CreateWithoutWriteError.describe(),
        "Tried to create a table without write policy"
    );
    assert_eq!(
        json_tables::TableBuilderError::TableAlreadyExistsError.describe(),
        "The table already exists, try loading it instead"
    );
}

#[test]
fn codec_parses_and_renders() {
    // a decodable text becomes a value, and renders back to equal JSON
    let c = content_from_text("{\"x\": 1}".to_owned());
    match &c {
        FileContent::Value(v) => {
            assert_eq!(v["x"], serde_json::Value::from(1));
        }
        FileContent::Opaque(_) => panic!("the text is valid JSON"),
    }
    let text = render_content(&c);
    assert_eq!(text, "{\n  \"x\": 1\n}");
    match content_from_text(text) {
        FileContent::Value(v) => {
            let original: serde_json::Value = serde_json::from_str("{\"x\": 1}").unwrap();
            assert_eq!(v, original);
        }
        FileContent::Opaque(_) => panic!("the rendering must parse back"),
    }
    // an undecodable text is carried through untouched
    match content_from_text("not json at all".to_owned()) {
        FileContent::Opaque(s) => assert_eq!(s, "not json at all"),
        FileContent::Value(_) => panic!("the text is not JSON"),
    }
}

#[test]
fn codec_round_trips_floats() {
    // a float whose shortest decimal form needs exact parsing to survive
    let c = content_from_text("51.248178375505404".to_owned());
    match &c {
        FileContent::Value(v) => assert_eq!(v.as_f64().unwrap(), 51.248178375505404),
        FileContent::Opaque(_) => panic!("the text is valid JSON"),
    }
    let text = render_content(&c);
    match content_from_text(text) {
        FileContent::Value(v) => {
            let original: serde_json::Value = serde_json::from_str("51.248178375505404").unwrap();
            assert_eq!(v, original);
        }
        FileContent::Opaque(_) => panic!("the rendering must parse back"),
    }
}

#[test]
fn codec_depth_limit_turns_rendering_opaque() {
    // the renderer has no depth bound, but the parser refuses nesting
    // past its recursion limit: such a rendering comes back opaque,
    // which is why the codec's parse-back guarantee is conditional on
    // the text parsing at all
    let mut v = serde_json::Value::from(0);
    for _ in 0..200 {
        v = serde_json::Value::Array(vec![v]);
    }
    let text = render_content(&FileContent::Value(v));
    match content_from_text(text) {
        FileContent::Opaque(_) => {}
        FileContent::Value(_) => panic!("the parser's recursion limit rejects this text"),
    }
    // a shallow value still parses back to itself
    let c = content_from_text("[[1]]".to_owned());
    let text = render_content(&c);
    match content_from_text(text) {
        FileContent::Value(v) => {
            let original: serde_json::Value = serde_json::from_str("[[1]]").unwrap();
            assert_eq!(v, original);
        }
        FileContent::Opaque(_) => panic!("the rendering must parse back"),
    }
}

#[test]
fn real_json_table_from_listing() {
    let listing = vec![
        ("a.json".to_owned(), Some("{\"x\": 1}".to_owned())),
        ("b.json".to_owned(), Some("2".to_owned())),
        ("notes.txt".to_owned(), Some("remember the milk".to_owned())),
        ("nested".to_owned(), None),
    ];
    let dir = build_directory(listing);
    let mut t = Table::<serde_json::Value>::builder("tests/real").load(dir).unwrap();
    assert_eq!(t.len(), 2);
    assert_eq!(t.get_element("b").unwrap().info, serde_json::Value::from(2));
    t.push("c", serde_json::Value::from(true)).unwrap();
    t.write_back().unwrap();
    let (dir, r) = t.close();
    assert!(r.is_ok());
    // the pushed record's file renders to real JSON text
    match dir.get_entry("c.json").unwrap() {
        FsNode::File(content) => {
            assert_eq!(render_content(content), "true");
        }
        FsNode::Subdir => panic!("a backing file, not a directory"),
    }
    // and the untouched opaque file kept its text
    match dir.get_entry("notes.txt").unwrap() {
        FsNode::File(content) => {
            assert_eq!(render_content(content), "remember the milk");
        }
        FsNode::Subdir => panic!("a file, not a directory"),
    }
}
