//! The engine exercised end to end over in-memory directory images: the
//! same flows the crate's users run, with the host filesystem replaced by
//! [`Directory`] values built in place.

use json_tables::{
    Directory, FileContent, FsNode, FileOpKind, PathStatus, Table, TableBuilderError, TableError,
};

#[derive(Debug, Default, Clone, PartialEq)]
struct ExampleStruct {
    int: i32,
    float: f64,
    array: [u32; 4],
    tuple: (i32, f64),
    string: String,
    vector: Vec<f64>,
}

#[derive(Debug, Default, Clone, Copy, PartialEq)]
struct SimplifiedStruct {
    int: i32,
    float: f64,
}

fn example(int: i32) -> ExampleStruct {
    ExampleStruct {
        int,
        ..Default::default()
    }
}

/// Five records keyed "0" to "4", each holding `int == key`.
fn normal_dir() -> Directory<ExampleStruct> {
    let mut d = Directory::new();
    for i in 0..5 {
        d.put_entry(
            &format!("{}.json", i),
            FsNode::File(FileContent::Value(example(i))),
        );
    }
    d
}

/// Five simplified records keyed "0" to "4".
fn simplified_dir() -> Directory<SimplifiedStruct> {
    let mut d = Directory::new();
    for i in 0..5 {
        d.put_entry(
            &format!("{}.json", i),
            FsNode::File(FileContent::Value(SimplifiedStruct {
                int: i,
                float: 0.0,
            })),
        );
    }
    d
}

/// A directory holding no json file at all: a source file and a nested
/// directory, as a project tree would.
fn no_json_dir() -> Directory<ExampleStruct> {
    let mut d = Directory::new();
    d.put_entry("tests.rs", FsNode::File(FileContent::Opaque("fn main() {}".to_owned())));
    d.put_entry("fixtures", FsNode::Subdir);
    d
}

/// Two json files that do not decode to `ExampleStruct`.
fn mixed_dir() -> Directory<ExampleStruct> {
    let mut d = Directory::new();
    d.put_entry(
        "one.json",
        FsNode::File(FileContent::Opaque("{\"int\": 1, \"float\": 0.5}".to_owned())),
    );
    d.put_entry(
        "two.json",
        FsNode::File(FileContent::Opaque("{\"int\": 2, \"float\": 1.5}".to_owned())),
    );
    d
}

#[test]
fn table_has_no_json_files() {
    let table = Table::<ExampleStruct>::builder("tests/").load(no_json_dir()).unwrap();
    assert_eq!(table.len(), 0)
}

#[test]
fn create_automatic_table() {
    let dir;
    {
        let mut table = Table::<ExampleStruct>::builder("tests/create_table")
            .build(PathStatus::Vacant)
            .unwrap();
        table.push("hola", ExampleStruct::default()).unwrap();
        // the table is closed here and auto-written
        let (d, r) = table.close();
        assert!(r.is_ok());
        dir = d;
    }
    assert_eq!(
        1,
        Table::<ExampleStruct>::builder("tests/create_table")
            .set_read_only()
            .load(dir)
            .unwrap()
            .len()
    );
}

#[test]
fn create_manual_table() {
    let dir;
    {
        let mut table = Table::<ExampleStruct>::builder("tests/create_table_2")
            .set_manual_write()
            .build(PathStatus::Vacant)
            .unwrap();
        table.push("hola", ExampleStruct::default()).unwrap();
        // closed without a write-back: the backing file stays empty
        let (d, r) = table.close();
        assert!(r.is_ok());
        dir = d;
    }
    assert_eq!(
        0,
        Table::<ExampleStruct>::builder("tests/create_table_2")
            .set_read_only()
            .set_ignore_de_errors()
            .load(dir)
            .unwrap()
            .len()
    );
    let dir2;
    {
        let mut table = Table::<ExampleStruct>::builder("tests/create_table_2")
            .set_manual_write()
            .build(PathStatus::Vacant)
            .unwrap();
        table.push("hola", ExampleStruct::default()).unwrap();
        table.write_back().unwrap();
        let (d, r) = table.close();
        assert!(r.is_ok());
        dir2 = d;
    }
    assert_eq!(
        1,
        Table::<ExampleStruct>::builder("tests/create_table_2")
            .set_read_only()
            .set_ignore_de_errors()
            .load(dir2)
            .unwrap()
            .len()
    );
}

#[test]
fn creation_errors() {
    match Table::<ExampleStruct>::builder("tests/create_table_3")
        .set_read_only()
        .build(PathStatus::Vacant)
    {
        Err(TableBuilderError::CreateWithoutWriteError) => assert!(true),
        _ => assert!(false),
    }
    match Table::<ExampleStruct>::builder("tests/nowrite/table")
        .build(PathStatus::Uncreatable(FileOpKind::PermissionDenied))
    {
        Err(TableBuilderError::DirCreateError(_)) => assert!(true),
        _ => assert!(false),
    }
    match Table::<ExampleStruct>::builder("tests/normal").build(PathStatus::Occupied) {
        Err(TableBuilderError::TableAlreadyExistsError) => assert!(true),
        _ => assert!(false),
    }
}

#[test]
fn load_with_all_perms() {
    let table = Table::<ExampleStruct>::builder("tests/normal")
        .set_auto_write()
        .load(normal_dir())
        .unwrap();
    assert_eq!(table.len(), 5);
    let table = Table::<ExampleStruct>::builder("tests/normal")
        .set_manual_write()
        .load(normal_dir())
        .unwrap();
    assert_eq!(table.len(), 5);
    let table = Table::<ExampleStruct>::builder("tests/normal")
        .set_read_only()
        .load(normal_dir())
        .unwrap();
    assert_eq!(table.len(), 5);
}

#[test]
fn load_with_non_json() {
    match Table::<ExampleStruct>::builder("tests/extension")
        .set_read_non_json_is_error()
        .load(no_json_dir())
    {
        Err(TableError::JsonError) => assert!(true),
        _ => assert!(false),
    };
    let table = Table::<ExampleStruct>::builder("tests/extension").load(no_json_dir()).unwrap();
    assert_eq!(table.len(), 0);
}

#[test]
fn load_dotted() {
    let mut d: Directory<ExampleStruct> = Directory::new();
    d.put_entry(
        "this.file.has.dots.json",
        FsNode::File(FileContent::Value(example(42))),
    );
    assert!(Table::<ExampleStruct>::builder("tests/dotted").load(d).is_ok())
}

#[test]
fn load_mixed_tables_json() {
    match Table::<ExampleStruct>::builder("tests/mixed").load(mixed_dir()) {
        Err(TableError::SerdeError(_)) => assert!(true),
        _ => assert!(false),
    };
    let table = Table::<ExampleStruct>::builder("tests/mixed")
        .set_ignore_de_errors()
        .load(mixed_dir())
        .unwrap();
    assert_eq!(table.len(), 0);
    // the same two files decode once the stored type matches them
    let mut d: Directory<SimplifiedStruct> = Directory::new();
    d.put_entry(
        "one.json",
        FsNode::File(FileContent::Value(SimplifiedStruct { int: 1, float: 0.5 })),
    );
    d.put_entry(
        "two.json",
        FsNode::File(FileContent::Value(SimplifiedStruct { int: 2, float: 1.5 })),
    );
    let table = Table::<SimplifiedStruct>::builder("tests/mixed").load(d).unwrap();
    assert_eq!(table.len(), 2);
}

#[test]
fn error_on_dir_in_json_only_table() {
    let mut d = normal_dir();
    d.put_entry("nested", FsNode::Subdir);
    match Table::<ExampleStruct>::builder("tests/only_json")
        .set_read_non_json_is_error()
        .load(d)
    {
        Err(TableError::JsonError) => assert!(true),
        _ => assert!(false),
    };
}

#[test]
fn keys() {
    let table = Table::<ExampleStruct>::builder("tests/normal").load(normal_dir()).unwrap();
    let mut a: Vec<i32> = (0..5).collect();
    assert!(table.get_table_keys().iter().all(|x| {
        let l = a.len();
        a = a.clone().into_iter().filter(|&y| y.to_string() != *x).collect();
        a.len() == l - 1
    }));
}

#[test]
fn values() {
    let table = Table::<ExampleStruct>::builder("tests/normal").load(normal_dir()).unwrap();
    let mut a: Vec<i32> = (0..5).collect();
    assert!(table.get_table_content().iter().all(|x| {
        let l = a.len();
        a = a.clone().into_iter().filter(|&y| y != x.info.int).collect();
        a.len() == l - 1
    }));
}

#[test]
fn iter() {
    let table = Table::<ExampleStruct>::builder("tests/normal").load(normal_dir()).unwrap();
    assert!(table
        .iter()
        .iter()
        .all(|(string, element)| { *string == element.info.int.to_string() }));
}

#[test]
fn element() {
    let table = Table::<ExampleStruct>::builder("tests/normal").load(normal_dir()).unwrap();
    assert_eq!(table.get_element("1").unwrap().info.int, 1);
    assert_eq!(table.get_element("1").unwrap().info.int, 1);
    assert!(table.get_element("100").is_none());
}

#[test]
fn is_empty() {
    let table = Table::<ExampleStruct>::builder("tests/normal").load(normal_dir()).unwrap();
    assert!(!table.is_empty());
    let table = Table::<ExampleStruct>::builder("tests/mixed")
        .set_ignore_de_errors()
        .load(mixed_dir())
        .unwrap();
    assert!(table.is_empty());
}

#[test]
fn values_mut() {
    let constant = 0.005;
    assert!(Table::<ExampleStruct>::builder("tests/normal_mut_1")
        .load(normal_dir())
        .unwrap()
        .get_table_content()
        .iter()
        .all(|x| x.info.float == 0.0));
    let mut table = Table::<ExampleStruct>::builder("tests/normal_mut_1")
        .set_manual_write()
        .load(normal_dir())
        .unwrap();
    for key in table.get_table_keys() {
        let mut v = table.get_element(&key).unwrap().info.clone();
        v.float = v.int as f64 * constant;
        table.swap_element(&key, &mut v);
    }
    assert!(table.is_modified());
    table.write_back().unwrap();
    assert!(!table.is_modified());
    let (dir, r) = table.close();
    assert!(r.is_ok());
    assert!(Table::<ExampleStruct>::builder("tests/normal_mut_1")
        .load(dir)
        .unwrap()
        .get_table_content()
        .iter()
        .all(|x| x.info.float == x.info.int as f64 * constant));
}

#[test]
fn element_mut() {
    let mut table = Table::<ExampleStruct>::builder("tests/normal_mut_2")
        .load(normal_dir())
        .unwrap();
    assert!(table.get_table_content().iter().all(|x| x.info.float == 0.0));
    assert!(!table.is_modified());
    let mut v = table.get_element("0").unwrap().info.clone();
    v.float = 1.0;
    table.swap_element("0", &mut v);
    assert!(table.is_modified());
    table.write_back().unwrap();
    assert!(!table.is_modified());
    let mut w = table.get_element("1").unwrap().info.clone();
    w.float = 0.05;
    table.swap_element("1", &mut w);
    assert!(table.is_modified());
    table.write_back().unwrap();
    let (dir, r) = table.close();
    assert!(r.is_ok());
    let table = Table::<ExampleStruct>::builder("tests/normal_mut_2").load(dir).unwrap();
    assert_eq!(table.get_element("0").unwrap().info.float, 1.0);
    assert_eq!(table.get_element("1").unwrap().info.float, 0.05);
}

#[test]
fn push_pop() {
    let mut table = Table::<ExampleStruct>::builder("tests/normal_mut_3")
        .load(normal_dir())
        .unwrap();
    assert_eq!(table.len(), 5);
    table.push("100", ExampleStruct::default()).unwrap();
    assert_eq!(table.len(), 6);
    assert!(table.is_modified());
    table.write_back().unwrap();
    assert!(!table.is_modified());
    table.pop("100").unwrap();
    assert!(table.is_modified());
    table.write_back().unwrap();
    assert!(!table.is_modified());
    assert_eq!(table.len(), 5);
}

#[test]
fn rename() {
    let dir;
    {
        let mut table = Table::<ExampleStruct>::builder("tests/normal_mut_5")
            .load(normal_dir())
            .unwrap();
        assert_eq!(table.len(), 5);
        assert_eq!(table.get_element("4").unwrap().info.int, 4);
        table.rename("4", "renamed").unwrap();
        assert_eq!(table.get_element("renamed").unwrap().info.int, 4);
        assert!(table.get_element("4").is_none());
        let (d, r) = table.close();
        assert!(r.is_ok());
        dir = d;
    }
    {
        let mut table = Table::<ExampleStruct>::builder("tests/normal_mut_5").load(dir).unwrap();
        assert_eq!(table.len(), 5);
        assert_eq!(table.get_element("renamed").unwrap().info.int, 4);
        table.rename("renamed", "4").unwrap();
        assert_eq!(table.get_element("4").unwrap().info.int, 4);
        assert!(table.get_element("renamed").is_none())
    }
}

#[test]
fn push_pop_error() {
    let mut table = Table::<ExampleStruct>::builder("tests/mixed_2")
        .load(normal_dir())
        .unwrap();
    match table.push("0", ExampleStruct::default()) {
        Err(TableError::FileOpError(_)) => assert!(true),
        _ => assert!(false),
    };
    match table.pop("100") {
        Err(TableError::PopError(string)) => assert_eq!(string, "100".to_string()),
        _ => assert!(false),
    }
}

#[test]
fn append_remove() {
    let (names, elements): (Vec<String>, Vec<SimplifiedStruct>) = (5..10)
        .map(|el| {
            (
                el.to_string(),
                SimplifiedStruct {
                    int: el,
                    float: el as f64 * 10e-1,
                },
            )
        })
        .unzip();
    let mut table = Table::<SimplifiedStruct>::builder("tests/simplified")
        .load(simplified_dir())
        .unwrap();

    table.append(names.as_slice(), &elements).unwrap();
    assert!(table.is_modified());
    table.write_back().unwrap();
    assert!(!table.is_modified());
    let (dir, r) = table.close();
    assert!(r.is_ok());
    let mut table = Table::<SimplifiedStruct>::builder("tests/simplified").load(dir).unwrap();
    assert_eq!(table.len(), 10);
    table.remove(names.as_slice()).unwrap();
    assert!(table.is_modified());
    table.write_back().unwrap();
    assert!(!table.is_modified());
}

#[test]
fn append_clone() {
    let (names, elements): (Vec<String>, Vec<ExampleStruct>) = (5..10)
        .map(|el| {
            (
                el.to_string(),
                ExampleStruct {
                    int: el,
                    float: el as f64 * 10e-1,
                    ..Default::default()
                },
            )
        })
        .unzip();
    let mut table = Table::<ExampleStruct>::builder("tests/normal_mut_4")
        .load(normal_dir())
        .unwrap();

    table.append_clone(names.as_slice(), &elements).unwrap();
    assert!(table.is_modified());
    table.write_back().unwrap();
    assert!(!table.is_modified());
    let (dir, r) = table.close();
    assert!(r.is_ok());
    let mut table = Table::<ExampleStruct>::builder("tests/normal_mut_4").load(dir).unwrap();
    assert_eq!(table.len(), 10);
    table.remove(names.as_slice()).unwrap();
    assert!(table.is_modified());
    table.write_back().unwrap();
    assert!(!table.is_modified());
}

#[test]
fn append_error() {
    let (mut names, elements): (Vec<String>, Vec<SimplifiedStruct>) = (5..10)
        .map(|el| {
            (
                el.to_string(),
                SimplifiedStruct {
                    int: el,
                    float: el as f64 * 10e-1,
                },
            )
        })
        .unzip();
    names.push("hola".into());
    let mut table = Table::<SimplifiedStruct>::builder("tests/simplified_1")
        .load(simplified_dir())
        .unwrap();
    match table.append(names.as_slice(), &elements) {
        Err(TableError::AppendLengthError) => assert!(true),
        _ => assert!(false),
    };
}

#[test]
fn no_write_perm_error() {
    let mut d: Directory<ExampleStruct> = Directory::new();
    d.put_entry(
        "this.file.has.dots.json",
        FsNode::File(FileContent::Value(example(0))),
    );
    let mut table = Table::<ExampleStruct>::builder("tests/dotted")
        .set_read_only()
        .load(d)
        .unwrap();
    let mut v = table.get_element("this.file.has.dots").unwrap().info.clone();
    v.int = 42;
    table.swap_element("this.file.has.dots", &mut v);
    match table.write_back() {
        Err(TableError::NoWritePolicyError) => assert!(true),
        e => {
            println!("{e:?}");
            assert!(false)
        },
    }
}

#[test]
fn soft_del() {
    let dir;
    {
        let mut table = Table::<SimplifiedStruct>::builder("tests/delete")
            .load(simplified_dir())
            .unwrap();
        assert_eq!(table.len(), 5);
        table.soft_pop("0", Some("0")).unwrap();
        assert!(table.is_modified());
        table.write_back().unwrap();
        assert!(!table.is_modified());
        let (d, r) = table.close();
        assert!(r.is_ok());
        dir = d;
    }
    let table = Table::<SimplifiedStruct>::builder("tests/delete").load(dir).unwrap();
    assert_eq!(table.len(), 4);
    let (mut dir, r) = table.close();
    assert!(r.is_ok());
    dir.rename_entry("0.json_soft_delete", "0.json");
    let table = Table::<SimplifiedStruct>::builder("tests/delete").load(dir).unwrap();
    assert_eq!(table.len(), 5);
}

#[test]
fn soft_del_err() {
    let mut table = Table::<SimplifiedStruct>::builder("tests/delete_2")
        .load(simplified_dir())
        .unwrap();
    assert_eq!(table.len(), 5);
    table.soft_pop("0", Some("0")).unwrap();
    assert!(table.is_modified());
    table.write_back().unwrap();
    assert!(!table.is_modified());
    match table.soft_pop("0", Some("0")) {
        Err(TableError::PopError(e)) => assert_eq!(e, "0"),
        _ => assert!(false),
    };
    match table.soft_pop("1", Some("0")) {
        Err(TableError::FileOpError(_)) => assert!(true),
        e => {
            println!("{e:?}");
            assert!(false)
        },
    };
}
