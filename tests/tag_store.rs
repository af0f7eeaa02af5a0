use std::collections::BTreeSet;
use std::io::ErrorKind;

use ftag::codec::{decode_tags, encode_tags, tags_from_entries};
use ftag::counts::count_tags;
use ftag::error::FtagError;
use ftag::listing::{find_matching, find_tags, get_global_tags, stale_paths, TableRow};
use ftag::store::{add_tags, get_file_tags, init_db, plan_row_write, remove_tags, RowWrite, StoredRow};
use ftag::tagset::{contains_tag, has_all, has_none, subtract_tags, tags_match, union_tags};

fn strs(v: &[&str]) -> Vec<String> {
    v.iter().map(|s| s.to_string()).collect()
}

fn set(v: &[String]) -> BTreeSet<String> {
    v.iter().cloned().collect()
}

fn set_of(v: &[&str]) -> BTreeSet<String> {
    v.iter().map(|s| s.to_string()).collect()
}

fn row(path: &str, tags: &[&str]) -> TableRow {
    TableRow { path: path.to_string(), tags: encode_tags(&strs(tags)) }
}

fn written_text(w: &RowWrite) -> String {
    match w {
        RowWrite::Insert { tags, .. } => tags.clone(),
        RowWrite::Update { tags, .. } => tags.clone(),
    }
}

#[test]
fn init_on_fresh_directory_then_again_fails() {
    assert!(init_db(false).is_ok());
    assert!(matches!(init_db(true), Err(FtagError::IoError(ErrorKind::AlreadyExists))));
}

#[test]
fn add_then_remove_leaves_blue() {
    let path = "/tmp/x.txt".to_string();
    let added = add_tags(&path, true, true, None, strs(&["red", "blue"])).unwrap();
    assert_eq!(set(&added.tags), set_of(&["red", "blue"]));
    let text = match &added.write {
        RowWrite::Insert { path: p, tags } => {
            assert_eq!(p, &path);
            tags.clone()
        }
        RowWrite::Update { .. } => panic!("a new path gets a new record"),
    };
    let stored = StoredRow { id: 1, tags: text };
    let removed = remove_tags(&path, true, true, Some(stored), strs(&["red"])).unwrap();
    assert_eq!(set(&removed.tags), set_of(&["blue"]));
    let text = match &removed.write {
        RowWrite::Update { id, tags } => {
            assert_eq!(*id, 1);
            tags.clone()
        }
        RowWrite::Insert { .. } => panic!("an existing record is updated"),
    };
    let now = get_file_tags(true, Some(text)).unwrap();
    assert_eq!(now, strs(&["blue"]));
}

#[test]
fn add_on_missing_path_fails_without_write() {
    let path = "/no/such/file".to_string();
    let r = add_tags(&path, false, true, None, strs(&["red"]));
    assert!(matches!(r, Err(FtagError::IoError(ErrorKind::NotFound))));
    let r = remove_tags(&path, false, true, None, strs(&["red"]));
    assert!(matches!(r, Err(FtagError::IoError(ErrorKind::NotFound))));
    assert!(matches!(get_file_tags(false, None), Err(FtagError::IoError(ErrorKind::NotFound))));
}

#[test]
fn add_twice_equals_add_once() {
    let path = "a.txt".to_string();
    let once = add_tags(&path, true, true, None, strs(&["x", "y", "x"])).unwrap();
    let stored = StoredRow { id: 7, tags: written_text(&once.write) };
    let twice = add_tags(&path, true, true, Some(stored), strs(&["x", "y", "x"])).unwrap();
    assert_eq!(set(&once.tags), set_of(&["x", "y"]));
    assert_eq!(set(&twice.tags), set(&once.tags));
    assert_eq!(twice.tags.len(), 2);
}

#[test]
fn adds_and_removes_give_union_less_removed() {
    let path = "f".to_string();
    let edits: Vec<(bool, Vec<String>)> = vec![
        (true, strs(&["a", "b"])),
        (false, strs(&["c"])),
        (true, strs(&["d"])),
        (false, strs(&["e", "b"])),
        (true, strs(&["a", "f"])),
    ];
    let mut stored: Option<StoredRow> = None;
    for (adding, tags) in edits {
        let u = if adding {
            add_tags(&path, true, true, stored, tags).unwrap()
        } else {
            remove_tags(&path, true, true, stored, tags).unwrap()
        };
        stored = Some(StoredRow { id: 3, tags: written_text(&u.write) });
    }
    let text = stored.unwrap().tags;
    let now = get_file_tags(true, Some(text)).unwrap();
    assert_eq!(set(&now), set_of(&["a", "d", "f"]));
}

#[test]
fn removing_from_untagged_path_writes_empty_record() {
    let path = "g".to_string();
    let u = remove_tags(&path, true, true, None, strs(&["zzz"])).unwrap();
    assert!(u.tags.is_empty());
    match u.write {
        RowWrite::Insert { path: p, tags } => {
            assert_eq!(p, "g");
            assert_eq!(tags, "{\"Tags\":[]}");
        }
        RowWrite::Update { .. } => panic!("no record existed"),
    }
}

#[test]
fn find_requires_all_and_excludes_any() {
    let rows = vec![
        row("/p1", &["a", "b"]),
        row("/p2", &["a", "b", "c"]),
        row("/p3", &["a"]),
        row("/p4", &["b", "a", "d"]),
        row("/p5", &[]),
    ];
    let found = find_tags(true, &strs(&["a", "b"]), &strs(&["c"]), &rows).unwrap();
    let paths: Vec<String> = found.iter().map(|f| f.0.clone()).collect();
    assert_eq!(paths, strs(&["/p1", "/p4"]));
    assert_eq!(set(&found[1].1), set_of(&["a", "b", "d"]));
}

#[test]
fn find_with_empty_lists_yields_every_row() {
    let rows = vec![row("/p1", &["a"]), row("/p2", &[])];
    let found = find_tags(true, &vec![], &vec![], &rows).unwrap();
    assert_eq!(found.len(), 2);
}

#[test]
fn find_matching_on_decoded_rows() {
    let rows = vec![
        ("/x".to_string(), strs(&["k", "m"])),
        ("/y".to_string(), strs(&["k"])),
        ("/z".to_string(), strs(&["m"])),
    ];
    let found = find_matching(&strs(&["k"]), &strs(&["m"]), &rows);
    assert_eq!(found, vec![("/y".to_string(), strs(&["k"]))]);
}

#[test]
fn find_without_database_fails() {
    let r = find_tags(false, &strs(&["a"]), &vec![], &vec![]);
    assert!(matches!(r, Err(FtagError::NoDatabaseError)));
}

#[test]
fn find_over_corrupt_record_fails() {
    let rows = vec![row("/p1", &["a"]), TableRow { path: "/p2".to_string(), tags: "not json".to_string() }];
    let r = find_tags(true, &strs(&["a"]), &vec![], &rows);
    assert!(matches!(r, Err(FtagError::JsonError(_))));
}

#[test]
fn tag_on_two_paths_counts_two() {
    let rows = vec![
        (row("/p1", &["t", "u"]), true),
        (row("/p2", &["t"]), true),
        (row("/p3", &["u"]), true),
    ];
    let g = get_global_tags(true, &rows).unwrap();
    let mut counts = g.counts.clone();
    counts.sort();
    assert_eq!(counts, vec![("t".to_string(), 2), ("u".to_string(), 2)]);
    assert!(g.stale.is_empty());
}

#[test]
fn deleted_file_is_pruned_from_global_listing() {
    let rows = vec![
        (row("/kept", &["shared"]), true),
        (row("/gone", &["shared", "only_gone"]), false),
        (TableRow { path: "/gone2".to_string(), tags: "corrupt".to_string() }, false),
    ];
    let g = get_global_tags(true, &rows).unwrap();
    assert_eq!(g.stale, strs(&["/gone", "/gone2"]));
    assert_eq!(g.counts, vec![("shared".to_string(), 1)]);
}

#[test]
fn global_listing_without_database_fails() {
    assert!(matches!(get_global_tags(false, &vec![]), Err(FtagError::NoDatabaseError)));
}

#[test]
fn global_listing_over_corrupt_live_record_fails() {
    let rows = vec![(TableRow { path: "/p".to_string(), tags: "{\"Tags\": 3}".to_string() }, true)];
    assert!(matches!(get_global_tags(true, &rows), Err(FtagError::JsonError(_))));
}

#[test]
fn stale_paths_keep_table_order() {
    let rows = vec![(row("/a", &[]), false), (row("/b", &[]), true), (row("/c", &[]), false)];
    assert_eq!(stale_paths(&rows), strs(&["/a", "/c"]));
}

#[test]
fn count_tags_on_lists() {
    let rows = vec![strs(&["a", "b"]), strs(&["b"]), strs(&[]), strs(&["b", "c"])];
    let mut counts = count_tags(&rows);
    counts.sort();
    assert_eq!(counts, vec![("a".to_string(), 1), ("b".to_string(), 3), ("c".to_string(), 1)]);
    assert!(count_tags(&vec![]).is_empty());
}

#[test]
fn encode_gives_tags_object() {
    assert_eq!(encode_tags(&strs(&["red", "blue"])), "{\"Tags\":[\"red\",\"blue\"]}");
    assert_eq!(encode_tags(&vec![]), "{\"Tags\":[]}");
}

#[test]
fn decode_reads_tags_object() {
    let tags = decode_tags("{\"Tags\": [\"b\", \"a\", \"b\"]}").unwrap();
    assert_eq!(set(&tags), set_of(&["a", "b"]));
    assert_eq!(tags.len(), 2);
    assert!(decode_tags("{\"Tags\": []}").unwrap().is_empty());
}

#[test]
fn decode_refuses_malformed_text() {
    assert!(matches!(decode_tags("{\"Other\": [\"a\"]}"), Err(FtagError::JsonError(_))));
    assert!(matches!(decode_tags("[1, 2]"), Err(FtagError::JsonError(_))));
    assert!(matches!(decode_tags(""), Err(FtagError::JsonError(_))));
}

#[test]
fn tags_from_entries_picks_tags_field() {
    let entries = vec![
        ("Other".to_string(), strs(&["x"])),
        ("Tags".to_string(), strs(&["q", "q", "r"])),
    ];
    let tags = tags_from_entries(&entries).unwrap();
    assert_eq!(tags, strs(&["q", "r"]));
    let missing = vec![("tags".to_string(), strs(&["x"]))];
    assert!(matches!(tags_from_entries(&missing), Err(FtagError::JsonError(_))));
}

#[test]
fn file_tags_of_untagged_path_are_empty() {
    assert!(get_file_tags(true, None).unwrap().is_empty());
}

#[test]
fn file_tags_of_corrupt_record_fail() {
    assert!(matches!(get_file_tags(true, Some("{".to_string())), Err(FtagError::JsonError(_))));
}

#[test]
fn add_without_database_fails() {
    let r = add_tags(&"p".to_string(), true, false, None, strs(&["a"]));
    assert!(matches!(r, Err(FtagError::NoDatabaseError)));
    let r = remove_tags(&"p".to_string(), true, false, None, strs(&["a"]));
    assert!(matches!(r, Err(FtagError::NoDatabaseError)));
}

#[test]
fn add_over_corrupt_record_fails() {
    let stored = StoredRow { id: 2, tags: "{\"Tags\": [1]}".to_string() };
    let r = add_tags(&"p".to_string(), true, true, Some(stored), strs(&["a"]));
    assert!(matches!(r, Err(FtagError::JsonError(_))));
}

#[test]
fn row_write_inserts_or_updates() {
    let path = "q".to_string();
    match plan_row_write(&path, true, None, "T".to_string()).unwrap() {
        RowWrite::Insert { path: p, tags } => {
            assert_eq!(p, "q");
            assert_eq!(tags, "T");
        }
        RowWrite::Update { .. } => panic!("expected an insert"),
    }
    match plan_row_write(&path, true, Some(9), "U".to_string()).unwrap() {
        RowWrite::Update { id, tags } => {
            assert_eq!(id, 9);
            assert_eq!(tags, "U");
        }
        RowWrite::Insert { .. } => panic!("expected an update"),
    }
    assert!(matches!(plan_row_write(&path, false, None, "T".to_string()), Err(FtagError::NoDatabaseError)));
}

#[test]
fn set_operations() {
    let base = strs(&["a", "b", "c"]);
    assert_eq!(union_tags(&base, &strs(&["c", "d", "d"])), strs(&["a", "b", "c", "d"]));
    assert_eq!(subtract_tags(&base, &strs(&["b", "z"])), strs(&["a", "c"]));
    assert!(contains_tag(&base, &"b".to_string()));
    assert!(!contains_tag(&base, &"B".to_string()));
    assert!(has_all(&base, &strs(&["c", "a"])));
    assert!(!has_all(&base, &strs(&["a", "e"])));
    assert!(has_none(&base, &strs(&["x"])));
    assert!(!has_none(&base, &strs(&["x", "c"])));
    assert!(tags_match(&strs(&["a"]), &strs(&["d"]), &base));
    assert!(!tags_match(&strs(&["a"]), &strs(&["c"]), &base));
}

#[test]
fn error_messages() {
    assert_eq!(FtagError::NoDatabaseError.to_string(), "Database error: Database not initialized");
    assert_eq!(FtagError::DatabaseError("locked".to_string()).to_string(), "Database Error: locked");
    assert_eq!(FtagError::JsonError("bad".to_string()).to_string(), "JSON Error: bad");
    assert_eq!(
        FtagError::IoError(ErrorKind::NotFound).to_string(),
        format!("IO Error: {}", ErrorKind::NotFound)
    );
}

#[test]
fn encoded_text_reads_back() {
    let tags = strs(&["quote\"d", "back\\slash", "ünï", ""]);
    let text = encode_tags(&tags);
    assert_eq!(set(&decode_tags(&text).unwrap()), set(&tags));
}

#[test]
fn removing_absent_tags_changes_nothing() {
    let path = "h".to_string();
    let added = add_tags(&path, true, true, None, strs(&["a", "b"])).unwrap();
    let stored = StoredRow { id: 4, tags: written_text(&added.write) };
    let removed = remove_tags(&path, true, true, Some(stored), strs(&["x", "y"])).unwrap();
    assert_eq!(set(&removed.tags), set_of(&["a", "b"]));
}
