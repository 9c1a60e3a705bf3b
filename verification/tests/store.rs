use cas_tree::error::ApiError;
use cas_tree::model::{File, FileExtraMetadata, FileType};
use cas_tree::strmap::StrMap;
use cas_tree::text::{clone_texts, chain, contains_text, find_text, push_text, remove_text, same_text, text_is};
use cas_tree::tree::{Change, TreeStore};

fn file(id: &str, sha: &str, storage: &str, path: &str, refs: &[&str]) -> File {
    File {
        _id: id.to_string(),
        name: format!("{}.bin", id),
        type_: FileType::File,
        father: "root".to_string(),
        children: vec![],
        owner: "u1".to_string(),
        created_at: 1,
        updated_at: 1,
        size: 10,
        sha256: sha.to_string(),
        path: path.to_string(),
        storage_type: storage.to_string(),
        extra_metadata: FileExtraMetadata {
            detected_mime_type: None,
            thumbnail: None,
            file_references: refs.iter().map(|r| r.to_string()).collect(),
        },
    }
}

fn refs_of(store: &TreeStore, id: &str) -> Vec<String> {
    store.get(id).unwrap().extra_metadata.file_references.iter().map(|s| s.to_string()).collect()
}

#[test]
fn text_helpers() {
    assert!(text_is(&"ref".to_string(), "ref"));
    assert!(!text_is(&"ref".to_string(), "REF"));
    assert!(same_text("", ""));
    assert!(!same_text("a", "ab"));
    assert_eq!(chain("abc", "/def"), "abc/def");
    let v = vec!["a".to_string(), "b".to_string(), "a".to_string()];
    assert_eq!(clone_texts(&v), v);
    assert_eq!(find_text(&v, "a"), Some(0));
    assert_eq!(find_text(&v, "b"), Some(1));
    assert_eq!(find_text(&v, "c"), None);
    assert!(contains_text(&v, "b"));
    assert!(!contains_text(&v, ""));
    let mut w = clone_texts(&v);
    remove_text(&mut w, "a");
    assert_eq!(w, vec!["b".to_string(), "a".to_string()]);
    remove_text(&mut w, "zz");
    assert_eq!(w, vec!["b".to_string(), "a".to_string()]);
    push_text(&mut w, "c");
    assert_eq!(w, vec!["b".to_string(), "a".to_string(), "c".to_string()]);
}

#[test]
fn map_keeps_insertion_order_and_replaces() {
    let mut m: StrMap<u32> = StrMap::new();
    assert_eq!(m.len(), 0);
    m.insert("b".to_string(), 1);
    m.insert("a".to_string(), 2);
    m.insert("b".to_string(), 3);
    assert_eq!(m.len(), 2);
    assert_eq!(m.key_at(0), "b");
    assert_eq!(m.key_at(1), "a");
    assert_eq!(*m.value_at(0), 3);
    assert_eq!(m.get("b"), Some(&3));
    assert_eq!(m.get("a"), Some(&2));
    assert_eq!(m.get("c"), None);
    assert_eq!(m.position("a"), Some(1));
    assert!(m.contains_key("a"));
    assert!(!m.contains_key("A"));
}

#[test]
fn map_remove_hands_back_the_value() {
    let mut m: StrMap<u32> = StrMap::new();
    m.insert("x".to_string(), 1);
    m.insert("y".to_string(), 2);
    m.insert("z".to_string(), 3);
    assert_eq!(m.remove("y"), Some(2));
    assert_eq!(m.remove("y"), None);
    assert_eq!(m.len(), 2);
    assert_eq!(m.key_at(0), "x");
    assert_eq!(m.key_at(1), "z");
}

#[test]
fn store_put_get_remove() {
    let mut s = TreeStore::new();
    assert_eq!(s.len(), 0);
    s.put(file("a", "h1", "FLAT", "p/a", &[]));
    s.put(file("b", "h2", "FLAT", "p/b", &[]));
    assert_eq!(s.len(), 2);
    assert!(s.contains("a"));
    assert!(!s.contains("c"));
    assert_eq!(s.get("b").unwrap().sha256, "h2");
    assert_eq!(s.node_at(0)._id, "a");
    let mut changed = file("a", "h9", "FLAT", "p/a", &[]);
    changed.size = 99;
    s.put(changed);
    assert_eq!(s.len(), 2);
    assert_eq!(s.get("a").unwrap().size, 99);
    assert_eq!(s.node_at(0)._id, "a");
    let gone = s.remove("a").unwrap();
    assert_eq!(gone.sha256, "h9");
    assert!(s.remove("a").is_none());
    assert_eq!(s.len(), 1);
}

#[test]
fn journal_records_every_change_in_order() {
    let mut s = TreeStore::new();
    s.put(file("a", "h1", "FLAT", "p/a", &[]));
    s.put(file("b", "h2", "FLAT", "p/b", &[]));
    let _ = s.remove("a");
    let log = s.take_changes();
    assert_eq!(log.len(), 3);
    assert_eq!(log[0], Change::Put(file("a", "h1", "FLAT", "p/a", &[])));
    assert_eq!(log[1], Change::Put(file("b", "h2", "FLAT", "p/b", &[])));
    assert_eq!(log[2], Change::Remove("a".to_string()));
    assert!(s.take_changes().is_empty());
    assert!(s.contains("b"));
}

#[test]
fn holder_lookup_skips_references_and_folders() {
    let mut s = TreeStore::new();
    s.put(file("r", "h1", "ref", "m", &[]));
    let mut folder = file("d", "h1", "FLAT", "", &[]);
    folder.type_ = FileType::Folder;
    s.put(folder);
    assert!(s.find_existed_with_sha256("h1").is_none());
    s.put(file("m", "h1", "FLAT", "p/m", &["r"]));
    assert_eq!(s.find_existed_with_sha256("h1").unwrap()._id, "m");
    assert!(s.find_existed_with_sha256("h2").is_none());
    assert!(s.find_holder("h1", Some("m")).is_none());
    assert_eq!(s.find_holder("h1", Some("r")).unwrap()._id, "m");
}

#[test]
fn attach_appends_to_the_holder() {
    let mut s = TreeStore::new();
    s.put(file("m", "h1", "FLAT", "p/m", &[]));
    let candidate = file("c", "h1", "FLAT", "FLAT", &[]);
    let found = s.find_and_add_ref(&candidate).unwrap();
    assert_eq!(found._id, "m");
    assert!(found.extra_metadata.file_references.is_empty());
    assert_eq!(refs_of(&s, "m"), vec!["c".to_string()]);
    let other = file("o", "h2", "FLAT", "FLAT", &[]);
    assert!(s.find_and_add_ref(&other).is_none());
    assert_eq!(refs_of(&s, "m"), vec!["c".to_string()]);
    let itself = file("m", "h1", "FLAT", "p/m", &[]);
    assert!(s.find_and_add_ref(&itself).is_none());
}

#[test]
fn attach_n_then_detach_n_leaves_the_holder_as_it_was() {
    let mut s = TreeStore::new();
    s.put(file("m", "h1", "FLAT", "p/m", &[]));
    s.put(file("other", "h2", "FLAT", "p/other", &[]));
    let before_m = s.get("m").unwrap().duplicate();
    let before_other = s.get("other").unwrap().duplicate();
    let ids = ["a", "b", "c", "d", "e"];
    for id in ids {
        assert!(s.find_and_add_ref(&file(id, "h1", "FLAT", "FLAT", &[])).is_some());
    }
    assert_eq!(refs_of(&s, "m").len(), 5);
    for id in ids {
        assert_eq!(s.remove_ref(&file(id, "h1", "ref", "m", &[])), Ok(()));
    }
    assert_eq!(*s.get("m").unwrap(), before_m);
    assert_eq!(*s.get("other").unwrap(), before_other);
    assert_eq!(s.len(), 2);
}

#[test]
fn detach_twice_is_no_error() {
    let mut s = TreeStore::new();
    s.put(file("m", "h1", "FLAT", "p/m", &["a", "b"]));
    let a = file("a", "h1", "ref", "m", &[]);
    assert_eq!(s.remove_ref(&a), Ok(()));
    assert_eq!(refs_of(&s, "m"), vec!["b".to_string()]);
    assert_eq!(s.remove_ref(&a), Ok(()));
    assert_eq!(refs_of(&s, "m"), vec!["b".to_string()]);
}

#[test]
fn detach_from_a_missing_holder_is_a_broken_invariant() {
    let mut s = TreeStore::new();
    let a = file("a", "h1", "ref", "nowhere", &[]);
    assert_eq!(
        s.remove_ref(&a),
        Err(ApiError::InternalServerError(Some("Data integrity error".to_string())))
    );
    assert_eq!(s.len(), 0);
}

fn reassign_with(order: [&str; 3]) {
    let mut s = TreeStore::new();
    s.put(file("m", "h1", "FLAT", "blob/m", &order));
    for id in ["a", "b", "c"] {
        s.put(file(id, "h1", "ref", "m", &[]));
    }
    s.put(file("z", "h2", "FLAT", "blob/z", &[]));
    let old = s.get("m").unwrap().duplicate();
    let heir = s.change_mother(&old).unwrap().unwrap();
    assert_eq!(heir, order[2]);
    let promoted = s.get(&heir).unwrap();
    assert_eq!(promoted.storage_type, "FLAT");
    assert_eq!(promoted.path, "blob/m");
    assert_eq!(promoted.sha256, "h1");
    assert_eq!(
        promoted.extra_metadata.file_references,
        vec![order[0].to_string(), order[1].to_string()]
    );
    for other in [order[0], order[1]] {
        let node = s.get(other).unwrap();
        assert_eq!(node.storage_type, "ref");
        assert_eq!(node.path, heir);
    }
    assert!(s.get("m").unwrap().extra_metadata.file_references.is_empty());
    assert_eq!(*s.get("z").unwrap(), file("z", "h2", "FLAT", "blob/z", &[]));
    let holders = ["a", "b", "c"].iter().filter(|id| s.get(id).unwrap().storage_type != "ref").count();
    assert_eq!(holders, 1);
}

#[test]
fn reassign_promotes_exactly_one_reference_for_every_order() {
    reassign_with(["a", "b", "c"]);
    reassign_with(["a", "c", "b"]);
    reassign_with(["b", "a", "c"]);
    reassign_with(["b", "c", "a"]);
    reassign_with(["c", "a", "b"]);
    reassign_with(["c", "b", "a"]);
}

#[test]
fn reassign_without_references_changes_nothing() {
    let mut s = TreeStore::new();
    s.put(file("m", "h1", "FLAT", "blob/m", &[]));
    let old = s.get("m").unwrap().duplicate();
    assert_eq!(s.change_mother(&old), Ok(None));
    assert_eq!(*s.get("m").unwrap(), old);
}

#[test]
fn reassign_with_one_reference() {
    let mut s = TreeStore::new();
    s.put(file("m", "h1", "FLAT", "blob/m", &["a"]));
    s.put(file("a", "h1", "ref", "m", &[]));
    let old = s.get("m").unwrap().duplicate();
    assert_eq!(s.change_mother(&old), Ok(Some("a".to_string())));
    let a = s.get("a").unwrap();
    assert_eq!(a.path, "blob/m");
    assert!(a.extra_metadata.file_references.is_empty());
}

#[test]
fn reassign_with_a_missing_reference_changes_nothing() {
    let mut s = TreeStore::new();
    s.put(file("m", "h1", "FLAT", "blob/m", &["a", "ghost"]));
    s.put(file("a", "h1", "ref", "m", &[]));
    let old = s.get("m").unwrap().duplicate();
    assert!(!s.references_present(&old));
    assert_eq!(
        s.change_mother(&old),
        Err(ApiError::InternalServerError(Some("Data integrity error".to_string())))
    );
    assert_eq!(*s.get("m").unwrap(), old);
    assert_eq!(s.get("a").unwrap().path, "m");
}
