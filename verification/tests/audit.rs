use cas_tree::api::MetaDataCreateRequest;
use cas_tree::audit::no_repeats;
use cas_tree::backend::{SaveResult, StorageFactory};
use cas_tree::engine::Engine;
use cas_tree::error::ApiError;
use cas_tree::model::{AuthenticatedUser, File, FileExtraMetadata, FileType};

fn user(id: &str) -> AuthenticatedUser {
    AuthenticatedUser {
        uuid: id.to_string(),
        username: id.to_string(),
        nickname: id.to_string(),
        token: None,
        root_id: "root".to_string(),
    }
}

fn factory() -> StorageFactory<u8> {
    let mut f: StorageFactory<u8> = StorageFactory::new("/srv/flat");
    f.register_backend("FLAT", 1);
    f
}

fn node(id: &str, kind: FileType, father: &str, children: &[&str]) -> File {
    File {
        _id: id.to_string(),
        name: id.to_string(),
        type_: kind,
        father: father.to_string(),
        children: children.iter().map(|c| c.to_string()).collect(),
        owner: "u1".to_string(),
        created_at: 1,
        updated_at: 1,
        size: 0,
        sha256: String::new(),
        path: String::new(),
        storage_type: "FLAT".to_string(),
        extra_metadata: FileExtraMetadata::empty(),
    }
}

fn file(id: &str, father: &str, sha: &str, storage: &str, path: &str, refs: &[&str]) -> File {
    let mut f = node(id, FileType::File, father, &[]);
    f.sha256 = sha.to_string();
    f.storage_type = storage.to_string();
    f.path = path.to_string();
    f.size = 5;
    f.extra_metadata.file_references = refs.iter().map(|r| r.to_string()).collect();
    f
}

fn good() -> Vec<File> {
    vec![
        node("root", FileType::Root, "root", &["a", "m"]),
        node("a", FileType::Folder, "root", &["r"]),
        file("m", "root", "h1", "FLAT", "/srv/flat/m", &["r"]),
        file("r", "a", "h1", "ref", "m", &[]),
    ]
}

fn refused(files: &Vec<File>) {
    match Engine::restore("root", files) {
        Err(e) => assert_eq!(e, ApiError::InternalServerError(Some("Data integrity error".to_string()))),
        Ok(_) => panic!("accepted"),
    }
}

#[test]
fn repeats_in_lists() {
    let list = |items: &[&str]| items.iter().map(|s| s.to_string()).collect::<Vec<String>>();
    assert!(no_repeats(&list(&[])));
    assert!(no_repeats(&list(&["a"])));
    assert!(no_repeats(&list(&["a", "b", "c"])));
    assert!(!no_repeats(&list(&["a", "b", "a"])));
    assert!(!no_repeats(&list(&["a", "a"])));
}

#[test]
fn sound_tree_is_restored_as_it_is() {
    let files = good();
    let e = Engine::restore("root", &files).unwrap();
    assert_eq!(e.root, "root");
    assert_eq!(e.tree.len(), 4);
    for f in &files {
        assert_eq!(e.tree.get(&f._id).unwrap(), f);
    }
    assert!(e.is_sound());
    assert_eq!(e.staging.len(), 0);
    assert_eq!(e.shares.len(), 0);
    let mut e = e;
    assert!(e.take_changes().is_empty());
}

#[test]
fn broken_trees_are_refused() {
    refused(&vec![]);
    let mut twice = good();
    twice.push(node("a", FileType::Folder, "root", &[]));
    refused(&twice);

    let mut no_root = good();
    no_root[0]._id = "top".to_string();
    refused(&no_root);

    let mut orphan = good();
    orphan[1].father = "nowhere".to_string();
    refused(&orphan);

    let mut unlisted = good();
    unlisted[0].children = vec!["m".to_string()];
    refused(&unlisted);

    let mut listed_twice = good();
    listed_twice[0].children = vec!["a".to_string(), "m".to_string(), "a".to_string()];
    refused(&listed_twice);

    let mut ghost_child = good();
    ghost_child[1].children.push("ghost".to_string());
    refused(&ghost_child);

    let mut under_file = good();
    under_file[3].father = "m".to_string();
    under_file[1].children.clear();
    under_file[2].children = vec!["r".to_string()];
    refused(&under_file);

    let mut second_root = good();
    second_root[1].type_ = FileType::Root;
    refused(&second_root);

    let mut own_parent = good();
    own_parent[1].father = "a".to_string();
    refused(&own_parent);
}

#[test]
fn broken_references_are_refused() {
    let mut dangling = good();
    dangling[3].path = "nowhere".to_string();
    refused(&dangling);

    let mut not_listed = good();
    not_listed[2].extra_metadata.file_references.clear();
    refused(&not_listed);

    let mut listed_but_plain = good();
    listed_but_plain[3].storage_type = "FLAT".to_string();
    listed_but_plain[3].sha256 = "h2".to_string();
    refused(&listed_but_plain);

    let mut other_hash = good();
    other_hash[3].sha256 = "h2".to_string();
    refused(&other_hash);

    let mut other_size = good();
    other_size[3].size = 6;
    refused(&other_size);

    let mut chain = good();
    chain[2].storage_type = "ref".to_string();
    chain[2].path = "r".to_string();
    refused(&chain);

    let mut folder_with_refs = good();
    folder_with_refs[1].extra_metadata.file_references = vec!["r".to_string()];
    refused(&folder_with_refs);
}

#[test]
fn two_holders_of_one_hash_are_refused() {
    let mut files = good();
    files.push(file("n", "root", "h1", "FLAT", "/srv/flat/n", &[]));
    files[0].children.push("n".to_string());
    refused(&files);
    files[4].sha256 = "h2".to_string();
    assert!(Engine::restore("root", &files).is_ok());
}

#[test]
fn cycles_are_refused() {
    let files = vec![
        node("root", FileType::Root, "root", &[]),
        node("a", FileType::Folder, "b", &["b"]),
        node("b", FileType::Folder, "a", &["a"]),
    ];
    refused(&files);
}

#[test]
fn every_operation_leaves_a_sound_tree() {
    let mut e = Engine::new("root", 1);
    assert!(e.is_sound());
    let f = factory();
    let mut step = 0;
    let mut check = |e: &Engine| {
        step += 1;
        assert!(e.is_sound(), "after step {}", step);
    };
    for (id, father) in [("a", "root"), ("b", "a"), ("c", "b"), ("d", "root")] {
        let req = MetaDataCreateRequest {
            name: id.to_string(),
            type_: FileType::Folder,
            father: father.to_string(),
            size: 0,
            sha256: String::new(),
            storage_type: "FLAT".to_string(),
        };
        assert!(e.add_metadata_at(&req, &user("u1"), &f, id.to_string(), 5).is_ok());
        check(&e);
    }
    for (id, father, sha) in [("f1", "a", "h1"), ("f2", "b", "h1"), ("f3", "c", "h1"), ("f4", "d", "h2")] {
        let req = MetaDataCreateRequest {
            name: id.to_string(),
            type_: FileType::File,
            father: father.to_string(),
            size: 1,
            sha256: sha.to_string(),
            storage_type: "FLAT".to_string(),
        };
        let status = e.add_metadata_at(&req, &user("u1"), &f, id.to_string(), 6).unwrap().status;
        check(&e);
        if status == "success" {
            let saved = SaveResult { size: 1, _path: format!("/srv/flat/{}", id), sha256: sha.to_string() };
            assert!(e.commit_upload(id, &user("u1"), &saved, 7).is_ok());
            check(&e);
        }
    }
    let mut moved = e.tree.get("b").unwrap().duplicate();
    moved.father = "d".to_string();
    assert_eq!(e.update_metadata_at("b", &moved, &user("u1"), 8), Ok(()));
    check(&e);
    let mut bad = e.tree.get("b").unwrap().duplicate();
    bad.father = "c".to_string();
    assert!(e.update_metadata_at("b", &bad, &user("u1"), 8).is_err());
    check(&e);
    let saved = SaveResult { size: 2, _path: "/srv/flat/f1.2".to_string(), sha256: "h3".to_string() };
    assert!(e.commit_update("f1", &user("u1"), "h3", Some(&saved), 9).is_ok());
    check(&e);
    assert!(e.commit_update("f4", &user("u1"), "h1", None, 10).is_ok());
    check(&e);
    assert!(e.commit_update("f2", &user("u1"), "h3", None, 11).is_ok());
    check(&e);
    for id in ["f3", "f1", "f2", "f4", "c", "b", "d", "a"] {
        assert!(e.delete_metadata_at(id, &user("u1"), 12).is_ok(), "{}", id);
        check(&e);
    }
    assert_eq!(e.tree.len(), 1);
    let log = e.take_changes();
    assert!(!log.is_empty());
    let files: Vec<File> = vec![e.tree.get("root").unwrap().duplicate()];
    assert!(Engine::restore("root", &files).is_ok());
}
