use cas_tree::api::{MetaDataCreateRequest, MetaDataCreateResponse};
use cas_tree::backend::StorageFactory;
use cas_tree::engine::Engine;
use cas_tree::error::ApiError;
use cas_tree::listing::{check_file_permission, Response};
use cas_tree::model::{AuthenticatedUser, File, FileType};
use cas_tree::tree::Change;

fn user(id: &str) -> AuthenticatedUser {
    AuthenticatedUser {
        uuid: id.to_string(),
        username: format!("{}-name", id),
        nickname: format!("{}-nick", id),
        token: None,
        root_id: "root".to_string(),
    }
}

fn factory() -> StorageFactory<u8> {
    let mut f: StorageFactory<u8> = StorageFactory::new("/srv/flat");
    f.register_backend("FLAT", 1);
    f
}

fn request(name: &str, kind: FileType, father: &str, size: u64, sha: &str) -> MetaDataCreateRequest {
    MetaDataCreateRequest {
        name: name.to_string(),
        type_: kind,
        father: father.to_string(),
        size,
        sha256: sha.to_string(),
        storage_type: "FLAT".to_string(),
    }
}

fn err(e: ApiError) -> String {
    format!("{:?}", e)
}

fn folder(e: &mut Engine, id: &str, father: &str, owner: &str) {
    let r = e.add_metadata_at(
        &request(id, FileType::Folder, father, 0, ""),
        &user(owner),
        &factory(),
        id.to_string(),
        100,
    );
    assert_eq!(r, Ok(MetaDataCreateResponse { id: id.to_string(), status: "success".to_string() }));
}

fn stored_file(e: &mut Engine, id: &str, father: &str, owner: &str, sha: &str) {
    let r = e.add_metadata_at(
        &request(id, FileType::File, father, 3, sha),
        &user(owner),
        &factory(),
        id.to_string(),
        100,
    );
    let status = r.unwrap().status;
    if status == "success" {
        let saved = cas_tree::backend::SaveResult {
            size: 3,
            _path: format!("/srv/flat/{}", id),
            sha256: sha.to_string(),
        };
        assert_eq!(e.commit_upload(id, &user(owner), &saved, 101), Ok(None));
    }
}

fn node(e: &Engine, id: &str) -> File {
    e.tree.get(id).unwrap().duplicate()
}

fn holders_with(e: &Engine, sha: &str) -> usize {
    let mut n = 0;
    for i in 0..e.tree.len() {
        let f = e.tree.node_at(i);
        if f.type_ == FileType::File && f.storage_type != "ref" && f.sha256 == sha {
            n += 1;
        }
    }
    n
}

#[test]
fn new_engine_holds_the_root_alone() {
    let e = Engine::new("root", 7);
    assert_eq!(e.tree.len(), 1);
    let root = node(&e, "root");
    assert_eq!(root.type_, FileType::Root);
    assert_eq!(root.father, "root");
    assert_eq!(root.name, "root");
    assert_eq!(root.owner, "root");
    assert_eq!(root.created_at, 7);
    assert_eq!(root.updated_at, 7);
    assert_eq!(root.storage_type, "FLAT");
    assert_eq!(root.path, "root");
    assert!(root.children.is_empty());
    assert_eq!(e.staging.len(), 0);
    assert_eq!(e.shares.len(), 0);
}

#[test]
fn folder_is_committed_at_once() {
    let mut e = Engine::new("root", 1);
    folder(&mut e, "docs", "root", "u1");
    let docs = node(&e, "docs");
    assert_eq!(docs.type_, FileType::Folder);
    assert_eq!(docs.father, "root");
    assert_eq!(docs.owner, "u1");
    assert_eq!(docs.created_at, 100);
    assert_eq!(docs.updated_at, 100);
    assert_eq!(docs.size, 0);
    assert_eq!(docs.sha256, "");
    assert_eq!(docs.storage_type, "FLAT");
    assert_eq!(node(&e, "root").children, vec!["docs".to_string()]);
    assert_eq!(node(&e, "root").updated_at, 1);
    assert_eq!(e.staging.len(), 0);
}

#[test]
fn file_without_holder_is_staged_for_a_day() {
    let mut e = Engine::new("root", 1);
    let r = e.add_metadata_at(
        &request("a.txt", FileType::File, "root", 3, "h1"),
        &user("u1"),
        &factory(),
        "f1".to_string(),
        1000,
    );
    assert_eq!(r, Ok(MetaDataCreateResponse { id: "f1".to_string(), status: "success".to_string() }));
    assert!(!e.tree.contains("f1"));
    assert!(node(&e, "root").children.is_empty());
    let pending = e.staging.get("f1").unwrap();
    assert_eq!(pending.expires_at, 1000 + 86400);
    assert_eq!(pending.file.name, "a.txt");
    assert_eq!(pending.file.size, 3);
    assert_eq!(pending.file.sha256, "h1");
    assert_eq!(pending.file.owner, "u1");
    assert_eq!(pending.file.father, "root");
    assert_eq!(pending.file.storage_type, "FLAT");
}

#[test]
fn file_with_holder_becomes_a_reference() {
    let mut e = Engine::new("root", 1);
    stored_file(&mut e, "f1", "root", "u1", "h1");
    let r = e.add_metadata_at(
        &request("copy.txt", FileType::File, "root", 999, "h1"),
        &user("u2"),
        &factory(),
        "f2".to_string(),
        200,
    );
    assert_eq!(r, Ok(MetaDataCreateResponse { id: "f2".to_string(), status: "ref".to_string() }));
    let copy = node(&e, "f2");
    assert_eq!(copy.storage_type, "ref");
    assert_eq!(copy.path, "f1");
    assert_eq!(copy.size, 3);
    assert_eq!(copy.sha256, "h1");
    assert_eq!(copy.owner, "u2");
    assert_eq!(node(&e, "f1").extra_metadata.file_references, vec!["f2".to_string()]);
    assert_eq!(node(&e, "root").children, vec!["f1".to_string(), "f2".to_string()]);
    assert_eq!(e.staging.len(), 0);
    assert_eq!(holders_with(&e, "h1"), 1);
}

#[test]
fn registration_errors_in_their_order() {
    let mut e = Engine::new("root", 1);
    stored_file(&mut e, "f1", "root", "u1", "h1");
    let before = e.tree.len();
    let mut bad = request("x", FileType::Folder, "nowhere", 0, "");
    bad.storage_type = "S3".to_string();
    let r = e.add_metadata_at(&bad, &user("u1"), &factory(), "n1".to_string(), 5);
    assert_eq!(r, Err(ApiError::BadRequest(Some("Storage backend not found".to_string()))));
    bad.storage_type = "ref".to_string();
    let mut with_ref = factory();
    with_ref.register_backend("ref", 2);
    let r = e.add_metadata_at(&bad, &user("u1"), &with_ref, "n1".to_string(), 5);
    assert_eq!(r, Err(ApiError::BadRequest(Some("Storage backend not found".to_string()))));
    let r = e.add_metadata_at(
        &request("x", FileType::Root, "nowhere", 0, ""),
        &user("u1"),
        &factory(),
        "n1".to_string(),
        5,
    );
    assert_eq!(r, Err(ApiError::NotFound(Some("Father folder not found".to_string()))));
    let r = e.add_metadata_at(
        &request("x", FileType::Root, "f1", 0, ""),
        &user("u1"),
        &factory(),
        "n1".to_string(),
        5,
    );
    assert_eq!(r, Err(ApiError::BadRequest(Some("Father is not a folder".to_string()))));
    let r = e.add_metadata_at(
        &request("x", FileType::Root, "root", 0, ""),
        &user("u1"),
        &factory(),
        "f1".to_string(),
        5,
    );
    assert_eq!(r, Err(ApiError::Forbidden(Some("Permission denied".to_string()))));
    let r = e.add_metadata_at(
        &request("x", FileType::Folder, "root", 0, ""),
        &user("u1"),
        &factory(),
        "f1".to_string(),
        5,
    );
    assert_eq!(r, Err(ApiError::InternalServerError(Some("Database error".to_string()))));
    assert_eq!(e.tree.len(), before);
    assert_eq!(e.staging.len(), 0);
}

#[test]
fn staged_identifier_cannot_be_registered_again() {
    let mut e = Engine::new("root", 1);
    let req = request("a", FileType::File, "root", 1, "h1");
    assert!(e.add_metadata_at(&req, &user("u1"), &factory(), "f1".to_string(), 5).is_ok());
    let r = e.add_metadata_at(&req, &user("u1"), &factory(), "f1".to_string(), 6);
    assert_eq!(r, Err(ApiError::InternalServerError(Some("Database error".to_string()))));
    assert_eq!(e.staging.get("f1").unwrap().expires_at, 5 + 86400);
}

#[test]
fn rename_changes_name_and_stamp_only() {
    let mut e = Engine::new("root", 1);
    folder(&mut e, "docs", "root", "u1");
    let mut wanted = node(&e, "docs");
    wanted.name = "papers".to_string();
    wanted.children = vec!["bogus".to_string()];
    wanted.updated_at = 5;
    assert_eq!(e.update_metadata_at("docs", &wanted, &user("u1"), 300), Ok(()));
    let docs = node(&e, "docs");
    assert_eq!(docs.name, "papers");
    assert_eq!(docs.updated_at, 300);
    assert_eq!(docs.created_at, 100);
    assert!(docs.children.is_empty());
    assert_eq!(node(&e, "root").children, vec!["docs".to_string()]);
    assert_eq!(node(&e, "root").updated_at, 1);
}

#[test]
fn move_updates_both_parents() {
    let mut e = Engine::new("root", 1);
    folder(&mut e, "a", "root", "u1");
    folder(&mut e, "b", "root", "u1");
    folder(&mut e, "c", "a", "u1");
    let mut wanted = node(&e, "c");
    wanted.father = "b".to_string();
    assert_eq!(e.update_metadata_at("c", &wanted, &user("u1"), 300), Ok(()));
    assert_eq!(node(&e, "c").father, "b");
    assert_eq!(node(&e, "c").updated_at, 300);
    assert!(node(&e, "a").children.is_empty());
    assert_eq!(node(&e, "a").updated_at, 300);
    assert_eq!(node(&e, "b").children, vec!["c".to_string()]);
    assert_eq!(node(&e, "b").updated_at, 300);
    assert_eq!(node(&e, "root").children, vec!["a".to_string(), "b".to_string()]);
}

#[test]
fn moving_a_folder_under_its_own_descendant_is_rejected() {
    let mut e = Engine::new("root", 1);
    folder(&mut e, "a", "root", "u1");
    folder(&mut e, "b", "a", "u1");
    folder(&mut e, "c", "b", "u1");
    let snapshot: Vec<File> = ["root", "a", "b", "c"].iter().map(|id| node(&e, id)).collect();
    for target in ["a", "b", "c"] {
        let mut wanted = node(&e, "a");
        wanted.father = target.to_string();
        assert_eq!(
            e.update_metadata_at("a", &wanted, &user("u1"), 300),
            Err(ApiError::BadRequest(Some("Cannot move a folder into itself".to_string()))),
            "{}",
            target
        );
    }
    let after: Vec<File> = ["root", "a", "b", "c"].iter().map(|id| node(&e, id)).collect();
    assert_eq!(snapshot, after);
    assert!(e.is_under("c", "a"));
    assert!(e.is_under("c", "root"));
    assert!(e.is_under("c", "c"));
    assert!(!e.is_under("a", "c"));
    let mut wanted = node(&e, "c");
    wanted.father = "a".to_string();
    assert_eq!(e.update_metadata_at("c", &wanted, &user("u1"), 300), Ok(()));
}

#[test]
fn update_errors_in_their_order() {
    let mut e = Engine::new("root", 1);
    folder(&mut e, "a", "root", "u1");
    stored_file(&mut e, "f", "root", "u1", "h1");
    let wanted = node(&e, "a");
    assert_eq!(
        e.update_metadata_at("zz", &wanted, &user("u1"), 9),
        Err(ApiError::NotFound(Some("File not found".to_string())))
    );
    for field in 0..6 {
        let mut w = node(&e, "a");
        match field {
            0 => w.sha256 = "x".to_string(),
            1 => w.size = 1,
            2 => w.type_ = FileType::File,
            3 => w.path = "elsewhere".to_string(),
            4 => w.owner = "u2".to_string(),
            _ => w.created_at = 0,
        }
        assert_eq!(
            e.update_metadata_at("a", &w, &user("u2"), 9),
            Err(ApiError::BadRequest(Some("Only father and name can be updated".to_string()))),
            "{}",
            field
        );
    }
    assert_eq!(
        e.update_metadata_at("a", &wanted, &user("u2"), 9),
        Err(ApiError::Forbidden(Some("Permission denied".to_string())))
    );
    let mut w = node(&e, "a");
    w.father = "nowhere".to_string();
    assert_eq!(
        e.update_metadata_at("a", &w, &user("u1"), 9),
        Err(ApiError::NotFound(Some("New father folder not found".to_string())))
    );
    w.father = "f".to_string();
    assert_eq!(
        e.update_metadata_at("a", &w, &user("u1"), 9),
        Err(ApiError::BadRequest(Some("New father is not a folder".to_string())))
    );
    let mut r = node(&e, "root");
    r.father = "a".to_string();
    assert_eq!(
        e.update_metadata_at("root", &r, &user("root"), 9),
        Err(ApiError::BadRequest(Some("Root cannot be moved".to_string())))
    );
    r.father = "root".to_string();
    r.name = "top".to_string();
    assert_eq!(e.update_metadata_at("root", &r, &user("root"), 9), Ok(()));
    assert_eq!(node(&e, "root").name, "top");
}

#[test]
fn deleting_a_plain_file_hands_out_its_bytes() {
    let mut e = Engine::new("root", 1);
    stored_file(&mut e, "f", "root", "u1", "h1");
    let before = node(&e, "f");
    assert_eq!(e.delete_metadata_at("f", &user("u1"), 500), Ok(Some(before)));
    assert!(!e.tree.contains("f"));
    assert!(node(&e, "root").children.is_empty());
    assert_eq!(
        e.delete_metadata_at("f", &user("u1"), 500),
        Err(ApiError::NotFound(Some("File not found".to_string())))
    );
}

#[test]
fn deleting_a_holder_with_references_keeps_the_bytes() {
    let mut e = Engine::new("root", 1);
    stored_file(&mut e, "m", "root", "u1", "h1");
    stored_file(&mut e, "a", "root", "u1", "h1");
    stored_file(&mut e, "b", "root", "u1", "h1");
    assert_eq!(node(&e, "m").extra_metadata.file_references, vec!["a".to_string(), "b".to_string()]);
    assert_eq!(e.delete_metadata_at("m", &user("u1"), 500), Ok(None));
    assert!(!e.tree.contains("m"));
    let heir = node(&e, "b");
    assert_eq!(heir.storage_type, "FLAT");
    assert_eq!(heir.path, "/srv/flat/m");
    assert_eq!(heir.extra_metadata.file_references, vec!["a".to_string()]);
    assert_eq!(node(&e, "a").path, "b");
    assert_eq!(holders_with(&e, "h1"), 1);
    assert_eq!(e.delete_metadata_at("a", &user("u1"), 501), Ok(None));
    assert!(node(&e, "b").extra_metadata.file_references.is_empty());
    let last = node(&e, "b");
    assert_eq!(e.delete_metadata_at("b", &user("u1"), 502), Ok(Some(last)));
    assert_eq!(holders_with(&e, "h1"), 0);
    assert_eq!(e.tree.len(), 1);
}

#[test]
fn deleting_a_reference_detaches_it() {
    let mut e = Engine::new("root", 1);
    stored_file(&mut e, "m", "root", "u1", "h1");
    stored_file(&mut e, "a", "root", "u2", "h1");
    assert_eq!(e.delete_metadata_at("a", &user("u2"), 500), Ok(None));
    assert!(node(&e, "m").extra_metadata.file_references.is_empty());
    assert_eq!(node(&e, "root").children, vec!["m".to_string()]);
}

#[test]
fn delete_errors() {
    let mut e = Engine::new("root", 1);
    folder(&mut e, "a", "root", "u1");
    folder(&mut e, "b", "a", "u1");
    assert_eq!(
        e.delete_metadata_at("a", &user("u2"), 9),
        Err(ApiError::Forbidden(Some("Permission denied".to_string())))
    );
    assert_eq!(
        e.delete_metadata_at("root", &user("root"), 9),
        Err(ApiError::Forbidden(Some("Permission denied".to_string())))
    );
    assert_eq!(
        e.delete_metadata_at("a", &user("u1"), 9),
        Err(ApiError::BadRequest(Some("Folder is not empty".to_string())))
    );
    assert_eq!(e.delete_metadata_at("b", &user("u1"), 9), Ok(None));
    assert_eq!(e.delete_metadata_at("a", &user("u1"), 9), Ok(None));
    assert_eq!(e.tree.len(), 1);
}

#[test]
fn deleting_a_registered_upload_drops_it() {
    let mut e = Engine::new("root", 1);
    let req = request("a", FileType::File, "root", 1, "h1");
    assert!(e.add_metadata_at(&req, &user("u1"), &factory(), "f1".to_string(), 1000).is_ok());
    assert_eq!(
        e.delete_metadata_at("f1", &user("u2"), 1001),
        Err(ApiError::Forbidden(Some("Permission denied".to_string())))
    );
    assert_eq!(
        e.delete_metadata_at("f1", &user("u1"), 1000 + 86400),
        Err(ApiError::NotFound(Some("File not found".to_string())))
    );
    assert_eq!(e.staging.len(), 1);
    assert_eq!(e.delete_metadata_at("f1", &user("u1"), 1000 + 86399), Ok(None));
    assert_eq!(e.staging.len(), 0);
}

#[test]
fn reading_a_node_and_a_tree() {
    let mut e = Engine::new("root", 1);
    folder(&mut e, "a", "root", "u1");
    folder(&mut e, "b", "a", "u1");
    stored_file(&mut e, "f", "a", "u1", "h1");
    assert_eq!(e.get_metadata("a", None, &user("u1")), Ok(Response::File(node(&e, "a"))));
    assert_eq!(e.get_metadata("a", Some(false), &user("u1")), Ok(Response::File(node(&e, "a"))));
    assert_eq!(
        e.get_metadata("a", None, &user("u2")),
        Err(ApiError::Forbidden(Some("Permission denied".to_string())))
    );
    assert_eq!(
        e.get_metadata("q", Some(true), &user("u1")),
        Err(ApiError::NotFound(Some("File not found".to_string())))
    );
    let tree = match e.get_metadata("a", Some(true), &user("u1")) {
        Ok(Response::FileTree(t)) => t,
        other => panic!("{:?}", other),
    };
    assert_eq!(tree._id, "a");
    assert_eq!(tree.children.len(), 2);
    assert_eq!(tree.children[0]._id, "b");
    assert!(tree.children[0].children.is_empty());
    assert_eq!(tree.children[1]._id, "f");
    assert_eq!(tree.children[1].sha256, "h1");
    assert_eq!(tree.children[1].path, "/srv/flat/f");
    assert_eq!(tree.children[1].father, "a");
    let whole = e.get_tree("root").unwrap();
    assert_eq!(whole.children.len(), 1);
    assert_eq!(whole.children[0].children.len(), 2);
    assert!(e.get_tree_within("root", 2).is_none());
    assert!(e.get_tree_within("root", 3).is_some());
    assert!(e.get_tree_within("b", 1).is_some());
    assert!(e.get_tree_within("b", 0).is_none());
    assert_eq!(
        err(e.get_tree("nowhere").unwrap_err()),
        err(ApiError::InternalServerError(Some("Unknown error during tree generation".to_string())))
    );
}

#[test]
fn reading_a_file_resolves_its_holder() {
    let mut e = Engine::new("root", 1);
    folder(&mut e, "a", "root", "u1");
    stored_file(&mut e, "m", "root", "u1", "h1");
    stored_file(&mut e, "r", "a", "u1", "h1");
    let direct = e.get_file("m", &user("u1")).unwrap();
    assert_eq!(direct.file_name, "m");
    assert_eq!(direct.holder, node(&e, "m"));
    let through = e.get_file("r", &user("u1")).unwrap();
    assert_eq!(through.file_name, "r");
    assert_eq!(through.holder, node(&e, "m"));
    assert_eq!(
        e.get_file("a", &user("u1")),
        Err(ApiError::NotFound(Some("Target is not a file".to_string())))
    );
    assert_eq!(
        e.get_file("m", &user("u9")),
        Err(ApiError::Forbidden(Some("Permission denied".to_string())))
    );
    assert_eq!(
        e.get_file("zz", &user("u1")),
        Err(ApiError::NotFound(Some("File not found".to_string())))
    );
}

#[test]
fn permission_is_ownership() {
    let e = Engine::new("root", 1);
    let root = node(&e, "root");
    assert_eq!(check_file_permission(&user("root"), &root), Ok(()));
    assert_eq!(
        check_file_permission(&user("u1"), &root),
        Err(ApiError::Forbidden(Some("Permission denied".to_string())))
    );
}

#[test]
fn changes_replay_to_the_present_tree() {
    let mut e = Engine::new("root", 1);
    let first = e.take_changes();
    assert_eq!(first.len(), 1);
    folder(&mut e, "a", "root", "u1");
    stored_file(&mut e, "f", "a", "u1", "h1");
    let _ = e.delete_metadata_at("f", &user("u1"), 9);
    let log = e.take_changes();
    let mut mirror: Vec<File> = vec![match &first[0] {
        Change::Put(f) => f.duplicate(),
        Change::Remove(_) => panic!(),
    }];
    for change in &log {
        match change {
            Change::Put(f) => {
                mirror.retain(|m| m._id != f._id);
                mirror.push(f.duplicate());
            },
            Change::Remove(id) => mirror.retain(|m| &m._id != id),
        }
    }
    assert_eq!(mirror.len(), e.tree.len());
    for m in &mirror {
        assert_eq!(*e.tree.get(&m._id).unwrap(), *m);
    }
    assert!(e.take_changes().is_empty());
}

#[test]
fn listing_children() {
    let mut e = Engine::new("root", 1);
    folder(&mut e, "a", "root", "u1");
    folder(&mut e, "b", "a", "u1");
    stored_file(&mut e, "f", "a", "u1", "h1");
    assert_eq!(e.list_children("a"), Ok(vec![node(&e, "b"), node(&e, "f")]));
    assert_eq!(e.list_children("root"), Ok(vec![node(&e, "a")]));
    assert_eq!(e.list_children("b"), Ok(vec![]));
    assert_eq!(e.list_children("f"), Ok(vec![]));
    assert_eq!(
        e.list_children("zz"),
        Err(ApiError::NotFound(Some("File not found".to_string())))
    );
}
