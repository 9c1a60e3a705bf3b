use cas_tree::api::{MetaDataCreateRequest, UpdateFileRequest, UpdateOutcome};
use cas_tree::backend::{LocalFlatStorageBackend, SaveResult, StorageConfig, StorageFactory};
use cas_tree::engine::Engine;
use cas_tree::error::ApiError;
use cas_tree::hash::file_sha256;
use cas_tree::model::{AuthenticatedUser, File, FileType};

fn user(id: &str) -> AuthenticatedUser {
    AuthenticatedUser {
        uuid: id.to_string(),
        username: id.to_string(),
        nickname: id.to_string(),
        token: None,
        root_id: "root".to_string(),
    }
}

fn factory() -> StorageFactory<LocalFlatStorageBackend> {
    let mut f = StorageFactory::new("/srv/flat");
    let backend = LocalFlatStorageBackend::new(f.get_config());
    f.register_backend("FLAT", backend);
    f
}

fn register(e: &mut Engine, id: &str, owner: &str, sha: &str, now: i64) -> String {
    let req = MetaDataCreateRequest {
        name: format!("{}.txt", id),
        type_: FileType::File,
        father: "root".to_string(),
        size: 0,
        sha256: sha.to_string(),
        storage_type: "FLAT".to_string(),
    };
    e.add_metadata_at(&req, &user(owner), &factory(), id.to_string(), now).unwrap().status
}

fn saved(path: &str, size: u64, sha: &str) -> SaveResult {
    SaveResult { size, _path: path.to_string(), sha256: sha.to_string() }
}

fn put(e: &mut Engine, id: &str, owner: &str, data: &[u8]) {
    let sha = file_sha256(data);
    if register(e, id, owner, &sha, 10) == "success" {
        let r = e.upload_file_at(id, &user(owner), data, &format!("/srv/flat/{}", id), 11);
        assert_eq!(r, Ok(None));
    }
}

fn node(e: &Engine, id: &str) -> File {
    e.tree.get(id).unwrap().duplicate()
}

fn refs(e: &Engine, id: &str) -> Vec<String> {
    node(e, id).extra_metadata.file_references
}

#[test]
fn register_confirm_and_read_back_the_same_bytes() {
    let mut disk: Vec<(String, Vec<u8>)> = Vec::new();
    let data = b"the quick brown fox".to_vec();
    let mut e = Engine::new("root", 1);
    let sha = file_sha256(&data);
    assert_eq!(register(&mut e, "f1", "u1", &sha, 10), "success");
    let staged = e.staged_metadata("f1", &user("u1"), 11).unwrap();
    let f = factory();
    let (backend, digest) = f.check_sha256_and_save(&staged, None).unwrap();
    let report = backend.check_sha256_and_save(&staged, &digest, &data).unwrap();
    assert_eq!(report._path, "/srv/flat/f1");
    disk.push((report._path.clone(), data.clone()));
    assert_eq!(e.commit_upload("f1", &user("u1"), &report, 12), Ok(None));
    let response = e.get_file("f1", &user("u1")).unwrap();
    assert_eq!(response.file_name, "f1.txt");
    assert_eq!(response.holder.size, data.len() as u64);
    assert_eq!(response.holder.sha256, sha);
    let read = disk.iter().find(|(p, _)| *p == response.holder.path).unwrap().1.clone();
    assert_eq!(read, data);
    assert_eq!(file_sha256(&read), response.holder.sha256);
    assert_eq!(e.staging.len(), 0);
    assert_eq!(node(&e, "root").children, vec!["f1".to_string()]);
}

#[test]
fn hash_mismatch_creates_no_node() {
    let mut e = Engine::new("root", 1);
    let declared = file_sha256(b"what was promised");
    assert_eq!(register(&mut e, "f1", "u1", &declared, 10), "success");
    let r = e.upload_file_at("f1", &user("u1"), b"something else", "/srv/flat/f1", 11);
    assert_eq!(r, Err(ApiError::BadRequest(Some("Hash not match".to_string()))));
    assert!(!e.tree.contains("f1"));
    assert_eq!(e.tree.len(), 1);
    assert!(node(&e, "root").children.is_empty());
    assert_eq!(e.staging.len(), 1);
    for i in 0..e.tree.len() {
        assert_ne!(e.tree.node_at(i).path, "/srv/flat/f1");
    }
    let staged = e.staged_metadata("f1", &user("u1"), 11).unwrap();
    let f = factory();
    let backend = f.get_backend("FLAT").unwrap();
    assert_eq!(
        backend.check_sha256_and_save(&staged, &declared, b"something else"),
        Err(ApiError::BadRequest(Some("Hash not match".to_string())))
    );
    let r = e.upload_file_at("f1", &user("u1"), b"what was promised", "/srv/flat/f1", 12);
    assert_eq!(r, Ok(None));
    assert!(e.tree.contains("f1"));
}

#[test]
fn confirm_errors_in_their_order() {
    let mut e = Engine::new("root", 1);
    let sha = file_sha256(b"abc");
    assert_eq!(register(&mut e, "f1", "u1", &sha, 1000), "success");
    let good = saved("/srv/flat/f1", 3, &sha);
    assert_eq!(
        e.commit_upload("other", &user("u1"), &good, 1001),
        Err(ApiError::NotFound(Some("Metadata not found".to_string())))
    );
    assert_eq!(
        e.commit_upload("f1", &user("u1"), &good, 1000 + 86400),
        Err(ApiError::NotFound(Some("Metadata not found".to_string())))
    );
    assert_eq!(
        e.commit_upload("f1", &user("u2"), &saved("/x", 3, "bad"), 1001),
        Err(ApiError::Forbidden(Some("Permission denied".to_string())))
    );
    assert_eq!(
        e.commit_upload("f1", &user("u1"), &saved("/x", 3, "bad"), 1001),
        Err(ApiError::BadRequest(Some("Hash not match".to_string())))
    );
    assert_eq!(e.staging.len(), 1);
    assert_eq!(e.commit_upload("f1", &user("u1"), &good, 1000 + 86399), Ok(None));
    assert_eq!(
        e.commit_upload("f1", &user("u1"), &good, 1001),
        Err(ApiError::NotFound(Some("Metadata not found".to_string())))
    );
}

#[test]
fn confirm_after_the_parent_has_gone() {
    let mut e = Engine::new("root", 1);
    let req = MetaDataCreateRequest {
        name: "d".to_string(),
        type_: FileType::Folder,
        father: "root".to_string(),
        size: 0,
        sha256: String::new(),
        storage_type: "FLAT".to_string(),
    };
    assert!(e.add_metadata_at(&req, &user("u1"), &factory(), "d".to_string(), 5).is_ok());
    let req = MetaDataCreateRequest {
        name: "f".to_string(),
        type_: FileType::File,
        father: "d".to_string(),
        size: 0,
        sha256: "h1".to_string(),
        storage_type: "FLAT".to_string(),
    };
    assert!(e.add_metadata_at(&req, &user("u1"), &factory(), "f".to_string(), 6).is_ok());
    assert_eq!(e.delete_metadata_at("d", &user("u1"), 7), Ok(None));
    assert_eq!(
        e.commit_upload("f", &user("u1"), &saved("/srv/flat/f", 1, "h1"), 8),
        Err(ApiError::NotFound(Some("Father folder not found".to_string())))
    );
    assert!(!e.tree.contains("f"));
}

#[test]
fn two_uploads_of_the_same_content_leave_one_holder() {
    let mut e = Engine::new("root", 1);
    let data = b"same bytes";
    let sha = file_sha256(data);
    assert_eq!(register(&mut e, "a", "u1", &sha, 10), "success");
    assert_eq!(register(&mut e, "b", "u2", &sha, 10), "success");
    assert_eq!(e.upload_file_at("a", &user("u1"), data, "/srv/flat/a", 11), Ok(None));
    assert_eq!(e.upload_file_at("b", &user("u2"), data, "/srv/flat/b", 12), Ok(Some("a".to_string())));
    assert_eq!(node(&e, "b").storage_type, "ref");
    assert_eq!(node(&e, "b").path, "a");
    assert_eq!(node(&e, "b").size, data.len() as u64);
    assert_eq!(refs(&e, "a"), vec!["b".to_string()]);
    assert_eq!(node(&e, "root").children, vec!["a".to_string(), "b".to_string()]);
    assert_eq!(register(&mut e, "c", "u3", &sha, 13), "ref");
    assert_eq!(refs(&e, "a"), vec!["b".to_string(), "c".to_string()]);
    let mut holders = 0;
    for i in 0..e.tree.len() {
        let f = e.tree.node_at(i);
        if f.type_ == FileType::File && f.storage_type != "ref" && f.sha256 == sha {
            holders += 1;
        }
    }
    assert_eq!(holders, 1);
}

#[test]
fn staged_metadata_is_for_its_owner_while_live() {
    let mut e = Engine::new("root", 1);
    assert_eq!(register(&mut e, "f1", "u1", "h1", 1000), "success");
    assert_eq!(e.staged_metadata("f1", &user("u1"), 1001).unwrap().sha256, "h1");
    assert_eq!(
        e.staged_metadata("f1", &user("u2"), 1001),
        Err(ApiError::Forbidden(Some("Permission denied".to_string())))
    );
    assert_eq!(
        e.staged_metadata("f1", &user("u1"), 1000 + 86400),
        Err(ApiError::NotFound(Some("Metadata not found".to_string())))
    );
    assert_eq!(
        e.staged_metadata("zz", &user("u1"), 1001),
        Err(ApiError::NotFound(Some("Metadata not found".to_string())))
    );
}

#[test]
fn overwrite_in_place_orphans_nothing() {
    let mut e = Engine::new("root", 1);
    put(&mut e, "f", "u1", b"old");
    let new = b"new contents".to_vec();
    let sha = file_sha256(&new);
    let target = e.update_target("f", &user("u1"), &sha).unwrap().unwrap();
    assert_eq!(target.storage_type, "FLAT");
    assert_eq!(target.sha256, sha);
    let form = UpdateFileRequest { sha256: sha.clone(), file: new.clone() };
    let out = e.update_file_at("f", &user("u1"), &form, Some("/srv/flat/f"), 50).unwrap();
    assert_eq!(out, UpdateOutcome { holder: None, orphan: None });
    let f = node(&e, "f");
    assert_eq!(f.sha256, sha);
    assert_eq!(f.size, new.len() as u64);
    assert_eq!(f.updated_at, 50);
    assert_eq!(f.created_at, 10);
    assert_eq!(f.path, "/srv/flat/f");
    assert_eq!(f.storage_type, "FLAT");
}

#[test]
fn overwrite_elsewhere_orphans_the_old_bytes() {
    let mut e = Engine::new("root", 1);
    put(&mut e, "f", "u1", b"old");
    let before = node(&e, "f");
    let sha = file_sha256(b"new");
    let out = e
        .commit_update("f", &user("u1"), &sha, Some(&saved("/srv/flat/f.2", 3, &sha)), 50)
        .unwrap();
    assert_eq!(out, UpdateOutcome { holder: None, orphan: Some(before) });
    assert_eq!(node(&e, "f").path, "/srv/flat/f.2");
}

#[test]
fn update_to_known_content_becomes_a_reference() {
    let mut e = Engine::new("root", 1);
    put(&mut e, "m", "u1", b"shared");
    put(&mut e, "f", "u1", b"own");
    let before = node(&e, "f");
    let sha = file_sha256(b"shared");
    assert_eq!(e.update_target("f", &user("u1"), &sha), Ok(None));
    let out = e.commit_update("f", &user("u1"), &sha, None, 50).unwrap();
    assert_eq!(out, UpdateOutcome { holder: Some("m".to_string()), orphan: Some(before) });
    let f = node(&e, "f");
    assert_eq!(f.storage_type, "ref");
    assert_eq!(f.path, "m");
    assert_eq!(f.sha256, sha);
    assert_eq!(f.size, 6);
    assert_eq!(f.updated_at, 50);
    assert_eq!(refs(&e, "m"), vec!["f".to_string()]);
}

#[test]
fn update_of_a_reference_detaches_it_first() {
    let mut e = Engine::new("root", 1);
    put(&mut e, "m", "u1", b"shared");
    put(&mut e, "r", "u2", b"shared");
    assert_eq!(refs(&e, "m"), vec!["r".to_string()]);
    let sha = file_sha256(b"fresh");
    let target = e.update_target("r", &user("u2"), &sha).unwrap().unwrap();
    assert_eq!(target.storage_type, "FLAT");
    let out = e
        .commit_update("r", &user("u2"), &sha, Some(&saved("/srv/flat/r", 5, &sha)), 60)
        .unwrap();
    assert_eq!(out, UpdateOutcome { holder: None, orphan: None });
    assert!(refs(&e, "m").is_empty());
    let r = node(&e, "r");
    assert_eq!(r.storage_type, "FLAT");
    assert_eq!(r.path, "/srv/flat/r");
    assert_eq!(r.sha256, sha);
    assert_eq!(r.size, 5);
}

#[test]
fn update_of_a_holder_with_references_passes_the_old_bytes_on() {
    let mut e = Engine::new("root", 1);
    put(&mut e, "m", "u1", b"shared");
    put(&mut e, "a", "u1", b"shared");
    put(&mut e, "b", "u1", b"shared");
    let old_sha = file_sha256(b"shared");
    let sha = file_sha256(b"fresh");
    assert_eq!(
        e.commit_update("m", &user("u1"), &sha, Some(&saved("/srv/flat/m", 5, &sha)), 60),
        Err(ApiError::InternalServerError(Some("Storage location in use".to_string())))
    );
    assert_eq!(refs(&e, "m"), vec!["a".to_string(), "b".to_string()]);
    let out = e
        .commit_update("m", &user("u1"), &sha, Some(&saved("/srv/flat/m.2", 5, &sha)), 60)
        .unwrap();
    assert_eq!(out, UpdateOutcome { holder: None, orphan: None });
    let heir = node(&e, "b");
    assert_eq!(heir.storage_type, "FLAT");
    assert_eq!(heir.path, "/srv/flat/m");
    assert_eq!(heir.sha256, old_sha);
    assert_eq!(refs(&e, "b"), vec!["a".to_string()]);
    assert_eq!(node(&e, "a").path, "b");
    let m = node(&e, "m");
    assert_eq!(m.path, "/srv/flat/m.2");
    assert_eq!(m.sha256, sha);
    assert!(refs(&e, "m").is_empty());
}

#[test]
fn update_with_the_same_content_refers_to_the_heir() {
    let mut e = Engine::new("root", 1);
    put(&mut e, "m", "u1", b"shared");
    put(&mut e, "a", "u1", b"shared");
    let sha = file_sha256(b"shared");
    assert_eq!(e.update_target("m", &user("u1"), &sha), Ok(None));
    let out = e.commit_update("m", &user("u1"), &sha, None, 60).unwrap();
    assert_eq!(out, UpdateOutcome { holder: Some("a".to_string()), orphan: None });
    assert_eq!(node(&e, "a").storage_type, "FLAT");
    assert_eq!(node(&e, "a").path, "/srv/flat/m");
    assert_eq!(refs(&e, "a"), vec!["m".to_string()]);
    assert_eq!(node(&e, "m").storage_type, "ref");
    assert_eq!(node(&e, "m").path, "a");
}

#[test]
fn content_update_errors_in_their_order() {
    let mut e = Engine::new("root", 1);
    put(&mut e, "f", "u1", b"old");
    let sha = file_sha256(b"new");
    assert_eq!(
        e.commit_update("zz", &user("u1"), &sha, None, 5),
        Err(ApiError::NotFound(Some("File not found".to_string())))
    );
    assert_eq!(
        e.commit_update("f", &user("u2"), &sha, None, 5),
        Err(ApiError::Forbidden(Some("Permission denied".to_string())))
    );
    assert_eq!(
        e.commit_update("root", &user("root"), &sha, None, 5),
        Err(ApiError::BadRequest(Some("Target is not a file".to_string())))
    );
    assert_eq!(
        e.update_target("root", &user("root"), &sha),
        Err(ApiError::BadRequest(Some("Target is not a file".to_string())))
    );
    assert_eq!(
        e.commit_update("f", &user("u1"), &sha, None, 5),
        Err(ApiError::BadRequest(Some("File required".to_string())))
    );
    assert_eq!(
        e.commit_update("f", &user("u1"), &sha, Some(&saved("/srv/flat/f", 3, "other")), 5),
        Err(ApiError::BadRequest(Some("Hash not match".to_string())))
    );
    let form = UpdateFileRequest { sha256: sha.clone(), file: b"not new".to_vec() };
    assert_eq!(
        e.update_file_at("f", &user("u1"), &form, Some("/srv/flat/f"), 5),
        Err(ApiError::BadRequest(Some("Hash not match".to_string())))
    );
    assert_eq!(node(&e, "f").sha256, file_sha256(b"old"));
    assert_eq!(node(&e, "f").updated_at, 10);
}

#[test]
fn flat_backend_names_the_file_after_the_node() {
    let backend = LocalFlatStorageBackend::new(&StorageConfig { flat_storage_path: "./storage/flat".to_string() });
    let e = Engine::new("65f0c0ffee", 1);
    let root = node(&e, "65f0c0ffee");
    assert_eq!(backend.generate_file_path(&root), "./storage/flat/65f0c0ffee");
    let report = backend.save_file(&root, b"12345");
    assert_eq!(report, saved("./storage/flat/65f0c0ffee", 5, ""));
    let sha = file_sha256(b"12345");
    assert_eq!(
        backend.check_sha256_and_save(&root, &sha, b"12345"),
        Ok(saved("./storage/flat/65f0c0ffee", 5, &sha))
    );
    assert_eq!(backend.accept(&root, "aa", 7, "aa".to_string()), Ok(saved("./storage/flat/65f0c0ffee", 7, "aa")));
    assert_eq!(
        backend.accept(&root, "aa", 7, "ab".to_string()),
        Err(ApiError::BadRequest(Some("Hash not match".to_string())))
    );
}

#[test]
fn registry_of_backends() {
    let mut f: StorageFactory<u32> = StorageFactory::new("/data");
    assert_eq!(f.get_config().flat_storage_path, "/data");
    assert_eq!(f.get_backend("FLAT"), None);
    assert_eq!(
        f.get_backend_check("FLAT"),
        Err(ApiError::InternalServerError(Some("Storage backend not found".to_string())))
    );
    f.register_backend("FLAT", 1);
    f.register_backend("S3", 2);
    f.register_backend("FLAT", 3);
    assert_eq!(f.get_backend("FLAT"), Some(&3));
    assert_eq!(f.get_backend_check("S3"), Ok(&2));
    let e = Engine::new("root", 1);
    let root = node(&e, "root");
    assert_eq!(f.backend_for(&root), Ok(&3));
    assert_eq!(f.check_sha256_and_save(&root, Some("abc")), Ok((&3, "abc".to_string())));
    assert_eq!(f.check_sha256_and_save(&root, None), Ok((&3, String::new())));
    let mut other = root.duplicate();
    other.storage_type = "ref".to_string();
    assert_eq!(
        f.check_sha256_and_save(&other, None),
        Err(ApiError::InternalServerError(Some("Storage backend not found".to_string())))
    );
}
