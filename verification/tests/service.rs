use cas_tree::api::{CrateShareLinkRequest, GetFileResponse, MetaDataCreateRequest, UpdateFileRequest};
use cas_tree::backend::StorageFactory;
use cas_tree::engine::Engine;
use cas_tree::error::ApiError;
use cas_tree::hash::file_sha256;
use cas_tree::model::{AuthenticatedUser, File, FileType};

fn user(id: &str) -> AuthenticatedUser {
    AuthenticatedUser {
        uuid: id.to_string(),
        username: id.to_string(),
        nickname: id.to_string(),
        token: None,
        root_id: "root".to_string(),
    }
}

fn factory() -> StorageFactory<u8> {
    let mut f: StorageFactory<u8> = StorageFactory::new("/srv/flat");
    f.register_backend("FLAT", 1);
    f
}

fn is_hex(s: &str, len: usize) -> bool {
    s.len() == len && s.chars().all(|c| c.is_ascii_hexdigit())
}

#[test]
fn first_init_makes_a_root() {
    let e = Engine::first_init();
    assert_eq!(e.tree.len(), 1);
    let root = e.tree.get(&e.root).unwrap();
    assert_eq!(root.type_, FileType::Root);
    assert_eq!(root.father, e.root);
    assert!(is_hex(&e.root, 24));
    assert!(root.created_at > 1_600_000_000);
}

#[test]
fn new_folder_with_and_without_identifier() {
    let given = File::new_folder("home", "root", "u1", Some("abc".to_string()));
    assert_eq!(given._id, "abc");
    assert_eq!(given.name, "home");
    assert_eq!(given.father, "root");
    assert_eq!(given.owner, "u1");
    assert_eq!(given.type_, FileType::Folder);
    assert_eq!(given.created_at, given.updated_at);
    let made = File::new_folder("home", "root", "u1", None);
    assert!(is_hex(&made._id, 24));
    let again = File::new_folder("home", "root", "u1", None);
    assert_ne!(made._id, again._id);
}

#[test]
fn a_whole_life_with_the_clock() {
    let mut e = Engine::new("root", 1);
    let data = b"hello world".to_vec();
    let sha = file_sha256(&data);
    let req = MetaDataCreateRequest {
        name: "hello.txt".to_string(),
        type_: FileType::File,
        father: "root".to_string(),
        size: 11,
        sha256: sha.clone(),
        storage_type: "FLAT".to_string(),
    };
    let answer = e.add_metadata(&req, &user("u1"), &factory()).unwrap();
    assert_eq!(answer.status, "success");
    assert!(is_hex(&answer.id, 24));
    let id = answer.id;
    assert_eq!(e.upload_file(&id, &user("u1"), &data, "/srv/flat/x"), Ok(None));
    let stored = e.tree.get(&id).unwrap().duplicate();
    assert_eq!(stored.sha256, "b94d27b9934d3e08a52e52d7da7dabfac484efe37a5380ee9088f7ace2efcde9");
    assert_eq!(stored.size, 11);
    assert_eq!(stored.path, "/srv/flat/x");

    let second = e.add_metadata(&req, &user("u2"), &factory()).unwrap();
    assert_eq!(second.status, "ref");
    assert_ne!(second.id, id);

    let mut renamed = stored.duplicate();
    renamed.name = "greeting.txt".to_string();
    assert_eq!(e.update_metadata(&id, &renamed, &user("u1")), Ok(()));
    assert_eq!(e.tree.get(&id).unwrap().name, "greeting.txt");
    assert!(e.tree.get(&id).unwrap().updated_at >= stored.updated_at);

    let share = CrateShareLinkRequest {
        target_uuid: "root".to_string(),
        live_second: 3600,
        download_count_limit: 1,
        password: Some("pw".to_string()),
    };
    let link = e.crate_share_link(&share, &user("root")).unwrap();
    assert_eq!(link.status, "Success");
    assert_eq!(link.link.len(), 36);
    let other = e.crate_share_link(&share, &user("root")).unwrap();
    assert_ne!(link.link, other.link);
    let got = e.get_share_file(&link.link, Some(&id), Some("pw"), None);
    match got {
        Ok(GetFileResponse::File(resp)) => {
            assert_eq!(resp.file_name, "greeting.txt");
            assert_eq!(resp.holder._id, id);
        },
        other => panic!("{:?}", other),
    }
    assert_eq!(
        e.get_share_file(&link.link, Some(&id), Some("pw"), None),
        Err(ApiError::BadRequest(Some("Download limit reached".to_string())))
    );
    assert_eq!(
        e.get_share_file(&other.link, Some("nowhere/else"), Some("pw"), Some(true)),
        Err(ApiError::NotFound(Some("File not found".to_string())))
    );

    let form = UpdateFileRequest { sha256: file_sha256(b"bye"), file: b"bye".to_vec() };
    let out = e.update_file(&second.id, &user("u2"), &form, Some("/srv/flat/y")).unwrap();
    assert_eq!(out.holder, None);
    assert_eq!(e.tree.get(&second.id).unwrap().sha256, file_sha256(b"bye"));

    assert!(e.delete_metadata(&id, &user("u1")).unwrap().is_some());
    assert!(e.delete_metadata(&second.id, &user("u2")).unwrap().is_some());
    assert_eq!(e.tree.len(), 1);
}
