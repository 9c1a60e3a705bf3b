use cas_tree::cache::{expiry, seconds_until, STAGING_TTL};
use cas_tree::init::{compare_vec, plan_first_init, InitAction};
use cas_tree::model::{File, FileExtraMetadata, FileType};

fn list(items: &[&str]) -> Vec<String> {
    items.iter().map(|s| s.to_string()).collect()
}

#[test]
fn same_strings_in_any_order() {
    assert!(compare_vec(&list(&[]), &list(&[])));
    assert!(compare_vec(&list(&["a", "b", "c"]), &list(&["c", "a", "b"])));
    assert!(compare_vec(&list(&["a", "a", "b"]), &list(&["a", "b", "a"])));
    assert!(!compare_vec(&list(&["a", "a", "b"]), &list(&["a", "b", "b"])));
    assert!(!compare_vec(&list(&["a"]), &list(&["a", "a"])));
    assert!(!compare_vec(&list(&["a", "b"]), &list(&["a", "c"])));
    assert!(!compare_vec(&list(&["a"]), &list(&[])));
}

#[test]
fn what_to_do_with_the_database() {
    assert_eq!(plan_first_init(&list(&["users", "files", "logined_devices"])), InitAction::Load);
    assert_eq!(plan_first_init(&list(&["logined_devices", "users", "files"])), InitAction::Load);
    assert_eq!(plan_first_init(&list(&[])), InitAction::Create);
    assert_eq!(plan_first_init(&list(&["users"])), InitAction::Reset);
    assert_eq!(plan_first_init(&list(&["users", "files", "logined_devices", "x"])), InitAction::Reset);
    assert_eq!(plan_first_init(&list(&["users", "files", "files"])), InitAction::Reset);
}

#[test]
fn expiry_is_clamped() {
    assert_eq!(STAGING_TTL, 24 * 60 * 60);
    assert_eq!(expiry(1000, 60), 1060);
    assert_eq!(expiry(1000, -60), 940);
    assert_eq!(expiry(i64::MAX - 1, 10), i64::MAX);
    assert_eq!(expiry(i64::MIN + 1, -10), i64::MIN);
    assert_eq!(expiry(0, 0), 0);
}

#[test]
fn seconds_until_a_later_instant() {
    assert_eq!(seconds_until(100, 40), Ok(60));
    assert_eq!(seconds_until(100, 100), Ok(0));
    assert_eq!(seconds_until(99, 100), Err("Time is in the past".to_string()));
    assert_eq!(seconds_until(i64::MAX, -1), Ok(i64::MAX));
}

#[test]
fn folder_with_given_values() {
    let f = File::folder_at("home", "root", "u1", "id9".to_string(), 77);
    assert_eq!(
        f,
        File {
            _id: "id9".to_string(),
            name: "home".to_string(),
            type_: FileType::Folder,
            father: "root".to_string(),
            children: vec![],
            owner: "u1".to_string(),
            created_at: 77,
            updated_at: 77,
            size: 0,
            sha256: String::new(),
            path: String::new(),
            storage_type: "FLAT".to_string(),
            extra_metadata: FileExtraMetadata::default(),
        }
    );
    assert!(f.is_container());
    assert!(!f.is_reference());
    assert!(!f.holds_bytes());
    assert_eq!(f.duplicate(), f);
    assert_eq!(FileExtraMetadata::default(), FileExtraMetadata::empty());
    assert_eq!(FileExtraMetadata::empty().duplicate().file_references.len(), 0);
}

#[test]
fn kinds_of_files() {
    let mut f = File::folder_at("x", "root", "u1", "i".to_string(), 1);
    f.type_ = FileType::File;
    assert!(f.holds_bytes());
    assert!(!f.is_reference());
    assert!(!f.is_container());
    f.storage_type = "ref".to_string();
    assert!(f.is_reference());
    assert!(!f.holds_bytes());
    f.type_ = FileType::Root;
    assert!(!f.is_reference());
    assert!(f.is_container());
}
