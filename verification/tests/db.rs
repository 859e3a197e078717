use passcrypto::db::{Entry, VaultDb};

fn entry(title: &str, password: &str) -> Entry {
    Entry {
        title: title.to_string(),
        username: "user".to_string(),
        password: password.to_string(),
        url: "https://example.org".to_string(),
        notes: String::new(),
    }
}

fn sample() -> VaultDb {
    let mut db = VaultDb::new();
    assert!(db.try_add_dir("work"));
    assert!(db.try_add_entry(entry("mail.ps", "m1")));
    assert!(db.goto("/work"));
    assert!(db.try_add_dir("old"));
    assert!(db.try_add_entry(entry("vpn.ps", "v1")));
    assert!(db.goto("/work/old"));
    assert!(db.try_add_entry(entry("legacy.ps", "l1")));
    assert!(db.goto(""));
    db
}

#[test]
fn new_vault_is_empty_at_root() {
    let db = VaultDb::new();
    assert!(db.items.is_empty());
    assert_eq!(db.position, "");
    assert!(db.listing("").is_empty());
    assert_eq!(db.check_hashmap("anything"), Ok(true));
}

#[test]
fn listing_shows_folders_then_entries() {
    let db = sample();
    assert_eq!(db.listing(""), vec!["work".to_string(), "mail.ps".to_string()]);
    assert_eq!(db.listing("/work"), vec!["old".to_string(), "vpn.ps".to_string()]);
    assert_eq!(db.names_at("/work/old", true), vec!["legacy.ps".to_string()]);
    assert!(db.names_at("/work/old", false).is_empty());
}

#[test]
fn taken_names_are_refused() {
    let mut db = sample();
    assert_eq!(db.check_hashmap("work"), Err(false));
    assert_eq!(db.check_hashmap("mail.ps"), Err(false));
    assert_eq!(db.check_hashmap("vpn.ps"), Ok(true));
    assert_eq!(db.check_hashmap("mail"), Ok(true));
    assert!(!db.try_add_dir("work"));
    assert!(!db.try_add_entry(entry("mail.ps", "other")));
    assert_eq!(db.items.len(), 5);
}

#[test]
fn goto_only_known_folders() {
    let mut db = sample();
    assert!(!db.goto("/nowhere"));
    assert_eq!(db.position, "");
    assert!(!db.goto("/mail.ps"));
    assert!(db.goto("/work/old"));
    assert_eq!(db.position, "/work/old");
    assert!(db.is_folder(""));
}

#[test]
fn find_entry_by_path() {
    let db = sample();
    assert_eq!(db.find_entry("/work/vpn.ps").map(|e| e.password.clone()), Some("v1".to_string()));
    assert!(db.find_entry("/vpn.ps").is_none());
    assert!(db.find_entry("/work").is_none());
}

#[test]
fn deleting_a_folder_removes_everything_below() {
    let mut db = sample();
    db.delete_listed("work");
    assert_eq!(db.items.len(), 1);
    assert_eq!(db.listing(""), vec!["mail.ps".to_string()]);
    assert!(db.find_entry("/work/old/legacy.ps").is_none());
}

#[test]
fn deleting_an_entry_keeps_the_rest() {
    let mut db = sample();
    assert!(db.goto("/work"));
    db.delete_listed("vpn.ps");
    assert_eq!(db.listing("/work"), vec!["old".to_string()]);
    assert_eq!(db.items.len(), 4);
    db.delete_by_path("/work/nothing.ps", true);
    assert_eq!(db.items.len(), 4);
}

#[test]
fn replacing_an_entry() {
    let mut db = sample();
    assert!(db.try_replace_entry("mail.ps", entry("mail.ps", "m2")));
    assert_eq!(db.find_entry("/mail.ps").map(|e| e.password.clone()), Some("m2".to_string()));
    assert!(db.try_replace_entry("mail.ps", entry("post.ps", "m3")));
    assert!(db.find_entry("/mail.ps").is_none());
    assert_eq!(db.listing(""), vec!["work".to_string(), "post.ps".to_string()]);
    assert!(db.try_add_entry(entry("bank.ps", "b")));
    assert!(!db.try_replace_entry("bank.ps", entry("post.ps", "x")));
    assert_eq!(db.find_entry("/bank.ps").map(|e| e.password.clone()), Some("b".to_string()));
}

#[test]
fn renaming_a_folder_moves_its_content() {
    let mut db = sample();
    assert!(db.try_rename_folder("work", "job"));
    assert_eq!(db.listing(""), vec!["job".to_string(), "mail.ps".to_string()]);
    assert_eq!(db.listing("/job"), vec!["old".to_string(), "vpn.ps".to_string()]);
    assert_eq!(db.find_entry("/job/old/legacy.ps").map(|e| e.password.clone()), Some("l1".to_string()));
    assert!(db.listing("/work").is_empty());
    assert!(db.try_add_dir("home"));
    assert!(!db.try_rename_folder("home", "job"));
    assert!(db.try_rename_folder("home", "home"));
}

#[test]
fn deleted_names_can_be_used_again() {
    let mut db = sample();
    db.delete_listed("mail.ps");
    assert_eq!(db.check_hashmap("mail.ps"), Ok(true));
    assert!(db.try_add_entry(entry("mail.ps", "again")));
    db.delete_listed("work");
    assert_eq!(db.check_hashmap("work"), Ok(true));
    assert!(db.try_add_dir("work"));
    assert!(db.listing("/work").is_empty());
}

#[test]
fn renamed_folder_name_is_taken() {
    let mut db = sample();
    assert!(db.try_rename_folder("work", "job"));
    assert_eq!(db.check_hashmap("job"), Err(false));
    assert_eq!(db.check_hashmap("work"), Ok(true));
}
