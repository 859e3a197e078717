use passcrypto::browse::{menu_action, mode_of, path_action, select, MenuAction, Mode, PathAction, Selected};
use passcrypto::generator::{generate_password, password_from_bytes};

fn args(list: &[&str]) -> Vec<String> {
    list.iter().map(|s| s.to_string()).collect()
}

#[test]
fn modes_from_arguments() {
    assert!(matches!(mode_of(&args(&["passcrypto"])), Mode::Browse));
    assert!(matches!(mode_of(&args(&["passcrypto", "-h"])), Mode::Help));
    assert!(matches!(mode_of(&args(&["passcrypto", "--server"])), Mode::Server));
    assert!(matches!(mode_of(&args(&["passcrypto", "--help"])), Mode::Browse));
    assert!(matches!(mode_of(&args(&[])), Mode::Browse));
}

#[test]
fn submitted_paths() {
    match path_action("/work/mail.ps") {
        PathAction::ShowEntry { entry_path, folder } => {
            assert_eq!(entry_path, "/work/mail.ps");
            assert_eq!(folder, "/work");
        }
        _ => panic!("expected an entry"),
    }
    match path_action("/work/mail.ps/..") {
        PathAction::Leave { folder } => assert_eq!(folder, ""),
        _ => panic!("expected to leave"),
    }
    match path_action("/work/old/..") {
        PathAction::Leave { folder } => assert_eq!(folder, "/work"),
        _ => panic!("expected to leave"),
    }
    match path_action("/work/old") {
        PathAction::Enter { folder } => assert_eq!(folder, "/work/old"),
        _ => panic!("expected to enter"),
    }
}

#[test]
fn selected_items() {
    match select("/work", "mail.ps") {
        Selected::Entry { path } => assert_eq!(path, "/work/mail.ps"),
        _ => panic!("expected an entry"),
    }
    match select("", "work") {
        Selected::Folder { path } => assert_eq!(path, "/work"),
        _ => panic!("expected a folder"),
    }
}

#[test]
fn dot_menu() {
    assert!(matches!(menu_action("/work", "."), MenuAction::ShowPosition));
    match menu_action("/work/old", "..") {
        MenuAction::Leave { folder } => assert_eq!(folder, "/work"),
        _ => panic!("expected to leave"),
    }
}

#[test]
fn passwords_from_bytes() {
    assert_eq!(password_from_bytes(&[0, 25, 26, 51, 52, 61, 62, 255]), "azAZ09ah");
    assert_eq!(password_from_bytes(&[]), "");
}

#[test]
fn generated_password_shape() {
    let pw = generate_password(25);
    assert_eq!(pw.chars().count(), 25);
    assert!(pw.chars().all(|c| c.is_ascii_alphanumeric()));
}
