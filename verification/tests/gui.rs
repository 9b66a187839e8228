use pwm::gui::error::GuiError;
use pwm::gui::message::Message;
use pwm::gui::timer::Timer;
use pwm::gui::state::{append_vault_path_to_prev_vaults, update_prev_vaults_max_length};
use pwm::gui::{get_file_name, get_file_path_back_count};

fn strings(v: &[&str]) -> Vec<String> {
    v.iter().map(|s| s.to_string()).collect()
}

#[test]
fn gui_append_moves_path_to_front() {
    let mut prev = strings(&["/a", "/b", "/c"]);
    append_vault_path_to_prev_vaults(&mut prev, 5, "/b".to_string());
    assert_eq!(prev, strings(&["/b", "/a", "/c"]));
    append_vault_path_to_prev_vaults(&mut prev, 5, "/b".to_string());
    assert_eq!(prev, strings(&["/b", "/a", "/c"]));
}

#[test]
fn gui_append_cuts_to_maximum() {
    let mut prev = strings(&["/a", "/b", "/c"]);
    append_vault_path_to_prev_vaults(&mut prev, 2, "/d".to_string());
    assert_eq!(prev, strings(&["/d", "/a"]));
    append_vault_path_to_prev_vaults(&mut prev, 0, "/e".to_string());
    assert!(prev.is_empty());
}

#[test]
fn gui_append_drops_every_copy() {
    let mut prev = strings(&["/a", "/x", "/a"]);
    append_vault_path_to_prev_vaults(&mut prev, 10, "/a".to_string());
    assert_eq!(prev, strings(&["/a", "/x"]));
}

#[test]
fn gui_update_max_length() {
    let mut prev = strings(&["/a", "/b", "/c"]);
    let mut max = 10;
    update_prev_vaults_max_length(&mut prev, &mut max, 2);
    assert_eq!(max, 2);
    assert_eq!(prev, strings(&["/a", "/b"]));
    update_prev_vaults_max_length(&mut prev, &mut max, 7);
    assert_eq!(max, 7);
    assert_eq!(prev, strings(&["/a", "/b"]));
}

#[test]
fn gui_file_names() {
    assert_eq!(get_file_name("/home/user/vaults/Vault"), "Vault");
    assert_eq!(get_file_name("Vault"), "Vault");
    assert_eq!(get_file_name("/"), "/");
    assert_eq!(get_file_name("dir/.."), "dir/..");
}

#[test]
fn gui_path_back_count() {
    assert_eq!(get_file_path_back_count("/home/user/vaults/Vault", 2), "vaults/Vault");
    assert_eq!(get_file_path_back_count("vaults/Vault", 2), "vaults/Vault");
    assert_eq!(get_file_path_back_count("a/b/c", 1), "c");
}

#[test]
fn gui_error_texts() {
    assert_eq!(GuiError::NoVault.to_string(), "No vault opened");
    assert_eq!(GuiError::IoError("x".to_string()).to_string(), "IO error: x");
    assert_eq!(GuiError::PasswordNotSame.to_string(), "Passwords do not match");
    let e = GuiError::from_database_error(pwm::db_base::error::DatabaseError::NotFound);
    assert_eq!(e.to_string(), "Vault error: Not found");
    assert!(!GuiError::SendFail("s".to_string()).is_shown());
    assert!(!GuiError::RecvFail("r".to_string()).is_shown());
    assert!(GuiError::NoFile.is_shown());
}

#[test]
fn gui_timer_completes() {
    let done = Timer::new(0);
    assert!(done.is_complete());
    let long = Timer::new(1_000_000_000_000);
    assert!(!long.is_complete());
    assert!(!long.is_complete_after(999_999_999_999));
    assert!(long.is_complete_after(1_000_000_000_000));
    assert!(long.is_complete_after(2_000_000_000_000));
    let m = Message::new(None, "hi".to_string(), false, 0);
    assert!(m.is_complete());
    let shown = Message::new_default_duration(Some("Error".to_string()), "hi".to_string(), false);
    assert!(!shown.is_complete());
}
