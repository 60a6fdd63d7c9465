use xcmd_base::update::{
    check_due_for, release_check_due, upgrade_available, upgrade_for, win_append_extension, Platform,
    Precedence,
};

#[test]
fn extension_is_appended_on_windows_only() {
    assert_eq!(win_append_extension("xcmd", ".lnk", Platform::Windows), "xcmd.lnk");
    assert_eq!(win_append_extension("xcmd", ".exe", Platform::Windows), "xcmd.exe");
    assert_eq!(win_append_extension("xcmd", ".lnk", Platform::Unix), "xcmd");
    assert_eq!(win_append_extension("", ".exe", Platform::Windows), ".exe");
    assert_eq!(win_append_extension("xcmd", "", Platform::Windows), "xcmd");
}

#[test]
fn check_is_due_for_the_installed_version_behind_a_current_link() {
    assert!(check_due_for(Some(Precedence::Same), true));
    assert!(!check_due_for(Some(Precedence::Same), false));
    assert!(!check_due_for(Some(Precedence::Older), true));
    assert!(!check_due_for(Some(Precedence::Newer), true));
    assert!(!check_due_for(None, true));
}

#[test]
fn upgrade_is_for_newer_releases_only() {
    assert!(upgrade_for(Some(Precedence::Newer)));
    assert!(!upgrade_for(Some(Precedence::Same)));
    assert!(!upgrade_for(Some(Precedence::Older)));
    assert!(!upgrade_for(None));
}

#[test]
fn release_check_compares_versions_not_texts() {
    assert!(release_check_due("1.2.3", "1.2.3", true));
    assert!(!release_check_due("1.2.3", "1.2.3", false));
    assert!(!release_check_due("1.2.3", "1.2.4", true));
    assert!(!release_check_due("1.2.4", "1.2.3", true));
    assert!(!release_check_due("bin", "1.2.3", true));
    assert!(!release_check_due("1.2.3", "", true));
}

#[test]
fn upgrade_goes_by_semantic_precedence() {
    assert!(upgrade_available("1.2.4", "1.2.3"));
    assert!(upgrade_available("1.10.0", "1.9.0"));
    assert!(upgrade_available("2.0.0", "1.99.99"));
    assert!(upgrade_available("1.0.0", "1.0.0-alpha"));
    assert!(!upgrade_available("1.0.0-alpha", "1.0.0"));
    assert!(!upgrade_available("1.2.3", "1.2.3"));
    assert!(!upgrade_available("1.9.0", "1.10.0"));
    assert!(!upgrade_available("latest", "1.0.0"));
    assert!(!upgrade_available("2.0.0", "one"));
}
