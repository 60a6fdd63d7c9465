use xcmd_base::attributes::Permissions;
use xcmd_base::normalizer::{base_name_of, normalize, split_name, Backend, Stat};

fn file(size: u64) -> Stat {
    Stat {
        is_directory: false,
        size: Some(size),
        modified: Some(1_700_000_000_123),
        permissions: Permissions::Posix(0o100644),
    }
}

fn directory() -> Stat {
    Stat {
        is_directory: true,
        size: Some(4096),
        modified: Some(1_600_000_000_000),
        permissions: Permissions::Posix(0o040755),
    }
}

#[test]
fn file_splits_at_the_last_dot() {
    let entry = normalize(Backend::Sftp, "/a/b/report.final.txt", &file(12), None, None);
    assert_eq!(entry.key, "report.final.txt");
    assert_eq!(entry.name, "report.final");
    assert_eq!(entry.extension, "txt");
    assert!(!entry.is_directory);
    assert_eq!(entry.size, 12);
    assert_eq!(entry.date, 1_700_000_000_123);
    assert_eq!(entry.attributes, "-rw-r--r--");
    assert!(!entry.is_active);
}

#[test]
fn directory_gets_the_separator_and_no_extension() {
    let entry = normalize(Backend::Sftp, "/a/b/docs.d", &directory(), None, None);
    assert_eq!(entry.key, "docs.d/");
    assert_eq!(entry.name, "docs.d");
    assert_eq!(entry.extension, "");
    assert!(entry.is_directory);
    assert_eq!(entry.size, 0);
    assert_eq!(entry.date, 1_600_000_000_000);
    assert_eq!(entry.attributes, "drwxr-xr-x");
}

#[test]
fn override_names_the_entry_as_it_is() {
    let entry = normalize(Backend::Sftp, "/a", &directory(), Some(".."), Some("../"));
    assert_eq!(entry.key, "..");
    assert_eq!(entry.name, "..");
    assert_eq!(entry.extension, "");
    assert!(entry.is_directory);
    assert!(!entry.is_active);
    let named = normalize(Backend::Sftp, "/a/b.txt", &file(1), Some("shown.as"), None);
    assert_eq!(named.key, "shown.as");
    assert_eq!(named.name, "shown.as");
    assert_eq!(named.extension, "");
}

#[test]
fn active_directory_is_marked() {
    let entry = normalize(Backend::Sftp, "/a/b/c", &directory(), None, Some("c/"));
    assert!(entry.is_active);
    let other = normalize(Backend::Sftp, "/a/b/d", &directory(), None, Some("c/"));
    assert!(!other.is_active);
}

#[test]
fn active_key_is_the_whole_key_not_the_name() {
    let entry = normalize(Backend::Sftp, "/a/b/c", &directory(), None, Some("c"));
    assert!(!entry.is_active);
}

#[test]
fn file_is_never_active() {
    let entry = normalize(Backend::Sftp, "/a/b/c", &file(1), None, Some("c"));
    assert!(!entry.is_active);
    let slashed = normalize(Backend::Sftp, "/a/b/c", &file(1), None, Some("c/"));
    assert!(!slashed.is_active);
}

#[test]
fn unread_fields_degrade_to_zero() {
    let stat = Stat { is_directory: false, size: None, modified: None, permissions: Permissions::Unknown };
    let entry = normalize(Backend::Local, "/a/x.bin", &stat, None, None);
    assert_eq!(entry.size, 0);
    assert_eq!(entry.date, 0);
    assert_eq!(entry.attributes, "-");
    assert_eq!(entry.key, "x.bin");
}

#[test]
fn read_only_flag_is_rendered() {
    let stat = Stat {
        is_directory: false,
        size: Some(3),
        modified: None,
        permissions: Permissions::ReadOnly(true),
    };
    assert_eq!(normalize(Backend::Local, "/a/x", &stat, None, None).attributes, "r");
}

#[test]
fn local_icon_names_the_encoded_path() {
    let entry = normalize(Backend::Local, "/a b/c&d.txt", &file(1), None, None);
    assert_eq!(entry.icon, "file?path=%2Fa%20b%2Fc%26d.txt");
    assert_eq!(entry.icon_alt, Some("file".to_string()));
    assert_eq!(entry.icon_type, "file");
    let dir = normalize(Backend::Local, "/srv/my-dir_1.~", &directory(), None, None);
    assert_eq!(dir.icon, "folder?path=%2Fsrv%2Fmy-dir_1.~");
    assert_eq!(dir.icon_alt, Some("folder".to_string()));
}

#[test]
fn local_icon_encodes_every_byte_of_a_character() {
    let entry = normalize(Backend::Local, "/é", &file(1), None, None);
    assert_eq!(entry.icon, "file?path=%2F%C3%A9");
}

#[test]
fn sftp_icon_names_the_kind() {
    let entry = normalize(Backend::Sftp, "/a/x.txt", &file(1), None, None);
    assert_eq!(entry.icon, "file");
    assert_eq!(entry.icon_alt, None);
    assert_eq!(entry.icon_type, "file");
    assert_eq!(normalize(Backend::Sftp, "/a/d", &directory(), None, None).icon, "folder");
}

#[test]
fn object_store_icon_names_the_kind() {
    let entry = normalize(Backend::ObjectStore, "x.txt", &file(1), None, None);
    assert_eq!(entry.icon, "object");
    assert_eq!(entry.icon_alt, None);
    assert_eq!(entry.icon_type, "");
    assert_eq!(normalize(Backend::ObjectStore, "d/", &directory(), None, None).icon, "bucket");
}

#[test]
fn base_name_is_the_last_component() {
    assert_eq!(base_name_of("/a/b/c.txt"), "c.txt");
    assert_eq!(base_name_of("/a/b/"), "b");
    assert_eq!(base_name_of("c"), "c");
    assert_eq!(base_name_of("/a/./"), "a");
}

#[test]
fn base_name_falls_back_to_the_parent_name() {
    assert_eq!(base_name_of("/"), "..");
    assert_eq!(base_name_of(""), "..");
    assert_eq!(base_name_of("/a/.."), "..");
}

#[test]
fn split_name_cases() {
    assert_eq!(split_name("a.txt"), ("a".to_string(), "txt".to_string()));
    assert_eq!(split_name("a.tar.gz"), ("a.tar".to_string(), "gz".to_string()));
    assert_eq!(split_name("Makefile"), ("Makefile".to_string(), "".to_string()));
    assert_eq!(split_name(".bashrc"), (".bashrc".to_string(), "".to_string()));
    assert_eq!(split_name(".config.toml"), (".config".to_string(), "toml".to_string()));
    assert_eq!(split_name("a."), ("a".to_string(), "".to_string()));
    assert_eq!(split_name(".."), ("..".to_string(), "".to_string()));
    assert_eq!(split_name("..."), ("..".to_string(), "".to_string()));
    assert_eq!(split_name(""), ("".to_string(), "".to_string()));
}

#[test]
fn sftp_attributes_of_a_directory() {
    let stat = Stat::from_attributes(Some(4096), Some(1_700_000_000), Some(0o040755));
    assert!(stat.is_directory);
    assert_eq!(stat.size, Some(4096));
    assert_eq!(stat.modified, Some(1_700_000_000_000));
    assert!(matches!(stat.permissions, Permissions::Posix(0o040755)));
    let entry = normalize(Backend::Sftp, "/home/u", &stat, None, None);
    assert_eq!(entry.key, "u/");
    assert_eq!(entry.attributes, "drwxr-xr-x");
    assert_eq!(entry.date, 1_700_000_000_000);
    assert_eq!(entry.size, 0);
}

#[test]
fn sftp_attributes_of_a_file_and_of_a_link() {
    let regular = Stat::from_attributes(Some(10), Some(1), Some(0o100600));
    assert!(!regular.is_directory);
    assert_eq!(regular.modified, Some(1000));
    let link = Stat::from_attributes(None, None, Some(0o120777));
    assert!(!link.is_directory);
    assert_eq!(link.size, None);
    assert_eq!(link.modified, None);
}

#[test]
fn sftp_attributes_without_permissions() {
    let stat = Stat::from_attributes(Some(1), Some(u64::MAX), None);
    assert!(!stat.is_directory);
    assert!(matches!(stat.permissions, Permissions::Unknown));
    assert_eq!(stat.modified, Some(18_446_744_073_709_551_615_000));
    assert_eq!(normalize(Backend::Sftp, "/x", &stat, None, None).attributes, "-");
}
