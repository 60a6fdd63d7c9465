use xcmd_base::attributes::Permissions;
use xcmd_base::listing::{list_containers, list_directory, list_objects, ObjectRecord};
use xcmd_base::model::{FileInfo, ListRequest, ListResponse};
use xcmd_base::navigator::{resolve, Resolved};
use xcmd_base::normalizer::{Backend, Record, Stat};

fn at(path: &str, key: Option<&str>) -> Resolved {
    resolve(&ListRequest { path: Some(path.to_string()), key: key.map(|k| k.to_string()) })
}

fn dir_stat() -> Stat {
    Stat {
        is_directory: true,
        size: Some(4096),
        modified: Some(1_000),
        permissions: Permissions::Posix(0o040755),
    }
}

fn file_stat(size: u64) -> Stat {
    Stat {
        is_directory: false,
        size: Some(size),
        modified: Some(2_000),
        permissions: Permissions::Posix(0o100644),
    }
}

fn dir(path: &str) -> Record {
    Record { path: path.to_string(), stat: Some(dir_stat()) }
}

fn file(path: &str, size: u64) -> Record {
    Record { path: path.to_string(), stat: Some(file_stat(size)) }
}

fn unreadable(path: &str) -> Record {
    Record { path: path.to_string(), stat: None }
}

fn object(key: &str) -> ObjectRecord {
    ObjectRecord { key: key.to_string(), size: Some(7), modified: Some(3_000) }
}

fn keys(response: &ListResponse) -> Vec<String> {
    let mut out = Vec::new();
    for entry in &response.files {
        out.push(entry.key.clone());
    }
    out
}

fn active_count(response: &ListResponse) -> usize {
    let mut count = 0;
    for entry in &response.files {
        if entry.is_active {
            count += 1;
        }
    }
    count
}

fn strings(items: &[&str]) -> Vec<String> {
    let mut out = Vec::new();
    for item in items {
        out.push(item.to_string());
    }
    out
}

fn find<'a>(response: &'a ListResponse, key: &str) -> &'a FileInfo {
    for entry in &response.files {
        if entry.key == key {
            return entry;
        }
    }
    panic!("no entry with key {}", key);
}

#[test]
fn directory_listing_has_parent_then_children_in_order() {
    let location = at("/a/b", None);
    let children = vec![file("/a/b/z.txt", 5), dir("/a/b/c"), file("/a/b/a.txt", 6)];
    let response = list_directory(Backend::Sftp, &location, Some(dir_stat()), &children);
    assert_eq!(response.path, "/a/b");
    assert_eq!(response.name, "b");
    assert_eq!(keys(&response), vec!["..", "z.txt", "c/", "a.txt"]);
    let parent = &response.files[0];
    assert_eq!(parent.name, "..");
    assert!(parent.is_directory);
    assert!(!parent.is_active);
    assert_eq!(parent.attributes, "drwxr-xr-x");
    assert_eq!(parent.date, 1_000);
    assert_eq!(parent.size, 0);
}

#[test]
fn ascend_then_relist_marks_the_directory_left() {
    let first = at("/a/b/c", None);
    assert_eq!(first.canonical_path(), "/a/b/c");
    let second = at("/a/b/c", Some(".."));
    assert_eq!(second.canonical_path(), "/a/b");
    let children = vec![dir("/a/b/a"), dir("/a/b/c"), file("/a/b/c.txt", 1), dir("/a/b/d")];
    let response = list_directory(Backend::Local, &second, Some(dir_stat()), &children);
    assert_eq!(response.path, "/a/b");
    assert_eq!(keys(&response), vec!["..", "a/", "c/", "c.txt", "d/"]);
    assert!(find(&response, "c/").is_active);
    assert!(!find(&response, "a/").is_active);
    assert!(!find(&response, "c.txt").is_active);
    assert!(!find(&response, "..").is_active);
    assert_eq!(active_count(&response), 1);
}

#[test]
fn root_listing_has_no_parent_entry() {
    let location = at("/", None);
    let children = vec![dir("/etc"), file("/vmlinuz", 9)];
    let response = list_directory(Backend::Local, &location, None, &children);
    assert_eq!(response.path, "/");
    assert_eq!(response.name, "/");
    assert_eq!(keys(&response), vec!["etc/", "vmlinuz"]);
}

#[test]
fn empty_root_listing_is_empty() {
    let location = at("/", None);
    let response = list_directory(Backend::Local, &location, None, &Vec::new());
    assert!(response.files.is_empty());
}

#[test]
fn parent_entry_is_first_exactly_below_the_root() {
    let children = vec![dir("/x/y")];
    let below = list_directory(Backend::Sftp, &at("/x", None), Some(dir_stat()), &children);
    assert_eq!(below.files[0].key, "..");
    let top = list_directory(Backend::Sftp, &at("/", None), Some(dir_stat()), &children);
    assert_ne!(top.files[0].key, "..");
    assert_eq!(top.files.len(), 1);
}

#[test]
fn unread_parent_is_listed_with_nothing_known() {
    let response = list_directory(Backend::Local, &at("/a/b", None), None, &Vec::new());
    assert_eq!(response.files.len(), 1);
    let parent = &response.files[0];
    assert_eq!(parent.key, "..");
    assert_eq!(parent.name, "..");
    assert!(parent.is_directory);
    assert_eq!(parent.size, 0);
    assert_eq!(parent.date, 0);
    assert_eq!(parent.attributes, "-");
    assert_eq!(parent.icon, "folder?path=%2Fa");
}

#[test]
fn unreadable_child_is_left_out() {
    let children = vec![file("/d/one.txt", 1), unreadable("/d/secret"), dir("/d/two")];
    let response = list_directory(Backend::Local, &at("/d", None), Some(dir_stat()), &children);
    assert_eq!(keys(&response), vec!["..", "one.txt", "two/"]);
    for entry in &response.files {
        assert_ne!(entry.name, "secret");
    }
}

#[test]
fn all_children_unreadable_leaves_the_parent() {
    let children = vec![unreadable("/d/a"), unreadable("/d/b")];
    let response = list_directory(Backend::Sftp, &at("/d", None), Some(dir_stat()), &children);
    assert_eq!(keys(&response), vec![".."]);
}

#[test]
fn at_most_one_entry_is_active() {
    let location = at("/p/q", Some(".."));
    let children = vec![dir("/p/a"), dir("/p/q"), dir("/p/qq"), file("/p/q.txt", 2)];
    let response = list_directory(Backend::Sftp, &location, Some(dir_stat()), &children);
    assert_eq!(active_count(&response), 1);
    let none = list_directory(Backend::Sftp, &at("/p", None), Some(dir_stat()), &children);
    assert_eq!(active_count(&none), 0);
}

#[test]
fn child_keys_lead_back_to_the_children() {
    let location = at("/a/b", None);
    let children = vec![dir("/a/b/c"), file("/a/b/d.txt", 1)];
    let response = list_directory(Backend::Sftp, &location, Some(dir_stat()), &children);
    let into_dir = at(&response.path, Some(&response.files[1].key));
    assert_eq!(into_dir.canonical_path(), "/a/b/c");
    let onto_file = at(&response.path, Some(&response.files[2].key));
    assert_eq!(onto_file.canonical_path(), "/a/b/d.txt");
    let up = at(&response.path, Some(&response.files[0].key));
    assert_eq!(up.canonical_path(), "/a");
    assert_eq!(up.active_key, Some("b/".to_string()));
}

#[test]
fn object_store_root_lists_the_containers() {
    let location = resolve(&ListRequest { path: None, key: None });
    assert_eq!(location.container(), None);
    let response = list_containers(None, &strings(&["alpha", "beta"]));
    assert_eq!(response.path, "/");
    assert_eq!(response.name, "/");
    assert_eq!(keys(&response), vec!["alpha/", "beta/"]);
    for entry in &response.files {
        assert!(entry.is_directory);
        assert!(!entry.is_active);
        assert_eq!(entry.icon, "region");
        assert_eq!(entry.icon_alt, None);
        assert_eq!(entry.icon_type, "");
        assert_eq!(entry.size, 0);
        assert_eq!(entry.date, 0);
        assert_eq!(entry.attributes, "-");
        assert_eq!(entry.extension, "");
    }
    assert_eq!(response.files[0].name, "alpha");
    assert_eq!(response.files[1].name, "beta");
}

#[test]
fn object_store_root_marks_the_container_left() {
    let location = at("/alpha", Some(".."));
    assert_eq!(location.container(), None);
    let active = location.active_key.as_deref();
    let response = list_containers(active, &strings(&["alpha", "beta"]));
    assert!(response.files[0].is_active);
    assert!(!response.files[1].is_active);
    assert_eq!(active_count(&response), 1);
}

#[test]
fn container_listing_has_parent_prefixes_and_objects() {
    let location = at("alpha", None);
    assert_eq!(location.container(), Some("alpha".to_string()));
    assert_eq!(location.object_prefix(), "");
    let response = list_objects(&location, &strings(&["docs/"]), &vec![object("top.txt")]);
    assert_eq!(response.path, "/alpha");
    assert_eq!(response.name, "alpha");
    assert_eq!(keys(&response), vec!["..", "docs/", "top.txt"]);
    let parent = &response.files[0];
    assert_eq!(parent.name, "..");
    assert!(parent.is_directory);
    assert_eq!(parent.icon, "region");
    let docs = &response.files[1];
    assert_eq!(docs.name, "docs");
    assert!(docs.is_directory);
    assert_eq!(docs.size, 0);
    assert_eq!(docs.icon, "bucket");
    let top = &response.files[2];
    assert_eq!(top.name, "top");
    assert_eq!(top.extension, "txt");
    assert!(!top.is_directory);
    assert_eq!(top.size, 7);
    assert_eq!(top.date, 3_000);
    assert_eq!(top.icon, "object");
    assert_eq!(top.attributes, "-");
}

#[test]
fn nested_prefix_names_are_taken_behind_the_prefix() {
    let location = at("/alpha/docs", None);
    assert_eq!(location.object_prefix(), "docs/");
    let prefixes = strings(&["docs/img/"]);
    let objects = vec![object("docs/"), object("docs/readme.txt")];
    let response = list_objects(&location, &prefixes, &objects);
    assert_eq!(response.path, "/alpha/docs");
    assert_eq!(response.name, "docs");
    assert_eq!(keys(&response), vec!["..", "img/", "readme.txt"]);
}

#[test]
fn keys_outside_the_prefix_are_left_out() {
    let location = at("/alpha/docs", None);
    let prefixes = strings(&["other/img/", "docs/", "doc", "docs/ok/"]);
    let objects = vec![object("other.txt"), object("docs"), object("docs/ok.txt")];
    let response = list_objects(&location, &prefixes, &objects);
    assert_eq!(keys(&response), vec!["..", "ok/", "ok.txt"]);
}

#[test]
fn container_listing_marks_the_prefix_left() {
    let location = at("/alpha/docs/img", Some(".."));
    assert_eq!(location.canonical_path(), "/alpha/docs");
    let prefixes = strings(&["docs/img/", "docs/raw/"]);
    let objects = vec![object("docs/img")];
    let response = list_objects(&location, &prefixes, &objects);
    assert_eq!(keys(&response), vec!["..", "img/", "raw/", "img"]);
    assert!(response.files[1].is_active);
    assert!(!response.files[2].is_active);
    assert!(!response.files[3].is_active);
    assert_eq!(active_count(&response), 1);
}

#[test]
fn object_without_size_and_date_degrades_to_zero() {
    let location = at("/alpha", None);
    let objects = vec![ObjectRecord { key: "x".to_string(), size: None, modified: None }];
    let response = list_objects(&location, &Vec::new(), &objects);
    assert_eq!(response.files[1].size, 0);
    assert_eq!(response.files[1].date, 0);
    assert_eq!(response.files[1].name, "x");
    assert_eq!(response.files[1].extension, "");
}

#[test]
fn store_keys_lead_back_to_the_entries() {
    let location = at("/alpha", None);
    let response = list_objects(&location, &strings(&["docs/"]), &vec![object("top.txt")]);
    let into = at(&response.path, Some(&response.files[1].key));
    assert_eq!(into.canonical_path(), "/alpha/docs");
    assert_eq!(into.object_prefix(), "docs/");
    let up = at(&response.path, Some(&response.files[0].key));
    assert_eq!(up.canonical_path(), "/");
    assert_eq!(up.container(), None);
    assert_eq!(up.active_key, Some("alpha/".to_string()));
}

#[test]
fn object_from_the_listing() {
    let known = ObjectRecord::from_listing("a/b.txt".to_string(), 12, Some(1_700_000_000_123));
    assert_eq!(known.key, "a/b.txt");
    assert_eq!(known.size, Some(12));
    assert_eq!(known.modified, Some(1_700_000_000_123));
    let empty = ObjectRecord::from_listing("e".to_string(), 0, Some(0));
    assert_eq!(empty.size, Some(0));
    assert_eq!(empty.modified, Some(0));
    let unknown = ObjectRecord::from_listing("u".to_string(), -1, Some(-5));
    assert_eq!(unknown.size, None);
    assert_eq!(unknown.modified, None);
    let undated = ObjectRecord::from_listing("u".to_string(), i64::MAX, None);
    assert_eq!(undated.size, Some(9_223_372_036_854_775_807));
    assert_eq!(undated.modified, None);
}

/// What a store answers to a listing of `keys` by `prefix` with the
/// separator as delimiter: the common prefixes and the objects.
fn store_answer(keys: &[&str], prefix: &str) -> (Vec<String>, Vec<ObjectRecord>) {
    let mut prefixes: Vec<String> = Vec::new();
    let mut objects = Vec::new();
    for key in keys {
        if let Some(rest) = key.strip_prefix(prefix) {
            match rest.find('/') {
                Some(cut) => {
                    let common = format!("{}{}", prefix, &rest[..=cut]);
                    if !prefixes.contains(&common) {
                        prefixes.push(common);
                    }
                }
                None => objects.push(object(key)),
            }
        }
    }
    (prefixes, objects)
}

#[test]
fn container_with_nested_keys_lists_one_level() {
    let bucket = ["docs/readme.txt", "docs/img/logo.png", "top.txt"];
    let location = at("alpha", None);
    let (prefixes, objects) = store_answer(&bucket, &location.object_prefix());
    let response = list_objects(&location, &prefixes, &objects);
    assert_eq!(response.path, "/alpha");
    assert_eq!(keys(&response), vec!["..", "docs/", "top.txt"]);
    assert!(response.files[0].is_directory);
    assert!(response.files[1].is_directory);
    assert!(!response.files[2].is_directory);

    let below = at(&response.path, Some(&response.files[1].key));
    assert_eq!(below.container(), Some("alpha".to_string()));
    let (prefixes, objects) = store_answer(&bucket, &below.object_prefix());
    let response = list_objects(&below, &prefixes, &objects);
    assert_eq!(response.path, "/alpha/docs");
    assert_eq!(keys(&response), vec!["..", "img/", "readme.txt"]);

    let deeper = at(&response.path, Some(&response.files[1].key));
    let (prefixes, objects) = store_answer(&bucket, &deeper.object_prefix());
    let response = list_objects(&deeper, &prefixes, &objects);
    assert_eq!(response.path, "/alpha/docs/img");
    assert_eq!(keys(&response), vec!["..", "logo.png"]);

    let back = at(&response.path, Some(&response.files[0].key));
    assert_eq!(back.canonical_path(), "/alpha/docs");
    let (prefixes, objects) = store_answer(&bucket, &back.object_prefix());
    let response = list_objects(&back, &prefixes, &objects);
    assert_eq!(keys(&response), vec!["..", "img/", "readme.txt"]);
    assert!(response.files[1].is_active);
    assert_eq!(active_count(&response), 1);
}
