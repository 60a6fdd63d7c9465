use xcmd_base::model::ListRequest;
use xcmd_base::navigator::{relocate, resolve, split_components, trim_long_path_prefix, Resolved};
use xcmd_base::text::{chars_of, strip_prefix};

fn request(path: Option<&str>, key: Option<&str>) -> ListRequest {
    ListRequest { path: path.map(|p| p.to_string()), key: key.map(|k| k.to_string()) }
}

fn located(path: Option<&str>, key: Option<&str>) -> Resolved {
    resolve(&request(path, key))
}

#[test]
fn absent_path_is_the_root() {
    let at = located(None, None);
    assert!(at.segments.is_empty());
    assert_eq!(at.active_key, None);
    assert_eq!(at.canonical_path(), "/");
    assert_eq!(at.name(), "/");
    assert!(!at.has_parent());
    assert_eq!(at.parent_path(), None);
}

#[test]
fn path_alone_is_kept() {
    let at = located(Some("/a/b/c"), None);
    assert_eq!(at.segments, vec!["a", "b", "c"]);
    assert_eq!(at.active_key, None);
    assert_eq!(at.canonical_path(), "/a/b/c");
    assert_eq!(at.name(), "c");
    assert!(at.has_parent());
    assert_eq!(at.parent_path(), Some("/a/b".to_string()));
}

#[test]
fn key_descends() {
    let at = located(Some("/a/b"), Some("c/"));
    assert_eq!(at.canonical_path(), "/a/b/c");
    assert_eq!(at.active_key, None);
    let bare = located(Some("/a/b"), Some("c"));
    assert_eq!(bare.canonical_path(), "/a/b/c");
}

#[test]
fn key_ascends_and_names_the_directory_left() {
    let at = located(Some("/a/b/c"), Some(".."));
    assert_eq!(at.canonical_path(), "/a/b");
    assert_eq!(at.name(), "b");
    assert_eq!(at.active_key, Some("c/".to_string()));
    let slashed = located(Some("/a/b/c"), Some("../"));
    assert_eq!(slashed.canonical_path(), "/a/b");
    assert_eq!(slashed.active_key, Some("c/".to_string()));
}

#[test]
fn ascending_to_the_root_keeps_the_active_key() {
    let at = located(Some("/a"), Some(".."));
    assert_eq!(at.canonical_path(), "/");
    assert_eq!(at.active_key, Some("a/".to_string()));
    assert!(!at.has_parent());
}

#[test]
fn ascending_past_the_root_is_absorbed() {
    let at = located(Some("/"), Some(".."));
    assert_eq!(at.canonical_path(), "/");
    assert_eq!(at.active_key, None);
    let twice = located(Some("/a"), Some("../.."));
    assert_eq!(twice.canonical_path(), "/");
    assert_eq!(twice.active_key, None);
}

#[test]
fn walk_stops_where_it_leaves_the_root() {
    let at = located(Some("/../a/b"), None);
    assert!(at.segments.is_empty());
    assert_eq!(at.canonical_path(), "/");
    assert_eq!(at.active_key, None);
}

#[test]
fn repeated_separators_collapse() {
    let at = located(Some("//a///b//"), Some("c//"));
    assert_eq!(at.segments, vec!["a", "b", "c"]);
    assert_eq!(at.canonical_path(), "/a/b/c");
}

#[test]
fn dot_segments_collapse() {
    let at = located(Some("/a/./b/."), Some("./c"));
    assert_eq!(at.canonical_path(), "/a/b/c");
    assert_eq!(at.active_key, None);
}

#[test]
fn dot_behind_an_ascent_keeps_the_active_key() {
    let at = located(Some("/a/b/.././"), None);
    assert_eq!(at.canonical_path(), "/a");
    assert_eq!(at.active_key, Some("b/".to_string()));
}

#[test]
fn descent_behind_an_ascent_clears_the_active_key() {
    let at = located(Some("/a/b/../c"), None);
    assert_eq!(at.canonical_path(), "/a/c");
    assert_eq!(at.active_key, None);
}

#[test]
fn inner_ascent_pops_the_segment_before_it() {
    let at = located(Some("/a/b/../../c/d"), Some(".."));
    assert_eq!(at.canonical_path(), "/c");
    assert_eq!(at.active_key, Some("d/".to_string()));
}

#[test]
fn absolute_key_replaces_the_path() {
    let at = located(Some("/a/b"), Some("/x/y"));
    assert_eq!(at.canonical_path(), "/x/y");
}

#[test]
fn relative_path_is_taken_from_the_root() {
    let at = located(Some("alpha"), None);
    assert_eq!(at.canonical_path(), "/alpha");
    assert_eq!(at.name(), "alpha");
}

#[test]
fn empty_path_and_empty_key_are_the_root() {
    let at = located(Some(""), Some(""));
    assert_eq!(at.canonical_path(), "/");
    assert_eq!(at.active_key, None);
}

#[test]
fn names_that_only_look_like_dots_are_kept() {
    let at = located(Some("/..."), Some("..a"));
    assert_eq!(at.segments, vec!["...", "..a"]);
}

#[test]
fn resolving_twice_gives_the_same_location() {
    let first = located(Some("/a/b/c"), Some(".."));
    let second = located(Some("/a/b/c"), Some(".."));
    assert_eq!(first.canonical_path(), second.canonical_path());
    assert_eq!(first.active_key, second.active_key);
}

#[test]
fn canonical_path_resolves_to_itself() {
    let first = located(Some("//a/./b/x/.."), Some("c/"));
    let again = located(Some(&first.canonical_path()), None);
    assert_eq!(again.canonical_path(), first.canonical_path());
    assert_eq!(again.segments, first.segments);
    assert_eq!(again.active_key, None);
}

#[test]
fn split_components_drops_empty_and_dot_pieces() {
    assert_eq!(split_components("/a//./b/../c/"), vec!["a", "b", "..", "c"]);
    assert_eq!(split_components(""), Vec::<String>::new());
    assert_eq!(split_components("/"), Vec::<String>::new());
    assert_eq!(split_components("."), Vec::<String>::new());
    assert_eq!(split_components("x"), vec!["x"]);
}

#[test]
fn container_and_prefix_of_a_store_location() {
    let root = located(None, None);
    assert_eq!(root.container(), None);
    assert_eq!(root.object_prefix(), "");
    let top = located(Some("/alpha"), None);
    assert_eq!(top.container(), Some("alpha".to_string()));
    assert_eq!(top.object_prefix(), "");
    let deep = located(Some("/alpha/docs/img"), None);
    assert_eq!(deep.container(), Some("alpha".to_string()));
    assert_eq!(deep.object_prefix(), "docs/img/");
}

#[test]
fn long_path_prefix_is_trimmed() {
    assert_eq!(trim_long_path_prefix("\\\\?\\C:\\Users"), "C:\\Users");
    assert_eq!(trim_long_path_prefix("/usr/lib"), "/usr/lib");
    assert_eq!(trim_long_path_prefix("\\\\?"), "\\\\?");
    assert_eq!(trim_long_path_prefix(""), "");
    assert_eq!(trim_long_path_prefix("\\\\?\\"), "");
}

#[test]
fn relocate_takes_the_real_path_and_keeps_the_active_key() {
    let asked = located(Some("/link/c"), Some(".."));
    let real = relocate(asked, "\\\\?\\/data/store");
    assert_eq!(real.canonical_path(), "/data/store");
    assert_eq!(real.active_key, Some("c/".to_string()));
}

#[test]
fn non_ascii_names_are_kept() {
    let at = located(Some("/données/été"), Some(".."));
    assert_eq!(at.canonical_path(), "/données");
    assert_eq!(at.active_key, Some("été/".to_string()));
}

#[test]
fn strip_prefix_cases() {
    assert_eq!(strip_prefix("docs/img/", "docs/"), Some("img/"));
    assert_eq!(strip_prefix("docs/", "docs/"), Some(""));
    assert_eq!(strip_prefix("docs", "docs/"), None);
    assert_eq!(strip_prefix("other/x", "docs/"), None);
    assert_eq!(strip_prefix("anything", ""), Some("anything"));
    assert_eq!(strip_prefix("", ""), Some(""));
    assert_eq!(strip_prefix("été/x", "été/"), Some("x"));
}

#[test]
fn chars_of_keeps_every_character() {
    assert_eq!(chars_of("a/é"), vec!['a', '/', 'é']);
    assert_eq!(chars_of(""), Vec::<char>::new());
}
