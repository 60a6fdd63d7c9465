//! Assembly of listings from what the backends hand over.
//!
//! A hierarchical backend (local or SFTP) gives the metadata of the parent
//! and one record per child. The object store has no directories: at the
//! root it gives its containers, and inside a container the common
//! prefixes and the objects found under a key prefix.

use vstd::prelude::*;

use crate::attributes::Permissions;
use crate::invariants::{
    active_count, all_named, distinct_containers, distinct_names, distinct_prefixes,
    lemma_containers_have_no_parent, lemma_containers_listing_one_active, lemma_directory_listing_one_active,
    lemma_directory_parent_first, lemma_objects_listing_one_active, lemma_objects_parent_first,
};
use crate::model::{entries, Entry, FileInfo, ListResponse, Listing};
use crate::navigator::{
    canonical, directory_key, display_name, object_prefix_of, Location, Resolved, SEPARATOR,
};
use crate::normalizer::{entry_of, extension_of, normalize, split_name, stem_of, Backend, Record, Stat};
use crate::text::{chars_of, opt_str, strip_prefix, stripped, text_between};

verus! {

/// One object as the store lists it: its full key and what the listing
/// says about it.
#[derive(Debug)]
pub struct ObjectRecord {
    pub key: String,
    /// Size in bytes.
    pub size: Option<u64>,
    /// Modification time in milliseconds since the epoch.
    pub modified: Option<u128>,
}

/// The record of an object as the store's listing gives it: the size as a
/// signed number of bytes, the modification time in signed milliseconds
/// since the epoch. A negative value counts as unknown.
pub open spec fn object_of(key: String, size: i64, modified: Option<i64>) -> ObjectRecord {
    ObjectRecord {
        key,
        size: if size >= 0 {
            Some(size as u64)
        } else {
            None
        },
        modified: match modified {
            Some(millis) if millis >= 0 => Some(millis as u128),
            _ => None,
        },
    }
}

impl ObjectRecord {
    /// Takes an object from the store's listing.
    pub fn from_listing(key: String, size: i64, modified: Option<i64>) -> (out: ObjectRecord)
        ensures
            out == object_of(key, size, modified),
    {
        ObjectRecord {
            key,
            size: if size >= 0 {
                Some(size as u64)
            } else {
                None
            },
            modified: match modified {
                Some(millis) if millis >= 0 => Some(millis as u128),
                _ => None,
            },
        }
    }
}

/// What stands for a directory about which nothing could be read.
pub open spec fn unread_directory() -> Stat {
    Stat { is_directory: true, size: None, modified: None, permissions: Permissions::Unknown }
}

/// The parent entry of a hierarchical location: the record of the parent
/// directory under the name `..`.
pub open spec fn parent_entry(backend: Backend, segments: Seq<Seq<char>>, stat: Option<Stat>) -> Entry {
    entry_of(
        backend,
        canonical(segments.drop_last()),
        match stat {
            Some(stat) => stat,
            None => unread_directory(),
        },
        Some(".."@),
        None,
    )
}

/// The parent entry where the location has a parent, else nothing.
pub open spec fn parent_entries(backend: Backend, segments: Seq<Seq<char>>, stat: Option<Stat>) -> Seq<
    Entry,
> {
    if segments.len() > 0 {
        seq![parent_entry(backend, segments, stat)]
    } else {
        Seq::empty()
    }
}

/// The entry of one child; none for a child that could not be read.
pub open spec fn child_entry(backend: Backend, active_key: Option<Seq<char>>) -> spec_fn(Record) -> Option<
    Entry,
> {
    |child: Record|
        match child.stat {
            Some(stat) => Some(entry_of(backend, child.path@, stat, None, active_key)),
            None => None,
        }
}

/// The listing of a hierarchical location: the parent entry, where there
/// is a parent, then the readable children in the order given.
pub open spec fn directory_listing(
    backend: Backend,
    location: Location,
    parent: Option<Stat>,
    children: Seq<Record>,
) -> Listing {
    Listing {
        path: canonical(location.segments),
        name: display_name(location.segments),
        files: parent_entries(backend, location.segments, parent) + children.filter_map(
            child_entry(backend, location.active_key),
        ),
    }
}

/// An entry of the object store: no attributes, no alternative icon.
pub open spec fn store_entry(
    key: Seq<char>,
    name: Seq<char>,
    extension: Seq<char>,
    is_directory: bool,
    icon: Seq<char>,
    size: u64,
    date: u128,
    is_active: bool,
) -> Entry {
    Entry {
        key,
        is_directory,
        icon,
        icon_alt: None,
        icon_type: Seq::empty(),
        name,
        extension,
        size,
        date,
        attributes: "-"@,
        is_active,
    }
}

/// The entry that leads from a container back to the list of containers.
pub open spec fn store_parent_entry() -> Entry {
    store_entry(".."@, ".."@, Seq::empty(), true, "region"@, 0, 0, false)
}

/// The parent entry inside a container, nothing at the root.
pub open spec fn store_parent_entries(segments: Seq<Seq<char>>) -> Seq<Entry> {
    if segments.len() > 0 {
        seq![store_parent_entry()]
    } else {
        Seq::empty()
    }
}

/// The entry of a container: a directory under the container's name.
pub open spec fn container_entry(active_key: Option<Seq<char>>) -> spec_fn(String) -> Entry {
    |name: String|
        store_entry(
            directory_key(name@),
            name@,
            Seq::empty(),
            true,
            "region"@,
            0,
            0,
            active_key == Some(directory_key(name@)),
        )
}

/// `text` without one separator at its end.
pub open spec fn chopped(text: Seq<char>) -> Seq<char> {
    if text.len() > 0 && text.last() == SEPARATOR {
        text.drop_last()
    } else {
        text
    }
}

/// The name that a common prefix shows under the listed prefix: what
/// follows the listed prefix, without the separator at its end. None where
/// the key does not start with the listed prefix or names nothing behind
/// it.
pub open spec fn prefix_name(prefix: Seq<char>, key: Seq<char>) -> Option<Seq<char>> {
    match stripped(key, prefix) {
        Some(rest) if chopped(rest).len() > 0 => Some(chopped(rest)),
        _ => None,
    }
}

/// The key that an object has under the listed prefix: what follows the
/// listed prefix. None where the key does not start with the listed prefix
/// or is the prefix itself.
pub open spec fn object_name(prefix: Seq<char>, key: Seq<char>) -> Option<Seq<char>> {
    match stripped(key, prefix) {
        Some(rest) if rest.len() > 0 => Some(rest),
        _ => None,
    }
}

/// The entry of a common prefix: a directory under its name, where it has
/// one.
pub open spec fn prefix_entry(prefix: Seq<char>, active_key: Option<Seq<char>>) -> spec_fn(
    String,
) -> Option<Entry> {
    |key: String|
        match prefix_name(prefix, key@) {
            Some(name) => Some(
                store_entry(
                    directory_key(name),
                    name,
                    Seq::empty(),
                    true,
                    "bucket"@,
                    0,
                    0,
                    active_key == Some(directory_key(name)),
                ),
            ),
            None => None,
        }
}

/// The entry of an object: a file under its key, where it has one. The key
/// splits into name and extension as a file name does.
pub open spec fn object_entry(prefix: Seq<char>) -> spec_fn(ObjectRecord) -> Option<Entry> {
    |object: ObjectRecord|
        match object_name(prefix, object.key@) {
            Some(key) => Some(
                store_entry(
                    key,
                    stem_of(key),
                    extension_of(key),
                    false,
                    "object"@,
                    match object.size {
                        Some(size) => size,
                        None => 0,
                    },
                    match object.modified {
                        Some(modified) => modified,
                        None => 0,
                    },
                    false,
                ),
            ),
            None => None,
        }
}

/// The listing of the object store's root: one directory per container.
pub open spec fn containers_listing(active_key: Option<Seq<char>>, names: Seq<String>) -> Listing {
    Listing {
        path: seq![SEPARATOR],
        name: seq![SEPARATOR],
        files: names.map_values(container_entry(active_key)),
    }
}

/// The listing of a location inside a container: the parent entry, the
/// common prefixes as directories, then the objects as files.
pub open spec fn objects_listing(
    location: Location,
    prefixes: Seq<String>,
    objects: Seq<ObjectRecord>,
) -> Listing {
    let prefix = object_prefix_of(location.segments);
    Listing {
        path: canonical(location.segments),
        name: display_name(location.segments),
        files: store_parent_entries(location.segments) + prefixes.filter_map(
            prefix_entry(prefix, location.active_key),
        ) + objects.filter_map(object_entry(prefix)),
    }
}

proof fn lemma_entries_push(before: Seq<FileInfo>, after: Seq<FileInfo>, file: FileInfo)
    requires
        after == before.push(file),
    ensures
        entries(after) == entries(before).push(file@),
{
    assert(entries(after) =~= entries(before).push(file@));
}

fn active_of(location: &Resolved) -> (out: Option<&str>)
    ensures
        opt_str(out) == location@.active_key,
{
    match &location.active_key {
        Some(key) => Some(key.as_str()),
        None => None,
    }
}

/// Assembles the listing of a local or SFTP directory.
///
/// `parent` is the metadata of the parent directory, `None` where it could
/// not be read: the parent entry is listed all the same, with nothing
/// known about it. A child without metadata is left out.
///
/// Where every child's path ends in its name, the first entry has the key
/// `..` exactly below the root. Where no two children have the same name,
/// at most one entry is active.
pub fn list_directory(
    backend: Backend,
    location: &Resolved,
    parent: Option<Stat>,
    children: &Vec<Record>,
) -> (out: ListResponse)
    ensures
        out@ == directory_listing(backend, location@, parent, children@),
        all_named(children@) ==> ((out@.files.len() > 0 && out@.files[0].key == ".."@)
            <==> location@.segments.len() > 0),
        distinct_names(children@) ==> active_count(out@.files) <= 1,
{
    let mut files: Vec<FileInfo> = Vec::new();
    let active = active_of(location);
    let ghost convert = child_entry(backend, location@.active_key);
    let ghost head = parent_entries(backend, location@.segments, parent);
    match location.parent_path() {
        Some(parent_path) => {
            let stat = match parent {
                Some(stat) => stat,
                None => Stat {
                    is_directory: true,
                    size: None,
                    modified: None,
                    permissions: Permissions::Unknown,
                },
            };
            let entry = normalize(backend, parent_path.as_str(), &stat, Some(".."), None);
            files.push(entry);
            proof {
                assert(entries(files@) =~= head);
            }
        },
        None => {
            proof {
                assert(entries(files@) =~= head);
            }
        },
    }
    let mut i: usize = 0;
    proof {
        assert(children@.take(0).filter_map(convert) =~= Seq::<Entry>::empty());
        assert(head + Seq::<Entry>::empty() =~= head);
    }
    while i < children.len()
        invariant
            i <= children.len(),
            convert == child_entry(backend, location@.active_key),
            opt_str(active) == location@.active_key,
            entries(files@) == head + children@.take(i as int).filter_map(convert),
        decreases children.len() - i,
    {
        proof {
            children@.lemma_filter_map_take_succ(convert, i as int);
        }
        match children[i].stat {
            Some(stat) => {
                let ghost before = files@;
                let entry = normalize(backend, children[i].path.as_str(), &stat, None, active);
                files.push(entry);
                proof {
                    lemma_entries_push(before, files@, entry);
                    assert(entries(files@) =~= head + children@.take(i + 1).filter_map(convert));
                }
            },
            None => {
                proof {
                    assert(entries(files@) =~= head + children@.take(i + 1).filter_map(convert));
                }
            },
        }
        i += 1;
    }
    proof {
        assert(children@.take(children.len() as int) =~= children@);
        if all_named(children@) {
            lemma_directory_parent_first(backend, location@, parent, children@);
        }
        if distinct_names(children@) {
            lemma_directory_listing_one_active(backend, location@, parent, children@);
        }
    }
    ListResponse { path: location.canonical_path(), name: location.name(), files }
}

fn store_file(
    key: String,
    name: String,
    extension: String,
    is_directory: bool,
    icon: &str,
    size: u64,
    date: u128,
    is_active: bool,
) -> (out: FileInfo)
    ensures
        out@ == store_entry(key@, name@, extension@, is_directory, icon@, size, date, is_active),
{
    FileInfo {
        key,
        is_directory,
        icon: icon.to_owned(),
        icon_alt: None,
        icon_type: String::new(),
        name,
        extension,
        size,
        date,
        attributes: "-".to_owned(),
        is_active,
    }
}

fn is_active_key(active: Option<&str>, key: &String) -> (r: bool)
    ensures
        r == (opt_str(active) == Some(key@)),
{
    match active {
        Some(active) => active.to_owned() == *key,
        None => false,
    }
}

/// `text` without one separator at its end.
fn chop(text: &str) -> (out: String)
    ensures
        out@ == chopped(text@),
{
    let chars = chars_of(text);
    let n = chars.len();
    if n > 0 && chars[n - 1] == SEPARATOR {
        let out = text_between(&chars, 0, n - 1);
        proof {
            assert(chars@.subrange(0, n - 1) =~= chars@.drop_last());
        }
        out
    } else {
        text.to_owned()
    }
}

/// Assembles the listing of the object store's root from the names of the
/// containers. There is no parent entry. Where no two containers have the
/// same name, at most one entry is active.
pub fn list_containers(active_key: Option<&str>, names: &Vec<String>) -> (out: ListResponse)
    ensures
        out@ == containers_listing(opt_str(active_key), names@),
        out@.files.len() > 0 ==> out@.files[0].key != ".."@,
        distinct_containers(names@) ==> active_count(out@.files) <= 1,
{
    let ghost convert = container_entry(opt_str(active_key));
    let mut files: Vec<FileInfo> = Vec::new();
    let mut i: usize = 0;
    while i < names.len()
        invariant
            i <= names.len(),
            convert == container_entry(opt_str(active_key)),
            entries(files@) == names@.take(i as int).map_values(convert),
        decreases names.len() - i,
    {
        let ghost before = files@;
        let name = names[i].clone();
        let mut key = names[i].clone();
        key.push(SEPARATOR);
        let is_active = is_active_key(active_key, &key);
        let entry = store_file(key, name, String::new(), true, "region", 0, 0, is_active);
        files.push(entry);
        proof {
            lemma_entries_push(before, files@, entry);
            assert(entries(files@) =~= names@.take(i + 1).map_values(convert));
        }
        i += 1;
    }
    proof {
        assert(names@.take(names.len() as int) =~= names@);
        lemma_containers_have_no_parent(opt_str(active_key), names@);
        if distinct_containers(names@) {
            lemma_containers_listing_one_active(opt_str(active_key), names@);
        }
    }
    let mut path = String::new();
    path.push(SEPARATOR);
    let mut name = String::new();
    name.push(SEPARATOR);
    proof {
        assert(path@ =~= seq![SEPARATOR]);
        assert(name@ =~= seq![SEPARATOR]);
    }
    ListResponse { path, name, files }
}

/// Assembles the listing of a location inside a container from the common
/// prefixes and the objects that the store found under the location's
/// object prefix.
///
/// A key that does not start with that prefix is left out, and so is one
/// that names nothing behind it. Inside a container the parent entry comes
/// first. Where no two common prefixes show the same name, at most one
/// entry is active.
pub fn list_objects(location: &Resolved, prefixes: &Vec<String>, objects: &Vec<ObjectRecord>) -> (out:
    ListResponse)
    ensures
        out@ == objects_listing(location@, prefixes@, objects@),
        location@.segments.len() > 0 ==> out@.files.len() > 0 && out@.files[0].key == ".."@,
        distinct_prefixes(object_prefix_of(location@.segments), prefixes@) ==> active_count(out@.files)
            <= 1,
{
    let prefix = location.object_prefix();
    let active = active_of(location);
    let ghost to_directory = prefix_entry(prefix@, location@.active_key);
    let ghost to_file = object_entry(prefix@);
    let ghost head = store_parent_entries(location@.segments);
    let mut files: Vec<FileInfo> = Vec::new();
    if location.has_parent() {
        let entry = store_file("..".to_owned(), "..".to_owned(), String::new(), true, "region", 0, 0, false);
        files.push(entry);
    }
    proof {
        assert(entries(files@) =~= head);
        assert(prefixes@.take(0).filter_map(to_directory) =~= Seq::<Entry>::empty());
        assert(head + Seq::<Entry>::empty() =~= head);
    }
    let mut i: usize = 0;
    while i < prefixes.len()
        invariant
            i <= prefixes.len(),
            to_directory == prefix_entry(prefix@, location@.active_key),
            opt_str(active) == location@.active_key,
            entries(files@) == head + prefixes@.take(i as int).filter_map(to_directory),
        decreases prefixes.len() - i,
    {
        proof {
            prefixes@.lemma_filter_map_take_succ(to_directory, i as int);
        }
        match strip_prefix(prefixes[i].as_str(), prefix.as_str()) {
            Some(rest) => {
                let name = chop(rest);
                if !name.as_str().is_empty() {
                    let ghost before = files@;
                    let mut key = name.clone();
                    key.push(SEPARATOR);
                    let is_active = is_active_key(active, &key);
                    let entry = store_file(key, name, String::new(), true, "bucket", 0, 0, is_active);
                    files.push(entry);
                    proof {
                        lemma_entries_push(before, files@, entry);
                    }
                }
            },
            None => {},
        }
        proof {
            assert(entries(files@) =~= head + prefixes@.take(i + 1).filter_map(to_directory));
        }
        i += 1;
    }
    proof {
        assert(prefixes@.take(prefixes.len() as int) =~= prefixes@);
        assert(objects@.take(0).filter_map(to_file) =~= Seq::<Entry>::empty());
    }
    let ghost upper = head + prefixes@.filter_map(to_directory);
    proof {
        assert(upper + Seq::<Entry>::empty() =~= upper);
    }
    let mut j: usize = 0;
    while j < objects.len()
        invariant
            j <= objects.len(),
            to_file == object_entry(prefix@),
            entries(files@) == upper + objects@.take(j as int).filter_map(to_file),
        decreases objects.len() - j,
    {
        proof {
            objects@.lemma_filter_map_take_succ(to_file, j as int);
        }
        match strip_prefix(objects[j].key.as_str(), prefix.as_str()) {
            Some(rest) => {
                if !rest.is_empty() {
                    let ghost before = files@;
                    let (name, extension) = split_name(rest);
                    let size = match objects[j].size {
                        Some(size) => size,
                        None => 0,
                    };
                    let date = match objects[j].modified {
                        Some(modified) => modified,
                        None => 0,
                    };
                    let entry = store_file(rest.to_owned(), name, extension, false, "object", size, date, false);
                    files.push(entry);
                    proof {
                        lemma_entries_push(before, files@, entry);
                    }
                }
            },
            None => {},
        }
        proof {
            assert(entries(files@) =~= upper + objects@.take(j + 1).filter_map(to_file));
        }
        j += 1;
    }
    proof {
        assert(objects@.take(objects.len() as int) =~= objects@);
        if location@.segments.len() > 0 {
            lemma_objects_parent_first(location@, prefixes@, objects@);
        }
        if distinct_prefixes(object_prefix_of(location@.segments), prefixes@) {
            lemma_objects_listing_one_active(location@, prefixes@, objects@);
        }
    }
    ListResponse { path: location.canonical_path(), name: location.name(), files }
}

} // verus!
