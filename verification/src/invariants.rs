//! What holds of every listing.
//!
//! The parent entry comes first exactly where there is a parent; at most
//! one entry is active; every entry's key leads back to the entry. Each is
//! stated over the spec functions that the contracts of the listing
//! functions use, for the records that a backend hands over: children whose
//! paths end in their names, and no two of them with the same name.

use vstd::prelude::*;

use crate::laws::{lemma_ascend, lemma_descend, lemma_named_base_is_plain, lemma_object_prefix_grows};
use crate::listing::{
    child_entry, chopped, containers_listing, directory_listing, object_entry, object_name, objects_listing,
    parent_entries, prefix_entry, prefix_name, store_parent_entries, ObjectRecord,
};
use crate::model::Entry;
use crate::navigator::{
    all_plain, canonical, directory_key, is_plain, locate, object_prefix_of, Location, SEPARATOR,
};
use crate::normalizer::{
    base_name, entry_of, extension_of, has_extension, is_named, stem_of, Backend, Record, Stat,
};
use crate::text::{last_index_of, lemma_last_index_of, stripped};

verus! {

/// The number of entries marked active.
pub open spec fn active_count(files: Seq<Entry>) -> nat
    decreases files.len(),
{
    if files.len() == 0 {
        0
    } else {
        active_count(files.drop_last()) + if files.last().is_active {
            1nat
        } else {
            0nat
        }
    }
}

/// Every child's path ends in the child's name.
pub open spec fn all_named(children: Seq<Record>) -> bool {
    forall|i: int| 0 <= i < children.len() ==> (#[trigger] children[i]).wf()
}

/// No two children have the same name.
pub open spec fn distinct_names(children: Seq<Record>) -> bool {
    forall|i: int, j: int|
        0 <= i < j < children.len() ==> base_name(#[trigger] children[i].path@) != base_name(
            #[trigger] children[j].path@,
        )
}

/// No two containers have the same name.
pub open spec fn distinct_containers(names: Seq<String>) -> bool {
    forall|i: int, j: int| 0 <= i < j < names.len() ==> (#[trigger] names[i])@ != (#[trigger] names[j])@
}

/// No two common prefixes show the same name under `prefix`.
pub open spec fn distinct_prefixes(prefix: Seq<char>, keys: Seq<String>) -> bool {
    forall|i: int, j: int|
        0 <= i < j < keys.len() && prefix_name(prefix, (#[trigger] keys[i])@) is Some ==> prefix_name(
            prefix,
            keys[i]@,
        ) != prefix_name(prefix, (#[trigger] keys[j])@)
}

proof fn lemma_none_active(files: Seq<Entry>)
    requires
        forall|i: int| 0 <= i < files.len() ==> !(#[trigger] files[i]).is_active,
    ensures
        active_count(files) == 0,
    decreases files.len(),
{
    if files.len() > 0 {
        let front = files.drop_last();
        assert forall|i: int| 0 <= i < front.len() implies !(#[trigger] front[i]).is_active by {
            assert(front[i] == files[i]);
        }
        lemma_none_active(front);
    }
}

/// Where no two entries are active together, at most one is active.
pub proof fn lemma_no_two_active(files: Seq<Entry>)
    requires
        forall|i: int, j: int|
            0 <= i < j < files.len() ==> !((#[trigger] files[i]).is_active && (
            #[trigger] files[j]).is_active),
    ensures
        active_count(files) <= 1,
    decreases files.len(),
{
    if files.len() > 0 {
        let front = files.drop_last();
        let last = files.len() - 1;
        if files[last].is_active {
            assert forall|i: int| 0 <= i < front.len() implies !(#[trigger] front[i]).is_active by {
                assert(front[i] == files[i]);
                assert(!(files[i].is_active && files[last].is_active));
            }
            lemma_none_active(front);
        } else {
            assert forall|i: int, j: int| 0 <= i < j < front.len() implies !((
            #[trigger] front[i]).is_active && (#[trigger] front[j]).is_active) by {
                assert(front[i] == files[i] && front[j] == files[j]);
            }
            lemma_no_two_active(front);
        }
    }
}

/// An element of a `filter_map` comes from an element of the source.
proof fn lemma_filter_map_source<A, B>(items: Seq<A>, f: spec_fn(A) -> Option<B>, a: int) -> (i: int)
    requires
        0 <= a < items.filter_map(f).len(),
    ensures
        0 <= i < items.len(),
        f(items[i]) == Some(items.filter_map(f)[a]),
    decreases items.len(),
{
    let front = items.drop_last();
    let inner = front.filter_map(f);
    if f(items.last()) is Some && a == inner.len() {
        items.len() - 1
    } else {
        let i = lemma_filter_map_source(front, f, a);
        assert(front[i] == items[i]);
        i
    }
}

/// Two elements of a `filter_map` come from two elements of the source, in
/// the same order.
proof fn lemma_filter_map_sources<A, B>(items: Seq<A>, f: spec_fn(A) -> Option<B>, a: int, b: int) -> (r: (
    int,
    int,
))
    requires
        0 <= a < b < items.filter_map(f).len(),
    ensures
        0 <= r.0 < r.1 < items.len(),
        f(items[r.0]) == Some(items.filter_map(f)[a]),
        f(items[r.1]) == Some(items.filter_map(f)[b]),
    decreases items.len(),
{
    let front = items.drop_last();
    let inner = front.filter_map(f);
    if f(items.last()) is Some && b == inner.len() {
        let i = lemma_filter_map_source(front, f, a);
        assert(front[i] == items[i]);
        (i, items.len() - 1)
    } else {
        let r = lemma_filter_map_sources(front, f, a, b);
        assert(front[r.0] == items[r.0] && front[r.1] == items[r.1]);
        r
    }
}

/// An element of the source that maps to something is in the `filter_map`.
proof fn lemma_filter_map_keeps<A, B>(items: Seq<A>, f: spec_fn(A) -> Option<B>, i: int)
    requires
        0 <= i < items.len(),
        f(items[i]) is Some,
    ensures
        items.filter_map(f).contains(f(items[i])->0),
    decreases items.len(),
{
    let front = items.drop_last();
    let out = items.filter_map(f);
    if i == items.len() - 1 {
        assert(out[out.len() - 1] == f(items[i])->0);
    } else {
        lemma_filter_map_keeps(front, f, i);
        let inner = front.filter_map(f);
        let k = choose|k: int| 0 <= k < inner.len() && inner[k] == f(items[i])->0;
        assert(out[k] == inner[k]);
    }
}

proof fn lemma_directory_key_is_one_to_one(first: Seq<char>, second: Seq<char>)
    requires
        directory_key(first) == directory_key(second),
    ensures
        first == second,
{
    assert(directory_key(first).drop_last() =~= first);
    assert(directory_key(second).drop_last() =~= second);
}

/// No two entries share a key.
pub open spec fn unique_keys(files: Seq<Entry>) -> bool {
    forall|i: int, j: int|
        0 <= i < j < files.len() ==> (#[trigger] files[i]).key != (#[trigger] files[j]).key
}

/// Keys follow one convention. The key of a child directory is its name
/// with exactly one separator behind it, and the key of any other child
/// holds no separator at all.
pub proof fn lemma_key_convention(
    backend: Backend,
    path: Seq<char>,
    stat: Stat,
    active_key: Option<Seq<char>>,
)
    requires
        is_named(path),
    ensures
        ({
            let entry = entry_of(backend, path, stat, None, active_key);
            if entry.is_directory {
                entry.key == directory_key(entry.name) && !entry.name.contains(SEPARATOR)
            } else {
                entry.key == base_name(path) && !entry.key.contains(SEPARATOR)
            }
        }),
{
    lemma_named_base_is_plain(path);
}

/// A file name that splits is its name, a dot and its extension; one that
/// does not split is its name, and the extension is empty.
pub proof fn lemma_name_and_extension_rejoin(base: Seq<char>)
    ensures
        if has_extension(base) {
            base == stem_of(base).push('.') + extension_of(base) && stem_of(base).len() > 0
                && !extension_of(base).contains('.')
        } else {
            base == stem_of(base) && extension_of(base).len() == 0
        },
{
    if has_extension(base) {
        lemma_last_index_of(base, '.');
        let k = last_index_of(base, '.').unwrap();
        assert(base =~= base.take(k).push('.') + base.skip(k + 1));
        let tail = base.skip(k + 1);
        if tail.contains('.') {
            let j = choose|j: int| 0 <= j < tail.len() && tail[j] == '.';
            assert(base[k + 1 + j] == '.');
        }
    }
}

/// The keys of a directory listing are unique, where every child's path
/// ends in its name and no two children have the same name.
pub proof fn lemma_directory_keys_unique(
    backend: Backend,
    location: Location,
    parent: Option<Stat>,
    children: Seq<Record>,
)
    requires
        all_named(children),
        distinct_names(children),
    ensures
        unique_keys(directory_listing(backend, location, parent, children).files),
{
    let head = parent_entries(backend, location.segments, parent);
    let convert = child_entry(backend, location.active_key);
    let tail = children.filter_map(convert);
    let files = head + tail;
    lemma_directory_parent_first(backend, location, parent, children);
    assert forall|i: int, j: int| 0 <= i < j < files.len() implies (#[trigger] files[i]).key != (
    #[trigger] files[j]).key by {
        if i < head.len() {
            assert(files[i] == head[0]);
            assert(files[j].key != ".."@);
        } else {
            let a = i - head.len();
            let b = j - head.len();
            assert(files[i] == tail[a] && files[j] == tail[b]);
            let r = lemma_filter_map_sources(children, convert, a, b);
            let first = children[r.0];
            let second = children[r.1];
            assert(first.wf() && second.wf());
            lemma_key_convention(backend, first.path@, first.stat->0, location.active_key);
            lemma_key_convention(backend, second.path@, second.stat->0, location.active_key);
            if tail[a].key == tail[b].key {
                if tail[a].is_directory && tail[b].is_directory {
                    lemma_directory_key_is_one_to_one(base_name(first.path@), base_name(second.path@));
                } else if tail[a].is_directory {
                    assert(tail[a].key.last() == SEPARATOR);
                    assert(tail[b].key[tail[b].key.len() - 1] == SEPARATOR);
                } else if tail[b].is_directory {
                    assert(tail[b].key.last() == SEPARATOR);
                    assert(tail[a].key[tail[a].key.len() - 1] == SEPARATOR);
                }
            }
        }
    }
}

/// The keys of the containers are unique, where no two containers have the
/// same name.
pub proof fn lemma_container_keys_unique(active_key: Option<Seq<char>>, names: Seq<String>)
    requires
        distinct_containers(names),
    ensures
        unique_keys(containers_listing(active_key, names).files),
{
    let files = containers_listing(active_key, names).files;
    assert forall|i: int, j: int| 0 <= i < j < files.len() implies (#[trigger] files[i]).key != (
    #[trigger] files[j]).key by {
        if files[i].key == files[j].key {
            lemma_directory_key_is_one_to_one(names[i]@, names[j]@);
        }
    }
}

/// Every common prefix lies under `prefix` and shows a plain name there.
pub open spec fn plain_prefixes(prefix: Seq<char>, keys: Seq<String>) -> bool {
    forall|i: int|
        0 <= i < keys.len() ==> match prefix_name(prefix, (#[trigger] keys[i])@) {
            Some(name) => is_plain(name),
            None => false,
        }
}

/// Every object lies under `prefix` and has a plain name there, and no two
/// objects have the same key.
pub open spec fn plain_objects(prefix: Seq<char>, objects: Seq<ObjectRecord>) -> bool {
    &&& forall|i: int|
        0 <= i < objects.len() ==> match object_name(prefix, (#[trigger] objects[i]).key@) {
            Some(name) => is_plain(name),
            None => false,
        }
    &&& forall|i: int, j: int|
        0 <= i < j < objects.len() ==> (#[trigger] objects[i]).key@ != (#[trigger] objects[j]).key@
}

/// The keys of a listing inside a container are unique, where the store
/// hands over what a listing by prefix and delimiter gives: plain names
/// under the prefix, and nothing twice.
pub proof fn lemma_object_keys_unique(location: Location, prefixes: Seq<String>, objects: Seq<ObjectRecord>)
    requires
        plain_prefixes(object_prefix_of(location.segments), prefixes),
        distinct_prefixes(object_prefix_of(location.segments), prefixes),
        plain_objects(object_prefix_of(location.segments), objects),
    ensures
        unique_keys(objects_listing(location, prefixes, objects).files),
{
    reveal_strlit("..");
    let prefix = object_prefix_of(location.segments);
    let head = store_parent_entries(location.segments);
    let to_directory = prefix_entry(prefix, location.active_key);
    let to_file = object_entry(prefix);
    let middle = prefixes.filter_map(to_directory);
    let tail = objects.filter_map(to_file);
    let files = head + middle + tail;
    assert forall|a: int| 0 <= a < middle.len() implies (#[trigger] middle[a]).key.last() == SEPARATOR by {
        lemma_filter_map_source(prefixes, to_directory, a);
    }
    assert forall|b: int| 0 <= b < tail.len() implies is_plain((#[trigger] tail[b]).key) by {
        lemma_filter_map_source(objects, to_file, b);
    }
    assert forall|i: int, j: int| 0 <= i < j < files.len() implies (#[trigger] files[i]).key != (
    #[trigger] files[j]).key by {
        let m = head.len() + middle.len();
        if i < head.len() {
            assert(files[i] == head[0]);
            if j < m {
                assert(files[j] == middle[j - head.len()]);
            } else {
                assert(files[j] == tail[j - m]);
            }
        } else if j < m {
            let a = i - head.len();
            let b = j - head.len();
            assert(files[i] == middle[a] && files[j] == middle[b]);
            let r = lemma_filter_map_sources(prefixes, to_directory, a, b);
            if middle[a].key == middle[b].key {
                lemma_directory_key_is_one_to_one(
                    prefix_name(prefix, prefixes[r.0]@)->0,
                    prefix_name(prefix, prefixes[r.1]@)->0,
                );
            }
        } else if i < m {
            assert(files[i] == middle[i - head.len()]);
            assert(files[j] == tail[j - m]);
            let key = tail[j - m].key;
            if middle[i - head.len()].key == key {
                assert(key[key.len() - 1] == SEPARATOR);
            }
        } else {
            let a = i - m;
            let b = j - m;
            assert(files[i] == tail[a] && files[j] == tail[b]);
            let r = lemma_filter_map_sources(objects, to_file, a, b);
            let first = objects[r.0].key@;
            let second = objects[r.1].key@;
            if tail[a].key == tail[b].key {
                assert(first =~= prefix + first.skip(prefix.len() as int));
                assert(second =~= prefix + second.skip(prefix.len() as int));
            }
        }
    }
}

/// At most one entry of a directory listing is active, where no two
/// children have the same name.
pub proof fn lemma_directory_listing_one_active(
    backend: Backend,
    location: Location,
    parent: Option<Stat>,
    children: Seq<Record>,
)
    requires
        distinct_names(children),
    ensures
        active_count(directory_listing(backend, location, parent, children).files) <= 1,
{
    let head = parent_entries(backend, location.segments, parent);
    let convert = child_entry(backend, location.active_key);
    let tail = children.filter_map(convert);
    let files = head + tail;
    assert forall|i: int, j: int| 0 <= i < j < files.len() implies !((#[trigger] files[i]).is_active && (
    #[trigger] files[j]).is_active) by {
        if i < head.len() {
            assert(files[i] == head[0]);
        } else {
            let a = i - head.len();
            let b = j - head.len();
            assert(files[i] == tail[a] && files[j] == tail[b]);
            if tail[a].is_active && tail[b].is_active {
                let r = lemma_filter_map_sources(children, convert, a, b);
                lemma_directory_key_is_one_to_one(
                    base_name(children[r.0].path@),
                    base_name(children[r.1].path@),
                );
            }
        }
    }
    lemma_no_two_active(files);
}

/// At most one container is active, where no two have the same name.
pub proof fn lemma_containers_listing_one_active(active_key: Option<Seq<char>>, names: Seq<String>)
    requires
        distinct_containers(names),
    ensures
        active_count(containers_listing(active_key, names).files) <= 1,
{
    let files = containers_listing(active_key, names).files;
    assert forall|i: int, j: int| 0 <= i < j < files.len() implies !((#[trigger] files[i]).is_active && (
    #[trigger] files[j]).is_active) by {
        if files[i].is_active && files[j].is_active {
            lemma_directory_key_is_one_to_one(names[i]@, names[j]@);
        }
    }
    lemma_no_two_active(files);
}

/// At most one entry of a listing inside a container is active, where no
/// two common prefixes show the same name.
pub proof fn lemma_objects_listing_one_active(
    location: Location,
    prefixes: Seq<String>,
    objects: Seq<ObjectRecord>,
)
    requires
        distinct_prefixes(object_prefix_of(location.segments), prefixes),
    ensures
        active_count(objects_listing(location, prefixes, objects).files) <= 1,
{
    let prefix = object_prefix_of(location.segments);
    let head = store_parent_entries(location.segments);
    let to_directory = prefix_entry(prefix, location.active_key);
    let to_file = object_entry(prefix);
    let middle = prefixes.filter_map(to_directory);
    let tail = objects.filter_map(to_file);
    let files = head + middle + tail;
    assert forall|i: int, j: int| 0 <= i < j < files.len() implies !((#[trigger] files[i]).is_active && (
    #[trigger] files[j]).is_active) by {
        if i < head.len() {
            assert(files[i] == head[0]);
        } else if j >= head.len() + middle.len() {
            let b = j - head.len() - middle.len();
            assert(files[j] == tail[b]);
            lemma_filter_map_source(objects, to_file, b);
        } else {
            let a = i - head.len();
            let b = j - head.len();
            assert(files[i] == middle[a] && files[j] == middle[b]);
            if middle[a].is_active && middle[b].is_active {
                let r = lemma_filter_map_sources(prefixes, to_directory, a, b);
                lemma_directory_key_is_one_to_one(
                    prefix_name(prefix, prefixes[r.0]@)->0,
                    prefix_name(prefix, prefixes[r.1]@)->0,
                );
            }
        }
    }
    lemma_no_two_active(files);
}

/// The parent entry comes first exactly where there is a parent: the first
/// entry of a directory listing has the key `..` if and only if the
/// location lies below the root. No entry behind it has that key.
pub proof fn lemma_directory_parent_first(
    backend: Backend,
    location: Location,
    parent: Option<Stat>,
    children: Seq<Record>,
)
    requires
        all_named(children),
    ensures
        ({
            let files = directory_listing(backend, location, parent, children).files;
            (files.len() > 0 && files[0].key == ".."@) <==> location.segments.len() > 0
        }),
        ({
            let files = directory_listing(backend, location, parent, children).files;
            forall|i: int| 1 <= i < files.len() ==> (#[trigger] files[i]).key != ".."@
        }),
{
    reveal_strlit("..");
    let head = parent_entries(backend, location.segments, parent);
    let convert = child_entry(backend, location.active_key);
    let tail = children.filter_map(convert);
    let files = head + tail;
    assert forall|a: int| 0 <= a < tail.len() implies (#[trigger] tail[a]).key != ".."@ by {
        let k = lemma_filter_map_source(children, convert, a);
        assert(children[k].wf());
        lemma_named_base_is_plain(children[k].path@);
        if tail[a].is_directory {
            assert(tail[a].key.last() == SEPARATOR);
        }
    }
    assert forall|i: int| 1 <= i < files.len() implies (#[trigger] files[i]).key != ".."@ by {
        assert(files[i] == tail[i - head.len()]);
    }
    if location.segments.len() > 0 {
        assert(files[0] == head[0]);
    } else if files.len() > 0 {
        assert(files[0] == tail[0]);
    }
}

/// At the root of the object store no entry is a parent entry: every
/// container's key ends with the separator.
pub proof fn lemma_containers_have_no_parent(active_key: Option<Seq<char>>, names: Seq<String>)
    ensures
        forall|i: int|
            0 <= i < containers_listing(active_key, names).files.len() ==> (
            #[trigger] containers_listing(active_key, names).files[i]).key != ".."@,
{
    reveal_strlit("..");
    let files = containers_listing(active_key, names).files;
    assert forall|i: int| 0 <= i < files.len() implies (#[trigger] files[i]).key != ".."@ by {
        assert(files[i].key.last() == SEPARATOR);
    }
}

/// Inside a container the parent entry comes first, whatever the store
/// holds.
pub proof fn lemma_objects_parent_first(location: Location, prefixes: Seq<String>, objects: Seq<ObjectRecord>)
    requires
        location.segments.len() > 0,
    ensures
        objects_listing(location, prefixes, objects).files.len() > 0,
        objects_listing(location, prefixes, objects).files[0].key == ".."@,
{
    let head = store_parent_entries(location.segments);
    let files = objects_listing(location, prefixes, objects).files;
    assert(files[0] == head[0]);
}

/// The parent entry leads to the parent: below the root, the listing's path
/// joined with the key of its first entry resolves to the parent, and the
/// active key is that of the directory left.
pub proof fn lemma_parent_round_trip(
    backend: Backend,
    location: Location,
    parent: Option<Stat>,
    children: Seq<Record>,
)
    requires
        all_plain(location.segments),
        location.segments.len() > 0,
    ensures
        ({
            let listing = directory_listing(backend, location, parent, children);
            locate(Some(listing.path), Some(listing.files[0].key)) == (Location {
                segments: location.segments.drop_last(),
                active_key: Some(directory_key(location.segments.last())),
            })
        }),
{
    let head = parent_entries(backend, location.segments, parent);
    let listing = directory_listing(backend, location, parent, children);
    assert(listing.files[0] == head[0]);
    lemma_ascend(location.segments);
}

/// Every readable child leads back to itself: its entry is in the listing,
/// and the listing's path joined with the entry's key resolves to the path
/// of the child.
pub proof fn lemma_child_round_trip(
    backend: Backend,
    location: Location,
    parent: Option<Stat>,
    children: Seq<Record>,
    i: int,
)
    requires
        all_plain(location.segments),
        0 <= i < children.len(),
        children[i].wf(),
        children[i].stat is Some,
    ensures
        ({
            let listing = directory_listing(backend, location, parent, children);
            let entry = entry_of(
                backend,
                children[i].path@,
                children[i].stat->0,
                None,
                location.active_key,
            );
            &&& listing.files.contains(entry)
            &&& locate(Some(listing.path), Some(entry.key)) == (Location {
                segments: location.segments.push(base_name(children[i].path@)),
                active_key: None,
            })
        }),
{
    let listing = directory_listing(backend, location, parent, children);
    let convert = child_entry(backend, location.active_key);
    let head = parent_entries(backend, location.segments, parent);
    let tail = children.filter_map(convert);
    let entry = convert(children[i])->0;
    lemma_filter_map_keeps(children, convert, i);
    let k = choose|k: int| 0 <= k < tail.len() && tail[k] == entry;
    assert(listing.files[head.len() + k] == entry);
    lemma_named_base_is_plain(children[i].path@);
    lemma_descend(location.segments, base_name(children[i].path@));
}

/// Every container leads back to itself: the root joined with the key of
/// a container of plain name resolves to that container.
pub proof fn lemma_container_round_trip(active_key: Option<Seq<char>>, names: Seq<String>, i: int)
    requires
        0 <= i < names.len(),
        is_plain(names[i]@),
    ensures
        ({
            let listing = containers_listing(active_key, names);
            &&& listing.files[i].key == directory_key(names[i]@)
            &&& locate(Some(listing.path), Some(listing.files[i].key)) == (Location {
                segments: seq![names[i]@],
                active_key: None,
            })
        }),
{
    lemma_descend(Seq::empty(), names[i]@);
    assert(Seq::<Seq<char>>::empty().push(names[i]@) =~= seq![names[i]@]);
}

/// Every common prefix leads back to itself. Where the store hands over
/// the listed prefix followed by a plain name and a separator, the entry
/// under that name's directory key is in the listing, the listing's path
/// joined with that key resolves to the location below, and the object
/// prefix of that location is the common prefix.
pub proof fn lemma_prefix_round_trip(
    location: Location,
    prefixes: Seq<String>,
    objects: Seq<ObjectRecord>,
    i: int,
    name: Seq<char>,
)
    requires
        all_plain(location.segments),
        location.segments.len() > 0,
        0 <= i < prefixes.len(),
        is_plain(name),
        prefixes[i]@ == object_prefix_of(location.segments) + directory_key(name),
    ensures
        ({
            let listing = objects_listing(location, prefixes, objects);
            let below = locate(Some(listing.path), Some(directory_key(name)));
            &&& exists|k: int|
                0 <= k < listing.files.len() && (#[trigger] listing.files[k]).key == directory_key(name)
                    && listing.files[k].is_directory && listing.files[k].name == name
            &&& below == (Location { segments: location.segments.push(name), active_key: None })
            &&& object_prefix_of(below.segments) == prefixes[i]@
        }),
{
    let prefix = object_prefix_of(location.segments);
    let listing = objects_listing(location, prefixes, objects);
    let head = store_parent_entries(location.segments);
    let to_directory = prefix_entry(prefix, location.active_key);
    let middle = prefixes.filter_map(to_directory);
    let key = prefixes[i]@;
    assert(key.subrange(0, prefix.len() as int) =~= prefix);
    assert(key.skip(prefix.len() as int) =~= directory_key(name));
    assert(stripped(key, prefix) == Some(directory_key(name)));
    assert(chopped(directory_key(name)) =~= name);
    assert(prefix_name(prefix, key) == Some(name));
    lemma_filter_map_keeps(prefixes, to_directory, i);
    let entry = to_directory(prefixes[i])->0;
    let k = choose|k: int| 0 <= k < middle.len() && middle[k] == entry;
    assert(listing.files[head.len() + k] == entry);
    lemma_descend(location.segments, name);
    lemma_object_prefix_grows(location.segments, name);
}

/// Every object leads back to itself. Where the store hands over the
/// listed prefix followed by a plain name, the entry under that name is in
/// the listing as a file, and the listing's path joined with that key
/// resolves to the path of the object.
pub proof fn lemma_object_round_trip(
    location: Location,
    prefixes: Seq<String>,
    objects: Seq<ObjectRecord>,
    i: int,
    name: Seq<char>,
)
    requires
        all_plain(location.segments),
        0 <= i < objects.len(),
        is_plain(name),
        objects[i].key@ == object_prefix_of(location.segments) + name,
    ensures
        ({
            let listing = objects_listing(location, prefixes, objects);
            &&& exists|k: int|
                0 <= k < listing.files.len() && (#[trigger] listing.files[k]).key == name
                    && !listing.files[k].is_directory
            &&& locate(Some(listing.path), Some(name)) == (Location {
                segments: location.segments.push(name),
                active_key: None,
            })
        }),
{
    let prefix = object_prefix_of(location.segments);
    let listing = objects_listing(location, prefixes, objects);
    let head = store_parent_entries(location.segments);
    let middle = prefixes.filter_map(prefix_entry(prefix, location.active_key));
    let to_file = object_entry(prefix);
    let tail = objects.filter_map(to_file);
    let key = objects[i].key@;
    assert(key.subrange(0, prefix.len() as int) =~= prefix);
    assert(key.skip(prefix.len() as int) =~= name);
    assert(object_name(prefix, key) == Some(name));
    lemma_filter_map_keeps(objects, to_file, i);
    let entry = to_file(objects[i])->0;
    let k = choose|k: int| 0 <= k < tail.len() && tail[k] == entry;
    assert(listing.files[head.len() + middle.len() + k] == entry);
    lemma_descend(location.segments, name);
}

proof fn lemma_some_active(files: Seq<Entry>, k: int)
    requires
        0 <= k < files.len(),
        files[k].is_active,
    ensures
        active_count(files) >= 1,
    decreases files.len(),
{
    if k < files.len() - 1 {
        assert(files.drop_last()[k] == files[k]);
        lemma_some_active(files.drop_last(), k);
    }
}

/// The directory just left is the active one. After ascending out of a
/// directory, the listing of its parent marks the entry of that directory,
/// and, where no two children have the same name, no other.
pub proof fn lemma_left_directory_is_active(
    backend: Backend,
    segments: Seq<Seq<char>>,
    parent: Option<Stat>,
    children: Seq<Record>,
    i: int,
)
    requires
        all_plain(segments),
        segments.len() > 0,
        0 <= i < children.len(),
        children[i].stat is Some,
        children[i].stat->0.is_directory,
        base_name(children[i].path@) == segments.last(),
    ensures
        ({
            let location = locate(Some(canonical(segments)), Some(".."@));
            let listing = directory_listing(backend, location, parent, children);
            &&& listing.path == canonical(segments.drop_last())
            &&& exists|k: int|
                0 <= k < listing.files.len() && (#[trigger] listing.files[k]).is_active
                    && listing.files[k].name == segments.last()
            &&& distinct_names(children) ==> active_count(listing.files) == 1
        }),
{
    lemma_ascend(segments);
    let location = locate(Some(canonical(segments)), Some(".."@));
    let listing = directory_listing(backend, location, parent, children);
    let convert = child_entry(backend, location.active_key);
    let head = parent_entries(backend, location.segments, parent);
    let tail = children.filter_map(convert);
    let entry = convert(children[i])->0;
    lemma_filter_map_keeps(children, convert, i);
    let k = choose|k: int| 0 <= k < tail.len() && tail[k] == entry;
    assert(listing.files[head.len() + k] == entry);
    assert(entry.is_active);
    lemma_some_active(listing.files, head.len() + k);
    if distinct_names(children) {
        lemma_directory_listing_one_active(backend, location, parent, children);
    }
}

} // verus!
