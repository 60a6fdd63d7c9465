//! Laws of navigation.
//!
//! Each law is stated over the spec functions that the contract of
//! `resolve` uses, and proved here.

use vstd::prelude::*;

use crate::navigator::{
    all_plain, canonical, component_test, components, directory_key, is_absolute, is_component, is_plain,
    lemma_components_hold_names, lemma_pieces_hold_no_separator, locate, object_prefix_of, pieces, requested, rooted, trailed, walk,
    Location, SEPARATOR,
};
use crate::normalizer::{base_name, is_named};

verus! {

/// The text of `parts` with a separator between each two of them.
pub open spec fn joined(parts: Seq<Seq<char>>) -> Seq<char>
    decreases parts.len(),
{
    if parts.len() == 0 {
        Seq::empty()
    } else if parts.len() == 1 {
        parts[0]
    } else {
        joined(parts.drop_last()).push(SEPARATOR) + parts.last()
    }
}

/// Cutting loses nothing: the pieces of a path, joined by separators, are
/// the path. With `lemma_pieces_hold_no_separator` this says that `pieces`
/// cuts at every separator and nowhere else.
pub proof fn lemma_pieces_rejoin(path: Seq<char>)
    ensures
        joined(pieces(path)) == path,
    decreases path.len(),
{
    if path.len() == 0 {
        assert(joined(pieces(path)) =~= path);
    } else {
        let front = path.drop_last();
        let before = pieces(front);
        lemma_pieces_rejoin(front);
        lemma_pieces_hold_no_separator(front);
        if path.last() == SEPARATOR {
            let after = before.push(Seq::<char>::empty());
            assert(after.drop_last() =~= before);
            assert(joined(after) =~= joined(before).push(SEPARATOR));
            assert(front.push(SEPARATOR) =~= path);
        } else {
            let grown = before.last().push(path.last());
            let after = before.drop_last().push(grown);
            assert(after.drop_last() =~= before.drop_last());
            if before.len() == 1 {
                assert(joined(before) == before[0]);
                assert(joined(after) == grown);
            } else {
                assert(joined(before) == joined(before.drop_last()).push(SEPARATOR) + before.last());
                assert(joined(after) =~= joined(before).push(path.last()));
            }
            assert(front.push(path.last()) =~= path);
        }
    }
}

/// A text without separator is its own single piece.
pub proof fn lemma_pieces_of_name(name: Seq<char>)
    requires
        !name.contains(SEPARATOR),
    ensures
        pieces(name) == seq![name],
    decreases name.len(),
{
    if name.len() == 0 {
        assert(name =~= Seq::<char>::empty());
        assert(pieces(name) =~= seq![name]);
    } else {
        let front = name.drop_last();
        assert(name[name.len() - 1] != SEPARATOR);
        assert(!front.contains(SEPARATOR)) by {
            if front.contains(SEPARATOR) {
                let j = choose|j: int| 0 <= j < front.len() && front[j] == SEPARATOR;
                assert(name[j] == SEPARATOR);
            }
        }
        lemma_pieces_of_name(front);
        assert(front.push(name.last()) =~= name);
        assert(pieces(name) =~= seq![name]);
    }
}

/// Behind a separator, a text without separator is one more piece.
pub proof fn lemma_pieces_behind_separator(path: Seq<char>, name: Seq<char>)
    requires
        !name.contains(SEPARATOR),
    ensures
        pieces(path.push(SEPARATOR) + name) == pieces(path).push(name),
    decreases name.len(),
{
    let whole = path.push(SEPARATOR) + name;
    if name.len() == 0 {
        assert(name =~= Seq::<char>::empty());
        assert(whole =~= path.push(SEPARATOR));
        assert(whole.drop_last() =~= path);
        assert(pieces(whole) =~= pieces(path).push(name));
    } else {
        let front = name.drop_last();
        assert(name[name.len() - 1] != SEPARATOR);
        assert(!front.contains(SEPARATOR)) by {
            if front.contains(SEPARATOR) {
                let j = choose|j: int| 0 <= j < front.len() && front[j] == SEPARATOR;
                assert(name[j] == SEPARATOR);
            }
        }
        lemma_pieces_behind_separator(path, front);
        assert(whole.drop_last() =~= path.push(SEPARATOR) + front);
        assert(whole.last() == name.last());
        assert(front.push(name.last()) =~= name);
        assert(pieces(path).push(front).drop_last() =~= pieces(path));
        assert(pieces(whole) =~= pieces(path).push(name));
    }
}

proof fn lemma_no_components_in_nothing()
    ensures
        Seq::<Seq<char>>::empty().filter(component_test()) == Seq::<Seq<char>>::empty(),
        seq![Seq::<char>::empty()].filter(component_test()) == Seq::<Seq<char>>::empty(),
{
    reveal(Seq::filter);
    let nothing = Seq::<Seq<char>>::empty();
    assert(nothing.filter(component_test()) =~= nothing);
    nothing.lemma_filter_push(Seq::<char>::empty(), component_test());
    assert(nothing.push(Seq::<char>::empty()) =~= seq![Seq::<char>::empty()]);
}

/// The components of a canonical path are its segments.
pub proof fn lemma_components_of_canonical(segments: Seq<Seq<char>>)
    requires
        all_plain(segments),
    ensures
        components(rooted(segments)) == segments,
        components(canonical(segments)) == segments,
    decreases segments.len(),
{
    lemma_no_components_in_nothing();
    if segments.len() == 0 {
        assert(rooted(segments) =~= Seq::<char>::empty());
        assert(components(rooted(segments)) =~= segments);
        let root = seq![SEPARATOR];
        assert(root.drop_last() =~= Seq::<char>::empty());
        assert(pieces(root) =~= seq![Seq::<char>::empty()].push(Seq::<char>::empty()));
        seq![Seq::<char>::empty()].lemma_filter_push(Seq::<char>::empty(), component_test());
        assert(components(canonical(segments)) =~= segments);
    } else {
        let front = segments.drop_last();
        let last = segments.last();
        assert(all_plain(front)) by {
            assert forall|i: int| 0 <= i < front.len() implies is_plain(#[trigger] front[i]) by {
                assert(front[i] == segments[i]);
            }
        }
        assert(is_plain(last));
        lemma_components_of_canonical(front);
        lemma_pieces_behind_separator(rooted(front), last);
        pieces(rooted(front)).lemma_filter_push(last, component_test());
        assert(front.push(last) =~= segments);
    }
}

/// The components of a plain name, with or without a separator behind it,
/// are the name alone.
pub proof fn lemma_components_of_name(name: Seq<char>)
    requires
        !name.contains(SEPARATOR),
        is_component(name),
    ensures
        components(name) == seq![name],
        components(directory_key(name)) == seq![name],
        !is_absolute(name),
        !is_absolute(directory_key(name)),
{
    lemma_no_components_in_nothing();
    lemma_pieces_of_name(name);
    let nothing = Seq::<Seq<char>>::empty();
    nothing.lemma_filter_push(name, component_test());
    assert(nothing.push(name) =~= seq![name]);
    let key = directory_key(name);
    assert(key.drop_last() =~= name);
    assert(pieces(key) == seq![name].push(Seq::<char>::empty()));
    seq![name].lemma_filter_push(Seq::<char>::empty(), component_test());
    assert(name[0] != SEPARATOR);
    assert(key[0] == name[0]);
}

/// Names are walked by descending: the stack grows by them.
pub proof fn lemma_walk_descends(
    stack: Seq<Seq<char>>,
    left: Option<Seq<char>>,
    names: Seq<Seq<char>>,
    rest: Seq<Seq<char>>,
)
    requires
        forall|i: int| 0 <= i < names.len() ==> #[trigger] names[i] != ".."@,
    ensures
        walk(stack, left, names + rest) == walk(
            stack + names,
            if names.len() == 0 {
                left
            } else {
                None
            },
            rest,
        ),
    decreases names.len(),
{
    if names.len() == 0 {
        assert(names + rest =~= rest);
        assert(stack + names =~= stack);
    } else {
        let all = names + rest;
        assert(all[0] == names[0]);
        assert(all.drop_first() =~= names.drop_first() + rest);
        lemma_walk_descends(stack.push(names[0]), None, names.drop_first(), rest);
        assert(stack.push(names[0]) + names.drop_first() =~= stack + names);
    }
}

proof fn lemma_plain_names_are_not_up(segments: Seq<Seq<char>>)
    requires
        all_plain(segments),
    ensures
        forall|i: int| 0 <= i < segments.len() ==> #[trigger] segments[i] != ".."@,
{
}

/// Resolving is repeatable: two resolutions of one `(path, key)` name the
/// same canonical path and the same active key.
pub proof fn lemma_resolution_repeats(
    path: Option<Seq<char>>,
    key: Option<Seq<char>>,
    first: Location,
    second: Location,
)
    requires
        first == locate(path, key),
        second == locate(path, key),
    ensures
        canonical(first.segments) == canonical(second.segments),
        first.active_key == second.active_key,
{
}

/// A canonical path resolves to itself: resolving it without a key gives
/// back its segments and no active key.
pub proof fn lemma_canonical_path_is_fixed(segments: Seq<Seq<char>>)
    requires
        all_plain(segments),
    ensures
        locate(Some(canonical(segments)), None) == (Location { segments, active_key: None }),
{
    lemma_components_of_canonical(segments);
    lemma_plain_names_are_not_up(segments);
    lemma_walk_descends(Seq::empty(), None, segments, Seq::empty());
    assert(segments + Seq::<Seq<char>>::empty() =~= segments);
    assert(Seq::<Seq<char>>::empty() + segments =~= segments);
}

/// Descending round-trips: joined to a canonical path, the key of a child
/// named `name`, be it the directory key or the bare name, resolves to the
/// path of that child.
pub proof fn lemma_descend(segments: Seq<Seq<char>>, name: Seq<char>)
    requires
        all_plain(segments),
        is_plain(name),
    ensures
        locate(Some(canonical(segments)), Some(directory_key(name))) == (Location {
            segments: segments.push(name),
            active_key: None,
        }),
        locate(Some(canonical(segments)), Some(name)) == (Location {
            segments: segments.push(name),
            active_key: None,
        }),
        canonical(segments.push(name)) == rooted(segments).push(SEPARATOR) + name,
{
    lemma_components_of_canonical(segments);
    lemma_components_of_name(name);
    lemma_plain_names_are_not_up(segments);
    let named = segments + seq![name];
    assert(named =~= segments.push(name));
    assert(requested(Some(canonical(segments)), Some(directory_key(name))) == named);
    assert(requested(Some(canonical(segments)), Some(name)) == named);
    lemma_walk_descends(Seq::empty(), None, named, Seq::empty());
    assert(named + Seq::<Seq<char>>::empty() =~= named);
    assert(Seq::<Seq<char>>::empty() + named =~= named);
    assert(segments.push(name).drop_last() =~= segments);
}

/// Ascending from a canonical path below the root resolves to its parent,
/// and the active key is the directory key of the segment left.
pub proof fn lemma_ascend(segments: Seq<Seq<char>>)
    requires
        all_plain(segments),
        segments.len() > 0,
    ensures
        locate(Some(canonical(segments)), Some(".."@)) == (Location {
            segments: segments.drop_last(),
            active_key: Some(directory_key(segments.last())),
        }),
{
    reveal_strlit("..");
    reveal_strlit(".");
    let up = ".."@;
    assert(!up.contains(SEPARATOR)) by {
        if up.contains(SEPARATOR) {
            let j = choose|j: int| 0 <= j < up.len() && up[j] == SEPARATOR;
            assert(up[j] == '.');
        }
    }
    assert(is_component(up));
    lemma_components_of_canonical(segments);
    lemma_components_of_name(up);
    lemma_plain_names_are_not_up(segments);
    assert(requested(Some(canonical(segments)), Some(up)) == segments + seq![up]);
    lemma_walk_descends(Seq::empty(), None, segments, seq![up]);
    assert(Seq::<Seq<char>>::empty() + segments =~= segments);
    let rest = seq![up];
    assert(rest[0] == up);
    assert(rest.drop_first() =~= Seq::<Seq<char>>::empty());
    assert(walk(segments, None, rest) == walk(
        segments.drop_last(),
        Some(segments.last()),
        rest.drop_first(),
    ));
}

/// Ascending from the root is absorbed: the result is the root, and no
/// entry is marked.
pub proof fn lemma_ascend_from_root()
    ensures
        locate(Some(canonical(Seq::empty())), Some(".."@)) == (Location {
            segments: Seq::empty(),
            active_key: None,
        }),
        locate(None, Some(".."@)) == (Location { segments: Seq::empty(), active_key: None }),
{
    reveal_strlit("..");
    reveal_strlit(".");
    let up = ".."@;
    assert(!up.contains(SEPARATOR)) by {
        if up.contains(SEPARATOR) {
            let j = choose|j: int| 0 <= j < up.len() && up[j] == SEPARATOR;
            assert(up[j] == '.');
        }
    }
    assert(is_component(up));
    lemma_components_of_canonical(Seq::empty());
    lemma_components_of_name(up);
    let rest = seq![up];
    assert(Seq::<Seq<char>>::empty() + rest =~= rest);
    assert(rest[0] == up);
}

/// A path that ends in a name of its own has a plain base name.
pub proof fn lemma_named_base_is_plain(path: Seq<char>)
    requires
        is_named(path),
    ensures
        is_plain(base_name(path)),
{
    lemma_components_hold_names(path);
    let named = components(path);
    assert(is_plain(named[named.len() - 1]) || named[named.len() - 1] == ".."@);
}

/// Below a container, descending by a plain name lengthens the object
/// prefix by that name and a separator.
pub proof fn lemma_object_prefix_grows(segments: Seq<Seq<char>>, name: Seq<char>)
    requires
        segments.len() > 0,
    ensures
        object_prefix_of(segments.push(name)) == object_prefix_of(segments) + directory_key(name),
{
    let longer = segments.push(name);
    assert(longer.skip(1).drop_last() =~= segments.skip(1));
    assert(longer.skip(1).last() == name);
    assert(trailed(longer.skip(1)) == trailed(segments.skip(1)) + name.push(SEPARATOR));
}

} // verus!
