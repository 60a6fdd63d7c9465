//! Path navigation: from a base path and a key to a canonical location.
//!
//! Paths are rooted and purely lexical. A path is cut at its separators,
//! empty pieces and `.` pieces are dropped, and the remaining components
//! are walked from the root: a name descends, `..` ascends. Ascending from
//! the root is absorbed: the walk stops there and the result is the root.

use vstd::prelude::*;

use crate::model::{opt_text, ListRequest};
use crate::text::{chars_of, strip_prefix, stripped};

verus! {

/// The character that separates the segments of a path.
pub const SEPARATOR: char = '/';

/// The pieces of `path` between its separators. There is one piece more
/// than there are separators, and a piece may be empty.
pub open spec fn pieces(path: Seq<char>) -> Seq<Seq<char>>
    decreases path.len(),
{
    if path.len() == 0 {
        seq![Seq::<char>::empty()]
    } else {
        let before = pieces(path.drop_last());
        if path.last() == SEPARATOR {
            before.push(Seq::<char>::empty())
        } else {
            before.drop_last().push(before.last().push(path.last()))
        }
    }
}

/// A piece that counts as a component: not empty and not `.`.
pub open spec fn is_component(piece: Seq<char>) -> bool {
    piece.len() > 0 && piece != "."@
}

/// `is_component` as a predicate value.
pub open spec fn component_test() -> spec_fn(Seq<char>) -> bool {
    |piece: Seq<char>| is_component(piece)
}

/// The components of `path`, in order.
pub open spec fn components(path: Seq<char>) -> Seq<Seq<char>> {
    pieces(path).filter(component_test())
}

/// A path that starts at the root.
pub open spec fn is_absolute(path: Seq<char>) -> bool {
    path.len() > 0 && path[0] == SEPARATOR
}

/// A name that can stand as one segment of a canonical path.
pub open spec fn is_plain(name: Seq<char>) -> bool {
    &&& name.len() > 0
    &&& !name.contains(SEPARATOR)
    &&& name != "."@
    &&& name != ".."@
}

/// Every element of `segments` is a plain name.
pub open spec fn all_plain(segments: Seq<Seq<char>>) -> bool {
    forall|i: int| 0 <= i < segments.len() ==> is_plain(#[trigger] segments[i])
}

/// Where a walk stands: the segments below the root, and the segment that
/// the last step left by ascending, if the last step ascended.
pub struct Walk {
    pub stack: Seq<Seq<char>>,
    pub left: Option<Seq<char>>,
}

/// Walks `rest` from the position `(stack, left)`.
pub open spec fn walk(stack: Seq<Seq<char>>, left: Option<Seq<char>>, rest: Seq<Seq<char>>) -> Walk
    decreases rest.len(),
{
    if rest.len() == 0 {
        Walk { stack, left }
    } else if rest[0] == ".."@ {
        if stack.len() == 0 {
            Walk { stack: Seq::empty(), left: None }
        } else {
            walk(stack.drop_last(), Some(stack.last()), rest.drop_first())
        }
    } else {
        walk(stack.push(rest[0]), None, rest.drop_first())
    }
}

/// The components that a request names: those of the key alone where the
/// key is absolute, else those of the path followed by those of the key. An
/// absent path is the root.
pub open spec fn requested(path: Option<Seq<char>>, key: Option<Seq<char>>) -> Seq<Seq<char>> {
    let base = match path {
        Some(p) => components(p),
        None => Seq::empty(),
    };
    match key {
        Some(k) => if is_absolute(k) {
            components(k)
        } else {
            base + components(k)
        },
        None => base,
    }
}

/// The key of a directory named `name`: the name and one separator.
pub open spec fn directory_key(name: Seq<char>) -> Seq<char> {
    name.push(SEPARATOR)
}

/// A resolved location as plain mathematical data.
pub struct Location {
    /// The segments of the canonical path, from the root down.
    pub segments: Seq<Seq<char>>,
    /// The key of the directory just left, where the request ascended.
    pub active_key: Option<Seq<char>>,
}

impl Location {
    /// What holds of every resolved location: its segments are plain
    /// names, and its active key, where it has one, is the directory key
    /// of a plain name.
    pub open spec fn wf(self) -> bool {
        &&& all_plain(self.segments)
        &&& match self.active_key {
            Some(key) => key.len() > 0 && key.last() == SEPARATOR && is_plain(key.drop_last()),
            None => true,
        }
    }
}

/// The location that `(path, key)` resolves to.
pub open spec fn locate(path: Option<Seq<char>>, key: Option<Seq<char>>) -> Location {
    let end = walk(Seq::empty(), None, requested(path, key));
    Location {
        segments: end.stack,
        active_key: match end.left {
            Some(name) => Some(directory_key(name)),
            None => None,
        },
    }
}

/// The text of `segments`, each behind a separator. Empty for the root.
pub open spec fn rooted(segments: Seq<Seq<char>>) -> Seq<char>
    decreases segments.len(),
{
    if segments.len() == 0 {
        Seq::empty()
    } else {
        rooted(segments.drop_last()).push(SEPARATOR) + segments.last()
    }
}

/// The canonical path with the given segments; the root is a lone separator.
pub open spec fn canonical(segments: Seq<Seq<char>>) -> Seq<char> {
    if segments.len() == 0 {
        seq![SEPARATOR]
    } else {
        rooted(segments)
    }
}

/// The display name of the location: its last segment, or a lone separator
/// at the root.
pub open spec fn display_name(segments: Seq<Seq<char>>) -> Seq<char> {
    if segments.len() == 0 {
        seq![SEPARATOR]
    } else {
        segments.last()
    }
}

/// The text of `segments`, each followed by a separator.
pub open spec fn trailed(segments: Seq<Seq<char>>) -> Seq<char>
    decreases segments.len(),
{
    if segments.len() == 0 {
        Seq::empty()
    } else {
        trailed(segments.drop_last()) + segments.last().push(SEPARATOR)
    }
}

/// The container that an object store location lies in: its first
/// segment.
pub open spec fn container_of(segments: Seq<Seq<char>>) -> Option<Seq<char>> {
    if segments.len() == 0 {
        None
    } else {
        Some(segments[0])
    }
}

/// The object-key prefix that an object store location stands for.
pub open spec fn object_prefix_of(segments: Seq<Seq<char>>) -> Seq<char> {
    if segments.len() == 0 {
        Seq::empty()
    } else {
        trailed(segments.skip(1))
    }
}

/// `path` without the prefix that marks an extended-length path on some
/// platforms; `path` itself where it does not start with that prefix.
pub open spec fn trimmed(path: Seq<char>) -> Seq<char> {
    match stripped(path, "\\\\?\\"@) {
        Some(rest) => rest,
        None => path,
    }
}

/// The location `location` after the filesystem has named its real path.
pub open spec fn relocated(location: Location, real_path: Seq<char>) -> Location {
    Location {
        segments: locate(Some(trimmed(real_path)), None).segments,
        active_key: location.active_key,
    }
}

/// A resolved location: the segments of the canonical path and, where the
/// request ascended in its last step, the key of the directory it left.
#[derive(Debug)]
pub struct Resolved {
    pub segments: Vec<String>,
    pub active_key: Option<String>,
}

impl View for Resolved {
    type V = Location;

    open spec fn view(&self) -> Location {
        Location { segments: self.segments.deep_view(), active_key: opt_text(self.active_key) }
    }
}

proof fn lemma_deep_view_push(v: Seq<String>, w: Seq<String>, s: String)
    requires
        w == v.push(s),
    ensures
        Seq::new(w.len(), |i: int| w[i].deep_view()) == Seq::new(
            v.len(),
            |i: int| v[i].deep_view(),
        ).push(s@),
{
    assert(Seq::new(w.len(), |i: int| w[i].deep_view()) =~= Seq::new(
        v.len(),
        |i: int| v[i].deep_view(),
    ).push(s@));
}

proof fn lemma_deep_view_drop_last(v: Seq<String>, w: Seq<String>)
    requires
        v.len() > 0,
        w == v.drop_last(),
    ensures
        Seq::new(w.len(), |i: int| w[i].deep_view()) == Seq::new(
            v.len(),
            |i: int| v[i].deep_view(),
        ).drop_last(),
{
    assert(Seq::new(w.len(), |i: int| w[i].deep_view()) =~= Seq::new(
        v.len(),
        |i: int| v[i].deep_view(),
    ).drop_last());
}

/// Cuts `path` into its components.
pub fn split_components(path: &str) -> (out: Vec<String>)
    ensures
        out.deep_view() == components(path@),
{
    let chars = chars_of(path);
    let dot = ".".to_owned();
    let mut done: Vec<String> = Vec::new();
    let mut current = String::new();
    let ghost mut raw: Seq<Seq<char>> = Seq::empty();
    let mut i: usize = 0;
    proof {
        assert(chars@.take(0) =~= Seq::<char>::empty());
        assert(raw.push(current@) =~= seq![Seq::<char>::empty()]);
        assert(done.deep_view() =~= Seq::<Seq<char>>::empty());
        assert(raw.filter(component_test()) =~= Seq::<Seq<char>>::empty()) by {
            reveal(Seq::filter);
        }
    }
    while i < chars.len()
        invariant
            i <= chars.len(),
            dot@ == "."@,
            pieces(chars@.take(i as int)) == raw.push(current@),
            done.deep_view() == raw.filter(component_test()),
        decreases chars.len() - i,
    {
        let c = chars[i];
        proof {
            let next = chars@.take(i + 1);
            assert(next.drop_last() =~= chars@.take(i as int));
            assert(next.last() == c);
        }
        if c == SEPARATOR {
            proof {
                raw.lemma_filter_push(current@, component_test());
                assert(pieces(chars@.take(i + 1)) == raw.push(current@).push(Seq::<char>::empty()));
            }
            let ghost closed = current@;
            if !current.as_str().is_empty() && !(current == dot) {
                let ghost before = done@;
                done.push(current);
                proof {
                    lemma_deep_view_push(before, done@, current);
                }
            }
            current = String::new();
            proof {
                raw = raw.push(closed);
            }
        } else {
            let ghost before = current@;
            current.push(c);
            proof {
                assert(raw.push(before).drop_last() =~= raw);
                assert(raw.push(before).last() == before);
            }
        }
        i += 1;
    }
    proof {
        assert(chars@.take(chars.len() as int) =~= chars@);
        raw.lemma_filter_push(current@, component_test());
    }
    if !current.as_str().is_empty() && !(current == dot) {
        let ghost before = done@;
        done.push(current);
        proof {
            lemma_deep_view_push(before, done@, current);
        }
    }
    done
}

/// Walks `components` from the root.
fn walk_components(components: &Vec<String>) -> (out: (Vec<String>, Option<String>))
    ensures
        out.0.deep_view() == walk(Seq::empty(), None, components.deep_view()).stack,
        opt_text(out.1) == walk(Seq::empty(), None, components.deep_view()).left,
{
    let ghost all = components.deep_view();
    let up = "..".to_owned();
    let mut stack: Vec<String> = Vec::new();
    let mut left: Option<String> = None;
    let mut i: usize = 0;
    proof {
        assert(all.skip(0) =~= all);
        assert(stack.deep_view() =~= Seq::<Seq<char>>::empty());
    }
    while i < components.len()
        invariant
            i <= components.len(),
            all == components.deep_view(),
            up@ == ".."@,
            walk(Seq::empty(), None, all) == walk(stack.deep_view(), opt_text(left), all.skip(i as int)),
        decreases components.len() - i,
    {
        proof {
            assert(all.skip(i as int)[0] == components[i as int]@);
            assert(all.skip(i as int).drop_first() =~= all.skip(i + 1));
        }
        if components[i] == up {
            let ghost before = stack@;
            match stack.pop() {
                None => {
                    proof {
                        assert(before.len() == 0);
                        assert(stack.deep_view() =~= Seq::<Seq<char>>::empty());
                    }
                    return (stack, None);
                },
                Some(top) => {
                    proof {
                        lemma_deep_view_drop_last(before, stack@);
                    }
                    left = Some(top);
                },
            }
        } else {
            let ghost before = stack@;
            let name = components[i].clone();
            stack.push(name);
            proof {
                lemma_deep_view_push(before, stack@, name);
            }
            left = None;
        }
        i += 1;
    }
    (stack, left)
}

/// True when `path` starts with the separator.
fn starts_at_root(path: &str) -> (r: bool)
    ensures
        r == is_absolute(path@),
{
    let chars = chars_of(path);
    chars.len() > 0 && chars[0] == SEPARATOR
}

fn append_all(target: &mut Vec<String>, source: Vec<String>)
    ensures
        final(target).deep_view() == old(target).deep_view() + source.deep_view(),
{
    let mut i: usize = 0;
    proof {
        assert(source.deep_view().take(0) =~= Seq::<Seq<char>>::empty());
        assert(target.deep_view() + Seq::<Seq<char>>::empty() =~= target.deep_view());
    }
    while i < source.len()
        invariant
            i <= source.len(),
            target.deep_view() == old(target).deep_view() + source.deep_view().take(i as int),
        decreases source.len() - i,
    {
        let ghost before = target@;
        let item = source[i].clone();
        target.push(item);
        proof {
            lemma_deep_view_push(before, target@, item);
            assert(source.deep_view().take(i + 1) =~= source.deep_view().take(i as int).push(
                source[i as int]@,
            ));
            assert(target.deep_view() =~= old(target).deep_view() + source.deep_view().take(i + 1));
        }
        i += 1;
    }
    proof {
        assert(source.deep_view().take(source.len() as int) =~= source.deep_view());
    }
}

/// Resolves a request to its canonical location.
///
/// The key is joined to the path (an absolute key replaces it), `.` and
/// empty segments are dropped, and each `..` pops the segment before it. A
/// `..` with nothing to pop ends the walk at the root. The active key is
/// present exactly when the last step popped a segment, and is then that
/// segment's directory key.
pub fn resolve(request: &ListRequest) -> (out: Resolved)
    ensures
        out@ == locate(opt_text(request.path), opt_text(request.key)),
        out@.wf(),
{
    let mut named: Vec<String> = match &request.path {
        Some(path) => split_components(path.as_str()),
        None => Vec::new(),
    };
    proof {
        if request.path is None {
            assert(named.deep_view() =~= Seq::<Seq<char>>::empty());
        }
    }
    match &request.key {
        Some(key) => {
            let below = split_components(key.as_str());
            if starts_at_root(key.as_str()) {
                named = below;
            } else {
                append_all(&mut named, below);
            }
        },
        None => {},
    }
    assert(named.deep_view() == requested(opt_text(request.path), opt_text(request.key)));
    let (segments, left) = walk_components(&named);
    let ghost left_name = opt_text(left);
    let active_key = match left {
        Some(name) => {
            let mut key = name;
            key.push(SEPARATOR);
            Some(key)
        },
        None => None,
    };
    proof {
        lemma_components_plain_or_up(opt_text(request.path), opt_text(request.key));
        lemma_walk_keeps_plain(Seq::empty(), None, named.deep_view());
        if left_name is Some {
            assert(directory_key(left_name->0).drop_last() =~= left_name->0);
        }
    }
    Resolved { segments, active_key }
}

/// The text of the first `count` segments, each behind a separator.
fn render_rooted(segments: &Vec<String>, count: usize) -> (out: String)
    requires
        count <= segments.len(),
    ensures
        out@ == rooted(segments.deep_view().take(count as int)),
{
    let ghost all = segments.deep_view();
    let mut out = String::new();
    let mut i: usize = 0;
    proof {
        assert(all.take(0) =~= Seq::<Seq<char>>::empty());
    }
    while i < count
        invariant
            i <= count <= segments.len(),
            all == segments.deep_view(),
            out@ == rooted(all.take(i as int)),
        decreases count - i,
    {
        out.push(SEPARATOR);
        out.append(segments[i].as_str());
        proof {
            assert(all.take(i + 1).drop_last() =~= all.take(i as int));
            assert(all.take(i + 1).last() == segments[i as int]@);
        }
        i += 1;
    }
    out
}

impl Resolved {
    /// The canonical path: each segment behind a separator, or a lone
    /// separator at the root.
    pub fn canonical_path(&self) -> (out: String)
        ensures
            out@ == canonical(self@.segments),
    {
        if self.segments.len() == 0 {
            let mut out = String::new();
            out.push(SEPARATOR);
            assert(out@ =~= seq![SEPARATOR]);
            out
        } else {
            let out = render_rooted(&self.segments, self.segments.len());
            proof {
                assert(self@.segments.take(self.segments.len() as int) =~= self@.segments);
            }
            out
        }
    }

    /// The display name: the last segment, or a lone separator at the root.
    pub fn name(&self) -> (out: String)
        ensures
            out@ == display_name(self@.segments),
    {
        let n = self.segments.len();
        if n == 0 {
            let mut out = String::new();
            out.push(SEPARATOR);
            assert(out@ =~= seq![SEPARATOR]);
            out
        } else {
            self.segments[n - 1].clone()
        }
    }

    /// True below the root: the location then has a parent.
    pub fn has_parent(&self) -> (r: bool)
        ensures
            r == (self@.segments.len() > 0),
    {
        self.segments.len() > 0
    }

    /// The canonical path of the parent; none at the root.
    pub fn parent_path(&self) -> (out: Option<String>)
        ensures
            out is Some <==> self@.segments.len() > 0,
            out matches Some(p) ==> p@ == canonical(self@.segments.drop_last()),
    {
        let n = self.segments.len();
        if n == 0 {
            None
        } else if n == 1 {
            let mut out = String::new();
            out.push(SEPARATOR);
            assert(out@ =~= seq![SEPARATOR]);
            Some(out)
        } else {
            let out = render_rooted(&self.segments, n - 1);
            proof {
                assert(self@.segments.take(n - 1) =~= self@.segments.drop_last());
            }
            Some(out)
        }
    }

    /// The container of an object store location: its first segment. At the
    /// root there is none, and the containers themselves are listed.
    pub fn container(&self) -> (out: Option<String>)
        ensures
            opt_text(out) == container_of(self@.segments),
    {
        if self.segments.len() == 0 {
            None
        } else {
            Some(self.segments[0].clone())
        }
    }

    /// The object-key prefix of an object store location: the segments
    /// below the container, each followed by a separator.
    pub fn object_prefix(&self) -> (out: String)
        ensures
            out@ == object_prefix_of(self@.segments),
    {
        let ghost all = self.segments.deep_view();
        let mut out = String::new();
        if self.segments.len() == 0 {
            return out;
        }
        let ghost below = all.skip(1);
        let mut i: usize = 1;
        proof {
            assert(below.take(0) =~= Seq::<Seq<char>>::empty());
        }
        while i < self.segments.len()
            invariant
                1 <= i <= self.segments.len(),
                all == self.segments.deep_view(),
                below == all.skip(1),
                out@ == trailed(below.take(i - 1)),
            decreases self.segments.len() - i,
        {
            out.append(self.segments[i].as_str());
            out.push(SEPARATOR);
            proof {
                assert(below.take(i as int).drop_last() =~= below.take(i - 1));
                assert(below.take(i as int).last() == self.segments[i as int]@);
                assert(out@ =~= trailed(below.take(i - 1)) + self.segments[i as int]@.push(SEPARATOR));
            }
            i += 1;
        }
        proof {
            assert(below.take(self.segments.len() - 1) =~= below);
        }
        out
    }
}

/// Removes the extended-length prefix `\\?\` from the front of `path`,
/// so that the path can be handed out and sent back as it is.
pub fn trim_long_path_prefix(path: &str) -> (out: &str)
    ensures
        out@ == trimmed(path@),
{
    match strip_prefix(path, "\\\\?\\") {
        Some(rest) => rest,
        None => path,
    }
}

/// Takes the path under which the filesystem knows a location: its
/// segments replace those resolved from the request, the active key stays.
pub fn relocate(location: Resolved, real_path: &str) -> (out: Resolved)
    ensures
        out@ == relocated(location@, real_path@),
        location@.wf() ==> out@.wf(),
{
    let request = ListRequest { path: Some(trim_long_path_prefix(real_path).to_owned()), key: None };
    let found = resolve(&request);
    Resolved { segments: found.segments, active_key: location.active_key }
}

/// A piece holds no separator.
pub proof fn lemma_pieces_hold_no_separator(path: Seq<char>)
    ensures
        pieces(path).len() >= 1,
        forall|i: int| 0 <= i < pieces(path).len() ==> !(#[trigger] pieces(path)[i]).contains(SEPARATOR),
    decreases path.len(),
{
    if path.len() == 0 {
        assert forall|i: int| 0 <= i < pieces(path).len() implies !(#[trigger] pieces(path)[i]).contains(
            SEPARATOR,
        ) by {
            assert(pieces(path)[i] =~= Seq::<char>::empty());
        }
    } else {
        lemma_pieces_hold_no_separator(path.drop_last());
        let before = pieces(path.drop_last());
        assert forall|i: int| 0 <= i < pieces(path).len() implies !(#[trigger] pieces(path)[i]).contains(
            SEPARATOR,
        ) by {
            if path.last() == SEPARATOR {
                if i < before.len() {
                    assert(pieces(path)[i] == before[i]);
                } else {
                    assert(pieces(path)[i] =~= Seq::<char>::empty());
                }
            } else {
                if i < before.len() - 1 {
                    assert(pieces(path)[i] == before[i]);
                } else {
                    let grown = before.last().push(path.last());
                    assert(pieces(path)[i] == grown);
                    if grown.contains(SEPARATOR) {
                        let j = choose|j: int| 0 <= j < grown.len() && grown[j] == SEPARATOR;
                        if j < before.last().len() {
                            assert(before.last()[j] == SEPARATOR);
                            assert(before.last().contains(SEPARATOR));
                        }
                    }
                }
            }
        }
    }
}

/// A component is a plain name or `..`.
pub proof fn lemma_components_hold_names(path: Seq<char>)
    ensures
        forall|i: int|
            0 <= i < components(path).len() ==> {
                let c = #[trigger] components(path)[i];
                is_plain(c) || c == ".."@
            },
{
    lemma_pieces_hold_no_separator(path);
    let all = pieces(path);
    let kept = components(path);
    assert forall|i: int| 0 <= i < kept.len() implies {
        let c = #[trigger] kept[i];
        is_plain(c) || c == ".."@
    } by {
        all.lemma_filter_pred(component_test(), i);
        assert(kept.contains(kept[i]));
        all.lemma_filter_contains_rev(component_test(), kept[i]);
        let j = choose|j: int| 0 <= j < all.len() && all[j] == kept[i];
        assert(!all[j].contains(SEPARATOR));
    }
}

proof fn lemma_components_plain_or_up(path: Option<Seq<char>>, key: Option<Seq<char>>)
    ensures
        forall|i: int|
            0 <= i < requested(path, key).len() ==> {
                let c = #[trigger] requested(path, key)[i];
                is_plain(c) || c == ".."@
            },
{
    if path is Some {
        lemma_components_hold_names(path->0);
    }
    if key is Some {
        lemma_components_hold_names(key->0);
    }
}

proof fn lemma_walk_keeps_plain(stack: Seq<Seq<char>>, left: Option<Seq<char>>, rest: Seq<Seq<char>>)
    requires
        all_plain(stack),
        left matches Some(name) ==> is_plain(name),
        forall|i: int| 0 <= i < rest.len() ==> is_plain(#[trigger] rest[i]) || rest[i] == ".."@,
    ensures
        all_plain(walk(stack, left, rest).stack),
        walk(stack, left, rest).left matches Some(name) ==> is_plain(name),
    decreases rest.len(),
{
    if rest.len() == 0 {
    } else if rest[0] == ".."@ {
        if stack.len() > 0 {
            lemma_walk_keeps_plain(stack.drop_last(), Some(stack.last()), rest.drop_first());
        }
    } else {
        lemma_walk_keeps_plain(stack.push(rest[0]), None, rest.drop_first());
    }
}

} // verus!
