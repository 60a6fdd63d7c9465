//! Text helpers.
//!
//! A string is seen as its sequence of characters. Where a function has to
//! look at single characters it works on a `Vec<char>`, whose view is the
//! same `Seq<char>` as that of the string it came from.

use vstd::prelude::*;

verus! {

/// `String::push` appends the given character to the end of the string:
/// afterwards the string holds the characters it held before, then `c`.
pub assume_specification[ String::push ](s: &mut String, c: char)
    ensures
        final(s)@ == old(s)@.push(c),
;

/// The characters of `s`, in order.
pub fn chars_of(s: &str) -> (out: Vec<char>)
    ensures
        out@ == s@,
{
    let mut out: Vec<char> = Vec::new();
    for c in it: s.chars()
        invariant
            out@ == it.seq().take(it.index()),
    {
        out.push(c);
    }
    out
}

/// The string made of the characters of `chars` from `from` up to `to`.
pub(crate) fn text_between(chars: &Vec<char>, from: usize, to: usize) -> (out: String)
    requires
        from <= to <= chars.len(),
    ensures
        out@ == chars@.subrange(from as int, to as int),
{
    let mut out = String::new();
    let mut i: usize = from;
    while i < to
        invariant
            from <= i <= to <= chars.len(),
            out@ == chars@.subrange(from as int, i as int),
        decreases to - i,
    {
        out.push(chars[i]);
        proof {
            assert(chars@.subrange(from as int, i + 1) =~= chars@.subrange(from as int, i as int).push(
                chars@[i as int],
            ));
        }
        i += 1;
    }
    out
}

/// The view of an optional string slice.
pub open spec fn opt_str(s: Option<&str>) -> Option<Seq<char>> {
    match s {
        Some(s) => Some(s@),
        None => None,
    }
}

/// What is left of `text` behind `prefix`; none where `text` does not
/// start with `prefix`.
pub open spec fn stripped(text: Seq<char>, prefix: Seq<char>) -> Option<Seq<char>> {
    if prefix.is_prefix_of(text) {
        Some(text.skip(prefix.len() as int))
    } else {
        None
    }
}

/// Removes `prefix` from the front of `text`.
pub fn strip_prefix<'a>(text: &'a str, prefix: &str) -> (out: Option<&'a str>)
    ensures
        opt_str(out) == stripped(text@, prefix@),
{
    let whole = chars_of(text);
    let head = chars_of(prefix);
    if head.len() > whole.len() {
        return None;
    }
    let mut i: usize = 0;
    while i < head.len()
        invariant
            i <= head.len() <= whole.len(),
            whole@ == text@,
            head@ == prefix@,
            head@.take(i as int) == whole@.take(i as int),
        decreases head.len() - i,
    {
        if head[i] != whole[i] {
            proof {
                if prefix@.is_prefix_of(text@) {
                    assert(whole@.subrange(0, head.len() as int)[i as int] == head@[i as int]);
                }
            }
            return None;
        }
        proof {
            assert(head@.take(i + 1) =~= head@.take(i as int).push(head@[i as int]));
            assert(whole@.take(i + 1) =~= whole@.take(i as int).push(whole@[i as int]));
        }
        i += 1;
    }
    proof {
        assert(head@.take(head.len() as int) =~= head@);
        assert(whole@.take(head.len() as int) =~= whole@.subrange(0, head.len() as int));
        assert(text@.skip(head.len() as int) =~= text@.subrange(head.len() as int, whole.len() as int));
    }
    Some(text.substring_char(head.len(), whole.len()))
}

/// The position of the last `c` in `s`, if `c` occurs in it.
pub open spec fn last_index_of(s: Seq<char>, c: char) -> Option<int>
    decreases s.len(),
{
    if s.len() == 0 {
        None
    } else if s.last() == c {
        Some(s.len() - 1)
    } else {
        last_index_of(s.drop_last(), c)
    }
}

/// `last_index_of` names an occurrence of `c` with none behind it, and is
/// `None` exactly when there is no occurrence.
pub proof fn lemma_last_index_of(s: Seq<char>, c: char)
    ensures
        match last_index_of(s, c) {
            Some(k) => 0 <= k < s.len() && s[k] == c && forall|j: int| k < j < s.len() ==> s[j] != c,
            None => !s.contains(c),
        },
    decreases s.len(),
{
    if s.len() == 0 {
    } else if s.last() == c {
    } else {
        let front = s.drop_last();
        lemma_last_index_of(front, c);
        match last_index_of(front, c) {
            Some(k) => {
                assert(front[k] == s[k]);
                assert forall|j: int| k < j < s.len() implies s[j] != c by {
                    if j < front.len() {
                        assert(front[j] == s[j]);
                    }
                }
            },
            None => {
                if s.contains(c) {
                    let j = choose|j: int| 0 <= j < s.len() && s[j] == c;
                    assert(front[j] == c);
                }
            },
        }
    }
}

/// Finds the last `c` in `chars`.
pub(crate) fn find_last(chars: &Vec<char>, c: char) -> (out: Option<usize>)
    ensures
        match out {
            Some(k) => k < chars.len() && last_index_of(chars@, c) == Some(k as int),
            None => last_index_of(chars@, c) is None,
        },
{
    let mut i: usize = chars.len();
    proof {
        assert(chars@.take(chars.len() as int) =~= chars@);
    }
    while i > 0
        invariant
            i <= chars.len(),
            last_index_of(chars@, c) == last_index_of(chars@.take(i as int), c),
        decreases i,
    {
        if chars[i - 1] == c {
            return Some(i - 1);
        }
        proof {
            assert(chars@.take(i as int).drop_last() =~= chars@.take(i - 1));
        }
        i -= 1;
    }
    None
}

} // verus!
