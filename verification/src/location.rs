//! Locations in a file tree, as text with `/` between the segments.
//!
//! [`joined`] says where a name leads from a directory, and [`join`] computes
//! it.

use vstd::prelude::*;

verus! {

/// The character that separates the segments of a location.
pub const SEPARATOR: char = '/';

/// Whether `location` starts at the root of the file tree.
pub open spec fn is_rooted(location: Seq<char>) -> bool {
    location.len() > 0 && location.first() == SEPARATOR
}

/// Whether a separator must be put behind `base` before a name can follow:
/// `base` is not empty and does not end with one.
pub open spec fn needs_separator(base: Seq<char>) -> bool {
    base.len() > 0 && base.last() != SEPARATOR
}

/// Where `name` leads from `base`.
///
/// A rooted `name` leads to itself, whatever `base` is. Any other `name`
/// follows `base`, after a separator where `base` needs one.
pub open spec fn joined(base: Seq<char>, name: Seq<char>) -> Seq<char> {
    if is_rooted(name) {
        name
    } else if needs_separator(base) {
        base.push(SEPARATOR) + name
    } else {
        base + name
    }
}

/// Whether `name` is a single segment: not empty, and without a separator.
pub open spec fn is_segment(name: Seq<char>) -> bool {
    name.len() > 0 && forall|i: int| 0 <= i < name.len() ==> #[trigger] name[i] != SEPARATOR
}

/// The first character of `text`, if it has one.
fn first_char(text: &str) -> (first: Option<char>)
    ensures
        first == if text@.len() > 0 {
            Some(text@.first())
        } else {
            None
        },
{
    broadcast use vstd::string::group_string_axioms;

    let mut rest = text.chars();
    rest.next()
}

/// The last character of `text`, if it has one.
fn last_char(text: &str) -> (last: Option<char>)
    ensures
        last == if text@.len() > 0 {
            Some(text@.last())
        } else {
            None
        },
{
    let mut last: Option<char> = None;
    for c in it: text.chars()
        invariant
            it.seq() == text@,
            last == if it.index() > 0 {
                Some(text@[it.index() - 1])
            } else {
                None
            },
    {
        last = Some(c);
    }
    last
}

/// Joins `name` to `base`.
pub fn join(base: &str, name: &str) -> (location: String)
    ensures
        location@ == joined(base@, name@),
{
    if first_char(name) == Some(SEPARATOR) {
        return String::from_str(name);
    }
    let mut location = String::from_str(base);
    match last_char(base) {
        Some(c) => {
            if c != SEPARATOR {
                proof {
                    reveal_strlit("/");
                }
                location.append("/");
                assert("/"@ =~= seq![SEPARATOR]);
                assert(base@ + seq![SEPARATOR] =~= base@.push(SEPARATOR));
            }
        },
        None => {},
    }
    location.append(name);
    location
}

/// Law: a single segment joined to a directory lies directly in it. The
/// result is the directory, one separator where the directory does not end
/// with one, and the segment.
pub proof fn lemma_join_segment(base: Seq<char>, name: Seq<char>)
    requires
        is_segment(name),
    ensures
        joined(base, name) == if needs_separator(base) {
            base.push(SEPARATOR) + name
        } else {
            base + name
        },
        joined(base, name).len() >= base.len() + name.len(),
        joined(base, name).subrange(0, base.len() as int) == base,
        joined(base, name).subrange(
            joined(base, name).len() - name.len(),
            joined(base, name).len() as int,
        ) == name,
{
    assert(name[0] != SEPARATOR);
}

} // verus!
