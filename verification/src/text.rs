//! String operations.

use vstd::prelude::*;
use vstd::string::*;

verus! {

/// The characters with the Unicode property `White_Space`.
pub open spec fn is_white_space(c: char) -> bool {
    ||| 0x9 <= c as int <= 0xd
    ||| c as int == 0x20
    ||| c as int == 0x85
    ||| c as int == 0xa0
    ||| c as int == 0x1680
    ||| 0x2000 <= c as int <= 0x200a
    ||| 0x2028 <= c as int <= 0x2029
    ||| c as int == 0x202f
    ||| c as int == 0x205f
    ||| c as int == 0x3000
}

/// `text` without its leading and trailing white space.
pub open spec fn trimmed(text: Seq<char>) -> Seq<char>
    decreases text.len(),
{
    if text.len() > 0 && is_white_space(text.first()) {
        trimmed(text.drop_first())
    } else if text.len() > 0 && is_white_space(text.last()) {
        trimmed(text.drop_last())
    } else {
        text
    }
}

/// The first position at or after `from` at which `pattern` stands in `text`.
pub open spec fn find_from(text: Seq<char>, pattern: Seq<char>, from: int) -> Option<int>
    decreases text.len() - from,
{
    if from < 0 || from + pattern.len() > text.len() || from >= text.len() {
        None
    } else if text.subrange(from, from + pattern.len()) == pattern {
        Some(from)
    } else {
        find_from(text, pattern, from + 1)
    }
}

/// `text` with its first `count` occurrences of `pattern` replaced, found from left to right and
/// without overlap.
pub open spec fn replaced(
    text: Seq<char>,
    pattern: Seq<char>,
    replacement: Seq<char>,
    count: nat,
) -> Seq<char>
    decreases count,
{
    if count == 0 {
        text
    } else {
        match find_from(text, pattern, 0) {
            None => text,
            Some(at) => text.take(at) + replacement + replaced(
                text.skip(at + pattern.len()),
                pattern,
                replacement,
                (count - 1) as nat,
            ),
        }
    }
}

/// `str::trim`: removes leading and trailing white space, as Unicode defines it.
#[verifier::external_body]
pub(crate) fn trim(text: &str) -> (result: &str)
    ensures
        result@ == trimmed(text@),
{
    text.trim()
}

/// `str::replacen`: replaces the first `count` matches of `pattern`.
#[verifier::external_body]
pub(crate) fn replace_first(text: &str, pattern: &str, replacement: &str, count: usize) -> (result:
    String)
    requires
        pattern@.len() > 0,
    ensures
        result@ == replaced(text@, pattern@, replacement@, count as nat),
{
    text.replacen(pattern, replacement, count)
}

/// `String::push`: appends one character.
pub assume_specification[ String::push ](text: &mut String, c: char)
    ensures
        final(text)@ == old(text)@.push(c),
;

/// Whether two texts have the same characters.
pub fn same_text(left: &str, right: &str) -> (same: bool)
    ensures
        same == (left@ == right@),
{
    left.to_owned() == right.to_owned()
}

/// Whether `text` begins with `prefix`.
pub fn has_prefix(text: &str, prefix: &str) -> (has: bool)
    ensures
        has == (prefix@.len() <= text@.len() && text@.take(prefix@.len() as int) == prefix@),
{
    let length: usize = prefix.unicode_len();
    if text.unicode_len() < length {
        return false;
    }
    same_text(text.substring_char(0, length), prefix)
}

/// A pattern that stands nowhere in a text is not found.
pub proof fn absent_patterns_are_not_found(text: Seq<char>, pattern: Seq<char>, from: int)
    requires
        0 <= from,
        forall|i: int|
            from <= i && i + pattern.len() <= text.len() ==> #[trigger] text.subrange(
                i,
                i + pattern.len(),
            ) != pattern,
    ensures
        find_from(text, pattern, from) is None,
    decreases text.len() - from,
{
    if from + pattern.len() <= text.len() && from < text.len() {
        assert(text.subrange(from, from + pattern.len()) != pattern);
        absent_patterns_are_not_found(text, pattern, from + 1);
    }
}

/// A pattern is found where it first stands.
pub proof fn patterns_are_found_where_they_first_stand(
    text: Seq<char>,
    pattern: Seq<char>,
    from: int,
    at: int,
)
    requires
        0 <= from <= at,
        at + pattern.len() <= text.len(),
        pattern.len() > 0,
        text.subrange(at, at + pattern.len()) == pattern,
        forall|i: int|
            from <= i < at ==> #[trigger] text.subrange(i, i + pattern.len()) != pattern,
    ensures
        find_from(text, pattern, from) == Some(at),
    decreases at - from,
{
    if from < at {
        assert(text.subrange(from, from + pattern.len()) != pattern);
        patterns_are_found_where_they_first_stand(text, pattern, from + 1, at);
    }
}

/// A text in which a pattern does not stand stays as it is.
pub proof fn absent_patterns_are_not_replaced(
    text: Seq<char>,
    pattern: Seq<char>,
    replacement: Seq<char>,
    count: nat,
)
    requires
        forall|i: int|
            0 <= i && i + pattern.len() <= text.len() ==> #[trigger] text.subrange(
                i,
                i + pattern.len(),
            ) != pattern,
    ensures
        replaced(text, pattern, replacement, count) == text,
{
    absent_patterns_are_not_found(text, pattern, 0);
}

/// The first pattern in a text is replaced, and one less is replaced in what follows.
pub proof fn patterns_are_replaced_from_the_left(
    before: Seq<char>,
    pattern: Seq<char>,
    after: Seq<char>,
    replacement: Seq<char>,
    count: nat,
)
    requires
        pattern.len() > 0,
        count > 0,
        !before.contains(pattern[0]),
    ensures
        replaced(before + pattern + after, pattern, replacement, count) == before + replacement
            + replaced(after, pattern, replacement, (count - 1) as nat),
{
    let text = before + pattern + after;
    let at = before.len() as int;
    assert(text.subrange(at, at + pattern.len()) =~= pattern);
    assert forall|i: int| 0 <= i < at implies #[trigger] text.subrange(i, i + pattern.len())
        != pattern by {
        assert(text.subrange(i, i + pattern.len())[0] == before[i]);
    }
    patterns_are_found_where_they_first_stand(text, pattern, 0, at);
    assert(text.take(at) =~= before);
    assert(text.skip(at + pattern.len()) =~= after);
}

} // verus!
