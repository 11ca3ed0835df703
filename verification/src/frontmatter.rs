//! Separating the front-matter header of a document from its body.
//!
//! A header is present when the text opens with a delimiter line and a
//! second delimiter line follows somewhere after it. Everything between the
//! two lines is the block; everything after the second line is the body.

use vstd::prelude::*;

verus! {

/// The number of characters in a delimiter line: three dashes and a line break.
pub const DELIMITER_LEN: usize = 4;

/// The delimiter line: three dashes and a line break.
pub open spec fn delimiter() -> Seq<char> {
    seq!['-', '-', '-', '\n']
}

/// The delimiter line occurs in `text` at position `at`.
pub open spec fn delimiter_at(text: Seq<char>, at: int) -> bool {
    &&& 0 <= at
    &&& at + DELIMITER_LEN <= text.len()
    &&& text[at] == '-'
    &&& text[at + 1] == '-'
    &&& text[at + 2] == '-'
    &&& text[at + 3] == '\n'
}

/// The delimiter line occurs somewhere in `text`.
pub open spec fn has_delimiter(text: Seq<char>) -> bool {
    exists|at: int| delimiter_at(text, at)
}

/// `at` is the first position of `text` at which the delimiter line occurs.
pub open spec fn is_first_delimiter(text: Seq<char>, at: int) -> bool {
    &&& delimiter_at(text, at)
    &&& forall|before: int| 0 <= before < at ==> !delimiter_at(text, before)
}

/// The first position of `text` at which the delimiter line occurs.
/// Meaningful only when `has_delimiter(text)`.
pub open spec fn first_delimiter(text: Seq<char>) -> int {
    choose|at: int| is_first_delimiter(text, at)
}

/// The block and the body of a text that carries a header, in this order;
/// `None` for a text that does not open with a delimiter line, or whose
/// opening line is never closed.
pub open spec fn header_of(text: Seq<char>) -> Option<(Seq<char>, Seq<char>)> {
    let rest = text.skip(DELIMITER_LEN as int);
    if delimiter_at(text, 0) && has_delimiter(rest) {
        let close = first_delimiter(rest);
        Some((rest.take(close), rest.skip(close + DELIMITER_LEN)))
    } else {
        None
    }
}

/// Where the delimiter line occurs at all, it occurs at a first position.
pub proof fn lemma_first_delimiter_exists(text: Seq<char>)
    requires
        has_delimiter(text),
    ensures
        is_first_delimiter(text, first_delimiter(text)),
{
    let found = choose|at: int| delimiter_at(text, at);
    lemma_first_delimiter_before(text, found);
}

/// Where the delimiter line occurs at `at`, it occurs first at a position
/// that is not after `at`.
proof fn lemma_first_delimiter_before(text: Seq<char>, at: int)
    requires
        delimiter_at(text, at),
    ensures
        exists|first: int| is_first_delimiter(text, first),
    decreases at,
{
    if exists|before: int| 0 <= before < at && delimiter_at(text, before) {
        let before = choose|before: int| 0 <= before < at && delimiter_at(text, before);
        lemma_first_delimiter_before(text, before);
    } else {
        assert(is_first_delimiter(text, at));
    }
}

/// A text has at most one first delimiter, and `first_delimiter` names it.
pub proof fn lemma_first_delimiter_unique(text: Seq<char>, at: int)
    requires
        is_first_delimiter(text, at),
    ensures
        has_delimiter(text),
        first_delimiter(text) == at,
{
    let chosen = first_delimiter(text);
    assert(is_first_delimiter(text, chosen));
    if chosen < at {
        assert(!delimiter_at(text, chosen));
    }
    if at < chosen {
        assert(!delimiter_at(text, at));
    }
}

/// The header takes nothing away but its two delimiter lines: a text with a
/// header is the opening line, the block, the closing line and the body, one
/// after the other.
pub proof fn lemma_header_parts_make_the_text(text: Seq<char>)
    requires
        header_of(text) is Some,
    ensures
        ({
            let (block, body) = header_of(text)->Some_0;
            text == delimiter() + block + delimiter() + body
        }),
{
    let rest = text.skip(DELIMITER_LEN as int);
    lemma_first_delimiter_exists(rest);
    let close = first_delimiter(rest);
    let (block, body) = header_of(text)->Some_0;
    assert(delimiter_at(rest, close));
    assert(text.take(DELIMITER_LEN as int) =~= delimiter());
    assert(rest.subrange(close, close + DELIMITER_LEN) =~= delimiter());
    assert(text =~= delimiter() + block + delimiter() + body);
}

/// A text that is put together from an opening delimiter line, a block, a
/// closing delimiter line and a body comes apart into that block and that
/// body, provided that the closing line is the first delimiter line after the
/// opening one: none begins inside the block.
pub proof fn lemma_header_of_assembled(block: Seq<char>, body: Seq<char>)
    requires
        forall|at: int| at < block.len() ==> !delimiter_at(block + delimiter(), at),
    ensures
        header_of(delimiter() + block + delimiter() + body) == Some((block, body)),
{
    let text = delimiter() + block + delimiter() + body;
    let rest = text.skip(DELIMITER_LEN as int);
    let close = block.len() as int;
    assert(rest =~= block + delimiter() + body);
    assert(delimiter_at(text, 0));
    assert(delimiter_at(rest, close));
    assert forall|before: int| 0 <= before < close implies !delimiter_at(rest, before) by {
        if delimiter_at(rest, before) {
            assert(delimiter_at(block + delimiter(), before));
        }
    }
    lemma_first_delimiter_unique(rest, close);
    assert(rest.take(close) =~= block);
    assert(rest.skip(close + 4) =~= body);
}

/// The characters of `text`, in order.
pub fn chars_of(text: &str) -> (chars: Vec<char>)
    ensures
        chars@ == text@,
{
    broadcast use vstd::string::group_string_axioms;

    let mut chars: Vec<char> = Vec::new();
    for c in it: text.chars()
        invariant
            it.seq() == text@,
            chars@ == it.seq().take(it.index()),
    {
        chars.push(c);
    }
    chars
}

/// Whether the delimiter line occurs in `chars` at position `at`.
pub fn is_delimiter_at(chars: &Vec<char>, at: usize) -> (found: bool)
    ensures
        found == delimiter_at(chars@, at as int),
{
    let len = chars.len();
    if at > len || len - at < DELIMITER_LEN {
        return false;
    }
    chars[at] == '-' && chars[at + 1] == '-' && chars[at + 2] == '-' && chars[at + 3] == '\n'
}

/// The first position at or after `from` at which the delimiter line occurs.
pub fn find_delimiter(chars: &Vec<char>, from: usize) -> (found: Option<usize>)
    ensures
        match found {
            Some(at) => {
                &&& from <= at
                &&& delimiter_at(chars@, at as int)
                &&& forall|before: int| from <= before < at ==> !delimiter_at(chars@, before)
            },
            None => forall|at: int| from <= at ==> !delimiter_at(chars@, at),
        },
{
    let mut at: usize = from;
    while at < chars.len()
        invariant
            from <= at,
            forall|before: int| from <= before < at ==> !delimiter_at(chars@, before),
        decreases chars.len() - at,
    {
        if is_delimiter_at(chars, at) {
            return Some(at);
        }
        at += 1;
    }
    None
}

/// Splits `text` into the block between its two delimiter lines and the body
/// after the second one. Returns `None` when `text` carries no header.
pub fn split_header<'a>(text: &'a str) -> (parts: Option<(&'a str, &'a str)>)
    ensures
        match parts {
            Some((block, body)) => header_of(text@) == Some((block@, body@)),
            None => header_of(text@) is None,
        },
{
    let chars = chars_of(text);
    let len = chars.len();
    if !is_delimiter_at(&chars, 0) {
        return None;
    }
    let ghost rest = text@.skip(DELIMITER_LEN as int);
    match find_delimiter(&chars, DELIMITER_LEN) {
        None => {
            assert forall|at: int| !delimiter_at(rest, at) by {
                if delimiter_at(rest, at) {
                    assert(delimiter_at(text@, at + 4));
                }
            }
            None
        },
        Some(close) => {
            proof {
                assert(delimiter_at(rest, close - 4));
                assert forall|before: int| 0 <= before < close - 4 implies !delimiter_at(
                    rest,
                    before,
                ) by {
                    if delimiter_at(rest, before) {
                        assert(delimiter_at(text@, before + 4));
                    }
                }
                lemma_first_delimiter_unique(rest, close - 4);
                assert(rest.take(close - 4) =~= text@.subrange(4, close as int));
                assert(rest.skip(close - 4 + 4) =~= text@.subrange(
                    close + 4,
                    text@.len() as int,
                ));
            }
            let block = text.substring_char(DELIMITER_LEN, close);
            let body = text.substring_char(close + DELIMITER_LEN, len);
            Some((block, body))
        },
    }
}

} // verus!
