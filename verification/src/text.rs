//! Characters and text: which characters count as whitespace, and how program
//! text and output text are cleaned of it.

use vstd::prelude::*;

verus! {

/// Whether `c` has the Unicode property `White_Space`.
pub open spec fn is_whitespace(c: char) -> bool {
    let n = c as u32;
    ||| 0x09 <= n <= 0x0D
    ||| n == 0x20
    ||| n == 0x85
    ||| n == 0xA0
    ||| n == 0x1680
    ||| 0x2000 <= n <= 0x200A
    ||| n == 0x2028
    ||| n == 0x2029
    ||| n == 0x202F
    ||| n == 0x205F
    ||| n == 0x3000
}

/// Decides [`is_whitespace`].
pub fn char_is_whitespace(c: char) -> (r: bool)
    ensures
        r == is_whitespace(c),
{
    let n: u32 = c as u32;
    (0x09 <= n && n <= 0x0D) || n == 0x20 || n == 0x85 || n == 0xA0 || n == 0x1680 || (0x2000 <= n
        && n <= 0x200A) || n == 0x2028 || n == 0x2029 || n == 0x202F || n == 0x205F || n == 0x3000
}

/// The text without its whitespace characters, the others in their order.
pub open spec fn strip_whitespace(text: Seq<char>) -> Seq<char> {
    text.filter(|c: char| !is_whitespace(c))
}

/// The characters of `code` that are not whitespace, in their order.
pub fn strip(code: &str) -> (program: Vec<char>)
    ensures
        program@ == strip_whitespace(code@),
{
    let mut program: Vec<char> = Vec::new();
    for c in it: code.chars()
        invariant
            it.seq() == code@,
            program@ == strip_whitespace(code@.take(it.index() as int)),
    {
        proof {
            reveal(Seq::filter);
            let done = code@.take(it.index() as int);
            let next = code@.take(it.index() + 1);
            assert(next.drop_last() =~= done);
            assert(next.last() == c);
        }
        if !char_is_whitespace(c) {
            program.push(c);
        }
    }
    proof {
        assert(code@.take(code@.len() as int) =~= code@);
    }
    program
}

/// The text without the whitespace characters it starts with.
pub open spec fn trim_start(text: Seq<char>) -> Seq<char>
    decreases text.len(),
{
    if text.len() > 0 && is_whitespace(text.first()) {
        trim_start(text.drop_first())
    } else {
        text
    }
}

/// The text without the whitespace characters it ends with.
pub open spec fn trim_end(text: Seq<char>) -> Seq<char>
    decreases text.len(),
{
    if text.len() > 0 && is_whitespace(text.last()) {
        trim_end(text.drop_last())
    } else {
        text
    }
}

/// The text without leading and trailing whitespace.
pub open spec fn trim(text: Seq<char>) -> Seq<char> {
    trim_end(trim_start(text))
}

/// Where the trimmed text stands in the text: trimming cuts whitespace, and
/// only whitespace, from both ends, and leaves none at either end.
pub proof fn lemma_trim_bounds(text: Seq<char>) -> (bounds: (int, int))
    ensures
        0 <= bounds.0 <= bounds.1 <= text.len(),
        trim(text) == text.subrange(bounds.0, bounds.1),
        forall|i: int| 0 <= i < bounds.0 ==> is_whitespace(#[trigger] text[i]),
        forall|i: int| bounds.1 <= i < text.len() ==> is_whitespace(#[trigger] text[i]),
        bounds.0 < bounds.1 ==> !is_whitespace(text[bounds.0]) && !is_whitespace(
            text[bounds.1 - 1],
        ),
{
    let start = lemma_trim_start_bound(text);
    let rest = text.skip(start);
    let kept = lemma_trim_end_bound(rest);
    assert(rest.take(kept) =~= text.subrange(start, start + kept));
    assert forall|i: int| start + kept <= i < text.len() implies is_whitespace(
        #[trigger] text[i],
    ) by {
        assert(text[i] == rest[i - start]);
    }
    if kept > 0 {
        assert(rest[kept - 1] == text[start + kept - 1]);
        assert(rest[0] == text[start]);
    }
    (start, start + kept)
}

/// How many characters `trim_start` cuts.
proof fn lemma_trim_start_bound(text: Seq<char>) -> (start: int)
    ensures
        0 <= start <= text.len(),
        trim_start(text) == text.skip(start),
        forall|i: int| 0 <= i < start ==> is_whitespace(#[trigger] text[i]),
        start < text.len() ==> !is_whitespace(text[start]),
    decreases text.len(),
{
    if text.len() > 0 && is_whitespace(text.first()) {
        let rest = text.drop_first();
        let start = lemma_trim_start_bound(rest);
        assert(rest.skip(start) =~= text.skip(start + 1));
        assert forall|i: int| 0 <= i < start + 1 implies is_whitespace(#[trigger] text[i]) by {
            if i > 0 {
                assert(text[i] == rest[i - 1]);
            }
        }
        if start < rest.len() {
            assert(rest[start] == text[start + 1]);
        }
        start + 1
    } else {
        assert(text.skip(0) =~= text);
        0
    }
}

/// How many characters `trim_end` keeps.
proof fn lemma_trim_end_bound(text: Seq<char>) -> (kept: int)
    ensures
        0 <= kept <= text.len(),
        trim_end(text) == text.take(kept),
        forall|i: int| kept <= i < text.len() ==> is_whitespace(#[trigger] text[i]),
        kept > 0 ==> !is_whitespace(text[kept - 1]),
    decreases text.len(),
{
    if text.len() > 0 && is_whitespace(text.last()) {
        let rest = text.drop_last();
        let kept = lemma_trim_end_bound(rest);
        assert(rest.take(kept) =~= text.take(kept));
        assert forall|i: int| kept <= i < text.len() implies is_whitespace(#[trigger] text[i]) by {
            if i < rest.len() {
                assert(text[i] == rest[i]);
            }
        }
        if kept > 0 {
            assert(rest[kept - 1] == text[kept - 1]);
        }
        kept
    } else {
        assert(text.take(text.len() as int) =~= text);
        text.len() as int
    }
}

/// Each byte read as the character whose code point it is.
pub open spec fn bytes_as_chars(bytes: Seq<u8>) -> Seq<char> {
    bytes.map_values(|b: u8| b as char)
}

/// The text that a sequence of output bytes stands for: every byte as the
/// character with that code point, whitespace trimmed at both ends.
pub open spec fn render(bytes: Seq<u8>) -> Seq<char> {
    trim(bytes_as_chars(bytes))
}

/// The contract that this crate takes on trust for `String::push` of the
/// standard library: afterwards the string holds the characters it held,
/// followed by `ch`.
pub assume_specification[ String::push ](s: &mut String, ch: char)
    ensures
        final(s)@ == old(s)@.push(ch),
;

/// Builds the text that the output bytes stand for.
pub fn render_text(bytes: &Vec<u8>) -> (text: String)
    ensures
        text@ == render(bytes@),
{
    let ghost all = bytes_as_chars(bytes@);
    let mut start: usize = 0;
    proof {
        assert(all.skip(0) =~= all);
    }
    while start < bytes.len() && char_is_whitespace(bytes[start] as char)
        invariant
            start <= bytes.len(),
            all == bytes_as_chars(bytes@),
            trim_start(all) == trim_start(all.skip(start as int)),
        decreases bytes.len() - start,
    {
        proof {
            assert(all.skip(start as int).drop_first() =~= all.skip(start + 1));
        }
        start += 1;
    }
    let ghost rest = all.skip(start as int);
    let mut end: usize = bytes.len();
    proof {
        assert(all.subrange(start as int, end as int) =~= rest);
    }
    while end > start && char_is_whitespace(bytes[end - 1] as char)
        invariant
            start <= end <= bytes.len(),
            all == bytes_as_chars(bytes@),
            trim_end(rest) == trim_end(all.subrange(start as int, end as int)),
        decreases end - start,
    {
        proof {
            assert(all.subrange(start as int, end as int).drop_last() =~= all.subrange(
                start as int,
                end - 1,
            ));
        }
        end -= 1;
    }
    let mut text = String::new();
    let mut i: usize = start;
    while i < end
        invariant
            start <= i <= end <= bytes.len(),
            all == bytes_as_chars(bytes@),
            text@ == all.subrange(start as int, i as int),
        decreases end - i,
    {
        text.push(bytes[i] as char);
        proof {
            assert(all.subrange(start as int, i + 1) =~= all.subrange(start as int, i as int).push(
                all[i as int],
            ));
        }
        i += 1;
    }
    text
}

} // verus!
