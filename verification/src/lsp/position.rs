//! Columns as the language server counts them: in UTF-8 bytes or in UTF-16
//! code units, as the server chose.
use vstd::prelude::*;

use crate::text::utf8_width;

verus! {

/// How columns of positions are counted.
#[derive(Debug, Copy, Clone, PartialEq, Eq, Structural)]
pub enum PositionEncoding {
    Utf8,
    Utf16,
}

/// The number of UTF-16 code units `c` takes (what `char::len_utf16` gives).
pub open spec fn utf16_width(c: char) -> nat {
    if (c as u32) < 0x10000 { 1 } else { 2 }
}

/// The number of UTF-16 code units of `s`.
pub open spec fn utf16_len(s: Seq<char>) -> nat
    decreases s.len(),
{
    if s.len() == 0 { 0 } else { utf16_len(s.drop_last()) + utf16_width(s.last()) }
}

/// The number of UTF-8 bytes of `s`.
pub open spec fn utf8_len(s: Seq<char>) -> nat
    decreases s.len(),
{
    if s.len() == 0 { 0 } else { utf8_len(s.drop_last()) + utf8_width(s.last()) }
}

/// The byte offset in `line` of the UTF-16 column `character`: the bytes of
/// the characters that end at or before it (a column inside a character
/// stops before that character).
pub open spec fn utf16_to_byte(line: Seq<char>, character: nat) -> nat
    decreases line.len(),
{
    if line.len() == 0 || utf16_width(line[0]) > character {
        0
    } else {
        utf8_width(line[0]) + utf16_to_byte(line.drop_first(), (character - utf16_width(line[0])) as nat)
    }
}

/// The byte offset in `line` that column `character` names.
pub open spec fn column_to_byte(encoding: PositionEncoding, line: Seq<char>, character: u32) -> nat {
    match encoding {
        PositionEncoding::Utf8 => character as nat,
        PositionEncoding::Utf16 => utf16_to_byte(line, character as nat),
    }
}

/// The column of the position after `prefix`, taken modulo 2^32 as the
/// conversion to `u32` does.
pub open spec fn prefix_to_column(encoding: PositionEncoding, prefix: Seq<char>) -> u32 {
    match encoding {
        PositionEncoding::Utf8 => (utf8_len(prefix) % 0x1_0000_0000) as u32,
        PositionEncoding::Utf16 => (utf16_len(prefix) % 0x1_0000_0000) as u32,
    }
}

fn char_utf16_len(c: char) -> (n: usize)
    ensures
        n == utf16_width(c),
{
    if (c as u32) < 0x10000 { 1 } else { 2 }
}

proof fn lemma_utf16_split(line: Seq<char>, i: int, character: nat, total: nat)
    requires
        0 <= i < line.len(),
        total + utf16_width(line[i]) <= character,
    ensures
        utf16_to_byte(line.skip(i), (character - total) as nat) == utf8_width(line[i]) + utf16_to_byte(
            line.skip(i + 1),
            (character - total - utf16_width(line[i])) as nat,
        ),
{
    assert(line.skip(i).drop_first() =~= line.skip(i + 1));
}

pub(crate) proof fn lemma_utf8_len_prefix(s: Seq<char>, i: int)
    requires
        0 <= i <= s.len(),
    ensures
        utf8_len(s.take(i)) <= utf8_len(s),
    decreases s.len(),
{
    if i < s.len() {
        assert(s.drop_last().take(i) =~= s.take(i));
        lemma_utf8_len_prefix(s.drop_last(), i);
    } else {
        assert(s.take(i) =~= s);
    }
}
/// The byte offset in `line` that column `character` names (see `column_to_byte`).
pub fn decode_column(encoding: PositionEncoding, line: &str, character: u32) -> (r: usize)
    requires
        utf8_len(line@) <= usize::MAX,
    ensures
        r == column_to_byte(encoding, line@, character),
{
    match encoding {
        PositionEncoding::Utf8 => character as usize,
        PositionEncoding::Utf16 => {
            let chars = crate::text::chars_of(line);
            let n = chars.len();
            let mut total: u64 = 0;
            let mut bytes: usize = 0;
            let mut i: usize = 0;
            assert(chars@.skip(0) =~= chars@);
            assert(chars@.take(0) =~= Seq::<char>::empty());
            while i < n
                invariant_except_break
                    n == chars@.len(),
                    chars@ == line@,
                    utf8_len(line@) <= usize::MAX,
                    0 <= i <= n,
                    total <= character,
                    bytes == utf8_len(chars@.take(i as int)),
                    bytes + utf16_to_byte(chars@.skip(i as int), (character - total) as nat)
                        == utf16_to_byte(chars@, character as nat),
                ensures
                    bytes == utf16_to_byte(chars@, character as nat),
                decreases n - i,
            {
                let c = chars[i];
                let w16 = char_utf16_len(c);
                if total + w16 as u64 > character as u64 {
                    assert(chars@.skip(i as int)[0] == c);
                    break;
                }
                proof {
                    lemma_utf16_split(chars@, i as int, character as nat, total as nat);
                    lemma_utf8_len_prefix(chars@, i as int + 1);
                    assert(chars@.take(i + 1).drop_last() =~= chars@.take(i as int));
                }
                total = total + w16 as u64;
                bytes = bytes + crate::text::char_utf8_len(c);
                i += 1;
                if i == n {
                    assert(chars@.skip(n as int).len() == 0);
                }
            }
            bytes
        },
    }
}

/// The column of the position after `prefix` (see `prefix_to_column`).
pub fn encode_column(encoding: PositionEncoding, prefix: &str) -> (r: u32)
    ensures
        r == prefix_to_column(encoding, prefix@),
{
    let chars = crate::text::chars_of(prefix);
    let n = chars.len();
    let mut sum: u64 = 0;
    let mut i: usize = 0;
    while i < n
        invariant
            n == chars@.len(),
            0 <= i <= n,
            sum == match encoding {
                PositionEncoding::Utf8 => utf8_len(chars@.take(i as int)),
                PositionEncoding::Utf16 => utf16_len(chars@.take(i as int)),
            } % 0x1_0000_0000,
        decreases n - i,
    {
        let c = chars[i];
        let w = match encoding {
            PositionEncoding::Utf8 => crate::text::char_utf8_len(c),
            PositionEncoding::Utf16 => char_utf16_len(c),
        };
        assert(chars@.take(i + 1).drop_last() =~= chars@.take(i as int));
        sum = (sum + w as u64) % 0x1_0000_0000;
        i += 1;
    }
    assert(chars@.take(n as int) =~= chars@);
    sum as u32
}

/// A column encoded from the text before a position decodes back to the
/// byte length of that text, in the line the text begins: what is sent to
/// the server for a position is read back as the same position.
pub proof fn lemma_column_roundtrip(encoding: PositionEncoding, prefix: Seq<char>, rest: Seq<char>)
    requires
        utf8_len(prefix) <= u32::MAX,
        utf16_len(prefix) <= u32::MAX,
    ensures
        column_to_byte(encoding, prefix + rest, prefix_to_column(encoding, prefix)) == utf8_len(prefix),
{
    match encoding {
        PositionEncoding::Utf8 => {},
        PositionEncoding::Utf16 => {
            lemma_utf16_roundtrip(prefix, rest);
        },
    }
}

proof fn lemma_utf16_len_first(s: Seq<char>)
    requires
        s.len() > 0,
    ensures
        utf16_len(s) == utf16_width(s[0]) + utf16_len(s.drop_first()),
        utf8_len(s) == utf8_width(s[0]) + utf8_len(s.drop_first()),
    decreases s.len(),
{
    if s.len() > 1 {
        lemma_utf16_len_first(s.drop_last());
        assert(s.drop_last().drop_first() =~= s.drop_first().drop_last());
        assert(s.drop_last()[0] == s[0]);
        assert(s.drop_first().last() == s.last());
        assert(utf16_len(s.drop_first()) == utf16_len(s.drop_first().drop_last()) + utf16_width(s.last()));
        assert(utf8_len(s.drop_first()) == utf8_len(s.drop_first().drop_last()) + utf8_width(s.last()));
        assert(utf16_len(s) == utf16_len(s.drop_last()) + utf16_width(s.last()));
        assert(utf8_len(s) == utf8_len(s.drop_last()) + utf8_width(s.last()));
    } else {
        assert(utf16_len(s) == utf16_len(s.drop_last()) + utf16_width(s.last()));
        assert(utf8_len(s) == utf8_len(s.drop_last()) + utf8_width(s.last()));
        assert(utf16_len(s.drop_first()) == 0);
        assert(utf8_len(s.drop_first()) == 0);
        assert(s.drop_first().len() == 0);
        assert(s.drop_last().len() == 0);
        assert(s.last() == s[0]);
    }
}

proof fn lemma_utf16_roundtrip(prefix: Seq<char>, rest: Seq<char>)
    ensures
        utf16_to_byte(prefix + rest, utf16_len(prefix)) == utf8_len(prefix) + utf16_to_byte(rest, 0),
    decreases prefix.len(),
{
    if prefix.len() == 0 {
        assert(prefix + rest =~= rest);
        lemma_utf16_zero(rest);
    } else {
        lemma_utf16_len_first(prefix);
        let s = prefix + rest;
        assert(s[0] == prefix[0]);
        assert(s.drop_first() =~= prefix.drop_first() + rest);
        lemma_utf16_roundtrip(prefix.drop_first(), rest);
        lemma_utf16_zero(rest);
    }
}

proof fn lemma_utf16_zero(s: Seq<char>)
    ensures
        utf16_to_byte(s, 0) == 0,
{
}

} // verus!
