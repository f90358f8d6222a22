//! The base protocol of LSP: each message is a header (`Content-Length: n`,
//! other fields ignored) and a blank line, then `n` bytes of content.
use vstd::prelude::*;

use crate::text::{decimal, push_decimal};

verus! {

// ---------------------------------------------------------------------------
// White space and numbers on bytes
// ---------------------------------------------------------------------------

/// The length of the UTF-8 encoded white-space character (Unicode
/// White_Space) that starts at `i` and ends by `hi`, or 0.
pub open spec fn ws_at(b: Seq<u8>, i: int, hi: int) -> int {
    if 0 <= i < hi && hi <= b.len() && ((0x09 <= b[i] <= 0x0d) || b[i] == 0x20) {
        1
    } else if 0 <= i && i + 2 <= hi && hi <= b.len() && b[i] == 0xc2 && (b[i + 1] == 0x85 || b[i + 1] == 0xa0) {
        2
    } else if 0 <= i && i + 3 <= hi && hi <= b.len() && is_ws3(b[i], b[i + 1], b[i + 2]) {
        3
    } else {
        0
    }
}

/// Whether three bytes encode a white-space character.
pub open spec fn is_ws3(x: u8, y: u8, z: u8) -> bool {
    ||| x == 0xe1 && y == 0x9a && z == 0x80
    ||| x == 0xe2 && y == 0x80 && ((0x80 <= z <= 0x8a) || z == 0xa8 || z == 0xa9 || z == 0xaf)
    ||| x == 0xe2 && y == 0x81 && z == 0x9f
    ||| x == 0xe3 && y == 0x80 && z == 0x80
}

/// The length of the white-space character that ends at `j` and starts at
/// or after `lo`, or 0.
pub open spec fn ws_before(b: Seq<u8>, lo: int, j: int) -> int {
    if lo <= j - 1 && 0 <= j - 1 && j <= b.len() && ((0x09 <= b[j - 1] <= 0x0d) || b[j - 1] == 0x20) {
        1
    } else if lo <= j - 2 && 0 <= j - 2 && j <= b.len() && b[j - 2] == 0xc2 && (b[j - 1] == 0x85 || b[j - 1] == 0xa0) {
        2
    } else if lo <= j - 3 && 0 <= j - 3 && j <= b.len() && is_ws3(b[j - 3], b[j - 2], b[j - 1]) {
        3
    } else {
        0
    }
}

/// Where the text `b[i..hi]` starts once leading white space is skipped.
pub open spec fn trim_lo(b: Seq<u8>, i: int, hi: int) -> int
    decreases hi - i,
{
    let w = ws_at(b, i, hi);
    if w > 0 && i < hi { trim_lo(b, i + w, hi) } else { i }
}

/// Where the text `b[lo..j]` ends once trailing white space is skipped.
pub open spec fn trim_hi(b: Seq<u8>, lo: int, j: int) -> int
    decreases j - lo,
{
    let w = ws_before(b, lo, j);
    if w > 0 && lo < j { trim_hi(b, lo, j - w) } else { j }
}

/// The range `b[lo..hi]` once white space at both ends is trimmed (what
/// `str::trim` keeps of the text those bytes decode to, lossily).
pub open spec fn trimmed_range(b: Seq<u8>, lo: int, hi: int) -> (int, int) {
    let l = trim_lo(b, lo, hi);
    (l, trim_hi(b, l, hi))
}

/// The index of the first `:` in `b[lo..hi]`.
pub open spec fn colon_in(b: Seq<u8>, lo: int, hi: int) -> Option<int>
    decreases hi - lo,
{
    if lo >= hi {
        None
    } else if b[lo] == 0x3a {
        Some(lo)
    } else {
        colon_in(b, lo + 1, hi)
    }
}

/// The value of the decimal digits `d`.
pub open spec fn digits_value(d: Seq<u8>) -> nat
    decreases d.len(),
{
    if d.len() == 0 {
        0
    } else {
        digits_value(d.drop_last()) * 10 + (d.last() - 0x30) as nat
    }
}

/// Whether every byte of `d` is a decimal digit.
pub open spec fn all_digits(d: Seq<u8>) -> bool {
    forall|i: int| 0 <= i < d.len() ==> 0x30 <= #[trigger] d[i] <= 0x39
}

/// `s` without a leading `+`.
pub open spec fn unsigned_digits(s: Seq<u8>) -> Seq<u8> {
    if s.len() > 0 && s[0] == 0x2bu8 { s.skip(1) } else { s }
}

/// The number `s` writes, as `u32::from_str` reads it: an optional `+`,
/// then at least one digit, and no more than `u32::MAX`.
pub open spec fn parse_u32(s: Seq<u8>) -> Option<u32> {
    let d = unsigned_digits(s);
    if d.len() > 0 && all_digits(d) && digits_value(d) <= u32::MAX {
        Some(digits_value(d) as u32)
    } else {
        None
    }
}

/// The bytes of `Content-Length`.
pub open spec fn content_length_key() -> Seq<u8> {
    seq![0x43u8, 0x6f, 0x6e, 0x74, 0x65, 0x6e, 0x74, 0x2d, 0x4c, 0x65, 0x6e, 0x67, 0x74, 0x68]
}

// ---------------------------------------------------------------------------
// The header
// ---------------------------------------------------------------------------

/// The first line feed at or after `i`.
pub open spec fn newline_from(b: Seq<u8>, i: int) -> Option<int>
    decreases b.len() - i,
{
    if i < 0 || i >= b.len() {
        None
    } else if b[i] == 0x0a {
        Some(i)
    } else {
        newline_from(b, i + 1)
    }
}

proof fn lemma_newline_from(b: Seq<u8>, i: int)
    requires
        0 <= i,
    ensures
        match newline_from(b, i) {
            Some(n) => i <= n < b.len() && b[n] == 0x0a && forall|k: int| i <= k < n ==> b[k] != 0x0a,
            None => forall|k: int| i <= k < b.len() ==> b[k] != 0x0a,
        },
    decreases b.len() - i,
{
    if 0 <= i < b.len() && b[i] != 0x0a {
        lemma_newline_from(b, i + 1);
    }
}

/// How reading the header went.
pub enum HeaderScan {
    /// No blank line yet.
    Incomplete,
    /// A `Content-Length` value is not a number that fits a `u32`.
    Invalid,
    /// The header ends at `end` (after its blank line); the last
    /// `Content-Length` given, if any.
    Done { end: nat, content_length: Option<u32> },
}

/// Reads header lines from `prev` on, `len` being the last
/// `Content-Length` seen. Each line runs to a line feed and is trimmed; an
/// empty one ends the header; a line without `:` is skipped; of the others
/// only `Content-Length` counts.
pub open spec fn scan_headers(b: Seq<u8>, prev: int, len: Option<u32>) -> HeaderScan
    decreases b.len() - prev,
{
    match newline_from(b, prev) {
        None => HeaderScan::Incomplete,
        Some(nl) => {
            if nl < prev || nl >= b.len() {
                HeaderScan::Incomplete
            } else {
                let (hl, hh) = trimmed_range(b, prev, nl + 1);
                if hl >= hh {
                    HeaderScan::Done { end: (nl + 1) as nat, content_length: len }
                } else {
                    match colon_in(b, hl, hh) {
                        None => scan_headers(b, nl + 1, len),
                        Some(c) => {
                            let (kl, kh) = trimmed_range(b, hl, c);
                            if b.subrange(kl, kh) == content_length_key() {
                                let (vl, vh) = trimmed_range(b, c + 1, hh);
                                match parse_u32(b.subrange(vl, vh)) {
                                    None => HeaderScan::Invalid,
                                    Some(v) => scan_headers(b, nl + 1, Some(v)),
                                }
                            } else {
                                scan_headers(b, nl + 1, len)
                            }
                        },
                    }
                }
            }
        },
    }
}

/// Why the bytes received are not a message.
#[derive(Debug, Clone, Copy, PartialEq, Eq, Structural)]
pub enum FrameError {
    /// A `Content-Length` value is not a number.
    InvalidContentLength,
}

/// What reading a message from the start of `b` gives: where its content
/// starts and how long it is; `None` while the header or the content is
/// not all there (or the header names no length).
pub open spec fn decode_frame_spec(b: Seq<u8>) -> Result<Option<(usize, usize)>, FrameError> {
    match scan_headers(b, 0, None) {
        HeaderScan::Invalid => Err(FrameError::InvalidContentLength),
        HeaderScan::Incomplete => Ok(None),
        HeaderScan::Done { end, content_length } => match content_length {
            None => Ok(None),
            Some(n) => if b.len() < end + n {
                Ok(None)
            } else {
                Ok(Some((end as usize, n as usize)))
            },
        },
    }
}

/// The bytes `Content-Length: `.
pub open spec fn header_prefix() -> Seq<u8> {
    content_length_key() + seq![0x3au8, 0x20]
}

/// The message carrying `content`: its header, a blank line, the content.
pub open spec fn frame(content: Seq<u8>) -> Seq<u8> {
    header_prefix() + decimal(content.len()) + seq![0x0du8, 0x0a, 0x0d, 0x0a] + content
}

// ---------------------------------------------------------------------------
// Executable code
// ---------------------------------------------------------------------------

fn ws_len_at(b: &[u8], i: usize, hi: usize) -> (w: usize)
    requires
        hi <= b@.len(),
    ensures
        w == ws_at(b@, i as int, hi as int),
{
    if i < hi && ((0x09 <= b[i] && b[i] <= 0x0d) || b[i] == 0x20) {
        1
    } else if i < hi && hi - i >= 2 && b[i] == 0xc2 && (b[i + 1] == 0x85 || b[i + 1] == 0xa0) {
        2
    } else if i < hi && hi - i >= 3 && ws3(b[i], b[i + 1], b[i + 2]) {
        3
    } else {
        0
    }
}

fn ws3(x: u8, y: u8, z: u8) -> (r: bool)
    ensures
        r == is_ws3(x, y, z),
{
    (x == 0xe1 && y == 0x9a && z == 0x80) || (x == 0xe2 && y == 0x80 && ((0x80 <= z && z <= 0x8a) || z == 0xa8 || z == 0xa9 || z == 0xaf))
        || (x == 0xe2 && y == 0x81 && z == 0x9f) || (x == 0xe3 && y == 0x80 && z == 0x80)
}

fn ws_len_before(b: &[u8], lo: usize, j: usize) -> (w: usize)
    requires
        j <= b@.len(),
    ensures
        w == ws_before(b@, lo as int, j as int),
{
    if j >= 1 && lo <= j - 1 && ((0x09 <= b[j - 1] && b[j - 1] <= 0x0d) || b[j - 1] == 0x20) {
        1
    } else if j >= 2 && lo <= j - 2 && b[j - 2] == 0xc2 && (b[j - 1] == 0x85 || b[j - 1] == 0xa0) {
        2
    } else if j >= 3 && lo <= j - 3 && ws3(b[j - 3], b[j - 2], b[j - 1]) {
        3
    } else {
        0
    }
}

/// The range `b[lo..hi]` with white space trimmed at both ends.
fn trim_range(b: &[u8], lo: usize, hi: usize) -> (r: (usize, usize))
    requires
        lo <= hi <= b@.len(),
    ensures
        r.0 == trimmed_range(b@, lo as int, hi as int).0,
        r.1 == trimmed_range(b@, lo as int, hi as int).1,
        lo <= r.0 <= r.1 <= hi,
{
    let mut l = lo;
    loop
        invariant
            lo <= l <= hi,
            hi <= b@.len(),
            trim_lo(b@, l as int, hi as int) == trim_lo(b@, lo as int, hi as int),
        ensures
            lo <= l <= hi,
            trim_lo(b@, l as int, hi as int) == trim_lo(b@, lo as int, hi as int),
            trim_lo(b@, l as int, hi as int) == l as int,
        decreases hi - l,
    {
        let w = ws_len_at(b, l, hi);
        if w > 0 && l < hi {
            l = l + w;
        } else {
            break;
        }
    }
    let mut h = hi;
    loop
        invariant
            l <= h <= hi,
            hi <= b@.len(),
            trim_hi(b@, l as int, h as int) == trim_hi(b@, l as int, hi as int),
        ensures
            l <= h <= hi,
            trim_hi(b@, l as int, h as int) == trim_hi(b@, l as int, hi as int),
            trim_hi(b@, l as int, h as int) == h as int,
        decreases h - l,
    {
        let w = ws_len_before(b, l, h);
        if w > 0 && l < h {
            h = h - w;
        } else {
            break;
        }
    }
    (l, h)
}

fn find_colon(b: &[u8], lo: usize, hi: usize) -> (r: Option<usize>)
    requires
        lo <= hi <= b@.len(),
    ensures
        match r {
            Some(c) => colon_in(b@, lo as int, hi as int) == Some(c as int) && lo <= c < hi,
            None => colon_in(b@, lo as int, hi as int) is None,
        },
{
    let mut i = lo;
    while i < hi
        invariant
            lo <= i <= hi,
            hi <= b@.len(),
            colon_in(b@, i as int, hi as int) == colon_in(b@, lo as int, hi as int),
        decreases hi - i,
    {
        if b[i] == 0x3a {
            return Some(i);
        }
        i += 1;
    }
    None
}

fn find_newline(b: &[u8], from: usize) -> (r: Option<usize>)
    ensures
        match r {
            Some(n) => newline_from(b@, from as int) == Some(n as int) && from <= n < b.len(),
            None => newline_from(b@, from as int) is None,
        },
{
    let mut i = from;
    while i < b.len()
        invariant
            from <= i,
            newline_from(b@, i as int) == newline_from(b@, from as int),
        decreases b@.len() - i,
    {
        if b[i] == 0x0a {
            return Some(i);
        }
        i += 1;
    }
    None
}

proof fn lemma_digits_monotone(d: Seq<u8>, k: int)
    requires
        0 <= k <= d.len(),
        all_digits(d),
    ensures
        digits_value(d.take(k)) <= digits_value(d),
    decreases d.len() - k,
{
    if k < d.len() {
        lemma_digits_monotone(d, k + 1);
        assert(d.take(k + 1).drop_last() =~= d.take(k));
    } else {
        assert(d.take(k) =~= d);
    }
}

/// Reads a `u32` from `b[lo..hi]` (see `parse_u32`).
fn parse_u32_range(b: &[u8], lo: usize, hi: usize) -> (r: Option<u32>)
    requires
        lo <= hi <= b@.len(),
    ensures
        r == parse_u32(b@.subrange(lo as int, hi as int)),
{
    let ghost s = b@.subrange(lo as int, hi as int);
    assert(s.len() > 0 ==> s[0] == b@[lo as int]);
    let mut start = lo;
    if lo < hi && b[lo] == 0x2b {
        start = lo + 1;
    }
    let ghost d = unsigned_digits(s);
    assert(d =~= b@.subrange(start as int, hi as int));
    if start == hi {
        assert(d.len() == 0);
        return None;
    }
    let mut value: u64 = 0;
    let mut i = start;
    while i < hi
        invariant
            start <= i <= hi,
            hi <= b@.len(),
            d == b@.subrange(start as int, hi as int),
            s == b@.subrange(lo as int, hi as int),
            d == unsigned_digits(s),
            forall|k: int| 0 <= k < i - start ==> 0x30 <= #[trigger] d[k] <= 0x39,
            value == digits_value(d.take(i - start)),
            value <= u32::MAX,
        decreases hi - i,
    {
        let c = b[i];
        assert(d[i - start] == c);
        if c < 0x30 || c > 0x39 {
            assert(!all_digits(d));
            assert(parse_u32(s) is None);
            return None;
        }
        let ghost k = i - start + 1;
        assert(d.take(k).drop_last() =~= d.take(k - 1));
        assert(d.take(k).last() == c);
        let next = value * 10 + (c - 0x30) as u64;
        assert(next == digits_value(d.take(k)));
        if next > 0xffff_ffff {
            proof {
                if all_digits(d) {
                    lemma_digits_monotone(d, k);
                }
            }
            assert(parse_u32(s) is None);
            return None;
        }
        value = next;
        i += 1;
    }
    assert(d.take(hi - start) =~= d);
    Some(value as u32)
}

fn is_content_length_key(b: &[u8], lo: usize, hi: usize) -> (r: bool)
    requires
        lo <= hi <= b@.len(),
    ensures
        r == (b@.subrange(lo as int, hi as int) == content_length_key()),
{
    let key: [u8; 14] = [0x43, 0x6f, 0x6e, 0x74, 0x65, 0x6e, 0x74, 0x2d, 0x4c, 0x65, 0x6e, 0x67, 0x74, 0x68];
    assert(key@ =~= content_length_key());
    if hi - lo != 14 {
        return false;
    }
    let mut i: usize = 0;
    while i < 14
        invariant
            0 <= i <= 14,
            hi - lo == 14,
            hi <= b@.len(),
            key@ == content_length_key(),
            forall|k: int| 0 <= k < i ==> b@[lo + k] == key@[k],
        decreases 14 - i,
    {
        if b[lo + i] != key[i] {
            assert(b@.subrange(lo as int, hi as int)[i as int] != content_length_key()[i as int]);
            return false;
        }
        i += 1;
    }
    assert(b@.subrange(lo as int, hi as int) =~= content_length_key());
    true
}

/// Reads the header of the message at the start of `buf` (see
/// `decode_frame_spec`): where its content starts and how long it is.
pub fn decode_frame(buf: &[u8]) -> (r: Result<Option<(usize, usize)>, FrameError>)
    ensures
        r == decode_frame_spec(buf@),
{
    let mut prev: usize = 0;
    let mut len: Option<u32> = None;
    let mut end: usize = 0;
    loop
        invariant
            prev <= buf@.len(),
            scan_headers(buf@, prev as int, len) == scan_headers(buf@, 0, None),
        ensures
            end <= buf@.len(),
            scan_headers(buf@, 0, None) == (HeaderScan::Done { end: end as nat, content_length: len }),
        decreases buf@.len() - prev,
    {
        let nl = match find_newline(buf, prev) {
            None => return Ok(None),
            Some(n) => n,
        };
        let (hl, hh) = trim_range(buf, prev, nl + 1);
        if hl >= hh {
            end = nl + 1;
            break;
        }
        match find_colon(buf, hl, hh) {
            None => {},
            Some(c) => {
                let (kl, kh) = trim_range(buf, hl, c);
                if is_content_length_key(buf, kl, kh) {
                    let (vl, vh) = trim_range(buf, c + 1, hh);
                    match parse_u32_range(buf, vl, vh) {
                        None => return Err(FrameError::InvalidContentLength),
                        Some(v) => len = Some(v),
                    }
                }
            },
        }
        prev = nl + 1;
    }
    match len {
        None => Ok(None),
        Some(n) => {
            if buf.len() - end < n as usize {
                Ok(None)
            } else {
                Ok(Some((end, n as usize)))
            }
        },
    }
}

/// The message carrying `content` (see `frame`).
pub fn encode_frame(content: &[u8]) -> (r: Vec<u8>)
    ensures
        r@ == frame(content@),
{
    let prefix: [u8; 16] = [0x43, 0x6f, 0x6e, 0x74, 0x65, 0x6e, 0x74, 0x2d, 0x4c, 0x65, 0x6e, 0x67, 0x74, 0x68, 0x3a, 0x20];
    let mut out: Vec<u8> = Vec::new();
    let mut i: usize = 0;
    while i < 16
        invariant
            0 <= i <= 16,
            out@ == prefix@.take(i as int),
        decreases 16 - i,
    {
        out.push(prefix[i]);
        i += 1;
        assert(out@ =~= prefix@.take(i as int));
    }
    assert(prefix@.take(16) =~= header_prefix());
    push_decimal(&mut out, content.len());
    out.push(0x0d);
    out.push(0x0a);
    out.push(0x0d);
    out.push(0x0a);
    let ghost before = out@;
    let mut j: usize = 0;
    while j < content.len()
        invariant
            0 <= j <= content@.len(),
            out@ == before + content@.take(j as int),
        decreases content@.len() - j,
    {
        out.push(content[j]);
        j += 1;
        assert(out@ =~= before + content@.take(j as int));
    }
    assert(content@.take(content@.len() as int) =~= content@);
    assert(out@ =~= frame(content@));
    out
}

// ---------------------------------------------------------------------------
// Reading back what was written
// ---------------------------------------------------------------------------

proof fn lemma_decimal(n: nat)
    ensures
        decimal(n).len() >= 1,
        all_digits(decimal(n)),
        digits_value(decimal(n)) == n,
    decreases n,
{
    if n >= 10 {
        lemma_decimal(n / 10);
        let d = decimal(n);
        assert(d.drop_last() =~= decimal(n / 10));
        assert(d.last() == (0x30 + n % 10) as u8);
        assert(n == (n / 10) * 10 + n % 10) by (nonlinear_arith);
        assert forall|i: int| 0 <= i < d.len() implies 0x30 <= #[trigger] d[i] <= 0x39 by {
            if i < d.len() - 1 {
                assert(d[i] == decimal(n / 10)[i]);
            }
        }
        assert(digits_value(d) == digits_value(decimal(n / 10)) * 10 + n % 10);
    } else {
        let d = decimal(n);
        assert(d.drop_last() =~= Seq::<u8>::empty());
        assert(digits_value(d) == digits_value(d.drop_last()) * 10 + n);
    }
}

proof fn lemma_newline_at(b: Seq<u8>, i: int, n: int)
    requires
        0 <= i <= n < b.len(),
        b[n] == 0x0a,
        forall|k: int| i <= k < n ==> b[k] != 0x0a,
    ensures
        newline_from(b, i) == Some(n),
    decreases n - i,
{
    if i < n {
        lemma_newline_at(b, i + 1, n);
    }
}

/// A message written with `encode_frame` is read back by `decode_frame`,
/// whatever follows it: its content starts after the header and has the
/// length written.
pub proof fn lemma_frame_roundtrip(content: Seq<u8>, rest: Seq<u8>)
    requires
        content.len() <= u32::MAX,
    ensures
        ({
            let b = frame(content) + rest;
            let start = header_prefix().len() + decimal(content.len()).len() + 4;
            &&& decode_frame_spec(b) == Ok::<Option<(usize, usize)>, FrameError>(Some((start as usize, content.len() as usize)))
            &&& b.subrange(start as int, (start + content.len()) as int) == content
        }),
{
    let n = content.len();
    let d = decimal(n);
    lemma_decimal(n);
    let dl = d.len() as int;
    let p = header_prefix();
    let b = frame(content) + rest;
    assert(p.len() == 16);
    assert(b.len() == 20 + dl + n + rest.len());
    assert forall|k: int| 0 <= k < 16 implies b[k] == p[k] by {}
    assert forall|k: int| 16 <= k < 16 + dl implies b[k] == d[k - 16] by {}
    assert(b[16 + dl] == 0x0d);
    assert(b[17 + dl] == 0x0a);
    assert(b[18 + dl] == 0x0d);
    assert(b[19 + dl] == 0x0a);
    assert forall|k: int| 0 <= k < n implies b[20 + dl + k] == content[k] by {}
    // First line: `Content-Length: <n>\r\n`.
    assert forall|k: int| 0 <= k < 17 + dl implies b[k] != 0x0a by {
        if 16 <= k < 16 + dl {
            assert(0x30 <= d[k - 16] <= 0x39);
        }
    }
    lemma_newline_at(b, 0, 17 + dl);
    assert(ws_at(b, 0, 18 + dl) == 0);
    assert(trim_lo(b, 0, 18 + dl) == 0);
    assert(ws_before(b, 0, 18 + dl) == 1);
    assert(ws_before(b, 0, 17 + dl) == 1);
    assert(0x30 <= b[15 + dl] <= 0x39);
    assert(ws_before(b, 0, 16 + dl) == 0);
    assert(trim_hi(b, 0, 16 + dl) == 16 + dl);
    assert(trim_hi(b, 0, 17 + dl) == 16 + dl);
    assert(trim_hi(b, 0, 18 + dl) == 16 + dl);
    assert forall|k: int| 0 <= k < 14 implies b[k] != 0x3a by {}
    assert(colon_in(b, 14, 16 + dl) == Some(14int));
    lemma_colon_back(b, 14, 16 + dl, 14);
    assert(colon_in(b, 0, 16 + dl) == Some(14int));
    assert(trim_lo(b, 0, 14) == 0);
    assert(ws_before(b, 0, 14) == 0);
    assert(trim_hi(b, 0, 14) == 14);
    assert(b.subrange(0, 14) =~= content_length_key());
    assert(ws_at(b, 15, 16 + dl) == 1);
    assert(ws_at(b, 16, 16 + dl) == 0);
    assert(trim_lo(b, 16, 16 + dl) == 16);
    assert(trim_lo(b, 15, 16 + dl) == 16);
    assert(0x30 <= b[15 + dl] <= 0x39);
    assert(ws_before(b, 16, 16 + dl) == 0) by {
        if dl >= 2 {
            assert(0x30 <= b[14 + dl] <= 0x39);
        }
        if dl >= 3 {
            assert(0x30 <= b[13 + dl] <= 0x39);
        }
    }
    assert(trim_hi(b, 16, 16 + dl) == 16 + dl);
    assert(b.subrange(16, 16 + dl) =~= d);
    assert(unsigned_digits(d) == d) by {
        assert(0x30 <= d[0] <= 0x39);
    }
    assert(parse_u32(d) == Some(n as u32));
    // Second line: `\r\n`, the end of the header.
    lemma_newline_at(b, 18 + dl, 19 + dl);
    assert(ws_at(b, 18 + dl, 20 + dl) == 1);
    assert(ws_at(b, 19 + dl, 20 + dl) == 1);
    assert(trim_lo(b, 20 + dl, 20 + dl) == 20 + dl);
    assert(trim_lo(b, 19 + dl, 20 + dl) == 20 + dl);
    assert(trim_lo(b, 18 + dl, 20 + dl) == 20 + dl);
    assert(trim_hi(b, 20 + dl, 20 + dl) == 20 + dl);
    assert(scan_headers(b, 18 + dl, Some(n as u32)) == (HeaderScan::Done { end: (20 + dl) as nat, content_length: Some(n as u32) }));
    assert(scan_headers(b, 0, None) == (HeaderScan::Done { end: (20 + dl) as nat, content_length: Some(n as u32) }));
    assert(b.subrange(20 + dl, 20 + dl + n) =~= content);
}

proof fn lemma_colon_back(b: Seq<u8>, c: int, hi: int, k: int)
    requires
        0 <= k <= c < hi <= b.len(),
        b[c] == 0x3a,
        forall|j: int| c - k <= j < c ==> b[j] != 0x3a,
    ensures
        colon_in(b, c - k, hi) == Some(c),
    decreases k,
{
    if k > 0 {
        lemma_colon_back(b, c, hi, k - 1);
    }
}

} // verus!
