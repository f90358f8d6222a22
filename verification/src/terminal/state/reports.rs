//! What the terminal sends to the program for keys, mouse events, focus
//! changes and pastes, given the modes the program has set.
use vstd::prelude::*;
use vstd::utf8::{encode_scalar, is_scalar};

use crate::input::{Action, Direction, Edit, Mode, Move};
use crate::terminal::state::TerminalState;

verus! {

/// C0 control characters (ANSI X3.4-1977).
pub const NUL: u8 = 0x00;
pub const BEL: u8 = 0x07;
/// Backspace.
pub const BS: u8 = 0x08;
/// Horizontal tabulation.
pub const HT: u8 = 0x09;
/// Line feed.
pub const LF: u8 = 0x0A;
/// Vertical tabulation.
pub const VT: u8 = 0x0B;
/// Form feed.
pub const FF: u8 = 0x0C;
/// Carriage return.
pub const CR: u8 = 0x0D;
/// Shift out: switch to the G1 character set.
pub const SO: u8 = 0x0E;
/// Shift in: switch to the G0 character set.
pub const SI: u8 = 0x0F;
/// Escape: starts an escape sequence.
pub const ESC: u8 = 0x1B;
/// Delete.
pub const DEL: u8 = 0x7F;

/// Appends the UTF-8 encoding of `codepoint` to `buf` when it is a Unicode
/// scalar value; appends nothing otherwise.
pub fn push_utf8_coord(buf: &mut Vec<u8>, codepoint: u32)
    ensures
        final(buf)@ == old(buf)@ + if is_scalar(codepoint) { encode_scalar(codepoint) } else { Seq::empty() },
{
    let v = codepoint;
    if v <= 0x7F {
        buf.push((v & 0x7F) as u8);
    } else if v <= 0x7FF {
        buf.push(0xC0 | ((v >> 6) & 0x1F) as u8);
        buf.push(0x80 | (v & 0x3F) as u8);
    } else if v <= 0xFFFF && !(0xD800 <= v && v <= 0xDFFF) {
        buf.push(0xE0 | ((v >> 12) & 0x0F) as u8);
        buf.push(0x80 | ((v >> 6) & 0x3F) as u8);
        buf.push(0x80 | (v & 0x3F) as u8);
    } else if 0x10000 <= v && v <= 0x10FFFF {
        buf.push(0xF0 | ((v >> 18) & 0x7) as u8);
        buf.push(0x80 | ((v >> 12) & 0x3F) as u8);
        buf.push(0x80 | ((v >> 6) & 0x3F) as u8);
        buf.push(0x80 | (v & 0x3F) as u8);
    }
    assert(final(buf)@ =~= old(buf)@ + if is_scalar(codepoint) { encode_scalar(codepoint) } else { Seq::empty() });
}

/// The mouse report for `button_code` at `col`, `row` (0-based): `ESC [ M`
/// then button, column and row, each plus 32 (the coordinates also plus 1).
/// In UTF-8 mode each value is a UTF-8 encoded code point; otherwise each is
/// one byte, and coordinates of 224 or more are not reported at all.
pub open spec fn mouse_report_bytes(utf8: bool, col: usize, row: usize, code: u8) -> Seq<u8> {
    if utf8 {
        let b = (32 + code) as u32;
        let c = (32 + (col as u32) + 1) as u32;
        let r = (32 + (row as u32) + 1) as u32;
        seq![0x1bu8, 0x5b, 0x4d]
            + (if is_scalar(b) { encode_scalar(b) } else { Seq::empty() })
            + (if is_scalar(c) { encode_scalar(c) } else { Seq::empty() })
            + (if is_scalar(r) { encode_scalar(r) } else { Seq::empty() })
    } else if col >= 224 || row >= 224 {
        Seq::empty()
    } else {
        seq![0x1bu8, 0x5b, 0x4d, (32 + code) as u8, (32 + col + 1) as u8, (32 + row + 1) as u8]
    }
}

/// When a mouse report can be made: the sums above fit their types.
pub open spec fn mouse_report_ok(utf8: bool, col: usize, row: usize, code: u8) -> bool {
    if utf8 {
        (col as u32) + 33 <= u32::MAX && (row as u32) + 33 <= u32::MAX
    } else {
        col >= 224 || row >= 224 || code <= 223
    }
}

/// The final byte of the cursor key sequence for `direction`.
pub open spec fn arrow_byte(direction: Direction) -> u8 {
    match direction {
        Direction::Up => 0x41,
        Direction::Down => 0x42,
        Direction::Right => 0x43,
        Direction::Left => 0x44,
    }
}

/// `s` with every `\r\n` replaced by `\r` (left to right).
pub open spec fn crlf_to_cr(s: Seq<char>) -> Seq<char>
    decreases s.len(),
{
    if s.len() == 0 {
        Seq::empty()
    } else if s.len() >= 2 && s[0] == '\r' && s[1] == '\n' {
        seq!['\r'] + crlf_to_cr(s.skip(2))
    } else {
        seq![s[0]] + crlf_to_cr(s.skip(1))
    }
}

/// `s` with every `\n` replaced by `\r`.
pub open spec fn lf_to_cr(s: Seq<char>) -> Seq<char> {
    Seq::new(s.len(), |i: int| if s[i] == '\n' { '\r' } else { s[i] })
}

/// `s` without ESC and ETX characters.
pub open spec fn without_esc_etx(s: Seq<char>) -> Seq<char>
    decreases s.len(),
{
    if s.len() == 0 {
        Seq::empty()
    } else if s.last() == '\x1b' || s.last() == '\x03' {
        without_esc_etx(s.drop_last())
    } else {
        without_esc_etx(s.drop_last()).push(s.last())
    }
}

/// What is sent for pasted text: between `ESC [200~` and `ESC [201~`
/// without ESC and ETX in bracketed paste mode; otherwise with line breaks
/// (`\r\n` and `\n`) turned into `\r`.
pub open spec fn paste_text(bracketed: bool, s: Seq<char>) -> Seq<char> {
    if bracketed {
        seq!['\x1b', '[', '2', '0', '0', '~'] + without_esc_etx(s) + seq!['\x1b', '[', '2', '0', '1', '~']
    } else {
        lf_to_cr(crlf_to_cr(s))
    }
}

proof fn lemma_without_esc_etx(s: Seq<char>)
    ensures
        forall|i: int|
            0 <= i < without_esc_etx(s).len() ==> #[trigger] without_esc_etx(s)[i] != '\x1b'
                && without_esc_etx(s)[i] != '\x03',
    decreases s.len(),
{
    if s.len() > 0 {
        lemma_without_esc_etx(s.drop_last());
        let r = without_esc_etx(s.drop_last());
        assert forall|i: int| 0 <= i < without_esc_etx(s).len() implies #[trigger] without_esc_etx(s)[i]
            != '\x1b' && without_esc_etx(s)[i] != '\x03' by {
            if i < r.len() {
                assert(without_esc_etx(s)[i] == r[i]);
            }
        }
    }
}

/// Pasted text cannot end bracketed paste early: between the opening
/// `ESC [200~` and the closing `ESC [201~` there is no ESC, nor the ETX some
/// shells take as the end of a paste.
pub proof fn lemma_bracketed_paste_closed_once(s: Seq<char>)
    ensures
        ({
            let t = paste_text(true, s);
            &&& t.len() >= 12
            &&& t.take(6) == seq!['\x1b', '[', '2', '0', '0', '~']
            &&& t.skip(t.len() - 6) == seq!['\x1b', '[', '2', '0', '1', '~']
            &&& forall|i: int| 6 <= i < t.len() - 6 ==> #[trigger] t[i] != '\x1b' && t[i] != '\x03'
        }),
{
    lemma_without_esc_etx(s);
    let open = seq!['\x1b', '[', '2', '0', '0', '~'];
    let close = seq!['\x1b', '[', '2', '0', '1', '~'];
    let mid = without_esc_etx(s);
    let t = paste_text(true, s);
    assert(t == open + mid + close);
    assert(t.take(6) =~= open);
    assert(t.skip(t.len() - 6) =~= close);
    assert forall|i: int| 6 <= i < t.len() - 6 implies #[trigger] t[i] != '\x1b' && t[i] != '\x03' by {
        assert(t[i] == mid[i - 6]);
    }
}

proof fn lemma_crlf_step(s: Seq<char>, i: int)
    requires
        0 <= i < s.len(),
    ensures
        i + 1 < s.len() && s[i] == '\r' && s[i + 1] == '\n' ==> crlf_to_cr(s.skip(i)) == seq!['\r'] + crlf_to_cr(s.skip(i + 2)),
        !(i + 1 < s.len() && s[i] == '\r' && s[i + 1] == '\n') ==> crlf_to_cr(s.skip(i)) == seq![s[i]] + crlf_to_cr(s.skip(i + 1)),
{
    let t = s.skip(i);
    if i + 2 <= s.len() {
        assert(t.skip(2) =~= s.skip(i + 2));
    }
    assert(t.skip(1) =~= s.skip(i + 1));
}

/// `s` with every `\r\n` replaced by `\r`.
fn replace_crlf(s: &Vec<char>) -> (r: Vec<char>)
    ensures
        r@ == crlf_to_cr(s@),
{
    let mut out: Vec<char> = Vec::new();
    let mut i: usize = 0;
    let n = s.len();
    assert(s@.skip(0) =~= s@);
    while i < n
        invariant
            n == s@.len(),
            0 <= i <= n,
            crlf_to_cr(s@) == out@ + crlf_to_cr(s@.skip(i as int)),
        decreases n - i,
    {
        proof { lemma_crlf_step(s@, i as int); }
        if i + 1 < n && s[i] == '\r' && s[i + 1] == '\n' {
            out.push('\r');
            i += 2;
        } else {
            out.push(s[i]);
            i += 1;
        }
    }
    assert(s@.skip(n as int) =~= Seq::<char>::empty());
    assert(out@ + Seq::<char>::empty() =~= out@);
    out
}

/// `s` with every `\n` replaced by `\r`.
fn replace_lf(s: &Vec<char>) -> (r: Vec<char>)
    ensures
        r@ == lf_to_cr(s@),
{
    let mut out: Vec<char> = Vec::new();
    let mut i: usize = 0;
    while i < s.len()
        invariant
            0 <= i <= s@.len(),
            out@ == lf_to_cr(s@).take(i as int),
        decreases s@.len() - i,
    {
        out.push(if s[i] == '\n' { '\r' } else { s[i] });
        i += 1;
        assert(out@ =~= lf_to_cr(s@).take(i as int));
    }
    assert(lf_to_cr(s@).take(s@.len() as int) =~= lf_to_cr(s@));
    out
}

/// `s` without ESC and ETX.
fn strip_esc_etx(s: &Vec<char>) -> (r: Vec<char>)
    ensures
        r@ == without_esc_etx(s@),
{
    let mut out: Vec<char> = Vec::new();
    let mut i: usize = 0;
    while i < s.len()
        invariant
            0 <= i <= s@.len(),
            out@ == without_esc_etx(s@.take(i as int)),
        decreases s@.len() - i,
    {
        assert(s@.take(i + 1).drop_last() =~= s@.take(i as int));
        if s[i] != '\x1b' && s[i] != '\x03' {
            out.push(s[i]);
        }
        i += 1;
    }
    assert(s@.take(s@.len() as int) =~= s@);
    out
}

fn push_chars(v: &mut Vec<char>, cs: &[char])
    ensures
        final(v)@ == old(v)@ + cs@,
{
    let mut i: usize = 0;
    while i < cs.len()
        invariant
            0 <= i <= cs@.len(),
            v@ == old(v)@ + cs@.take(i as int),
        decreases cs@.len() - i,
    {
        v.push(cs[i]);
        i += 1;
        assert(v@ =~= old(v)@ + cs@.take(i as int));
    }
    assert(cs@.take(cs@.len() as int) =~= cs@);
}

/// The bytes an editor action types into the terminal: cursor keys for
/// moves, the character for an insertion, BS for backspace, DEL for a
/// deletion, the control code for Ctrl and a letter, ESC for a return to
/// normal mode; nothing for anything else.
pub open spec fn action_bytes(cursor_keys: bool, action: Action) -> Seq<u8> {
    match action {
        Action::Move { m: Move::Single(d), .. } => seq![0x1bu8, if cursor_keys { 0x4fu8 } else { 0x5bu8 }, arrow_byte(d)],
        Action::Edit { e: Edit::Insert(c), .. } => encode_scalar(c as u32),
        Action::Edit { e: Edit::Backspace, .. } => seq![BS],
        Action::Edit { e: Edit::Delete(_), .. } => seq![DEL],
        Action::Control { char: c } => if 'a' <= c && c <= 'z' {
            seq![((c as u32) - 0x60) as u8]
        } else {
            Seq::empty()
        },
        Action::SetMode { mode: Mode::Normal, .. } => seq![ESC],
        _ => Seq::empty(),
    }
}

impl TerminalState {
    /// The bytes `action` types into the terminal (see `action_bytes`).
    pub fn action_input(&self, action: Action) -> (bytes: Vec<u8>)
        ensures
            bytes@ == action_bytes(self@.cursor_keys, action),
    {
        match action {
            Action::Move { m: Move::Single(d), .. } => self.arrow_input(d),
            Action::Edit { e: Edit::Insert(c), .. } => {
                let mut bytes: Vec<u8> = Vec::new();
                push_utf8_coord(&mut bytes, c as u32);
                assert(bytes@ =~= encode_scalar(c as u32));
                bytes
            },
            Action::Edit { e: Edit::Backspace, .. } => vec![BS],
            Action::Edit { e: Edit::Delete(_), .. } => vec![DEL],
            Action::Control { char: c } => {
                if 'a' <= c && c <= 'z' {
                    vec![((c as u32) - 0x60) as u8]
                } else {
                    Vec::new()
                }
            },
            Action::SetMode { mode: Mode::Normal, .. } => vec![ESC],
            _ => Vec::new(),
        }
    }

    /// The bytes sent for a cursor key: `ESC O <x>` in cursor key mode,
    /// `ESC [ <x>` otherwise, `<x>` being A, B, C, D for up, down, right, left.
    pub fn arrow_input(&self, direction: Direction) -> (bytes: Vec<u8>)
        ensures
            bytes@ == seq![0x1bu8, if self@.cursor_keys { 0x4fu8 } else { 0x5bu8 }, arrow_byte(direction)],
    {
        let mut bytes: Vec<u8> = Vec::new();
        bytes.push(0x1b);
        bytes.push(if self.cursor_keys { 0x4f } else { 0x5b });
        bytes.push(match direction {
            Direction::Up => 0x41,
            Direction::Down => 0x42,
            Direction::Right => 0x43,
            Direction::Left => 0x44,
        });
        assert(bytes@ =~= seq![0x1bu8, if self@.cursor_keys { 0x4fu8 } else { 0x5bu8 }, arrow_byte(direction)]);
        bytes
    }

    /// The mouse report for `button_code` at `col`, `row`, in the encoding
    /// the program chose (see `mouse_report_bytes`).
    pub fn mouse_report(&self, col: usize, row: usize, button_code: u8) -> (bytes: Vec<u8>)
        requires
            mouse_report_ok(self@.mouse_utf8, col, row, button_code),
        ensures
            bytes@ == mouse_report_bytes(self@.mouse_utf8, col, row, button_code),
    {
        let mut buf: Vec<u8> = Vec::new();
        if self.mouse_utf8 {
            buf.push(0x1b);
            buf.push(0x5b);
            buf.push(0x4d);
            push_utf8_coord(&mut buf, 32 + button_code as u32);
            push_utf8_coord(&mut buf, 32 + col as u32 + 1);
            push_utf8_coord(&mut buf, 32 + row as u32 + 1);
        } else {
            if col >= 224 || row >= 224 {
                return buf;
            }
            buf.push(0x1b);
            buf.push(0x5b);
            buf.push(0x4d);
            buf.push(32 + button_code);
            buf.push((32 + col + 1) as u8);
            buf.push((32 + row + 1) as u8);
        }
        assert(buf@ =~= mouse_report_bytes(self@.mouse_utf8, col, row, button_code));
        buf
    }

    /// What is sent for a button press or release (`button`: 0 left, 1
    /// middle, 2 right; a release reports 3): nothing unless mouse
    /// reporting (mode 1000) is on.
    pub fn mouse_button_input(&self, col: usize, row: usize, button: u8, pressed: bool) -> (bytes: Vec<u8>)
        requires
            self@.report_mouse ==> mouse_report_ok(self@.mouse_utf8, col, row, if pressed { button } else { 3u8 }),
        ensures
            bytes@ == if self@.report_mouse {
                mouse_report_bytes(self@.mouse_utf8, col, row, if pressed { button } else { 3u8 })
            } else {
                Seq::empty()
            },
    {
        if self.report_mouse {
            let code = if pressed { button } else { 3 };
            self.mouse_report(col, row, code)
        } else {
            Vec::new()
        }
    }

    /// What is sent for a scroll-wheel event (64 up, 65 down): nothing
    /// unless mouse reporting is on.
    pub fn mouse_scroll_input(&self, col: usize, row: usize, up: bool) -> (bytes: Vec<u8>)
        requires
            self@.report_mouse ==> mouse_report_ok(self@.mouse_utf8, col, row, if up { 64u8 } else { 65u8 }),
        ensures
            bytes@ == if self@.report_mouse {
                mouse_report_bytes(self@.mouse_utf8, col, row, if up { 64u8 } else { 65u8 })
            } else {
                Seq::empty()
            },
    {
        if self.report_mouse {
            let code = if up { 64 } else { 65 };
            self.mouse_report(col, row, code)
        } else {
            Vec::new()
        }
    }

    /// What is sent for mouse motion: reported in all-motion mode, or in
    /// button-motion mode while a button is held; the code is the held
    /// button with the motion bit (32), or 35 with no button held.
    pub fn mouse_move_input(&self, col: usize, row: usize, held: Option<u8>) -> (bytes: Vec<u8>)
        requires
            (self@.mouse_all_motion || (self@.mouse_motion && held is Some)) ==> mouse_report_ok(
                self@.mouse_utf8,
                col,
                row,
                match held { Some(b) => b | 32, None => 35u8 },
            ),
        ensures
            bytes@ == if self@.mouse_all_motion || (self@.mouse_motion && held is Some) {
                mouse_report_bytes(self@.mouse_utf8, col, row, match held { Some(b) => b | 32, None => 35u8 })
            } else {
                Seq::empty()
            },
    {
        let report = if self.mouse_all_motion {
            true
        } else if self.mouse_motion {
            held.is_some()
        } else {
            false
        };
        if report {
            let code = match held {
                Some(b) => b | 32,
                None => 35,
            };
            self.mouse_report(col, row, code)
        } else {
            Vec::new()
        }
    }

    /// What is sent when the terminal gains (`ESC [ I`) or loses (`ESC [ O`)
    /// focus: nothing unless focus reporting is on.
    pub fn focus_input(&self, focus: bool) -> (bytes: Vec<u8>)
        ensures
            bytes@ == if self@.report_focus {
                seq![0x1bu8, 0x5b, if focus { 0x49u8 } else { 0x4fu8 }]
            } else {
                Seq::empty()
            },
    {
        let mut bytes: Vec<u8> = Vec::new();
        if self.report_focus {
            bytes.push(0x1b);
            bytes.push(0x5b);
            bytes.push(if focus { 0x49 } else { 0x4f });
            assert(bytes@ =~= seq![0x1bu8, 0x5b, if focus { 0x49u8 } else { 0x4fu8 }]);
        }
        bytes
    }

    /// The text sent for a paste of `s` (see `paste_text`).
    pub fn paste_input(&self, s: &str) -> (text: String)
        ensures
            text@ == paste_text(self@.bracketed_paste, s@),
    {
        let chars = crate::text::chars_of(s);
        let mut out: Vec<char>;
        if self.bracketed_paste {
            out = Vec::new();
            let start: [char; 6] = ['\x1b', '[', '2', '0', '0', '~'];
            push_chars(&mut out, &start);
            let body = strip_esc_etx(&chars);
            push_chars(&mut out, body.as_slice());
            let end: [char; 6] = ['\x1b', '[', '2', '0', '1', '~'];
            push_chars(&mut out, &end);
            assert(start@ =~= seq!['\x1b', '[', '2', '0', '0', '~']);
            assert(end@ =~= seq!['\x1b', '[', '2', '0', '1', '~']);
        } else {
            let once = replace_crlf(&chars);
            out = replace_lf(&once);
        }
        crate::text::string_from_chars(&out)
    }
}

/// The final byte that names `direction` in a cursor key sequence, by the
/// VT100 table: `A` (0x41) up, `B` (0x42) down, `C` (0x43) right, `D` (0x44) left.
pub open spec fn vt_cursor_final(direction: Direction) -> u8 {
    if direction == Direction::Up {
        0x41
    } else if direction == Direction::Down {
        0x42
    } else if direction == Direction::Right {
        0x43
    } else {
        0x44
    }
}

/// A cursor key sends three bytes: ESC, then `[` (`O` in cursor key mode),
/// then `A`, `B`, `C` or `D` for up, down, right or left. Moving by one in
/// a direction, as an editor action, sends that key whatever its count, so
/// the four directions send four different sequences.
pub proof fn lemma_cursor_key_sequences(cursor_keys: bool, count: Option<u32>, d: Direction, e: Direction)
    ensures
        ({
            let s = action_bytes(cursor_keys, Action::Move { count, m: Move::Single(d) });
            &&& s.len() == 3
            &&& s[0] == 0x1b
            &&& s[1] == (if cursor_keys { 0x4fu8 } else { 0x5bu8 })
            &&& s[2] == vt_cursor_final(d)
            &&& seq![0x1bu8, if cursor_keys { 0x4fu8 } else { 0x5bu8 }, arrow_byte(d)] == s
            &&& d != e ==> s != action_bytes(cursor_keys, Action::Move { count, m: Move::Single(e) })
        }),
{
    let t = action_bytes(cursor_keys, Action::Move { count, m: Move::Single(e) });
    if d != e {
        assert(t[2] == vt_cursor_final(e));
        lemma_cursor_finals_differ(d, e);
    }
}

proof fn lemma_cursor_finals_differ(d: Direction, e: Direction)
    requires
        d != e,
    ensures
        vt_cursor_final(d) != vt_cursor_final(e),
{
}

} // verus!
