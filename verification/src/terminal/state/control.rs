//! What the terminal does with what the program prints: characters, C0
//! controls, and ESC, CSI and OSC sequences.
use vstd::prelude::*;

use crate::terminal::grid::{blank_range, Cell};
use crate::text::{decimal, push_decimal};
use crate::terminal::state::{
    alt_screen_effect, at_most, blank_grid, blank_lines, clamp_to, grid_scrolled_down_n,
    grid_scrolled_up_n, identify_reply, linefeed_effect, linefeed_ok, minus_or_zero, mode_effect,
    private_mode_effect, put_cell, reverse_index_effect, reverse_index_ok, scroll_down_ok,
    scroll_up_ok, sent, set_charset_effect, shaped, shift_line, view_wf, with_col, with_pos,
    with_row, TermView, TerminalState,
};
use crate::terminal::style::{
    default_style, BuiltinColor, Charset, Cursor, Position, Style, StyleFlags, TerminalColor,
};

verus! {

// ---------------------------------------------------------------------------
// Parameters
// ---------------------------------------------------------------------------

/// The parameters of a CSI sequence, as plain values.
pub open spec fn pvals(params: Seq<Vec<u16>>) -> Seq<Seq<u16>> {
    Seq::new(params.len(), |i: int| params[i]@)
}

/// Every parameter has at least one value (as the parser guarantees).
pub open spec fn params_ok(ps: Seq<Seq<u16>>) -> bool {
    forall|i: int| 0 <= i < ps.len() ==> #[trigger] ps[i].len() > 0
}

/// Parameter `k` when it is given and not 0, `default` otherwise.
pub open spec fn param_or(ps: Seq<Seq<u16>>, k: int, default: u16) -> u16 {
    if 0 <= k < ps.len() && ps[k].len() > 0 && ps[k][0] != 0 {
        ps[k][0]
    } else {
        default
    }
}

fn next_param_or(params: &[Vec<u16>], k: usize, default: u16) -> (p: u16)
    ensures
        p == param_or(pvals(params@), k as int, default),
{
    if k < params.len() && params[k].len() > 0 && params[k][0] != 0 {
        params[k][0]
    } else {
        default
    }
}

// ---------------------------------------------------------------------------
// Colours and graphic rendition
// ---------------------------------------------------------------------------

/// The colour that `vals` describe after `38` or `48`, and how many values
/// that reading takes: `2;r;g;b` is an RGB colour; `5;n` (indexed) and
/// anything else give none.
pub open spec fn color_parse(vals: Seq<u16>) -> (Option<TerminalColor>, nat) {
    if vals.len() == 0 {
        (None, 0)
    } else if vals[0] == 2 {
        if vals.len() >= 4 {
            (Some(TerminalColor::Rgb { r: vals[1] as u8, g: vals[2] as u8, b: vals[3] as u8 }), 4)
        } else {
            (None, vals.len())
        }
    } else {
        (None, 1)
    }
}

/// Reads a colour from `vals` (see `color_parse`).
pub fn parse_color(vals: &[u16]) -> (r: (Option<TerminalColor>, usize))
    ensures
        r.0 == color_parse(vals@).0,
        r.1 == color_parse(vals@).1,
{
    if vals.len() == 0 {
        (None, 0)
    } else if vals[0] == 2 {
        if vals.len() >= 4 {
            (Some(TerminalColor::Rgb { r: vals[1] as u8, g: vals[2] as u8, b: vals[3] as u8 }), 4)
        } else {
            (None, vals.len())
        }
    } else {
        (None, 1)
    }
}

/// The builtin colour numbered `n` (0 black ... 7 white).
pub open spec fn builtin_color(n: u16) -> BuiltinColor {
    if n == 0 { BuiltinColor::Black }
    else if n == 1 { BuiltinColor::Red }
    else if n == 2 { BuiltinColor::Green }
    else if n == 3 { BuiltinColor::Yellow }
    else if n == 4 { BuiltinColor::Blue }
    else if n == 5 { BuiltinColor::Magenta }
    else if n == 6 { BuiltinColor::Cyan }
    else { BuiltinColor::White }
}

fn builtin(n: u16) -> (c: BuiltinColor)
    ensures
        c == builtin_color(n),
{
    match n {
        0 => BuiltinColor::Black,
        1 => BuiltinColor::Red,
        2 => BuiltinColor::Green,
        3 => BuiltinColor::Yellow,
        4 => BuiltinColor::Blue,
        5 => BuiltinColor::Magenta,
        6 => BuiltinColor::Cyan,
        _ => BuiltinColor::White,
    }
}

/// `style` with the attribute bits `bits` added (`value`) or removed.
pub open spec fn with_flag(style: Style, bits: u8, value: bool) -> Style {
    Style {
        flags: StyleFlags { bits: if value { style.flags.bits | bits } else { style.flags.bits & !bits } },
        ..style
    }
}

/// The attribute bits that SGR `n` sets (1-9) or clears (22-29).
pub open spec fn sgr_flag_bits(n: u16) -> u8 {
    if n == 1 { 1 }
    else if n == 2 { 2 }
    else if n == 3 { 4 }
    else if n == 4 { 8 }
    else if n == 5 { 16 }
    else if n == 7 { 32 }
    else if n == 8 { 64 }
    else if n == 9 { 128 }
    else if n == 22 { 3 }
    else if n == 23 { 4 }
    else if n == 24 { 8 }
    else if n == 25 { 16 }
    else if n == 27 { 32 }
    else if n == 28 { 64 }
    else if n == 29 { 128 }
    else { 0 }
}

/// Whether SGR `n` sets or clears attribute bits.
pub open spec fn is_sgr_flag(n: u16) -> bool {
    (1 <= n <= 5) || (7 <= n <= 9) || (n == 22) || (23 <= n <= 25) || (27 <= n <= 29)
}

/// What one SGR parameter does to `style`, when it is not a lone `38` or `48`
/// (which read their colour from the following parameters).
pub open spec fn sgr_one(style: Style, a: Seq<u16>) -> Style {
    if a.len() == 1 {
        let n = a[0];
        if n == 0 {
            default_style()
        } else if is_sgr_flag(n) {
            with_flag(style, sgr_flag_bits(n), n < 10)
        } else if 30 <= n <= 37 {
            Style { foreground: Some(TerminalColor::Builtin { color: builtin_color((n - 30) as u16), bright: false }), ..style }
        } else if n == 39 {
            Style { foreground: None, ..style }
        } else if 40 <= n <= 47 {
            Style { background: Some(TerminalColor::Builtin { color: builtin_color((n - 40) as u16), bright: false }), ..style }
        } else if n == 49 {
            Style { background: None, ..style }
        } else if 90 <= n <= 97 {
            Style { foreground: Some(TerminalColor::Builtin { color: builtin_color((n - 90) as u16), bright: true }), ..style }
        } else if 100 <= n <= 107 {
            Style { background: Some(TerminalColor::Builtin { color: builtin_color((n - 100) as u16), bright: true }), ..style }
        } else {
            style
        }
    } else if a.len() >= 2 && a[0] == 38 {
        match color_parse(a.skip(1)).0 {
            Some(c) => Style { foreground: Some(c), ..style },
            None => style,
        }
    } else if a.len() >= 2 && a[0] == 48 {
        match color_parse(a.skip(1)).0 {
            Some(c) => Style { background: Some(c), ..style },
            None => style,
        }
    } else {
        style
    }
}

/// The first value of each parameter from `j` on.
pub open spec fn firsts(ps: Seq<Seq<u16>>, j: int) -> Seq<u16> {
    Seq::new((ps.len() - j) as nat, |i: int| ps[j + i][0])
}

/// What the SGR parameters from `k` on do to `style`. A lone `38` (`48`)
/// takes its colour from the first values of the parameters after it.
pub open spec fn sgr(style: Style, ps: Seq<Seq<u16>>, k: int) -> Style
    decreases ps.len() - k,
{
    if k < 0 || k >= ps.len() {
        style
    } else if ps[k] =~= seq![38u16] {
        let (c, n) = color_parse(firsts(ps, k + 1));
        let s = match c {
            Some(c) => Style { foreground: Some(c), ..style },
            None => style,
        };
        sgr(s, ps, k + 1 + n)
    } else if ps[k] =~= seq![48u16] {
        let (c, n) = color_parse(firsts(ps, k + 1));
        let s = match c {
            Some(c) => Style { background: Some(c), ..style },
            None => style,
        };
        sgr(s, ps, k + 1 + n)
    } else {
        sgr(sgr_one(style, ps[k]), ps, k + 1)
    }
}

/// The bits of `flags`.
fn flag_bits(n: u16) -> (b: u8)
    ensures
        b == sgr_flag_bits(n),
{
    match n {
        1 => 1,
        2 => 2,
        3 => 4,
        4 => 8,
        5 => 16,
        7 => 32,
        8 => 64,
        9 => 128,
        22 => 3,
        23 => 4,
        24 => 8,
        25 => 16,
        27 => 32,
        28 => 64,
        29 => 128,
        _ => 0,
    }
}

fn apply_sgr_one(style: Style, a: &Vec<u16>) -> (r: Style)
    ensures
        r == sgr_one(style, a@),
{
    let mut style = style;
    if a.len() == 1 {
        let n = a[0];
        if n == 0 {
            style = Style::default();
        } else if (1 <= n && n <= 5) || (7 <= n && n <= 9) || n == 22 || (23 <= n && n <= 25) || (27 <= n && n <= 29) {
            style.flags.set(StyleFlags::from_bits(flag_bits(n)), n < 10);
        } else if 30 <= n && n <= 37 {
            style.foreground = Some(TerminalColor::Builtin { color: builtin(n - 30), bright: false });
        } else if n == 39 {
            style.foreground = None;
        } else if 40 <= n && n <= 47 {
            style.background = Some(TerminalColor::Builtin { color: builtin(n - 40), bright: false });
        } else if n == 49 {
            style.background = None;
        } else if 90 <= n && n <= 97 {
            style.foreground = Some(TerminalColor::Builtin { color: builtin(n - 90), bright: true });
        } else if 100 <= n && n <= 107 {
            style.background = Some(TerminalColor::Builtin { color: builtin(n - 100), bright: true });
        }
    } else if a.len() >= 2 && (a[0] == 38 || a[0] == 48) {
        let rest = tail_of(a);
        let (c, _) = parse_color(rest.as_slice());
        if let Some(c) = c {
            if a[0] == 38 {
                style.foreground = Some(c);
            } else {
                style.background = Some(c);
            }
        }
    }
    style
}

/// `a` without its first value.
fn tail_of(a: &Vec<u16>) -> (r: Vec<u16>)
    requires
        a@.len() >= 1,
    ensures
        r@ == a@.skip(1),
{
    let mut r: Vec<u16> = Vec::new();
    let mut i: usize = 1;
    while i < a.len()
        invariant
            1 <= i <= a@.len(),
            r@ == a@.subrange(1, i as int),
        decreases a@.len() - i,
    {
        r.push(a[i]);
        i += 1;
        assert(r@ =~= a@.subrange(1, i as int));
    }
    assert(a@.subrange(1, a@.len() as int) =~= a@.skip(1));
    r
}

/// The first values of the parameters from `j` on.
fn firsts_from(params: &[Vec<u16>], j: usize) -> (r: Vec<u16>)
    requires
        params_ok(pvals(params@)),
        j <= params@.len(),
    ensures
        r@ == firsts(pvals(params@), j as int),
{
    let mut r: Vec<u16> = Vec::new();
    let mut i: usize = j;
    while i < params.len()
        invariant
            j <= i <= params@.len(),
            params_ok(pvals(params@)),
            r@ == firsts(pvals(params@), j as int).take(i - j),
        decreases params@.len() - i,
    {
        assert(pvals(params@)[i as int].len() > 0);
        r.push(params[i][0]);
        i += 1;
        assert(r@ =~= firsts(pvals(params@), j as int).take(i - j));
    }
    assert(firsts(pvals(params@), j as int).take(params@.len() - j) =~= firsts(pvals(params@), j as int));
    r
}

/// Applies the SGR parameters to `style`.
pub fn apply_sgr(style: Style, params: &[Vec<u16>]) -> (r: Style)
    requires
        params_ok(pvals(params@)),
    ensures
        r == sgr(style, pvals(params@), 0),
{
    let ghost ps = pvals(params@);
    let ghost style0 = style;
    let mut style = style;
    let mut k: usize = 0;
    while k < params.len()
        invariant
            ps == pvals(params@),
            params_ok(ps),
            0 <= k,
            k <= params@.len() + 4,
            sgr(style, ps, k as int) == sgr(style0, ps, 0),
        decreases params@.len() + 4 - k,
    {
        let a = &params[k];
        if a.len() == 1 && (a[0] == 38 || a[0] == 48) {
            assert(ps[k as int] =~= seq![a[0]]);
            let rest = firsts_from(params, k + 1);
            let (c, n) = parse_color(rest.as_slice());
            if let Some(c) = c {
                if a[0] == 38 {
                    style.foreground = Some(c);
                } else {
                    style.background = Some(c);
                }
            }
            k = k + 1 + n;
        } else {
            assert(!(ps[k as int] =~= seq![38u16]) && !(ps[k as int] =~= seq![48u16]));
            style = apply_sgr_one(style, a);
            k = k + 1;
        }
    }
    style
}


// ---------------------------------------------------------------------------
// Printing and C0 controls
// ---------------------------------------------------------------------------

/// What printing `c` does: in insert mode the rest of the row moves right
/// first; the character, mapped through the active character set, is written
/// at the cursor in the cursor's style; the cursor moves one column right.
pub open spec fn print_effect(v: TermView, c: char) -> TermView {
    let row = v.cursor.pos.row as int;
    let col = v.cursor.pos.col as int;
    let g1 = if v.cursor.insert { shift_line(v.grid, row, col) } else { v.grid };
    let ch = v.charsets[v.cursor.active_charset as int].spec_map(c);
    TermView {
        grid: put_cell(g1, v.cursor.pos, Cell { c: ch, style: v.cursor.style }),
        cursor: Cursor { pos: Position { row: v.cursor.pos.row, col: (col + 1) as usize }, ..v.cursor },
        ..v
    }
}

/// When `c` can be printed.
pub open spec fn print_ok(v: TermView) -> bool {
    &&& v.cursor.active_charset < 4
    &&& v.cursor.pos.col < usize::MAX
    &&& v.cursor.insert ==> v.cursor.pos.row < v.grid.len()
}

/// What executing the C0 control `b` does: backspace, carriage return,
/// line feed (also VT and FF; a new-line mode also returns the carriage),
/// shift in and shift out; the rest is ignored.
pub open spec fn execute_effect(v: TermView, b: u8) -> TermView {
    if b == 0x08 {
        with_col(v, minus_or_zero(v.cursor.pos.col as int, 1))
    } else if b == 0x0d {
        with_col(v, 0)
    } else if b == 0x0a || b == 0x0b || b == 0x0c {
        let w = linefeed_effect(v);
        if w.cursor.line_feed { with_col(w, 0) } else { w }
    } else if b == 0x0f {
        TermView { cursor: Cursor { active_charset: 0, ..v.cursor }, ..v }
    } else if b == 0x0e {
        TermView { cursor: Cursor { active_charset: 1, ..v.cursor }, ..v }
    } else {
        v
    }
}

/// When `b` can be executed.
pub open spec fn execute_ok(v: TermView, b: u8) -> bool {
    (b == 0x0a || b == 0x0b || b == 0x0c) ==> linefeed_ok(v)
}

// ---------------------------------------------------------------------------
// ESC sequences
// ---------------------------------------------------------------------------

/// What `ESC <intermediates> <byte>` does.
pub open spec fn esc_effect(v: TermView, inter: Seq<u8>, byte: u8) -> TermView {
    if byte == 0x42 && inter.len() == 1 {
        set_charset_effect(v, inter[0], Charset::Ascii)
    } else if byte == 0x30 && inter.len() == 1 {
        set_charset_effect(v, inter[0], Charset::LineDrawing)
    } else if inter.len() == 0 {
        if byte == 0x44 {
            linefeed_effect(v)
        } else if byte == 0x45 {
            with_col(linefeed_effect(v), 0)
        } else if byte == 0x4d {
            reverse_index_effect(v)
        } else if byte == 0x5a {
            sent(v, identify_reply(None))
        } else if byte == 0x3d {
            TermView { keypad_application_mode: true, ..v }
        } else if byte == 0x3e {
            TermView { keypad_application_mode: false, ..v }
        } else {
            v
        }
    } else {
        v
    }
}

/// When `ESC <intermediates> <byte>` can be performed.
pub open spec fn esc_ok(v: TermView, inter: Seq<u8>, byte: u8) -> bool {
    inter.len() == 0 ==> {
        &&& (byte == 0x44 || byte == 0x45) ==> linefeed_ok(v)
        &&& byte == 0x4d ==> reverse_index_ok(v)
    }
}

// ---------------------------------------------------------------------------
// OSC sequences
// ---------------------------------------------------------------------------

/// The texts of the parameters from `k` on that are valid UTF-8, joined with `;`.
pub open spec fn joined_texts(params: Seq<Seq<u8>>, k: int) -> Seq<char>
    decreases params.len() - k,
{
    if k < 0 || k >= params.len() {
        Seq::empty()
    } else {
        let rest = joined_texts(params, k + 1);
        if vstd::utf8::valid_utf8(params[k]) {
            let t = vstd::utf8::decode_utf8(params[k]);
            if joined_any(params, k + 1) { t + seq![';'] + rest } else { t }
        } else {
            rest
        }
    }
}

/// Whether any parameter from `k` on is valid UTF-8.
pub open spec fn joined_any(params: Seq<Seq<u8>>, k: int) -> bool {
    exists|i: int| k <= i < params.len() && 0 <= i && vstd::utf8::valid_utf8(#[trigger] params[i])
}

/// The window title that `OSC 0` / `OSC 2` set: the parameters after the
/// first, those that are valid UTF-8, joined with `;` and trimmed.
pub open spec fn osc_title(params: Seq<Seq<u8>>) -> Seq<char> {
    crate::text::trimmed(joined_texts(params, 1))
}

/// The parameters of an OSC sequence, as plain values.
pub open spec fn osc_vals(params: Seq<&[u8]>) -> Seq<Seq<u8>> {
    Seq::new(params.len(), |i: int| params[i]@)
}

/// What an OSC sequence does: `0` and `2` set the title, the rest is ignored.
pub open spec fn osc_effect(v: TermView, params: Seq<Seq<u8>>) -> TermView {
    if params[0] =~= seq![0x30u8] || params[0] =~= seq![0x32u8] {
        TermView { title: osc_title(params), ..v }
    } else {
        v
    }
}

// ---------------------------------------------------------------------------
// CSI sequences
// ---------------------------------------------------------------------------

/// The cursor position report: `ESC [ row ; col R`, counted from 1.
pub open spec fn position_report(row: nat, col: nat) -> Seq<u8> {
    seq![0x1bu8, 0x5b] + decimal(row + 1) + seq![0x3bu8] + decimal(col + 1) + seq![0x52u8]
}

/// What setting (`set`) or resetting the ANSI modes of parameters `k..` does.
pub open spec fn modes_effect(v: TermView, ps: Seq<Seq<u16>>, k: int, set: bool) -> TermView
    decreases ps.len() - k,
{
    if k < 0 || k >= ps.len() {
        v
    } else {
        modes_effect(mode_effect(v, ps[k][0], set), ps, k + 1, set)
    }
}

/// What setting (`set`) or resetting the private modes of parameters `k..` does.
pub open spec fn private_modes_effect(v: TermView, ps: Seq<Seq<u16>>, k: int, set: bool) -> TermView
    decreases ps.len() - k,
{
    if k < 0 || k >= ps.len() {
        v
    } else {
        private_modes_effect(private_mode_effect(v, ps[k][0], set), ps, k + 1, set)
    }
}

pub open spec fn down_effect(v: TermView, n: u16) -> TermView {
    with_row(v, at_most(v.cursor.pos.row + n, v.size.rows - 1))
}

pub open spec fn up_effect(v: TermView, n: u16) -> TermView {
    with_row(v, minus_or_zero(v.cursor.pos.row as int, n as int))
}

/// Whether `action` (with no intermediates) moves the cursor.
pub open spec fn is_move_action(action: u8) -> bool {
    action == 0x41 || action == 0x42 || action == 0x65 || action == 0x43 || action == 0x61
        || action == 0x44 || action == 0x64 || action == 0x45 || action == 0x46 || action == 0x47
        || action == 0x60 || action == 0x48 || action == 0x66
}

/// What the cursor movements `CSI n A/B/e/C/a/D/d/E/F/G/\`/H/f` do: up,
/// down, right, left by `n`; to row `n`; down or up `n` rows to column 1; to
/// column `n`; to row and column. The cursor stays on the screen, and `n`
/// is 1 when absent or 0.
pub open spec fn move_effect(v: TermView, ps: Seq<Seq<u16>>, action: u8) -> TermView {
    let col = v.cursor.pos.col as int;
    let p1 = param_or(ps, 0, 1);
    if action == 0x41 {
        up_effect(v, p1)
    } else if action == 0x42 || action == 0x65 {
        down_effect(v, p1)
    } else if action == 0x43 || action == 0x61 {
        with_col(v, at_most(col + p1, v.size.cols - 1))
    } else if action == 0x44 {
        with_col(v, minus_or_zero(col, p1 as int))
    } else if action == 0x64 {
        with_row(v, at_most(p1 - 1, v.size.rows - 1))
    } else if action == 0x45 {
        with_col(down_effect(v, p1), 0)
    } else if action == 0x46 {
        with_col(up_effect(v, p1), 0)
    } else if action == 0x47 || action == 0x60 {
        with_col(v, at_most(p1 - 1, v.size.cols - 1))
    } else {
        with_pos(v, Position {
            row: at_most(p1 - 1, v.size.rows - 1) as usize,
            col: at_most(param_or(ps, 1, 1) - 1, v.size.cols - 1) as usize,
        })
    }
}

/// When a cursor movement can be performed.
pub open spec fn move_ok(v: TermView, ps: Seq<Seq<u16>>, action: u8) -> bool {
    let row = v.cursor.pos.row as int;
    let col = v.cursor.pos.col as int;
    let p1 = param_or(ps, 0, 1);
    &&& (action == 0x42 || action == 0x65 || action == 0x45) ==> v.size.rows >= 1 && row + p1 <= usize::MAX
    &&& (action == 0x43 || action == 0x61) ==> v.size.cols >= 1 && col + p1 <= usize::MAX
    &&& action == 0x64 ==> v.size.rows >= 1
    &&& (action == 0x47 || action == 0x60) ==> v.size.cols >= 1
    &&& (action == 0x48 || action == 0x66) ==> v.size.rows >= 1 && v.size.cols >= 1
}

/// What erase in display (`CSI p J`) does: 0 from the cursor's row down,
/// 1 up to the cursor's row, 2 all, 3 all and the scrollback.
pub open spec fn erase_display_effect(v: TermView, p0: u16) -> TermView {
    let style = v.cursor.style;
    if p0 == 0 {
        TermView { grid: blank_lines(v.grid, v.cursor.pos.row as int, v.size.rows - 1, style), ..v }
    } else if p0 == 1 {
        TermView { grid: blank_lines(v.grid, 0, v.cursor.pos.row as int, style), ..v }
    } else if p0 == 2 {
        TermView { grid: blank_grid(v.grid, style), ..v }
    } else if p0 == 3 {
        TermView { grid: blank_grid(v.grid, style), scrollback: Seq::empty(), ..v }
    } else {
        v
    }
}

/// What erase in line (`CSI p K`) does: 0 from the cursor on, 1 up to the
/// cursor, 2 the whole row.
pub open spec fn erase_line_effect(v: TermView, p0: u16) -> TermView {
    let row = v.cursor.pos.row as int;
    let col = v.cursor.pos.col as int;
    let style = v.cursor.style;
    if p0 == 0 {
        TermView { grid: v.grid.update(row, blank_range(v.grid[row], col, v.size.cols - 1, style)), ..v }
    } else if p0 == 1 {
        TermView { grid: v.grid.update(row, blank_range(v.grid[row], 0, col, style)), ..v }
    } else if p0 == 2 {
        TermView { grid: v.grid.update(row, blank_range(v.grid[row], 0, v.size.cols - 1, style)), ..v }
    } else {
        v
    }
}

/// What a device status request (`CSI p n`) does: 5 reports the terminal
/// fine, 6 reports the cursor position.
pub open spec fn status_effect(v: TermView, p0: u16) -> TermView {
    if p0 == 5 {
        sent(v, seq![0x1bu8, 0x5b, 0x30, 0x6e])
    } else if p0 == 6 {
        sent(v, position_report(v.cursor.pos.row as nat, v.cursor.pos.col as nat))
    } else {
        v
    }
}

/// What setting the scroll region (`CSI top ; bottom r`) does: a non-empty
/// region is taken (top from 1, bottom inclusive, both kept on the screen;
/// the bottom defaults to the last row, taken as a `u16`); the cursor goes home.
pub open spec fn region_effect(v: TermView, ps: Seq<Seq<u16>>) -> TermView {
    let s = at_most(param_or(ps, 0, 1) - 1, v.size.rows - 1);
    let e = at_most(param_or(ps, 1, v.size.rows as u16) as int, v.size.rows as int);
    let w = if s < e { TermView { scroll_start: s as usize, scroll_end: e as usize, ..v } } else { v };
    with_pos(w, Position { row: 0, col: 0 })
}

/// What inserting a blank character (`CSI @`) does: the row moves right
/// from the cursor and a blank in the cursor's style is written there.
pub open spec fn insert_blank_effect(v: TermView) -> TermView {
    TermView {
        grid: put_cell(
            shift_line(v.grid, v.cursor.pos.row as int, v.cursor.pos.col as int),
            v.cursor.pos,
            Cell { c: ' ', style: v.cursor.style },
        ),
        ..v
    }
}

/// What `CSI <params> <action>` with no intermediates does.
pub open spec fn csi_plain_effect(v: TermView, ps: Seq<Seq<u16>>, action: u8) -> TermView {
    let p0 = param_or(ps, 0, 0);
    let p1 = param_or(ps, 0, 1);
    if action == 0x40 {
        insert_blank_effect(v)
    } else if is_move_action(action) {
        move_effect(v, ps, action)
    } else if action == 0x68 {
        modes_effect(v, ps, 0, true)
    } else if action == 0x6c {
        modes_effect(v, ps, 0, false)
    } else if action == 0x4a {
        erase_display_effect(v, p0)
    } else if action == 0x4b {
        erase_line_effect(v, p0)
    } else if action == 0x6d {
        TermView { cursor: Cursor { style: sgr(v.cursor.style, ps, 0), ..v.cursor }, ..v }
    } else if action == 0x6e {
        status_effect(v, p0)
    } else if action == 0x72 {
        region_effect(v, ps)
    } else if action == 0x53 {
        TermView { grid: grid_scrolled_up_n(v.grid, v.scroll_start as int, v.scroll_end as int, p1 as nat), ..v }
    } else if action == 0x54 {
        TermView { grid: grid_scrolled_down_n(v.grid, v.scroll_start as int, v.scroll_end as int, p1 as nat), ..v }
    } else {
        v
    }
}

/// When `CSI <params> <action>` with no intermediates can be performed.
pub open spec fn csi_plain_ok(v: TermView, ps: Seq<Seq<u16>>, action: u8) -> bool {
    let row = v.cursor.pos.row as int;
    let col = v.cursor.pos.col as int;
    let p0 = param_or(ps, 0, 0);
    &&& action == 0x40 ==> row < v.grid.len() && col < usize::MAX
    &&& is_move_action(action) ==> move_ok(v, ps, action)
    &&& action == 0x4a ==> (p0 == 0 ==> v.size.rows >= 1) && (p0 == 1 ==> row < v.size.rows)
    &&& action == 0x4b ==> {
        &&& (p0 == 0 || p0 == 2) ==> row < v.size.rows && v.size.cols >= 1
        &&& p0 == 1 ==> row < v.size.rows && col < v.size.cols
    }
    &&& action == 0x6e && p0 == 6 ==> row < usize::MAX && col < usize::MAX
    &&& action == 0x72 ==> v.size.rows >= 1
    &&& action == 0x53 ==> scroll_up_ok(v)
    &&& action == 0x54 ==> scroll_down_ok(v)
}

/// What `CSI <params> <intermediates> <action>` does. `CSI c` (any
/// intermediates) answers a device attributes request when its parameter is
/// 0; `CSI ? h` / `CSI ? l` set and reset private modes.
pub open spec fn csi_effect(v: TermView, ps: Seq<Seq<u16>>, inter: Seq<u8>, action: u8) -> TermView {
    if action == 0x63 {
        if param_or(ps, 0, 0) == 0 {
            sent(v, identify_reply(if inter.len() > 0 { Some(inter[0]) } else { None }))
        } else {
            v
        }
    } else if inter.len() == 0 {
        csi_plain_effect(v, ps, action)
    } else if inter =~= seq![0x3fu8] {
        if action == 0x68 {
            private_modes_effect(v, ps, 0, true)
        } else if action == 0x6c {
            private_modes_effect(v, ps, 0, false)
        } else {
            v
        }
    } else {
        v
    }
}

/// When `CSI <params> <intermediates> <action>` can be performed.
pub open spec fn csi_ok(v: TermView, ps: Seq<Seq<u16>>, inter: Seq<u8>, action: u8) -> bool {
    &&& params_ok(ps)
    &&& (action != 0x63 && inter.len() == 0) ==> csi_plain_ok(v, ps, action)
}

proof fn lemma_shaped_scrolled_up(lines: Seq<Seq<Cell>>, size: crate::terminal::style::Size, start: int, end: int)
    requires
        shaped(lines, size),
        0 <= start < lines.len(),
        1 <= end <= lines.len(),
    ensures
        shaped(crate::terminal::grid::scrolled_up(lines, start, end), size),
{
}

proof fn lemma_shaped_scrolled_down(lines: Seq<Seq<Cell>>, size: crate::terminal::style::Size, start: int, end: int)
    requires
        shaped(lines, size),
        0 <= start < lines.len(),
        start + 1 < end ==> end <= lines.len(),
    ensures
        shaped(crate::terminal::grid::scrolled_down(lines, start, end), size),
{
}

proof fn lemma_shaped_scrolled_up_n(lines: Seq<Seq<Cell>>, size: crate::terminal::style::Size, start: int, end: int, n: nat)
    requires
        shaped(lines, size),
        0 <= start < lines.len(),
        1 <= end <= lines.len(),
    ensures
        shaped(grid_scrolled_up_n(lines, start, end, n), size),
    decreases n,
{
    if n > 0 {
        lemma_shaped_scrolled_up_n(lines, size, start, end, (n - 1) as nat);
        lemma_scrolled_up_len_n(lines, start, end, (n - 1) as nat);
        lemma_shaped_scrolled_up(grid_scrolled_up_n(lines, start, end, (n - 1) as nat), size, start, end);
    }
}

proof fn lemma_shaped_scrolled_down_n(lines: Seq<Seq<Cell>>, size: crate::terminal::style::Size, start: int, end: int, n: nat)
    requires
        shaped(lines, size),
        0 <= start < lines.len(),
        start + 1 < end ==> end <= lines.len(),
    ensures
        shaped(grid_scrolled_down_n(lines, start, end, n), size),
    decreases n,
{
    if n > 0 {
        lemma_shaped_scrolled_down_n(lines, size, start, end, (n - 1) as nat);
        lemma_scrolled_down_len_n(lines, start, end, (n - 1) as nat);
        lemma_shaped_scrolled_down(grid_scrolled_down_n(lines, start, end, (n - 1) as nat), size, start, end);
    }
}

proof fn lemma_scrolled_up_len_n(lines: Seq<Seq<Cell>>, start: int, end: int, n: nat)
    requires
        0 <= start < lines.len(),
        1 <= end <= lines.len(),
    ensures
        grid_scrolled_up_n(lines, start, end, n).len() == lines.len(),
    decreases n,
{
    if n > 0 {
        lemma_scrolled_up_len_n(lines, start, end, (n - 1) as nat);
    }
}

proof fn lemma_scrolled_down_len_n(lines: Seq<Seq<Cell>>, start: int, end: int, n: nat)
    requires
        0 <= start < lines.len(),
        start + 1 < end ==> end <= lines.len(),
    ensures
        grid_scrolled_down_n(lines, start, end, n).len() == lines.len(),
    decreases n,
{
    if n > 0 {
        lemma_scrolled_down_len_n(lines, start, end, (n - 1) as nat);
    }
}

impl TerminalState {
    /// Prints `c` at the cursor.
    #[verifier::rlimit(100)]
    #[verifier::spinoff_prover]
    pub fn print(&mut self, c: char)
        requires
            old(self).wf(),
            print_ok(old(self)@),
        ensures
            final(self).wf(),
            final(self)@ == print_effect(old(self)@, c),
    {
        proof { self.lemma_wf(); }
        if self.cursor.insert {
            self.grid.shift_line_right_from(self.cursor.pos.row, self.cursor.pos.col);
        }
        let mapped = self.charsets[self.cursor.active_charset].map(c);
        self.grid.put(self.cursor.pos, mapped, self.cursor.style);
        self.cursor.pos.col = self.cursor.pos.col + 1;
        assert(self@ =~= print_effect(old(self)@, c));
    }

    /// Executes the C0 control `b`.
    #[verifier::rlimit(100)]
    #[verifier::spinoff_prover]
    pub fn execute(&mut self, b: u8)
        requires
            old(self).wf(),
            execute_ok(old(self)@, b),
        ensures
            final(self).wf(),
            final(self)@ == execute_effect(old(self)@, b),
    {
        match b {
            0x08 => self.cursor.pos.col = self.cursor.pos.col.saturating_sub(1),
            0x0d => self.cursor.pos.col = 0,
            0x0a | 0x0b | 0x0c => {
                self.linefeed();
                if self.cursor.line_feed {
                    self.cursor.pos.col = 0;
                }
            },
            0x0f => self.set_active_charset(0),
            0x0e => self.set_active_charset(1),
            _ => {},
        }
    }

    /// Performs `ESC <intermediates> <byte>`.
    #[verifier::rlimit(100)]
    #[verifier::spinoff_prover]
    pub fn esc_dispatch(&mut self, intermediates: &[u8], _ignore: bool, byte: u8)
        requires
            old(self).wf(),
            esc_ok(old(self)@, intermediates@, byte),
        ensures
            final(self).wf(),
            final(self)@ == esc_effect(old(self)@, intermediates@, byte),
    {
        if byte == 0x42 && intermediates.len() == 1 {
            self.set_charset(intermediates[0], Charset::Ascii);
        } else if byte == 0x30 && intermediates.len() == 1 {
            self.set_charset(intermediates[0], Charset::LineDrawing);
        } else if intermediates.len() == 0 {
            match byte {
                0x44 => self.linefeed(),
                0x45 => {
                    self.linefeed();
                    self.cursor.pos.col = 0;
                },
                0x4d => self.reverse_index(),
                0x5a => self.identify_terminal(None),
                0x3d => self.keypad_application_mode = true,
                0x3e => self.keypad_application_mode = false,
                _ => {},
            }
        }
    }

    /// Moves the cursor up a line, scrolling the region down at its top.
    pub fn reverse_index(&mut self)
        requires
            old(self).wf(),
            reverse_index_ok(old(self)@),
        ensures
            final(self).wf(),
            final(self)@ == reverse_index_effect(old(self)@),
    {
        proof { self.lemma_wf(); }
        if self.cursor.pos.row == self.scroll_start {
            self.grid.scroll_down(self.scroll_start..self.scroll_end);
            proof {
                lemma_shaped_scrolled_down(old(self)@.grid, old(self)@.size, old(self)@.scroll_start as int, old(self)@.scroll_end as int);
            }
        } else {
            self.cursor.pos.row = self.cursor.pos.row.saturating_sub(1);
        }
    }

    /// Performs an OSC sequence.
    pub fn osc_dispatch(&mut self, params: &[&[u8]], _bell_terminated: bool)
        requires
            old(self).wf(),
            params@.len() >= 1,
        ensures
            final(self).wf(),
            final(self)@ == osc_effect(old(self)@, osc_vals(params@)),
    {
        let p0 = params[0];
        let is_title = p0.len() == 1 && (p0[0] == 0x30 || p0[0] == 0x32);
        assert(is_title == (osc_vals(params@)[0] =~= seq![0x30u8] || osc_vals(params@)[0] =~= seq![0x32u8]));
        if is_title {
            let joined = join_texts(params);
            let t = crate::text::trim_chars(&joined);
            self.title = crate::text::string_from_chars(&t);
        }
    }

    /// Performs `CSI <params> <intermediates> <action>`.
    #[verifier::rlimit(100)]
    pub fn csi_dispatch(&mut self, params: &[Vec<u16>], intermediates: &[u8], _ignore: bool, action: u8)
        requires
            old(self).wf(),
            csi_ok(old(self)@, pvals(params@), intermediates@, action),
        ensures
            final(self).wf(),
            final(self)@ == csi_effect(old(self)@, pvals(params@), intermediates@, action),
    {
        proof { self.lemma_wf(); }
        if action == 0x63 {
            if next_param_or(params, 0, 0) == 0 {
                let arg = if intermediates.len() > 0 { Some(intermediates[0]) } else { None };
                self.identify_terminal(arg);
            }
        } else if intermediates.len() == 0 {
            self.csi_plain(params, action);
        } else if intermediates.len() == 1 && intermediates[0] == 0x3f {
            assert(intermediates@ =~= seq![0x3fu8]);
            if action == 0x68 {
                self.set_private_modes(params, true);
            } else if action == 0x6c {
                self.set_private_modes(params, false);
            }
        } else {
            assert(!(intermediates@ =~= seq![0x3fu8]));
        }
    }

    fn csi_plain(&mut self, params: &[Vec<u16>], action: u8)
        requires
            old(self).wf(),
            params_ok(pvals(params@)),
            csi_plain_ok(old(self)@, pvals(params@), action),
        ensures
            final(self).wf(),
            final(self)@ == csi_plain_effect(old(self)@, pvals(params@), action),
    {
        let p0 = next_param_or(params, 0, 0);
        let p1 = next_param_or(params, 0, 1);
        if action == 0x40 {
            self.insert_blank();
        } else if action == 0x41 || action == 0x42 || action == 0x65 || action == 0x43 || action == 0x61
            || action == 0x44 || action == 0x64 || action == 0x45 || action == 0x46 || action == 0x47
            || action == 0x60 || action == 0x48 || action == 0x66 {
            self.csi_move(params, action);
        } else if action == 0x68 {
            self.set_modes(params, true);
        } else if action == 0x6c {
            self.set_modes(params, false);
        } else if action == 0x4a {
            self.csi_erase_display(p0);
        } else if action == 0x4b {
            self.csi_erase_line(p0);
        } else if action == 0x6d {
            self.cursor.style = apply_sgr(self.cursor.style, params);
        } else if action == 0x6e {
            self.csi_status(p0);
        } else if action == 0x72 {
            self.csi_region(params);
        } else if action == 0x53 {
            self.scroll_region_up(p1);
        } else if action == 0x54 {
            self.scroll_region_down(p1);
        }
    }

    fn insert_blank(&mut self)
        requires
            old(self).wf(),
            old(self)@.cursor.pos.row < old(self)@.grid.len(),
            old(self)@.cursor.pos.col < usize::MAX,
        ensures
            final(self).wf(),
            final(self)@ == insert_blank_effect(old(self)@),
    {
        self.grid.shift_line_right_from(self.cursor.pos.row, self.cursor.pos.col);
        self.grid.put(self.cursor.pos, ' ', self.cursor.style);
        assert(self@ =~= insert_blank_effect(old(self)@));
    }

    #[verifier::spinoff_prover]
    fn csi_move(&mut self, params: &[Vec<u16>], action: u8)
        requires
            old(self).wf(),
            is_move_action(action),
            move_ok(old(self)@, pvals(params@), action),
        ensures
            final(self).wf(),
            final(self)@ == move_effect(old(self)@, pvals(params@), action),
    {
        let p1 = next_param_or(params, 0, 1);
        if action == 0x41 {
            self.move_up(p1);
        } else if action == 0x42 || action == 0x65 {
            self.move_down(p1);
        } else if action == 0x43 || action == 0x61 {
            self.move_right(p1);
        } else if action == 0x44 {
            self.move_left(p1);
        } else if action == 0x64 {
            let row = clamp_to(p1 as usize - 1, self.size.rows - 1);
            self.cursor_to_row(row);
        } else if action == 0x45 {
            self.move_down(p1);
            self.cursor_to_col(0);
        } else if action == 0x46 {
            self.move_up(p1);
            self.cursor_to_col(0);
        } else if action == 0x47 || action == 0x60 {
            let col = clamp_to(p1 as usize - 1, self.size.cols - 1);
            self.cursor_to_col(col);
        } else {
            let p2 = next_param_or(params, 1, 1);
            let row = clamp_to(p1 as usize - 1, self.size.rows - 1);
            let col = clamp_to(p2 as usize - 1, self.size.cols - 1);
            self.cursor_to(Position { row, col });
        }
    }

    fn csi_erase_line(&mut self, p0: u16)
        requires
            old(self).wf(),
            (p0 == 0 || p0 == 2) ==> old(self)@.cursor.pos.row < old(self)@.size.rows && old(self)@.size.cols >= 1,
            p0 == 1 ==> old(self)@.cursor.pos.row < old(self)@.size.rows && old(self)@.cursor.pos.col < old(self)@.size.cols,
        ensures
            final(self).wf(),
            final(self)@ == erase_line_effect(old(self)@, p0),
    {
        if p0 == 0 {
            self.clear_line_right();
        } else if p0 == 1 {
            self.clear_line_left();
        } else if p0 == 2 {
            self.clear_line();
        }
    }

    fn csi_status(&mut self, p0: u16)
        requires
            old(self).wf(),
            p0 == 6 ==> old(self)@.cursor.pos.row < usize::MAX && old(self)@.cursor.pos.col < usize::MAX,
        ensures
            final(self).wf(),
            final(self)@ == status_effect(old(self)@, p0),
    {
        if p0 == 5 {
            let reply: [u8; 4] = [0x1b, 0x5b, 0x30, 0x6e];
            self.send_bytes(&reply);
            assert(reply@ =~= seq![0x1bu8, 0x5b, 0x30, 0x6e]);
        } else if p0 == 6 {
            let mut reply: Vec<u8> = Vec::new();
            reply.push(0x1b);
            reply.push(0x5b);
            push_decimal(&mut reply, self.cursor.pos.row + 1);
            reply.push(0x3b);
            push_decimal(&mut reply, self.cursor.pos.col + 1);
            reply.push(0x52);
            assert(reply@ =~= position_report(self.cursor.pos.row as nat, self.cursor.pos.col as nat));
            self.send_bytes(reply.as_slice());
        }
    }

    fn csi_region(&mut self, params: &[Vec<u16>])
        requires
            old(self).wf(),
            old(self)@.size.rows >= 1,
        ensures
            final(self).wf(),
            final(self)@ == region_effect(old(self)@, pvals(params@)),
    {
        let p1 = next_param_or(params, 0, 1);
        let s = clamp_to(p1 as usize - 1, self.size.rows - 1);
        let e = clamp_to(next_param_or(params, 1, self.size.rows as u16) as usize, self.size.rows);
        if s < e {
            self.set_scroll_region(s, e);
        }
        self.cursor_to(Position { row: 0, col: 0 });
    }

    fn csi_erase_display(&mut self, p0: u16)
        requires
            old(self).wf(),
            p0 == 0 ==> old(self)@.size.rows >= 1,
            p0 == 1 ==> old(self)@.cursor.pos.row < old(self)@.size.rows,
        ensures
            final(self).wf(),
            final(self)@ == erase_display_effect(old(self)@, p0),
    {
        if p0 == 0 {
            self.clear_screen_down();
        } else if p0 == 1 {
            self.clear_screen_up();
        } else if p0 == 2 {
            self.grid.clear(self.cursor.style);
            assert(self@ =~= TermView { grid: blank_grid(old(self)@.grid, old(self)@.cursor.style), ..old(self)@ });
        } else if p0 == 3 {
            self.grid.clear(self.cursor.style);
            self.scrollback.clear();
            assert(self@ =~= TermView { grid: blank_grid(old(self)@.grid, old(self)@.cursor.style), scrollback: Seq::empty(), ..old(self)@ });
        }
    }

    fn scroll_region_up(&mut self, n: u16)
        requires
            old(self).wf(),
            scroll_up_ok(old(self)@),
        ensures
            final(self).wf(),
            final(self)@ == (TermView { grid: grid_scrolled_up_n(old(self)@.grid, old(self)@.scroll_start as int, old(self)@.scroll_end as int, n as nat), ..old(self)@ }),
    {
        proof { self.lemma_wf(); }
        let mut i: u16 = 0;
        while i < n
            invariant
                0 <= i <= n,
                self.wf(),
                scroll_up_ok(old(self)@),
                self@ == (TermView { grid: grid_scrolled_up_n(old(self)@.grid, old(self)@.scroll_start as int, old(self)@.scroll_end as int, i as nat), ..old(self)@ }),
                view_wf(old(self)@),
            decreases n - i,
        {
            proof {
                lemma_shaped_scrolled_up_n(old(self)@.grid, old(self)@.size, old(self)@.scroll_start as int, old(self)@.scroll_end as int, i as nat);
                lemma_shaped_scrolled_up_n(old(self)@.grid, old(self)@.size, old(self)@.scroll_start as int, old(self)@.scroll_end as int, (i + 1) as nat);
            }
            let _ = self.grid.scroll_up(self.scroll_start..self.scroll_end);
            i += 1;
            assert(self@ =~= TermView { grid: grid_scrolled_up_n(old(self)@.grid, old(self)@.scroll_start as int, old(self)@.scroll_end as int, i as nat), ..old(self)@ });
        }
    }

    fn scroll_region_down(&mut self, n: u16)
        requires
            old(self).wf(),
            scroll_down_ok(old(self)@),
        ensures
            final(self).wf(),
            final(self)@ == (TermView { grid: grid_scrolled_down_n(old(self)@.grid, old(self)@.scroll_start as int, old(self)@.scroll_end as int, n as nat), ..old(self)@ }),
    {
        proof { self.lemma_wf(); }
        let mut i: u16 = 0;
        while i < n
            invariant
                0 <= i <= n,
                self.wf(),
                scroll_down_ok(old(self)@),
                self@ == (TermView { grid: grid_scrolled_down_n(old(self)@.grid, old(self)@.scroll_start as int, old(self)@.scroll_end as int, i as nat), ..old(self)@ }),
                view_wf(old(self)@),
            decreases n - i,
        {
            proof {
                lemma_shaped_scrolled_down_n(old(self)@.grid, old(self)@.size, old(self)@.scroll_start as int, old(self)@.scroll_end as int, i as nat);
                lemma_shaped_scrolled_down_n(old(self)@.grid, old(self)@.size, old(self)@.scroll_start as int, old(self)@.scroll_end as int, (i + 1) as nat);
            }
            self.grid.scroll_down(self.scroll_start..self.scroll_end);
            i += 1;
            assert(self@ =~= TermView { grid: grid_scrolled_down_n(old(self)@.grid, old(self)@.scroll_start as int, old(self)@.scroll_end as int, i as nat), ..old(self)@ });
        }
    }

    fn set_modes(&mut self, params: &[Vec<u16>], set: bool)
        requires
            old(self).wf(),
            params_ok(pvals(params@)),
        ensures
            final(self).wf(),
            final(self)@ == modes_effect(old(self)@, pvals(params@), 0, set),
    {
        let mut k: usize = 0;
        while k < params.len()
            invariant
                0 <= k <= params@.len(),
                self.wf(),
                params_ok(pvals(params@)),
                modes_effect(self@, pvals(params@), k as int, set) == modes_effect(old(self)@, pvals(params@), 0, set),
            decreases params@.len() - k,
        {
            assert(pvals(params@)[k as int].len() > 0);
            self.set_mode(params[k][0], set);
            k += 1;
        }
    }

    fn set_private_modes(&mut self, params: &[Vec<u16>], set: bool)
        requires
            old(self).wf(),
            params_ok(pvals(params@)),
        ensures
            final(self).wf(),
            final(self)@ == private_modes_effect(old(self)@, pvals(params@), 0, set),
    {
        let mut k: usize = 0;
        while k < params.len()
            invariant
                0 <= k <= params@.len(),
                self.wf(),
                params_ok(pvals(params@)),
                private_modes_effect(self@, pvals(params@), k as int, set) == private_modes_effect(old(self)@, pvals(params@), 0, set),
            decreases params@.len() - k,
        {
            assert(pvals(params@)[k as int].len() > 0);
            self.set_private_mode(params[k][0], set);
            k += 1;
        }
    }
}

/// The texts of the OSC parameters after the first that are valid UTF-8,
/// joined with `;`.
fn join_texts(params: &[&[u8]]) -> (r: Vec<char>)
    requires
        params@.len() >= 1,
    ensures
        r@ == joined_texts(osc_vals(params@), 1),
{
    let ghost ps = osc_vals(params@);
    let mut out: Vec<char> = Vec::new();
    let mut k: usize = params.len();
    let mut any = false;
    while k > 1
        invariant
            1 <= k <= params@.len(),
            ps == osc_vals(params@),
            out@ == joined_texts(ps, k as int),
            any == joined_any(ps, k as int),
        decreases k,
    {
        k -= 1;
        let t = crate::text::decode_utf8(params[k]);
        assert(ps[k as int] == params@[k as int]@);
        match t {
            Some(text) => {
                let mut piece = text;
                if any {
                    piece.push(';');
                    append_chars(&mut piece, &out);
                }
                out = piece;
                proof {
                    assert(joined_any(ps, k as int)) by {
                        assert(vstd::utf8::valid_utf8(ps[k as int]));
                    }
                }
                any = true;
            },
            None => {
                proof {
                    assert(joined_any(ps, k as int) == joined_any(ps, k + 1)) by {
                        if joined_any(ps, k as int) {
                            let i = choose|i: int| k <= i < ps.len() && 0 <= i && vstd::utf8::valid_utf8(#[trigger] ps[i]);
                            assert(i != k);
                        }
                        if joined_any(ps, k + 1) {
                            let i = choose|i: int| k + 1 <= i < ps.len() && 0 <= i && vstd::utf8::valid_utf8(#[trigger] ps[i]);
                            assert(k <= i);
                        }
                    }
                }
            },
        }
    }
    out
}

/// Appends `more` to `v`.
fn append_chars(v: &mut Vec<char>, more: &Vec<char>)
    ensures
        final(v)@ == old(v)@ + more@,
{
    let mut i: usize = 0;
    while i < more.len()
        invariant
            0 <= i <= more@.len(),
            v@ == old(v)@ + more@.take(i as int),
        decreases more@.len() - i,
    {
        v.push(more[i]);
        i += 1;
        assert(v@ =~= old(v)@ + more@.take(i as int));
    }
    assert(more@.take(more@.len() as int) =~= more@);
}

} // verus!
