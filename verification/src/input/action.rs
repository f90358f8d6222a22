//! Turning keystrokes into editor actions, vi style.
use vstd::prelude::*;

use crate::input::key::{Key, KeyStroke};
use crate::input::Mode;

verus! {

/// What the keystrokes ask the editor to do. A count is a repeat count
/// typed before a command; it is never 0 (`None` when none was typed).
#[derive(Copy, Clone, Debug, PartialEq, Eq, Structural)]
pub enum Action {
    SetMode { mode: Mode, delta: i32 },
    OpenSearch,
    Append { after: bool },
    Move { count: Option<u32>, m: Move },
    Edit { count: Option<u32>, e: Edit },
    Control { char: char },
    Navigate { nav: Navigation },
    Autocomplete,
}

/// Moving between panes and tabs.
#[derive(Copy, Clone, Debug, PartialEq, Eq, Structural)]
pub enum Navigation {
    OpenSearch,
    Direction(Direction),
    Tab(u8),
}

/// Cursor movements.
#[derive(Copy, Clone, Debug, PartialEq, Eq, Structural)]
pub enum Move {
    Single(Direction),
    NextWord,
    EndWord,
    PrevWord,
    Char(char, ChangeDirection),
    LineStart,
    LineStartOfText,
    LineEnd,
    MatchingBracket,
    FileStart,
    FileEnd,
    Result(ChangeDirection),
    Change(ChangeDirection),
    Diagnostic(ChangeDirection),
    GotoDefinition,
}

/// Forwards or backwards.
#[derive(Debug, Copy, Clone, PartialEq, Eq, Structural)]
pub enum ChangeDirection {
    Next,
    Prev,
}

/// Edits.
#[derive(Copy, Clone, Debug, PartialEq, Eq, Structural)]
pub enum Edit {
    Insert(char),
    Replace(char),
    Delete(Move),
    Cut(Move),
    DeleteLine,
    CutLine,
    DeleteRestOfLine,
    Backspace,
    Undo,
    Redo,
}

/// Why keystrokes give no action: they never will, or not yet.
#[derive(Copy, Clone, Debug, PartialEq, Eq, Structural)]
pub enum ActionError {
    Unrecognized,
    Incomplete,
}

/// The four directions.
#[derive(Debug, Copy, Clone, PartialEq, Eq, Structural)]
pub enum Direction {
    Up,
    Down,
    Left,
    Right,
}

/// Up or down.
#[derive(Copy, Clone, Debug, PartialEq, Eq, Structural)]
pub enum VerticalDirection {
    Up,
    Down,
}

/// The count as the action carries it: absent when 0.
pub open spec fn count_of(count: u32) -> Option<u32> {
    if count == 0 { None } else { Some(count) }
}

/// The keystroke at `j`, if there is one.
pub open spec fn key_at(keys: Seq<KeyStroke>, j: int) -> Option<KeyStroke> {
    if 0 <= j < keys.len() { Some(keys[j]) } else { None }
}

/// The movement that `key`, followed by `next` when it needs a second key,
/// names. A movement waiting for its second key is incomplete.
pub open spec fn move_from(key: KeyStroke, next: Option<KeyStroke>) -> Result<Move, ActionError> {
    let k = key.key;
    if k == Key::Char('h') || k == Key::ArrowLeft || k == Key::Backspace {
        Ok(Move::Single(Direction::Left))
    } else if k == Key::Char('j') || k == Key::ArrowDown {
        Ok(Move::Single(Direction::Down))
    } else if k == Key::Char('k') || k == Key::ArrowUp {
        Ok(Move::Single(Direction::Up))
    } else if k == Key::Char('l') || k == Key::ArrowRight {
        Ok(Move::Single(Direction::Right))
    } else if k == Key::Char('w') {
        Ok(Move::NextWord)
    } else if k == Key::Char('e') {
        Ok(Move::EndWord)
    } else if k == Key::Char('b') {
        Ok(Move::PrevWord)
    } else if k == Key::Char('0') {
        Ok(Move::LineStart)
    } else if k == Key::Char('^') {
        Ok(Move::LineStartOfText)
    } else if k == Key::Char('$') {
        Ok(Move::LineEnd)
    } else if k == Key::Char('%') {
        Ok(Move::MatchingBracket)
    } else if k == Key::Char('n') {
        Ok(Move::Result(ChangeDirection::Next))
    } else if k == Key::Char('N') {
        Ok(Move::Result(ChangeDirection::Prev))
    } else if k == Key::Char('G') {
        Ok(Move::FileEnd)
    } else if k == Key::Char('g') || k == Key::Char('f') || k == Key::Char('F') || k == Key::Char('[') || k == Key::Char(']') {
        match next {
            None => Err(ActionError::Incomplete),
            Some(n) => {
                let nk = n.key;
                if k == Key::Char('g') {
                    if nk == Key::Char('g') {
                        Ok(Move::FileStart)
                    } else if nk == Key::Char('d') {
                        Ok(Move::GotoDefinition)
                    } else {
                        Err(ActionError::Unrecognized)
                    }
                } else if k == Key::Char('f') || k == Key::Char('F') {
                    match nk {
                        Key::Char(c) => Ok(Move::Char(c, if k == Key::Char('f') { ChangeDirection::Next } else { ChangeDirection::Prev })),
                        _ => Err(ActionError::Unrecognized),
                    }
                } else {
                    let d = if k == Key::Char('[') { ChangeDirection::Prev } else { ChangeDirection::Next };
                    if nk == Key::Char('c') {
                        Ok(Move::Change(d))
                    } else if nk == Key::Char('g') {
                        Ok(Move::Diagnostic(d))
                    } else {
                        Err(ActionError::Unrecognized)
                    }
                }
            },
        }
    } else {
        Err(ActionError::Unrecognized)
    }
}

/// The direction of a window navigation key (`h j k l`).
pub open spec fn nav_direction(k: Key) -> Option<Direction> {
    if k == Key::Char('h') {
        Some(Direction::Left)
    } else if k == Key::Char('j') {
        Some(Direction::Down)
    } else if k == Key::Char('k') {
        Some(Direction::Up)
    } else if k == Key::Char('l') {
        Some(Direction::Right)
    } else {
        None
    }
}

/// Whether `k` is a digit from `lo` to `hi`.
pub open spec fn digit_key(k: Key, lo: char, hi: char) -> bool {
    match k {
        Key::Char(c) => lo <= c <= hi,
        _ => false,
    }
}

/// The sum of the digits 1-9 that stand first among the keystrokes from `i`
/// on: the repeat count that normal mode adds up before the command.
pub open spec fn leading_count(keys: Seq<KeyStroke>, i: int) -> nat
    decreases keys.len() - i,
{
    if 0 <= i < keys.len() && digit_key(keys[i].key, '1', '9') {
        (((keys[i].key->Char_0 as int) - 48) + leading_count(keys, i + 1)) as nat
    } else {
        0
    }
}

/// The action named by the keystrokes from `i` on, in `mode`, with the
/// repeat count typed so far being `count`. In normal mode the digits 1-9
/// add to the count (they are summed); a command whose keys have not all
/// been typed yet is incomplete.
pub open spec fn action_from(mode: Mode, keys: Seq<KeyStroke>, i: int, count: u32) -> Result<Action, ActionError>
    decreases keys.len() - i,
{
    if i < 0 || i >= keys.len() {
        Err(ActionError::Incomplete)
    } else {
        let key = keys[i];
        let k = key.key;
        let next = key_at(keys, i + 1);
        let cnt = count_of(count);
        let ins_or_cmd = mode == Mode::Insert || mode == Mode::Command;
        if k == Key::Char('w') && key.control {
            match next {
                None => Err(ActionError::Incomplete),
                Some(n) => match nav_direction(n.key) {
                    Some(d) => Ok(Action::Navigate { nav: Navigation::Direction(d) }),
                    None => match n.key {
                        Key::Char(c) => if '0' <= c <= '9' {
                            Ok(Action::Navigate { nav: Navigation::Tab(((c as u32) - 48) as u8) })
                        } else {
                            Err(ActionError::Unrecognized)
                        },
                        _ => Err(ActionError::Unrecognized),
                    },
                },
            }
        } else if mode == Mode::Normal && k == Key::Char(' ') && !key.control {
            match next {
                None => Err(ActionError::Incomplete),
                Some(n) => if n.key == Key::Char('s') {
                    Ok(Action::Navigate { nav: Navigation::OpenSearch })
                } else {
                    Err(ActionError::Unrecognized)
                },
            }
        } else if mode == Mode::Insert && k == Key::Char(' ') && key.control {
            Ok(Action::Autocomplete)
        } else if mode == Mode::Insert && k is Char && key.control {
            Ok(Action::Control { char: k->Char_0 })
        } else if ins_or_cmd && k is Char {
            Ok(Action::Edit { count: cnt, e: Edit::Insert(k->Char_0) })
        } else if ins_or_cmd && k == Key::Backspace {
            Ok(Action::Edit { count: cnt, e: Edit::Backspace })
        } else if ins_or_cmd && k == Key::Escape {
            Ok(Action::SetMode { mode: Mode::Normal, delta: -1i32 })
        } else if ins_or_cmd && k == Key::ArrowUp {
            Ok(Action::Move { count: cnt, m: Move::Single(Direction::Up) })
        } else if ins_or_cmd && k == Key::ArrowDown {
            Ok(Action::Move { count: cnt, m: Move::Single(Direction::Down) })
        } else if ins_or_cmd && k == Key::ArrowLeft {
            Ok(Action::Move { count: cnt, m: Move::Single(Direction::Left) })
        } else if ins_or_cmd && k == Key::ArrowRight {
            Ok(Action::Move { count: cnt, m: Move::Single(Direction::Right) })
        } else if mode == Mode::Visual && k == Key::Escape {
            Ok(Action::SetMode { mode: Mode::Normal, delta: 0 })
        } else if mode == Mode::Normal && digit_key(k, '1', '9') {
            action_from(mode, keys, i + 1, (count + ((k->Char_0 as u32) - 48)) as u32)
        } else if mode == Mode::Normal && k == Key::Char('r') && !key.control {
            match next {
                None => Err(ActionError::Incomplete),
                Some(n) => match n.key {
                    Key::Char(c) => Ok(Action::Edit { count: cnt, e: Edit::Replace(c) }),
                    _ => Err(ActionError::Unrecognized),
                },
            }
        } else if mode == Mode::Normal && k == Key::Char('x') {
            Ok(Action::Edit { count: cnt, e: Edit::Delete(Move::Single(Direction::Right)) })
        } else if mode == Mode::Normal && (k == Key::Char('d') || k == Key::Char('c')) {
            match next {
                None => Err(ActionError::Incomplete),
                Some(n) => if n.key == k {
                    Ok(Action::Edit { count: cnt, e: if k == Key::Char('d') { Edit::DeleteLine } else { Edit::CutLine } })
                } else {
                    match move_from(n, key_at(keys, i + 2)) {
                        Ok(m) => Ok(Action::Edit { count: None, e: if k == Key::Char('d') { Edit::Delete(m) } else { Edit::Cut(m) } }),
                        Err(e) => Err(e),
                    }
                },
            }
        } else if mode == Mode::Normal && k == Key::Char('D') {
            Ok(Action::Edit { count: cnt, e: Edit::DeleteRestOfLine })
        } else if mode == Mode::Normal && k == Key::Char('u') {
            Ok(Action::Edit { count: cnt, e: Edit::Undo })
        } else if mode == Mode::Normal && k == Key::Char('r') {
            Ok(Action::Edit { count: cnt, e: Edit::Redo })
        } else if mode == Mode::Normal && k == Key::Char('i') {
            Ok(Action::SetMode { mode: Mode::Insert, delta: 0 })
        } else if mode == Mode::Normal && k == Key::Char('a') {
            Ok(Action::SetMode { mode: Mode::Insert, delta: 1 })
        } else if mode == Mode::Normal && k == Key::Char('o') {
            Ok(Action::Append { after: true })
        } else if mode == Mode::Normal && k == Key::Char('O') {
            Ok(Action::Append { after: false })
        } else if mode == Mode::Normal && k == Key::Char('v') {
            Ok(Action::SetMode { mode: Mode::Visual, delta: 0 })
        } else if mode == Mode::Normal && k == Key::Char('R') {
            Ok(Action::SetMode { mode: Mode::Replace, delta: 0 })
        } else if mode == Mode::Normal && k == Key::Char(':') {
            Ok(Action::SetMode { mode: Mode::Command, delta: 0 })
        } else if mode == Mode::Normal && k == Key::Char('/') {
            Ok(Action::OpenSearch)
        } else if mode == Mode::Normal || mode == Mode::Visual {
            match move_from(key, next) {
                Ok(m) => Ok(Action::Move { count: cnt, m }),
                Err(e) => Err(e),
            }
        } else {
            Err(ActionError::Unrecognized)
        }
    }
}

/// The movement `key` names, reading its second key from `keys[j]` when it needs one.
pub fn parse_move(key: KeyStroke, keys: &[KeyStroke], j: usize) -> (r: Result<Move, ActionError>)
    ensures
        r == move_from(key, key_at(keys@, j as int)),
{
    let k = key.key;
    let next = if j < keys.len() { Some(keys[j]) } else { None };
    match k {
        Key::Char('h') | Key::ArrowLeft | Key::Backspace => Ok(Move::Single(Direction::Left)),
        Key::Char('j') | Key::ArrowDown => Ok(Move::Single(Direction::Down)),
        Key::Char('k') | Key::ArrowUp => Ok(Move::Single(Direction::Up)),
        Key::Char('l') | Key::ArrowRight => Ok(Move::Single(Direction::Right)),
        Key::Char('w') => Ok(Move::NextWord),
        Key::Char('e') => Ok(Move::EndWord),
        Key::Char('b') => Ok(Move::PrevWord),
        Key::Char('0') => Ok(Move::LineStart),
        Key::Char('^') => Ok(Move::LineStartOfText),
        Key::Char('$') => Ok(Move::LineEnd),
        Key::Char('%') => Ok(Move::MatchingBracket),
        Key::Char('n') => Ok(Move::Result(ChangeDirection::Next)),
        Key::Char('N') => Ok(Move::Result(ChangeDirection::Prev)),
        Key::Char('G') => Ok(Move::FileEnd),
        Key::Char('g') => match next {
            None => Err(ActionError::Incomplete),
            Some(n) => match n.key {
                Key::Char('g') => Ok(Move::FileStart),
                Key::Char('d') => Ok(Move::GotoDefinition),
                _ => Err(ActionError::Unrecognized),
            },
        },
        Key::Char('f') => match next {
            None => Err(ActionError::Incomplete),
            Some(n) => match n.key {
                Key::Char(c) => Ok(Move::Char(c, ChangeDirection::Next)),
                _ => Err(ActionError::Unrecognized),
            },
        },
        Key::Char('F') => match next {
            None => Err(ActionError::Incomplete),
            Some(n) => match n.key {
                Key::Char(c) => Ok(Move::Char(c, ChangeDirection::Prev)),
                _ => Err(ActionError::Unrecognized),
            },
        },
        Key::Char('[') => match next {
            None => Err(ActionError::Incomplete),
            Some(n) => match n.key {
                Key::Char('c') => Ok(Move::Change(ChangeDirection::Prev)),
                Key::Char('g') => Ok(Move::Diagnostic(ChangeDirection::Prev)),
                _ => Err(ActionError::Unrecognized),
            },
        },
        Key::Char(']') => match next {
            None => Err(ActionError::Incomplete),
            Some(n) => match n.key {
                Key::Char('c') => Ok(Move::Change(ChangeDirection::Next)),
                Key::Char('g') => Ok(Move::Diagnostic(ChangeDirection::Next)),
                _ => Err(ActionError::Unrecognized),
            },
        },
        _ => Err(ActionError::Unrecognized),
    }
}

fn count_value(count: u32) -> (r: Option<u32>)
    ensures
        r == count_of(count),
{
    if count == 0 { None } else { Some(count) }
}

impl Action {
    /// The action that `input` names in `mode` (see `action_from`).
    pub fn from_input(mode: Mode, input: &[KeyStroke]) -> (r: Result<Action, ActionError>)
        requires
            mode == Mode::Normal ==> leading_count(input@, 0) <= u32::MAX,
        ensures
            r == action_from(mode, input@, 0, 0),
    {
        let mut count: u32 = 0;
        let mut i: usize = 0;
        while i < input.len()
            invariant
                0 <= i <= input@.len(),
                mode == Mode::Normal ==> count + leading_count(input@, i as int) == leading_count(input@, 0),
                mode == Mode::Normal ==> leading_count(input@, 0) <= u32::MAX,
                mode != Mode::Normal ==> count == 0,
                action_from(mode, input@, i as int, count) == action_from(mode, input@, 0, 0),
            decreases input@.len() - i,
        {
            let key = input[i];
            let k = key.key;
            let next = if i + 1 < input.len() { Some(input[i + 1]) } else { None };
            let ins_or_cmd = mode == Mode::Insert || mode == Mode::Command;
            if k.is_char('w') && key.control {
                return match next {
                    None => Err(ActionError::Incomplete),
                    Some(n) => match n.key {
                        Key::Char('h') => Ok(Action::Navigate { nav: Navigation::Direction(Direction::Left) }),
                        Key::Char('j') => Ok(Action::Navigate { nav: Navigation::Direction(Direction::Down) }),
                        Key::Char('k') => Ok(Action::Navigate { nav: Navigation::Direction(Direction::Up) }),
                        Key::Char('l') => Ok(Action::Navigate { nav: Navigation::Direction(Direction::Right) }),
                        Key::Char(c) => if '0' <= c && c <= '9' {
                            Ok(Action::Navigate { nav: Navigation::Tab((c as u32 - 48) as u8) })
                        } else {
                            Err(ActionError::Unrecognized)
                        },
                        _ => Err(ActionError::Unrecognized),
                    },
                };
            }
            if mode == Mode::Normal && k.is_char(' ') && !key.control {
                return match next {
                    None => Err(ActionError::Incomplete),
                    Some(n) => if n.key.is_char('s') {
                        Ok(Action::Navigate { nav: Navigation::OpenSearch })
                    } else {
                        Err(ActionError::Unrecognized)
                    },
                };
            }
            let cnt = count_value(count);
            match k {
                Key::Char(c) => {
                    if mode == Mode::Insert && c == ' ' && key.control {
                        return Ok(Action::Autocomplete);
                    }
                    if mode == Mode::Insert && key.control {
                        return Ok(Action::Control { char: c });
                    }
                    if ins_or_cmd {
                        return Ok(Action::Edit { count: cnt, e: Edit::Insert(c) });
                    }
                    if mode == Mode::Normal && '1' <= c && c <= '9' {
                        count = count + (c as u32 - 48);
                        i += 1;
                        continue;
                    }
                },
                Key::Backspace => {
                    if ins_or_cmd {
                        return Ok(Action::Edit { count: cnt, e: Edit::Backspace });
                    }
                },
                Key::Escape => {
                    if ins_or_cmd {
                        return Ok(Action::SetMode { mode: Mode::Normal, delta: -1 });
                    }
                    if mode == Mode::Visual {
                        return Ok(Action::SetMode { mode: Mode::Normal, delta: 0 });
                    }
                },
                Key::ArrowUp => {
                    if ins_or_cmd {
                        return Ok(Action::Move { count: cnt, m: Move::Single(Direction::Up) });
                    }
                },
                Key::ArrowDown => {
                    if ins_or_cmd {
                        return Ok(Action::Move { count: cnt, m: Move::Single(Direction::Down) });
                    }
                },
                Key::ArrowLeft => {
                    if ins_or_cmd {
                        return Ok(Action::Move { count: cnt, m: Move::Single(Direction::Left) });
                    }
                },
                Key::ArrowRight => {
                    if ins_or_cmd {
                        return Ok(Action::Move { count: cnt, m: Move::Single(Direction::Right) });
                    }
                },
                _ => {},
            }
            if mode == Mode::Normal {
                match k {
                    Key::Char('r') => {
                        if !key.control {
                            return match next {
                                None => Err(ActionError::Incomplete),
                                Some(n) => match n.key {
                                    Key::Char(c) => Ok(Action::Edit { count: cnt, e: Edit::Replace(c) }),
                                    _ => Err(ActionError::Unrecognized),
                                },
                            };
                        } else {
                            return Ok(Action::Edit { count: cnt, e: Edit::Redo });
                        }
                    },
                    Key::Char('x') => {
                        return Ok(Action::Edit { count: cnt, e: Edit::Delete(Move::Single(Direction::Right)) });
                    },
                    Key::Char('d') | Key::Char('c') => {
                        let is_d = k.is_char('d');
                        return match next {
                            None => Err(ActionError::Incomplete),
                            Some(n) => if n.key == k {
                                Ok(Action::Edit { count: cnt, e: if is_d { Edit::DeleteLine } else { Edit::CutLine } })
                            } else {
                                match parse_move(n, input, i + 2) {
                                    Ok(m) => Ok(Action::Edit { count: None, e: if is_d { Edit::Delete(m) } else { Edit::Cut(m) } }),
                                    Err(e) => Err(e),
                                }
                            },
                        };
                    },
                    Key::Char('D') => return Ok(Action::Edit { count: cnt, e: Edit::DeleteRestOfLine }),
                    Key::Char('u') => return Ok(Action::Edit { count: cnt, e: Edit::Undo }),
                    Key::Char('i') => return Ok(Action::SetMode { mode: Mode::Insert, delta: 0 }),
                    Key::Char('a') => return Ok(Action::SetMode { mode: Mode::Insert, delta: 1 }),
                    Key::Char('o') => return Ok(Action::Append { after: true }),
                    Key::Char('O') => return Ok(Action::Append { after: false }),
                    Key::Char('v') => return Ok(Action::SetMode { mode: Mode::Visual, delta: 0 }),
                    Key::Char('R') => return Ok(Action::SetMode { mode: Mode::Replace, delta: 0 }),
                    Key::Char(':') => return Ok(Action::SetMode { mode: Mode::Command, delta: 0 }),
                    Key::Char('/') => return Ok(Action::OpenSearch),
                    _ => {},
                }
            }
            if mode == Mode::Normal || mode == Mode::Visual {
                return match parse_move(key, input, i + 1) {
                    Ok(m) => Ok(Action::Move { count: cnt, m }),
                    Err(e) => Err(e),
                };
            }
            return Err(ActionError::Unrecognized);
        }
        Err(ActionError::Incomplete)
    }
}

/// A movement that is complete or rejected with `next` stays so whatever
/// `other` is, as long as `other` is `next` wherever `next` is a key.
proof fn lemma_move_from_extends(key: KeyStroke, next: Option<KeyStroke>, other: Option<KeyStroke>)
    requires
        move_from(key, next) != Err::<Move, ActionError>(ActionError::Incomplete),
        next is Some ==> other == next,
    ensures
        move_from(key, other) == move_from(key, next),
{
}

proof fn lemma_action_from_extends(
    mode: Mode,
    keys: Seq<KeyStroke>,
    extra: Seq<KeyStroke>,
    i: int,
    count: u32,
)
    requires
        0 <= i,
        action_from(mode, keys, i, count) != Err::<Action, ActionError>(ActionError::Incomplete),
    ensures
        action_from(mode, keys + extra, i, count) == action_from(mode, keys, i, count),
    decreases keys.len() - i,
{
    let all = keys + extra;
    assert(i < keys.len());
    assert(all[i] == keys[i]);
    assert(key_at(keys, i + 1) is Some ==> key_at(all, i + 1) == key_at(keys, i + 1));
    assert(key_at(keys, i + 2) is Some ==> key_at(all, i + 2) == key_at(keys, i + 2));
    let key = keys[i];
    let k = key.key;
    if mode == Mode::Normal && digit_key(k, '1', '9') && !(k == Key::Char('w') && key.control) {
        let c2 = (count + ((k->Char_0 as u32) - 48)) as u32;
        lemma_action_from_extends(mode, keys, extra, i + 1, c2);
    } else {
        if move_from(key, key_at(keys, i + 1)) != Err::<Move, ActionError>(ActionError::Incomplete) {
            lemma_move_from_extends(key, key_at(keys, i + 1), key_at(all, i + 1));
        }
        if key_at(keys, i + 1) is Some {
            let n = key_at(keys, i + 1)->0;
            if move_from(n, key_at(keys, i + 2)) != Err::<Move, ActionError>(ActionError::Incomplete) {
                lemma_move_from_extends(n, key_at(keys, i + 2), key_at(all, i + 2));
            }
        }
    }
}

/// Keys typed after a complete or rejected command are never read: when the
/// keystrokes `keys` name an action or are rejected, `keys` followed by any
/// `extra` keystrokes give the same answer.
pub proof fn lemma_action_ignores_rest(mode: Mode, keys: Seq<KeyStroke>, extra: Seq<KeyStroke>)
    requires
        action_from(mode, keys, 0, 0) != Err::<Action, ActionError>(ActionError::Incomplete),
    ensures
        action_from(mode, keys + extra, 0, 0) == action_from(mode, keys, 0, 0),
{
    lemma_action_from_extends(mode, keys, extra, 0, 0);
}

/// The edit that the single normal-mode key `key` names on its own, by the
/// key table of normal mode: `u` undoes, Ctrl-r redoes, `x` deletes the
/// character to the right, `D` deletes the rest of the line.
pub open spec fn one_key_edit(key: KeyStroke) -> Option<Edit> {
    if key.key == Key::Char('u') {
        Some(Edit::Undo)
    } else if key.key == Key::Char('r') && key.control {
        Some(Edit::Redo)
    } else if key.key == Key::Char('x') {
        Some(Edit::Delete(Move::Single(Direction::Right)))
    } else if key.key == Key::Char('D') {
        Some(Edit::DeleteRestOfLine)
    } else {
        None
    }
}

proof fn lemma_counted_edit_from(keys: Seq<KeyStroke>, i: int, p: int, count: u32, e: Edit)
    requires
        0 <= i <= p < keys.len(),
        forall|j: int| i <= j < p ==> digit_key(#[trigger] keys[j].key, '1', '9'),
        one_key_edit(keys[p]) == Some(e),
        count + leading_count(keys, i) <= u32::MAX,
    ensures
        action_from(Mode::Normal, keys, i, count) == Ok::<Action, ActionError>(
            Action::Edit { count: count_of((count + leading_count(keys, i)) as u32), e },
        ),
    decreases p - i,
{
    if i < p {
        let k = keys[i].key;
        assert(digit_key(k, '1', '9'));
        let c2 = (count + ((k->Char_0 as u32) - 48)) as u32;
        lemma_counted_edit_from(keys, i + 1, p, c2, e);
    } else {
        assert(!digit_key(keys[p].key, '1', '9'));
        assert(leading_count(keys, i) == 0);
    }
}

/// In normal mode, a count (digits 1-9, summed) followed by `u` undoes,
/// by Ctrl-r redoes, by `x` deletes the character to the right and by `D`
/// deletes the rest of the line, as many times as the count says (no count
/// when there are no digits); what follows is not read.
pub proof fn lemma_one_key_edits(digits: Seq<KeyStroke>, key: KeyStroke, rest: Seq<KeyStroke>)
    requires
        forall|j: int| 0 <= j < digits.len() ==> digit_key(#[trigger] digits[j].key, '1', '9'),
        leading_count(digits, 0) <= u32::MAX,
        one_key_edit(key) is Some,
    ensures
        action_from(Mode::Normal, digits + seq![key] + rest, 0, 0) == Ok::<Action, ActionError>(
            Action::Edit {
                count: if digits.len() == 0 { None } else { Some(leading_count(digits, 0) as u32) },
                e: one_key_edit(key)->0,
            },
        ),
        key.key == Key::Char('u') ==> one_key_edit(key) == Some(Edit::Undo),
        one_key_edit(key) == Some(Edit::Redo) ==> key.key == Key::Char('r') && key.control,
{
    let keys = digits + seq![key] + rest;
    let p = digits.len() as int;
    assert(keys[p] == key);
    assert forall|j: int| 0 <= j < p implies digit_key(#[trigger] keys[j].key, '1', '9') by {
        assert(keys[j] == digits[j]);
    }
    lemma_leading_count_prefix(digits, key, rest, 0);
    lemma_counted_edit_from(keys, 0, p, 0, one_key_edit(key)->0);
    lemma_leading_count_positive(digits, 0);
}

proof fn lemma_leading_count_prefix(digits: Seq<KeyStroke>, key: KeyStroke, rest: Seq<KeyStroke>, i: int)
    requires
        0 <= i <= digits.len(),
        forall|j: int| 0 <= j < digits.len() ==> digit_key(#[trigger] digits[j].key, '1', '9'),
        !digit_key(key.key, '1', '9'),
    ensures
        leading_count(digits + seq![key] + rest, i) == leading_count(digits, i),
    decreases digits.len() - i,
{
    let keys = digits + seq![key] + rest;
    if i < digits.len() {
        assert(keys[i] == digits[i]);
        lemma_leading_count_prefix(digits, key, rest, i + 1);
    } else {
        assert(keys[i] == key);
    }
}

proof fn lemma_leading_count_positive(digits: Seq<KeyStroke>, i: int)
    requires
        0 <= i <= digits.len(),
        forall|j: int| 0 <= j < digits.len() ==> digit_key(#[trigger] digits[j].key, '1', '9'),
    ensures
        i < digits.len() ==> leading_count(digits, i) > 0,
{
    if i < digits.len() {
        assert(digit_key(digits[i].key, '1', '9'));
    }
}

/// What the first keystroke `key` names, whatever follows it:
/// - in normal mode, `i` and `a` enter insert mode (before and after the
///   cursor), `o` and `O` open a line below and above, `v`, `R` and `:` enter
///   visual, replace and command mode, `/` opens the search;
/// - in normal and visual mode, `h`, `j`, `k`, `l` move one step left,
///   down, up, right, with no count;
/// - in insert and command mode, a plain character is inserted, Backspace
///   deletes backwards, the arrows move one step, Escape goes back to normal
///   mode (one column back); in visual mode Escape goes back to normal mode;
/// - in replace mode nothing but the Ctrl-w window commands is accepted;
/// - in every mode Ctrl-w followed by `h`, `j`, `k`, `l` moves to the pane
///   that way and followed by a digit to that tab, and waits on its own.
pub proof fn lemma_first_key_actions(mode: Mode, key: KeyStroke, rest: Seq<KeyStroke>)
    ensures
        ({
            let r = action_from(mode, seq![key] + rest, 0, 0);
            let k = key.key;
            let ctrl_w = k == Key::Char('w') && key.control;
            &&& mode == Mode::Normal && k == Key::Char('i') ==> r == Ok::<Action, ActionError>(
                Action::SetMode { mode: Mode::Insert, delta: 0 },
            )
            &&& mode == Mode::Normal && k == Key::Char('a') ==> r == Ok::<Action, ActionError>(
                Action::SetMode { mode: Mode::Insert, delta: 1 },
            )
            &&& mode == Mode::Normal && k == Key::Char('o') ==> r == Ok::<Action, ActionError>(
                Action::Append { after: true },
            )
            &&& mode == Mode::Normal && k == Key::Char('O') ==> r == Ok::<Action, ActionError>(
                Action::Append { after: false },
            )
            &&& mode == Mode::Normal && k == Key::Char('v') ==> r == Ok::<Action, ActionError>(
                Action::SetMode { mode: Mode::Visual, delta: 0 },
            )
            &&& mode == Mode::Normal && k == Key::Char('R') ==> r == Ok::<Action, ActionError>(
                Action::SetMode { mode: Mode::Replace, delta: 0 },
            )
            &&& mode == Mode::Normal && k == Key::Char(':') ==> r == Ok::<Action, ActionError>(
                Action::SetMode { mode: Mode::Command, delta: 0 },
            )
            &&& mode == Mode::Normal && k == Key::Char('/') ==> r == Ok::<Action, ActionError>(
                Action::OpenSearch,
            )
            &&& (mode == Mode::Normal || mode == Mode::Visual) && k == Key::Char('h')
                ==> r == Ok::<Action, ActionError>(Action::Move { count: None, m: Move::Single(Direction::Left) })
            &&& (mode == Mode::Normal || mode == Mode::Visual) && k == Key::Char('j')
                ==> r == Ok::<Action, ActionError>(Action::Move { count: None, m: Move::Single(Direction::Down) })
            &&& (mode == Mode::Normal || mode == Mode::Visual) && k == Key::Char('k')
                ==> r == Ok::<Action, ActionError>(Action::Move { count: None, m: Move::Single(Direction::Up) })
            &&& (mode == Mode::Normal || mode == Mode::Visual) && k == Key::Char('l')
                ==> r == Ok::<Action, ActionError>(Action::Move { count: None, m: Move::Single(Direction::Right) })
            &&& (mode == Mode::Insert || mode == Mode::Command) && k is Char && !key.control
                ==> r == Ok::<Action, ActionError>(Action::Edit { count: None, e: Edit::Insert(k->Char_0) })
            &&& (mode == Mode::Insert || mode == Mode::Command) && k == Key::Backspace
                ==> r == Ok::<Action, ActionError>(Action::Edit { count: None, e: Edit::Backspace })
            &&& (mode == Mode::Insert || mode == Mode::Command) && k == Key::Escape
                ==> r == Ok::<Action, ActionError>(Action::SetMode { mode: Mode::Normal, delta: -1i32 })
            &&& (mode == Mode::Insert || mode == Mode::Command) && k == Key::ArrowUp
                ==> r == Ok::<Action, ActionError>(Action::Move { count: None, m: Move::Single(Direction::Up) })
            &&& (mode == Mode::Insert || mode == Mode::Command) && k == Key::ArrowDown
                ==> r == Ok::<Action, ActionError>(Action::Move { count: None, m: Move::Single(Direction::Down) })
            &&& (mode == Mode::Insert || mode == Mode::Command) && k == Key::ArrowLeft
                ==> r == Ok::<Action, ActionError>(Action::Move { count: None, m: Move::Single(Direction::Left) })
            &&& (mode == Mode::Insert || mode == Mode::Command) && k == Key::ArrowRight
                ==> r == Ok::<Action, ActionError>(Action::Move { count: None, m: Move::Single(Direction::Right) })
            &&& mode == Mode::Visual && k == Key::Escape ==> r == Ok::<Action, ActionError>(
                Action::SetMode { mode: Mode::Normal, delta: 0 },
            )
            &&& mode == Mode::Replace && !ctrl_w ==> r == Err::<Action, ActionError>(ActionError::Unrecognized)
            &&& ctrl_w && rest.len() == 0 ==> r == Err::<Action, ActionError>(ActionError::Incomplete)
            &&& ctrl_w && rest.len() > 0 && rest[0].key == Key::Char('h') ==> r == Ok::<Action, ActionError>(
                Action::Navigate { nav: Navigation::Direction(Direction::Left) },
            )
            &&& ctrl_w && rest.len() > 0 && rest[0].key == Key::Char('j') ==> r == Ok::<Action, ActionError>(
                Action::Navigate { nav: Navigation::Direction(Direction::Down) },
            )
            &&& ctrl_w && rest.len() > 0 && rest[0].key == Key::Char('k') ==> r == Ok::<Action, ActionError>(
                Action::Navigate { nav: Navigation::Direction(Direction::Up) },
            )
            &&& ctrl_w && rest.len() > 0 && rest[0].key == Key::Char('l') ==> r == Ok::<Action, ActionError>(
                Action::Navigate { nav: Navigation::Direction(Direction::Right) },
            )
            &&& ctrl_w && rest.len() > 0 && digit_key(rest[0].key, '0', '9') ==> (r matches Ok(
                Action::Navigate { nav: Navigation::Tab(t) },
            ) && t as int == (rest[0].key->Char_0 as int) - 48)
        }),
{
    let keys = seq![key] + rest;
    assert(keys[0] == key);
    assert(rest.len() > 0 ==> keys[1] == rest[0]);
}

} // verus!
