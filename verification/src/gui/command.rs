//! The command line: a line of text edited a grapheme cluster at a time,
//! run when Enter is pressed.
use vstd::prelude::*;

use unicode_segmentation::UnicodeSegmentation;

use crate::input::action::{Action, Direction, Edit, Move};

verus! {

/// The extended grapheme clusters of `s`, in order, as
/// `unicode_segmentation` finds them.
pub uninterp spec fn graphemes_of(s: Seq<char>) -> Seq<Seq<char>>;

/// The extended grapheme clusters of `s`
/// (`UnicodeSegmentation::graphemes(s, true)`), each as its own string. The
/// iterator yields consecutive slices of `s` from its start to its end, so
/// the clusters, put end to end, give back `s`.
#[verifier::external_body]
fn graphemes(s: &str) -> (r: Vec<String>)
    ensures
        r.deep_view() == graphemes_of(s@),
        r.deep_view().flatten() == s@,
{
    s.graphemes(true).map(|g| g.to_string()).collect()
}

/// The number of characters in the first `k` clusters of `s` (all of them
/// when there are fewer).
pub open spec fn head_len(s: Seq<char>, k: nat) -> nat {
    let gs = graphemes_of(s);
    if k <= gs.len() {
        gs.take(k as int).flatten().len()
    } else {
        gs.flatten().len()
    }
}

/// The number of characters in the last `k` clusters of `s` (all of them
/// when there are fewer).
pub open spec fn tail_len(s: Seq<char>, k: nat) -> nat {
    let gs = graphemes_of(s);
    if k <= gs.len() {
        gs.skip(gs.len() - k).flatten().len()
    } else {
        gs.flatten().len()
    }
}

/// The cursor `dist` clusters to the right of `cursor` (to the left when
/// `dist` is negative), stopping at the ends.
pub open spec fn moved(command: Seq<char>, cursor: nat, dist: int) -> nat {
    if dist >= 0 {
        cursor + head_len(command.skip(cursor as int), dist as nat)
    } else {
        (cursor - tail_len(command.take(cursor as int), (-dist) as nat)) as nat
    }
}

/// `command` without the first `k` clusters after `cursor`.
pub open spec fn deleted(command: Seq<char>, cursor: nat, k: nat) -> Seq<char> {
    command.take(cursor as int) + command.skip((cursor + head_len(command.skip(cursor as int), k)) as int)
}

/// What the command line looks like: its text, and the cursor as the number
/// of characters before it.
pub struct CommandLine {
    pub command: Seq<char>,
    pub cursor: nat,
}

/// The command line after `action`.
pub open spec fn after_action(s: CommandLine, action: Action) -> CommandLine {
    match action {
        Action::Move { m: Move::Single(Direction::Left), .. } => CommandLine {
            cursor: moved(s.command, s.cursor, -1),
            ..s
        },
        Action::Move { m: Move::Single(Direction::Right), .. } => CommandLine {
            cursor: moved(s.command, s.cursor, 1),
            ..s
        },
        Action::Edit { e: Edit::Insert(c), .. } => if c == '\n' {
            s
        } else {
            let command = s.command.insert(s.cursor as int, c);
            CommandLine { command, cursor: moved(command, s.cursor, 1) }
        },
        Action::Edit { e: Edit::Delete(Move::Single(Direction::Right)), .. } => CommandLine {
            command: deleted(s.command, s.cursor, 1),
            ..s
        },
        Action::Edit { e: Edit::Backspace, .. } => if s.cursor > 0 {
            let cursor = moved(s.command, s.cursor, -1);
            CommandLine { command: deleted(s.command, cursor, 1), cursor }
        } else {
            s
        },
        _ => s,
    }
}

/// The command `action` runs: the text of the line, when it is Enter.
pub open spec fn run_by(s: CommandLine, action: Action) -> Option<Seq<char>> {
    match action {
        Action::Edit { e: Edit::Insert(c), .. } => if c == '\n' {
            Some(s.command)
        } else {
            None
        },
        _ => None,
    }
}

proof fn lemma_flatten_split(gs: Seq<Seq<char>>, k: int)
    requires
        0 <= k <= gs.len(),
    ensures
        gs.flatten() == gs.take(k).flatten() + gs.skip(k).flatten(),
    decreases k,
{
    if k == 0 {
        assert(gs.take(0) =~= Seq::<Seq<char>>::empty());
        assert(gs.skip(0) =~= gs);
        assert(gs.take(0).flatten() + gs.skip(0).flatten() =~= gs.skip(0).flatten());
    } else {
        let t = gs.drop_first();
        lemma_flatten_split(t, k - 1);
        assert(gs.take(k).drop_first() =~= t.take(k - 1));
        assert(gs.skip(k) =~= t.skip(k - 1));
        assert(gs.take(k).first() == gs.first());
        assert(gs.take(k).flatten() == gs.first() + t.take(k - 1).flatten());
        assert(gs.flatten() == gs.first() + t.flatten());
        assert(gs.first() + (t.take(k - 1).flatten() + t.skip(k - 1).flatten()) =~= (gs.first()
            + t.take(k - 1).flatten()) + t.skip(k - 1).flatten());
    }
}

/// The characters of `v` from `at` on.
fn chars_after(v: &Vec<char>, at: usize) -> (r: Vec<char>)
    requires
        at <= v@.len(),
    ensures
        r@ == v@.skip(at as int),
{
    let mut r: Vec<char> = Vec::new();
    let mut j = at;
    while j < v.len()
        invariant
            at <= j <= v@.len(),
            r@ == v@.subrange(at as int, j as int),
        decreases v@.len() - j,
    {
        r.push(v[j]);
        j += 1;
        assert(r@ =~= v@.subrange(at as int, j as int));
    }
    r
}

/// The characters of `v` before `at`.
fn chars_before(v: &Vec<char>, at: usize) -> (r: Vec<char>)
    requires
        at <= v@.len(),
    ensures
        r@ == v@.take(at as int),
{
    let mut r: Vec<char> = Vec::new();
    let mut j: usize = 0;
    while j < at
        invariant
            at <= v@.len(),
            j <= at,
            r@ == v@.take(j as int),
        decreases at - j,
    {
        r.push(v[j]);
        j += 1;
        assert(r@ =~= v@.take(j as int));
    }
    r
}

/// The command line of the window.
pub struct CommandView {
    command: Vec<char>,
    cursor: usize,
}

impl View for CommandView {
    type V = CommandLine;

    closed spec fn view(&self) -> CommandLine {
        CommandLine { command: self.command@, cursor: self.cursor as nat }
    }
}

impl CommandView {
    /// The cursor stands between characters of the line.
    pub closed spec fn wf(&self) -> bool {
        self.cursor <= self.command@.len()
    }

    /// An empty command line.
    pub fn new() -> (r: Self)
        ensures
            r.wf(),
            r@.command == Seq::<char>::empty(),
            r@.cursor == 0,
    {
        CommandView { command: Vec::new(), cursor: 0 }
    }

    /// Lays the view out; the command line has nothing to lay out.
    pub fn layout(&mut self)
        ensures
            *final(self) == *old(self),
    {
    }

    /// The text of the line.
    pub fn command(&self) -> (r: String)
        ensures
            r@ == self@.command,
    {
        crate::text::string_from_chars(&self.command)
    }

    /// The number of characters in the line.
    pub fn len(&self) -> (r: usize)
        ensures
            r == self@.command.len(),
    {
        self.command.len()
    }

    /// The number of characters before the cursor.
    pub fn cursor(&self) -> (r: usize)
        ensures
            r == self@.cursor,
    {
        self.cursor
    }

    /// The number of UTF-8 bytes before the cursor.
    pub fn cursor_byte(&self) -> (r: usize)
        requires
            self.wf(),
            crate::lsp::position::utf8_len(self@.command) <= usize::MAX,
        ensures
            r == crate::lsp::position::utf8_len(self@.command.take(self@.cursor as int)),
    {
        let mut i: usize = 0;
        let mut bytes: usize = 0;
        proof {
            crate::lsp::position::lemma_utf8_len_prefix(self.command@, self.cursor as int);
            assert(self.command@.take(0) =~= Seq::<char>::empty());
        }
        while i < self.cursor
            invariant
                self.cursor <= self.command@.len(),
                0 <= i <= self.cursor,
                bytes == crate::lsp::position::utf8_len(self.command@.take(i as int)),
                crate::lsp::position::utf8_len(self.command@.take(self.cursor as int)) <= usize::MAX,
            decreases self.cursor - i,
        {
            proof {
                assert(self.command@.take(i + 1).drop_last() =~= self.command@.take(i as int));
                assert(self.command@.take(self.cursor as int).take(i + 1) =~= self.command@.take(i + 1));
                crate::lsp::position::lemma_utf8_len_prefix(self.command@.take(self.cursor as int), i + 1);
            }
            bytes = bytes + crate::text::char_utf8_len(self.command[i]);
            i += 1;
        }
        bytes
    }

    /// Does what `action` asks of the command line, and gives the command to
    /// run when it is Enter.
    pub fn perform_action(&mut self, action: Action) -> (r: Option<String>)
        requires
            old(self).wf(),
        ensures
            final(self).wf(),
            final(self)@ == after_action(old(self)@, action),
            match r {
                Some(s) => run_by(old(self)@, action) == Some(s@),
                None => run_by(old(self)@, action) is None,
            },
    {
        match action {
            Action::Move { m: Move::Single(Direction::Left), .. } => {
                self.move_cursor(-1);
                None
            },
            Action::Move { m: Move::Single(Direction::Right), .. } => {
                self.move_cursor(1);
                None
            },
            Action::Edit { e: Edit::Insert(c), .. } => {
                if c == '\n' {
                    Some(self.command())
                } else {
                    self.command.insert(self.cursor, c);
                    self.move_cursor(1);
                    None
                }
            },
            Action::Edit { e: Edit::Delete(Move::Single(Direction::Right)), .. } => {
                self.delete_graphemes(1);
                None
            },
            Action::Edit { e: Edit::Backspace, .. } => {
                if self.cursor > 0 {
                    self.move_cursor(-1);
                    self.delete_graphemes(1);
                }
                None
            },
            _ => None,
        }
    }

    /// Moves the cursor over `dist` clusters, to the right when `dist` is
    /// positive, to the left when it is negative.
    fn move_cursor(&mut self, dist: i32)
        requires
            old(self).wf(),
        ensures
            final(self).wf(),
            final(self).command@ == old(self).command@,
            final(self).cursor == moved(old(self).command@, old(self).cursor as nat, dist as int),
    {
        // The length, a `usize`, bounds every count of characters below.
        let _len = self.command.len();
        if dist >= 0 {
            let rest = crate::text::string_from_chars(&chars_after(&self.command, self.cursor));
            let gs = graphemes(rest.as_str());
            let ghost s = self.command@.skip(self.cursor as int);
            let k = if (dist as usize) < gs.len() { dist as usize } else { gs.len() };
            let ghost g = gs.deep_view();
            let mut i: usize = 0;
            let mut moved_by: usize = 0;
            proof {
                lemma_flatten_split(g, k as int);
                assert(g.take(0) =~= Seq::<Seq<char>>::empty());
            }
            while i < k
                invariant
                    g == gs.deep_view(),
                    g == graphemes_of(s),
                    g.flatten() == s,
                    0 <= i <= k <= g.len(),
                    moved_by == g.take(i as int).flatten().len(),
                    g.take(k as int).flatten().len() <= s.len(),
                    s.len() + old(self).cursor <= old(self).command@.len(),
                    old(self).command@.len() <= usize::MAX,
                    self.command@ == old(self).command@,
                    self.cursor == old(self).cursor,
                decreases k - i,
            {
                let n = crate::text::chars_of(gs[i].as_str()).len();
                proof {
                    assert(gs.deep_view()[i as int] == gs@[i as int]@);
                    lemma_flatten_split(g.take(i + 1), i as int);
                    assert(g.take(i + 1).take(i as int) =~= g.take(i as int));
                    assert(g.take(i + 1).skip(i as int) =~= seq![g[i as int]]);
                    assert(seq![g[i as int]].flatten() =~= g[i as int]) by {
                        reveal_with_fuel(Seq::flatten, 2);
                    }
                    lemma_flatten_split(g.take(k as int), i + 1);
                    assert(g.take(k as int).take(i + 1) =~= g.take(i + 1));
                }
                moved_by = moved_by + n;
                i += 1;
            }
            self.cursor = self.cursor + moved_by;
        } else {
            let before = crate::text::string_from_chars(&chars_before(&self.command, self.cursor));
            let gs = graphemes(before.as_str());
            let ghost s = self.command@.take(self.cursor as int);
            let want: u64 = if dist == i32::MIN { 0x8000_0000 } else { (-dist) as u64 };
            let k = if want < gs.len() as u64 { want as usize } else { gs.len() };
            let ghost g = gs.deep_view();
            let start = gs.len() - k;
            let mut i: usize = start;
            let mut moved_by: usize = 0;
            proof {
                lemma_flatten_split(g, start as int);
                assert(g.skip(start as int).take(0) =~= Seq::<Seq<char>>::empty());
            }
            while i < gs.len()
                invariant
                    g == gs.deep_view(),
                    g == graphemes_of(s),
                    g.flatten() == s,
                    s.len() == old(self).cursor,
                    0 <= start <= i <= g.len(),
                    moved_by == g.skip(start as int).take(i - start).flatten().len(),
                    g.skip(start as int).flatten().len() <= s.len(),
                    self.command@ == old(self).command@,
                    self.cursor == old(self).cursor,
                decreases g.len() - i,
            {
                let n = crate::text::chars_of(gs[i].as_str()).len();
                proof {
                    let h = g.skip(start as int);
                    let j = (i - start) as int;
                    assert(gs.deep_view()[i as int] == gs@[i as int]@);
                    assert(h[j] == g[i as int]);
                    lemma_flatten_split(h.take(j + 1), j);
                    assert(h.take(j + 1).take(j) =~= h.take(j));
                    assert(h.take(j + 1).skip(j) =~= seq![h[j]]);
                    assert(seq![h[j]].flatten() =~= h[j]) by {
                        reveal_with_fuel(Seq::flatten, 2);
                    }
                    lemma_flatten_split(h, j + 1);
                }
                moved_by = moved_by + n;
                i += 1;
            }
            proof {
                assert(g.skip(start as int).take(g.len() - start) =~= g.skip(start as int));
            }
            self.cursor = self.cursor - moved_by;
        }
    }

    /// Deletes the `len` clusters after the cursor.
    fn delete_graphemes(&mut self, len: usize)
        requires
            old(self).wf(),
        ensures
            final(self).wf(),
            final(self).cursor == old(self).cursor,
            final(self).command@ == deleted(old(self).command@, old(self).cursor as nat, len as nat),
    {
        // The length, a `usize`, bounds every count of characters below.
        let _len = self.command.len();
        let rest = crate::text::string_from_chars(&chars_after(&self.command, self.cursor));
        let gs = graphemes(rest.as_str());
        let ghost s = self.command@.skip(self.cursor as int);
        let k = if len < gs.len() { len } else { gs.len() };
        let ghost g = gs.deep_view();
        let mut i: usize = 0;
        let mut count: usize = 0;
        proof {
            lemma_flatten_split(g, k as int);
            assert(g.take(0) =~= Seq::<Seq<char>>::empty());
        }
        while i < k
            invariant
                g == gs.deep_view(),
                g == graphemes_of(s),
                g.flatten() == s,
                0 <= i <= k <= g.len(),
                count == g.take(i as int).flatten().len(),
                g.take(k as int).flatten().len() <= s.len(),
                s.len() + self.cursor <= self.command@.len(),
                self.command@.len() <= usize::MAX,
                self.command@ == old(self).command@,
                self.cursor == old(self).cursor,
            decreases k - i,
        {
            let n = crate::text::chars_of(gs[i].as_str()).len();
            proof {
                assert(gs.deep_view()[i as int] == gs@[i as int]@);
                lemma_flatten_split(g.take(i + 1), i as int);
                assert(g.take(i + 1).take(i as int) =~= g.take(i as int));
                assert(g.take(i + 1).skip(i as int) =~= seq![g[i as int]]);
                assert(seq![g[i as int]].flatten() =~= g[i as int]) by {
                    reveal_with_fuel(Seq::flatten, 2);
                }
                lemma_flatten_split(g.take(k as int), i + 1);
                assert(g.take(k as int).take(i + 1) =~= g.take(i + 1));
                assert(n == g[i as int].len());
                assert(count + n == g.take(i + 1).flatten().len());
                assert(g.take(i + 1).flatten().len() <= g.take(k as int).flatten().len());
            }
            count = count + n;
            i += 1;
        }
        let end = self.cursor + count;
        let mut out: Vec<char> = Vec::new();
        let mut j: usize = 0;
        while j < self.cursor
            invariant
                self.cursor <= self.command@.len(),
                0 <= j <= self.cursor,
                out@ == self.command@.take(j as int),
            decreases self.cursor - j,
        {
            out.push(self.command[j]);
            j += 1;
            assert(out@ =~= self.command@.take(j as int));
        }
        let mut j: usize = end;
        let ghost head = out@;
        while j < self.command.len()
            invariant
                end <= j <= self.command@.len(),
                out@ == head + self.command@.subrange(end as int, j as int),
            decreases self.command@.len() - j,
        {
            out.push(self.command[j]);
            j += 1;
            assert(out@ =~= head + self.command@.subrange(end as int, j as int));
        }
        assert(out@ =~= self.command@.take(self.cursor as int) + self.command@.skip(end as int));
        self.command = out;
    }
}

} // verus!
