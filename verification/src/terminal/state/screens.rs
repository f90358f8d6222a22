//! The main and the alternate screen across everything the program running
//! in the terminal sends.
use vstd::prelude::*;

use crate::terminal::state::control::{
    csi_effect, csi_plain_effect, esc_effect, execute_effect, modes_effect, osc_effect, print_effect,
    private_modes_effect,
};
use crate::terminal::state::{alt_screen_effect, blank_grid, lemma_alt_screen_restores, mode_effect, private_mode_effect, TermView};
use crate::terminal::style::{default_cursor, default_style};

verus! {

/// One thing the program running in the terminal sends it: a character to
/// print, a C0 control, or an ESC, CSI or OSC sequence (parameters,
/// intermediates, final byte).
pub enum TermEvent {
    Print(char),
    Execute(u8),
    Esc(Seq<u8>, u8),
    Csi(Seq<Seq<u16>>, Seq<u8>, u8),
    Osc(Seq<Seq<u8>>),
}

/// What the terminal does with `e`: what `print`, `execute`, `esc_dispatch`,
/// `csi_dispatch` and `osc_dispatch` ensure.
pub open spec fn event_effect(v: TermView, e: TermEvent) -> TermView {
    match e {
        TermEvent::Print(c) => print_effect(v, c),
        TermEvent::Execute(b) => execute_effect(v, b),
        TermEvent::Esc(inter, byte) => esc_effect(v, inter, byte),
        TermEvent::Csi(ps, inter, action) => csi_effect(v, ps, inter, action),
        TermEvent::Osc(ps) => osc_effect(v, ps),
    }
}

/// The terminal after `events`, in order.
pub open spec fn run_events(v: TermView, events: Seq<TermEvent>) -> TermView
    decreases events.len(),
{
    if events.len() == 0 {
        v
    } else {
        run_events(event_effect(v, events[0]), events.drop_first())
    }
}

/// Whether some parameter from `k` on names the alternate screen (1049).
pub open spec fn names_alt_screen(ps: Seq<Seq<u16>>, k: int) -> bool {
    exists|j: int| k <= j < ps.len() && 0 <= j && (#[trigger] ps[j])[0] == 1049
}

/// Whether `e` switches between the screens: a `CSI ? ... h` or `CSI ? ... l`
/// that names mode 1049.
pub open spec fn switches_screen(e: TermEvent) -> bool {
    match e {
        TermEvent::Csi(ps, inter, action) => {
            &&& inter =~= seq![0x3fu8]
            &&& action == 0x68 || action == 0x6c
            &&& names_alt_screen(ps, 0)
        },
        _ => false,
    }
}

/// The sequence `CSI ? 1049 h` (`set`) or `CSI ? 1049 l`.
pub open spec fn alt_screen_sequence(set: bool) -> TermEvent {
    TermEvent::Csi(seq![seq![1049u16]], seq![0x3fu8], if set { 0x68u8 } else { 0x6cu8 })
}

/// The screen kept aside and the cursor kept with it, and which screen is shown.
pub open spec fn aside(v: TermView) -> (Seq<Seq<crate::terminal::grid::Cell>>, crate::terminal::style::Cursor, bool) {
    (v.alt_grid, v.alt_cursor, v.alt_screen)
}

proof fn lemma_private_modes_keep_aside(v: TermView, ps: Seq<Seq<u16>>, k: int, set: bool)
    requires
        !names_alt_screen(ps, k),
    ensures
        aside(private_modes_effect(v, ps, k, set)) == aside(v),
    decreases ps.len() - k,
{
    if 0 <= k < ps.len() {
        assert(ps[k][0] != 1049);
        assert(aside(private_mode_effect(v, ps[k][0], set)) == aside(v));
        assert(!names_alt_screen(ps, k + 1));
        lemma_private_modes_keep_aside(private_mode_effect(v, ps[k][0], set), ps, k + 1, set);
    }
}

proof fn lemma_modes_keep_aside(v: TermView, ps: Seq<Seq<u16>>, k: int, set: bool)
    ensures
        aside(modes_effect(v, ps, k, set)) == aside(v),
    decreases ps.len() - k,
{
    if 0 <= k < ps.len() {
        assert(aside(mode_effect(v, ps[k][0], set)) == aside(v));
        lemma_modes_keep_aside(mode_effect(v, ps[k][0], set), ps, k + 1, set);
    }
}

proof fn lemma_csi_keeps_aside(v: TermView, ps: Seq<Seq<u16>>, inter: Seq<u8>, action: u8)
    requires
        !switches_screen(TermEvent::Csi(ps, inter, action)),
    ensures
        aside(csi_effect(v, ps, inter, action)) == aside(v),
{
    if action == 0x63 {
    } else if inter.len() == 0 {
        if action == 0x68 || action == 0x6c {
            lemma_modes_keep_aside(v, ps, 0, action == 0x68);
        }
        assert(aside(csi_plain_effect(v, ps, action)) == aside(v));
    } else if inter =~= seq![0x3fu8] {
        if action == 0x68 || action == 0x6c {
            lemma_private_modes_keep_aside(v, ps, 0, action == 0x68);
        }
    }
}

proof fn lemma_event_keeps_aside(v: TermView, e: TermEvent)
    requires
        !switches_screen(e),
    ensures
        aside(event_effect(v, e)) == aside(v),
{
    match e {
        TermEvent::Csi(ps, inter, action) => lemma_csi_keeps_aside(v, ps, inter, action),
        _ => {},
    }
}

/// `CSI ? 1049 h` / `CSI ? 1049 l` does what switching screens does.
proof fn lemma_alt_sequence(v: TermView, set: bool)
    ensures
        event_effect(v, alt_screen_sequence(set)) == alt_screen_effect(v, set),
{
    let ps = seq![seq![1049u16]];
    assert(ps[0][0] == 1049);
    assert(seq![0x3fu8].len() == 1);
    let w = private_mode_effect(v, 1049, set);
    assert(private_modes_effect(w, ps, 1, set) == w);
    assert(private_modes_effect(v, ps, 0, set) == w);
}

proof fn lemma_run_keeps_aside(v: TermView, events: Seq<TermEvent>)
    requires
        forall|i: int| 0 <= i < events.len() ==> !switches_screen(#[trigger] events[i]),
    ensures
        aside(run_events(v, events)) == aside(v),
    decreases events.len(),
{
    if events.len() > 0 {
        lemma_event_keeps_aside(v, events[0]);
        let rest = events.drop_first();
        assert forall|i: int| 0 <= i < rest.len() implies !switches_screen(#[trigger] rest[i]) by {
            assert(rest[i] == events[i + 1]);
        }
        lemma_run_keeps_aside(event_effect(v, events[0]), rest);
    }
}

proof fn lemma_run_append(v: TermView, a: Seq<TermEvent>, b: Seq<TermEvent>)
    ensures
        run_events(v, a + b) == run_events(run_events(v, a), b),
    decreases a.len(),
{
    if a.len() > 0 {
        assert((a + b).drop_first() =~= a.drop_first() + b);
        assert((a + b)[0] == a[0]);
        lemma_run_append(event_effect(v, a[0]), a.drop_first(), b);
    } else {
        assert(a + b =~= b);
    }
}

/// The program enters the alternate screen (`CSI ? 1049 h`), sends anything
/// that does not switch screens (prints, controls, moves, erases, scrolls,
/// styles, modes), and leaves it (`CSI ? 1049 l`): the main screen and the
/// cursor are back as they were, the alternate screen is blank in the
/// default style and its kept cursor is a fresh one. Asking for the screen
/// already shown changes nothing.
pub proof fn lemma_alt_screen_round_trip(v: TermView, events: Seq<TermEvent>)
    requires
        !v.alt_screen,
        forall|i: int| 0 <= i < events.len() ==> !switches_screen(#[trigger] events[i]),
    ensures
        ({
            let inside = run_events(event_effect(v, alt_screen_sequence(true)), events);
            let w = run_events(v, seq![alt_screen_sequence(true)] + events + seq![alt_screen_sequence(false)]);
            &&& !w.alt_screen
            &&& w.grid == v.grid
            &&& w.cursor == v.cursor
            &&& w.alt_grid == blank_grid(inside.grid, default_style())
            &&& w.alt_cursor == default_cursor()
        }),
        alt_screen_effect(v, v.alt_screen) == v,
        event_effect(v, alt_screen_sequence(false)) == v,
{
    let enter = alt_screen_sequence(true);
    let leave = alt_screen_sequence(false);
    lemma_alt_sequence(v, true);
    lemma_alt_sequence(v, false);
    let entered = event_effect(v, enter);
    let inside = run_events(entered, events);
    lemma_alt_sequence(inside, false);
    lemma_run_keeps_aside(entered, events);
    lemma_alt_screen_restores(v, inside);
    let w = event_effect(inside, leave);
    lemma_run_append(v, seq![enter], events);
    lemma_run_append(v, seq![enter] + events, seq![leave]);
    assert(run_events(v, seq![enter]) == entered) by {
        reveal_with_fuel(run_events, 2);
        assert(seq![enter][0] == enter);
        assert(seq![enter].drop_first() =~= Seq::<TermEvent>::empty());
    }
    assert(run_events(inside, seq![leave]) == w) by {
        reveal_with_fuel(run_events, 2);
        assert(seq![leave][0] == leave);
        assert(seq![leave].drop_first() =~= Seq::<TermEvent>::empty());
    }
}

} // verus!
