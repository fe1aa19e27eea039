//! The run-mode menu and the send plans: which mode a menu line selects, and
//! which send units one iteration of each mode produces.

use crate::prompt::{collected_err, Collected, CollectError, InputEvent};
use crate::text::{split_words, strip_whitespace, trim, trimmed, without_spaces, words_of};
use vstd::prelude::*;

verus! {

/// What the user chose to run next. Re-chosen on every pass of the dispatch
/// loop; `Exit` ends the process.
#[derive(Clone, Copy, PartialEq, Eq, Structural, Debug)]
pub enum RunMode {
    ShowCoordinates,
    SendWhole,
    SendByWord,
    SendByCharacter,
    Exit,
}

/// The classification of one menu line: `c`, `m`, `w`, `l` or `e` after
/// trimming; anything else, the empty line included, is rejected.
pub open spec fn spec_run_mode_choice(line: Seq<char>) -> Option<RunMode> {
    let t = trimmed(line);
    if t == seq!['c'] {
        Some(RunMode::ShowCoordinates)
    } else if t == seq!['m'] {
        Some(RunMode::SendWhole)
    } else if t == seq!['w'] {
        Some(RunMode::SendByWord)
    } else if t == seq!['l'] {
        Some(RunMode::SendByCharacter)
    } else if t == seq!['e'] {
        Some(RunMode::Exit)
    } else {
        None
    }
}

/// Classifies one menu line, exactly as `spec_run_mode_choice` says.
pub fn parse_run_mode(line: &str) -> (r: Option<RunMode>)
    ensures
        r == spec_run_mode_choice(line@),
{
    let t = trim(line);
    proof {
        assert(seq!['c'].len() == 1 && seq!['c'][0] == 'c');
        assert(seq!['m'].len() == 1 && seq!['m'][0] == 'm');
        assert(seq!['w'].len() == 1 && seq!['w'][0] == 'w');
        assert(seq!['l'].len() == 1 && seq!['l'][0] == 'l');
        assert(seq!['e'].len() == 1 && seq!['e'][0] == 'e');
    }
    if t.as_str().unicode_len() == 1 {
        let c0 = t.as_str().get_char(0);
        proof {
            if c0 == 'c' {
                assert(t@ =~= seq!['c']);
            }
            if c0 == 'm' {
                assert(t@ =~= seq!['m']);
            }
            if c0 == 'w' {
                assert(t@ =~= seq!['w']);
            }
            if c0 == 'l' {
                assert(t@ =~= seq!['l']);
            }
            if c0 == 'e' {
                assert(t@ =~= seq!['e']);
            }
        }
        if c0 == 'c' {
            return Some(RunMode::ShowCoordinates);
        }
        if c0 == 'm' {
            return Some(RunMode::SendWhole);
        }
        if c0 == 'w' {
            return Some(RunMode::SendByWord);
        }
        if c0 == 'l' {
            return Some(RunMode::SendByCharacter);
        }
        if c0 == 'e' {
            return Some(RunMode::Exit);
        }
        return None;
    }
    None
}

/// The menu prompt: re-ask after a read failure or a line that selects no
/// mode, and accept the first line that does.
pub open spec fn spec_menu(events: Seq<InputEvent>, i: int) -> Collected<RunMode>
    decreases events.len() - i,
{
    if i < 0 || i >= events.len() {
        Collected::NoMoreInput
    } else {
        match events[i] {
            InputEvent::ReadFailure => spec_menu(events, i + 1),
            InputEvent::Line(l) => match spec_run_mode_choice(l@) {
                Some(m) => Collected::Got(m, i + 1),
                None => spec_menu(events, i + 1),
            },
        }
    }
}


/// Runs the menu prompt over a trace, from `start`: show the coordinates,
/// run one of the send modes, or exit.
pub fn coords_run_or_exit(events: &Vec<InputEvent>, start: usize) -> (r: Result<
    (RunMode, usize),
    CollectError,
>)
    requires
        start <= events@.len(),
    ensures
        ({
            let c = spec_menu(events@, start as int);
            match r {
                Ok((m, n)) => c == Collected::Got(m, n as int) && start < n <= events@.len(),
                Err(e) => collected_err(c) == Some(e),
            }
        }),
{
    let mut i = start;
    loop
        invariant
            start <= i <= events@.len(),
            spec_menu(events@, start as int) == spec_menu(events@, i as int),
        decreases events@.len() - i,
    {
        if i == events.len() {
            return Err(CollectError::NoMoreInput);
        }
        match &events[i] {
            InputEvent::ReadFailure => {},
            InputEvent::Line(l) => {
                match parse_run_mode(l.as_str()) {
                    Some(m) => {
                        return Ok((m, i + 1));
                    },
                    None => {},
                }
            },
        }
        i = i + 1;
    }
}

/// The send units one iteration of a mode produces from the message: the
/// whole message as one unit, each white-space-delimited word as a unit, or
/// each non-white-space character as a unit. The modes that send nothing
/// produce none.
pub open spec fn spec_send_units(mode: RunMode, message: Seq<char>) -> Seq<Seq<char>> {
    match mode {
        RunMode::SendWhole => seq![message],
        RunMode::SendByWord => words_of(message),
        RunMode::SendByCharacter => without_spaces(message).map_values(
            (|c: char| seq![c]),
        ),
        RunMode::ShowCoordinates => Seq::empty(),
        RunMode::Exit => Seq::empty(),
    }
}

/// Character-by-character sending strips every white-space character before
/// iterating: its units are exactly the non-white-space characters of the
/// message, in order, one character per unit.
pub proof fn lemma_character_units_clean(message: Seq<char>)
    ensures
        spec_send_units(RunMode::SendByCharacter, message).len() == without_spaces(message).len(),
        forall|k: int|
            0 <= k < without_spaces(message).len() ==> #[trigger] spec_send_units(
                RunMode::SendByCharacter,
                message,
            )[k] == seq![without_spaces(message)[k]],
        forall|k: int|
            0 <= k < without_spaces(message).len() ==> !crate::text::is_space(
                #[trigger] without_spaces(message)[k],
            ),
{
    crate::text::lemma_without_spaces_has_no_space(message);
}

/// Computes one iteration's send units, exactly as `spec_send_units` says.
pub fn send_units_for_mode(mode: &RunMode, message: &str) -> (units: Vec<String>)
    ensures
        units.deep_view() == spec_send_units(*mode, message@),
{
    match mode {
        RunMode::SendWhole => {
            let mut v: Vec<String> = Vec::new();
            v.push(message.to_owned());
            proof {
                assert(v.deep_view() =~= seq![message@]);
            }
            v
        },
        RunMode::SendByWord => split_words(message),
        RunMode::SendByCharacter => {
            let stripped = strip_whitespace(message);
            let n = stripped.as_str().unicode_len();
            let ghost target = without_spaces(message@).map_values((|c: char| seq![c]));
            let mut v: Vec<String> = Vec::new();
            let mut i: usize = 0;
            proof {
                assert(v.deep_view() =~= target.take(0));
            }
            while i < n
                invariant
                    0 <= i <= n,
                    n == stripped@.len(),
                    stripped@ == without_spaces(message@),
                    target == without_spaces(message@).map_values((|c: char| seq![c])),
                    v.deep_view() == target.take(i as int),
                decreases n - i,
            {
                let ghost dv0 = v.deep_view();
                let piece = stripped.as_str().substring_char(i, i + 1);
                v.push(piece.to_owned());
                proof {
                    assert(piece@ =~= seq![stripped@[i as int]]);
                    assert(target[i as int] == seq![stripped@[i as int]]);
                    assert(v.deep_view() =~= dv0.push(piece@));
                    assert(target.take(i as int + 1) =~= target.take(i as int).push(
                        target[i as int],
                    ));
                }
                i = i + 1;
            }
            proof {
                assert(target.take(n as int) =~= target);
            }
            v
        },
        RunMode::ShowCoordinates => {
            let v: Vec<String> = Vec::new();
            proof {
                assert(v.deep_view() =~= Seq::<Seq<char>>::empty());
            }
            v
        },
        RunMode::Exit => {
            let v: Vec<String> = Vec::new();
            proof {
                assert(v.deep_view() =~= Seq::<Seq<char>>::empty());
            }
            v
        },
    }
}

/// How many iterations a repeat count asks for: none at all when it is zero
/// or negative.
pub open spec fn spec_iterations(repeats: i32) -> nat {
    if repeats <= 0 {
        0
    } else {
        repeats as nat
    }
}

/// Computes the iteration count, exactly as `spec_iterations` says.
pub fn iterations_for(repeats: i32) -> (n: usize)
    ensures
        n as nat == spec_iterations(repeats),
{
    if repeats <= 0 {
        0
    } else {
        repeats as usize
    }
}

/// `n` iterations' worth of the same units, back to back.
pub open spec fn repeated(units: Seq<Seq<char>>, n: nat) -> Seq<Seq<char>>
    decreases n,
{
    if n == 0 {
        Seq::empty()
    } else {
        repeated(units, (n - 1) as nat) + units
    }
}

/// Every send unit of one whole run: the mode's units, once per iteration.
pub open spec fn spec_run_plan(mode: RunMode, message: Seq<char>, repeats: i32) -> Seq<Seq<char>> {
    repeated(spec_send_units(mode, message), spec_iterations(repeats))
}

/// A repeat count of zero or fewer performs no send operation in any mode.
pub proof fn lemma_nonpositive_repeats_send_nothing(mode: RunMode, message: Seq<char>, repeats: i32)
    requires
        repeats <= 0,
    ensures
        spec_run_plan(mode, message, repeats) == Seq::<Seq<char>>::empty(),
{
}

/// Computes the whole run's send units, exactly as `spec_run_plan` says; in
/// particular, a repeat count of zero or fewer yields an empty plan.
pub fn run_plan(mode: &RunMode, message: &str, repeats: i32) -> (plan: Vec<String>)
    ensures
        plan.deep_view() == spec_run_plan(*mode, message@, repeats),
        repeats <= 0 ==> plan.len() == 0,
{
    let units = send_units_for_mode(mode, message);
    let n = iterations_for(repeats);
    let mut plan: Vec<String> = Vec::new();
    let mut it: usize = 0;
    proof {
        assert(plan.deep_view() =~= repeated(units.deep_view(), 0));
    }
    while it < n
        invariant
            0 <= it <= n,
            n as nat == spec_iterations(repeats),
            units.deep_view() == spec_send_units(*mode, message@),
            plan.deep_view() == repeated(units.deep_view(), it as nat),
        decreases n - it,
    {
        let ghost base = plan.deep_view();
        let ghost udv = units.deep_view();
        let m = units.len();
        let mut k: usize = 0;
        proof {
            assert(base + udv.take(0) =~= base);
        }
        while k < m
            invariant
                0 <= k <= m,
                m == units@.len(),
                udv == units.deep_view(),
                plan.deep_view() == base + udv.take(k as int),
            decreases m - k,
        {
            let ghost dv0 = plan.deep_view();
            plan.push(units[k].clone());
            proof {
                assert(plan.deep_view() =~= dv0.push(udv[k as int]));
                assert(base + udv.take(k as int + 1) =~= (base + udv.take(k as int)).push(
                    udv[k as int],
                ));
            }
            k = k + 1;
        }
        proof {
            assert(udv.take(m as int) =~= udv);
            assert(repeated(udv, (it + 1) as nat) == repeated(udv, it as nat) + udv);
        }
        it = it + 1;
    }
    plan
}

/// Whether a mode pauses for the chosen interval between iterations: whole
/// messages and word-by-word sending do, character-by-character sending does
/// not, and the modes that send nothing have nothing to pause between.
pub open spec fn spec_pause_between_repeats(mode: RunMode) -> bool {
    mode == RunMode::SendWhole || mode == RunMode::SendByWord
}

/// Decides the inter-iteration pause, exactly as `spec_pause_between_repeats`
/// says.
pub fn pause_between_repeats(mode: &RunMode) -> (b: bool)
    ensures
        b == spec_pause_between_repeats(*mode),
{
    match mode {
        RunMode::SendWhole => true,
        RunMode::SendByWord => true,
        _ => false,
    }
}

} // verus!
