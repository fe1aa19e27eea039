//! Validated prompts: retry-until-valid protocols over an explicit trace of
//! line reads. Each prompt has a specification-level interpreter over the
//! trace and an executable driver proved to follow it; live loops over a real
//! input stream make the same decisions through the per-line functions.

use crate::parse::{is_int_literal, int_literal_value, is_float_literal, parse_i32, is_float_text};
use crate::text::{trim, trimmed};
use vstd::prelude::*;

verus! {

/// One attempt to read a line: the line itself, without its terminator, or a
/// failure of the read.
#[derive(Clone, Debug)]
pub enum InputEvent {
    Line(String),
    ReadFailure,
}

/// Why a prompt protocol ended without a value.
#[derive(Clone, Copy, PartialEq, Eq, Structural, Debug)]
pub enum CollectError {
    /// The trace ended before any line was accepted.
    NoMoreInput,
    /// A read failed at a prompt that treats read failures as fatal.
    FatalInput,
    /// A message file existed but its contents could not be read.
    UnreadableFile,
}

/// The outcome of a prompt protocol on a trace: a value together with the
/// position just after the accepting event, or the reason it ended without
/// one.
pub enum Collected<T> {
    Got(T, int),
    NoMoreInput,
    FatalInput,
    UnreadableFile,
}

/// The error a driver must report for each valueless outcome.
pub open spec fn collected_err<T>(c: Collected<T>) -> Option<CollectError> {
    match c {
        Collected::Got(_, _) => None,
        Collected::NoMoreInput => Some(CollectError::NoMoreInput),
        Collected::FatalInput => Some(CollectError::FatalInput),
        Collected::UnreadableFile => Some(CollectError::UnreadableFile),
    }
}

/// Passes a valueless outcome through to a protocol with another value type.
pub open spec fn carry<T, U>(c: Collected<T>) -> Collected<U>
    recommends
        !(c is Got),
{
    match c {
        Collected::Got(_, _) => Collected::NoMoreInput,
        Collected::NoMoreInput => Collected::NoMoreInput,
        Collected::FatalInput => Collected::FatalInput,
        Collected::UnreadableFile => Collected::UnreadableFile,
    }
}

/// The integer prompt: re-ask after a read failure or a line that is not a
/// decimal integer fitting `i32`, and accept the first line that is, with
/// exactly its value.
pub open spec fn spec_prompt_i32(events: Seq<InputEvent>, i: int) -> Collected<i32>
    decreases events.len() - i,
{
    if i < 0 || i >= events.len() {
        Collected::NoMoreInput
    } else {
        match events[i] {
            InputEvent::ReadFailure => spec_prompt_i32(events, i + 1),
            InputEvent::Line(l) => {
                let t = trimmed(l@);
                if is_int_literal(t) && i32::MIN <= int_literal_value(t) <= i32::MAX {
                    Collected::Got(int_literal_value(t) as i32, i + 1)
                } else {
                    spec_prompt_i32(events, i + 1)
                }
            },
        }
    }
}


/// An event the integer prompt re-asks after: a read failure, or a line that
/// does not trim to a decimal integer literal fitting `i32`.
pub open spec fn rejects_int_line(ev: InputEvent) -> bool {
    match ev {
        InputEvent::ReadFailure => true,
        InputEvent::Line(l) => !(is_int_literal(trimmed(l@)) && i32::MIN <= int_literal_value(
            trimmed(l@),
        ) <= i32::MAX),
    }
}

/// The integer prompt accepts exactly the lines that trim to an in-range
/// decimal integer literal, with exactly that literal's value, and re-asks
/// after every other event; a trace of rejected events alone yields nothing.
pub proof fn lemma_int_prompt_exact(events: Seq<InputEvent>, i: int)
    requires
        0 <= i <= events.len(),
    ensures
        spec_prompt_i32(events, i) matches Collected::Got(v, n) ==> {
            &&& i < n <= events.len()
            &&& events[n - 1] matches InputEvent::Line(l) && is_int_literal(trimmed(l@))
                && int_literal_value(trimmed(l@)) == v as int
            &&& forall|j: int| i <= j < n - 1 ==> rejects_int_line(#[trigger] events[j])
        },
        spec_prompt_i32(events, i) is NoMoreInput ==> forall|j: int|
            i <= j < events.len() ==> rejects_int_line(#[trigger] events[j]),
    decreases events.len() - i,
{
    if i < events.len() {
        lemma_int_prompt_exact(events, i + 1);
    }
}

/// Runs the integer prompt over a trace, from `start`.
pub fn prompt_i32(events: &Vec<InputEvent>, start: usize) -> (r: Result<
    (i32, usize),
    CollectError,
>)
    requires
        start <= events@.len(),
    ensures
        ({
            let c = spec_prompt_i32(events@, start as int);
            match r {
                Ok((v, n)) => c == Collected::Got(v, n as int) && start < n <= events@.len(),
                Err(e) => collected_err(c) == Some(e),
            }
        }),
{
    let mut i = start;
    loop
        invariant
            start <= i <= events@.len(),
            spec_prompt_i32(events@, start as int) == spec_prompt_i32(events@, i as int),
        decreases events@.len() - i,
    {
        if i == events.len() {
            return Err(CollectError::NoMoreInput);
        }
        match &events[i] {
            InputEvent::ReadFailure => {},
            InputEvent::Line(l) => {
                let t = trim(l.as_str());
                match parse_i32(t.as_str()) {
                    Ok(v) => {
                        return Ok((v, i + 1));
                    },
                    Err(_) => {},
                }
            },
        }
        i = i + 1;
    }
}

/// How the message text is to be obtained.
#[derive(Clone, Copy, PartialEq, Eq, Structural, Debug)]
pub enum MessageSourceKind {
    FromFile,
    FromInteractiveInput,
}

/// The classification of one source-kind line: only `f` and `i` (after
/// trimming) are accepted; everything else, the empty line included, is
/// rejected.
pub open spec fn spec_source_choice(line: Seq<char>) -> Option<MessageSourceKind> {
    if trimmed(line) == seq!['f'] {
        Some(MessageSourceKind::FromFile)
    } else if trimmed(line) == seq!['i'] {
        Some(MessageSourceKind::FromInteractiveInput)
    } else {
        None
    }
}

/// Classifies one source-kind line, exactly as `spec_source_choice` says.
pub fn classify_source_line(line: &str) -> (r: Option<MessageSourceKind>)
    ensures
        r == spec_source_choice(line@),
{
    let t = trim(line);
    let one = t.as_str().unicode_len() == 1;
    if one {
        let c0 = t.as_str().get_char(0);
        proof {
            assert(seq!['f'].len() == 1 && seq!['f'][0] == 'f');
            assert(seq!['i'].len() == 1 && seq!['i'][0] == 'i');
            if c0 == 'f' {
                assert(t@ =~= seq!['f']);
            }
            if c0 == 'i' {
                assert(t@ =~= seq!['i']);
            }
        }
        if c0 == 'f' {
            return Some(MessageSourceKind::FromFile);
        }
        if c0 == 'i' {
            return Some(MessageSourceKind::FromInteractiveInput);
        }
        return None;
    }
    proof {
        assert(seq!['f'].len() == 1);
        assert(seq!['i'].len() == 1);
    }
    None
}

/// The source-kind prompt: re-ask on any line other than `f` or `i`, and
/// accept the first line that is one of the two. A read failure here is
/// fatal, unlike at every other prompt.
pub open spec fn spec_prompt_source(events: Seq<InputEvent>, i: int) -> Collected<Seq<char>>
    decreases events.len() - i,
{
    if i < 0 || i >= events.len() {
        Collected::NoMoreInput
    } else {
        match events[i] {
            InputEvent::ReadFailure => Collected::FatalInput,
            InputEvent::Line(l) => {
                if spec_source_choice(l@) is Some {
                    Collected::Got(trimmed(l@), i + 1)
                } else {
                    spec_prompt_source(events, i + 1)
                }
            },
        }
    }
}


/// The source-kind prompt accepts only `f` or `i`: the accepted value trims
/// from the accepting line, every earlier event is a line (a read failure
/// would have been fatal) that classifies as neither, and each such line
/// re-asks the prompt.
pub proof fn lemma_source_prompt_exact(events: Seq<InputEvent>, i: int)
    requires
        0 <= i <= events.len(),
    ensures
        spec_prompt_source(events, i) matches Collected::Got(t, n) ==> {
            &&& i < n <= events.len()
            &&& (t == seq!['f'] || t == seq!['i'])
            &&& events[n - 1] matches InputEvent::Line(l) && trimmed(l@) == t
                && spec_source_choice(l@) is Some
            &&& forall|j: int|
                i <= j < n - 1 ==> (#[trigger] events[j] matches InputEvent::Line(l2)
                    && spec_source_choice(l2@) is None)
        },
    decreases events.len() - i,
{
    if i < events.len() {
        lemma_source_prompt_exact(events, i + 1);
    }
}

/// Runs the source-kind prompt over a trace, from `start`; the value is the
/// accepted choice, `f` or `i`.
pub fn get_file_or_stdin(events: &Vec<InputEvent>, start: usize) -> (r: Result<
    (String, usize),
    CollectError,
>)
    requires
        start <= events@.len(),
    ensures
        ({
            let c = spec_prompt_source(events@, start as int);
            match r {
                Ok((choice, n)) => c == Collected::Got(choice@, n as int) && start < n
                    <= events@.len(),
                Err(e) => collected_err(c) == Some(e),
            }
        }),
{
    let mut i = start;
    loop
        invariant
            start <= i <= events@.len(),
            spec_prompt_source(events@, start as int) == spec_prompt_source(events@, i as int),
        decreases events@.len() - i,
    {
        if i == events.len() {
            return Err(CollectError::NoMoreInput);
        }
        match &events[i] {
            InputEvent::ReadFailure => {
                return Err(CollectError::FatalInput);
            },
            InputEvent::Line(l) => {
                if classify_source_line(l.as_str()).is_some() {
                    let t = trim(l.as_str());
                    return Ok((t, i + 1));
                }
            },
        }
        i = i + 1;
    }
}

/// The interval prompt: re-ask after a read failure or a line that is not a
/// decimal floating-point literal, and accept the first line that is,
/// yielding its trimmed text.
pub open spec fn spec_prompt_float(events: Seq<InputEvent>, i: int) -> Collected<Seq<char>>
    decreases events.len() - i,
{
    if i < 0 || i >= events.len() {
        Collected::NoMoreInput
    } else {
        match events[i] {
            InputEvent::ReadFailure => spec_prompt_float(events, i + 1),
            InputEvent::Line(l) => {
                if is_float_literal(trimmed(l@)) {
                    Collected::Got(trimmed(l@), i + 1)
                } else {
                    spec_prompt_float(events, i + 1)
                }
            },
        }
    }
}


/// The interval prompt accepts exactly the lines that trim to a decimal
/// floating-point literal, yielding the trimmed line itself.
pub proof fn lemma_float_prompt_exact(events: Seq<InputEvent>, i: int)
    requires
        0 <= i <= events.len(),
    ensures
        spec_prompt_float(events, i) matches Collected::Got(t, n) ==> {
            &&& i < n <= events.len()
            &&& is_float_literal(t)
            &&& t == trimmed(t)
            &&& events[n - 1] matches InputEvent::Line(l) && trimmed(l@) == t
            &&& forall|j: int|
                i <= j < n - 1 ==> (#[trigger] events[j] matches InputEvent::Line(l2)
                    ==> !is_float_literal(trimmed(l2@)))
        },
    decreases events.len() - i,
{
    if i < events.len() {
        lemma_float_prompt_exact(events, i + 1);
    }
    if let Collected::Got(t, n) = spec_prompt_float(events, i) {
        if i < events.len() {
            if let InputEvent::Line(l) = events[i] {
                if is_float_literal(trimmed(l@)) {
                    crate::text::lemma_trimmed_idempotent(l@);
                }
            }
        }
    }
}

/// Runs the interval prompt over a trace, from `start`; the value is the
/// accepted line, trimmed.
pub fn prompt_float_text(events: &Vec<InputEvent>, start: usize) -> (r: Result<
    (String, usize),
    CollectError,
>)
    requires
        start <= events@.len(),
    ensures
        ({
            let c = spec_prompt_float(events@, start as int);
            match r {
                Ok((text, n)) => c == Collected::Got(text@, n as int) && start < n
                    <= events@.len(),
                Err(e) => collected_err(c) == Some(e),
            }
        }),
{
    let mut i = start;
    loop
        invariant
            start <= i <= events@.len(),
            spec_prompt_float(events@, start as int) == spec_prompt_float(events@, i as int),
        decreases events@.len() - i,
    {
        if i == events.len() {
            return Err(CollectError::NoMoreInput);
        }
        match &events[i] {
            InputEvent::ReadFailure => {},
            InputEvent::Line(l) => {
                let t = trim(l.as_str());
                if is_float_text(t.as_str()) {
                    return Ok((t, i + 1));
                }
            },
        }
        i = i + 1;
    }
}

/// Whether one confirmation answer accepts the candidate message: only the
/// exact line `y` (after trimming) does.
pub open spec fn spec_confirms(answer: Seq<char>) -> bool {
    trimmed(answer) == seq!['y']
}

/// Decides one confirmation answer, exactly as `spec_confirms` says.
pub fn confirm_accepts(answer: &str) -> (b: bool)
    ensures
        b == spec_confirms(answer@),
{
    let t = trim(answer);
    let one = t.as_str().unicode_len() == 1;
    proof {
        assert(seq!['y'].len() == 1 && seq!['y'][0] == 'y');
    }
    if one {
        let c0 = t.as_str().get_char(0);
        if c0 == 'y' {
            proof {
                assert(t@ =~= seq!['y']);
            }
            return true;
        }
        return false;
    }
    false
}

/// The confirmation step: re-ask on a read failure, and decide on the first
/// line read, accepting exactly the answer `y`.
pub open spec fn spec_confirm(events: Seq<InputEvent>, i: int) -> Collected<bool>
    decreases events.len() - i,
{
    if i < 0 || i >= events.len() {
        Collected::NoMoreInput
    } else {
        match events[i] {
            InputEvent::ReadFailure => spec_confirm(events, i + 1),
            InputEvent::Line(l) => Collected::Got(spec_confirms(l@), i + 1),
        }
    }
}

/// A decided confirmation lies strictly inside the trace that was consumed.
pub proof fn lemma_confirm_bounds(events: Seq<InputEvent>, i: int)
    requires
        0 <= i <= events.len(),
    ensures
        spec_confirm(events, i) matches Collected::Got(_, n) ==> i < n <= events.len(),
    decreases events.len() - i,
{
    if i < events.len() {
        lemma_confirm_bounds(events, i + 1);
    }
}

/// Runs the confirmation step over a trace, from `start`.
pub fn confirm_from(events: &Vec<InputEvent>, start: usize) -> (r: Result<
    (bool, usize),
    CollectError,
>)
    requires
        start <= events@.len(),
    ensures
        ({
            let c = spec_confirm(events@, start as int);
            match r {
                Ok((accepted, n)) => c == Collected::Got(accepted, n as int) && start < n
                    <= events@.len(),
                Err(e) => collected_err(c) == Some(e),
            }
        }),
{
    let mut i = start;
    loop
        invariant
            start <= i <= events@.len(),
            spec_confirm(events@, start as int) == spec_confirm(events@, i as int),
        decreases events@.len() - i,
    {
        if i == events.len() {
            return Err(CollectError::NoMoreInput);
        }
        match &events[i] {
            InputEvent::ReadFailure => {},
            InputEvent::Line(l) => {
                let accepted = confirm_accepts(l.as_str());
                return Ok((accepted, i + 1));
            },
        }
        i = i + 1;
    }
}

} // verus!
