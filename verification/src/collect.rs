//! The configuration collector: resolves the message body from a file model
//! or from interactive entry, confirms it, and sequences the prompts that
//! build one immutable run specification.

use crate::parse::is_float_literal;
use crate::prompt::{
    carry, collected_err, confirm_from, get_file_or_stdin, prompt_float_text, prompt_i32,
    spec_confirm, spec_prompt_float, spec_prompt_i32, spec_prompt_source, Collected, CollectError,
    InputEvent, MessageSourceKind,
};
use crate::text::{trim, trimmed};
use vstd::prelude::*;

verus! {

/// A position on the screen, as a pair of signed coordinates. Nothing checks
/// it against the actual display bounds.
#[derive(Clone, Copy, PartialEq, Eq, Structural, Debug)]
pub struct ScreenPosition {
    pub x: i32,
    pub y: i32,
}

/// Two consecutive integer prompts, giving the x and then the y coordinate of
/// one screen position.
pub open spec fn spec_position(events: Seq<InputEvent>, i: int) -> Collected<ScreenPosition> {
    match spec_prompt_i32(events, i) {
        Collected::Got(x, j) => match spec_prompt_i32(events, j) {
            Collected::Got(y, n) => Collected::Got(ScreenPosition { x, y }, n),
            other => carry(other),
        },
        other => carry(other),
    }
}

/// Collects one screen position from a trace: its x coordinate, then its y
/// coordinate, each through the integer prompt.
pub fn get_x_and_y_position(events: &Vec<InputEvent>, start: usize) -> (r: Result<
    (ScreenPosition, usize),
    CollectError,
>)
    requires
        start <= events@.len(),
    ensures
        ({
            let c = spec_position(events@, start as int);
            match r {
                Ok((p, n)) => c == Collected::Got(p, n as int) && start < n <= events@.len(),
                Err(e) => collected_err(c) == Some(e),
            }
        }),
{
    let (x, j) = match prompt_i32(events, start) {
        Ok(v) => v,
        Err(e) => {
            return Err(e);
        },
    };
    let (y, n) = match prompt_i32(events, j) {
        Ok(v) => v,
        Err(e) => {
            return Err(e);
        },
    };
    Ok((ScreenPosition { x, y }, n))
}

/// One file the collector may read: its path and its contents, or `None` for
/// a file that exists but cannot be read.
#[derive(Clone, Debug)]
pub struct FileEntry {
    pub path: String,
    pub contents: Option<String>,
}

/// What the file model holds at `path`: `None` when no such file exists,
/// `Some(None)` when it exists but cannot be read, and `Some(Some(text))`
/// when it can.
pub open spec fn spec_file_lookup(files: Seq<FileEntry>, path: Seq<char>) -> Option<
    Option<Seq<char>>,
>
    decreases files.len(),
{
    if files.len() == 0 {
        None
    } else if files[0].path@ == path {
        match files[0].contents {
            Some(c) => Some(Some(c@)),
            None => Some(None),
        }
    } else {
        spec_file_lookup(files.drop_first(), path)
    }
}

/// Looks a path up in the file model, exactly as `spec_file_lookup` says.
pub fn lookup_file(files: &Vec<FileEntry>, path: &String) -> (r: Option<Option<String>>)
    ensures
        match r {
            Some(Some(c)) => spec_file_lookup(files@, path@) == Some(Some(c@)),
            Some(None) => spec_file_lookup(files@, path@) == Some(Option::<Seq<char>>::None),
            None => spec_file_lookup(files@, path@) == Option::<Option<Seq<char>>>::None,
        },
{
    let n = files.len();
    let mut k: usize = 0;
    proof {
        assert(files@.skip(0) =~= files@);
    }
    while k < n
        invariant
            0 <= k <= n,
            n == files@.len(),
            spec_file_lookup(files@, path@) == spec_file_lookup(files@.skip(k as int), path@),
        decreases n - k,
    {
        let ghost rest = files@.skip(k as int);
        proof {
            assert(rest.len() > 0);
            assert(rest[0] == files@[k as int]);
            assert(rest.drop_first() =~= files@.skip(k as int + 1));
        }
        if files[k].path == *path {
            match &files[k].contents {
                Some(c) => {
                    return Some(Some(c.clone()));
                },
                None => {
                    return Some(None);
                },
            }
        }
        k = k + 1;
    }
    proof {
        assert(files@.skip(n as int) =~= Seq::<FileEntry>::empty());
    }
    None
}

/// The file-path prompt with the read folded in: re-ask after a read failure
/// or a path that names no file, accept the first path that names one, and
/// treat a file that exists but cannot be read as fatal.
pub open spec fn spec_file_message(events: Seq<InputEvent>, i: int, files: Seq<FileEntry>) -> Collected<
    Seq<char>,
>
    decreases events.len() - i,
{
    if i < 0 || i >= events.len() {
        Collected::NoMoreInput
    } else {
        match events[i] {
            InputEvent::ReadFailure => spec_file_message(events, i + 1, files),
            InputEvent::Line(l) => match spec_file_lookup(files, trimmed(l@)) {
                None => spec_file_message(events, i + 1, files),
                Some(None) => Collected::UnreadableFile,
                Some(Some(c)) => Collected::Got(c, i + 1),
            },
        }
    }
}

/// A message accepted from a file lies strictly inside the trace that was
/// consumed.
pub proof fn lemma_file_message_bounds(events: Seq<InputEvent>, i: int, files: Seq<FileEntry>)
    requires
        0 <= i <= events.len(),
    ensures
        spec_file_message(events, i, files) matches Collected::Got(_, n) ==> i < n
            <= events.len(),
    decreases events.len() - i,
{
    if i < events.len() {
        lemma_file_message_bounds(events, i + 1, files);
    }
}

/// A line naming no file never resolves the message there: the prompt is
/// asked again, so acceptance can only come at least two events later.
pub proof fn lemma_missing_path_reprompts(events: Seq<InputEvent>, i: int, files: Seq<FileEntry>)
    requires
        0 <= i < events.len(),
        events[i] matches InputEvent::Line(l) && spec_file_lookup(files, trimmed(l@))
            == Option::<Option<Seq<char>>>::None,
    ensures
        spec_file_message(events, i, files) == spec_file_message(events, i + 1, files),
        spec_file_message(events, i, files) matches Collected::Got(_, n) ==> n >= i + 2,
{
    lemma_file_message_bounds(events, i + 1, files);
}

/// Resolves the message from the file model over a trace, from `start`.
pub fn get_file_message(events: &Vec<InputEvent>, start: usize, files: &Vec<FileEntry>) -> (r:
    Result<(String, usize), CollectError>)
    requires
        start <= events@.len(),
    ensures
        ({
            let c = spec_file_message(events@, start as int, files@);
            match r {
                Ok((m, n)) => c == Collected::Got(m@, n as int) && start < n <= events@.len(),
                Err(e) => collected_err(c) == Some(e),
            }
        }),
{
    let mut i = start;
    loop
        invariant
            start <= i <= events@.len(),
            spec_file_message(events@, start as int, files@) == spec_file_message(
                events@,
                i as int,
                files@,
            ),
        decreases events@.len() - i,
    {
        if i == events.len() {
            return Err(CollectError::NoMoreInput);
        }
        match &events[i] {
            InputEvent::ReadFailure => {},
            InputEvent::Line(l) => {
                let t = trim(l.as_str());
                match lookup_file(files, &t) {
                    None => {},
                    Some(None) => {
                        return Err(CollectError::UnreadableFile);
                    },
                    Some(Some(c)) => {
                        return Ok((c, i + 1));
                    },
                }
            },
        }
        i = i + 1;
    }
}

/// Interactive entry: the first line that can be read is the message,
/// verbatim; a read failure only re-asks.
pub open spec fn spec_stdin_message(events: Seq<InputEvent>, i: int) -> Collected<Seq<char>>
    decreases events.len() - i,
{
    if i < 0 || i >= events.len() {
        Collected::NoMoreInput
    } else {
        match events[i] {
            InputEvent::ReadFailure => spec_stdin_message(events, i + 1),
            InputEvent::Line(l) => Collected::Got(l@, i + 1),
        }
    }
}

/// A message accepted interactively lies strictly inside the trace that was
/// consumed.
pub proof fn lemma_stdin_message_bounds(events: Seq<InputEvent>, i: int)
    requires
        0 <= i <= events.len(),
    ensures
        spec_stdin_message(events, i) matches Collected::Got(_, n) ==> i < n <= events.len(),
    decreases events.len() - i,
{
    if i < events.len() {
        lemma_stdin_message_bounds(events, i + 1);
    }
}

/// Resolves the message interactively over a trace, from `start`.
pub fn get_stdin_message(events: &Vec<InputEvent>, start: usize) -> (r: Result<
    (String, usize),
    CollectError,
>)
    requires
        start <= events@.len(),
    ensures
        ({
            let c = spec_stdin_message(events@, start as int);
            match r {
                Ok((m, n)) => c == Collected::Got(m@, n as int) && start < n <= events@.len(),
                Err(e) => collected_err(c) == Some(e),
            }
        }),
{
    let mut i = start;
    loop
        invariant
            start <= i <= events@.len(),
            spec_stdin_message(events@, start as int) == spec_stdin_message(events@, i as int),
        decreases events@.len() - i,
    {
        if i == events.len() {
            return Err(CollectError::NoMoreInput);
        }
        match &events[i] {
            InputEvent::ReadFailure => {},
            InputEvent::Line(l) => {
                return Ok((l.clone(), i + 1));
            },
        }
        i = i + 1;
    }
}

/// The source kind a textual choice selects: `f` means the file model, and
/// any other text falls back to interactive entry by design, rather than
/// being an error.
pub open spec fn spec_source_for(target: Seq<char>) -> MessageSourceKind {
    if target == seq!['f'] {
        MessageSourceKind::FromFile
    } else {
        MessageSourceKind::FromInteractiveInput
    }
}

/// Maps a textual choice to its source kind, exactly as `spec_source_for`
/// says, the interactive fallback included.
pub fn resolve_source_kind(target: &str) -> (k: MessageSourceKind)
    ensures
        k == spec_source_for(target@),
{
    proof {
        assert(seq!['f'].len() == 1 && seq!['f'][0] == 'f');
    }
    if target.unicode_len() == 1 {
        let c0 = target.get_char(0);
        if c0 == 'f' {
            proof {
                assert(target@ =~= seq!['f']);
            }
            return MessageSourceKind::FromFile;
        }
    }
    MessageSourceKind::FromInteractiveInput
}

/// One candidate message, resolved by the source the textual choice selects.
pub open spec fn spec_candidate(
    target: Seq<char>,
    events: Seq<InputEvent>,
    i: int,
    files: Seq<FileEntry>,
) -> Collected<Seq<char>> {
    if spec_source_for(target) is FromFile {
        spec_file_message(events, i, files)
    } else {
        spec_stdin_message(events, i)
    }
}

/// A candidate message lies strictly inside the trace that was consumed.
pub proof fn lemma_candidate_bounds(
    target: Seq<char>,
    events: Seq<InputEvent>,
    i: int,
    files: Seq<FileEntry>,
)
    requires
        0 <= i <= events.len(),
    ensures
        spec_candidate(target, events, i, files) matches Collected::Got(_, n) ==> i < n
            <= events.len(),
{
    lemma_file_message_bounds(events, i, files);
    lemma_stdin_message_bounds(events, i);
}

/// Message resolution with confirmation: resolve one candidate, ask for
/// confirmation, and accept the candidate, trimmed, exactly when the answer
/// is `y`; any other answer discards it and restarts the whole resolution.
pub open spec fn spec_resolve_message(
    target: Seq<char>,
    events: Seq<InputEvent>,
    i: int,
    files: Seq<FileEntry>,
) -> Collected<Seq<char>>
    decreases events.len() - i,
    when 0 <= i <= events.len()
    via spec_resolve_message_decreases
{
    match spec_candidate(target, events, i, files) {
        Collected::Got(msg, j) => match spec_confirm(events, j) {
            Collected::Got(accepted, k) => if accepted {
                Collected::Got(trimmed(msg), k)
            } else {
                spec_resolve_message(target, events, k, files)
            },
            other => carry(other),
        },
        other => carry(other),
    }
}

#[via_fn]
proof fn spec_resolve_message_decreases(
    target: Seq<char>,
    events: Seq<InputEvent>,
    i: int,
    files: Seq<FileEntry>,
) {
    lemma_candidate_bounds(target, events, i, files);
    if let Collected::Got(msg, j) = spec_candidate(target, events, i, files) {
        crate::prompt::lemma_confirm_bounds(events, j);
    }
}

/// A resolved message lies strictly inside the trace that was consumed, and
/// carries no leading or trailing white space.
pub proof fn lemma_resolve_message_bounds(
    target: Seq<char>,
    events: Seq<InputEvent>,
    i: int,
    files: Seq<FileEntry>,
)
    requires
        0 <= i <= events.len(),
    ensures
        spec_resolve_message(target, events, i, files) matches Collected::Got(m, n) ==> i < n
            <= events.len() && m == trimmed(m),
    decreases events.len() - i,
{
    lemma_candidate_bounds(target, events, i, files);
    if let Collected::Got(msg, j) = spec_candidate(target, events, i, files) {
        crate::prompt::lemma_confirm_bounds(events, j);
        if let Collected::Got(accepted, k) = spec_confirm(events, j) {
            if accepted {
                crate::text::lemma_trimmed_idempotent(msg);
            } else {
                lemma_resolve_message_bounds(target, events, k, files);
            }
        }
    }
}

/// A candidate whose confirmation answer is anything but `y` is discarded:
/// resolution carries on as if freshly started after that answer, so the
/// rejected candidate is never the result.
pub proof fn lemma_rejected_candidate_restarts(
    target: Seq<char>,
    events: Seq<InputEvent>,
    i: int,
    files: Seq<FileEntry>,
    msg: Seq<char>,
    j: int,
    k: int,
)
    requires
        0 <= i <= events.len(),
        spec_candidate(target, events, i, files) == Collected::Got(msg, j),
        spec_confirm(events, j) == Collected::<bool>::Got(false, k),
    ensures
        spec_resolve_message(target, events, i, files) == spec_resolve_message(
            target,
            events,
            k,
            files,
        ),
{
    lemma_candidate_bounds(target, events, i, files);
    crate::prompt::lemma_confirm_bounds(events, j);
}

/// A candidate whose confirmation answer is exactly `y` is the result,
/// trimmed of surrounding white space.
pub proof fn lemma_confirmed_candidate_accepted(
    target: Seq<char>,
    events: Seq<InputEvent>,
    i: int,
    files: Seq<FileEntry>,
    msg: Seq<char>,
    j: int,
    k: int,
)
    requires
        0 <= i <= events.len(),
        spec_candidate(target, events, i, files) == Collected::Got(msg, j),
        spec_confirm(events, j) == Collected::<bool>::Got(true, k),
    ensures
        spec_resolve_message(target, events, i, files) == Collected::<Seq<char>>::Got(
            trimmed(msg),
            k,
        ),
{
}

/// The choices made for one run: how the message was sourced, the message
/// itself, the interval text, the repeat count, and the two click targets.
/// Immutable once collected; no field can be revised without collecting anew.
#[derive(Clone, Debug)]
pub struct UserSpecifications {
    /// The accepted source choice, `f` or `i`.
    pub file_or_stdin: String,
    /// The confirmed message, trimmed of surrounding white space.
    pub message: String,
    /// The accepted interval line: the text of a decimal floating-point
    /// literal, in seconds.
    pub time_period: String,
    /// How many times the message is to be sent; zero or fewer means never.
    pub repeats: i32,
    /// Where to click to focus the host application window.
    pub browser_position: ScreenPosition,
    /// Where to click to focus the text-input field.
    pub whatsapp_position: ScreenPosition,
}

/// The mathematical content of one `UserSpecifications` value.
pub struct SpecsModel {
    pub file_or_stdin: Seq<char>,
    pub message: Seq<char>,
    pub time_period: Seq<char>,
    pub repeats: i32,
    pub browser_position: ScreenPosition,
    pub whatsapp_position: ScreenPosition,
}

impl View for UserSpecifications {
    type V = SpecsModel;

    open spec fn view(&self) -> SpecsModel {
        SpecsModel {
            file_or_stdin: self.file_or_stdin@,
            message: self.message@,
            time_period: self.time_period@,
            repeats: self.repeats,
            browser_position: self.browser_position,
            whatsapp_position: self.whatsapp_position,
        }
    }
}

impl SpecsModel {
    /// What the collector guarantees of every specification it returns.
    pub open spec fn wf(self) -> bool {
        &&& (self.file_or_stdin == seq!['f'] || self.file_or_stdin == seq!['i'])
        &&& self.message == trimmed(self.message)
        &&& self.time_period == trimmed(self.time_period)
        &&& is_float_literal(self.time_period)
    }
}

/// The whole collection protocol, in its fixed order: source choice, message
/// resolution with confirmation, interval, repeat count, then the two screen
/// positions.
pub open spec fn spec_user_specs(events: Seq<InputEvent>, files: Seq<FileEntry>) -> Collected<
    SpecsModel,
> {
    match spec_prompt_source(events, 0) {
        Collected::Got(choice, i1) => match spec_resolve_message(choice, events, i1, files) {
            Collected::Got(message, i2) => match spec_prompt_float(events, i2) {
                Collected::Got(period, i3) => match spec_prompt_i32(events, i3) {
                    Collected::Got(repeats, i4) => match spec_position(events, i4) {
                        Collected::Got(browser, i5) => match spec_position(events, i5) {
                            Collected::Got(whatsapp, i6) => Collected::Got(
                                SpecsModel {
                                    file_or_stdin: choice,
                                    message,
                                    time_period: period,
                                    repeats,
                                    browser_position: browser,
                                    whatsapp_position: whatsapp,
                                },
                                i6,
                            ),
                            other => carry(other),
                        },
                        other => carry(other),
                    },
                    other => carry(other),
                },
                other => carry(other),
            },
            other => carry(other),
        },
        other => carry(other),
    }
}

/// Collects one full run specification from a trace, starting at its
/// beginning; the result is well formed and exactly what the protocol
/// prescribes for that trace.
pub fn get_user_specs(events: &Vec<InputEvent>, files: &Vec<FileEntry>) -> (r: Result<
    (UserSpecifications, usize),
    CollectError,
>)
    ensures
        ({
            let c = spec_user_specs(events@, files@);
            match r {
                Ok((specs, n)) => c == Collected::Got(specs@, n as int) && n <= events@.len()
                    && specs@.wf(),
                Err(e) => collected_err(c) == Some(e),
            }
        }),
{
    let (file_or_stdin, i1) = match get_file_or_stdin(events, 0) {
        Ok(v) => v,
        Err(e) => {
            return Err(e);
        },
    };
    proof {
        crate::prompt::lemma_source_prompt_exact(events@, 0);
    }
    let (message, i2) = match get_user_message(file_or_stdin.as_str(), events, i1, files) {
        Ok(v) => v,
        Err(e) => {
            return Err(e);
        },
    };
    let (time_period, i3) = match prompt_float_text(events, i2) {
        Ok(v) => v,
        Err(e) => {
            return Err(e);
        },
    };
    proof {
        crate::prompt::lemma_float_prompt_exact(events@, i2 as int);
        lemma_resolve_message_bounds(file_or_stdin@, events@, i1 as int, files@);
    }
    let (repeats, i4) = match prompt_i32(events, i3) {
        Ok(v) => v,
        Err(e) => {
            return Err(e);
        },
    };
    let (browser_position, i5) = match get_x_and_y_position(events, i4) {
        Ok(v) => v,
        Err(e) => {
            return Err(e);
        },
    };
    let (whatsapp_position, i6) = match get_x_and_y_position(events, i5) {
        Ok(v) => v,
        Err(e) => {
            return Err(e);
        },
    };
    let specs = UserSpecifications {
        file_or_stdin,
        message,
        time_period,
        repeats,
        browser_position,
        whatsapp_position,
    };
    Ok((specs, i6))
}

/// Resolves and confirms the message over a trace, from `start`, for the
/// given textual source choice.
pub fn get_user_message(target: &str, events: &Vec<InputEvent>, start: usize, files: &Vec<
    FileEntry,
>) -> (r: Result<(String, usize), CollectError>)
    requires
        start <= events@.len(),
    ensures
        ({
            let c = spec_resolve_message(target@, events@, start as int, files@);
            match r {
                Ok((m, n)) => c == Collected::Got(m@, n as int) && start < n <= events@.len(),
                Err(e) => collected_err(c) == Some(e),
            }
        }),
{
    let kind = resolve_source_kind(target);
    let mut i = start;
    loop
        invariant
            start <= i <= events@.len(),
            kind == spec_source_for(target@),
            spec_resolve_message(target@, events@, start as int, files@) == spec_resolve_message(
                target@,
                events@,
                i as int,
                files@,
            ),
        decreases events@.len() - i,
    {
        let cand = if kind == MessageSourceKind::FromFile {
            get_file_message(events, i, files)
        } else {
            get_stdin_message(events, i)
        };
        match cand {
            Err(e) => {
                return Err(e);
            },
            Ok((msg, j)) => {
                match confirm_from(events, j) {
                    Err(e) => {
                        return Err(e);
                    },
                    Ok((accepted, k)) => {
                        if accepted {
                            let m = trim(msg.as_str());
                            return Ok((m, k));
                        }
                        i = k;
                    },
                }
            },
        }
    }
}

} // verus!
