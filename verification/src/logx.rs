//! The library's own diagnostics: leveled lines with an `xyz[level]:`
//! prefix.  The process-wide level of the original lives here in an
//! explicit [`LogState`]; the functions that emitted to stderr return the
//! line to print, and the caller writes it.
use vstd::prelude::*;
use crate::errors;
use crate::text;

verus! {

/// Verbosity level; a higher level is quieter.
#[derive(Debug, Clone, Copy, PartialEq, Eq, PartialOrd, Ord, Structural)]
pub enum Level {
    /// The zero value of `Config.log_level`: keep the default.
    Unset,
    /// Dispatch and negotiation traces.
    Debug,
    /// The default level.
    Info,
    /// Warnings only.
    Warn,
    /// Error diagnostics only.
    Error,
}

/// The numeric rank of a level (its position in the declaration).
pub open spec fn rank(l: Level) -> int {
    match l {
        Level::Unset => 0,
        Level::Debug => 1,
        Level::Info => 2,
        Level::Warn => 3,
        Level::Error => 4,
    }
}

/// The printed name of a level (`Unset` prints as the default, info).
pub open spec fn level_name(l: Level) -> Seq<char> {
    match l {
        Level::Unset => "info"@,
        Level::Debug => "debug"@,
        Level::Info => "info"@,
        Level::Warn => "warn"@,
        Level::Error => "error"@,
    }
}

impl Default for Level {
    fn default() -> (l: Level)
        ensures
            l == Level::Unset,
    {
        Level::Unset
    }
}

impl Level {
    pub fn as_str(&self) -> (s: &'static str)
        ensures
            s@ == level_name(*self),
    {
        match self {
            Level::Unset => "info",
            Level::Debug => "debug",
            Level::Info => "info",
            Level::Warn => "warn",
            Level::Error => "error",
        }
    }
}

/// The current verbosity.  It starts at `Info` and never holds `Unset`.
pub struct LogState {
    current: Level,
    /// The levels passed to `set_level` so far, in order.
    history: Ghost<Seq<Level>>,
}

impl LogState {
    #[verifier::type_invariant]
    spec fn never_unset(&self) -> bool {
        &&& self.current != Level::Unset
        &&& self.current == last_set(self.history@)
    }

    /// The levels passed to [`set_level`] on this state so far, in order.
    pub closed spec fn history_spec(&self) -> Seq<Level> {
        self.history@
    }

    /// The current level.
    pub closed spec fn level_spec(&self) -> Level {
        self.current
    }

    /// A fresh state at the default level `Info`.
    pub fn new() -> (s: LogState)
        ensures
            s.level_spec() == Level::Info,
            s.history_spec() == Seq::<Level>::empty(),
    {
        LogState { current: Level::Info, history: Ghost(Seq::empty()) }
    }

    pub fn level(&self) -> (l: Level)
        ensures
            l == self.level_spec(),
            l == last_set(self.history_spec()),
            l != Level::Unset,
    {
        proof {
            use_type_invariant(self);
        }
        self.current
    }
}

/// The level after setting `l` at level `cur`: `Unset` keeps `cur`.
pub open spec fn level_step(cur: Level, l: Level) -> Level {
    if l == Level::Unset {
        cur
    } else {
        l
    }
}

/// The level of a fresh state after setting each of `ls` in turn.
pub open spec fn level_after(ls: Seq<Level>) -> Level
    decreases ls.len(),
{
    if ls.len() == 0 {
        Level::Info
    } else {
        level_step(level_after(ls.drop_last()), ls.last())
    }
}

/// The last level of `ls` other than `Unset`, or `Info` where there is none.
pub open spec fn last_set(ls: Seq<Level>) -> Level
    decreases ls.len(),
{
    if ls.len() == 0 {
        Level::Info
    } else if ls.last() != Level::Unset {
        ls.last()
    } else {
        last_set(ls.drop_last())
    }
}

/// Over any history of [`set_level`] calls on a fresh state, the level is
/// the last one set other than `Unset` (`Info` where there is none), and a
/// message is printed exactly when its rank reaches that level's; setting
/// `Unset` changes no answer.
pub proof fn lemma_level_history(ls: Seq<Level>, l: Level)
    ensures
        level_after(ls) == last_set(ls),
        level_after(ls) != Level::Unset,
        level_after(ls.push(Level::Unset)) == level_after(ls),
        (rank(l) >= rank(level_after(ls))) == (rank(l) >= rank(last_set(ls))),
    decreases ls.len(),
{
    if ls.len() > 0 {
        lemma_level_history(ls.drop_last(), l);
    }
    assert(ls.push(Level::Unset).drop_last() == ls);
}

/// Sets the verbosity; `Unset` keeps the current level.
pub fn set_level(state: &mut LogState, l: Level)
    ensures
        final(state).level_spec() == level_step(old(state).level_spec(), l),
        final(state).history_spec() == old(state).history_spec().push(l),
        final(state).level_spec() != Level::Unset,
{
    proof {
        use_type_invariant(&*state);
    }
    let ghost h = state.history@.push(l);
    proof {
        assert(h.drop_last() =~= state.history@);
    }
    let cur = match l {
        Level::Unset => state.current,
        _ => l,
    };
    *state = LogState { current: cur, history: Ghost(h) };
}

/// Whether a message at level `l` is printed.
pub fn enabled(state: &LogState, l: Level) -> (b: bool)
    ensures
        b == (rank(l) >= rank(state.level_spec())),
        b == (rank(l) >= rank(last_set(state.history_spec()))),
        state.level_spec() != Level::Unset,
{
    proof {
        use_type_invariant(state);
    }
    rank_of(l) >= rank_of(state.current)
}

fn rank_of(l: Level) -> (r: u8)
    ensures
        r == rank(l),
{
    match l {
        Level::Unset => 0,
        Level::Debug => 1,
        Level::Info => 2,
        Level::Warn => 3,
        Level::Error => 4,
    }
}

/// The accepted spellings of the levels, after trimming and ASCII
/// lower-casing.
pub open spec fn level_of_word(w: Seq<char>) -> Option<Level> {
    if w == "debug"@ {
        Some(Level::Debug)
    } else if w == "info"@ {
        Some(Level::Info)
    } else if w == "warn"@ || w == "warning"@ {
        Some(Level::Warn)
    } else if w == "error"@ {
        Some(Level::Error)
    } else {
        None
    }
}

/// The message of a rejected level word.
pub open spec fn bad_level_message(s: Seq<char>) -> Seq<char> {
    "unknown log level "@ + text::quoted(s) + " (want debug|info|warn|error)"@
}

/// Maps a flag value (debug|info|warn|error, any case, surrounding
/// whitespace ignored) to a level.
pub fn parse_level(s: &str) -> (r: Result<Level, errors::Error>)
    ensures
        match r {
            Ok(l) => level_of_word(text::lower(text::trim(s@))) == Some(l),
            Err(e) => level_of_word(text::lower(text::trim(s@))) is None
                && e.kind_spec() == errors::Kind::Internal && e.class_spec() == errors::Kind::Internal
                && e.kind_spec() == errors::Kind::Internal
                && e.text_spec() == bad_level_message(s@),
        },
{
    let t = text::str_trim(s);
    let w = text::to_ascii_lower(t.as_str());
    if text::str_eq(w.as_str(), "debug") {
        Ok(Level::Debug)
    } else if text::str_eq(w.as_str(), "info") {
        Ok(Level::Info)
    } else if text::str_eq(w.as_str(), "warn") || text::str_eq(w.as_str(), "warning") {
        Ok(Level::Warn)
    } else if text::str_eq(w.as_str(), "error") {
        Ok(Level::Error)
    } else {
        let mut m = text::owned("unknown log level ");
        let q = text::quote(s);
        text::append(&mut m, q.as_str());
        text::append(&mut m, " (want debug|info|warn|error)");
        proof {
            reveal_strlit("unknown log level ");
        }
        assert(m@.len() > 0);
        Err(errors::Error::new(errors::Kind::Internal, m))
    }
}

/// The diagnostic line for `msg` at level `l`, when that level is enabled.
pub open spec fn line_spec(state: LogState, l: Level, msg: Seq<char>) -> Option<Seq<char>> {
    if rank(l) >= rank(state.level_spec()) {
        Some("xyz["@ + level_name(l) + "]: "@ + msg)
    } else {
        None
    }
}

fn emit(state: &LogState, l: Level, msg: &str) -> (r: Option<String>)
    ensures
        match r {
            Some(x) => line_spec(*state, l, msg@) == Some(x@),
            None => line_spec(*state, l, msg@) is None,
        },
{
    if !enabled(state, l) {
        return None;
    }
    let mut line = text::owned("xyz[");
    text::append(&mut line, l.as_str());
    text::append(&mut line, "]: ");
    text::append(&mut line, msg);
    Some(line)
}

/// The debug-level diagnostic line for `msg`, when debug is enabled.
pub fn debugf(state: &LogState, msg: &str) -> (r: Option<String>)
    ensures
        match r {
            Some(x) => line_spec(*state, Level::Debug, msg@) == Some(x@),
            None => line_spec(*state, Level::Debug, msg@) is None,
        },
{
    emit(state, Level::Debug, msg)
}

/// The info-level diagnostic line for `msg`, when info is enabled.
pub fn infof(state: &LogState, msg: &str) -> (r: Option<String>)
    ensures
        match r {
            Some(x) => line_spec(*state, Level::Info, msg@) == Some(x@),
            None => line_spec(*state, Level::Info, msg@) is None,
        },
{
    emit(state, Level::Info, msg)
}

/// The warn-level diagnostic line for `msg`, when warnings are enabled.
pub fn warnf(state: &LogState, msg: &str) -> (r: Option<String>)
    ensures
        match r {
            Some(x) => line_spec(*state, Level::Warn, msg@) == Some(x@),
            None => line_spec(*state, Level::Warn, msg@) is None,
        },
{
    emit(state, Level::Warn, msg)
}

/// The error-level diagnostic line for `msg`; error lines are always
/// enabled.
pub fn errorf(state: &LogState, msg: &str) -> (r: Option<String>)
    ensures
        r is Some,
        match r {
            Some(x) => line_spec(*state, Level::Error, msg@) == Some(x@),
            None => line_spec(*state, Level::Error, msg@) is None,
        },
{
    proof {
        use_type_invariant(state);
    }
    emit(state, Level::Error, msg)
}

/// Levels are monotone: whatever is printed at a level is printed at
/// every quieter level too, and the error level is never silenced.
pub proof fn lemma_enabled_monotone(state: LogState, l1: Level, l2: Level)
    requires
        rank(l1) <= rank(l2),
        rank(l1) >= rank(state.level_spec()),
    ensures
        rank(l2) >= rank(state.level_spec()),
{
}

} // verus!
