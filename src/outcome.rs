//! Outcomes of running one VT against one host.
use vstd::prelude::*;
use vstd::string::*;
use crate::preconditions::Protocol;

verus! {

/// How running one VT against one host ended.
#[derive(Clone, Debug, PartialEq, Eq)]
pub enum ScriptResultKind {
    /// The script ran and exited with this code.
    ReturnCode(i64),
    /// The script ran and failed with this runtime error.
    Error(String),
    /// A required knowledge-base key is missing.
    MissingRequiredKey(String),
    /// A mandatory knowledge-base key is missing or could not be read.
    MissingMandatoryKey(String),
    /// A knowledge-base key that the script excludes is present.
    ContainsExcludedKey(String),
    /// A required port is not marked as enabled.
    MissingPort(Protocol, String),
    /// The script was invoked with parameters, which cannot be bound yet.
    Parameter,
}

/// The outcome is one of the reasons for which a script is never started.
pub open spec fn is_not_run(kind: ScriptResultKind) -> bool {
    match kind {
        ScriptResultKind::ReturnCode(_) => false,
        ScriptResultKind::Error(_) => false,
        _ => true,
    }
}

/// The outcome of running one VT against one host.
#[derive(Clone, Debug, PartialEq, Eq)]
pub struct ScriptResult {
    pub oid: String,
    pub filename: String,
    /// Index of the stage the VT was scheduled in.
    pub stage: usize,
    pub kind: ScriptResultKind,
    pub target: String,
}

impl ScriptResult {
    /// The script ran and returned the exit code 0.
    pub fn has_succeeded(&self) -> (r: bool)
        ensures
            r == (self.kind == ScriptResultKind::ReturnCode(0)),
    {
        match self.kind {
            ScriptResultKind::ReturnCode(c) => c == 0,
            _ => false,
        }
    }

    /// The script did not succeed.
    pub fn has_failed(&self) -> (r: bool)
        ensures
            r == (self.kind != ScriptResultKind::ReturnCode(0)),
    {
        !self.has_succeeded()
    }

    /// The script was never started: a precondition or its parameters stopped it.
    pub fn has_not_run(&self) -> (r: bool)
        ensures
            r == is_not_run(self.kind),
    {
        match self.kind {
            ScriptResultKind::ReturnCode(_) => false,
            ScriptResultKind::Error(_) => false,
            _ => true,
        }
    }
}

/// What a script executor produced while running a script, as far as the
/// outcome is concerned.
#[derive(Clone, Debug, PartialEq, Eq)]
pub enum ScriptEvent {
    /// The script called `exit` with this code.
    Exit(i64),
    /// The script failed with this runtime error.
    Error(String),
    /// Any other produced value.
    Value,
}

/// An event that decides the outcome of a run.
pub open spec fn is_decisive(e: ScriptEvent) -> bool {
    !(e is Value)
}

/// `i` is the first decisive event of `events`.
pub open spec fn first_decisive_at(events: Seq<ScriptEvent>, i: int) -> bool {
    &&& 0 <= i < events.len()
    &&& is_decisive(events[i])
    &&& forall|j: int| 0 <= j < i ==> !is_decisive(#[trigger] events[j])
}

/// `r` is the outcome of a run that produced `events`: the first exit code
/// or runtime error, and the exit code 0 when there is neither.
pub open spec fn is_outcome(events: Seq<ScriptEvent>, r: ScriptResultKind) -> bool {
    if exists|i: int| first_decisive_at(events, i) {
        let i = choose|i: int| first_decisive_at(events, i);
        match events[i] {
            ScriptEvent::Exit(c) => r == ScriptResultKind::ReturnCode(c),
            ScriptEvent::Error(e) => r matches ScriptResultKind::Error(m) && m@ == e@,
            ScriptEvent::Value => false,
        }
    } else {
        r == ScriptResultKind::ReturnCode(0)
    }
}

/// The outcome of a script run from what the executor produced.
pub fn outcome_of(events: &Vec<ScriptEvent>) -> (r: ScriptResultKind)
    ensures
        is_outcome(events@, r),
{
    let ghost ev = events@;
    let mut i: usize = 0;
    while i < events.len()
        invariant
            events@ == ev,
            i <= ev.len(),
            forall|j: int| 0 <= j < i ==> !is_decisive(#[trigger] ev[j]),
        decreases ev.len() - i,
    {
        match &events[i] {
            ScriptEvent::Value => {},
            ScriptEvent::Exit(c) => {
                proof {
                    lemma_first_decisive_unique(ev, i as int);
                }
                return ScriptResultKind::ReturnCode(*c);
            },
            ScriptEvent::Error(e) => {
                proof {
                    lemma_first_decisive_unique(ev, i as int);
                }
                let m = String::from_str(e.as_str());
                assert(ev[i as int] == ScriptEvent::Error(*e));
                assert(m@ == e@);
                return ScriptResultKind::Error(m);
            },
        }
        i += 1;
    }
    ScriptResultKind::ReturnCode(0)
}

proof fn lemma_first_decisive_unique(ev: Seq<ScriptEvent>, i: int)
    requires
        first_decisive_at(ev, i),
    ensures
        exists|c: int| first_decisive_at(ev, c),
        (choose|c: int| first_decisive_at(ev, c)) == i,
{
    let c = choose|c: int| first_decisive_at(ev, c);
    if c < i {
        assert(!is_decisive(ev[c]));
    } else if c > i {
        assert(!is_decisive(ev[i]));
    }
}

} // verus!
