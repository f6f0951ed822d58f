//! Choosing the PipeWire/PulseAudio source to record from.
//!
//! The choice needs up to two `pactl` queries, the second depending on the
//! answer to the first. A [`TargetLookup`] makes the decisions: it names
//! the next query to run, takes its reply, and ends with the target (a node
//! serial or a source name) or an error message.
use vstd::prelude::*;

use crate::pactl::{listed_source_names, source_names, source_serial, spec_source_serial};
use crate::text::{
    chars_of, ends_with, is_trim_of, lemma_trim_is_trim_of, lemma_trim_unique, lines,
    range_ends_with, trim, trim_range, CharClass,
};

verus! {

/// A `pactl` query the lookup may ask for.
#[derive(Clone, Copy, PartialEq, Eq, Structural, Debug)]
pub enum PactlQuery {
    /// `pactl get-default-sink`
    DefaultSink,
    /// `pactl get-default-source`
    DefaultSource,
    /// `pactl list sources`
    ListSources,
    /// `pactl list short sources`
    ListShortSources,
}

/// How a `pactl` run ended.
pub enum PactlReply {
    /// It could not be started, or printed something that is not UTF-8;
    /// the message says why.
    Failed(String),
    /// It ran and exited with a failure status.
    Unsuccessful,
    /// It ran successfully and printed this.
    Printed(String),
}

/// Which source is looked for.
#[derive(Clone, Copy, PartialEq, Eq, Structural, Debug)]
pub enum TargetKind {
    /// The monitor of the default output: what the speakers play.
    Monitor,
    /// The default input: the microphone.
    Input,
}

/// Where a lookup stands.
pub enum LookupState {
    /// Waiting for the default sink (monitor) or source (input).
    AwaitDefault,
    /// Waiting for the source details, to find the serial of this source.
    AwaitDetails(Seq<char>),
    /// Waiting for the short source list, to pick a source from it.
    AwaitShortList,
    /// Done; nothing more to ask.
    Finished,
}

/// A `pactl` reply as values.
pub enum ReplyView {
    Failed(Seq<char>),
    Unsuccessful,
    Printed(Seq<char>),
}

/// What the lookup wants next, as values.
pub enum StepView {
    Run(PactlQuery),
    Done(Result<Seq<char>, Seq<char>>),
}

/// The reply as values.
pub open spec fn reply_view(reply: PactlReply) -> ReplyView {
    match reply {
        PactlReply::Failed(e) => ReplyView::Failed(e@),
        PactlReply::Unsuccessful => ReplyView::Unsuccessful,
        PactlReply::Printed(out) => ReplyView::Printed(out@),
    }
}

/// The outcome as values.
pub open spec fn result_view(r: Result<String, String>) -> Result<Seq<char>, Seq<char>> {
    match r {
        Ok(s) => Ok(s@),
        Err(e) => Err(e@),
    }
}

/// The next step as values.
pub open spec fn step_view(step: LookupStep) -> StepView {
    match step {
        LookupStep::Run(q) => StepView::Run(q),
        LookupStep::Done(r) => StepView::Done(result_view(r)),
    }
}

/// The query that opens a lookup.
pub open spec fn first_query(kind: TargetKind) -> PactlQuery {
    match kind {
        TargetKind::Monitor => PactlQuery::DefaultSink,
        TargetKind::Input => PactlQuery::DefaultSource,
    }
}

/// The source name that the default sink or source printed in `out`
/// points at, if it is usable: for the monitor, `<sink>.monitor` of a
/// non-empty sink; for the input, a non-empty source that is no monitor.
pub open spec fn default_candidate(kind: TargetKind, out: Seq<char>) -> Option<Seq<char>> {
    let t = trim(out);
    match kind {
        TargetKind::Monitor => if t.len() > 0 {
            Some(t + ".monitor"@)
        } else {
            None
        },
        TargetKind::Input => if t.len() > 0 && !ends_with(t, ".monitor"@) {
            Some(t)
        } else {
            None
        },
    }
}

/// Whether `name` is a source the fallback may pick.
pub open spec fn fits(kind: TargetKind, name: Seq<char>) -> bool {
    match kind {
        TargetKind::Monitor => ends_with(name, ".monitor"@),
        TargetKind::Input => !ends_with(name, ".monitor"@),
    }
}

/// The first of `names` that fits `kind`.
pub open spec fn first_fitting(kind: TargetKind, names: Seq<Seq<char>>) -> Option<Seq<char>>
    decreases names.len(),
{
    if names.len() == 0 {
        None
    } else if fits(kind, names[0]) {
        Some(names[0])
    } else {
        first_fitting(kind, names.drop_first())
    }
}

/// The message when the fallback finds no source.
pub open spec fn no_source_message(kind: TargetKind) -> Seq<char> {
    match kind {
        TargetKind::Monitor => "No PipeWire/Pulse monitor source found. Make sure an audio output device is available."@,
        TargetKind::Input => "No PipeWire/Pulse microphone source found. Connect a microphone and set a default input device."@,
    }
}

/// One decision of a lookup: its next state and what it wants next, given
/// the reply to the query it asked for.
pub open spec fn spec_advance(kind: TargetKind, state: LookupState, reply: ReplyView) -> (
    LookupState,
    StepView,
) {
    match state {
        LookupState::AwaitDefault => match reply {
            ReplyView::Failed(e) => (LookupState::Finished, StepView::Done(Err(e))),
            ReplyView::Printed(out) => match default_candidate(kind, out) {
                Some(c) => (LookupState::AwaitDetails(c), StepView::Run(PactlQuery::ListSources)),
                None => (LookupState::AwaitShortList, StepView::Run(PactlQuery::ListShortSources)),
            },
            ReplyView::Unsuccessful => (
                LookupState::AwaitShortList,
                StepView::Run(PactlQuery::ListShortSources),
            ),
        },
        LookupState::AwaitDetails(c) => (
            LookupState::Finished,
            StepView::Done(
                match reply {
                    ReplyView::Failed(e) => Err(e),
                    ReplyView::Unsuccessful => Err("pactl returned no source details"@),
                    ReplyView::Printed(details) => match spec_source_serial(details, c) {
                        Some(serial) => Ok(serial),
                        None => Ok(c),
                    },
                },
            ),
        ),
        LookupState::AwaitShortList => (
            LookupState::Finished,
            StepView::Done(
                match reply {
                    ReplyView::Failed(e) => Err(e),
                    ReplyView::Unsuccessful => Err("pactl returned no sources"@),
                    ReplyView::Printed(list) => match first_fitting(
                        kind,
                        source_names(lines(list)),
                    ) {
                        Some(name) => Ok(name),
                        None => Err(no_source_message(kind)),
                    },
                },
            ),
        ),
        LookupState::Finished => (LookupState::Finished, StepView::Done(Err(Seq::empty()))),
    }
}

/// What the lookup decides as a whole, given the reply to each query it may
/// ask: the default (sink or source), the source details and the short
/// source list. The details are read only when the default names a usable
/// source, the short list only when it does not.
pub open spec fn spec_target(
    kind: TargetKind,
    default_reply: ReplyView,
    details_reply: ReplyView,
    list_reply: ReplyView,
) -> Result<Seq<char>, Seq<char>> {
    let candidate = match default_reply {
        ReplyView::Printed(out) => default_candidate(kind, out),
        _ => None,
    };
    if default_reply is Failed {
        Err(default_reply->Failed_0)
    } else if candidate is Some {
        let c = candidate->0;
        match details_reply {
            ReplyView::Failed(e) => Err(e),
            ReplyView::Unsuccessful => Err("pactl returned no source details"@),
            ReplyView::Printed(details) => match spec_source_serial(details, c) {
                Some(serial) => Ok(serial),
                None => Ok(c),
            },
        }
    } else {
        match list_reply {
            ReplyView::Failed(e) => Err(e),
            ReplyView::Unsuccessful => Err("pactl returned no sources"@),
            ReplyView::Printed(list) => match first_fitting(kind, source_names(lines(list))) {
                Some(name) => Ok(name),
                None => Err(no_source_message(kind)),
            },
        }
    }
}

/// The reply that answers `query`.
pub open spec fn reply_for(
    query: PactlQuery,
    details_reply: ReplyView,
    list_reply: ReplyView,
) -> ReplyView {
    match query {
        PactlQuery::ListSources => details_reply,
        _ => list_reply,
    }
}

/// `names[j]` is the first of `names` that fits `kind`.
pub open spec fn earliest_fit(kind: TargetKind, names: Seq<Seq<char>>, j: int) -> bool {
    &&& 0 <= j < names.len()
    &&& fits(kind, names[j])
    &&& forall|i: int| 0 <= i < j ==> !fits(kind, #[trigger] names[i])
}

/// The fallback picks the earliest name that fits, and nothing when no
/// name fits.
pub proof fn lemma_first_fitting_is_earliest(kind: TargetKind, names: Seq<Seq<char>>)
    ensures
        forall|j: int| #[trigger]
            earliest_fit(kind, names, j) ==> first_fitting(kind, names) == Some(names[j]),
        (forall|i: int| 0 <= i < names.len() ==> !fits(kind, #[trigger] names[i])) ==> first_fitting(
            kind,
            names,
        ) is None,
    decreases names.len(),
{
    if names.len() > 0 {
        let rest = names.drop_first();
        lemma_first_fitting_is_earliest(kind, rest);
        assert forall|j: int| #[trigger] earliest_fit(kind, names, j) implies first_fitting(
            kind,
            names,
        ) == Some(names[j]) by {
            if j > 0 {
                assert(!fits(kind, names[0]));
                assert forall|i: int| 0 <= i < j - 1 implies !fits(kind, #[trigger] rest[i]) by {
                    assert(rest[i] == names[i + 1]);
                }
                assert(rest[j - 1] == names[j]);
                assert(earliest_fit(kind, rest, j - 1));
            }
        }
        if forall|i: int| 0 <= i < names.len() ==> !fits(kind, #[trigger] names[i]) {
            assert(!fits(kind, names[0]));
            assert forall|i: int| 0 <= i < rest.len() implies !fits(kind, #[trigger] rest[i]) by {
                assert(rest[i] == names[i + 1]);
            }
        }
    }
}

/// The source a usable default names is the default's output with the
/// white space at both ends removed (with `.monitor` appended for the
/// monitor); it is usable exactly when that trimmed output is non-empty
/// and, for the input, is not itself a monitor.
pub proof fn lemma_default_candidate_is_trimmed(kind: TargetKind, out: Seq<char>)
    ensures
        default_candidate(kind, out) matches Some(c) ==> exists|t: Seq<char>|
            #[trigger] is_trim_of(t, out) && t.len() > 0 && match kind {
                TargetKind::Monitor => c == t + ".monitor"@,
                TargetKind::Input => c == t && !ends_with(t, ".monitor"@),
            },
        forall|t: Seq<char>| #[trigger]
            is_trim_of(t, out) && t.len() > 0 ==> default_candidate(kind, out) == match kind {
                TargetKind::Monitor => Some(t + ".monitor"@),
                TargetKind::Input => if ends_with(t, ".monitor"@) {
                    None
                } else {
                    Some(t)
                },
            },
        (forall|i: int| 0 <= i < out.len() ==> crate::text::is_white_space(#[trigger] out[i]))
            ==> default_candidate(kind, out) is None,
{
    lemma_trim_is_trim_of(out);
    let t0 = trim(out);
    assert forall|t: Seq<char>| #[trigger] is_trim_of(t, out) && t.len() > 0 implies default_candidate(
        kind,
        out,
    ) == match kind {
        TargetKind::Monitor => Some(t + ".monitor"@),
        TargetKind::Input => if ends_with(t, ".monitor"@) {
            None
        } else {
            Some(t)
        },
    } by {
        lemma_trim_unique(out, t, t0);
    }
    if forall|i: int| 0 <= i < out.len() ==> crate::text::is_white_space(#[trigger] out[i]) {
        if t0.len() > 0 {
            let a = choose|a: int|
                #![trigger out.subrange(a, a + t0.len())]
                {
                    &&& 0 <= a
                    &&& a + t0.len() <= out.len()
                    &&& out.subrange(a, a + t0.len()) == t0
                    &&& forall|i: int| 0 <= i < a ==> crate::text::is_white_space(#[trigger] out[i])
                    &&& forall|i: int|
                        a + t0.len() <= i < out.len() ==> crate::text::is_white_space(
                            #[trigger] out[i],
                        )
                };
            assert(t0[0] == out[a]);
        }
    }
}

/// A default query that fails (as `pactl` before version 15 does) or prints
/// nothing but white space makes the lookup ask for the short source list,
/// for either kind; the lookup then ends with the earliest listed source
/// that fits, or with the "no source" message when none fits. Either way
/// the outcome depends on the list alone.
pub proof fn lemma_no_default_falls_back(
    kind: TargetKind,
    default_reply: ReplyView,
    details_reply: ReplyView,
    list: Seq<char>,
)
    requires
        default_reply is Unsuccessful || (default_reply matches ReplyView::Printed(out) && forall|
            i: int,
        |
            0 <= i < out.len() ==> crate::text::is_white_space(#[trigger] out[i])),
    ensures
        spec_advance(kind, LookupState::AwaitDefault, default_reply) == (
            LookupState::AwaitShortList,
            StepView::Run(PactlQuery::ListShortSources),
        ),
        forall|j: int| #[trigger]
            earliest_fit(kind, source_names(lines(list)), j) ==> spec_target(
                kind,
                default_reply,
                details_reply,
                ReplyView::Printed(list),
            ) == Ok::<Seq<char>, Seq<char>>(source_names(lines(list))[j]),
        (forall|i: int|
            0 <= i < source_names(lines(list)).len() ==> !fits(
                kind,
                #[trigger] source_names(lines(list))[i],
            )) ==> spec_target(kind, default_reply, details_reply, ReplyView::Printed(list))
            == Err::<Seq<char>, Seq<char>>(no_source_message(kind)),
{
    if let ReplyView::Printed(out) = default_reply {
        lemma_default_candidate_is_trimmed(kind, out);
    }
    lemma_first_fitting_is_earliest(kind, source_names(lines(list)));
}

/// A lookup ends within two replies, and with what [`spec_target`] says:
/// answering the first query with `default_reply`, and the query it asks
/// for next (if any) with the matching one of `details_reply` and
/// `list_reply`, gives `spec_target(kind, default_reply, details_reply,
/// list_reply)`.
pub proof fn lemma_lookup_outcome(
    kind: TargetKind,
    default_reply: ReplyView,
    details_reply: ReplyView,
    list_reply: ReplyView,
)
    ensures
        ({
            let (s1, step1) = spec_advance(kind, LookupState::AwaitDefault, default_reply);
            match step1 {
                StepView::Done(r) => r == spec_target(
                    kind,
                    default_reply,
                    details_reply,
                    list_reply,
                ),
                StepView::Run(q) => {
                    let (s2, step2) = spec_advance(
                        kind,
                        s1,
                        reply_for(q, details_reply, list_reply),
                    );
                    &&& s2 is Finished
                    &&& step2 == StepView::Done(
                        spec_target(kind, default_reply, details_reply, list_reply),
                    )
                    &&& (q == PactlQuery::ListSources || q == PactlQuery::ListShortSources)
                },
            }
        }),
{
}

/// What a lookup wants next.
pub enum LookupStep {
    /// Run this query and hand its reply to [`TargetLookup::advance`].
    Run(PactlQuery),
    /// The lookup is over: the target, or why there is none.
    Done(Result<String, String>),
}

enum Stage {
    AwaitDefault,
    AwaitDetails(String),
    AwaitShortList,
    Finished,
}

/// The state of one lookup of a recording target.
pub struct TargetLookup {
    kind: TargetKind,
    stage: Stage,
}

impl TargetLookup {
    /// Which source this lookup looks for.
    pub closed spec fn kind(&self) -> TargetKind {
        self.kind
    }

    /// Where this lookup stands.
    pub closed spec fn state(&self) -> LookupState {
        match self.stage {
            Stage::AwaitDefault => LookupState::AwaitDefault,
            Stage::AwaitDetails(c) => LookupState::AwaitDetails(c@),
            Stage::AwaitShortList => LookupState::AwaitShortList,
            Stage::Finished => LookupState::Finished,
        }
    }

    /// Starts a lookup for `kind`; also returns the first query to run.
    pub fn start(kind: TargetKind) -> (r: (TargetLookup, PactlQuery))
        ensures
            r.0.kind() == kind,
            r.0.state() is AwaitDefault,
            r.1 == first_query(kind),
    {
        let query = match kind {
            TargetKind::Monitor => PactlQuery::DefaultSink,
            TargetKind::Input => PactlQuery::DefaultSource,
        };
        (TargetLookup { kind, stage: Stage::AwaitDefault }, query)
    }

    /// Whether the lookup is over.
    pub fn is_finished(&self) -> (r: bool)
        ensures
            r == self.state() is Finished,
    {
        match self.stage {
            Stage::Finished => true,
            _ => false,
        }
    }

    /// Takes the reply to the query asked for last and decides what comes
    /// next.
    pub fn advance(&mut self, reply: PactlReply) -> (step: LookupStep)
        requires
            !(old(self).state() is Finished),
        ensures
            final(self).kind() == old(self).kind(),
            (final(self).state(), step_view(step)) == spec_advance(
                old(self).kind(),
                old(self).state(),
                reply_view(reply),
            ),
    {
        let mut stage = Stage::Finished;
        std::mem::swap(&mut stage, &mut self.stage);
        match stage {
            Stage::AwaitDefault => match reply {
                PactlReply::Failed(e) => LookupStep::Done(Err(e)),
                PactlReply::Unsuccessful => {
                    self.stage = Stage::AwaitShortList;
                    LookupStep::Run(PactlQuery::ListShortSources)
                },
                PactlReply::Printed(out) => match usable_default(self.kind, out.as_str()) {
                    Some(candidate) => {
                        self.stage = Stage::AwaitDetails(candidate);
                        LookupStep::Run(PactlQuery::ListSources)
                    },
                    None => {
                        self.stage = Stage::AwaitShortList;
                        LookupStep::Run(PactlQuery::ListShortSources)
                    },
                },
            },
            Stage::AwaitDetails(candidate) => LookupStep::Done(
                match reply {
                    PactlReply::Failed(e) => Err(e),
                    PactlReply::Unsuccessful => Err(
                        String::from_str("pactl returned no source details"),
                    ),
                    PactlReply::Printed(details) => match source_serial(
                        details.as_str(),
                        candidate.as_str(),
                    ) {
                        Some(serial) => Ok(serial),
                        None => Ok(candidate),
                    },
                },
            ),
            Stage::AwaitShortList => LookupStep::Done(
                match reply {
                    PactlReply::Failed(e) => Err(e),
                    PactlReply::Unsuccessful => Err(String::from_str("pactl returned no sources")),
                    PactlReply::Printed(list) => {
                        let names = listed_source_names(list.as_str());
                        match first_fitting_name(self.kind, &names) {
                            Some(name) => Ok(name),
                            None => Err(no_source_error(self.kind)),
                        }
                    },
                },
            ),
            Stage::Finished => LookupStep::Done(Err(String::new())),
        }
    }
}

/// The source that the default printed in `out` points at, if usable.
fn usable_default(kind: TargetKind, out: &str) -> (c: Option<String>)
    ensures
        match c {
            Some(s) => default_candidate(kind, out@) == Some(s@),
            None => default_candidate(kind, out@) is None,
        },
{
    let chars = chars_of(out);
    let (a, b) = trim_range(&chars, 0, chars.len(), CharClass::WhiteSpace);
    assert(chars@.subrange(0, chars@.len() as int) =~= chars@);
    if a == b {
        return None;
    }
    let trimmed = String::from_str(out.substring_char(a, b));
    match kind {
        TargetKind::Monitor => Some(trimmed.concat(".monitor")),
        TargetKind::Input => if range_ends_with(&chars, a, b, ".monitor") {
            None
        } else {
            Some(trimmed)
        },
    }
}

/// Whether the source `name` fits `kind`.
fn name_fits(kind: TargetKind, name: &String) -> (r: bool)
    ensures
        r == fits(kind, name@),
{
    let chars = chars_of(name.as_str());
    let is_monitor = range_ends_with(&chars, 0, chars.len(), ".monitor");
    assert(chars@.subrange(0, chars@.len() as int) =~= chars@);
    match kind {
        TargetKind::Monitor => is_monitor,
        TargetKind::Input => !is_monitor,
    }
}

/// The first of `names` that fits `kind`.
fn first_fitting_name(kind: TargetKind, names: &Vec<String>) -> (r: Option<String>)
    ensures
        match r {
            Some(s) => first_fitting(kind, names.deep_view()) == Some(s@),
            None => first_fitting(kind, names.deep_view()) is None,
        },
        match r {
            Some(s) => exists|j: int| #[trigger]
                earliest_fit(kind, names.deep_view(), j) && names.deep_view()[j] == s@,
            None => forall|i: int|
                0 <= i < names@.len() ==> !fits(kind, #[trigger] names.deep_view()[i]),
        },
{
    let n = names.len();
    let ghost all = names.deep_view();
    let mut i: usize = 0;
    assert(all.skip(0) =~= all);
    while i < n
        invariant
            n == names@.len(),
            all == names.deep_view(),
            i <= n,
            first_fitting(kind, all) == first_fitting(kind, all.skip(i as int)),
            forall|k: int| 0 <= k < i ==> !fits(kind, #[trigger] all[k]),
        decreases n - i,
    {
        assert(all.skip(i as int)[0] == names@[i as int]@);
        assert(all.skip(i as int).drop_first() =~= all.skip(i + 1));
        if name_fits(kind, &names[i]) {
            assert(all[i as int] == names@[i as int]@);
            assert(earliest_fit(kind, all, i as int));
            return Some(names[i].clone());
        }
        i = i + 1;
    }
    None
}

/// The message when no fitting source is listed.
fn no_source_error(kind: TargetKind) -> (e: String)
    ensures
        e@ == no_source_message(kind),
{
    match kind {
        TargetKind::Monitor => String::from_str(
            "No PipeWire/Pulse monitor source found. Make sure an audio output device is available.",
        ),
        TargetKind::Input => String::from_str(
            "No PipeWire/Pulse microphone source found. Connect a microphone and set a default input device.",
        ),
    }
}

/// Starts looking for the monitor of the default output (system audio):
/// the lookup, and the first query to run (`pactl get-default-sink`).
pub fn default_monitor_target() -> (r: (TargetLookup, PactlQuery))
    ensures
        r.0.kind() == TargetKind::Monitor,
        r.0.state() is AwaitDefault,
        r.1 == PactlQuery::DefaultSink,
{
    TargetLookup::start(TargetKind::Monitor)
}

/// Starts looking for the default input (microphone): the lookup, and the
/// first query to run (`pactl get-default-source`).
pub fn default_input_target() -> (r: (TargetLookup, PactlQuery))
    ensures
        r.0.kind() == TargetKind::Input,
        r.0.state() is AwaitDefault,
        r.1 == PactlQuery::DefaultSource,
{
    TargetLookup::start(TargetKind::Input)
}

} // verus!
