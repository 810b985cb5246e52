//! The stage-based deployment state machine: each completed event of a revision leads to the
//! events that come next, given what the database says about the pipeline's layout.
use vstd::prelude::*;
use crate::arch::HostArchitecture;
use crate::text::{push_text, str_eq};

verus! {

/// A step of a revision's way through a deployment pipeline.
#[derive(Debug)]
pub enum Event {
    PipelineStarted { pipeline_id: String },
    PipelineFinished { pipeline_id: String },
    StageStarted { stage_id: String },
    ArtifactRegistered { stage_id: String, arch: HostArchitecture },
    StageFinished { stage_id: String },
    HostGroupStarted { host_group_id: String },
    HostGroupFinished { host_group_id: String },
    HostStarted { host_group_id: String, host: String },
    HostArtifactReplicated { host_group_id: String, host: String },
    HostArtifactDeployed { host_group_id: String, host: String },
    HostFinished { host_group_id: String, host: String },
}

/// An [`Event`] with its text fields as character sequences.
pub enum EventView {
    PipelineStarted { pipeline_id: Seq<char> },
    PipelineFinished { pipeline_id: Seq<char> },
    StageStarted { stage_id: Seq<char> },
    ArtifactRegistered { stage_id: Seq<char>, arch: HostArchitecture },
    StageFinished { stage_id: Seq<char> },
    HostGroupStarted { host_group_id: Seq<char> },
    HostGroupFinished { host_group_id: Seq<char> },
    HostStarted { host_group_id: Seq<char>, host: Seq<char> },
    HostArtifactReplicated { host_group_id: Seq<char>, host: Seq<char> },
    HostArtifactDeployed { host_group_id: Seq<char>, host: Seq<char> },
    HostFinished { host_group_id: Seq<char>, host: Seq<char> },
}

impl Event {
    pub open spec fn view(self) -> EventView {
        match self {
            Event::PipelineStarted { pipeline_id } => EventView::PipelineStarted { pipeline_id: pipeline_id@ },
            Event::PipelineFinished { pipeline_id } => EventView::PipelineFinished { pipeline_id: pipeline_id@ },
            Event::StageStarted { stage_id } => EventView::StageStarted { stage_id: stage_id@ },
            Event::ArtifactRegistered { stage_id, arch } => EventView::ArtifactRegistered { stage_id: stage_id@, arch },
            Event::StageFinished { stage_id } => EventView::StageFinished { stage_id: stage_id@ },
            Event::HostGroupStarted { host_group_id } => EventView::HostGroupStarted { host_group_id: host_group_id@ },
            Event::HostGroupFinished { host_group_id } => EventView::HostGroupFinished { host_group_id: host_group_id@ },
            Event::HostStarted { host_group_id, host } => EventView::HostStarted { host_group_id: host_group_id@, host: host@ },
            Event::HostArtifactReplicated { host_group_id, host } => EventView::HostArtifactReplicated {
                host_group_id: host_group_id@,
                host: host@,
            },
            Event::HostArtifactDeployed { host_group_id, host } => EventView::HostArtifactDeployed {
                host_group_id: host_group_id@,
                host: host@,
            },
            Event::HostFinished { host_group_id, host } => EventView::HostFinished { host_group_id: host_group_id@, host: host@ },
        }
    }
}

/// An event of one revision: `(revision id, event)`.
#[derive(Debug)]
pub struct DeploymentEvent(pub String, pub Event);

impl DeploymentEvent {
    pub open spec fn view(self) -> (Seq<char>, EventView) {
        (self.0@, self.1.view())
    }
}

/// The views of a sequence of events.
pub open spec fn events_view(s: Seq<DeploymentEvent>) -> Seq<(Seq<char>, EventView)> {
    Seq::new(s.len(), |k: int| s[k].view())
}

/// Copies a string.
fn copy(s: &String) -> (r: String)
    ensures
        r@ == s@,
{
    s.clone()
}

/// Copies an event.
pub fn clone_event(e: &Event) -> (r: Event)
    ensures
        r.view() == e.view(),
{
    match e {
        Event::PipelineStarted { pipeline_id } => Event::PipelineStarted { pipeline_id: copy(pipeline_id) },
        Event::PipelineFinished { pipeline_id } => Event::PipelineFinished { pipeline_id: copy(pipeline_id) },
        Event::StageStarted { stage_id } => Event::StageStarted { stage_id: copy(stage_id) },
        Event::ArtifactRegistered { stage_id, arch } => Event::ArtifactRegistered { stage_id: copy(stage_id), arch: *arch },
        Event::StageFinished { stage_id } => Event::StageFinished { stage_id: copy(stage_id) },
        Event::HostGroupStarted { host_group_id } => Event::HostGroupStarted { host_group_id: copy(host_group_id) },
        Event::HostGroupFinished { host_group_id } => Event::HostGroupFinished { host_group_id: copy(host_group_id) },
        Event::HostStarted { host_group_id, host } => Event::HostStarted { host_group_id: copy(host_group_id), host: copy(host) },
        Event::HostArtifactReplicated { host_group_id, host } => Event::HostArtifactReplicated {
            host_group_id: copy(host_group_id),
            host: copy(host),
        },
        Event::HostArtifactDeployed { host_group_id, host } => Event::HostArtifactDeployed {
            host_group_id: copy(host_group_id),
            host: copy(host),
        },
        Event::HostFinished { host_group_id, host } => Event::HostFinished { host_group_id: copy(host_group_id), host: copy(host) },
    }
}

impl DeploymentEvent {
    /// The same event, for another revision.
    pub fn for_other_revision(&self, rev: String) -> (r: DeploymentEvent)
        ensures
            r.view() == (rev@, self.1.view()),
    {
        DeploymentEvent(rev, clone_event(&self.1))
    }
}

/// What the database must be asked before the successors of an event can be decided.
#[derive(Debug)]
pub enum TransitionLookup {
    /// Nothing: the event alone decides.
    Nothing,
    /// The stages of the pipeline that no other stage precedes.
    InitialStages { pipeline_id: String },
    /// The stage's type, with the known architectures and the stage's host groups.
    Stage { stage_id: String },
    /// The hosts of the host group.
    HostGroupHosts { host_group_id: String },
    /// The stage the host group belongs to.
    StageOfHostGroup { host_group_id: String },
    /// The stage's pipeline and the stages that come right after it.
    StageSuccessors { stage_id: String },
}

/// What the database answered; `Missing` when the row looked up does not exist.
#[derive(Debug)]
pub enum LookupResult {
    Nothing,
    StageIds(Vec<String>),
    Stage { stage_type: String, architectures: Vec<HostArchitecture>, host_group_ids: Vec<String> },
    Hosts(Vec<String>),
    StageId(String),
    Successors { pipeline_id: String, next_stage_ids: Vec<String> },
    Missing,
}

/// Why a transition could not be decided.
#[derive(Debug)]
pub enum PipelineError {
    UnknownStep(DeploymentEvent),
    DatabaseError(String),
}

/// The events that follow a completed event.
pub struct Transition {
    pub next: Vec<DeploymentEvent>,
}

/// Which lookup an event needs.
pub open spec fn lookup_kind(e: EventView) -> int {
    match e {
        EventView::PipelineStarted { .. } => 1,
        EventView::StageStarted { .. } => 2,
        EventView::HostGroupStarted { .. } => 3,
        EventView::HostGroupFinished { .. } => 4,
        EventView::StageFinished { .. } => 5,
        _ => 0,
    }
}

/// The answer has the shape the event's lookup asks for (or reports the row missing).
pub open spec fn answer_fits(e: EventView, found: LookupResult) -> bool {
    match found {
        LookupResult::Nothing => lookup_kind(e) == 0,
        LookupResult::StageIds(_) => lookup_kind(e) == 1,
        LookupResult::Stage { host_group_ids, stage_type, .. } => lookup_kind(e) == 2 && (stage_type@
            == "deploy"@ ==> host_group_ids.len() > 0),
        LookupResult::Hosts(_) => lookup_kind(e) == 3,
        LookupResult::StageId(_) => lookup_kind(e) == 4,
        LookupResult::Successors { .. } => lookup_kind(e) == 5,
        LookupResult::Missing => lookup_kind(e) == 2 || lookup_kind(e) == 3 || lookup_kind(e) == 4 || lookup_kind(e) == 5,
    }
}

impl TransitionLookup {
    /// The lookup that deciding the successors of `event` needs.
    pub fn for_event(event: &DeploymentEvent) -> (r: TransitionLookup)
        ensures
            match (event.1.view(), r) {
                (EventView::PipelineStarted { pipeline_id }, TransitionLookup::InitialStages { pipeline_id: p }) => p@ == pipeline_id,
                (EventView::StageStarted { stage_id }, TransitionLookup::Stage { stage_id: s }) => s@ == stage_id,
                (EventView::HostGroupStarted { host_group_id }, TransitionLookup::HostGroupHosts { host_group_id: h }) => h@
                    == host_group_id,
                (EventView::HostGroupFinished { host_group_id }, TransitionLookup::StageOfHostGroup { host_group_id: h }) => h@
                    == host_group_id,
                (EventView::StageFinished { stage_id }, TransitionLookup::StageSuccessors { stage_id: s }) => s@ == stage_id,
                (e, TransitionLookup::Nothing) => lookup_kind(e) == 0,
                _ => false,
            },
    {
        match &event.1 {
            Event::PipelineStarted { pipeline_id } => TransitionLookup::InitialStages { pipeline_id: copy(pipeline_id) },
            Event::StageStarted { stage_id } => TransitionLookup::Stage { stage_id: copy(stage_id) },
            Event::HostGroupStarted { host_group_id } => TransitionLookup::HostGroupHosts { host_group_id: copy(host_group_id) },
            Event::HostGroupFinished { host_group_id } => TransitionLookup::StageOfHostGroup { host_group_id: copy(host_group_id) },
            Event::StageFinished { stage_id } => TransitionLookup::StageSuccessors { stage_id: copy(stage_id) },
            _ => TransitionLookup::Nothing,
        }
    }
}

/// The events of revision `rev` that follow `e`, given the database's answer; `None` when the
/// answer says a row is missing or names an unknown stage type.
pub open spec fn successors(rev: Seq<char>, e: EventView, found: LookupResult) -> Option<Seq<(Seq<char>, EventView)>> {
    match found {
        LookupResult::Missing => None,
        _ => match e {
            EventView::PipelineStarted { .. } => match found {
                LookupResult::StageIds(ids) => Some(
                    Seq::new(ids.len() as nat, |k: int| (rev, EventView::StageStarted { stage_id: ids@[k]@ })),
                ),
                _ => None,
            },
            EventView::StageStarted { stage_id } => match found {
                LookupResult::Stage { stage_type, architectures, host_group_ids } => if stage_type@ == "build"@ {
                    Some(
                        Seq::new(
                            architectures.len() as nat,
                            |k: int| (rev, EventView::ArtifactRegistered { stage_id, arch: architectures@[k] }),
                        ),
                    )
                } else if stage_type@ == "deploy"@ {
                    Some(
                        Seq::new(
                            host_group_ids.len() as nat,
                            |k: int| (rev, EventView::HostGroupStarted { host_group_id: host_group_ids@[k]@ }),
                        ),
                    )
                } else {
                    None
                },
                _ => None,
            },
            EventView::ArtifactRegistered { stage_id, .. } => Some(seq![(rev, EventView::StageFinished { stage_id })]),
            EventView::HostGroupStarted { host_group_id } => match found {
                LookupResult::Hosts(hosts) => Some(
                    Seq::new(hosts.len() as nat, |k: int| (rev, EventView::HostStarted { host_group_id, host: hosts@[k]@ })),
                ),
                _ => None,
            },
            EventView::HostStarted { host_group_id, host } => Some(
                seq![(rev, EventView::HostArtifactReplicated { host_group_id, host })],
            ),
            EventView::HostArtifactReplicated { host_group_id, host } => Some(
                seq![(rev, EventView::HostArtifactDeployed { host_group_id, host })],
            ),
            EventView::HostArtifactDeployed { host_group_id, host } => Some(
                seq![(rev, EventView::HostFinished { host_group_id, host })],
            ),
            EventView::HostFinished { host_group_id, .. } => Some(seq![(rev, EventView::HostGroupFinished { host_group_id })]),
            EventView::HostGroupFinished { .. } => match found {
                LookupResult::StageId(stage_id) => Some(seq![(rev, EventView::StageFinished { stage_id: stage_id@ })]),
                _ => None,
            },
            EventView::StageFinished { .. } => match found {
                LookupResult::Successors { pipeline_id, next_stage_ids } => if next_stage_ids.len() == 0 {
                    Some(seq![(rev, EventView::PipelineFinished { pipeline_id: pipeline_id@ })])
                } else {
                    Some(
                        Seq::new(
                            next_stage_ids.len() as nat,
                            |k: int| (rev, EventView::StageStarted { stage_id: next_stage_ids@[k]@ }),
                        ),
                    )
                },
                _ => None,
            },
            EventView::PipelineFinished { .. } => Some(Seq::empty()),
        },
    }
}

/// One event of revision `rev` per stage id, built by `make`.
fn stage_started_events(rev: &String, ids: &Vec<String>) -> (r: Vec<DeploymentEvent>)
    ensures
        events_view(r@) == Seq::new(ids.len() as nat, |k: int| (rev@, EventView::StageStarted { stage_id: ids@[k]@ })),
{
    let mut out: Vec<DeploymentEvent> = Vec::new();
    let mut k: usize = 0;
    while k < ids.len()
        invariant
            k <= ids.len(),
            out@.len() == k,
            forall|x: int| 0 <= x < k ==> #[trigger] out@[x].view() == (rev@, EventView::StageStarted { stage_id: ids@[x]@ }),
        decreases ids.len() - k,
    {
        out.push(DeploymentEvent(copy(rev), Event::StageStarted { stage_id: copy(&ids[k]) }));
        k = k + 1;
    }
    assert(events_view(out@) =~= Seq::new(ids.len() as nat, |x: int| (rev@, EventView::StageStarted { stage_id: ids@[x]@ })));
    out
}

fn artifact_events(rev: &String, stage_id: &String, archs: &Vec<HostArchitecture>) -> (r: Vec<DeploymentEvent>)
    ensures
        events_view(r@) == Seq::new(
            archs.len() as nat,
            |k: int| (rev@, EventView::ArtifactRegistered { stage_id: stage_id@, arch: archs@[k] }),
        ),
{
    let mut out: Vec<DeploymentEvent> = Vec::new();
    let mut k: usize = 0;
    while k < archs.len()
        invariant
            k <= archs.len(),
            out@.len() == k,
            forall|x: int|
                0 <= x < k ==> #[trigger] out@[x].view() == (rev@, EventView::ArtifactRegistered { stage_id: stage_id@, arch: archs@[x] }),
        decreases archs.len() - k,
    {
        out.push(DeploymentEvent(copy(rev), Event::ArtifactRegistered { stage_id: copy(stage_id), arch: archs[k] }));
        k = k + 1;
    }
    assert(events_view(out@) =~= Seq::new(
        archs.len() as nat,
        |x: int| (rev@, EventView::ArtifactRegistered { stage_id: stage_id@, arch: archs@[x] }),
    ));
    out
}

fn host_group_events(rev: &String, ids: &Vec<String>) -> (r: Vec<DeploymentEvent>)
    ensures
        events_view(r@) == Seq::new(ids.len() as nat, |k: int| (rev@, EventView::HostGroupStarted { host_group_id: ids@[k]@ })),
{
    let mut out: Vec<DeploymentEvent> = Vec::new();
    let mut k: usize = 0;
    while k < ids.len()
        invariant
            k <= ids.len(),
            out@.len() == k,
            forall|x: int| 0 <= x < k ==> #[trigger] out@[x].view() == (rev@, EventView::HostGroupStarted { host_group_id: ids@[x]@ }),
        decreases ids.len() - k,
    {
        out.push(DeploymentEvent(copy(rev), Event::HostGroupStarted { host_group_id: copy(&ids[k]) }));
        k = k + 1;
    }
    assert(events_view(out@) =~= Seq::new(ids.len() as nat, |x: int| (rev@, EventView::HostGroupStarted { host_group_id: ids@[x]@ })));
    out
}

fn host_events(rev: &String, host_group_id: &String, hosts: &Vec<String>) -> (r: Vec<DeploymentEvent>)
    ensures
        events_view(r@) == Seq::new(
            hosts.len() as nat,
            |k: int| (rev@, EventView::HostStarted { host_group_id: host_group_id@, host: hosts@[k]@ }),
        ),
{
    let mut out: Vec<DeploymentEvent> = Vec::new();
    let mut k: usize = 0;
    while k < hosts.len()
        invariant
            k <= hosts.len(),
            out@.len() == k,
            forall|x: int|
                0 <= x < k ==> #[trigger] out@[x].view() == (rev@, EventView::HostStarted { host_group_id: host_group_id@, host: hosts@[x]@ }),
        decreases hosts.len() - k,
    {
        out.push(DeploymentEvent(copy(rev), Event::HostStarted { host_group_id: copy(host_group_id), host: copy(&hosts[k]) }));
        k = k + 1;
    }
    assert(events_view(out@) =~= Seq::new(
        hosts.len() as nat,
        |x: int| (rev@, EventView::HostStarted { host_group_id: host_group_id@, host: hosts@[x]@ }),
    ));
    out
}

/// A single event of revision `rev`.
fn single(rev: &String, e: Event) -> (r: Vec<DeploymentEvent>)
    ensures
        events_view(r@) == seq![(rev@, e.view())],
{
    let mut out: Vec<DeploymentEvent> = Vec::new();
    out.push(DeploymentEvent(copy(rev), e));
    assert(events_view(out@) =~= seq![(rev@, e.view())]);
    out
}

/// A character of a quoted string as `{:?}` writes it: a quote, a backslash, a tab, a carriage
/// return, a line feed and a nul are escaped.
pub open spec fn debug_char(c: char) -> Seq<char> {
    if c == '"' {
        seq!['\\', '"']
    } else if c == '\\' {
        seq!['\\', '\\']
    } else if c == '\t' {
        seq!['\\', 't']
    } else if c == '\r' {
        seq!['\\', 'r']
    } else if c == '\n' {
        seq!['\\', 'n']
    } else if c == '\0' {
        seq!['\\', '0']
    } else {
        seq![c]
    }
}

/// The characters of `s` escaped as `{:?}` writes them.
pub open spec fn debug_escape(s: Seq<char>) -> Seq<char>
    decreases s.len(),
{
    if s.len() == 0 {
        Seq::empty()
    } else {
        debug_escape(s.drop_last()) + debug_char(s.last())
    }
}

/// `s` quoted as `{:?}` writes a string.
pub open spec fn debug_str(s: Seq<char>) -> Seq<char> {
    seq!['"'] + debug_escape(s) + seq!['"']
}

/// The message of a lookup that found no row: a missing stage says so; otherwise the event
/// is named, as `Deployment{revision: <rev>, event: <event>}`.
pub open spec fn missing_row_message(rev: Seq<char>, e: EventView) -> Seq<char> {
    match e {
        EventView::StageStarted { .. } => "stage should exist if event target"@,
        EventView::HostGroupStarted { host_group_id } => "Deployment{revision: "@ + rev + ", event: HostGroupStarted { host_group_id: "@
            + debug_str(host_group_id) + " }}"@,
        EventView::HostGroupFinished { host_group_id } => "Deployment{revision: "@ + rev
            + ", event: HostGroupFinished { host_group_id: "@ + debug_str(host_group_id) + " }}"@,
        EventView::StageFinished { stage_id } => "Deployment{revision: "@ + rev + ", event: StageFinished { stage_id: "@
            + debug_str(stage_id) + " }}"@,
        _ => Seq::empty(),
    }
}

/// The message a failed transition reports: the missing row, or the unknown stage type.
pub open spec fn failure_message(rev: Seq<char>, e: EventView, found: LookupResult) -> Seq<char> {
    match found {
        LookupResult::Missing => missing_row_message(rev, e),
        LookupResult::Stage { stage_type, .. } => "Unknown stage type: "@ + stage_type@,
        _ => Seq::empty(),
    }
}

/// Appends `s` quoted as `{:?}` writes a string.
fn push_debug_str(buf: &mut String, s: &str)
    ensures
        final(buf)@ == old(buf)@ + debug_str(s@),
{
    let ghost start = buf@;
    push_text(buf, "\"");
    proof {
        reveal_strlit("\"");
    }
    let n = s.unicode_len();
    let mut i: usize = 0;
    while i < n
        invariant
            n == s@.len(),
            i <= n,
            buf@ == start + seq!['"'] + debug_escape(s@.take(i as int)),
        decreases n - i,
    {
        let c = s.get_char(i);
        if c == '"' {
            push_text(buf, "\\\"");
        } else if c == '\\' {
            push_text(buf, "\\\\");
        } else if c == '\t' {
            push_text(buf, "\\t");
        } else if c == '\r' {
            push_text(buf, "\\r");
        } else if c == '\n' {
            push_text(buf, "\\n");
        } else if c == '\0' {
            push_text(buf, "\\0");
        } else {
            push_text(buf, s.substring_char(i, i + 1));
        }
        proof {
            reveal_strlit("\\\"");
            reveal_strlit("\\\\");
            reveal_strlit("\\t");
            reveal_strlit("\\r");
            reveal_strlit("\\n");
            reveal_strlit("\\0");
            assert(s@.subrange(i as int, i + 1) =~= seq![c]);
            assert(s@.take(i + 1).drop_last() =~= s@.take(i as int));
            assert(buf@ =~= start + seq!['"'] + debug_escape(s@.take(i + 1)));
        }
        i = i + 1;
    }
    assert(s@.take(n as int) =~= s@);
    push_text(buf, "\"");
    proof {
        reveal_strlit("\"");
        assert(buf@ =~= start + debug_str(s@));
    }
}

/// The error of a lookup about `event` that found no row.
fn missing_row_error(event: &DeploymentEvent) -> (r: PipelineError)
    ensures
        r matches PipelineError::DatabaseError(m) && m@ == missing_row_message(event.0@, event.1.view()),
{
    let mut m = String::new();
    match &event.1 {
        Event::StageStarted { .. } => {
            push_text(&mut m, "stage should exist if event target");
        },
        Event::HostGroupStarted { host_group_id } => {
            push_text(&mut m, "Deployment{revision: ");
            push_text(&mut m, event.0.as_str());
            push_text(&mut m, ", event: HostGroupStarted { host_group_id: ");
            push_debug_str(&mut m, host_group_id.as_str());
            push_text(&mut m, " }}");
        },
        Event::HostGroupFinished { host_group_id } => {
            push_text(&mut m, "Deployment{revision: ");
            push_text(&mut m, event.0.as_str());
            push_text(&mut m, ", event: HostGroupFinished { host_group_id: ");
            push_debug_str(&mut m, host_group_id.as_str());
            push_text(&mut m, " }}");
        },
        Event::StageFinished { stage_id } => {
            push_text(&mut m, "Deployment{revision: ");
            push_text(&mut m, event.0.as_str());
            push_text(&mut m, ", event: StageFinished { stage_id: ");
            push_debug_str(&mut m, stage_id.as_str());
            push_text(&mut m, " }}");
        },
        _ => {},
    }
    PipelineError::DatabaseError(m)
}

/// Decides the events that follow `event`, from the database's answer to the lookup that
/// [`TransitionLookup::for_event`] asked for.
///
/// A pipeline start leads to its initial stages; a build stage to one artifact registration
/// per architecture; a deploy stage to its host groups; a host group to its hosts; each host
/// goes through replication, deployment and finish; the last host group step finishes its
/// stage; a finished stage leads to the next stages, or finishes the pipeline when none follows.
pub fn transition(event: &DeploymentEvent, found: &LookupResult) -> (r: Result<Transition, PipelineError>)
    requires
        answer_fits(event.1.view(), *found),
    ensures
        match (r, successors(event.0@, event.1.view(), *found)) {
            (Ok(t), Some(next)) => events_view(t.next@) == next,
            (Err(PipelineError::DatabaseError(m)), None) => m@ == failure_message(event.0@, event.1.view(), *found),
            _ => false,
        },
{
    let rev = &event.0;
    if let LookupResult::Missing = found {
        return Err(missing_row_error(event));
    }
    match &event.1 {
        Event::PipelineStarted { .. } => match found {
            LookupResult::StageIds(ids) => Ok(Transition { next: stage_started_events(rev, ids) }),
            _ => Err(PipelineError::DatabaseError(String::new())),
        },
        Event::StageStarted { stage_id } => match found {
            LookupResult::Stage { stage_type, architectures, host_group_ids } => {
                if crate::text::str_eq(stage_type.as_str(), "build") {
                    Ok(Transition { next: artifact_events(rev, stage_id, architectures) })
                } else if crate::text::str_eq(stage_type.as_str(), "deploy") {
                    Ok(Transition { next: host_group_events(rev, host_group_ids) })
                } else {
                    let mut msg = String::new();
                    push_text(&mut msg, "Unknown stage type: ");
                    push_text(&mut msg, stage_type.as_str());
                    Err(PipelineError::DatabaseError(msg))
                }
            },
            _ => Err(PipelineError::DatabaseError(String::new())),
        },
        Event::ArtifactRegistered { stage_id, .. } => Ok(
            Transition { next: single(rev, Event::StageFinished { stage_id: copy(stage_id) }) },
        ),
        Event::HostGroupStarted { host_group_id } => match found {
            LookupResult::Hosts(hosts) => Ok(Transition { next: host_events(rev, host_group_id, hosts) }),
            _ => Err(PipelineError::DatabaseError(String::new())),
        },
        Event::HostStarted { host_group_id, host } => Ok(
            Transition {
                next: single(rev, Event::HostArtifactReplicated { host_group_id: copy(host_group_id), host: copy(host) }),
            },
        ),
        Event::HostArtifactReplicated { host_group_id, host } => Ok(
            Transition {
                next: single(rev, Event::HostArtifactDeployed { host_group_id: copy(host_group_id), host: copy(host) }),
            },
        ),
        Event::HostArtifactDeployed { host_group_id, host } => Ok(
            Transition { next: single(rev, Event::HostFinished { host_group_id: copy(host_group_id), host: copy(host) }) },
        ),
        Event::HostFinished { host_group_id, .. } => Ok(
            Transition { next: single(rev, Event::HostGroupFinished { host_group_id: copy(host_group_id) }) },
        ),
        Event::HostGroupFinished { .. } => match found {
            LookupResult::StageId(stage_id) => Ok(
                Transition { next: single(rev, Event::StageFinished { stage_id: copy(stage_id) }) },
            ),
            _ => Err(PipelineError::DatabaseError(String::new())),
        },
        Event::StageFinished { .. } => match found {
            LookupResult::Successors { pipeline_id, next_stage_ids } => {
                if next_stage_ids.len() == 0 {
                    Ok(Transition { next: single(rev, Event::PipelineFinished { pipeline_id: copy(pipeline_id) }) })
                } else {
                    Ok(Transition { next: stage_started_events(rev, next_stage_ids) })
                }
            },
            _ => Err(PipelineError::DatabaseError(String::new())),
        },
        Event::PipelineFinished { .. } => {
            let next: Vec<DeploymentEvent> = Vec::new();
            assert(events_view(next@) =~= Seq::empty());
            Ok(Transition { next })
        },
    }
}


/// Whether two events are the same event.
pub fn event_eq(a: &Event, b: &Event) -> (r: bool)
    ensures
        r == (a.view() == b.view()),
{
    match (a, b) {
        (Event::PipelineStarted { pipeline_id: x }, Event::PipelineStarted { pipeline_id: y }) => str_eq(x.as_str(), y.as_str()),
        (Event::PipelineFinished { pipeline_id: x }, Event::PipelineFinished { pipeline_id: y }) => str_eq(x.as_str(), y.as_str()),
        (Event::StageStarted { stage_id: x }, Event::StageStarted { stage_id: y }) => str_eq(x.as_str(), y.as_str()),
        (Event::ArtifactRegistered { stage_id: x, arch: p }, Event::ArtifactRegistered { stage_id: y, arch: q }) => *p == *q
            && str_eq(x.as_str(), y.as_str()),
        (Event::StageFinished { stage_id: x }, Event::StageFinished { stage_id: y }) => str_eq(x.as_str(), y.as_str()),
        (Event::HostGroupStarted { host_group_id: x }, Event::HostGroupStarted { host_group_id: y }) => str_eq(x.as_str(), y.as_str()),
        (Event::HostGroupFinished { host_group_id: x }, Event::HostGroupFinished { host_group_id: y }) => str_eq(
            x.as_str(),
            y.as_str(),
        ),
        (Event::HostStarted { host_group_id: x, host: h }, Event::HostStarted { host_group_id: y, host: k }) => str_eq(
            x.as_str(),
            y.as_str(),
        ) && str_eq(h.as_str(), k.as_str()),
        (
            Event::HostArtifactReplicated { host_group_id: x, host: h },
            Event::HostArtifactReplicated { host_group_id: y, host: k },
        ) => str_eq(x.as_str(), y.as_str()) && str_eq(h.as_str(), k.as_str()),
        (
            Event::HostArtifactDeployed { host_group_id: x, host: h },
            Event::HostArtifactDeployed { host_group_id: y, host: k },
        ) => str_eq(x.as_str(), y.as_str()) && str_eq(h.as_str(), k.as_str()),
        (Event::HostFinished { host_group_id: x, host: h }, Event::HostFinished { host_group_id: y, host: k }) => str_eq(
            x.as_str(),
            y.as_str(),
        ) && str_eq(h.as_str(), k.as_str()),
        _ => false,
    }
}

/// Whether two events of revisions are the same.
pub fn deployment_event_eq(a: &DeploymentEvent, b: &DeploymentEvent) -> (r: bool)
    ensures
        r == (a.view() == b.view()),
{
    str_eq(a.0.as_str(), b.0.as_str()) && event_eq(&a.1, &b.1)
}

/// Copies an event of a revision.
pub fn clone_deployment_event(e: &DeploymentEvent) -> (r: DeploymentEvent)
    ensures
        r.view() == e.view(),
{
    DeploymentEvent(copy(&e.0), clone_event(&e.1))
}

/// The events of `next` that are new: not in `seen` and not repeated earlier in `next`, in order.
pub open spec fn fresh(seen: Seq<(Seq<char>, EventView)>, next: Seq<(Seq<char>, EventView)>) -> Seq<(Seq<char>, EventView)>
    decreases next.len(),
{
    if next.len() == 0 {
        Seq::empty()
    } else {
        let before = fresh(seen, next.drop_last());
        if seen.contains(next.last()) || before.contains(next.last()) {
            before
        } else {
            before.push(next.last())
        }
    }
}

/// A transition stays within its revision: every event that follows an event of revision `rev`
/// is an event of `rev`.
pub proof fn law_successors_keep_revision(rev: Seq<char>, e: EventView, found: LookupResult)
    ensures
        successors(rev, e, found) matches Some(next) ==> forall|k: int| 0 <= k < next.len() ==> (#[trigger] next[k]).0 == rev,
{
}

/// What a search step finds is new and found once: no event is found twice, none was seen
/// before, each comes from the successors handed back, and every successor is found unless it
/// was seen before.
pub proof fn law_found_once(seen: Seq<(Seq<char>, EventView)>, next: Seq<(Seq<char>, EventView)>)
    ensures
        forall|i: int, j: int| 0 <= i < j < fresh(seen, next).len() ==> fresh(seen, next)[i] != fresh(seen, next)[j],
        forall|i: int| 0 <= i < fresh(seen, next).len() ==> !seen.contains(#[trigger] fresh(seen, next)[i]),
        forall|i: int| 0 <= i < fresh(seen, next).len() ==> next.contains(#[trigger] fresh(seen, next)[i]),
        forall|k: int| 0 <= k < next.len() ==> seen.contains(#[trigger] next[k]) || fresh(seen, next).contains(next[k]),
    decreases next.len(),
{
    if next.len() > 0 {
        let prev = next.drop_last();
        law_found_once(seen, prev);
        let before = fresh(seen, prev);
        let e = next.last();
        assert forall|i: int| 0 <= i < fresh(seen, next).len() implies next.contains(#[trigger] fresh(seen, next)[i]) by {
            if i < before.len() {
                let k = choose|k: int| 0 <= k < prev.len() && prev[k] == before[i];
                assert(next[k] == prev[k]);
            } else {
                assert(next[next.len() - 1] == e);
            }
        }
        assert forall|k: int| 0 <= k < next.len() implies seen.contains(#[trigger] next[k]) || fresh(seen, next).contains(next[k]) by {
            if k < prev.len() {
                assert(next[k] == prev[k]);
                if before.contains(prev[k]) {
                    let i = choose|i: int| 0 <= i < before.len() && before[i] == prev[k];
                    assert(fresh(seen, next)[i] == prev[k]);
                }
            } else if !seen.contains(e) && !before.contains(e) {
                assert(fresh(seen, next)[before.len() as int] == e);
            } else if before.contains(e) {
                let i = choose|i: int| 0 <= i < before.len() && before[i] == e;
                assert(fresh(seen, next)[i] == e);
            }
        }
    }
}

/// The breadth-first search for the events that come after an event: the caller asks for the
/// next event to expand, looks up its successors with [`transition`], and hands them back, until
/// there is nothing left to expand.
pub struct AfterSearch {
    start: DeploymentEvent,
    found: Vec<DeploymentEvent>,
    started: bool,
    next: usize,
}

impl AfterSearch {
    /// The events found so far, in the order they were found; the start event is not among them.
    pub closed spec fn found(&self) -> Seq<(Seq<char>, EventView)> {
        events_view(self.found@)
    }

    /// The start event.
    pub closed spec fn start_event(&self) -> (Seq<char>, EventView) {
        self.start.view()
    }

    /// How many events were expanded: the start event first, then the found events in order.
    pub closed spec fn expanded(&self) -> nat {
        if self.started {
            self.next as nat + 1
        } else {
            0
        }
    }

    /// A search from `event`: nothing found, nothing expanded.
    pub fn start(event: &DeploymentEvent) -> (r: AfterSearch)
        ensures
            r.found() == Seq::<(Seq<char>, EventView)>::empty(),
            r.start_event() == event.view(),
            r.expanded() == 0,
    {
        let r = AfterSearch { start: clone_deployment_event(event), found: Vec::new(), started: false, next: 0 };
        assert(events_view(r.found@) =~= Seq::<(Seq<char>, EventView)>::empty());
        r
    }

    /// The next event to expand, in breadth-first order (the start event, then each found event
    /// once); `None` once every event was expanded.
    pub fn next_to_expand(&mut self) -> (r: Option<DeploymentEvent>)
        ensures
            final(self).found() == old(self).found(),
            final(self).start_event() == old(self).start_event(),
            old(self).expanded() == 0 ==> (r matches Some(e) && e.view() == old(self).start_event() && final(self).expanded()
                == 1),
            0 < old(self).expanded() <= old(self).found().len() ==> (r matches Some(e) && e.view() == old(self).found()[old(
                self,
            ).expanded() - 1] && final(self).expanded() == old(self).expanded() + 1),
            old(self).expanded() > old(self).found().len() ==> r is None && final(self).expanded() == old(self).expanded(),
    {
        if !self.started {
            self.started = true;
            self.next = 0;
            Some(clone_deployment_event(&self.start))
        } else if self.next < self.found.len() {
            let e = clone_deployment_event(&self.found[self.next]);
            self.next = self.next + 1;
            Some(e)
        } else {
            None
        }
    }

    fn known(&self, e: &DeploymentEvent) -> (r: bool)
        ensures
            r == (seq![self.start_event()] + self.found()).contains(e.view()),
    {
        let ghost all = seq![self.start_event()] + self.found();
        if deployment_event_eq(&self.start, e) {
            assert(all[0] == e.view());
            return true;
        }
        let mut i: usize = 0;
        while i < self.found.len()
            invariant
                i <= self.found.len(),
                all == seq![self.start_event()] + self.found(),
                all[0] != e.view(),
                forall|k: int| 1 <= k < i + 1 ==> #[trigger] all[k] != e.view(),
            decreases self.found.len() - i,
        {
            if deployment_event_eq(&self.found[i], e) {
                assert(all[i + 1] == e.view());
                return true;
            }
            i = i + 1;
        }
        proof {
            assert forall|k: int| 0 <= k < all.len() implies all[k] != e.view() by {}
        }
        false
    }

    /// Hands back the successors of the event just expanded: those neither the start event nor
    /// found before are found now, once each, in order.
    pub fn absorb(&mut self, next: Vec<DeploymentEvent>)
        ensures
            final(self).found() == old(self).found() + fresh(seq![old(self).start_event()] + old(self).found(), events_view(next@)),
            final(self).start_event() == old(self).start_event(),
            final(self).expanded() == old(self).expanded(),
    {
        let ghost seen = seq![self.start_event()] + self.found();
        let ghost nv = events_view(next@);
        let mut i: usize = 0;
        while i < next.len()
            invariant
                i <= next.len(),
                nv == events_view(next@),
                self.start_event() == old(self).start_event(),
                self.expanded() == old(self).expanded(),
                seen == seq![old(self).start_event()] + old(self).found(),
                self.found() == old(self).found() + fresh(seen, nv.take(i as int)),
            decreases next.len() - i,
        {
            let e = &next[i];
            proof {
                assert(nv.take(i + 1).drop_last() =~= nv.take(i as int));
                assert(nv.take(i + 1).last() == e.view());
                let before = fresh(seen, nv.take(i as int));
                assert((seq![self.start_event()] + self.found()).contains(e.view()) <==> (seen.contains(e.view()) || before.contains(e.view()))) by {
                    let all = seq![self.start_event()] + self.found();
                    assert(all =~= seen + before);
                    if seen.contains(e.view()) {
                        let k = choose|k: int| 0 <= k < seen.len() && seen[k] == e.view();
                        assert(all[k] == e.view());
                    }
                    if before.contains(e.view()) {
                        let k = choose|k: int| 0 <= k < before.len() && before[k] == e.view();
                        assert(all[seen.len() + k] == e.view());
                    }
                    if all.contains(e.view()) {
                        let k = choose|k: int| 0 <= k < all.len() && all[k] == e.view();
                        if k < seen.len() {
                            assert(seen[k] == e.view());
                        } else {
                            assert(before[k - seen.len()] == e.view());
                        }
                    }
                }
            }
            if !self.known(e) {
                let c = clone_deployment_event(e);
                let ghost old_found = self.found();
                self.found.push(c);
                proof {
                    assert(self.found() =~= old_found.push(c.view()));
                }
            }
            i = i + 1;
        }
        assert(nv.take(i as int) =~= nv);
    }

    /// The events found: every event after the start event, once each, in breadth-first order.
    pub fn finish(self) -> (r: Vec<DeploymentEvent>)
        ensures
            events_view(r@) == self.found(),
    {
        self.found
    }
}

/// Whether an event is doable: no event after it is complete (`after_complete` says, for each
/// event after it, whether it is), and no event of the frontier has it among the events after it
/// (`frontier_afters` lists them for each frontier event).
pub fn is_doable(after_complete: &Vec<bool>, frontier_afters: &Vec<Vec<DeploymentEvent>>, event: &DeploymentEvent) -> (r: bool)
    ensures
        r == ((forall|k: int| 0 <= k < after_complete@.len() ==> !#[trigger] after_complete@[k]) && (forall|f: int|
            0 <= f < frontier_afters@.len() ==> !events_view(#[trigger] frontier_afters@[f]@).contains(event.view()))),
{
    let mut k: usize = 0;
    while k < after_complete.len()
        invariant
            k <= after_complete.len(),
            forall|j: int| 0 <= j < k ==> !#[trigger] after_complete@[j],
        decreases after_complete.len() - k,
    {
        if after_complete[k] {
            return false;
        }
        k = k + 1;
    }
    let mut f: usize = 0;
    while f < frontier_afters.len()
        invariant
            f <= frontier_afters.len(),
            forall|j: int| 0 <= j < after_complete@.len() ==> !#[trigger] after_complete@[j],
            forall|g: int| 0 <= g < f ==> !events_view(#[trigger] frontier_afters@[g]@).contains(event.view()),
        decreases frontier_afters.len() - f,
    {
        let list = &frontier_afters[f];
        let mut i: usize = 0;
        while i < list.len()
            invariant
                i <= list.len(),
                f < frontier_afters@.len(),
                list@ == frontier_afters@[f as int]@,
                forall|j: int| 0 <= j < i ==> events_view(list@)[j] != event.view(),
            decreases list.len() - i,
        {
            if deployment_event_eq(&list[i], event) {
                assert(events_view(list@)[i as int] == event.view());
                assert(events_view(frontier_afters@[f as int]@).contains(event.view()));
                return false;
            }
            i = i + 1;
        }
        f = f + 1;
    }
    true
}
} // verus!
