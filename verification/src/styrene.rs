//! Contract types for the GhostNet–Styrene boundary and a deterministic,
//! fault-injectable in-memory double of the substrate.
use std::collections::VecDeque;

use vstd::prelude::*;

use crate::keyed::TextMap;
use crate::text::{copy_bytes, decimal, push_char, push_decimal, text_of};

verus! {

/// Reports whether a negotiated substrate capability can be used.
#[derive(Clone, Copy, Debug, PartialEq, Eq, Structural)]
pub enum CapabilityState {
    Supported,
    Unsupported,
    Disabled,
    Unauthorized,
}

/// Capabilities and limits observed for the current authorization context.
#[derive(Clone, Copy, Debug, PartialEq, Eq, Structural)]
pub struct CapabilitySnapshot {
    pub contract_version: u32,
    pub generated_at_ms: u64,
    pub identity: CapabilityState,
    pub detached_signing: CapabilityState,
    pub topics: CapabilityState,
    pub maximum_publication_bytes: usize,
}

/// An opaque Styrene-owned identity reference.
#[derive(Clone, Debug, PartialEq, Eq, PartialOrd, Ord, Hash)]
pub struct IdentityRef(pub String);

/// A topic path built from fixed GhostNet prefixes and validated identifiers.
#[derive(Clone, Debug, PartialEq, Eq, PartialOrd, Ord, Hash)]
pub struct TopicPath(pub String);

/// Stable application identity used to make publication retries idempotent.
#[derive(Clone, Debug, PartialEq, Eq, PartialOrd, Ord, Hash)]
pub struct ArtifactKey {
    pub artifact_id: String,
    pub body_hash: String,
}

/// Request to publish canonical artifact bytes.
#[derive(Clone, Debug, PartialEq, Eq)]
pub struct PublishRequest {
    pub topic: TopicPath,
    pub artifact: ArtifactKey,
    pub body: Vec<u8>,
    pub correlation_id: String,
}

/// Evidence returned after the substrate accepts a publication.
#[derive(Clone, Debug, PartialEq, Eq)]
pub struct PublishReceipt {
    pub event_id: String,
    pub artifact: ArtifactKey,
    pub accepted_at_ms: u64,
    pub duplicate: bool,
}

/// A retained public event. The cursor remains opaque to GhostNet.
#[derive(Clone, Debug, PartialEq, Eq)]
pub struct ArtifactEvent {
    pub event_id: String,
    pub artifact: ArtifactKey,
    pub body: Vec<u8>,
}

/// Request for retained events after an optional opaque cursor.
#[derive(Clone, Debug, PartialEq, Eq)]
pub struct PollRequest {
    pub topic: TopicPath,
    pub after: Option<String>,
    pub limit: usize,
}

/// A page of retained events and the cursor for its final event.
#[derive(Clone, Debug, PartialEq, Eq)]
pub struct ArtifactPage {
    pub events: Vec<ArtifactEvent>,
    pub next_cursor: Option<String>,
    pub retention_gap: bool,
}

/// Request for daemon-managed detached signing.
#[derive(Clone, Debug, PartialEq, Eq)]
pub struct SignRequest {
    pub purpose: String,
    pub payload: Vec<u8>,
    pub expected_identity: Option<IdentityRef>,
    pub correlation_id: String,
}

/// Detached signature metadata; no private key material crosses this boundary.
#[derive(Clone, Debug, PartialEq, Eq)]
pub struct DetachedSignature {
    pub identity: IdentityRef,
    pub algorithm: String,
    pub signature: Vec<u8>,
    pub signed_payload_hash: String,
}

/// Stable failures exposed to application policy and audit.
#[derive(Clone, Debug, PartialEq, Eq)]
pub enum StyreneError {
    Timeout,
    Denied(String),
    CapabilityUnavailable(&'static str),
    InvalidRequest(String),
}

/// A fault consumed by the next matching fake operation.
#[derive(Clone, Debug, PartialEq, Eq)]
pub enum Fault {
    TimeoutBeforeAcceptance,
    TimeoutAfterAcceptance,
    Deny(String),
    DuplicateNextPoll,
    ReverseNextPoll,
    RetentionGapNextPoll,
}

/// The text of an artifact key.
pub struct KeyView {
    pub artifact_id: Seq<char>,
    pub body_hash: Seq<char>,
}

impl View for ArtifactKey {
    type V = KeyView;

    open spec fn view(&self) -> KeyView {
        KeyView { artifact_id: self.artifact_id@, body_hash: self.body_hash@ }
    }
}

/// The content of a retained event.
pub struct EventView {
    pub event_id: Seq<char>,
    pub artifact: KeyView,
    pub body: Seq<u8>,
}

impl View for ArtifactEvent {
    type V = EventView;

    open spec fn view(&self) -> EventView {
        EventView { event_id: self.event_id@, artifact: self.artifact@, body: self.body@ }
    }
}

/// The content of a publication receipt.
pub struct ReceiptView {
    pub event_id: Seq<char>,
    pub artifact: KeyView,
    pub accepted_at_ms: u64,
    pub duplicate: bool,
}

impl View for PublishReceipt {
    type V = ReceiptView;

    open spec fn view(&self) -> ReceiptView {
        ReceiptView {
            event_id: self.event_id@,
            artifact: self.artifact@,
            accepted_at_ms: self.accepted_at_ms,
            duplicate: self.duplicate,
        }
    }
}

/// The content of a page of events.
pub struct PageView {
    pub events: Seq<EventView>,
    pub next_cursor: Option<Seq<char>>,
    pub retention_gap: bool,
}

impl View for ArtifactPage {
    type V = PageView;

    open spec fn view(&self) -> PageView {
        PageView {
            events: self.events@.map_values(|e: ArtifactEvent| e@),
            next_cursor: text_of(self.next_cursor),
            retention_gap: self.retention_gap,
        }
    }
}

/// The content of a failure.
pub enum ErrorView {
    Timeout,
    Denied(Seq<char>),
    CapabilityUnavailable(Seq<char>),
    InvalidRequest(Seq<char>),
}

impl View for StyreneError {
    type V = ErrorView;

    open spec fn view(&self) -> ErrorView {
        match self {
            StyreneError::Timeout => ErrorView::Timeout,
            StyreneError::Denied(reason) => ErrorView::Denied(reason@),
            StyreneError::CapabilityUnavailable(name) => ErrorView::CapabilityUnavailable(name@),
            StyreneError::InvalidRequest(reason) => ErrorView::InvalidRequest(reason@),
        }
    }
}

/// The content of a queued fault.
pub enum FaultView {
    TimeoutBeforeAcceptance,
    TimeoutAfterAcceptance,
    Deny(Seq<char>),
    DuplicateNextPoll,
    ReverseNextPoll,
    RetentionGapNextPoll,
}

impl View for Fault {
    type V = FaultView;

    open spec fn view(&self) -> FaultView {
        match self {
            Fault::TimeoutBeforeAcceptance => FaultView::TimeoutBeforeAcceptance,
            Fault::TimeoutAfterAcceptance => FaultView::TimeoutAfterAcceptance,
            Fault::Deny(reason) => FaultView::Deny(reason@),
            Fault::DuplicateNextPoll => FaultView::DuplicateNextPoll,
            Fault::ReverseNextPoll => FaultView::ReverseNextPoll,
            Fault::RetentionGapNextPoll => FaultView::RetentionGapNextPoll,
        }
    }
}

/// The observable state of the substrate double.
pub struct PortState {
    pub events: Map<Seq<char>, Seq<EventView>>,
    pub faults: Seq<FaultView>,
    pub next_event: u64,
    pub now_ms: u64,
}

/// In-memory Styrene contract double with deterministic fault injection.
#[derive(Debug)]
pub struct FakeStyrenePort {
    capabilities: CapabilitySnapshot,
    identity: IdentityRef,
    events: TextMap<Vec<ArtifactEvent>>,
    faults: VecDeque<Fault>,
    next_event: u64,
    now_ms: u64,
}

/// The events retained on a topic, oldest first.
pub open spec fn topic_events(s: PortState, topic: Seq<char>) -> Seq<EventView> {
    if s.events.contains_key(topic) {
        s.events[topic]
    } else {
        seq![]
    }
}

/// Index `i` holds the first event for an artifact.
pub open spec fn first_event_for(events: Seq<EventView>, key: KeyView, i: int) -> bool {
    &&& 0 <= i < events.len()
    &&& events[i].artifact == key
    &&& forall|j: int| 0 <= j < i ==> #[trigger] events[j].artifact != key
}

pub open spec fn has_event_for(events: Seq<EventView>, key: KeyView) -> bool {
    exists|i: int| 0 <= i < events.len() && #[trigger] events[i].artifact == key
}

/// Index `i` holds the first event with this identifier.
pub open spec fn first_event_with_id(events: Seq<EventView>, id: Seq<char>, i: int) -> bool {
    &&& 0 <= i < events.len()
    &&& events[i].event_id == id
    &&& forall|j: int| 0 <= j < i ==> #[trigger] events[j].event_id != id
}

/// The identifier given to the `n`-th accepted event.
pub open spec fn event_id_text(n: u64) -> Seq<char> {
    "event:"@ + decimal(n as nat).map_values(|b: u8| b as char)
}

pub open spec fn front_fault(s: PortState) -> Option<FaultView> {
    if s.faults.len() > 0 {
        Some(s.faults[0])
    } else {
        None
    }
}

/// The reason of a queued denial at the front of the fault queue.
pub open spec fn queued_denial(s: PortState) -> Option<Seq<char>> {
    match front_fault(s) {
        Some(FaultView::Deny(reason)) => Some(reason),
        _ => None,
    }
}

pub open spec fn with_faults(s: PortState, faults: Seq<FaultView>) -> PortState {
    PortState { events: s.events, faults, next_event: s.next_event, now_ms: s.now_ms }
}

/// Publishing to the double: the outcome and the state after.
///
/// Oversized bodies are invalid. A queued timeout-before-acceptance or
/// denial is consumed and reported with no other effect. A retry of an
/// artifact already retained on the topic returns the first event as a
/// duplicate. Otherwise the event is retained under the next identifier; a
/// queued timeout-after-acceptance is then consumed and reported even though
/// the event was kept.
pub open spec fn publish_outcome(s: PortState, limit: usize, topic: Seq<char>, key: KeyView, body: Seq<u8>) -> (
    Result<ReceiptView, ErrorView>,
    PortState,
) {
    if body.len() > limit {
        (Err(ErrorView::InvalidRequest("publication exceeds negotiated limit"@)), s)
    } else if front_fault(s) == Some(FaultView::TimeoutBeforeAcceptance) {
        (Err(ErrorView::Timeout), with_faults(s, s.faults.drop_first()))
    } else if queued_denial(s) is Some {
        (Err(ErrorView::Denied(queued_denial(s)->Some_0)), with_faults(s, s.faults.drop_first()))
    } else if has_event_for(topic_events(s, topic), key) {
        let existing = topic_events(s, topic)[choose|i: int| first_event_for(topic_events(s, topic), key, i)];
        (
            Ok(ReceiptView { event_id: existing.event_id, artifact: existing.artifact, accepted_at_ms: s.now_ms, duplicate: true }),
            s,
        )
    } else {
        let id = event_id_text(s.next_event);
        let event = EventView { event_id: id, artifact: key, body };
        let retained = PortState {
            events: s.events.insert(topic, topic_events(s, topic).push(event)),
            faults: s.faults,
            next_event: (s.next_event + 1) as u64,
            now_ms: s.now_ms,
        };
        if front_fault(s) == Some(FaultView::TimeoutAfterAcceptance) {
            (Err(ErrorView::Timeout), with_faults(retained, s.faults.drop_first()))
        } else {
            (Ok(ReceiptView { event_id: id, artifact: key, accepted_at_ms: s.now_ms, duplicate: false }), retained)
        }
    }
}

/// Where a page starts: just after the event named by the cursor, or at the
/// beginning when there is no cursor or it names no retained event.
pub open spec fn page_start(events: Seq<EventView>, after: Option<Seq<char>>) -> int {
    match after {
        None => 0,
        Some(cursor) => if exists|i: int| 0 <= i < events.len() && #[trigger] events[i].event_id == cursor {
            (choose|i: int| first_event_with_id(events, cursor, i)) + 1
        } else {
            0
        },
    }
}

/// At most `limit` events from `start`.
pub open spec fn page_slice(events: Seq<EventView>, start: int, limit: usize) -> Seq<EventView> {
    let rest = events.skip(start);
    if rest.len() <= limit {
        rest
    } else {
        rest.take(limit as int)
    }
}

pub open spec fn page_of(events: Seq<EventView>, retention_gap: bool) -> PageView {
    PageView {
        events,
        next_cursor: if events.len() > 0 {
            Some(events.last().event_id)
        } else {
            None
        },
        retention_gap,
    }
}

/// Polling the double: the outcome and the state after.
///
/// A zero limit is invalid. A queued denial is consumed and reported. The
/// page holds up to `limit` events after the cursor; a queued poll fault is
/// consumed and duplicates the first event, reverses the page, or drops the
/// first event and flags a retention gap. The cursor names the page's last
/// event.
pub open spec fn poll_outcome(s: PortState, topic: Seq<char>, after: Option<Seq<char>>, limit: usize) -> (
    Result<PageView, ErrorView>,
    PortState,
) {
    if limit == 0 {
        (Err(ErrorView::InvalidRequest("poll limit must be positive"@)), s)
    } else if queued_denial(s) is Some {
        (Err(ErrorView::Denied(queued_denial(s)->Some_0)), with_faults(s, s.faults.drop_first()))
    } else {
        let events = topic_events(s, topic);
        let page = page_slice(events, page_start(events, after), limit);
        let consumed = with_faults(s, s.faults.drop_first());
        if front_fault(s) == Some(FaultView::DuplicateNextPoll) {
            (Ok(page_of(if page.len() > 0 { seq![page[0]] + page } else { page }, false)), consumed)
        } else if front_fault(s) == Some(FaultView::ReverseNextPoll) {
            (Ok(page_of(page.reverse(), false)), consumed)
        } else if front_fault(s) == Some(FaultView::RetentionGapNextPoll) {
            (Ok(page_of(if page.len() > 0 { page.drop_first() } else { page }, true)), consumed)
        } else {
            (Ok(page_of(page, false)), s)
        }
    }
}

fn copy_key(k: &ArtifactKey) -> (r: ArtifactKey)
    ensures
        r@ == k@,
{
    ArtifactKey { artifact_id: k.artifact_id.clone(), body_hash: k.body_hash.clone() }
}

fn copy_event(e: &ArtifactEvent) -> (r: ArtifactEvent)
    ensures
        r@ == e@,
{
    ArtifactEvent { event_id: e.event_id.clone(), artifact: copy_key(&e.artifact), body: copy_bytes(&e.body) }
}

fn same_key(a: &ArtifactKey, b: &ArtifactKey) -> (r: bool)
    ensures
        r == (a@ == b@),
{
    a.artifact_id == b.artifact_id && a.body_hash == b.body_hash
}

fn event_id_for(n: u64) -> (r: String)
    ensures
        r@ == event_id_text(n),
{
    let mut digits: Vec<u8> = Vec::new();
    push_decimal(n, &mut digits);
    let ghost text = decimal(n as nat).map_values(|b: u8| b as char);
    assert(digits@ =~= decimal(n as nat));
    let mut out = String::from_str("event:");
    let mut i: usize = 0;
    while i < digits.len()
        invariant
            i <= digits@.len(),
            digits@ == decimal(n as nat),
            text == digits@.map_values(|b: u8| b as char),
            out@ == "event:"@ + text.take(i as int),
        decreases digits@.len() - i,
    {
        push_char(&mut out, digits[i] as char);
        i = i + 1;
        assert(text.take(i as int) =~= text.take(i - 1 as int).push(text[i - 1]));
    }
    assert(text.take(i as int) =~= text);
    out
}

pub open spec fn events_view(v: Vec<ArtifactEvent>) -> Seq<EventView> {
    v@.map_values(|e: ArtifactEvent| e@)
}

/// The first position holding an event with this identifier.
fn find_event(events: &Vec<ArtifactEvent>, id: &String) -> (r: Option<usize>)
    ensures
        match r {
            Some(j) => j < events.len() && first_event_with_id(events_view(*events), id@, j as int),
            None => forall|k: int| 0 <= k < events@.len() ==> #[trigger] events_view(*events)[k].event_id != id@,
        },
{
    let ghost evs = events_view(*events);
    let mut j: usize = 0;
    while j < events.len()
        invariant
            j <= events@.len(),
            evs == events_view(*events),
            forall|k: int| 0 <= k < j ==> #[trigger] evs[k].event_id != id@,
        decreases events@.len() - j,
    {
        assert(evs[j as int] == events@[j as int]@);
        if events[j].event_id == *id {
            return Some(j);
        }
        j = j + 1;
    }
    None
}

impl FakeStyrenePort {
    pub closed spec fn wf(&self) -> bool {
        self.events.wf()
    }

    /// The observable state.
    pub closed spec fn state(&self) -> PortState {
        PortState {
            events: self.events.view_map().map_values(|v: Vec<ArtifactEvent>| events_view(v)),
            faults: self.faults@.map_values(|f: Fault| f@),
            next_event: self.next_event,
            now_ms: self.now_ms,
        }
    }

    /// The negotiated capabilities.
    pub closed spec fn snapshot(&self) -> CapabilitySnapshot {
        self.capabilities
    }

    /// The local identity.
    pub closed spec fn identity_text(&self) -> Seq<char> {
        self.identity.0@
    }

    pub fn new(identity: IdentityRef) -> (r: Self)
        ensures
            r.wf(),
            r.identity_text() == identity.0@,
            r.snapshot() == (CapabilitySnapshot {
                contract_version: 1,
                generated_at_ms: 0,
                identity: CapabilityState::Supported,
                detached_signing: CapabilityState::Unsupported,
                topics: CapabilityState::Supported,
                maximum_publication_bytes: 65_536,
            }),
            r.state().events == Map::<Seq<char>, Seq<EventView>>::empty(),
            r.state().faults == Seq::<FaultView>::empty(),
            r.state().next_event == 1,
            r.state().now_ms == 0,
    {
        let r = FakeStyrenePort {
            capabilities: CapabilitySnapshot {
                contract_version: 1,
                generated_at_ms: 0,
                identity: CapabilityState::Supported,
                detached_signing: CapabilityState::Unsupported,
                topics: CapabilityState::Supported,
                maximum_publication_bytes: 65_536,
            },
            identity,
            events: TextMap::new(),
            faults: VecDeque::new(),
            next_event: 1,
            now_ms: 0,
        };
        assert(r.state().events =~= Map::<Seq<char>, Seq<EventView>>::empty());
        assert(r.state().faults =~= Seq::<FaultView>::empty());
        r
    }

    /// Queues a fault for the next applicable operation.
    pub fn inject(&mut self, fault: Fault)
        requires
            old(self).wf(),
        ensures
            final(self).wf(),
            final(self).state() == (PortState { faults: old(self).state().faults.push(fault@), ..old(self).state() }),
            final(self).snapshot() == old(self).snapshot(),
            final(self).identity_text() == old(self).identity_text(),
    {
        self.faults.push_back(fault);
        assert(self.state().faults =~= old(self).state().faults.push(fault@));
    }

    /// The sequence number that the next newly accepted event will carry;
    /// publishing needs it below `u64::MAX`.
    pub fn next_event_number(&self) -> (r: u64)
        ensures
            r == self.state().next_event,
    {
        self.next_event
    }

    /// Sets the deterministic fake clock.
    pub fn set_now_ms(&mut self, now_ms: u64)
        requires
            old(self).wf(),
        ensures
            final(self).wf(),
            final(self).state() == (PortState { now_ms, ..old(self).state() }),
            final(self).snapshot() == old(self).snapshot(),
            final(self).identity_text() == old(self).identity_text(),
    {
        self.now_ms = now_ms;
    }

    /// The negotiated capabilities.
    pub fn capabilities(&self) -> (r: Result<CapabilitySnapshot, StyreneError>)
        ensures
            r == Ok::<CapabilitySnapshot, StyreneError>(self.snapshot()),
    {
        Ok(self.capabilities)
    }

    /// The local identity.
    pub fn local_identity(&self) -> (r: Result<IdentityRef, StyreneError>)
        ensures
            r matches Ok(id) && id.0@ == self.identity_text(),
    {
        Ok(IdentityRef(self.identity.0.clone()))
    }

    /// Detached signing is not offered by the double.
    pub fn sign(&self, request: SignRequest) -> (r: Result<DetachedSignature, StyreneError>)
        ensures
            r matches Err(e) && e@ == ErrorView::CapabilityUnavailable("detached_signing"@),
    {
        Err(StyreneError::CapabilityUnavailable("detached_signing"))
    }

    /// Publishes canonical artifact bytes to a topic.
    pub fn publish(&mut self, request: PublishRequest) -> (r: Result<PublishReceipt, StyreneError>)
        requires
            old(self).wf(),
            old(self).state().next_event < u64::MAX,
        ensures
            final(self).wf(),
            final(self).snapshot() == old(self).snapshot(),
            final(self).identity_text() == old(self).identity_text(),
            (
                match r {
                    Ok(receipt) => Ok(receipt@),
                    Err(e) => Err(e@),
                },
                final(self).state(),
            ) == publish_outcome(
                old(self).state(),
                old(self).snapshot().maximum_publication_bytes,
                request.topic.0@,
                request.artifact@,
                request.body@,
            ),
    {
        let ghost s0 = self.state();
        let ghost topic = request.topic.0@;
        let ghost key = request.artifact@;
        if request.body.len() > self.capabilities.maximum_publication_bytes {
            return Err(StyreneError::InvalidRequest(String::from_str("publication exceeds negotiated limit")));
        }
        if self.faults.len() > 0 {
            let front_is_timeout = matches!(self.faults[0], Fault::TimeoutBeforeAcceptance);
            let front_is_deny = matches!(self.faults[0], Fault::Deny(_));
            if front_is_timeout || front_is_deny {
                let fault = self.faults.pop_front();
                proof {
                    assert(self.state().faults =~= s0.faults.drop_first());
                }
                return match fault {
                    Some(Fault::Deny(reason)) => Err(StyreneError::Denied(reason)),
                    _ => Err(StyreneError::Timeout),
                };
            }
        }
        let topic_index = self.events.find(&request.topic.0);
        match topic_index {
            Some(ti) => {
                let events = self.events.value_at(ti);
                proof {
                    assert(topic_events(s0, topic) == events_view(*events));
                }
                let mut j: usize = 0;
                #[verifier::loop_isolation(false)]
                while j < events.len()
                    invariant
                        j <= events@.len(),
                        key == request.artifact@,
                        forall|k: int| 0 <= k < j ==> (#[trigger] events@[k])@.artifact != key,
                    decreases events@.len() - j,
                {
                    if same_key(&events[j].artifact, &request.artifact) {
                        proof {
                            let evs = events_view(*events);
                            assert(evs[j as int] == events@[j as int]@);
                            assert(evs[j as int].artifact == key);
                            assert forall|k: int| 0 <= k < j implies #[trigger] evs[k].artifact != key by {
                                assert(evs[k] == events@[k]@);
                            }
                            assert(first_event_for(evs, key, j as int));
                            assert(has_event_for(evs, key));
                            let c = choose|i: int| first_event_for(evs, key, i);
                            if c < j {
                                assert(evs[c].artifact != key);
                            } else if c > j {
                                assert(evs[j as int].artifact != key);
                            }
                        }
                        return Ok(
                            PublishReceipt {
                                event_id: events[j].event_id.clone(),
                                artifact: copy_key(&events[j].artifact),
                                accepted_at_ms: self.now_ms,
                                duplicate: true,
                            },
                        );
                    }
                    j = j + 1;
                }
                proof {
                    let evs = events_view(*events);
                    assert forall|i: int| 0 <= i < evs.len() implies #[trigger] evs[i].artifact != key by {
                        assert(evs[i] == events@[i]@);
                    }
                }
            },
            None => {},
        }
        let event_id = event_id_for(self.next_event);
        self.next_event = self.next_event + 1;
        let event = ArtifactEvent { event_id: event_id.clone(), artifact: copy_key(&request.artifact), body: request.body };
        let ghost event_view = event@;
        match topic_index {
            Some(ti) => {
                let mut events = self.events.replace_value_at(ti, Vec::new());
                let ghost before = events@;
                events.push(event);
                let ghost after = events;
                let _ = self.events.replace_value_at(ti, events);
                proof {
                    assert(events_view(after) =~= topic_events(s0, topic).push(event_view));
                }
            },
            None => {
                let mut events: Vec<ArtifactEvent> = Vec::new();
                events.push(event);
                let ghost after = events;
                self.events.insert_new(request.topic.0, events);
                proof {
                    assert(events_view(after) =~= topic_events(s0, topic).push(event_view));
                }
            },
        }
        proof {
            assert(self.state().events =~= s0.events.insert(topic, topic_events(s0, topic).push(event_view)));
        }
        let receipt = PublishReceipt {
            event_id,
            artifact: request.artifact,
            accepted_at_ms: self.now_ms,
            duplicate: false,
        };
        if self.faults.len() > 0 && matches!(self.faults[0], Fault::TimeoutAfterAcceptance) {
            let _ = self.faults.pop_front();
            proof {
                assert(self.state().faults =~= s0.faults.drop_first());
            }
            return Err(StyreneError::Timeout);
        }
        Ok(receipt)
    }

    /// Reads retained events after an optional cursor.
    pub fn poll(&mut self, request: PollRequest) -> (r: Result<ArtifactPage, StyreneError>)
        requires
            old(self).wf(),
        ensures
            final(self).wf(),
            final(self).snapshot() == old(self).snapshot(),
            final(self).identity_text() == old(self).identity_text(),
            (
                match r {
                    Ok(page) => Ok(page@),
                    Err(e) => Err(e@),
                },
                final(self).state(),
            ) == poll_outcome(old(self).state(), request.topic.0@, text_of(request.after), request.limit),
    {
        let ghost s0 = self.state();
        let ghost topic = request.topic.0@;
        if request.limit == 0 {
            return Err(StyreneError::InvalidRequest(String::from_str("poll limit must be positive")));
        }
        if self.faults.len() > 0 && matches!(self.faults[0], Fault::Deny(_)) {
            let fault = self.faults.pop_front();
            proof {
                assert(self.state().faults =~= s0.faults.drop_first());
            }
            return match fault {
                Some(Fault::Deny(reason)) => Err(StyreneError::Denied(reason)),
                _ => Err(StyreneError::Timeout),
            };
        }
        let empty: Vec<ArtifactEvent> = Vec::new();
        let events: &Vec<ArtifactEvent> = match self.events.find(&request.topic.0) {
            Some(ti) => self.events.value_at(ti),
            None => &empty,
        };
        let ghost evs = topic_events(s0, topic);
        assert(evs =~= events_view(*events));
        let start: usize = match &request.after {
            Some(cursor) => match find_event(events, cursor) {
                Some(j) => {
                    proof {
                        assert(first_event_with_id(evs, cursor@, j as int));
                        let c = choose|i: int| first_event_with_id(evs, cursor@, i);
                        if c < j {
                            assert(evs[c].event_id != cursor@);
                        } else if c > j {
                            assert(evs[j as int].event_id != cursor@);
                        }
                        assert(evs.len() == events@.len());
                    }
                    j + 1
                },
                None => 0,
            },
            None => 0,
        };
        assert(start == page_start(evs, text_of(request.after)));
        let mut page: Vec<ArtifactEvent> = Vec::new();
        let mut k: usize = start;
        let ghost expected = page_slice(evs, start as int, request.limit);
        #[verifier::loop_isolation(false)]
        while k < events.len() && page.len() < request.limit
            invariant
                start <= k <= events@.len(),
                page@.len() == k - start,
                page@.len() <= request.limit,
                events_view(page) == evs.subrange(start as int, k as int),
            decreases events@.len() - k,
        {
            page.push(copy_event(&events[k]));
            k = k + 1;
            assert(events_view(page) =~= evs.subrange(start as int, k as int));
        }
        proof {
            let rest = evs.skip(start as int);
            if rest.len() <= request.limit {
                assert(k == events@.len());
                assert(events_view(page) =~= rest);
            } else {
                assert(events_view(page) =~= rest.take(request.limit as int));
            }
        }
        let ghost base = events_view(page);
        let mut retention_gap = false;
        if self.faults.len() > 0 {
            if matches!(self.faults[0], Fault::DuplicateNextPoll) {
                let _ = self.faults.pop_front();
                if page.len() > 0 {
                    let first = copy_event(&page[0]);
                    page.insert(0, first);
                }
                assert(events_view(page) =~= (if base.len() > 0 { seq![base[0]] + base } else { base }));
            } else if matches!(self.faults[0], Fault::ReverseNextPoll) {
                let _ = self.faults.pop_front();
                let mut reversed: Vec<ArtifactEvent> = Vec::new();
                let mut i: usize = page.len();
                #[verifier::loop_isolation(false)]
                while i > 0
                    invariant
                        i <= page@.len(),
                        page@.len() == base.len(),
                        events_view(page) == base,
                        reversed@.len() == page@.len() - i,
                        forall|q: int| 0 <= q < reversed@.len() ==> (#[trigger] reversed@[q])@ == base[base.len() - 1 - q],
                    decreases i,
                {
                    i = i - 1;
                    reversed.push(copy_event(&page[i]));
                }
                assert(events_view(reversed) =~= base.reverse());
                page = reversed;
            } else if matches!(self.faults[0], Fault::RetentionGapNextPoll) {
                let _ = self.faults.pop_front();
                retention_gap = true;
                if page.len() > 0 {
                    page.remove(0);
                }
                assert(events_view(page) =~= (if base.len() > 0 { base.drop_first() } else { base }));
            }
            proof {
                if self.faults@.len() < old(self).faults@.len() {
                    assert(self.state().faults =~= s0.faults.drop_first());
                }
            }
        }
        let next_cursor = if page.len() > 0 {
            Some(page[page.len() - 1].event_id.clone())
        } else {
            None
        };
        let result = ArtifactPage { next_cursor, events: page, retention_gap };
        proof {
            assert(result@.events == events_view(page));
        }
        Ok(result)
    }
}

proof fn lemma_first_event_for_unique(events: Seq<EventView>, key: KeyView, i: int, j: int)
    requires
        first_event_for(events, key, i),
        first_event_for(events, key, j),
    ensures
        i == j,
{
    if i < j {
        assert(events[i].artifact != key);
    } else if j < i {
        assert(events[j].artifact != key);
    }
}

/// Whether the front of the fault queue stops a publication before
/// acceptance.
pub open spec fn blocks_publication(s: PortState) -> bool {
    front_fault(s) == Some(FaultView::TimeoutBeforeAcceptance) || queued_denial(s) is Some
}

proof fn lemma_retry_is_duplicate(s: PortState, limit: usize, topic: Seq<char>, key: KeyView, body: Seq<u8>)
    requires
        body.len() <= limit,
        !blocks_publication(s),
        !has_event_for(topic_events(s, topic), key),
        !blocks_publication(publish_outcome(s, limit, topic, key, body).1),
    ensures
        ({
            let after = publish_outcome(s, limit, topic, key, body).1;
            let retry = publish_outcome(after, limit, topic, key, body);
            &&& retry.1 == after
            &&& retry.0 == Ok::<ReceiptView, ErrorView>(ReceiptView {
                event_id: event_id_text(s.next_event),
                artifact: key,
                accepted_at_ms: s.now_ms,
                duplicate: true,
            })
        }),
{
    let after = publish_outcome(s, limit, topic, key, body).1;
    let old_events = topic_events(s, topic);
    let events = topic_events(after, topic);
    let n = old_events.len() as int;
    assert(events == old_events.push(EventView { event_id: event_id_text(s.next_event), artifact: key, body }));
    assert(events[n].artifact == key);
    assert(first_event_for(events, key, n)) by {
        assert forall|j: int| 0 <= j < n implies #[trigger] events[j].artifact != key by {
            assert(events[j] == old_events[j]);
        }
    }
    let c = choose|i: int| first_event_for(events, key, i);
    lemma_first_event_for_unique(events, key, c, n);
}

/// The transport-independent baseline that every port must meet, judged at
/// three points of a conformance run: after reading the capabilities they
/// report a positive contract version; after publishing one artifact twice
/// the retry returns the first event identifier marked as a duplicate; and a
/// poll of the topic then returns exactly one event, for that artifact.
pub open spec fn capabilities_meet_baseline(capabilities: CapabilitySnapshot) -> bool {
    capabilities.contract_version > 0
}

pub open spec fn retry_meets_baseline(first: ReceiptView, retry: ReceiptView) -> bool {
    first.event_id == retry.event_id && retry.duplicate
}

pub open spec fn page_meets_baseline(page: PageView, artifact: KeyView) -> bool {
    page.events.len() == 1 && page.events[0].artifact == artifact
}

/// Judges the capabilities read at the start of a conformance run.
pub fn capabilities_conform(capabilities: &CapabilitySnapshot) -> (r: bool)
    ensures
        r == capabilities_meet_baseline(*capabilities),
{
    capabilities.contract_version > 0
}

/// Judges the receipts of a publication and its retry.
pub fn retry_conforms(first: &PublishReceipt, retry: &PublishReceipt) -> (r: bool)
    ensures
        r == retry_meets_baseline(first@, retry@),
{
    first.event_id == retry.event_id && retry.duplicate
}

/// Judges the page polled after the publication and its retry.
pub fn page_conforms(page: &ArtifactPage, artifact: &ArtifactKey) -> (r: bool)
    ensures
        r == page_meets_baseline(page@, artifact@),
{
    if page.events.len() != 1 {
        return false;
    }
    assert(page@.events[0] == page.events@[0]@);
    same_key(&page.events[0].artifact, artifact)
}

/// Publishing the same artifact again is idempotent: the retry is reported
/// as a duplicate of the first event, with the same identifier, and
/// nothing else changes.
pub proof fn law_duplicate_publication_is_idempotent(
    s: PortState,
    limit: usize,
    topic: Seq<char>,
    key: KeyView,
    body: Seq<u8>,
)
    requires
        publish_outcome(s, limit, topic, key, body).0 matches Ok(receipt) && !receipt.duplicate,
        !blocks_publication(publish_outcome(s, limit, topic, key, body).1),
    ensures
        ({
            let first = publish_outcome(s, limit, topic, key, body);
            let retry = publish_outcome(first.1, limit, topic, key, body);
            &&& retry.1 == first.1
            &&& retry.0 matches Ok(again) && again.duplicate && again.event_id == first.0->Ok_0.event_id
        }),
{
    lemma_retry_is_duplicate(s, limit, topic, key, body);
}

/// A publication that times out after acceptance was retained: retrying it
/// yields the retained event as a duplicate rather than a second copy.
pub proof fn law_timeout_after_acceptance_is_safe_to_retry(
    s: PortState,
    limit: usize,
    topic: Seq<char>,
    key: KeyView,
    body: Seq<u8>,
)
    requires
        body.len() <= limit,
        front_fault(s) == Some(FaultView::TimeoutAfterAcceptance),
        !has_event_for(topic_events(s, topic), key),
        !blocks_publication(publish_outcome(s, limit, topic, key, body).1),
    ensures
        publish_outcome(s, limit, topic, key, body).0 == Err::<ReceiptView, ErrorView>(ErrorView::Timeout),
        ({
            let after = publish_outcome(s, limit, topic, key, body).1;
            let retry = publish_outcome(after, limit, topic, key, body);
            &&& retry.1 == after
            &&& retry.0 matches Ok(again) && again.duplicate && again.event_id == event_id_text(s.next_event)
            &&& topic_events(after, topic).len() == topic_events(s, topic).len() + 1
        }),
{
    lemma_retry_is_duplicate(s, limit, topic, key, body);
}

/// A timeout before acceptance or a denial has no side effect on retained
/// events; only the consumed fault leaves the queue.
pub proof fn law_rejected_publication_retains_nothing(
    s: PortState,
    limit: usize,
    topic: Seq<char>,
    key: KeyView,
    body: Seq<u8>,
)
    requires
        body.len() <= limit,
        blocks_publication(s),
    ensures
        publish_outcome(s, limit, topic, key, body).0 is Err,
        publish_outcome(s, limit, topic, key, body).1.events == s.events,
        publish_outcome(s, limit, topic, key, body).1.next_event == s.next_event,
        publish_outcome(s, limit, topic, key, body).1.faults == s.faults.drop_first(),
{
}

/// Each topic retains at most one event per artifact, whatever sequence of
/// publications and retries arrives.
pub proof fn law_one_event_per_artifact(s: PortState, limit: usize, topic: Seq<char>, key: KeyView, body: Seq<u8>, t: Seq<char>)
    requires
        forall|i: int, j: int| 0 <= i < j < topic_events(s, t).len() ==> (#[trigger] topic_events(s, t)[i]).artifact != (#[trigger] topic_events(s, t)[j]).artifact,
    ensures
        ({
            let after = topic_events(publish_outcome(s, limit, topic, key, body).1, t);
            forall|i: int, j: int| 0 <= i < j < after.len() ==> (#[trigger] after[i]).artifact != (#[trigger] after[j]).artifact
        }),
{
    let after = topic_events(publish_outcome(s, limit, topic, key, body).1, t);
    let before = topic_events(s, t);
    if t == topic && after != before {
        assert forall|i: int, j: int| 0 <= i < j < after.len() implies (#[trigger] after[i]).artifact != (#[trigger] after[j]).artifact by {
            if j == before.len() {
                assert(after[i] == before[i]);
            } else {
                assert(after[i] == before[i]);
                assert(after[j] == before[j]);
            }
        }
    }
}

} // verus!
