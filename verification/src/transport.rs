//! The receive side of the command/response transport: a correlation table
//! with one slot per submitted command id, filled as frames arrive in any
//! order, bounded by one shared deadline supplied by the caller as a
//! timeout event.

use vstd::prelude::*;
use vstd::string::StringExecFns;

verus! {

/// An event seen on the socket while responses are collected.
pub enum WsEvent {
    /// A text frame, with the numeric id already parsed from it, if any.
    Text { id: Option<u64>, payload: String },
    /// A non-text frame; discarded silently.
    NonText,
    /// A read error with its message; fatal.
    ReadFailed(String),
    /// The socket closed before all responses arrived; fatal.
    Closed,
    /// The deadline passed before all responses arrived; fatal.
    TimedOut,
}

/// A fatal, batch-wide transport failure.
#[derive(Debug)]
pub enum TransportError {
    ConnectFailed(String),
    SendFailed(String),
    ReadFailed(String),
    ClosedUnexpectedly,
    TimedOut,
}

impl TransportError {
    /// The caller-facing description of the failure.
    pub open spec fn message_spec(&self) -> Seq<char> {
        match self {
            TransportError::ConnectFailed(m) => "WebSocket connection failed: "@ + m@,
            TransportError::SendFailed(m) => "WebSocket send error: "@ + m@,
            TransportError::ReadFailed(m) => "WebSocket read error: "@ + m@,
            TransportError::ClosedUnexpectedly => "WebSocket closed unexpectedly"@,
            TransportError::TimedOut => "CDP command timed out"@,
        }
    }

    /// The caller-facing description of the failure.
    pub fn message(&self) -> (r: String)
        ensures
            r@ == self.message_spec(),
    {
        match self {
            TransportError::ConnectFailed(m) => {
                let mut s = String::from_str("WebSocket connection failed: ");
                s.append(m.as_str());
                s
            },
            TransportError::SendFailed(m) => {
                let mut s = String::from_str("WebSocket send error: ");
                s.append(m.as_str());
                s
            },
            TransportError::ReadFailed(m) => {
                let mut s = String::from_str("WebSocket read error: ");
                s.append(m.as_str());
                s
            },
            TransportError::ClosedUnexpectedly => String::from_str(
                "WebSocket closed unexpectedly",
            ),
            TransportError::TimedOut => String::from_str("CDP command timed out"),
        }
    }
}

/// The slot table before any response arrived: one empty slot per command.
pub open spec fn empty_slots(n: nat) -> Seq<Option<Seq<char>>> {
    Seq::new(n, |i: int| None)
}

/// How one identified text frame changes the table: a fresh in-range id
/// fills its slot; an unknown or duplicate id changes nothing.
pub open spec fn spec_accept(
    slots: Seq<Option<Seq<char>>>,
    id: u64,
    payload: Seq<char>,
) -> Seq<Option<Seq<char>>> {
    if 1 <= id <= slots.len() && slots[id - 1] is None {
        slots.update(id - 1, Some(payload))
    } else {
        slots
    }
}

/// Every slot holds a response.
pub open spec fn is_complete(slots: Seq<Option<Seq<char>>>) -> bool {
    forall|i: int| 0 <= i < slots.len() ==> slots[i] is Some
}

/// The collected responses in submission order; an unfilled slot
/// (impossible on completion) would yield an empty payload.
pub open spec fn unwrap_slots(slots: Seq<Option<Seq<char>>>) -> Seq<Seq<char>> {
    Seq::new(
        slots.len(),
        |i: int|
            match slots[i] {
                Some(p) => p,
                None => Seq::empty(),
            },
    )
}

/// What one receive session yields.
pub enum TransportModelOutcome {
    Finished(Seq<Seq<char>>),
    Failed(TransportError),
}

/// The whole receive loop as a function of the event stream: collect
/// identified text frames until every slot is filled; an exhausted stream
/// is a timeout; error events abort the batch.
pub open spec fn drive(
    slots: Seq<Option<Seq<char>>>,
    events: Seq<WsEvent>,
) -> TransportModelOutcome
    decreases events.len(),
{
    if is_complete(slots) {
        TransportModelOutcome::Finished(unwrap_slots(slots))
    } else if events.len() == 0 {
        TransportModelOutcome::Failed(TransportError::TimedOut)
    } else {
        match events[0] {
            WsEvent::Text { id: Some(i), payload } => drive(
                spec_accept(slots, i, payload@),
                events.drop_first(),
            ),
            WsEvent::Text { id: None, payload } => drive(slots, events.drop_first()),
            WsEvent::NonText => drive(slots, events.drop_first()),
            WsEvent::ReadFailed(m) => TransportModelOutcome::Failed(
                TransportError::ReadFailed(m),
            ),
            WsEvent::Closed => TransportModelOutcome::Failed(
                TransportError::ClosedUnexpectedly,
            ),
            WsEvent::TimedOut => TransportModelOutcome::Failed(TransportError::TimedOut),
        }
    }
}

/// The set of response slots awaited for one transport session, one per
/// submitted command id.
pub struct PendingBatch {
    slots: Vec<Option<String>>,
}

/// What a step of the receive loop asks the caller to do next.
pub enum StepStatus {
    /// Keep reading.
    Pending,
    /// Abort the batch with this error; collected responses are discarded.
    Failed(TransportError),
}

impl PendingBatch {
    /// The table's contents: one optional payload per command index.
    pub closed spec fn slots_view(&self) -> Seq<Option<Seq<char>>> {
        self.slots.deep_view()
    }

    /// A table with one empty slot per submitted command.
    pub fn new(n: usize) -> (r: Self)
        ensures
            r.slots_view() == empty_slots(n as nat),
    {
        let mut slots: Vec<Option<String>> = Vec::new();
        let mut i: usize = 0;
        while i < n
            invariant
                0 <= i <= n,
                slots@.len() == i,
                forall|k: int| 0 <= k < i ==> slots@[k] is None,
            decreases n - i,
        {
            slots.push(None);
            i = i + 1;
        }
        proof {
            assert(slots.deep_view() =~= empty_slots(n as nat));
        }
        PendingBatch { slots }
    }

    /// Records an identified response: a fresh in-range id fills its slot
    /// (first match wins); anything else is discarded silently.
    pub fn accept(&mut self, id: u64, payload: String) -> (took: bool)
        ensures
            final (self).slots_view() == spec_accept(old(self).slots_view(), id, payload@),
            took == (1 <= id <= old(self).slots_view().len() && old(self).slots_view()[id
                - 1] is None),
    {
        if id >= 1 && id <= self.slots.len() as u64 {
            let idx = (id - 1) as usize;
            let fresh = self.slots[idx].is_none();
            if fresh {
                self.slots[idx] = Some(payload);
                proof {
                    assert(self.slots_view() =~= spec_accept(
                        old(self).slots_view(),
                        id,
                        payload@,
                    ));
                }
                return true;
            }
        }
        proof {
            assert(self.slots_view() =~= spec_accept(old(self).slots_view(), id, payload@));
        }
        false
    }

    /// Whether every slot is filled.
    pub fn complete(&self) -> (r: bool)
        ensures
            r == is_complete(self.slots_view()),
    {
        let mut i: usize = 0;
        while i < self.slots.len()
            invariant
                0 <= i <= self.slots.len(),
                forall|k: int| 0 <= k < i ==> self.slots_view()[k] is Some,
            decreases self.slots.len() - i,
        {
            if self.slots[i].is_none() {
                proof {
                    assert(self.slots_view()[i as int] is None);
                }
                return false;
            }
            i = i + 1;
        }
        true
    }

    /// The collected responses in submission order.
    pub fn into_results(self) -> (r: Vec<String>)
        ensures
            r.deep_view() == unwrap_slots(self.slots_view()),
    {
        let mut out: Vec<String> = Vec::new();
        let mut i: usize = 0;
        while i < self.slots.len()
            invariant
                0 <= i <= self.slots.len(),
                out@.len() == i,
                forall|k: int| 0 <= k < i ==> #[trigger] out@[k]@ == unwrap_slots(
                    self.slots_view(),
                )[k],
            decreases self.slots.len() - i,
        {
            match &self.slots[i] {
                Some(s) => out.push(s.clone()),
                None => out.push(String::new()),
            }
            i = i + 1;
        }
        proof {
            assert(out.deep_view() =~= unwrap_slots(self.slots_view()));
        }
        out
    }
}

/// One step of the receive loop: record or discard the event, or abort.
pub fn transport_step(batch: &mut PendingBatch, event: &WsEvent) -> (r: StepStatus)
    ensures
        match event {
            WsEvent::Text { id, payload } => {
                &&& r is Pending
                &&& match id {
                    Some(i) => final (batch).slots_view() == spec_accept(
                        old(batch).slots_view(),
                        *i,
                        payload@,
                    ),
                    None => final (batch).slots_view() == old(batch).slots_view(),
                }
            },
            WsEvent::NonText => r is Pending && final (batch).slots_view() == old(
                batch).slots_view(),
            WsEvent::ReadFailed(m) => r == StepStatus::Failed(TransportError::ReadFailed(*m))
                && final (batch).slots_view() == old(batch).slots_view(),
            WsEvent::Closed => r == StepStatus::Failed(TransportError::ClosedUnexpectedly)
                && final (batch).slots_view() == old(batch).slots_view(),
            WsEvent::TimedOut => r == StepStatus::Failed(TransportError::TimedOut) && final (
                batch).slots_view() == old(batch).slots_view(),
        },
{
    match event {
        WsEvent::Text { id, payload } => {
            match id {
                Some(i) => {
                    let _took = batch.accept(*i, payload.clone());
                },
                None => {},
            }
            StepStatus::Pending
        },
        WsEvent::NonText => StepStatus::Pending,
        WsEvent::ReadFailed(m) => StepStatus::Failed(TransportError::ReadFailed(m.clone())),
        WsEvent::Closed => StepStatus::Failed(TransportError::ClosedUnexpectedly),
        WsEvent::TimedOut => StepStatus::Failed(TransportError::TimedOut),
    }
}

/// The whole receive loop over a finished event stream, exactly as the
/// asynchronous driver runs it step by step: responses are matched to
/// slots by id, completion returns them in submission order, and an
/// exhausted stream is a timeout with no partial result.
pub fn run_transport(n: usize, events: &Vec<WsEvent>) -> (r: Result<Vec<String>, TransportError>)
    ensures
        match r {
            Ok(v) => drive(empty_slots(n as nat), events@) == TransportModelOutcome::Finished(
                v.deep_view(),
            ),
            Err(e) => drive(empty_slots(n as nat), events@) == TransportModelOutcome::Failed(e),
        },
{
    let mut batch = PendingBatch::new(n);
    let mut i: usize = 0;
    proof {
        assert(events@.skip(0) =~= events@);
    }
    loop
        invariant
            0 <= i <= events.len(),
            drive(empty_slots(n as nat), events@) == drive(
                batch.slots_view(),
                events@.skip(i as int),
            ),
        decreases events.len() - i,
    {
        if batch.complete() {
            proof {
                assert(events@.skip(i as int).len() >= 0);
            }
            return Ok(batch.into_results());
        }
        if i == events.len() {
            proof {
                assert(events@.skip(i as int).len() == 0);
            }
            return Err(TransportError::TimedOut);
        }
        let ev = &events[i];
        proof {
            assert(events@.skip(i as int)[0] == events@[i as int]);
            assert(events@.skip(i as int).drop_first() =~= events@.skip(i as int + 1));
        }
        match transport_step(&mut batch, ev) {
            StepStatus::Pending => {
                i = i + 1;
            },
            StepStatus::Failed(e) => {
                return Err(e);
            },
        }
    }
}

/// The payload of the first text event carrying the given id, if any.
pub open spec fn first_response(events: Seq<WsEvent>, id: u64) -> Option<Seq<char>>
    decreases events.len(),
{
    if events.len() == 0 {
        None
    } else {
        match events[0] {
            WsEvent::Text { id: Some(i), payload } => if i == id {
                Some(payload@)
            } else {
                first_response(events.drop_first(), id)
            },
            _ => first_response(events.drop_first(), id),
        }
    }
}

/// A finished transport returns exactly one response per command.
pub proof fn lemma_drive_len(slots: Seq<Option<Seq<char>>>, events: Seq<WsEvent>)
    requires
        drive(slots, events) is Finished,
    ensures
        drive(slots, events)->Finished_0.len() == slots.len(),
    decreases events.len(),
{
    if !is_complete(slots) && events.len() > 0 {
        match events[0] {
            WsEvent::Text { id: Some(i), payload } => {
                lemma_drive_len(spec_accept(slots, i, payload@), events.drop_first());
            },
            WsEvent::Text { id: None, payload } => {
                lemma_drive_len(slots, events.drop_first());
            },
            WsEvent::NonText => {
                lemma_drive_len(slots, events.drop_first());
            },
            _ => {},
        }
    }
}

/// A slot already filled keeps its payload to the end.
pub proof fn lemma_slot_stable(slots: Seq<Option<Seq<char>>>, events: Seq<WsEvent>, i: int)
    requires
        0 <= i < slots.len(),
        slots[i] is Some,
        drive(slots, events) is Finished,
    ensures
        drive(slots, events)->Finished_0[i] == slots[i]->0,
    decreases events.len(),
{
    if !is_complete(slots) && events.len() > 0 {
        match events[0] {
            WsEvent::Text { id: Some(d), payload } => {
                lemma_slot_stable(spec_accept(slots, d, payload@), events.drop_first(), i);
            },
            WsEvent::Text { id: None, payload } => {
                lemma_slot_stable(slots, events.drop_first(), i);
            },
            WsEvent::NonText => {
                lemma_slot_stable(slots, events.drop_first(), i);
            },
            _ => {},
        }
    }
}

/// Order independence: however responses are ordered on the wire, a
/// finished transport returns, in the slot of command id `id`, the payload
/// of the first text event carrying that id — submission order, not
/// arrival order.
pub proof fn lemma_responses_in_submission_order(
    slots: Seq<Option<Seq<char>>>,
    events: Seq<WsEvent>,
    id: u64,
)
    requires
        1 <= id <= slots.len(),
        slots[id - 1] is None,
        drive(slots, events) is Finished,
    ensures
        first_response(events, id) is Some,
        drive(slots, events)->Finished_0[id - 1] == first_response(events, id)->0,
    decreases events.len(),
{
    if events.len() > 0 {
        match events[0] {
            WsEvent::Text { id: Some(d), payload } => {
                let slots2 = spec_accept(slots, d, payload@);
                if d == id {
                    assert(slots2[id - 1] == Some(payload@));
                    lemma_slot_stable(slots2, events.drop_first(), id - 1);
                } else {
                    assert(slots2[id - 1] is None);
                    lemma_responses_in_submission_order(slots2, events.drop_first(), id);
                }
            },
            WsEvent::Text { id: None, payload } => {
                lemma_responses_in_submission_order(slots, events.drop_first(), id);
            },
            WsEvent::NonText => {
                lemma_responses_in_submission_order(slots, events.drop_first(), id);
            },
            _ => {},
        }
    }
}

/// Only text and non-text frames, none fatal, stand in the stream.
pub open spec fn benign_events(events: Seq<WsEvent>) -> bool {
    forall|k: int|
        0 <= k < events.len() ==> (events[k] is Text || #[trigger] events[k] is NonText)
}

/// Timeout returns no partial list: while the slot of command id `id`
/// never receives a response, the transport cannot finish, and when
/// nothing fatal arrives either, the whole call fails with a timeout.
pub proof fn lemma_timeout_no_partial(slots: Seq<Option<Seq<char>>>, events: Seq<WsEvent>, id: u64)
    requires
        1 <= id <= slots.len(),
        slots[id - 1] is None,
        first_response(events, id) is None,
    ensures
        !(drive(slots, events) is Finished),
        benign_events(events) ==> drive(slots, events) == TransportModelOutcome::Failed(
            TransportError::TimedOut,
        ),
    decreases events.len(),
{
    if events.len() > 0 {
        assert(events.drop_first().len() == events.len() - 1);
        assert(forall|k: int|
            0 <= k < events.drop_first().len() ==> events.drop_first()[k] == events[k + 1]);
        match events[0] {
            WsEvent::Text { id: Some(d), payload } => {
                let slots2 = spec_accept(slots, d, payload@);
                assert(d != id);
                assert(slots2[id - 1] is None);
                lemma_timeout_no_partial(slots2, events.drop_first(), id);
            },
            WsEvent::Text { id: None, payload } => {
                lemma_timeout_no_partial(slots, events.drop_first(), id);
            },
            WsEvent::NonText => {
                lemma_timeout_no_partial(slots, events.drop_first(), id);
            },
            _ => {},
        }
    }
}


/// One outbound command: a method name and its parameter object, both as
/// JSON text fragments.
pub struct CdpCommand {
    pub method: String,
    pub params: String,
}

/// The character of one decimal digit.
pub open spec fn digit_char(d: nat) -> char {
    (((d + 0x30) as u8) as char)
}

/// The decimal digits of `n`, most significant first.
pub open spec fn dec_digits(n: nat) -> Seq<char>
    decreases n,
{
    if n < 10 {
        seq![digit_char(n)]
    } else {
        dec_digits(n / 10).push(digit_char(n % 10))
    }
}

fn digit_exec(d: u64) -> (r: char)
    requires
        d < 10,
    ensures
        r == digit_char(d as nat),
{
    ((d as u8) + 0x30) as char
}

/// The decimal text of `n`.
pub fn u64_to_string(n: u64) -> (r: String)
    ensures
        r@ == dec_digits(n as nat),
{
    let mut digits: Vec<char> = Vec::new();
    digits.push(digit_exec(n % 10));
    let mut m: u64 = n / 10;
    proof {
        assert(digits@ =~= seq![digit_char((n % 10) as nat)]);
        if m > 0 {
            assert(dec_digits(n as nat) =~= dec_digits(m as nat) + digits@);
        }
    }
    while m > 0
        invariant
            dec_digits(n as nat) =~= if m > 0 {
                dec_digits(m as nat) + digits@
            } else {
                digits@
            },
        decreases m,
    {
        let ghost prev = digits@;
        digits.insert(0, digit_exec(m % 10));
        proof {
            assert(digits@ =~= seq![digit_char((m % 10) as nat)] + prev);
            if m >= 10 {
                assert(dec_digits(m as nat) =~= dec_digits((m / 10) as nat) + seq![
                    digit_char((m % 10) as nat)]);
                assert(dec_digits((m / 10) as nat) + (seq![digit_char((m % 10) as nat)] + prev)
                    =~= (dec_digits((m / 10) as nat) + seq![digit_char((m % 10) as nat)]) + prev);
            } else {
                assert(dec_digits(m as nat) =~= seq![digit_char((m % 10) as nat)]);
            }
        }
        m = m / 10;
    }
    crate::text::string_of(&digits)
}

/// The wire text of one command with its id injected: the id first, then
/// the method name, then the parameter object.
pub open spec fn rendered_command(id: nat, method: Seq<char>, params: Seq<char>) -> Seq<char> {
    "{\"id\":"@ + dec_digits(id) + ",\"method\":\""@ + method + "\",\"params\":"@ + params
        + "}"@
}

/// Serializes one command with the given id to its wire text.
pub fn render_command(id: u64, cmd: &CdpCommand) -> (r: String)
    ensures
        r@ == rendered_command(id as nat, cmd.method@, cmd.params@),
{
    let mut s = String::from_str("{\"id\":");
    let id_text = u64_to_string(id);
    s.append(id_text.as_str());
    s.append(",\"method\":\"");
    s.append(cmd.method.as_str());
    s.append("\",\"params\":");
    s.append(cmd.params.as_str());
    s.append("}");
    s
}

/// Assigns ids 1, 2, ... in submission order and serializes every command
/// to the text sent on the socket.
pub fn render_commands(cmds: &Vec<CdpCommand>) -> (r: Vec<String>)
    requires
        cmds@.len() <= 0xffff_ffff,
    ensures
        r@.len() == cmds@.len(),
        forall|k: int|
            0 <= k < cmds@.len() ==> #[trigger] r@[k]@ == rendered_command(
                (k + 1) as nat,
                cmds@[k].method@,
                cmds@[k].params@,
            ),
{
    let mut out: Vec<String> = Vec::new();
    let mut i: usize = 0;
    while i < cmds.len()
        invariant
            0 <= i <= cmds@.len(),
            cmds@.len() <= 0xffff_ffff,
            out@.len() == i,
            forall|k: int|
                0 <= k < i ==> #[trigger] out@[k]@ == rendered_command(
                    (k + 1) as nat,
                    cmds@[k].method@,
                    cmds@[k].params@,
                ),
        decreases cmds.len() - i,
    {
        let id: u64 = (i as u64) + 1;
        out.push(render_command(id, &cmds[i]));
        i = i + 1;
    }
    out
}


/// Classifies one received text frame: the numeric id field is read from
/// the parsed JSON, and a frame that is not JSON or has no numeric id
/// carries None, to be discarded silently.
pub fn frame_event(text: String) -> (r: WsEvent)
    ensures
        r is Text,
        r->Text_payload == text,
        r->Text_id == crate::json::frame_id_of(text@),
{
    let id = crate::json::json_id_of(text.as_str());
    WsEvent::Text { id, payload: text }
}

} // verus!
