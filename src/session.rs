use vstd::prelude::*;

use crate::device::OperationKind;
use crate::error::FpError;
use crate::image::FpImage;

verus! {

/// The life of a scan session. Completed and Failed are terminal.
#[derive(Clone, Copy, Debug, PartialEq, Eq, Structural)]
pub enum SessionState {
    Idle,
    Running,
    Cancelling,
    Completed,
    Failed,
}

/// The outcome of an Identify or Verify operation.
#[derive(Debug)]
pub enum MatchResult {
    /// The finger matched the print with this id.
    Matched(String),
    NoMatch,
}

/// What a completed session holds.
#[derive(Debug)]
pub enum ScanResult {
    /// The enrollment template, an opaque blob in the device's own format.
    Template(Vec<u8>),
    /// The captured image.
    Image(FpImage),
    /// The result of a match.
    Match(MatchResult),
}

/// What the hardware reports about a running operation.
#[derive(Debug)]
pub enum HardwareEvent {
    /// The scan should be repeated, for the reason given.
    Retry(String),
    /// A stage of the operation finished.
    Stage(u32),
    /// The operation succeeded with this result.
    Success(ScanResult),
    /// The operation failed with this error.
    Error(FpError),
}

/// What a session's progress channel delivers to the caller. The result of a
/// completed session stays with the session.
#[derive(Debug)]
pub enum ProgressEvent {
    RetryRequested(String),
    StageComplete(u32),
    Completed,
    Failed(FpError),
}

pub open spec fn is_terminal_event(e: ProgressEvent) -> bool {
    e is Completed || e is Failed
}

pub open spec fn is_terminal_state(s: SessionState) -> bool {
    s == SessionState::Completed || s == SessionState::Failed
}

/// The number of terminal events in `s`.
pub open spec fn terminal_count(s: Seq<ProgressEvent>) -> nat
    decreases s.len(),
{
    if s.len() == 0 {
        0
    } else {
        terminal_count(s.drop_last()) + if is_terminal_event(s.last()) {
            1nat
        } else {
            0nat
        }
    }
}

/// Whether `r` is the kind of result that an operation of `kind` produces.
pub open spec fn result_fits(kind: OperationKind, r: ScanResult) -> bool {
    match kind {
        OperationKind::Enroll => r is Template,
        OperationKind::Capture => r is Image,
        OperationKind::Identify => r is Match,
        OperationKind::Verify => r is Match,
    }
}

/// An ordered queue of the progress events of one session. `history` is every
/// event sent so far; `queue` holds those not yet received.
pub struct ProgressChannel {
    pub queue: Vec<ProgressEvent>,
    pub history: Ghost<Seq<ProgressEvent>>,
    pub received: Ghost<nat>,
    pub terminated: bool,
}

impl ProgressChannel {
    /// Nothing is lost: the pending events are exactly the sent ones not yet
    /// received, in order. At most one terminal event was sent, and only as
    /// the last event.
    pub open spec fn wf(&self) -> bool {
        &&& self.received@ <= self.history@.len()
        &&& self.queue@ == self.history@.subrange(self.received@ as int, self.history@.len() as int)
        &&& terminal_count(self.history@) == if self.terminated {
            1nat
        } else {
            0nat
        }
        &&& self.terminated ==> self.history@.len() > 0 && is_terminal_event(self.history@.last())
    }

    /// An empty, open channel.
    pub fn new() -> (r: ProgressChannel)
        ensures
            r.wf(),
            r.history@ == Seq::<ProgressEvent>::empty(),
            !r.terminated,
    {
        let r = ProgressChannel {
            queue: Vec::new(),
            history: Ghost(Seq::empty()),
            received: Ghost(0),
            terminated: false,
        };
        assert(r.queue@ =~= r.history@.subrange(0, 0));
        r
    }

    /// Sends `e`; a terminal event closes the channel.
    pub fn send(&mut self, e: ProgressEvent)
        requires
            old(self).wf(),
            !old(self).terminated,
        ensures
            final(self).wf(),
            final(self).history@ == old(self).history@.push(e),
            final(self).received@ == old(self).received@,
            final(self).terminated == is_terminal_event(e),
    {
        let ghost h = self.history@;
        let terminal = match &e {
            ProgressEvent::Completed => true,
            ProgressEvent::Failed(_) => true,
            _ => false,
        };
        self.queue.push(e);
        self.history = Ghost(h.push(e));
        self.terminated = terminal;
        assert(self.history@.drop_last() =~= h);
        assert(self.queue@ =~= self.history@.subrange(
            self.received@ as int,
            self.history@.len() as int,
        ));
    }

    /// Takes the oldest event not yet received, if any.
    pub fn recv(&mut self) -> (r: Option<ProgressEvent>)
        requires
            old(self).wf(),
        ensures
            final(self).wf(),
            final(self).history@ == old(self).history@,
            final(self).terminated == old(self).terminated,
            old(self).queue@.len() == 0 ==> r is None && final(self).queue@ == old(self).queue@,
            old(self).queue@.len() > 0 ==> r == Some(old(self).queue@[0]) && final(self).queue@
                == old(self).queue@.drop_first(),
    {
        if self.queue.len() == 0 {
            None
        } else {
            let e = self.queue.remove(0);
            self.received = Ghost(self.received@ + 1);
            assert(self.queue@ =~= self.history@.subrange(
                self.received@ as int,
                self.history@.len() as int,
            ));
            Some(e)
        }
    }

    /// Whether the terminal event was sent.
    pub fn is_terminated(&self) -> (r: bool)
        ensures
            r == self.terminated,
    {
        self.terminated
    }

    /// The number of events sent and not yet received.
    pub fn pending(&self) -> (r: usize)
        ensures
            r == self.queue@.len(),
    {
        self.queue.len()
    }
}


/// Whether the result `r` fits an operation of `kind`.
pub fn fits(kind: OperationKind, r: &ScanResult) -> (b: bool)
    ensures
        b == result_fits(kind, *r),
{
    match kind {
        OperationKind::Enroll => matches!(r, ScanResult::Template(_)),
        OperationKind::Capture => matches!(r, ScanResult::Image(_)),
        OperationKind::Identify => matches!(r, ScanResult::Match(_)),
        OperationKind::Verify => matches!(r, ScanResult::Match(_)),
    }
}

/// The progress event that a live session emits for a hardware report.
pub open spec fn event_for(kind: OperationKind, ev: HardwareEvent) -> ProgressEvent {
    match ev {
        HardwareEvent::Retry(m) => ProgressEvent::RetryRequested(m),
        HardwareEvent::Stage(n) => ProgressEvent::StageComplete(n),
        HardwareEvent::Success(res) => if result_fits(kind, res) {
            ProgressEvent::Completed
        } else {
            ProgressEvent::Failed(FpError::ProtocolError)
        },
        HardwareEvent::Error(e) => ProgressEvent::Failed(e),
    }
}

/// What one hardware report does to a session. Only a live session takes it
/// (`r`): it appends the matching progress event; a success ends the session
/// Completed with its result, an error or a result of the wrong kind ends it
/// Failed; a retry request or a finished stage keeps it as it was.
pub open spec fn hardware_step(old: ScanSession, ev: HardwareEvent, new: ScanSession, r: bool) -> bool {
    &&& new.same_identity(&old)
    &&& r == old.is_live()
    &&& !r ==> new == old
    &&& r ==> {
        &&& new.channel.received@ == old.channel.received@
        &&& new.channel.history@ == old.channel.history@.push(event_for(old.kind, ev))
        &&& match ev {
            HardwareEvent::Success(res) => if result_fits(old.kind, res) {
                &&& new.state == SessionState::Completed
                &&& new.result == Some(res)
            } else {
                &&& new.state == SessionState::Failed
                &&& new.error == Some(FpError::ProtocolError)
            },
            HardwareEvent::Error(e) => {
                &&& new.state == SessionState::Failed
                &&& new.error == Some(e)
            },
            _ => new.state == old.state,
        }
    }
}

/// The error with which a live session ends when the caller's time runs out.
pub open spec fn expiry_error(state: SessionState) -> FpError {
    if state == SessionState::Running {
        FpError::Timeout
    } else {
        FpError::Cancelled
    }
}

/// What the end of the caller's time limit does to a session: a live one
/// (`r`) ends Failed with `expiry_error`; any other stays as it was.
pub open spec fn expire_step(old: ScanSession, new: ScanSession, r: bool) -> bool {
    &&& new.same_identity(&old)
    &&& r == old.is_live()
    &&& !r ==> new == old
    &&& r ==> {
        &&& new.state == SessionState::Failed
        &&& new.error == Some(expiry_error(old.state))
        &&& new.channel.history@ == old.channel.history@.push(
            ProgressEvent::Failed(expiry_error(old.state)),
        )
        &&& new.channel.received@ == old.channel.received@
    }
}

/// What a cancel request does to a session: a running one (`r`) moves to
/// Cancelling and nothing else changes; any other, a completed one included,
/// stays exactly as it was.
pub open spec fn cancel_step(old: ScanSession, new: ScanSession, r: bool) -> bool {
    &&& r == (old.state == SessionState::Running)
    &&& r ==> new == (ScanSession { state: SessionState::Cancelling, ..old })
    &&& !r ==> new == old
}

/// What closing the device does to a session: a live one (`r`) ends Failed
/// with `Cancelled`; any other stays as it was.
pub open spec fn abort_step(old: ScanSession, new: ScanSession, r: bool) -> bool {
    &&& new.same_identity(&old)
    &&& r == old.is_live()
    &&& !r ==> new == old
    &&& r ==> {
        &&& new.state == SessionState::Failed
        &&& new.error == Some(FpError::Cancelled)
        &&& new.channel.history@ == old.channel.history@.push(ProgressEvent::Failed(FpError::Cancelled))
        &&& new.channel.received@ == old.channel.received@
    }
}

/// A sequence without a terminal event counts none.
proof fn lemma_no_terminal(s: Seq<ProgressEvent>)
    requires
        terminal_count(s) == 0,
    ensures
        forall|i: int| 0 <= i < s.len() ==> !is_terminal_event(#[trigger] s[i]),
    decreases s.len(),
{
    if s.len() > 0 {
        lemma_no_terminal(s.drop_last());
        assert forall|i: int| 0 <= i < s.len() implies !is_terminal_event(#[trigger] s[i]) by {
            if i < s.len() - 1 {
                assert(s[i] == s.drop_last()[i]);
            }
        }
    }
}

/// Whatever order the hardware's reports, cancel requests and time-outs come
/// in, a session's progress channel carries no terminal event while the
/// session is live, and exactly one once it has finished: the last one, which
/// is Completed for a completed session and Failed with its error for a
/// failed one.
pub proof fn lemma_terminates_once(s: &ScanSession)
    requires
        s.wf(),
    ensures
        terminal_count(s.channel.history@) == if is_terminal_state(s.state) {
            1nat
        } else {
            0nat
        },
        !is_terminal_state(s.state) ==> forall|i: int|
            0 <= i < s.channel.history@.len() ==> !is_terminal_event(#[trigger] s.channel.history@[i]),
        is_terminal_state(s.state) ==> {
            let h = s.channel.history@;
            &&& h.len() > 0
            &&& forall|i: int| 0 <= i < h.len() - 1 ==> !is_terminal_event(#[trigger] h[i])
            &&& s.state == SessionState::Completed ==> h.last() is Completed
            &&& s.state == SessionState::Failed ==> h.last() == ProgressEvent::Failed(
                s.error.unwrap(),
            )
        },
{
    let h = s.channel.history@;
    if is_terminal_state(s.state) {
        assert(terminal_count(h.drop_last()) == 0);
        lemma_no_terminal(h.drop_last());
        assert forall|i: int| 0 <= i < h.len() - 1 implies !is_terminal_event(#[trigger] h[i]) by {
            assert(h[i] == h.drop_last()[i]);
        }
    } else {
        lemma_no_terminal(h);
    }
}

/// One operation on one device, named by the device's id. The caller drives
/// it with `start`, `cancel`, hardware events and `expire`, and reads its
/// progress from `channel`.
pub struct ScanSession {
    pub id: usize,
    pub device_id: String,
    pub kind: OperationKind,
    pub state: SessionState,
    pub result: Option<ScanResult>,
    pub error: Option<FpError>,
    pub channel: ProgressChannel,
}

impl ScanSession {
    /// The channel closes exactly when the session reaches a terminal state,
    /// and its last event then tells which; a completed session holds a
    /// result of its operation's kind, a failed one its error.
    pub open spec fn wf(&self) -> bool {
        &&& self.channel.wf()
        &&& self.channel.terminated == is_terminal_state(self.state)
        &&& self.state == SessionState::Idle ==> self.channel.history@.len() == 0
        &&& self.result is Some <==> self.state == SessionState::Completed
        &&& self.error is Some <==> self.state == SessionState::Failed
        &&& self.state == SessionState::Completed ==> {
            &&& result_fits(self.kind, self.result.unwrap())
            &&& self.channel.history@.last() is Completed
        }
        &&& self.state == SessionState::Failed ==> self.channel.history@.last() == ProgressEvent::Failed(
            self.error.unwrap(),
        )
    }

    /// Running or Cancelling: the hardware may still report.
    pub open spec fn is_live(&self) -> bool {
        self.state == SessionState::Running || self.state == SessionState::Cancelling
    }

    /// The fields that no transition changes.
    pub open spec fn same_identity(&self, other: &ScanSession) -> bool {
        &&& self.id == other.id
        &&& self.device_id@ == other.device_id@
        &&& self.kind == other.kind
    }

    /// A session of `kind` on the device `device_id`, not yet started.
    pub fn new(id: usize, device_id: String, kind: OperationKind) -> (r: ScanSession)
        ensures
            r.wf(),
            r.id == id,
            r.device_id@ == device_id@,
            r.kind == kind,
            r.state == SessionState::Idle,
            r.channel.history@ == Seq::<ProgressEvent>::empty(),
    {
        ScanSession {
            id,
            device_id,
            kind,
            state: SessionState::Idle,
            result: None,
            error: None,
            channel: ProgressChannel::new(),
        }
    }

    /// Idle to Running. A session starts once only.
    pub fn start(&mut self) -> (r: Result<(), FpError>)
        requires
            old(self).wf(),
        ensures
            final(self).wf(),
            old(self).state == SessionState::Idle ==> r is Ok && *final(self) == (ScanSession {
                state: SessionState::Running,
                ..*old(self)
            }),
            old(self).state != SessionState::Idle ==> r == Err::<(), FpError>(
                FpError::AlreadyStarted,
            ) && *final(self) == *old(self),
    {
        if self.state == SessionState::Idle {
            self.state = SessionState::Running;
            Ok(())
        } else {
            Err(FpError::AlreadyStarted)
        }
    }

    /// Asks a running session to stop. Returns whether the hardware should
    /// be told to abort; a session in any other state, a completed one
    /// included, is left exactly as it was.
    pub fn cancel(&mut self) -> (r: bool)
        requires
            old(self).wf(),
        ensures
            final(self).wf(),
            cancel_step(*old(self), *final(self), r),
    {
        if self.state == SessionState::Running {
            self.state = SessionState::Cancelling;
            true
        } else {
            false
        }
    }

    /// Ends a live session with `e`.
    fn fail(&mut self, e: FpError)
        requires
            old(self).wf(),
            old(self).is_live(),
        ensures
            final(self).wf(),
            final(self).same_identity(old(self)),
            final(self).state == SessionState::Failed,
            final(self).error == Some(e),
            final(self).result == old(self).result,
            final(self).channel.history@ == old(self).channel.history@.push(ProgressEvent::Failed(e)),
            final(self).channel.received@ == old(self).channel.received@,
    {
        self.channel.send(ProgressEvent::Failed(e));
        self.state = SessionState::Failed;
        self.error = Some(e);
    }

    /// Applies what the hardware reported. Only a live session takes it:
    /// events after the terminal one, or before the start, are ignored and
    /// the result says so. A success whose result does not fit the
    /// operation fails the session with a protocol error.
    pub fn on_hardware(&mut self, ev: HardwareEvent) -> (r: bool)
        requires
            old(self).wf(),
        ensures
            final(self).wf(),
            hardware_step(*old(self), ev, *final(self), r),
    {
        if !(self.state == SessionState::Running || self.state == SessionState::Cancelling) {
            return false;
        }
        match ev {
            HardwareEvent::Retry(m) => {
                self.channel.send(ProgressEvent::RetryRequested(m));
            },
            HardwareEvent::Stage(n) => {
                self.channel.send(ProgressEvent::StageComplete(n));
            },
            HardwareEvent::Success(res) => {
                if fits(self.kind, &res) {
                    self.channel.send(ProgressEvent::Completed);
                    self.state = SessionState::Completed;
                    self.result = Some(res);
                } else {
                    self.fail(FpError::ProtocolError);
                }
            },
            HardwareEvent::Error(e) => {
                self.fail(e);
            },
        }
        true
    }

    /// The caller's time limit ran out. A running session fails with
    /// `Timeout`, a cancelling one with `Cancelled`; any other is left as it
    /// was. Returns whether the session changed.
    pub fn expire(&mut self) -> (r: bool)
        requires
            old(self).wf(),
        ensures
            final(self).wf(),
            expire_step(*old(self), *final(self), r),
    {
        if self.state == SessionState::Running {
            self.fail(FpError::Timeout);
            true
        } else if self.state == SessionState::Cancelling {
            self.fail(FpError::Cancelled);
            true
        } else {
            false
        }
    }

    /// Ends a live session at once with `Cancelled`, as when its device is
    /// closed under it. Returns whether the session changed.
    pub fn abort(&mut self) -> (r: bool)
        requires
            old(self).wf(),
        ensures
            final(self).wf(),
            abort_step(*old(self), *final(self), r),
    {
        if self.state == SessionState::Running || self.state == SessionState::Cancelling {
            self.fail(FpError::Cancelled);
            true
        } else {
            false
        }
    }

    /// Takes the oldest progress event not yet received, if any.
    pub fn recv(&mut self) -> (r: Option<ProgressEvent>)
        requires
            old(self).wf(),
        ensures
            final(self).wf(),
            final(self).same_identity(old(self)),
            final(self).state == old(self).state,
            final(self).result == old(self).result,
            final(self).error == old(self).error,
            final(self).channel.history@ == old(self).channel.history@,
            old(self).channel.queue@.len() == 0 ==> r is None,
            old(self).channel.queue@.len() > 0 ==> r == Some(old(self).channel.queue@[0])
                && final(self).channel.queue@ == old(self).channel.queue@.drop_first(),
    {
        self.channel.recv()
    }
}

} // verus!
