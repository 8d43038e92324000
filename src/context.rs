use vstd::prelude::*;

use crate::device::{DeviceInfo, FpDevice, OpenState, OperationKind};
use crate::error::FpError;
use crate::session::{
    is_terminal_event,
    is_terminal_state,
    lemma_terminates_once,
    terminal_count,
    abort_step,
    cancel_step,
    expire_step,
    hardware_step,
    HardwareEvent,
    ProgressEvent,
    ScanSession,
    SessionState,
};

verus! {

/// No two devices share an id.
pub open spec fn ids_unique(devs: Seq<FpDevice>) -> bool {
    forall|i: int, j: int|
        0 <= i < devs.len() && 0 <= j < devs.len() && i != j ==> (#[trigger] devs[i]).id@
            != (#[trigger] devs[j]).id@
}

/// Some device has the id `id`.
pub open spec fn has_id(devs: Seq<FpDevice>, id: Seq<char>) -> bool {
    exists|i: int| 0 <= i < devs.len() && (#[trigger] devs[i]).id@ == id
}

/// The position of the device with the id `id`, where there is one.
pub open spec fn index_of(devs: Seq<FpDevice>, id: Seq<char>) -> int {
    choose|i: int| 0 <= i < devs.len() && (#[trigger] devs[i]).id@ == id
}

/// Every session is well formed, started, and numbered by its position.
#[verifier::opaque]
pub open spec fn sessions_wf(ss: Seq<ScanSession>) -> bool {
    forall|s: int|
        0 <= s < ss.len() ==> {
            &&& (#[trigger] ss[s]).wf()
            &&& ss[s].id == s
            &&& ss[s].state != SessionState::Idle
        }
}

/// A device that is held is open, and its holder is a live session on it.
#[verifier::opaque]
pub open spec fn holders_ok(devs: Seq<FpDevice>, ss: Seq<ScanSession>) -> bool {
    forall|i: int|
        0 <= i < devs.len() && (#[trigger] devs[i]).active is Some ==> {
            let s = devs[i].active.unwrap() as int;
            &&& s < ss.len()
            &&& ss[s].device_id@ == devs[i].id@
            &&& ss[s].is_live()
            &&& devs[i].state == OpenState::Open
        }
}

/// Every live session is the holder of a device of the table: none is left
/// running once its device is closed or gone.
#[verifier::opaque]
pub open spec fn live_held(devs: Seq<FpDevice>, ss: Seq<ScanSession>) -> bool {
    forall|s: int|
        0 <= s < ss.len() && (#[trigger] ss[s]).is_live() ==> exists|i: int|
            0 <= i < devs.len() && (#[trigger] devs[i]).id@ == ss[s].device_id@ && devs[i].active
                == Some(s as usize)
}

/// What `start_session` does to the registry `old` for the id `id` and an
/// operation of `kind`. The checks come in this order: the device exists, is
/// open, can do `kind`, and is not held by a live session. A new session is
/// numbered after the last one, starts Running and holds the device.
pub open spec fn start_post(
    old: FpContext,
    id: Seq<char>,
    kind: OperationKind,
    new: FpContext,
    r: Result<usize, FpError>,
) -> bool {
    let i = index_of(old.devs(), id);
    let d = old.devs()[i];
    let err = if !has_id(old.devs(), id) {
        Some(FpError::DeviceNotFound)
    } else if d.state != OpenState::Open {
        Some(FpError::NotOpen)
    } else if !d.caps.spec_supports(kind) {
        Some(FpError::UnsupportedOperation)
    } else if d.active is Some {
        Some(FpError::DeviceBusy)
    } else {
        None
    };
    match err {
        Some(e) => {
            &&& r == Err::<usize, FpError>(e)
            &&& new.devs() == old.devs()
            &&& new.sess() == old.sess()
        },
        None => {
            let sid = old.sess().len();
            let x = new.sess().last();
            &&& r == Ok::<usize, FpError>(sid as usize)
            &&& new.devs() == with_active(old.devs(), i, Some(sid as usize))
            &&& new.sess().len() == sid + 1
            &&& new.sess().drop_last() == old.sess()
            &&& x.id == sid
            &&& x.device_id@ == id
            &&& x.kind == kind
            &&& x.state == SessionState::Running
            &&& x.channel.history@ == Seq::<ProgressEvent>::empty()
        },
    }
}

/// The device table after session `sid` of `old` moved from `before` to
/// `after`: a session that has just finished gives its device back.
pub open spec fn released(old: FpContext, new: FpContext, before: ScanSession, after: ScanSession) -> bool {
    if before.is_live() && !after.is_live() {
        new.devs() == with_active(old.devs(), index_of(old.devs(), before.device_id@), None)
    } else {
        new.devs() == old.devs()
    }
}

/// The open state that a device with the id `id` has after a re-enumeration
/// of `old`: a device seen before keeps its state, a new one is Closed.
pub open spec fn state_for(old: Seq<FpDevice>, id: Seq<char>) -> OpenState {
    if has_id(old, id) {
        old[index_of(old, id)].state
    } else {
        OpenState::Closed
    }
}

/// The holder that a device with the id `id` has after a re-enumeration of
/// `old`: a device seen before keeps it, a new one has none.
pub open spec fn active_for(old: Seq<FpDevice>, id: Seq<char>) -> Option<usize> {
    if has_id(old, id) {
        old[index_of(old, id)].active
    } else {
        None
    }
}

/// The table entry that a re-enumeration of `old` makes for `info`.
pub open spec fn entry_for(old: Seq<FpDevice>, info: DeviceInfo) -> FpDevice {
    FpDevice {
        id: info.id,
        name: info.name,
        caps: info.capabilities,
        state: state_for(old, info.id@),
        active: active_for(old, info.id@),
    }
}

/// The device table that a re-enumeration finding `found` makes of `old`:
/// one entry per id, at its first occurrence, in the order found.
pub open spec fn merged(old: Seq<FpDevice>, found: Seq<DeviceInfo>) -> Seq<FpDevice>
    decreases found.len(),
{
    if found.len() == 0 {
        Seq::empty()
    } else {
        let prev = merged(old, found.drop_last());
        if has_id(prev, found.last().id@) {
            prev
        } else {
            prev.push(entry_for(old, found.last()))
        }
    }
}

/// What a re-enumeration that yields the table `devs` does to a session: a
/// live one whose device is gone fails with `HardwareUnavailable`; any other
/// stays as it was.
pub open spec fn after_rescan(before: ScanSession, after: ScanSession, devs: Seq<FpDevice>) -> bool {
    if before.is_live() && !has_id(devs, before.device_id@) {
        hardware_step(before, HardwareEvent::Error(FpError::HardwareUnavailable), after, true)
    } else {
        after == before
    }
}

/// A re-enumeration keeps the registry consistent.
proof fn lemma_rescan(
    old_devs: Seq<FpDevice>,
    new_devs: Seq<FpDevice>,
    old_ss: Seq<ScanSession>,
    new_ss: Seq<ScanSession>,
)
    requires
        ids_unique(old_devs),
        sessions_wf(old_ss),
        holders_ok(old_devs, old_ss),
        live_held(old_devs, old_ss),
        ids_unique(new_devs),
        forall|k: int|
            0 <= k < new_devs.len() ==> (#[trigger] new_devs[k]).state == state_for(
                old_devs,
                new_devs[k].id@,
            ) && new_devs[k].active == active_for(old_devs, new_devs[k].id@),
        new_ss.len() == old_ss.len(),
        forall|t: int|
            0 <= t < old_ss.len() ==> {
                &&& (#[trigger] new_ss[t]).wf()
                &&& after_rescan(old_ss[t], new_ss[t], new_devs)
            },
    ensures
        sessions_wf(new_ss),
        holders_ok(new_devs, new_ss),
        live_held(new_devs, new_ss),
{
    assert(sessions_wf(new_ss)) by {
        reveal(sessions_wf);
        assert forall|t: int| 0 <= t < new_ss.len() implies {
            &&& (#[trigger] new_ss[t]).wf()
            &&& new_ss[t].id == t
            &&& new_ss[t].state != SessionState::Idle
        } by {
            assert(old_ss[t].wf());
            assert(after_rescan(old_ss[t], new_ss[t], new_devs));
        }
    }
    assert(holders_ok(new_devs, new_ss)) by {
        reveal(holders_ok);
        assert forall|k: int|
            0 <= k < new_devs.len() && (#[trigger] new_devs[k]).active is Some implies {
                let t = new_devs[k].active.unwrap() as int;
                &&& t < new_ss.len()
                &&& new_ss[t].device_id@ == new_devs[k].id@
                &&& new_ss[t].is_live()
                &&& new_devs[k].state == OpenState::Open
            } by {
            let id = new_devs[k].id@;
            assert(has_id(old_devs, id));
            let j = index_of(old_devs, id);
            assert(old_devs[j].id@ == id);
            let t = old_devs[j].active.unwrap() as int;
            assert(has_id(new_devs, id));
            assert(after_rescan(old_ss[t], new_ss[t], new_devs));
        }
    }
    assert(live_held(new_devs, new_ss)) by {
        reveal(live_held);
        assert forall|t: int| 0 <= t < new_ss.len() && (#[trigger] new_ss[t]).is_live() implies exists|k: int|
            0 <= k < new_devs.len() && (#[trigger] new_devs[k]).id@ == new_ss[t].device_id@
                && new_devs[k].active == Some(t as usize) by {
            assert(after_rescan(old_ss[t], new_ss[t], new_devs));
            assert(new_ss[t] == old_ss[t]);
            let id = old_ss[t].device_id@;
            let j = choose|j: int|
                0 <= j < old_devs.len() && (#[trigger] old_devs[j]).id@ == id && old_devs[j].active
                    == Some(t as usize);
            lemma_index_of(old_devs, id, j);
            let k = index_of(new_devs, id);
            assert(new_devs[k].id@ == id);
        }
    }
}

/// What `close` does to the registry `old` for the id `id`.
pub open spec fn close_post(old: FpContext, id: Seq<char>, new: FpContext, r: Result<(), FpError>) -> bool {
    if !has_id(old.devs(), id) {
        &&& r == Err::<(), FpError>(FpError::DeviceNotFound)
        &&& new.devs() == old.devs()
        &&& new.sess() == old.sess()
    } else {
        let i = index_of(old.devs(), id);
        let d = old.devs()[i];
        &&& r is Ok
        &&& if d.state == OpenState::Closed || d.state == OpenState::Closing {
            new.devs() == old.devs() && new.sess() == old.sess()
        } else {
            &&& new.devs() == old.devs().update(
                i,
                FpDevice { state: OpenState::Closing, active: None, ..d },
            )
            &&& match d.active {
                None => new.sess() == old.sess(),
                Some(s) => {
                    &&& new.sess() == old.sess().update(s as int, new.sess()[s as int])
                    &&& abort_step(old.sess()[s as int], new.sess()[s as int], true)
                },
            }
        }
    }
}

/// The device table with the device at `i` moved to `state`.
pub open spec fn with_state(devs: Seq<FpDevice>, i: int, state: OpenState) -> Seq<FpDevice> {
    devs.update(i, FpDevice { state, ..devs[i] })
}

/// The device table with the device at `i` held by `active`.
pub open spec fn with_active(devs: Seq<FpDevice>, i: int, active: Option<usize>) -> Seq<FpDevice> {
    devs.update(i, FpDevice { active, ..devs[i] })
}

/// The device with the id `id` is at `i` in `devs`.
proof fn lemma_index_of(devs: Seq<FpDevice>, id: Seq<char>, i: int)
    requires
        ids_unique(devs),
        0 <= i < devs.len(),
        devs[i].id@ == id,
    ensures
        has_id(devs, id),
        index_of(devs, id) == i,
{
    assert(has_id(devs, id));
    let j = index_of(devs, id);
    assert(devs[j].id@ == id);
}

/// Changing what no invariant reads (the state of a device that no session
/// holds) keeps the device table consistent with the sessions.
proof fn lemma_frame_devices(old_devs: Seq<FpDevice>, new_devs: Seq<FpDevice>, ss: Seq<ScanSession>)
    requires
        ids_unique(old_devs),
        holders_ok(old_devs, ss),
        live_held(old_devs, ss),
        new_devs.len() == old_devs.len(),
        forall|k: int|
            0 <= k < old_devs.len() ==> {
                &&& (#[trigger] new_devs[k]).id@ == old_devs[k].id@
                &&& new_devs[k].active == old_devs[k].active
                &&& old_devs[k].active is Some ==> new_devs[k].state == old_devs[k].state
            },
    ensures
        ids_unique(new_devs),
        holders_ok(new_devs, ss),
        live_held(new_devs, ss),
{
    assert forall|i: int, j: int|
        0 <= i < new_devs.len() && 0 <= j < new_devs.len() && i != j implies (#[trigger] new_devs[i]).id@
            != (#[trigger] new_devs[j]).id@ by {
        assert(old_devs[i].id@ != old_devs[j].id@);
    }
    assert(holders_ok(new_devs, ss)) by {
        reveal(holders_ok);
        assert forall|i: int|
            0 <= i < new_devs.len() && (#[trigger] new_devs[i]).active is Some implies {
                let s = new_devs[i].active.unwrap() as int;
                &&& s < ss.len()
                &&& ss[s].device_id@ == new_devs[i].id@
                &&& ss[s].is_live()
                &&& new_devs[i].state == OpenState::Open
            } by {
            assert(old_devs[i].active is Some);
        }
    }
    assert(live_held(new_devs, ss)) by {
        reveal(live_held);
        assert forall|s: int| 0 <= s < ss.len() && (#[trigger] ss[s]).is_live() implies exists|i: int|
            0 <= i < new_devs.len() && (#[trigger] new_devs[i]).id@ == ss[s].device_id@
                && new_devs[i].active == Some(s as usize) by {
            let k = choose|k: int|
                0 <= k < old_devs.len() && (#[trigger] old_devs[k]).id@ == ss[s].device_id@
                    && old_devs[k].active == Some(s as usize);
            assert(new_devs[k].id@ == old_devs[k].id@);
        }
    }
}

/// A live session that has just finished gives its device back: the table
/// with that device unheld is consistent with the new sessions.
proof fn lemma_release(
    old_devs: Seq<FpDevice>,
    new_devs: Seq<FpDevice>,
    old_ss: Seq<ScanSession>,
    new_ss: Seq<ScanSession>,
    i: int,
    sid: int,
)
    requires
        ids_unique(old_devs),
        sessions_wf(old_ss),
        holders_ok(old_devs, old_ss),
        live_held(old_devs, old_ss),
        0 <= i < old_devs.len(),
        0 <= sid < old_ss.len() <= usize::MAX,
        old_devs[i].active == Some(sid as usize),
        new_devs.len() == old_devs.len(),
        forall|k: int|
            0 <= k < old_devs.len() && k != i ==> #[trigger] new_devs[k] == old_devs[k],
        new_devs[i].id@ == old_devs[i].id@,
        new_devs[i].active is None,
        new_ss == old_ss.update(sid, new_ss[sid]),
        new_ss[sid].wf(),
        new_ss[sid].id == sid,
        new_ss[sid].state != SessionState::Idle,
        !new_ss[sid].is_live(),
    ensures
        ids_unique(new_devs),
        sessions_wf(new_ss),
        holders_ok(new_devs, new_ss),
        live_held(new_devs, new_ss),
{
    assert forall|a: int, b: int|
        0 <= a < new_devs.len() && 0 <= b < new_devs.len() && a != b implies (#[trigger] new_devs[a]).id@
            != (#[trigger] new_devs[b]).id@ by {
        assert(old_devs[a].id@ != old_devs[b].id@);
    }
    assert(sessions_wf(new_ss)) by {
        reveal(sessions_wf);
        assert forall|t: int| 0 <= t < new_ss.len() implies {
            &&& (#[trigger] new_ss[t]).wf()
            &&& new_ss[t].id == t
            &&& new_ss[t].state != SessionState::Idle
        } by {
            if t != sid {
                assert(new_ss[t] == old_ss[t]);
            }
        }
    }
    assert(holders_ok(new_devs, new_ss)) by {
        reveal(holders_ok);
        assert forall|k: int|
            0 <= k < new_devs.len() && (#[trigger] new_devs[k]).active is Some implies {
                let t = new_devs[k].active.unwrap() as int;
                &&& t < new_ss.len()
                &&& new_ss[t].device_id@ == new_devs[k].id@
                &&& new_ss[t].is_live()
                &&& new_devs[k].state == OpenState::Open
            } by {
            assert(new_devs[k] == old_devs[k]);
            let t = old_devs[k].active.unwrap() as int;
            assert(old_ss[t].device_id@ == old_devs[k].id@);
            assert(old_ss[sid].device_id@ == old_devs[i].id@);
            assert(old_devs[k].id@ != old_devs[i].id@);
            assert(t != sid);
        }
    }
    assert(live_held(new_devs, new_ss)) by {
        reveal(live_held);
        assert forall|t: int| 0 <= t < new_ss.len() && (#[trigger] new_ss[t]).is_live() implies exists|k: int|
            0 <= k < new_devs.len() && (#[trigger] new_devs[k]).id@ == new_ss[t].device_id@
                && new_devs[k].active == Some(t as usize) by {
            assert(t != sid);
            assert(new_ss[t] == old_ss[t]);
            let k = choose|k: int|
                0 <= k < old_devs.len() && (#[trigger] old_devs[k]).id@ == old_ss[t].device_id@
                    && old_devs[k].active == Some(t as usize);
            assert(k != i);
            assert(new_devs[k] == old_devs[k]);
        }
    }
}

/// A change to one session that keeps it as live as it was, on the same
/// device, keeps the registry consistent.
proof fn lemma_session_frame(
    devs: Seq<FpDevice>,
    old_ss: Seq<ScanSession>,
    new_ss: Seq<ScanSession>,
    sid: int,
)
    requires
        sessions_wf(old_ss),
        holders_ok(devs, old_ss),
        live_held(devs, old_ss),
        0 <= sid < old_ss.len(),
        new_ss == old_ss.update(sid, new_ss[sid]),
        new_ss[sid].wf(),
        new_ss[sid].same_identity(&old_ss[sid]),
        new_ss[sid].state != SessionState::Idle,
        new_ss[sid].is_live() == old_ss[sid].is_live(),
    ensures
        sessions_wf(new_ss),
        holders_ok(devs, new_ss),
        live_held(devs, new_ss),
{
    assert(sessions_wf(new_ss)) by {
        reveal(sessions_wf);
        assert forall|t: int| 0 <= t < new_ss.len() implies {
            &&& (#[trigger] new_ss[t]).wf()
            &&& new_ss[t].id == t
            &&& new_ss[t].state != SessionState::Idle
        } by {
            if t != sid {
                assert(new_ss[t] == old_ss[t]);
            }
        }
    }
    assert(holders_ok(devs, new_ss)) by {
        reveal(holders_ok);
        assert forall|k: int|
            0 <= k < devs.len() && (#[trigger] devs[k]).active is Some implies {
                let t = devs[k].active.unwrap() as int;
                &&& t < new_ss.len()
                &&& new_ss[t].device_id@ == devs[k].id@
                &&& new_ss[t].is_live()
                &&& devs[k].state == OpenState::Open
            } by {}
    }
    assert(live_held(devs, new_ss)) by {
        reveal(live_held);
        assert forall|t: int| 0 <= t < new_ss.len() && (#[trigger] new_ss[t]).is_live() implies exists|k: int|
            0 <= k < devs.len() && (#[trigger] devs[k]).id@ == new_ss[t].device_id@
                && devs[k].active == Some(t as usize) by {
            assert(old_ss[t].is_live());
        }
    }
}

/// A new live session that takes a free, open device keeps the registry
/// consistent.
proof fn lemma_acquire(
    old_devs: Seq<FpDevice>,
    new_devs: Seq<FpDevice>,
    old_ss: Seq<ScanSession>,
    new_ss: Seq<ScanSession>,
    i: int,
)
    requires
        ids_unique(old_devs),
        sessions_wf(old_ss),
        holders_ok(old_devs, old_ss),
        live_held(old_devs, old_ss),
        0 <= i < old_devs.len(),
        old_devs[i].active is None,
        old_devs[i].state == OpenState::Open,
        new_devs == with_active(old_devs, i, Some(old_ss.len() as usize)),
        new_ss.len() == old_ss.len() + 1,
        new_ss.drop_last() == old_ss,
        new_ss.last().wf(),
        new_ss.last().id == old_ss.len(),
        new_ss.last().device_id@ == old_devs[i].id@,
        new_ss.last().state == SessionState::Running,
    ensures
        ids_unique(new_devs),
        sessions_wf(new_ss),
        holders_ok(new_devs, new_ss),
        live_held(new_devs, new_ss),
{
    let n = old_ss.len() as int;
    assert forall|t: int| 0 <= t < n implies #[trigger] new_ss[t] == old_ss[t] by {
        assert(new_ss.drop_last()[t] == new_ss[t]);
    }
    assert forall|a: int, b: int|
        0 <= a < new_devs.len() && 0 <= b < new_devs.len() && a != b implies (#[trigger] new_devs[a]).id@
            != (#[trigger] new_devs[b]).id@ by {
        assert(old_devs[a].id@ != old_devs[b].id@);
    }
    assert(sessions_wf(new_ss)) by {
        reveal(sessions_wf);
        assert forall|t: int| 0 <= t < new_ss.len() implies {
            &&& (#[trigger] new_ss[t]).wf()
            &&& new_ss[t].id == t
            &&& new_ss[t].state != SessionState::Idle
        } by {
            if t < n {
                assert(new_ss[t] == old_ss[t]);
            }
        }
    }
    assert(holders_ok(new_devs, new_ss)) by {
        reveal(holders_ok);
        assert forall|k: int|
            0 <= k < new_devs.len() && (#[trigger] new_devs[k]).active is Some implies {
                let t = new_devs[k].active.unwrap() as int;
                &&& t < new_ss.len()
                &&& new_ss[t].device_id@ == new_devs[k].id@
                &&& new_ss[t].is_live()
                &&& new_devs[k].state == OpenState::Open
            } by {
            if k != i {
                assert(new_devs[k] == old_devs[k]);
                let t = old_devs[k].active.unwrap() as int;
                assert(new_ss[t] == old_ss[t]);
            }
        }
    }
    assert(live_held(new_devs, new_ss)) by {
        reveal(live_held);
        assert forall|t: int| 0 <= t < new_ss.len() && (#[trigger] new_ss[t]).is_live() implies exists|k: int|
            0 <= k < new_devs.len() && (#[trigger] new_devs[k]).id@ == new_ss[t].device_id@
                && new_devs[k].active == Some(t as usize) by {
            if t < n {
                assert(new_ss[t] == old_ss[t]);
                let k = choose|k: int|
                    0 <= k < old_devs.len() && (#[trigger] old_devs[k]).id@ == old_ss[t].device_id@
                        && old_devs[k].active == Some(t as usize);
                assert(k != i);
                assert(new_devs[k] == old_devs[k]);
            } else {
                assert(new_devs[i].id@ == new_ss[t].device_id@);
            }
        }
    }
}

/// The position of the device with the id `id` in `devs`, if there is one.
fn find_device(devs: &Vec<FpDevice>, id: &String) -> (r: Option<usize>)
    ensures
        match r {
            Some(i) => i < devs@.len() && devs@[i as int].id@ == id@,
            None => !has_id(devs@, id@),
        },
{
    let mut i: usize = 0;
    while i < devs.len()
        invariant
            i <= devs@.len(),
            forall|k: int| 0 <= k < i ==> (#[trigger] devs@[k]).id@ != id@,
        decreases devs@.len() - i,
    {
        if devs[i].id == *id {
            return Some(i);
        }
        i = i + 1;
    }
    None
}

/// The registry: the devices of the latest enumeration, keyed by their
/// stable ids, and every session started on them, numbered in order.
pub struct FpContext {
    devices: Vec<FpDevice>,
    sessions: Vec<ScanSession>,
}

impl FpContext {
    pub closed spec fn devs(&self) -> Seq<FpDevice> {
        self.devices@
    }

    pub closed spec fn sess(&self) -> Seq<ScanSession> {
        self.sessions@
    }

    pub open spec fn wf(&self) -> bool {
        &&& ids_unique(self.devs())
        &&& sessions_wf(self.sess())
        &&& holders_ok(self.devs(), self.sess())
        &&& live_held(self.devs(), self.sess())
    }

    /// An empty registry.
    pub fn new() -> (r: FpContext)
        ensures
            r.wf(),
            r.devs() == Seq::<FpDevice>::empty(),
            r.sess() == Seq::<ScanSession>::empty(),
    {
        let r = FpContext { devices: Vec::new(), sessions: Vec::new() };
        proof {
            reveal(sessions_wf);
            reveal(holders_ok);
            reveal(live_held);
        }
        r
    }

    /// The devices of the latest enumeration.
    pub fn devices(&self) -> (r: &Vec<FpDevice>)
        ensures
            r@ == self.devs(),
    {
        &self.devices
    }

    /// The device with the id `id`, if the latest enumeration found it.
    pub fn device(&self, id: &String) -> (r: Option<&FpDevice>)
        requires
            self.wf(),
        ensures
            !has_id(self.devs(), id@) ==> r is None,
            has_id(self.devs(), id@) ==> r is Some && *r.unwrap() == self.devs()[index_of(
                self.devs(),
                id@,
            )],
    {
        match find_device(&self.devices, id) {
            Some(i) => {
                proof {
                    lemma_index_of(self.devices@, id@, i as int);
                }
                Some(&self.devices[i])
            },
            None => None,
        }
    }

    /// The number of sessions started so far.
    pub fn session_count(&self) -> (r: usize)
        ensures
            r == self.sess().len(),
    {
        self.sessions.len()
    }

    /// The session numbered `sid`, if there is one.
    pub fn session(&self, sid: usize) -> (r: Option<&ScanSession>)
        ensures
            sid >= self.sess().len() ==> r is None,
            sid < self.sess().len() ==> r is Some && *r.unwrap() == self.sess()[sid as int],
    {
        if sid < self.sessions.len() {
            Some(&self.sessions[sid])
        } else {
            None
        }
    }

    /// Closed to Opening, before the hardware is asked to open the device.
    /// A device that is opening, open or closing is held by another opener.
    pub fn begin_open(&mut self, id: &String) -> (r: Result<(), FpError>)
        requires
            old(self).wf(),
        ensures
            final(self).wf(),
            final(self).sess() == old(self).sess(),
            !has_id(old(self).devs(), id@) ==> r == Err::<(), FpError>(FpError::DeviceNotFound)
                && final(self).devs() == old(self).devs(),
            has_id(old(self).devs(), id@) ==> {
                let i = index_of(old(self).devs(), id@);
                if old(self).devs()[i].state == OpenState::Closed {
                    r is Ok && final(self).devs() == with_state(
                        old(self).devs(),
                        i,
                        OpenState::Opening,
                    )
                } else {
                    r == Err::<(), FpError>(FpError::AlreadyOpen) && final(self).devs() == old(
                        self,
                    ).devs()
                }
            },
    {
        match find_device(&self.devices, id) {
            None => Err(FpError::DeviceNotFound),
            Some(i) => {
                proof {
                    lemma_index_of(self.devices@, id@, i as int);
                }
                if self.devices[i].state != OpenState::Closed {
                    return Err(FpError::AlreadyOpen);
                }
                let ghost old_devs = self.devices@;
                self.devices[i].state = OpenState::Opening;
                proof {
                    assert(self.devices@ == with_state(old_devs, i as int, OpenState::Opening));
                    assert(old_devs[i as int].active is None) by {
                        reveal(holders_ok);
                    }
                    lemma_frame_devices(old_devs, self.devices@, self.sessions@);
                }
                Ok(())
            },
        }
    }

    /// Ends an open begun with `begin_open`, with what the hardware answered:
    /// the device is Open if it opened, Closed again if it did not.
    pub fn finish_open(&mut self, id: &String, opened: bool) -> (r: Result<(), FpError>)
        requires
            old(self).wf(),
        ensures
            final(self).wf(),
            final(self).sess() == old(self).sess(),
            !has_id(old(self).devs(), id@) ==> r == Err::<(), FpError>(FpError::DeviceNotFound)
                && final(self).devs() == old(self).devs(),
            has_id(old(self).devs(), id@) ==> {
                let i = index_of(old(self).devs(), id@);
                if old(self).devs()[i].state != OpenState::Opening {
                    r == Err::<(), FpError>(FpError::NotOpen) && final(self).devs() == old(
                        self,
                    ).devs()
                } else if opened {
                    r is Ok && final(self).devs() == with_state(
                        old(self).devs(),
                        i,
                        OpenState::Open,
                    )
                } else {
                    r == Err::<(), FpError>(FpError::HardwareUnavailable) && final(self).devs()
                        == with_state(old(self).devs(), i, OpenState::Closed)
                }
            },
    {
        match find_device(&self.devices, id) {
            None => Err(FpError::DeviceNotFound),
            Some(i) => {
                proof {
                    lemma_index_of(self.devices@, id@, i as int);
                }
                if self.devices[i].state != OpenState::Opening {
                    return Err(FpError::NotOpen);
                }
                let ghost old_devs = self.devices@;
                let st = if opened {
                    OpenState::Open
                } else {
                    OpenState::Closed
                };
                self.devices[i].state = st;
                proof {
                    assert(self.devices@ == with_state(old_devs, i as int, st));
                    assert(old_devs[i as int].active is None) by {
                        reveal(holders_ok);
                    }
                    lemma_frame_devices(old_devs, self.devices@, self.sessions@);
                }
                if opened {
                    Ok(())
                } else {
                    Err(FpError::HardwareUnavailable)
                }
            },
        }
    }

    /// Takes a fresh snapshot of the bus: `found` is what the hardware
    /// enumeration reported. The table becomes one entry per id found; a
    /// device seen before keeps its open state and holder, a new one is
    /// Closed. A live session whose device is gone fails with
    /// `HardwareUnavailable`, and later calls for that id fail with
    /// `DeviceNotFound`.
    pub fn enumerate(&mut self, found: Vec<DeviceInfo>)
        requires
            old(self).wf(),
        ensures
            final(self).wf(),
            final(self).devs() == merged(old(self).devs(), found@),
            final(self).sess().len() == old(self).sess().len(),
            forall|t: int|
                0 <= t < old(self).sess().len() ==> after_rescan(
                    old(self).sess()[t],
                    #[trigger] final(self).sess()[t],
                    final(self).devs(),
                ),
    {
        let ghost old_devs = self.devices@;
        let ghost all = found@;
        let mut found = found;
        let mut devs: Vec<FpDevice> = Vec::new();
        let ghost mut n: int = 0;
        proof {
            assert(all.subrange(0, 0) =~= Seq::<DeviceInfo>::empty());
            assert(found@ =~= all.subrange(0, all.len() as int));
        }
        while found.len() > 0
            invariant
                0 <= n <= all.len(),
                found@ == all.subrange(n, all.len() as int),
                devs@ == merged(old_devs, all.subrange(0, n)),
                ids_unique(devs@),
                ids_unique(old_devs),
                old_devs == self.devices@,
                forall|k: int|
                    0 <= k < devs@.len() ==> (#[trigger] devs@[k]).state == state_for(
                        old_devs,
                        devs@[k].id@,
                    ) && devs@[k].active == active_for(old_devs, devs@[k].id@),
            decreases found@.len(),
        {
            let info = found.remove(0);
            proof {
                assert(all.subrange(0, n + 1).drop_last() =~= all.subrange(0, n));
                assert(all.subrange(0, n + 1).last() == info);
            }
            match find_device(&devs, &info.id) {
                Some(_) => {},
                None => {
                    let entry = match find_device(&self.devices, &info.id) {
                        Some(j) => {
                            proof {
                                lemma_index_of(old_devs, info.id@, j as int);
                            }
                            FpDevice {
                                id: info.id,
                                name: info.name,
                                caps: info.capabilities,
                                state: self.devices[j].state,
                                active: self.devices[j].active,
                            }
                        },
                        None => FpDevice {
                            id: info.id,
                            name: info.name,
                            caps: info.capabilities,
                            state: OpenState::Closed,
                            active: None,
                        },
                    };
                    let ghost prev = devs@;
                    devs.push(entry);
                    proof {
                        assert(entry == entry_for(old_devs, info));
                        assert forall|a: int, b: int|
                            0 <= a < devs@.len() && 0 <= b < devs@.len() && a != b implies (
                            #[trigger] devs@[a]).id@ != (#[trigger] devs@[b]).id@ by {
                            if a < prev.len() && b < prev.len() {
                                assert(prev[a].id@ != prev[b].id@);
                            } else if a < prev.len() {
                                assert(prev[a] == devs@[a]);
                            } else {
                                assert(prev[b] == devs@[b]);
                            }
                        }
                        assert forall|k: int| 0 <= k < devs@.len() implies (
                        #[trigger] devs@[k]).state == state_for(old_devs, devs@[k].id@)
                            && devs@[k].active == active_for(old_devs, devs@[k].id@) by {
                            if k < prev.len() {
                                assert(prev[k] == devs@[k]);
                            }
                        }
                    }
                },
            }
            proof {
                n = n + 1;
                assert(found@ =~= all.subrange(n, all.len() as int));
            }
        }
        proof {
            assert(all.subrange(0, n) =~= all);
        }
        let ghost old_ss = self.sessions@;
        proof {
            reveal(sessions_wf);
        }
        let mut t: usize = 0;
        while t < self.sessions.len()
            invariant
                t <= self.sessions@.len(),
                self.sessions@.len() == old_ss.len(),
                sessions_wf(old_ss),
                forall|u: int| 0 <= u < self.sessions@.len() ==> (#[trigger] self.sessions@[u]).wf(),
                forall|u: int| 0 <= u < t ==> after_rescan(old_ss[u], #[trigger] self.sessions@[u], devs@),
                forall|u: int| t <= u < self.sessions@.len() ==> #[trigger] self.sessions@[u] == old_ss[u],
            decreases self.sessions@.len() - t,
        {
            let ghost before = self.sessions@;
            let st = self.sessions[t].state;
            let live = st == SessionState::Running || st == SessionState::Cancelling;
            if live && find_device(&devs, &self.sessions[t].device_id).is_none() {
                let _ = self.sessions[t].on_hardware(HardwareEvent::Error(FpError::HardwareUnavailable));
            }
            proof {
                assert forall|u: int| 0 <= u < self.sessions@.len() && u != t implies #[trigger] self.sessions@[u] == before[u] by {}
                assert(after_rescan(old_ss[t as int], self.sessions@[t as int], devs@));
            }
            t = t + 1;
        }
        let ghost new_ss = self.sessions@;
        proof {
            assert forall|u: int| 0 <= u < old_ss.len() implies {
                &&& (#[trigger] new_ss[u]).wf()
                &&& after_rescan(old_ss[u], new_ss[u], devs@)
            } by {}
            lemma_rescan(old_devs, devs@, old_ss, new_ss);
        }
        self.devices = devs;
    }

    /// Begins closing the device `id`: an opening or open device moves to
    /// Closing, gives up its holder, and that session ends Failed with
    /// `Cancelled`. Closing a device that is closed or closing already
    /// changes nothing and succeeds.
    pub fn close(&mut self, id: &String) -> (r: Result<(), FpError>)
        requires
            old(self).wf(),
        ensures
            final(self).wf(),
            close_post(*old(self), id@, *final(self), r),
    {
        match find_device(&self.devices, id) {
            None => Err(FpError::DeviceNotFound),
            Some(i) => {
                proof {
                    lemma_index_of(self.devices@, id@, i as int);
                }
                let st = self.devices[i].state;
                if st == OpenState::Closed || st == OpenState::Closing {
                    return Ok(());
                }
                let ghost old_devs = self.devices@;
                let ghost old_ss = self.sessions@;
                let n_sessions = self.sessions.len();
                match self.devices[i].active {
                    Some(sid) => {
                        proof {
                            reveal(holders_ok);
                            reveal(sessions_wf);
                            assert(old_devs[i as int].active == Some(sid));
                            assert(old_ss[sid as int].wf());
                        }
                        let _ = self.sessions[sid].abort();
                        self.devices[i].state = OpenState::Closing;
                        self.devices[i].active = None;
                        proof {
                            assert(self.devices@ =~= old_devs.update(
                                i as int,
                                FpDevice { state: OpenState::Closing, active: None, ..old_devs[i as int] },
                            ));
                            assert(self.sessions@ == old_ss.update(sid as int, self.sessions@[sid as int]));
                            lemma_release(old_devs, self.devices@, old_ss, self.sessions@, i as int, sid as int);
                        }
                    },
                    None => {
                        self.devices[i].state = OpenState::Closing;
                        proof {
                            assert(self.devices@ =~= old_devs.update(
                                i as int,
                                FpDevice { state: OpenState::Closing, active: None, ..old_devs[i as int] },
                            ));
                            lemma_frame_devices(old_devs, self.devices@, self.sessions@);
                        }
                    },
                }
                Ok(())
            },
        }
    }

    /// Ends a close begun with `close`, once the hardware has let the device
    /// go: Closing to Closed. Returns whether the device was closing; any
    /// other device is left as it was.
    pub fn finish_close(&mut self, id: &String) -> (r: bool)
        requires
            old(self).wf(),
        ensures
            final(self).wf(),
            final(self).sess() == old(self).sess(),
            r == (has_id(old(self).devs(), id@) && old(self).devs()[index_of(
                old(self).devs(),
                id@,
            )].state == OpenState::Closing),
            r ==> final(self).devs() == with_state(
                old(self).devs(),
                index_of(old(self).devs(), id@),
                OpenState::Closed,
            ),
            !r ==> final(self).devs() == old(self).devs(),
    {
        match find_device(&self.devices, id) {
            None => false,
            Some(i) => {
                proof {
                    lemma_index_of(self.devices@, id@, i as int);
                }
                if self.devices[i].state != OpenState::Closing {
                    return false;
                }
                let ghost old_devs = self.devices@;
                self.devices[i].state = OpenState::Closed;
                proof {
                    assert(self.devices@ == with_state(old_devs, i as int, OpenState::Closed));
                    assert(old_devs[i as int].active is None) by {
                        reveal(holders_ok);
                    }
                    lemma_frame_devices(old_devs, self.devices@, self.sessions@);
                }
                true
            },
        }
    }

    /// Starts an operation of `kind` on the open device `id` and returns the
    /// new session's number. At most one session holds a device: a second
    /// start while one is live fails with `DeviceBusy`, and nothing is asked
    /// of the hardware on any failure.
    pub fn start_session(&mut self, id: &String, kind: OperationKind) -> (r: Result<usize, FpError>)
        requires
            old(self).wf(),
        ensures
            final(self).wf(),
            start_post(*old(self), id@, kind, *final(self), r),
    {
        let i = match find_device(&self.devices, id) {
            None => {
                return Err(FpError::DeviceNotFound);
            },
            Some(i) => i,
        };
        proof {
            lemma_index_of(self.devices@, id@, i as int);
        }
        if self.devices[i].state != OpenState::Open {
            return Err(FpError::NotOpen);
        }
        if !self.devices[i].caps.supports(kind) {
            return Err(FpError::UnsupportedOperation);
        }
        if self.devices[i].active.is_some() {
            return Err(FpError::DeviceBusy);
        }
        let ghost old_devs = self.devices@;
        let ghost old_ss = self.sessions@;
        let sid = self.sessions.len();
        let mut session = ScanSession::new(sid, id.clone(), kind);
        let started = session.start();
        self.sessions.push(session);
        self.devices[i].active = Some(sid);
        proof {
            assert(self.sessions@.drop_last() =~= old_ss);
            assert(self.devices@ == with_active(old_devs, i as int, Some(sid)));
            lemma_acquire(old_devs, self.devices@, old_ss, self.sessions@, i as int);
        }
        Ok(sid)
    }

    /// Asks session `sid` to stop. Returns whether the hardware should be
    /// told to abort; only a running session moves (to Cancelling), and a
    /// session that has finished keeps its state and its result.
    pub fn cancel(&mut self, sid: usize) -> (r: bool)
        requires
            old(self).wf(),
        ensures
            final(self).wf(),
            final(self).devs() == old(self).devs(),
            sid >= old(self).sess().len() ==> !r && final(self).sess() == old(self).sess(),
            sid < old(self).sess().len() ==> {
                &&& final(self).sess() == old(self).sess().update(
                    sid as int,
                    final(self).sess()[sid as int],
                )
                &&& cancel_step(old(self).sess()[sid as int], final(self).sess()[sid as int], r)
            },
    {
        if sid >= self.sessions.len() {
            return false;
        }
        let ghost old_ss = self.sessions@;
        proof {
            reveal(sessions_wf);
            assert(old_ss[sid as int].wf());
        }
        let r = self.sessions[sid].cancel();
        proof {
            assert(self.sessions@ == old_ss.update(sid as int, self.sessions@[sid as int]));
            lemma_session_frame(self.devices@, old_ss, self.sessions@, sid as int);
        }
        r
    }

    /// Gives the device of session `sid`, which has just finished, back.
    fn release(&mut self, sid: usize, Ghost(old_ss): Ghost<Seq<ScanSession>>)
        requires
            ids_unique(old(self).devs()),
            sessions_wf(old_ss),
            holders_ok(old(self).devs(), old_ss),
            live_held(old(self).devs(), old_ss),
            sid < old_ss.len() <= usize::MAX,
            old_ss[sid as int].is_live(),
            old(self).sess().len() == old_ss.len(),
            old(self).sess() == old_ss.update(sid as int, old(self).sess()[sid as int]),
            old(self).sess()[sid as int].wf(),
            old(self).sess()[sid as int].same_identity(&old_ss[sid as int]),
            old(self).sess()[sid as int].state != SessionState::Idle,
            !old(self).sess()[sid as int].is_live(),
        ensures
            final(self).wf(),
            final(self).sess() == old(self).sess(),
            final(self).devs() == with_active(
                old(self).devs(),
                index_of(old(self).devs(), old_ss[sid as int].device_id@),
                None,
            ),
    {
        let ghost old_devs = self.devices@;
        match find_device(&self.devices, &self.sessions[sid].device_id) {
            Some(i) => {
                proof {
                    lemma_index_of(old_devs, old_ss[sid as int].device_id@, i as int);
                    assert(old_ss[sid as int].id == sid) by {
                        reveal(sessions_wf);
                    }
                    reveal(live_held);
                    let k = choose|k: int|
                        0 <= k < old_devs.len() && (#[trigger] old_devs[k]).id@
                            == old_ss[sid as int].device_id@ && old_devs[k].active == Some(sid);
                    lemma_index_of(old_devs, old_ss[sid as int].device_id@, k);
                }
                self.devices[i].active = None;
                proof {
                    assert(self.devices@ == with_active(old_devs, i as int, None));
                    lemma_release(old_devs, self.devices@, old_ss, self.sessions@, i as int, sid as int);
                }
            },
            None => {
                proof {
                    reveal(live_held);
                    let k = choose|k: int|
                        0 <= k < old_devs.len() && (#[trigger] old_devs[k]).id@
                            == old_ss[sid as int].device_id@ && old_devs[k].active == Some(sid);
                    assert(false);
                }
            },
        }
    }

    /// Hands what the hardware reported to session `sid`; a session that
    /// finishes gives its device back. Returns whether the session took the
    /// report.
    pub fn deliver(&mut self, sid: usize, ev: HardwareEvent) -> (r: bool)
        requires
            old(self).wf(),
        ensures
            final(self).wf(),
            sid >= old(self).sess().len() ==> !r && final(self).sess() == old(self).sess()
                && final(self).devs() == old(self).devs(),
            sid < old(self).sess().len() ==> {
                &&& final(self).sess() == old(self).sess().update(
                    sid as int,
                    final(self).sess()[sid as int],
                )
                &&& hardware_step(old(self).sess()[sid as int], ev, final(self).sess()[sid as int], r)
                &&& released(*old(self), *final(self), old(self).sess()[sid as int], final(self).sess()[sid as int])
            },
    {
        if sid >= self.sessions.len() {
            return false;
        }
        let ghost old_ss = self.sessions@;
        proof {
            reveal(sessions_wf);
            assert(old_ss[sid as int].wf());
        }
        let st = self.sessions[sid].state;
        let was_live = st == SessionState::Running || st == SessionState::Cancelling;
        let r = self.sessions[sid].on_hardware(ev);
        let st = self.sessions[sid].state;
        let live = st == SessionState::Running || st == SessionState::Cancelling;
        proof {
            assert(self.sessions@ == old_ss.update(sid as int, self.sessions@[sid as int]));
        }
        if was_live && !live {
            self.release(sid, Ghost(old_ss));
        } else {
            proof {
                lemma_session_frame(self.devices@, old_ss, self.sessions@, sid as int);
            }
        }
        r
    }

    /// The caller's time limit for session `sid` ran out: a running session
    /// fails with `Timeout`, a cancelling one with `Cancelled`, and gives its
    /// device back. Returns whether the session changed.
    pub fn expire(&mut self, sid: usize) -> (r: bool)
        requires
            old(self).wf(),
        ensures
            final(self).wf(),
            sid >= old(self).sess().len() ==> !r && final(self).sess() == old(self).sess()
                && final(self).devs() == old(self).devs(),
            sid < old(self).sess().len() ==> {
                &&& final(self).sess() == old(self).sess().update(
                    sid as int,
                    final(self).sess()[sid as int],
                )
                &&& expire_step(old(self).sess()[sid as int], final(self).sess()[sid as int], r)
                &&& released(*old(self), *final(self), old(self).sess()[sid as int], final(self).sess()[sid as int])
            },
    {
        if sid >= self.sessions.len() {
            return false;
        }
        let ghost old_ss = self.sessions@;
        proof {
            reveal(sessions_wf);
            assert(old_ss[sid as int].wf());
        }
        let r = self.sessions[sid].expire();
        proof {
            assert(self.sessions@ == old_ss.update(sid as int, self.sessions@[sid as int]));
        }
        if r {
            self.release(sid, Ghost(old_ss));
        } else {
            proof {
                lemma_session_frame(self.devices@, old_ss, self.sessions@, sid as int);
            }
        }
        r
    }

    /// Takes the oldest progress event of session `sid` not yet received.
    pub fn recv(&mut self, sid: usize) -> (r: Option<ProgressEvent>)
        requires
            old(self).wf(),
        ensures
            final(self).wf(),
            final(self).devs() == old(self).devs(),
            sid >= old(self).sess().len() ==> r is None && final(self).sess() == old(self).sess(),
            sid < old(self).sess().len() ==> {
                let before = old(self).sess()[sid as int];
                let after = final(self).sess()[sid as int];
                &&& final(self).sess() == old(self).sess().update(sid as int, after)
                &&& after.same_identity(&before)
                &&& after.state == before.state
                &&& after.result == before.result
                &&& after.error == before.error
                &&& after.channel.history@ == before.channel.history@
                &&& before.channel.queue@.len() == 0 ==> r is None
                &&& before.channel.queue@.len() > 0 ==> r == Some(before.channel.queue@[0])
                    && after.channel.queue@ == before.channel.queue@.drop_first()
            },
    {
        if sid >= self.sessions.len() {
            return None;
        }
        let ghost old_ss = self.sessions@;
        proof {
            reveal(sessions_wf);
            assert(old_ss[sid as int].wf());
        }
        let r = self.sessions[sid].recv();
        proof {
            assert(self.sessions@ == old_ss.update(sid as int, self.sessions@[sid as int]));
            lemma_session_frame(self.devices@, old_ss, self.sessions@, sid as int);
        }
        r
    }
}

/// In a consistent registry, two live sessions on the same device are the
/// same session: a device runs at most one session at a time.
pub proof fn lemma_one_live_session_per_device(c: FpContext, s1: int, s2: int)
    requires
        c.wf(),
        0 <= s1 < c.sess().len(),
        0 <= s2 < c.sess().len(),
        c.sess()[s1].is_live(),
        c.sess()[s2].is_live(),
        c.sess()[s1].device_id@ == c.sess()[s2].device_id@,
    ensures
        s1 == s2,
{
    reveal(live_held);
    let devs = c.devs();
    let ss = c.sess();
    assert(ss[s1].is_live());
    assert(ss[s2].is_live());
    let k1 = choose|k: int|
        0 <= k < devs.len() && (#[trigger] devs[k]).id@ == ss[s1].device_id@ && devs[k].active
            == Some(s1 as usize);
    let k2 = choose|k: int|
        0 <= k < devs.len() && (#[trigger] devs[k]).id@ == ss[s2].device_id@ && devs[k].active
            == Some(s2 as usize);
    if k1 != k2 {
        assert(devs[k1].id@ != devs[k2].id@);
    }
    assert(c.sessions.len() == c.sess().len());
}

/// Of two starts in a row of the same operation on the same device, at most
/// one succeeds: once the first has, the second fails with `DeviceBusy`.
pub proof fn lemma_second_start_is_busy(
    c0: FpContext,
    c1: FpContext,
    c2: FpContext,
    id: Seq<char>,
    kind: OperationKind,
    r1: Result<usize, FpError>,
    r2: Result<usize, FpError>,
)
    requires
        c0.wf(),
        start_post(c0, id, kind, c1, r1),
        c1.wf(),
        start_post(c1, id, kind, c2, r2),
        r1 is Ok,
    ensures
        r2 == Err::<usize, FpError>(FpError::DeviceBusy),
        c2.devs() == c1.devs(),
        c2.sess() == c1.sess(),
{
    let i = index_of(c0.devs(), id);
    assert(c0.devs()[i].id@ == id);
    assert(c1.devs()[i].id@ == id);
    lemma_index_of(c1.devs(), id, i);
}

/// Closing is idempotent: once a close has succeeded, closing the same
/// device again succeeds and changes nothing.
pub proof fn lemma_close_twice(
    c0: FpContext,
    c1: FpContext,
    c2: FpContext,
    id: Seq<char>,
    r1: Result<(), FpError>,
    r2: Result<(), FpError>,
)
    requires
        c0.wf(),
        close_post(c0, id, c1, r1),
        c1.wf(),
        close_post(c1, id, c2, r2),
        r1 is Ok,
    ensures
        r2 is Ok,
        c2.devs() == c1.devs(),
        c2.sess() == c1.sess(),
{
    let i = index_of(c0.devs(), id);
    assert(c0.devs()[i].id@ == id);
    assert(c1.devs()[i].id@ == id);
    lemma_index_of(c1.devs(), id, i);
}

/// However the operations on a consistent registry were interleaved (hardware
/// reports, cancel requests, time-outs, closes, re-enumerations), the
/// progress channel of each of its sessions holds no terminal event while the
/// session is live and exactly one, the last, once it has finished.
pub proof fn lemma_sessions_terminate_once(c: FpContext, sid: int)
    requires
        c.wf(),
        0 <= sid < c.sess().len(),
    ensures
        ({
            let s = c.sess()[sid];
            let h = s.channel.history@;
            &&& terminal_count(h) == if is_terminal_state(s.state) {
                1nat
            } else {
                0nat
            }
            &&& !is_terminal_state(s.state) ==> forall|i: int|
                0 <= i < h.len() ==> !is_terminal_event(#[trigger] h[i])
            &&& is_terminal_state(s.state) ==> h.len() > 0 && is_terminal_event(h.last()) && forall|i: int|
                0 <= i < h.len() - 1 ==> !is_terminal_event(#[trigger] h[i])
        }),
{
    reveal(sessions_wf);
    assert(c.sess()[sid].wf());
    lemma_terminates_once(&c.sess()[sid]);
}

} // verus!
