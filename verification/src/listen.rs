//! Where the servers listen: the order in which ports and socket slots are tried.
use vstd::prelude::*;

use crate::text::{decimal, decimal_text};

verus! {

/// The highest number of an IPC slot.
pub const MAX_IPC_INDEX: u8 = 9;

/// Why binding to a port failed.
#[derive(Debug, Clone, Copy, PartialEq, Eq, Structural)]
pub enum BindFailure {
    /// Another program listens there.
    InUse,
    Other,
}

/// What to do next in order to listen on one of several ports.
#[derive(Debug, Clone, Copy, PartialEq, Eq, Structural)]
pub enum BindStep {
    /// Bind to this port.
    Try(u16),
    /// Give up with the failure that was met last.
    Fail,
    /// Give up, since all ports are in use.
    Exhausted,
}

/// What to do after the first `tried` of `ports`, of which the last one failed
/// with `failure`.
pub open spec fn bind_step(ports: Seq<u16>, tried: nat, failure: Option<BindFailure>) -> BindStep {
    if failure == Some(BindFailure::Other) {
        BindStep::Fail
    } else if tried < ports.len() {
        BindStep::Try(ports[tried as int])
    } else {
        BindStep::Exhausted
    }
}

/// What to do after the first `tried` of `ports`, of which the last one failed
/// with `failure`.
pub fn next_bind(ports: &Vec<u16>, tried: usize, failure: Option<BindFailure>) -> (r: BindStep)
    ensures
        r == bind_step(ports@, tried as nat, failure),
{
    match failure {
        Some(BindFailure::Other) => BindStep::Fail,
        _ => if tried < ports.len() {
            BindStep::Try(ports[tried])
        } else {
            BindStep::Exhausted
        },
    }
}

/// What was found at an IPC slot.
#[derive(Debug, Clone, Copy, PartialEq, Eq, Structural)]
pub enum SlotState {
    /// Another program listens there.
    Taken,
    /// It can be listened on.
    Free,
    /// It cannot be listened on.
    Broken,
}

/// What to do next in order to listen on one of the IPC slots.
#[derive(Debug, Clone, Copy, PartialEq, Eq, Structural)]
pub enum SlotStep {
    /// Listen on this slot.
    Use(u8),
    /// Look at this slot.
    Try(u8),
    /// Give up with the failure that was met.
    Fail,
    /// Give up, since all slots are taken.
    Exhausted,
}

/// What to do after `state` was found at the slot `index`.
pub open spec fn slot_step(index: u8, state: SlotState) -> SlotStep {
    match state {
        SlotState::Free => SlotStep::Use(index),
        SlotState::Broken => SlotStep::Fail,
        SlotState::Taken => if index < MAX_IPC_INDEX {
            SlotStep::Try((index + 1) as u8)
        } else {
            SlotStep::Exhausted
        },
    }
}

/// What to do after `state` was found at the slot `index`.
pub fn next_slot(index: u8, state: SlotState) -> (r: SlotStep)
    ensures
        r == slot_step(index, state),
{
    match state {
        SlotState::Free => SlotStep::Use(index),
        SlotState::Broken => SlotStep::Fail,
        SlotState::Taken => if index < MAX_IPC_INDEX {
            SlotStep::Try(index + 1)
        } else {
            SlotStep::Exhausted
        },
    }
}

/// The name of the IPC slot `index`.
pub open spec fn slot_name(index: u8) -> Seq<char> {
    "discord-ipc-"@ + decimal(index as nat)
}

/// The name of the socket file of the IPC slot `index`.
pub fn ipc_socket_name(index: u8) -> (r: String)
    ensures
        r@ == slot_name(index),
{
    let mut name = "discord-ipc-".to_string();
    name.append(decimal_text(index as u64).as_str());
    name
}

/// The path of the named pipe of the IPC slot `index`.
pub fn ipc_pipe_path(index: u8) -> (r: String)
    ensures
        r@ == "\\\\.\\pipe\\"@ + slot_name(index),
{
    let mut path = "\\\\.\\pipe\\".to_string();
    path.append(ipc_socket_name(index).as_str());
    path
}

/// The first of the four that is set, or else `fallback`.
pub open spec fn first_set<T>(
    runtime_dir: Option<T>,
    tmpdir: Option<T>,
    tmp: Option<T>,
    temp: Option<T>,
    fallback: T,
) -> T {
    match (runtime_dir, tmpdir, tmp, temp) {
        (Some(dir), _, _, _) => dir,
        (None, Some(dir), _, _) => dir,
        (None, None, Some(dir), _) => dir,
        (None, None, None, Some(dir)) => dir,
        (None, None, None, None) => fallback,
    }
}

/// The directory for the socket files: the first of the four that is set.
pub fn ipc_base_dir<T>(
    runtime_dir: Option<T>,
    tmpdir: Option<T>,
    tmp: Option<T>,
    temp: Option<T>,
    fallback: T,
) -> (r: T)
    ensures
        r == first_set(runtime_dir, tmpdir, tmp, temp, fallback),
{
    if let Some(dir) = runtime_dir {
        dir
    } else if let Some(dir) = tmpdir {
        dir
    } else if let Some(dir) = tmp {
        dir
    } else if let Some(dir) = temp {
        dir
    } else {
        fallback
    }
}

/// The step after a search that met only ports in use is the next port, so the
/// ports are tried in their order, each once, and then the search ends.
pub proof fn ports_are_tried_in_order(ports: Seq<u16>, tried: nat)
    ensures
        bind_step(ports, 0, None) == (if ports.len() > 0 {
            BindStep::Try(ports[0])
        } else {
            BindStep::Exhausted
        }),
        tried < ports.len() ==> bind_step(ports, tried, Some(BindFailure::InUse)) == BindStep::Try(
            ports[tried as int],
        ),
        tried >= ports.len() ==> bind_step(ports, tried, Some(BindFailure::InUse))
            == BindStep::Exhausted,
{
}

/// The directory of the run comes before the three for temporary files, these in
/// their order, and the one that is always there comes last.
pub proof fn directories_come_in_their_order<T>(
    runtime_dir: Option<T>,
    tmpdir: Option<T>,
    tmp: Option<T>,
    temp: Option<T>,
    fallback: T,
)
    ensures
        ({
            let dir = first_set(runtime_dir, tmpdir, tmp, temp, fallback);
            &&& runtime_dir is Some ==> dir == runtime_dir->0
            &&& runtime_dir is None && tmpdir is Some ==> dir == tmpdir->0
            &&& runtime_dir is None && tmpdir is None && tmp is Some ==> dir == tmp->0
            &&& runtime_dir is None && tmpdir is None && tmp is None && temp is Some ==> dir
                == temp->0
            &&& runtime_dir is None && tmpdir is None && tmp is None && temp is None ==> dir
                == fallback
        }),
{
}

/// A port that fails for another reason than being in use ends the search, and a
/// slot is used where it is free, ends the search where it is broken, and is passed
/// over where it is taken.
pub proof fn searches_end_where_they_must(ports: Seq<u16>, tried: nat, index: u8)
    requires
        index <= 9,
    ensures
        bind_step(ports, tried, Some(BindFailure::Other)) == BindStep::Fail,
        slot_step(index, SlotState::Free) == SlotStep::Use(index),
        slot_step(index, SlotState::Broken) == SlotStep::Fail,
        index < 9 ==> slot_step(index, SlotState::Taken) == SlotStep::Try((index + 1) as u8),
        index == 9 ==> slot_step(index, SlotState::Taken) == SlotStep::Exhausted,
        slot_name(index) == "discord-ipc-"@ + decimal(index as nat),
{
}

/// A search over the IPC slots goes upwards and never leaves them.
pub proof fn slots_are_tried_upwards(index: u8, state: SlotState)
    requires
        index <= MAX_IPC_INDEX,
    ensures
        slot_step(index, state) matches SlotStep::Try(next) ==> next == index + 1 && next
            <= MAX_IPC_INDEX,
        slot_step(index, state) matches SlotStep::Use(used) ==> used == index,
        slot_step(index, state) == SlotStep::Exhausted <==> state == SlotState::Taken && index
            == MAX_IPC_INDEX,
{
}

} // verus!
