//! The event layer of a capture: who made an ioctl and what became of it.
use vstd::prelude::*;

use crate::binder::BinderInterface;
use crate::bwr_layer::BinderWriteReadProtocol;

verus! {

/// What a captured event records.
#[derive(Debug, Clone, Copy, PartialEq, Eq, Structural, Default)]
pub enum EventType {
    FinishedIoctl,
    SplitIoctl,
    DeadProcess,
    DeadThread,
    #[default]
    Invalid,
}

/// The one-byte code of an event type on the wire.
pub open spec fn event_code(e: EventType) -> u8 {
    match e {
        EventType::FinishedIoctl => 0u8,
        EventType::SplitIoctl => 1u8,
        EventType::DeadProcess => 2u8,
        EventType::DeadThread => 3u8,
        EventType::Invalid => 4u8,
    }
}

impl EventType {
    /// The one-byte code of the event type on the wire.
    pub fn code(&self) -> (r: u8)
        ensures
            r == event_code(*self),
    {
        match self {
            EventType::FinishedIoctl => 0,
            EventType::SplitIoctl => 1,
            EventType::DeadProcess => 2,
            EventType::DeadThread => 3,
            EventType::Invalid => 4,
        }
    }

    /// The event type of a one-byte code, if it names one.
    pub fn from_code(c: u8) -> (r: Option<EventType>)
        ensures
            c <= 4 ==> r is Some && event_code(r->Some_0) == c,
            c > 4 ==> r is None,
    {
        match c {
            0 => Some(EventType::FinishedIoctl),
            1 => Some(EventType::SplitIoctl),
            2 => Some(EventType::DeadProcess),
            3 => Some(EventType::DeadThread),
            4 => Some(EventType::Invalid),
            _ => None,
        }
    }
}

/// One ioctl on a binder device.
#[derive(Debug, Default)]
pub struct IoctlProtocol {
    pub fd: i32,
    pub cmd: i32,
    pub arg: u64,
    pub result: i32,
    pub uid: u32,
    pub gid: u32,
    pub ioctl_id: u64,
    pub bwr: Option<BinderWriteReadProtocol>,
}

impl IoctlProtocol {
    pub fn new(
        fd: i32,
        cmd: i32,
        arg: u64,
        result: i32,
        uid: u32,
        gid: u32,
        ioctl_id: u64,
        bwr: Option<BinderWriteReadProtocol>,
    ) -> (r: Self)
        ensures
            r.fd == fd && r.cmd == cmd && r.arg == arg && r.result == result && r.uid == uid
                && r.gid == gid && r.ioctl_id == ioctl_id && r.bwr == bwr,
    {
        IoctlProtocol { fd, cmd, arg, result, uid, gid, ioctl_id, bwr }
    }

    pub fn fd(&self) -> (r: i32)
        ensures
            r == self.fd,
    {
        self.fd
    }
}

/// One captured event: the process and thread, and the ioctl if there was one.
#[derive(Debug, Default)]
pub struct EventProtocol {
    pub timestamp: u64,
    pub pid: i32,
    pub tid: i32,
    pub comm: [u8; 16],
    pub event_type: EventType,
    pub binder_interface: BinderInterface,
    pub cmdline: Vec<u8>,
    pub ioctl_data: Option<IoctlProtocol>,
}

impl EventProtocol {
    pub fn new(
        timestamp: u64,
        pid: i32,
        tid: i32,
        comm: [u8; 16],
        event_type: EventType,
        binder_interface: BinderInterface,
        cmdline: Vec<u8>,
        ioctl_data: Option<IoctlProtocol>,
    ) -> (r: Self)
        ensures
            r.timestamp == timestamp && r.pid == pid && r.tid == tid && r.comm == comm
                && r.event_type == event_type && r.binder_interface == binder_interface
                && r.cmdline == cmdline && r.ioctl_data == ioctl_data,
    {
        EventProtocol { timestamp, pid, tid, comm, event_type, binder_interface, cmdline, ioctl_data }
    }

    pub fn binder_interface(&self) -> (r: BinderInterface)
        ensures
            r == self.binder_interface,
    {
        self.binder_interface
    }

    pub fn timestamp(&self) -> (r: u64)
        ensures
            r == self.timestamp,
    {
        self.timestamp
    }
}

} // verus!
