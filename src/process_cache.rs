//! What is known of each traced thread: its command line, its name and its
//! binder descriptors, cached until the thread dies or is renamed.
use vstd::prelude::*;

use crate::binder::{interface_of_path, BinderInterface};
use std::collections::HashMap;

verus! {

broadcast use vstd::std_specs::hash::group_hash_axioms;

/// One thread's process information.
#[derive(Debug, Clone)]
pub struct ProcessInfo {
    pub cmdline: String,
    pub comm: String,
    pub binder_fd: Option<i32>,
    pub hwbinder_fd: Option<i32>,
    pub vndbinder_fd: Option<i32>,
}

impl ProcessInfo {
    /// The binder device that `fd` is open on in this thread, if any.
    pub fn get_binder_name(&self, fd: i32) -> (r: Option<&'static str>)
        ensures
            self.binder_fd == Some(fd) ==> (r matches Some(s) && s@ == "/dev/binder"@),
            self.binder_fd != Some(fd) && self.hwbinder_fd == Some(fd) ==> (r matches Some(s) && s@
                == "/dev/hwbinder"@),
            self.binder_fd != Some(fd) && self.hwbinder_fd != Some(fd) && self.vndbinder_fd == Some(
                fd,
            ) ==> (r matches Some(s) && s@ == "/dev/vndbinder"@),
            self.binder_fd != Some(fd) && self.hwbinder_fd != Some(fd) && self.vndbinder_fd != Some(
                fd,
            ) ==> r is None,
    {
        if matches_fd(self.binder_fd, fd) {
            return Some("/dev/binder");
        }
        if matches_fd(self.hwbinder_fd, fd) {
            return Some("/dev/hwbinder");
        }
        if matches_fd(self.vndbinder_fd, fd) {
            return Some("/dev/vndbinder");
        }
        None
    }

    pub fn get_cmdline(&self) -> (r: &str)
        ensures
            r@ == self.cmdline@,
    {
        self.cmdline.as_str()
    }

    pub fn get_comm(&self) -> (r: &str)
        ensures
            r@ == self.comm@,
    {
        self.comm.as_str()
    }
}

/// The descriptors of the three binder devices, in the order binder, hwbinder,
/// vndbinder.
pub type BinderFds = (Option<i32>, Option<i32>, Option<i32>);

pub open spec fn all_found(s: BinderFds) -> bool {
    s.0 is Some && s.1 is Some && s.2 is Some
}

/// The descriptors after seeing `fd` open on `path`.
pub open spec fn with_fd(s: BinderFds, fd: i32, path: Seq<char>) -> BinderFds {
    match interface_of_path(path) {
        Some(BinderInterface::BINDER) => (Some(fd), s.1, s.2),
        Some(BinderInterface::HWBINDER) => (s.0, Some(fd), s.2),
        Some(BinderInterface::VNDBINDER) => (s.0, s.1, Some(fd)),
        None => s,
    }
}

/// The binder descriptors found among the first `n` open descriptors (each with
/// the path it is open on); the scan stops once all three are found.
pub open spec fn binder_fds(fds: Seq<(i32, String)>, n: int) -> BinderFds
    decreases n,
{
    if n <= 0 {
        (None, None, None)
    } else {
        let s = binder_fds(fds, n - 1);
        if all_found(s) {
            s
        } else {
            with_fd(s, fds[n - 1].0, fds[n - 1].1@)
        }
    }
}

/// The process information of a thread from its command line, its name and its
/// open descriptors; `None` when none of them is a binder device.
pub fn process_info_from_fds(cmdline: String, comm: String, fds: &Vec<(i32, String)>) -> (r: Option<
    ProcessInfo,
>)
    ensures
        ({
            let s = binder_fds(fds@, fds@.len() as int);
            &&& s.0 is None && s.1 is None && s.2 is None ==> r is None
            &&& !(s.0 is None && s.1 is None && s.2 is None) ==> (r matches Some(p) && p.cmdline
                == cmdline && p.comm == comm && p.binder_fd == s.0 && p.hwbinder_fd == s.1
                && p.vndbinder_fd == s.2)
        }),
{
    let mut found: BinderFds = (None, None, None);
    let mut i: usize = 0;
    while i < fds.len()
        invariant
            i <= fds@.len(),
            found == binder_fds(fds@, i as int),
        decreases fds@.len() - i,
    {
        if !(found.0.is_some() && found.1.is_some() && found.2.is_some()) {
            let fd = fds[i].0;
            found = match BinderInterface::from_path(fds[i].1.as_str()) {
                Some(BinderInterface::BINDER) => (Some(fd), found.1, found.2),
                Some(BinderInterface::HWBINDER) => (found.0, Some(fd), found.2),
                Some(BinderInterface::VNDBINDER) => (found.0, found.1, Some(fd)),
                None => found,
            };
        }
        i = i + 1;
    }
    if found.0.is_none() && found.1.is_none() && found.2.is_none() {
        return None;
    }
    Some(
        ProcessInfo {
            cmdline,
            comm,
            binder_fd: found.0,
            hwbinder_fd: found.1,
            vndbinder_fd: found.2,
        },
    )
}

fn matches_fd(slot: Option<i32>, fd: i32) -> (r: bool)
    ensures
        r == (slot == Some(fd)),
{
    match slot {
        Some(x) => x == fd,
        None => false,
    }
}

/// The cache key of a thread: its pid in the high half, its tid in the low half.
pub open spec fn process_key(pid: i32, tid: i32) -> u64 {
    (((pid as u32) as u64) * 0x1_0000_0000 + (tid as u32) as u64) as u64
}

fn key_of(pid: i32, tid: i32) -> (r: u64)
    ensures
        r == process_key(pid, tid),
{
    let hi = (pid as u32) as u64;
    let lo = (tid as u32) as u64;
    assert(hi * 0x1_0000_0000 + lo <= u64::MAX) by (nonlinear_arith)
        requires
            hi <= 0xffff_ffff,
            lo <= 0xffff_ffff,
    ;
    hi * 0x1_0000_0000 + lo
}

/// Process information by thread.
pub struct ProcessCache {
    map: HashMap<u64, ProcessInfo>,
}

impl ProcessCache {
    pub closed spec fn view(&self) -> Map<u64, ProcessInfo> {
        self.map@
    }

    pub fn new() -> (r: Self)
        ensures
            r.view() == Map::<u64, ProcessInfo>::empty(),
    {
        ProcessCache { map: HashMap::new() }
    }

    /// The cached information of a thread, unless it is missing or was cached under
    /// another name than `comm` (the thread was renamed): then it has to be read
    /// afresh and handed to `insert_proc`.
    pub fn get_proc(&self, pid: i32, tid: i32, comm: Option<&str>) -> (r: Option<&ProcessInfo>)
        ensures
            match r {
                Some(p) => self.view().contains_key(process_key(pid, tid)) && *p == self.view()[process_key(pid, tid)]
                    && (comm matches Some(c) ==> c@ == p.comm@),
                None => !self.view().contains_key(process_key(pid, tid)) || (comm matches Some(c)
                    && c@ != self.view()[process_key(pid, tid)].comm@),
            },
    {
        let key = key_of(pid, tid);
        match self.map.get(&key) {
            Some(info) => match comm {
                Some(c) => {
                    let name = c.to_owned();
                    if name == info.comm {
                        Some(info)
                    } else {
                        None
                    }
                },
                None => Some(info),
            },
            None => None,
        }
    }

    /// Caches the information of a thread, replacing what was there.
    pub fn insert_proc(&mut self, pid: i32, tid: i32, info: ProcessInfo)
        ensures
            final(self).view() == old(self).view().insert(process_key(pid, tid), info),
    {
        let key = key_of(pid, tid);
        self.map.insert(key, info);
    }

    /// Forgets a thread, returning what was cached of it.
    pub fn invalidate_proc(&mut self, pid: i32, tid: i32) -> (r: Option<ProcessInfo>)
        ensures
            final(self).view() == old(self).view().remove(process_key(pid, tid)),
            r == (if old(self).view().contains_key(process_key(pid, tid)) {
                Some(old(self).view()[process_key(pid, tid)])
            } else {
                None
            }),
    {
        let key = key_of(pid, tid);
        self.map.remove(&key)
    }
}

} // verus!
