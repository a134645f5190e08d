//! The binder driver's commands (written by a process) and returns (read back by
//! it), parsed from the little-endian payload that follows their 32-bit header.
use vstd::prelude::*;

use crate::offsets::{FieldOffset, StructOffset};
use crate::shape::{int_of, lemma_pow256_width, ScalarKind};
use crate::wire::{le_nat, lemma_le_nat_bound, read_le};
use vstd::slice::slice_subrange;
use vstd::string::StringExecFns;

verus! {

/// The binder device a process talks through.
#[derive(Debug, Clone, Copy, PartialEq, Eq, Structural, Default)]
#[allow(non_camel_case_types)]
pub enum BinderInterface {
    #[default]
    BINDER,
    HWBINDER,
    VNDBINDER,
}

/// Whether `v` holds exactly `lit`.
pub(crate) fn is(v: &String, lit: &str) -> (r: bool)
    ensures
        r == (v@ == lit@),
{
    *v == String::from_str(lit)
}

/// The binder device a path names, if any.
pub open spec fn interface_of_path(path: Seq<char>) -> Option<BinderInterface> {
    if path == "/dev/binder"@ || path == "/dev/binderfs/binder"@ {
        Some(BinderInterface::BINDER)
    } else if path == "/dev/hwbinder"@ || path == "/dev/binderfs/hwbinder"@ {
        Some(BinderInterface::HWBINDER)
    } else if path == "/dev/vndbinder"@ || path == "/dev/binderfs/vndbinder"@ {
        Some(BinderInterface::VNDBINDER)
    } else {
        None
    }
}

impl BinderInterface {
    /// The interface of a binder device node, by its path.
    pub fn from_path(path: &str) -> (r: Option<BinderInterface>)
        ensures
            r == interface_of_path(path@),
    {
        let p = path.to_owned();
        if is(&p, "/dev/binder") || is(&p, "/dev/binderfs/binder") {
            Some(BinderInterface::BINDER)
        } else if is(&p, "/dev/hwbinder") || is(&p, "/dev/binderfs/hwbinder") {
            Some(BinderInterface::HWBINDER)
        } else if is(&p, "/dev/vndbinder") || is(&p, "/dev/binderfs/vndbinder") {
            Some(BinderInterface::VNDBINDER)
        } else {
            None
        }
    }
}

/// Kinds of flat binder objects.
#[derive(Debug, Clone, Copy, PartialEq, Eq, Structural)]
#[allow(non_camel_case_types)]
pub enum binder_type {
    BINDER,
    WEAK_BINDER,
    HANDLE,
    WEAK_HANDLE,
    FD,
    FDA,
    PTR,
}

/// Flags of a flat binder object.
#[derive(Debug, Clone, Copy, PartialEq, Eq, Structural)]
#[allow(non_camel_case_types)]
pub enum flat_binder_flag {
    PRIORITY_MASK,
    ACCEPT_FDS,
    TXN_SECURITY_CTX,
}

/// Flags of a binder buffer object.
#[derive(Debug, Clone, Copy, PartialEq, Eq, Structural)]
#[allow(non_camel_case_types)]
pub enum binder_buffer_flag {
    HAS_PARENT,
}

/// The header of a command written to the driver.
#[derive(Debug, Clone, Copy, PartialEq, Eq, Structural)]
#[allow(non_camel_case_types)]
pub enum binder_command {
    BC_TRANSACTION,
    BC_REPLY,
    BC_ACQUIRE_RESULT,
    BC_FREE_BUFFER,
    BC_INCREFS,
    BC_ACQUIRE,
    BC_RELEASE,
    BC_DECREFS,
    BC_INCREFS_DONE,
    BC_ACQUIRE_DONE,
    BC_ATTEMPT_ACQUIRE,
    BC_REGISTER_LOOPER,
    BC_ENTER_LOOPER,
    BC_EXIT_LOOPER,
    BC_REQUEST_DEATH_NOTIFICATION,
    BC_CLEAR_DEATH_NOTIFICATION,
    BC_DEAD_BINDER_DONE,
    BC_TRANSACTION_SG,
    BC_REPLY_SG,
}

/// The header of a return read back from the driver.
#[derive(Debug, Clone, Copy, PartialEq, Eq, Structural)]
#[allow(non_camel_case_types)]
pub enum binder_return {
    BR_ERROR,
    BR_OK,
    BR_TRANSACTION_SEC_CTX,
    BR_TRANSACTION,
    BR_REPLY,
    BR_ACQUIRE_RESULT,
    BR_DEAD_REPLY,
    BR_TRANSACTION_COMPLETE,
    BR_INCREFS,
    BR_ACQUIRE,
    BR_RELEASE,
    BR_DECREFS,
    BR_ATTEMPT_ACQUIRE,
    BR_NOOP,
    BR_SPAWN_LOOPER,
    BR_FINISHED,
    BR_DEAD_BINDER,
    BR_CLEAR_DEATH_NOTIFICATION_DONE,
    BR_FAILED_REPLY,
    BR_FROZEN_REPLY,
    BR_ONEWAY_SPAM_SUSPECT,
}

/// The ioctl-style number of a command header (direction, payload size, type letter, ordinal).
pub open spec fn command_code(h: binder_command) -> u32 {
    match h {
        binder_command::BC_TRANSACTION => 0x4040_6300,
        binder_command::BC_REPLY => 0x4040_6301,
        binder_command::BC_ACQUIRE_RESULT => 0x4004_6302,
        binder_command::BC_FREE_BUFFER => 0x4008_6303,
        binder_command::BC_INCREFS => 0x4004_6304,
        binder_command::BC_ACQUIRE => 0x4004_6305,
        binder_command::BC_RELEASE => 0x4004_6306,
        binder_command::BC_DECREFS => 0x4004_6307,
        binder_command::BC_INCREFS_DONE => 0x4010_6308,
        binder_command::BC_ACQUIRE_DONE => 0x4010_6309,
        binder_command::BC_ATTEMPT_ACQUIRE => 0x4008_630a,
        binder_command::BC_REGISTER_LOOPER => 0x0000_630b,
        binder_command::BC_ENTER_LOOPER => 0x0000_630c,
        binder_command::BC_EXIT_LOOPER => 0x0000_630d,
        binder_command::BC_REQUEST_DEATH_NOTIFICATION => 0x400c_630e,
        binder_command::BC_CLEAR_DEATH_NOTIFICATION => 0x400c_630f,
        binder_command::BC_DEAD_BINDER_DONE => 0x4008_6310,
        binder_command::BC_TRANSACTION_SG => 0x4048_6311,
        binder_command::BC_REPLY_SG => 0x4048_6312,
    }
}

/// The a command header whose number is `c`.
pub open spec fn command_of_code(c: u32) -> Option<binder_command> {
    if c == 0x4040_6300 {
        Some(binder_command::BC_TRANSACTION)
    } else if c == 0x4040_6301 {
        Some(binder_command::BC_REPLY)
    } else if c == 0x4004_6302 {
        Some(binder_command::BC_ACQUIRE_RESULT)
    } else if c == 0x4008_6303 {
        Some(binder_command::BC_FREE_BUFFER)
    } else if c == 0x4004_6304 {
        Some(binder_command::BC_INCREFS)
    } else if c == 0x4004_6305 {
        Some(binder_command::BC_ACQUIRE)
    } else if c == 0x4004_6306 {
        Some(binder_command::BC_RELEASE)
    } else if c == 0x4004_6307 {
        Some(binder_command::BC_DECREFS)
    } else if c == 0x4010_6308 {
        Some(binder_command::BC_INCREFS_DONE)
    } else if c == 0x4010_6309 {
        Some(binder_command::BC_ACQUIRE_DONE)
    } else if c == 0x4008_630a {
        Some(binder_command::BC_ATTEMPT_ACQUIRE)
    } else if c == 0x0000_630b {
        Some(binder_command::BC_REGISTER_LOOPER)
    } else if c == 0x0000_630c {
        Some(binder_command::BC_ENTER_LOOPER)
    } else if c == 0x0000_630d {
        Some(binder_command::BC_EXIT_LOOPER)
    } else if c == 0x400c_630e {
        Some(binder_command::BC_REQUEST_DEATH_NOTIFICATION)
    } else if c == 0x400c_630f {
        Some(binder_command::BC_CLEAR_DEATH_NOTIFICATION)
    } else if c == 0x4008_6310 {
        Some(binder_command::BC_DEAD_BINDER_DONE)
    } else if c == 0x4048_6311 {
        Some(binder_command::BC_TRANSACTION_SG)
    } else if c == 0x4048_6312 {
        Some(binder_command::BC_REPLY_SG)
    } else {
        None
    }
}

impl binder_command {
    pub fn code(&self) -> (r: u32)
        ensures
            r == command_code(*self),
    {
        match self {
            binder_command::BC_TRANSACTION => 0x4040_6300,
            binder_command::BC_REPLY => 0x4040_6301,
            binder_command::BC_ACQUIRE_RESULT => 0x4004_6302,
            binder_command::BC_FREE_BUFFER => 0x4008_6303,
            binder_command::BC_INCREFS => 0x4004_6304,
            binder_command::BC_ACQUIRE => 0x4004_6305,
            binder_command::BC_RELEASE => 0x4004_6306,
            binder_command::BC_DECREFS => 0x4004_6307,
            binder_command::BC_INCREFS_DONE => 0x4010_6308,
            binder_command::BC_ACQUIRE_DONE => 0x4010_6309,
            binder_command::BC_ATTEMPT_ACQUIRE => 0x4008_630a,
            binder_command::BC_REGISTER_LOOPER => 0x0000_630b,
            binder_command::BC_ENTER_LOOPER => 0x0000_630c,
            binder_command::BC_EXIT_LOOPER => 0x0000_630d,
            binder_command::BC_REQUEST_DEATH_NOTIFICATION => 0x400c_630e,
            binder_command::BC_CLEAR_DEATH_NOTIFICATION => 0x400c_630f,
            binder_command::BC_DEAD_BINDER_DONE => 0x4008_6310,
            binder_command::BC_TRANSACTION_SG => 0x4048_6311,
            binder_command::BC_REPLY_SG => 0x4048_6312,
        }
    }

    pub fn from_code(c: u32) -> (r: Option<binder_command>)
        ensures
            r == command_of_code(c),
    {
        if c == 0x4040_6300 {
            Some(binder_command::BC_TRANSACTION)
        } else if c == 0x4040_6301 {
            Some(binder_command::BC_REPLY)
        } else if c == 0x4004_6302 {
            Some(binder_command::BC_ACQUIRE_RESULT)
        } else if c == 0x4008_6303 {
            Some(binder_command::BC_FREE_BUFFER)
        } else if c == 0x4004_6304 {
            Some(binder_command::BC_INCREFS)
        } else if c == 0x4004_6305 {
            Some(binder_command::BC_ACQUIRE)
        } else if c == 0x4004_6306 {
            Some(binder_command::BC_RELEASE)
        } else if c == 0x4004_6307 {
            Some(binder_command::BC_DECREFS)
        } else if c == 0x4010_6308 {
            Some(binder_command::BC_INCREFS_DONE)
        } else if c == 0x4010_6309 {
            Some(binder_command::BC_ACQUIRE_DONE)
        } else if c == 0x4008_630a {
            Some(binder_command::BC_ATTEMPT_ACQUIRE)
        } else if c == 0x0000_630b {
            Some(binder_command::BC_REGISTER_LOOPER)
        } else if c == 0x0000_630c {
            Some(binder_command::BC_ENTER_LOOPER)
        } else if c == 0x0000_630d {
            Some(binder_command::BC_EXIT_LOOPER)
        } else if c == 0x400c_630e {
            Some(binder_command::BC_REQUEST_DEATH_NOTIFICATION)
        } else if c == 0x400c_630f {
            Some(binder_command::BC_CLEAR_DEATH_NOTIFICATION)
        } else if c == 0x4008_6310 {
            Some(binder_command::BC_DEAD_BINDER_DONE)
        } else if c == 0x4048_6311 {
            Some(binder_command::BC_TRANSACTION_SG)
        } else if c == 0x4048_6312 {
            Some(binder_command::BC_REPLY_SG)
        } else {
            None
        }
    }
}

/// Distinct headers have distinct numbers: a number names back its header.
pub proof fn lemma_command_code_inverse(h: binder_command)
    ensures
        command_of_code(command_code(h)) == Some(h),
{
}

/// The ioctl-style number of a return header (direction, payload size, type letter, ordinal).
pub open spec fn return_code(h: binder_return) -> u32 {
    match h {
        binder_return::BR_ERROR => 0x8004_7200,
        binder_return::BR_OK => 0x0000_7201,
        binder_return::BR_TRANSACTION_SEC_CTX => 0x8048_7202,
        binder_return::BR_TRANSACTION => 0x8040_7202,
        binder_return::BR_REPLY => 0x8040_7203,
        binder_return::BR_ACQUIRE_RESULT => 0x8004_7204,
        binder_return::BR_DEAD_REPLY => 0x0000_7205,
        binder_return::BR_TRANSACTION_COMPLETE => 0x0000_7206,
        binder_return::BR_INCREFS => 0x8010_7207,
        binder_return::BR_ACQUIRE => 0x8010_7208,
        binder_return::BR_RELEASE => 0x8010_7209,
        binder_return::BR_DECREFS => 0x8010_720a,
        binder_return::BR_ATTEMPT_ACQUIRE => 0x8018_720b,
        binder_return::BR_NOOP => 0x0000_720c,
        binder_return::BR_SPAWN_LOOPER => 0x0000_720d,
        binder_return::BR_FINISHED => 0x0000_720e,
        binder_return::BR_DEAD_BINDER => 0x8008_720f,
        binder_return::BR_CLEAR_DEATH_NOTIFICATION_DONE => 0x8008_7210,
        binder_return::BR_FAILED_REPLY => 0x0000_7211,
        binder_return::BR_FROZEN_REPLY => 0x0000_7212,
        binder_return::BR_ONEWAY_SPAM_SUSPECT => 0x0000_7213,
    }
}

/// The a return header whose number is `c`.
pub open spec fn return_of_code(c: u32) -> Option<binder_return> {
    if c == 0x8004_7200 {
        Some(binder_return::BR_ERROR)
    } else if c == 0x0000_7201 {
        Some(binder_return::BR_OK)
    } else if c == 0x8048_7202 {
        Some(binder_return::BR_TRANSACTION_SEC_CTX)
    } else if c == 0x8040_7202 {
        Some(binder_return::BR_TRANSACTION)
    } else if c == 0x8040_7203 {
        Some(binder_return::BR_REPLY)
    } else if c == 0x8004_7204 {
        Some(binder_return::BR_ACQUIRE_RESULT)
    } else if c == 0x0000_7205 {
        Some(binder_return::BR_DEAD_REPLY)
    } else if c == 0x0000_7206 {
        Some(binder_return::BR_TRANSACTION_COMPLETE)
    } else if c == 0x8010_7207 {
        Some(binder_return::BR_INCREFS)
    } else if c == 0x8010_7208 {
        Some(binder_return::BR_ACQUIRE)
    } else if c == 0x8010_7209 {
        Some(binder_return::BR_RELEASE)
    } else if c == 0x8010_720a {
        Some(binder_return::BR_DECREFS)
    } else if c == 0x8018_720b {
        Some(binder_return::BR_ATTEMPT_ACQUIRE)
    } else if c == 0x0000_720c {
        Some(binder_return::BR_NOOP)
    } else if c == 0x0000_720d {
        Some(binder_return::BR_SPAWN_LOOPER)
    } else if c == 0x0000_720e {
        Some(binder_return::BR_FINISHED)
    } else if c == 0x8008_720f {
        Some(binder_return::BR_DEAD_BINDER)
    } else if c == 0x8008_7210 {
        Some(binder_return::BR_CLEAR_DEATH_NOTIFICATION_DONE)
    } else if c == 0x0000_7211 {
        Some(binder_return::BR_FAILED_REPLY)
    } else if c == 0x0000_7212 {
        Some(binder_return::BR_FROZEN_REPLY)
    } else if c == 0x0000_7213 {
        Some(binder_return::BR_ONEWAY_SPAM_SUSPECT)
    } else {
        None
    }
}

impl binder_return {
    pub fn code(&self) -> (r: u32)
        ensures
            r == return_code(*self),
    {
        match self {
            binder_return::BR_ERROR => 0x8004_7200,
            binder_return::BR_OK => 0x0000_7201,
            binder_return::BR_TRANSACTION_SEC_CTX => 0x8048_7202,
            binder_return::BR_TRANSACTION => 0x8040_7202,
            binder_return::BR_REPLY => 0x8040_7203,
            binder_return::BR_ACQUIRE_RESULT => 0x8004_7204,
            binder_return::BR_DEAD_REPLY => 0x0000_7205,
            binder_return::BR_TRANSACTION_COMPLETE => 0x0000_7206,
            binder_return::BR_INCREFS => 0x8010_7207,
            binder_return::BR_ACQUIRE => 0x8010_7208,
            binder_return::BR_RELEASE => 0x8010_7209,
            binder_return::BR_DECREFS => 0x8010_720a,
            binder_return::BR_ATTEMPT_ACQUIRE => 0x8018_720b,
            binder_return::BR_NOOP => 0x0000_720c,
            binder_return::BR_SPAWN_LOOPER => 0x0000_720d,
            binder_return::BR_FINISHED => 0x0000_720e,
            binder_return::BR_DEAD_BINDER => 0x8008_720f,
            binder_return::BR_CLEAR_DEATH_NOTIFICATION_DONE => 0x8008_7210,
            binder_return::BR_FAILED_REPLY => 0x0000_7211,
            binder_return::BR_FROZEN_REPLY => 0x0000_7212,
            binder_return::BR_ONEWAY_SPAM_SUSPECT => 0x0000_7213,
        }
    }

    pub fn from_code(c: u32) -> (r: Option<binder_return>)
        ensures
            r == return_of_code(c),
    {
        if c == 0x8004_7200 {
            Some(binder_return::BR_ERROR)
        } else if c == 0x0000_7201 {
            Some(binder_return::BR_OK)
        } else if c == 0x8048_7202 {
            Some(binder_return::BR_TRANSACTION_SEC_CTX)
        } else if c == 0x8040_7202 {
            Some(binder_return::BR_TRANSACTION)
        } else if c == 0x8040_7203 {
            Some(binder_return::BR_REPLY)
        } else if c == 0x8004_7204 {
            Some(binder_return::BR_ACQUIRE_RESULT)
        } else if c == 0x0000_7205 {
            Some(binder_return::BR_DEAD_REPLY)
        } else if c == 0x0000_7206 {
            Some(binder_return::BR_TRANSACTION_COMPLETE)
        } else if c == 0x8010_7207 {
            Some(binder_return::BR_INCREFS)
        } else if c == 0x8010_7208 {
            Some(binder_return::BR_ACQUIRE)
        } else if c == 0x8010_7209 {
            Some(binder_return::BR_RELEASE)
        } else if c == 0x8010_720a {
            Some(binder_return::BR_DECREFS)
        } else if c == 0x8018_720b {
            Some(binder_return::BR_ATTEMPT_ACQUIRE)
        } else if c == 0x0000_720c {
            Some(binder_return::BR_NOOP)
        } else if c == 0x0000_720d {
            Some(binder_return::BR_SPAWN_LOOPER)
        } else if c == 0x0000_720e {
            Some(binder_return::BR_FINISHED)
        } else if c == 0x8008_720f {
            Some(binder_return::BR_DEAD_BINDER)
        } else if c == 0x8008_7210 {
            Some(binder_return::BR_CLEAR_DEATH_NOTIFICATION_DONE)
        } else if c == 0x0000_7211 {
            Some(binder_return::BR_FAILED_REPLY)
        } else if c == 0x0000_7212 {
            Some(binder_return::BR_FROZEN_REPLY)
        } else if c == 0x0000_7213 {
            Some(binder_return::BR_ONEWAY_SPAM_SUSPECT)
        } else {
            None
        }
    }
}

/// Distinct headers have distinct numbers: a number names back its header.
pub proof fn lemma_return_code_inverse(h: binder_return)
    ensures
        return_of_code(return_code(h)) == Some(h),
{
}

/// Why a payload could not be parsed.
#[derive(Debug, Clone, Copy, PartialEq, Eq, Structural)]
pub enum BwrError {
    /// The payload is shorter than its structure.
    TooShort,
    /// The header names a command or return that carries no known payload layout.
    Unsupported,
    /// A write/read record marks neither its write nor its read buffer as the one
    /// holding transaction contents.
    NotTransactionContents,
    /// The 32-bit header is the number of no known command or return.
    UnknownHeader(u32),
    /// The last command or return runs past the end of its buffer.
    Trailing,
}

/// The `u64` stored little-endian at `off`.
pub open spec fn u64_at(d: Seq<u8>, off: int) -> u64 {
    le_nat(d.subrange(off, off + 8)) as u64
}

/// The `u32` stored little-endian at `off`.
pub open spec fn u32_at(d: Seq<u8>, off: int) -> u32 {
    le_nat(d.subrange(off, off + 4)) as u32
}

/// The `i32` stored little-endian (two's complement) at `off`.
pub open spec fn i32_at(d: Seq<u8>, off: int) -> i32 {
    int_of(ScalarKind::I32, le_nat(d.subrange(off, off + 4))) as i32
}

pub(crate) fn read_u64_at(d: &[u8], off: usize) -> (r: u64)
    requires
        off + 8 <= d@.len(),
    ensures
        r == u64_at(d@, off as int),
{
    match read_le(d, off, 8) {
        Some(v) => v,
        None => 0,
    }
}

fn read_u32_at(d: &[u8], off: usize) -> (r: u32)
    requires
        off + 4 <= d@.len(),
    ensures
        r == u32_at(d@, off as int),
{
    proof {
        lemma_pow256_width(ScalarKind::U32);
        lemma_le_nat_bound(d@.subrange(off as int, off + 4));
    }
    match read_le(d, off, 4) {
        Some(v) => v as u32,
        None => 0,
    }
}

fn read_i32_at(d: &[u8], off: usize) -> (r: i32)
    requires
        off + 4 <= d@.len(),
    ensures
        r == i32_at(d@, off as int),
{
    proof {
        lemma_pow256_width(ScalarKind::I32);
        lemma_le_nat_bound(d@.subrange(off as int, off + 4));
    }
    match read_le(d, off, 4) {
        Some(v) => ScalarKind::I32.int_from_raw(v) as i32,
        None => 0,
    }
}

/// Payload of the reference-count commands.
#[derive(Debug, Clone, Copy, PartialEq, Eq, Structural, Default)]
pub struct RefCommand {
    /// Handle of the referenced node; 0 with IncRefs or Acquire names the context manager.
    pub target: u32,
}

/// Payload of the acknowledgements of reference-count returns.
#[derive(Debug, Clone, Copy, PartialEq, Eq, Structural, Default)]
pub struct RefDoneCommand {
    pub node_ptr: u64,
    pub cookie: u64,
}

/// Payload of a buffer release.
#[derive(Debug, Clone, Copy, PartialEq, Eq, Structural, Default)]
pub struct FreeBufferCommand {
    pub data_ptr: u64,
}

/// Payload of a death-notification request or clearance.
#[derive(Debug, Clone, Copy, PartialEq, Eq, Structural, Default)]
pub struct DeathCommand {
    pub target: u32,
    pub cookie: u64,
}

/// Payload of a dead-binder acknowledgement.
#[derive(Debug, Clone, Copy, PartialEq, Eq, Structural, Default)]
pub struct DeathDoneCommand {
    pub cookie: u64,
}

/// The data of one transaction (the driver's `binder_transaction_data`).
#[derive(Debug, Clone, Copy, PartialEq, Eq, Structural, Default)]
pub struct Transaction {
    /// Target handle or pointer (one 64-bit slot).
    pub target: u64,
    pub cookie: u64,
    pub code: u32,
    pub flags: u32,
    pub sender_pid: i32,
    pub sender_euid: u32,
    pub data_size: u64,
    pub offsets_size: u64,
    /// Address of the data buffer.
    pub buffer: u64,
    /// Address of the offsets array.
    pub offsets: u64,
}

/// A scatter-gather transaction: a transaction and the size of its extra buffers.
#[derive(Debug, Clone, Copy, PartialEq, Eq, Structural, Default)]
pub struct TransactionSg {
    pub transaction: Transaction,
    pub buffers_size: u64,
}

/// Payload of an error return.
#[derive(Debug, Clone, Copy, PartialEq, Eq, Structural, Default)]
pub struct ErrorReturn {
    pub code: i32,
}

/// A transaction with the address of its sender's security context.
#[derive(Debug, Clone, Copy, PartialEq, Eq, Structural, Default)]
pub struct TransactionSecCtx {
    pub transaction_data: Transaction,
    pub secctx: u64,
}

/// Payload of the reference-count returns.
#[derive(Debug, Clone, Copy, PartialEq, Eq, Structural, Default)]
pub struct RefReturn {
    pub ptr: u64,
    pub cookie: u64,
}

/// Payload of a dead-binder notification.
#[derive(Debug, Clone, Copy, PartialEq, Eq, Structural, Default)]
pub struct DeadBinder {
    pub cookie: u64,
}

/// Payload of a death-notification clearance acknowledgement.
#[derive(Debug, Clone, Copy, PartialEq, Eq, Structural, Default)]
pub struct ClearDeathNotificationDone {
    pub cookie: u64,
}

/// Byte sizes of the payloads, as the driver lays them out on a 64-bit machine.
pub const REF_COMMAND_SIZE: usize = 4;
pub const REF_DONE_COMMAND_SIZE: usize = 16;
pub const FREE_BUFFER_COMMAND_SIZE: usize = 8;
pub const DEATH_COMMAND_SIZE: usize = 16;
pub const DEATH_DONE_COMMAND_SIZE: usize = 8;
pub const TRANSACTION_SIZE: usize = 64;
pub const TRANSACTION_SG_SIZE: usize = 72;
pub const ERROR_RETURN_SIZE: usize = 4;
pub const TRANSACTION_SEC_CTX_SIZE: usize = 72;
pub const REF_RETURN_SIZE: usize = 16;
pub const COOKIE_SIZE: usize = 8;

/// Byte size of the 32-bit header in front of every command and return.
pub const HEADER_SIZE: usize = 4;

pub open spec fn spec_transaction(d: Seq<u8>) -> Transaction {
    Transaction {
        target: u64_at(d, 0),
        cookie: u64_at(d, 8),
        code: u32_at(d, 16),
        flags: u32_at(d, 20),
        sender_pid: i32_at(d, 24),
        sender_euid: u32_at(d, 28),
        data_size: u64_at(d, 32),
        offsets_size: u64_at(d, 40),
        buffer: u64_at(d, 48),
        offsets: u64_at(d, 56),
    }
}

impl Transaction {
    /// Reads a transaction from the front of `d`.
    pub fn from_bytes(d: &[u8]) -> (r: Result<Transaction, BwrError>)
        ensures
            d@.len() >= TRANSACTION_SIZE ==> r == Ok::<Transaction, BwrError>(spec_transaction(d@)),
            d@.len() < TRANSACTION_SIZE ==> r == Err::<Transaction, _>(BwrError::TooShort),
    {
        if d.len() < TRANSACTION_SIZE {
            return Err(BwrError::TooShort);
        }
        Ok(Transaction {
            target: read_u64_at(d, 0),
            cookie: read_u64_at(d, 8),
            code: read_u32_at(d, 16),
            flags: read_u32_at(d, 20),
            sender_pid: read_i32_at(d, 24),
            sender_euid: read_u32_at(d, 28),
            data_size: read_u64_at(d, 32),
            offsets_size: read_u64_at(d, 40),
            buffer: read_u64_at(d, 48),
            offsets: read_u64_at(d, 56),
        })
    }
}

/// Where each member of a transaction lies, relative to its start: name, offset,
/// size. The target and the data are unions, so some members overlap.
pub open spec fn transaction_layout() -> Seq<(Seq<char>, usize, usize)> {
    seq![
        ("target.handle"@, 0usize, 4usize),
        ("target.ptr"@, 0usize, 8usize),
        ("cookie"@, 8usize, 8usize),
        ("code"@, 16usize, 4usize),
        ("flags"@, 20usize, 4usize),
        ("sender_pid"@, 24usize, 4usize),
        ("sender_euid"@, 28usize, 4usize),
        ("data_size"@, 32usize, 8usize),
        ("offsets_size"@, 40usize, 8usize),
        ("data.ptr.buffer"@, 48usize, 8usize),
        ("data.ptr.offsets"@, 56usize, 8usize),
        ("data.buf"@, 48usize, 8usize),
    ]
}

impl Transaction {
    /// The offsets of a transaction's members when it starts at `base`.
    pub fn get_offsets(base: usize) -> (r: Option<StructOffset>)
        requires
            base + TRANSACTION_SIZE <= usize::MAX,
        ensures
            r matches Some(so) && {
                &&& so.name@ == "Transaction"@
                &&& so.offset == base
                &&& so.size == TRANSACTION_SIZE
                &&& so.fields@.len() == transaction_layout().len()
                &&& forall|i: int|
                    0 <= i < so.fields@.len() ==> {
                        let f = #[trigger] so.fields@[i];
                        &&& f.field_name@ == transaction_layout()[i].0
                        &&& f.offset == base + transaction_layout()[i].1
                        &&& f.size == transaction_layout()[i].2
                        &&& f.inner_struct.is_none()
                    }
            },
    {
        let layout: [(&'static str, usize, usize); 12] = [
            ("target.handle", 0, 4),
            ("target.ptr", 0, 8),
            ("cookie", 8, 8),
            ("code", 16, 4),
            ("flags", 20, 4),
            ("sender_pid", 24, 4),
            ("sender_euid", 28, 4),
            ("data_size", 32, 8),
            ("offsets_size", 40, 8),
            ("data.ptr.buffer", 48, 8),
            ("data.ptr.offsets", 56, 8),
            ("data.buf", 48, 8),
        ];
        assert(forall|i: int|
            0 <= i < 12 ==> #[trigger] layout@[i].0@ == transaction_layout()[i].0 && layout@[i].1
                == transaction_layout()[i].1 && layout@[i].2 == transaction_layout()[i].2);
        let mut fields: Vec<FieldOffset> = Vec::new();
        let mut i: usize = 0;
        while i < 12
            invariant
                i <= 12,
                base + TRANSACTION_SIZE <= usize::MAX,
                forall|k: int|
                    0 <= k < 12 ==> #[trigger] layout@[k].0@ == transaction_layout()[k].0
                        && layout@[k].1 == transaction_layout()[k].1 && layout@[k].2
                        == transaction_layout()[k].2,
                forall|k: int| 0 <= k < 12 ==> layout@[k].1 <= 56,
                fields@.len() == i,
                forall|k: int|
                    0 <= k < i ==> {
                        let f = #[trigger] fields@[k];
                        &&& f.field_name@ == transaction_layout()[k].0
                        &&& f.offset == base + transaction_layout()[k].1
                        &&& f.size == transaction_layout()[k].2
                        &&& f.inner_struct.is_none()
                    },
            decreases 12 - i,
        {
            let (name, offset, size) = layout[i];
            fields.push(
                FieldOffset {
                    field_name: String::from_str(name),
                    offset: base + offset,
                    size,
                    inner_struct: None,
                },
            );
            i = i + 1;
        }
        Some(
            StructOffset {
                name: String::from_str("Transaction"),
                offset: base,
                size: TRANSACTION_SIZE,
                fields,
            },
        )
    }
}

impl TransactionSg {
    /// The offsets of a scatter-gather transaction's members when it starts at `base`:
    /// the transaction, with its own members, then the size of the extra buffers.
    pub fn get_offsets(base: usize) -> (r: Option<StructOffset>)
        requires
            base + TRANSACTION_SG_SIZE <= usize::MAX,
        ensures
            r matches Some(so) && {
                &&& so.name@ == "TransactionSg"@
                &&& so.offset == base
                &&& so.size == TRANSACTION_SG_SIZE
                &&& so.fields@.len() == 2
                &&& so.fields@[0].field_name@ == "transaction"@
                &&& so.fields@[0].offset == base
                &&& so.fields@[0].size == TRANSACTION_SIZE
                &&& so.fields@[0].inner_struct matches Some(t) && t.name@ == "Transaction"@
                    && t.offset == base && t.fields@.len() == transaction_layout().len()
                &&& so.fields@[1].field_name@ == "buffers_size"@
                &&& so.fields@[1].offset == base + TRANSACTION_SIZE
                &&& so.fields@[1].size == 8
                &&& so.fields@[1].inner_struct.is_none()
            },
    {
        let inner = Transaction::get_offsets(base);
        let inner_struct = match inner {
            Some(t) => Some(Box::new(t)),
            None => None,
        };
        let mut fields: Vec<FieldOffset> = Vec::new();
        fields.push(
            FieldOffset {
                field_name: String::from_str("transaction"),
                offset: base,
                size: TRANSACTION_SIZE,
                inner_struct,
            },
        );
        fields.push(
            FieldOffset {
                field_name: String::from_str("buffers_size"),
                offset: base + TRANSACTION_SIZE,
                size: 8,
                inner_struct: None,
            },
        );
        Some(
            StructOffset {
                name: String::from_str("TransactionSg"),
                offset: base,
                size: TRANSACTION_SG_SIZE,
                fields,
            },
        )
    }
}

impl TransactionSg {
    /// Reads a scatter-gather transaction from the front of `d`.
    pub fn from_bytes(d: &[u8]) -> (r: Result<TransactionSg, BwrError>)
        ensures
            d@.len() >= TRANSACTION_SG_SIZE ==> r == Ok::<TransactionSg, BwrError>(
                TransactionSg { transaction: spec_transaction(d@), buffers_size: u64_at(d@, 64) },
            ),
            d@.len() < TRANSACTION_SG_SIZE ==> r == Err::<TransactionSg, _>(BwrError::TooShort),
    {
        if d.len() < TRANSACTION_SG_SIZE {
            return Err(BwrError::TooShort);
        }
        let transaction = match Transaction::from_bytes(d) {
            Ok(t) => t,
            Err(e) => return Err(e),
        };
        Ok(TransactionSg { transaction, buffers_size: read_u64_at(d, 64) })
    }
}

impl TransactionSecCtx {
    /// Reads a transaction with security context from the front of `d`.
    pub fn from_bytes(d: &[u8]) -> (r: Result<TransactionSecCtx, BwrError>)
        ensures
            d@.len() >= TRANSACTION_SEC_CTX_SIZE ==> r == Ok::<TransactionSecCtx, BwrError>(
                TransactionSecCtx { transaction_data: spec_transaction(d@), secctx: u64_at(d@, 64) },
            ),
            d@.len() < TRANSACTION_SEC_CTX_SIZE ==> r == Err::<TransactionSecCtx, _>(
                BwrError::TooShort,
            ),
    {
        if d.len() < TRANSACTION_SEC_CTX_SIZE {
            return Err(BwrError::TooShort);
        }
        let transaction_data = match Transaction::from_bytes(d) {
            Ok(t) => t,
            Err(e) => return Err(e),
        };
        Ok(TransactionSecCtx { transaction_data, secctx: read_u64_at(d, 64) })
    }
}

/// A command written to the driver, with its payload.
#[derive(Debug, Clone, Copy, PartialEq, Eq, Structural)]
pub enum BinderCommand {
    IncRefs(RefCommand),
    Acquire(RefCommand),
    Release(RefCommand),
    DecRefs(RefCommand),
    IncRefsDone(RefDoneCommand),
    AcquireDone(RefDoneCommand),
    FreeBuffer(FreeBufferCommand),
    TransactionSg(TransactionSg),
    ReplySg(TransactionSg),
    Transaction(Transaction),
    Reply(Transaction),
    RegisterLooper,
    EnterLooper,
    ExitLooper,
    RequestDeathNotification(DeathCommand),
    ClearDeathNotification(DeathCommand),
    DeadBinderDone(DeathDoneCommand),
}

/// Byte size of a command's payload.
pub open spec fn command_payload_size(c: BinderCommand) -> nat {
    match c {
        BinderCommand::IncRefs(_) | BinderCommand::Acquire(_) | BinderCommand::Release(_)
        | BinderCommand::DecRefs(_) => REF_COMMAND_SIZE as nat,
        BinderCommand::IncRefsDone(_) | BinderCommand::AcquireDone(_) => REF_DONE_COMMAND_SIZE as nat,
        BinderCommand::FreeBuffer(_) => FREE_BUFFER_COMMAND_SIZE as nat,
        BinderCommand::TransactionSg(_) | BinderCommand::ReplySg(_) => TRANSACTION_SG_SIZE as nat,
        BinderCommand::Transaction(_) | BinderCommand::Reply(_) => TRANSACTION_SIZE as nat,
        BinderCommand::RegisterLooper | BinderCommand::EnterLooper | BinderCommand::ExitLooper => 0,
        BinderCommand::RequestDeathNotification(_) | BinderCommand::ClearDeathNotification(_) =>
            DEATH_COMMAND_SIZE as nat,
        BinderCommand::DeadBinderDone(_) => DEATH_DONE_COMMAND_SIZE as nat,
    }
}

/// The command that header `bc` and payload `d` stand for.
pub open spec fn spec_command(bc: binder_command, d: Seq<u8>) -> Result<BinderCommand, BwrError> {
    let need: nat = match bc {
        binder_command::BC_TRANSACTION | binder_command::BC_REPLY => TRANSACTION_SIZE as nat,
        binder_command::BC_FREE_BUFFER => FREE_BUFFER_COMMAND_SIZE as nat,
        binder_command::BC_INCREFS | binder_command::BC_ACQUIRE | binder_command::BC_RELEASE
        | binder_command::BC_DECREFS => REF_COMMAND_SIZE as nat,
        binder_command::BC_INCREFS_DONE | binder_command::BC_ACQUIRE_DONE =>
            REF_DONE_COMMAND_SIZE as nat,
        binder_command::BC_REQUEST_DEATH_NOTIFICATION
        | binder_command::BC_CLEAR_DEATH_NOTIFICATION => DEATH_COMMAND_SIZE as nat,
        binder_command::BC_DEAD_BINDER_DONE => DEATH_DONE_COMMAND_SIZE as nat,
        binder_command::BC_TRANSACTION_SG | binder_command::BC_REPLY_SG => TRANSACTION_SG_SIZE as nat,
        _ => 0,
    };
    if bc is BC_ACQUIRE_RESULT || bc is BC_ATTEMPT_ACQUIRE {
        Err(BwrError::Unsupported)
    } else if d.len() < need {
        Err(BwrError::TooShort)
    } else {
        let rc = RefCommand { target: u32_at(d, 0) };
        let rd = RefDoneCommand { node_ptr: u64_at(d, 0), cookie: u64_at(d, 8) };
        let dc = DeathCommand { target: u32_at(d, 0), cookie: u64_at(d, 8) };
        let sg = TransactionSg { transaction: spec_transaction(d), buffers_size: u64_at(d, 64) };
        Ok(
            match bc {
                binder_command::BC_TRANSACTION => BinderCommand::Transaction(spec_transaction(d)),
                binder_command::BC_REPLY => BinderCommand::Reply(spec_transaction(d)),
                binder_command::BC_FREE_BUFFER => BinderCommand::FreeBuffer(
                    FreeBufferCommand { data_ptr: u64_at(d, 0) },
                ),
                binder_command::BC_INCREFS => BinderCommand::IncRefs(rc),
                binder_command::BC_ACQUIRE => BinderCommand::Acquire(rc),
                binder_command::BC_RELEASE => BinderCommand::Release(rc),
                binder_command::BC_DECREFS => BinderCommand::DecRefs(rc),
                binder_command::BC_INCREFS_DONE => BinderCommand::IncRefsDone(rd),
                binder_command::BC_ACQUIRE_DONE => BinderCommand::AcquireDone(rd),
                binder_command::BC_REGISTER_LOOPER => BinderCommand::RegisterLooper,
                binder_command::BC_ENTER_LOOPER => BinderCommand::EnterLooper,
                binder_command::BC_EXIT_LOOPER => BinderCommand::ExitLooper,
                binder_command::BC_REQUEST_DEATH_NOTIFICATION =>
                    BinderCommand::RequestDeathNotification(dc),
                binder_command::BC_CLEAR_DEATH_NOTIFICATION => BinderCommand::ClearDeathNotification(
                    dc,
                ),
                binder_command::BC_DEAD_BINDER_DONE => BinderCommand::DeadBinderDone(
                    DeathDoneCommand { cookie: u64_at(d, 0) },
                ),
                binder_command::BC_TRANSACTION_SG => BinderCommand::TransactionSg(sg),
                _ => BinderCommand::ReplySg(sg),
            },
        )
    }
}

impl BinderCommand {
    /// Bytes the command takes in the write buffer: its header and its payload.
    pub fn size(&self) -> (r: usize)
        ensures
            r == HEADER_SIZE + command_payload_size(*self),
    {
        let inner_size: usize = match self {
            BinderCommand::IncRefs(_)
            | BinderCommand::Acquire(_)
            | BinderCommand::Release(_)
            | BinderCommand::DecRefs(_) => REF_COMMAND_SIZE,
            BinderCommand::IncRefsDone(_) | BinderCommand::AcquireDone(_) => REF_DONE_COMMAND_SIZE,
            BinderCommand::FreeBuffer(_) => FREE_BUFFER_COMMAND_SIZE,
            BinderCommand::TransactionSg(_) | BinderCommand::ReplySg(_) => TRANSACTION_SG_SIZE,
            BinderCommand::Transaction(_) | BinderCommand::Reply(_) => TRANSACTION_SIZE,
            BinderCommand::RegisterLooper
            | BinderCommand::EnterLooper
            | BinderCommand::ExitLooper => 0,
            BinderCommand::RequestDeathNotification(_)
            | BinderCommand::ClearDeathNotification(_) => DEATH_COMMAND_SIZE,
            BinderCommand::DeadBinderDone(_) => DEATH_DONE_COMMAND_SIZE,
        };
        HEADER_SIZE + inner_size
    }

    /// Whether the command carries a transaction or a reply.
    pub fn is_transaction(&self) -> (r: bool)
        ensures
            r == (self is TransactionSg || self is ReplySg || self is Transaction || self is Reply),
    {
        match self {
            BinderCommand::TransactionSg(_)
            | BinderCommand::ReplySg(_)
            | BinderCommand::Transaction(_)
            | BinderCommand::Reply(_) => true,
            _ => false,
        }
    }

    /// Parses the payload `data` of a command whose header is `bc`.
    pub fn parse_command(bc: &binder_command, data: &[u8]) -> (r: Result<BinderCommand, BwrError>)
        ensures
            r == spec_command(*bc, data@),
    {
        match bc {
            binder_command::BC_ACQUIRE_RESULT | binder_command::BC_ATTEMPT_ACQUIRE => {
                Err(BwrError::Unsupported)
            },
            binder_command::BC_TRANSACTION | binder_command::BC_REPLY => {
                match Transaction::from_bytes(data) {
                    Ok(t) => match bc {
                        binder_command::BC_TRANSACTION => Ok(BinderCommand::Transaction(t)),
                        _ => Ok(BinderCommand::Reply(t)),
                    },
                    Err(e) => Err(e),
                }
            },
            binder_command::BC_FREE_BUFFER => {
                if data.len() < FREE_BUFFER_COMMAND_SIZE {
                    return Err(BwrError::TooShort);
                }
                Ok(BinderCommand::FreeBuffer(FreeBufferCommand { data_ptr: read_u64_at(data, 0) }))
            },
            binder_command::BC_INCREFS
            | binder_command::BC_ACQUIRE
            | binder_command::BC_RELEASE
            | binder_command::BC_DECREFS => {
                if data.len() < REF_COMMAND_SIZE {
                    return Err(BwrError::TooShort);
                }
                let command = RefCommand { target: read_u32_at(data, 0) };
                match bc {
                    binder_command::BC_INCREFS => Ok(BinderCommand::IncRefs(command)),
                    binder_command::BC_ACQUIRE => Ok(BinderCommand::Acquire(command)),
                    binder_command::BC_RELEASE => Ok(BinderCommand::Release(command)),
                    _ => Ok(BinderCommand::DecRefs(command)),
                }
            },
            binder_command::BC_INCREFS_DONE | binder_command::BC_ACQUIRE_DONE => {
                if data.len() < REF_DONE_COMMAND_SIZE {
                    return Err(BwrError::TooShort);
                }
                let command = RefDoneCommand {
                    node_ptr: read_u64_at(data, 0),
                    cookie: read_u64_at(data, 8),
                };
                match bc {
                    binder_command::BC_INCREFS_DONE => Ok(BinderCommand::IncRefsDone(command)),
                    _ => Ok(BinderCommand::AcquireDone(command)),
                }
            },
            binder_command::BC_REGISTER_LOOPER => Ok(BinderCommand::RegisterLooper),
            binder_command::BC_ENTER_LOOPER => Ok(BinderCommand::EnterLooper),
            binder_command::BC_EXIT_LOOPER => Ok(BinderCommand::ExitLooper),
            binder_command::BC_REQUEST_DEATH_NOTIFICATION
            | binder_command::BC_CLEAR_DEATH_NOTIFICATION => {
                if data.len() < DEATH_COMMAND_SIZE {
                    return Err(BwrError::TooShort);
                }
                let command = DeathCommand {
                    target: read_u32_at(data, 0),
                    cookie: read_u64_at(data, 8),
                };
                match bc {
                    binder_command::BC_REQUEST_DEATH_NOTIFICATION => Ok(
                        BinderCommand::RequestDeathNotification(command),
                    ),
                    _ => Ok(BinderCommand::ClearDeathNotification(command)),
                }
            },
            binder_command::BC_DEAD_BINDER_DONE => {
                if data.len() < DEATH_DONE_COMMAND_SIZE {
                    return Err(BwrError::TooShort);
                }
                Ok(BinderCommand::DeadBinderDone(DeathDoneCommand { cookie: read_u64_at(data, 0) }))
            },
            binder_command::BC_TRANSACTION_SG | binder_command::BC_REPLY_SG => {
                match TransactionSg::from_bytes(data) {
                    Ok(t) => match bc {
                        binder_command::BC_TRANSACTION_SG => Ok(BinderCommand::TransactionSg(t)),
                        _ => Ok(BinderCommand::ReplySg(t)),
                    },
                    Err(e) => Err(e),
                }
            },
        }
    }
}

/// A return read back from the driver, with its payload.
#[derive(Debug, Clone, Copy, PartialEq, Eq, Structural)]
pub enum BinderReturn {
    Error(ErrorReturn),
    Okay,
    TransactionSecCtx(TransactionSecCtx),
    Transaction(Transaction),
    Reply(Transaction),
    DeadReply,
    TransactionComplete,
    IncRefs(RefReturn),
    Acquire(RefReturn),
    Release(RefReturn),
    DecRefs(RefReturn),
    Noop,
    SpawnLooper,
    DeadBinder(DeadBinder),
    ClearDeathNotificationDone(ClearDeathNotificationDone),
    FailedReply,
    FrozenReply,
    OnewaySpamSuspect,
}

/// Byte size of a return's payload.
pub open spec fn return_payload_size(r: BinderReturn) -> nat {
    match r {
        BinderReturn::Error(_) => ERROR_RETURN_SIZE as nat,
        BinderReturn::TransactionSecCtx(_) => TRANSACTION_SEC_CTX_SIZE as nat,
        BinderReturn::Transaction(_) | BinderReturn::Reply(_) => TRANSACTION_SIZE as nat,
        BinderReturn::IncRefs(_) | BinderReturn::Acquire(_) | BinderReturn::Release(_)
        | BinderReturn::DecRefs(_) => REF_RETURN_SIZE as nat,
        BinderReturn::DeadBinder(_) | BinderReturn::ClearDeathNotificationDone(_) => COOKIE_SIZE as nat,
        _ => 0,
    }
}

/// The return that header `br` and payload `d` stand for.
pub open spec fn spec_return(br: binder_return, d: Seq<u8>) -> Result<BinderReturn, BwrError> {
    let need: nat = match br {
        binder_return::BR_ERROR => ERROR_RETURN_SIZE as nat,
        binder_return::BR_TRANSACTION_SEC_CTX => TRANSACTION_SEC_CTX_SIZE as nat,
        binder_return::BR_TRANSACTION | binder_return::BR_REPLY => TRANSACTION_SIZE as nat,
        binder_return::BR_INCREFS | binder_return::BR_ACQUIRE | binder_return::BR_RELEASE
        | binder_return::BR_DECREFS => REF_RETURN_SIZE as nat,
        binder_return::BR_DEAD_BINDER | binder_return::BR_CLEAR_DEATH_NOTIFICATION_DONE =>
            COOKIE_SIZE as nat,
        _ => 0,
    };
    if br is BR_ACQUIRE_RESULT || br is BR_ATTEMPT_ACQUIRE || br is BR_FINISHED {
        Err(BwrError::Unsupported)
    } else if d.len() < need {
        Err(BwrError::TooShort)
    } else {
        let rr = RefReturn { ptr: u64_at(d, 0), cookie: u64_at(d, 8) };
        Ok(
            match br {
                binder_return::BR_ERROR => BinderReturn::Error(ErrorReturn { code: i32_at(d, 0) }),
                binder_return::BR_OK => BinderReturn::Okay,
                binder_return::BR_TRANSACTION_SEC_CTX => BinderReturn::TransactionSecCtx(
                    TransactionSecCtx { transaction_data: spec_transaction(d), secctx: u64_at(d, 64) },
                ),
                binder_return::BR_TRANSACTION => BinderReturn::Transaction(spec_transaction(d)),
                binder_return::BR_REPLY => BinderReturn::Reply(spec_transaction(d)),
                binder_return::BR_DEAD_REPLY => BinderReturn::DeadReply,
                binder_return::BR_TRANSACTION_COMPLETE => BinderReturn::TransactionComplete,
                binder_return::BR_INCREFS => BinderReturn::IncRefs(rr),
                binder_return::BR_ACQUIRE => BinderReturn::Acquire(rr),
                binder_return::BR_RELEASE => BinderReturn::Release(rr),
                binder_return::BR_DECREFS => BinderReturn::DecRefs(rr),
                binder_return::BR_NOOP => BinderReturn::Noop,
                binder_return::BR_SPAWN_LOOPER => BinderReturn::SpawnLooper,
                binder_return::BR_DEAD_BINDER => BinderReturn::DeadBinder(
                    DeadBinder { cookie: u64_at(d, 0) },
                ),
                binder_return::BR_CLEAR_DEATH_NOTIFICATION_DONE =>
                    BinderReturn::ClearDeathNotificationDone(
                    ClearDeathNotificationDone { cookie: u64_at(d, 0) },
                ),
                binder_return::BR_FAILED_REPLY => BinderReturn::FailedReply,
                binder_return::BR_FROZEN_REPLY => BinderReturn::FrozenReply,
                _ => BinderReturn::OnewaySpamSuspect,
            },
        )
    }
}

impl BinderReturn {
    /// Bytes the return takes in the read buffer: its header and its payload.
    pub fn size(&self) -> (r: usize)
        ensures
            r == HEADER_SIZE + return_payload_size(*self),
    {
        let inner_size: usize = match self {
            BinderReturn::Error(_) => ERROR_RETURN_SIZE,
            BinderReturn::TransactionSecCtx(_) => TRANSACTION_SEC_CTX_SIZE,
            BinderReturn::Transaction(_) | BinderReturn::Reply(_) => TRANSACTION_SIZE,
            BinderReturn::IncRefs(_)
            | BinderReturn::Acquire(_)
            | BinderReturn::Release(_)
            | BinderReturn::DecRefs(_) => REF_RETURN_SIZE,
            BinderReturn::DeadBinder(_) | BinderReturn::ClearDeathNotificationDone(_) => COOKIE_SIZE,
            _ => 0,
        };
        HEADER_SIZE + inner_size
    }

    /// Whether the return carries a transaction or a reply.
    pub fn is_transaction(&self) -> (r: bool)
        ensures
            r == (self is TransactionSecCtx || self is Transaction || self is Reply),
    {
        match self {
            BinderReturn::TransactionSecCtx(_)
            | BinderReturn::Transaction(_)
            | BinderReturn::Reply(_) => true,
            _ => false,
        }
    }

    /// Parses the payload `data` of a return whose header is `br`.
    pub fn parse_with_header(br: &binder_return, data: &[u8]) -> (r: Result<BinderReturn, BwrError>)
        ensures
            r == spec_return(*br, data@),
    {
        match br {
            binder_return::BR_ACQUIRE_RESULT
            | binder_return::BR_ATTEMPT_ACQUIRE
            | binder_return::BR_FINISHED => Err(BwrError::Unsupported),
            binder_return::BR_ERROR => {
                if data.len() < ERROR_RETURN_SIZE {
                    return Err(BwrError::TooShort);
                }
                Ok(BinderReturn::Error(ErrorReturn { code: read_i32_at(data, 0) }))
            },
            binder_return::BR_OK => Ok(BinderReturn::Okay),
            binder_return::BR_TRANSACTION_SEC_CTX => match TransactionSecCtx::from_bytes(data) {
                Ok(t) => Ok(BinderReturn::TransactionSecCtx(t)),
                Err(e) => Err(e),
            },
            binder_return::BR_TRANSACTION | binder_return::BR_REPLY => {
                match Transaction::from_bytes(data) {
                    Ok(t) => match br {
                        binder_return::BR_TRANSACTION => Ok(BinderReturn::Transaction(t)),
                        _ => Ok(BinderReturn::Reply(t)),
                    },
                    Err(e) => Err(e),
                }
            },
            binder_return::BR_DEAD_REPLY => Ok(BinderReturn::DeadReply),
            binder_return::BR_TRANSACTION_COMPLETE => Ok(BinderReturn::TransactionComplete),
            binder_return::BR_INCREFS
            | binder_return::BR_ACQUIRE
            | binder_return::BR_RELEASE
            | binder_return::BR_DECREFS => {
                if data.len() < REF_RETURN_SIZE {
                    return Err(BwrError::TooShort);
                }
                let ret = RefReturn { ptr: read_u64_at(data, 0), cookie: read_u64_at(data, 8) };
                match br {
                    binder_return::BR_INCREFS => Ok(BinderReturn::IncRefs(ret)),
                    binder_return::BR_ACQUIRE => Ok(BinderReturn::Acquire(ret)),
                    binder_return::BR_RELEASE => Ok(BinderReturn::Release(ret)),
                    _ => Ok(BinderReturn::DecRefs(ret)),
                }
            },
            binder_return::BR_NOOP => Ok(BinderReturn::Noop),
            binder_return::BR_SPAWN_LOOPER => Ok(BinderReturn::SpawnLooper),
            binder_return::BR_DEAD_BINDER | binder_return::BR_CLEAR_DEATH_NOTIFICATION_DONE => {
                if data.len() < COOKIE_SIZE {
                    return Err(BwrError::TooShort);
                }
                let cookie = read_u64_at(data, 0);
                match br {
                    binder_return::BR_DEAD_BINDER => Ok(BinderReturn::DeadBinder(DeadBinder { cookie })),
                    _ => Ok(BinderReturn::ClearDeathNotificationDone(ClearDeathNotificationDone { cookie })),
                }
            },
            binder_return::BR_FAILED_REPLY => Ok(BinderReturn::FailedReply),
            binder_return::BR_FROZEN_REPLY => Ok(BinderReturn::FrozenReply),
            binder_return::BR_ONEWAY_SPAM_SUSPECT => Ok(BinderReturn::OnewaySpamSuspect),
        }
    }
}

/// The command at the front of `d`: its 32-bit header, then its payload.
pub open spec fn spec_command_from(d: Seq<u8>) -> Result<BinderCommand, BwrError> {
    if d.len() < HEADER_SIZE {
        Err(BwrError::TooShort)
    } else {
        match command_of_code(u32_at(d, 0)) {
            Some(h) => spec_command(h, d.subrange(HEADER_SIZE as int, d.len() as int)),
            None => Err(BwrError::UnknownHeader(u32_at(d, 0))),
        }
    }
}

/// The commands of `d` from `pos` on, back to back, each with its position.
pub open spec fn spec_commands(d: Seq<u8>, pos: nat) -> Result<Seq<(usize, BinderCommand)>, BwrError>
    decreases d.len() - pos,
{
    if pos >= d.len() {
        Ok(Seq::empty())
    } else {
        match spec_command_from(d.subrange(pos as int, d.len() as int)) {
            Ok(c) => {
                let next: nat = (pos + HEADER_SIZE + command_payload_size(c)) as nat;
                if next > d.len() {
                    Err(BwrError::Trailing)
                } else {
                    match spec_commands(d, next) {
                        Ok(rest) => Ok(seq![(pos as usize, c)] + rest),
                        Err(e) => Err(e),
                    }
                }
            },
            Err(e) => Err(e),
        }
    }
}

impl BinderCommand {
    /// Parses the command at the front of `value`.
    pub fn from_bytes(value: &[u8]) -> (r: Result<BinderCommand, BwrError>)
        ensures
            r == spec_command_from(value@),
    {
        if value.len() < HEADER_SIZE {
            return Err(BwrError::TooShort);
        }
        let code = read_u32_at(value, 0);
        match binder_command::from_code(code) {
            Some(h) => BinderCommand::parse_command(&h, slice_subrange(value, HEADER_SIZE, value.len())),
            None => Err(BwrError::UnknownHeader(code)),
        }
    }
}

/// Splits a buffer into its commands, each with its position; fails on the first
/// command that does not parse.
pub fn split_commands(data: &[u8]) -> (r: Result<Vec<(usize, BinderCommand)>, BwrError>)
    ensures
        match spec_commands(data@, 0) {
            Ok(cs) => r is Ok && r->Ok_0@ == cs,
            Err(e) => r == Err::<Vec<(usize, BinderCommand)>, _>(e),
        },
{
    let mut out: Vec<(usize, BinderCommand)> = Vec::new();
    let mut pos: usize = 0;
    let ghost total = spec_commands(data@, 0);
    assert(total =~= match spec_commands(data@, 0) {
        Ok(rest) => Ok(out@ + rest),
        Err(e) => Err(e),
    });
    while pos < data.len()
        invariant
            pos <= data@.len(),
            total == spec_commands(data@, 0),
            total == match spec_commands(data@, pos as nat) {
                Ok(rest) => Ok(out@ + rest),
                Err(e) => Err(e),
            },
        decreases data@.len() - pos,
    {
        let c = match BinderCommand::from_bytes(slice_subrange(data, pos, data.len())) {
            Ok(c) => c,
            Err(e) => return Err(e),
        };
        let size = c.size();
        if size > data.len() - pos {
            return Err(BwrError::Trailing);
        }
        let ghost before = out@;
        out.push((pos, c));
        proof {
            match spec_commands(data@, (pos + size) as nat) {
                Ok(rest) => {
                    assert(before + (seq![(pos, c)] + rest) =~= out@ + rest);
                },
                Err(e) => {},
            }
        }
        pos = pos + size;
    }
    assert(out@ + Seq::<(usize, BinderCommand)>::empty() =~= out@);
    Ok(out)
}

/// The return at the front of `d`: its 32-bit header, then its payload.
pub open spec fn spec_return_from(d: Seq<u8>) -> Result<BinderReturn, BwrError> {
    if d.len() < HEADER_SIZE {
        Err(BwrError::TooShort)
    } else {
        match return_of_code(u32_at(d, 0)) {
            Some(h) => spec_return(h, d.subrange(HEADER_SIZE as int, d.len() as int)),
            None => Err(BwrError::UnknownHeader(u32_at(d, 0))),
        }
    }
}

/// The returns of `d` from `pos` on, back to back, each with its position.
pub open spec fn spec_returns(d: Seq<u8>, pos: nat) -> Result<Seq<(usize, BinderReturn)>, BwrError>
    decreases d.len() - pos,
{
    if pos >= d.len() {
        Ok(Seq::empty())
    } else {
        match spec_return_from(d.subrange(pos as int, d.len() as int)) {
            Ok(c) => {
                let next: nat = (pos + HEADER_SIZE + return_payload_size(c)) as nat;
                if next > d.len() {
                    Err(BwrError::Trailing)
                } else {
                    match spec_returns(d, next) {
                        Ok(rest) => Ok(seq![(pos as usize, c)] + rest),
                        Err(e) => Err(e),
                    }
                }
            },
            Err(e) => Err(e),
        }
    }
}

impl BinderReturn {
    /// Parses the return at the front of `value`.
    pub fn from_bytes(value: &[u8]) -> (r: Result<BinderReturn, BwrError>)
        ensures
            r == spec_return_from(value@),
    {
        if value.len() < HEADER_SIZE {
            return Err(BwrError::TooShort);
        }
        let code = read_u32_at(value, 0);
        match binder_return::from_code(code) {
            Some(h) => BinderReturn::parse_with_header(&h, slice_subrange(value, HEADER_SIZE, value.len())),
            None => Err(BwrError::UnknownHeader(code)),
        }
    }
}

/// Splits a buffer into its returns, each with its position; fails on the first
/// return that does not parse.
pub fn split_returns(data: &[u8]) -> (r: Result<Vec<(usize, BinderReturn)>, BwrError>)
    ensures
        match spec_returns(data@, 0) {
            Ok(cs) => r is Ok && r->Ok_0@ == cs,
            Err(e) => r == Err::<Vec<(usize, BinderReturn)>, _>(e),
        },
{
    let mut out: Vec<(usize, BinderReturn)> = Vec::new();
    let mut pos: usize = 0;
    let ghost total = spec_returns(data@, 0);
    assert(total =~= match spec_returns(data@, 0) {
        Ok(rest) => Ok(out@ + rest),
        Err(e) => Err(e),
    });
    while pos < data.len()
        invariant
            pos <= data@.len(),
            total == spec_returns(data@, 0),
            total == match spec_returns(data@, pos as nat) {
                Ok(rest) => Ok(out@ + rest),
                Err(e) => Err(e),
            },
        decreases data@.len() - pos,
    {
        let c = match BinderReturn::from_bytes(slice_subrange(data, pos, data.len())) {
            Ok(c) => c,
            Err(e) => return Err(e),
        };
        let size = c.size();
        if size > data.len() - pos {
            return Err(BwrError::Trailing);
        }
        let ghost before = out@;
        out.push((pos, c));
        proof {
            match spec_returns(data@, (pos + size) as nat) {
                Ok(rest) => {
                    assert(before + (seq![(pos, c)] + rest) =~= out@ + rest);
                },
                Err(e) => {},
            }
        }
        pos = pos + size;
    }
    assert(out@ + Seq::<(usize, BinderReturn)>::empty() =~= out@);
    Ok(out)
}

} // verus!
