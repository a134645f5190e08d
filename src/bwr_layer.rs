//! The write/read layer of a captured ioctl.
use vstd::prelude::*;

verus! {

/// Which half of a `BINDER_WRITE_READ` ioctl a record describes, and whether it
/// carries a transaction.
#[derive(Debug, Clone, Copy, PartialEq, Eq, Structural, Default)]
pub enum BinderWriteReadType {
    #[default]
    Write,
    Read,
    WriteTransaction,
    ReadTransaction,
}

impl BinderWriteReadType {
    pub fn is_read(&self) -> (r: bool)
        ensures
            r == (self is Read || self is ReadTransaction),
    {
        match self {
            BinderWriteReadType::Read | BinderWriteReadType::ReadTransaction => true,
            _ => false,
        }
    }

    pub fn is_write(&self) -> (r: bool)
        ensures
            r == !(self is Read || self is ReadTransaction),
    {
        !self.is_read()
    }

    pub fn is_transaction(&self) -> (r: bool)
        ensures
            r == (self is WriteTransaction || self is ReadTransaction),
    {
        match self {
            BinderWriteReadType::WriteTransaction | BinderWriteReadType::ReadTransaction => true,
            _ => false,
        }
    }
}

/// The transaction a write/read record refers to, as the driver's trace reports it.
#[derive(Debug, Clone, Copy, PartialEq, Eq, Structural, Default)]
pub struct Transaction {
    pub debug_id: i32,
    pub target_node: i32,
    pub to_proc: i32,
    pub to_thread: i32,
    pub reply: i32,
    pub code: u32,
    pub flags: u32,
}

/// A transaction with the name and command line of its target process.
#[derive(Debug, Default)]
pub struct TransactionProtocol {
    pub transaction: Transaction,
    pub target_comm: [u8; 16],
    pub target_cmdline: Vec<u8>,
}

/// One half of a `BINDER_WRITE_READ` ioctl.
#[derive(Debug, Default)]
pub struct BinderWriteReadProtocol {
    pub bwr_type: BinderWriteReadType,
    pub write_size: u64,
    pub write_consumed: u64,
    pub write_buffer: u64,
    pub read_size: u64,
    pub read_consumed: u64,
    pub read_buffer: u64,
    pub data: Vec<u8>,
    pub transaction: Option<TransactionProtocol>,
}

impl BinderWriteReadProtocol {
    pub fn is_read(&self) -> (r: bool)
        ensures
            r == (self.bwr_type is Read || self.bwr_type is ReadTransaction),
    {
        self.bwr_type.is_read()
    }

    pub fn is_write(&self) -> (r: bool)
        ensures
            r == !(self.bwr_type is Read || self.bwr_type is ReadTransaction),
    {
        self.bwr_type.is_write()
    }

    pub fn is_transaction(&self) -> (r: bool)
        ensures
            r == (self.bwr_type is WriteTransaction || self.bwr_type is ReadTransaction),
    {
        self.bwr_type.is_transaction()
    }
}

} // verus!
