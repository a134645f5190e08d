use binderdump::binder::{
    binder_command, binder_return, split_commands, split_returns, BinderCommand, BinderInterface,
    BinderReturn, BwrError, DeadBinder, DeathCommand, ErrorReturn, FreeBufferCommand, RefCommand,
    RefReturn, Transaction, TransactionSg,
};
use binderdump::bwr_layer::{BinderWriteReadProtocol, BinderWriteReadType};
use binderdump::capture_info::{android_os_name, CaptureInfo};
use binderdump::epan::{concat_abbrev, FieldDisplay, FtEnum};
use binderdump::event_layer::{EventProtocol, EventType, IoctlProtocol};
use binderdump::events::BinderTransactionContents;
use binderdump::link_layer::get_pdu_header;
use binderdump::process_cache::{process_info_from_fds, ProcessCache, ProcessInfo};
use binderdump::transaction::{Code, B_PACK_CHARS};
use std::time::Duration;

fn transaction_bytes() -> Vec<u8> {
    let mut d = Vec::new();
    d.extend_from_slice(&7u64.to_le_bytes());
    d.extend_from_slice(&0x1122u64.to_le_bytes());
    d.extend_from_slice(&B_PACK_CHARS(b'_', b'P', b'N', b'G').to_le_bytes());
    d.extend_from_slice(&0x10u32.to_le_bytes());
    d.extend_from_slice(&(-5i32).to_le_bytes());
    d.extend_from_slice(&1000u32.to_le_bytes());
    d.extend_from_slice(&96u64.to_le_bytes());
    d.extend_from_slice(&8u64.to_le_bytes());
    d.extend_from_slice(&0xdead0000u64.to_le_bytes());
    d.extend_from_slice(&0xbeef0000u64.to_le_bytes());
    d
}

#[test]
fn parses_reference_commands() {
    let r = BinderCommand::parse_command(&binder_command::BC_INCREFS, &[1, 0, 0, 0]).unwrap();
    assert_eq!(r, BinderCommand::IncRefs(RefCommand { target: 1 }));
    assert_eq!(r.size(), 8);
    assert!(!r.is_transaction());
    let d = BinderCommand::parse_command(
        &binder_command::BC_REQUEST_DEATH_NOTIFICATION,
        &[2, 0, 0, 0, 0, 0, 0, 0, 9, 0, 0, 0, 0, 0, 0, 0],
    )
    .unwrap();
    assert_eq!(d, BinderCommand::RequestDeathNotification(DeathCommand { target: 2, cookie: 9 }));
    assert_eq!(d.size(), 20);
    assert_eq!(BinderCommand::parse_command(&binder_command::BC_ACQUIRE, &[1, 0]), Err(BwrError::TooShort));
    assert_eq!(
        BinderCommand::parse_command(&binder_command::BC_ATTEMPT_ACQUIRE, &[0; 16]),
        Err(BwrError::Unsupported)
    );
    assert_eq!(BinderCommand::parse_command(&binder_command::BC_ENTER_LOOPER, &[]), Ok(BinderCommand::EnterLooper));
    assert_eq!(BinderCommand::EnterLooper.size(), 4);
}

#[test]
fn parses_transactions() {
    let d = transaction_bytes();
    let t = Transaction::from_bytes(&d).unwrap();
    assert_eq!(t.target, 7);
    assert_eq!(t.cookie, 0x1122);
    assert_eq!(t.code, 0x5f504e47);
    assert_eq!(t.flags, 0x10);
    assert_eq!(t.sender_pid, -5);
    assert_eq!(t.sender_euid, 1000);
    assert_eq!(t.data_size, 96);
    assert_eq!(t.offsets_size, 8);
    assert_eq!(t.buffer, 0xdead0000);
    assert_eq!(t.offsets, 0xbeef0000);
    let c = BinderCommand::parse_command(&binder_command::BC_REPLY, &d).unwrap();
    assert_eq!(c, BinderCommand::Reply(t));
    assert!(c.is_transaction());
    assert_eq!(c.size(), 68);
    let mut sg = d.clone();
    sg.extend_from_slice(&40u64.to_le_bytes());
    match BinderCommand::parse_command(&binder_command::BC_TRANSACTION_SG, &sg).unwrap() {
        BinderCommand::TransactionSg(s) => {
            assert_eq!(s.transaction, t);
            assert_eq!(s.buffers_size, 40);
        }
        other => panic!("unexpected {:?}", other),
    }
    assert_eq!(
        BinderCommand::parse_command(&binder_command::BC_TRANSACTION_SG, &d),
        Err(BwrError::TooShort)
    );
    assert_eq!(Transaction::from_bytes(&d[..63]), Err(BwrError::TooShort));
}

#[test]
fn parses_returns() {
    let e = BinderReturn::parse_with_header(&binder_return::BR_ERROR, &[0xfe, 0xff, 0xff, 0xff]).unwrap();
    assert_eq!(e, BinderReturn::Error(ErrorReturn { code: -2 }));
    assert_eq!(e.size(), 8);
    let r = BinderReturn::parse_with_header(
        &binder_return::BR_ACQUIRE,
        &[1, 0, 0, 0, 0, 0, 0, 0, 2, 0, 0, 0, 0, 0, 0, 0],
    )
    .unwrap();
    assert_eq!(r, BinderReturn::Acquire(RefReturn { ptr: 1, cookie: 2 }));
    assert_eq!(BinderReturn::parse_with_header(&binder_return::BR_NOOP, &[]), Ok(BinderReturn::Noop));
    assert_eq!(BinderReturn::parse_with_header(&binder_return::BR_FINISHED, &[]), Err(BwrError::Unsupported));
    assert_eq!(BinderReturn::parse_with_header(&binder_return::BR_DEAD_BINDER, &[0; 7]), Err(BwrError::TooShort));
    let mut d = transaction_bytes();
    d.extend_from_slice(&3u64.to_le_bytes());
    let s = BinderReturn::parse_with_header(&binder_return::BR_TRANSACTION_SEC_CTX, &d).unwrap();
    assert!(s.is_transaction());
    assert_eq!(s.size(), 76);
    assert!(!BinderReturn::TransactionComplete.is_transaction());
    assert_eq!(BinderReturn::Okay.size(), 4);
}

#[test]
fn transaction_contents() {
    let mut bwr = Vec::new();
    for w in [12u64, 12, 1, 0, 0, 0] {
        bwr.extend_from_slice(&w.to_le_bytes());
    }
    let mut with_data = bwr.clone();
    with_data.extend_from_slice(&[1, 2, 3]);
    match BinderTransactionContents::from_bytes(&with_data).unwrap() {
        BinderTransactionContents::Data(d) => {
            assert_eq!(d.total_size, 12);
            assert_eq!(d.data, vec![1, 2, 3]);
        }
        other => panic!("unexpected {:?}", other),
    }
    let mut offsets = Vec::new();
    for w in [0u64, 0, 0, 16, 8, 1] {
        offsets.extend_from_slice(&w.to_le_bytes());
    }
    match BinderTransactionContents::from_bytes(&offsets).unwrap() {
        BinderTransactionContents::Offsets(d) => {
            assert_eq!(d.total_size, 16);
            assert!(d.data.is_empty());
        }
        other => panic!("unexpected {:?}", other),
    }
    assert!(matches!(BinderTransactionContents::from_bytes(&[0; 48]), Err(BwrError::NotTransactionContents)));
    assert!(matches!(BinderTransactionContents::from_bytes(&[0; 47]), Err(BwrError::TooShort)));
}

#[test]
fn write_read_kinds() {
    assert!(BinderWriteReadType::Read.is_read());
    assert!(BinderWriteReadType::ReadTransaction.is_read());
    assert!(BinderWriteReadType::Write.is_write());
    assert!(BinderWriteReadType::WriteTransaction.is_write());
    assert!(BinderWriteReadType::WriteTransaction.is_transaction());
    assert!(!BinderWriteReadType::Read.is_transaction());
    let mut p = BinderWriteReadProtocol::default();
    assert!(p.is_write() && !p.is_read() && !p.is_transaction());
    p.bwr_type = BinderWriteReadType::ReadTransaction;
    assert!(p.is_read() && p.is_transaction());
}

#[test]
fn event_records() {
    assert_eq!(EventType::default(), EventType::Invalid);
    assert_eq!(EventType::DeadThread.code(), 3);
    assert_eq!(EventType::from_code(1), Some(EventType::SplitIoctl));
    assert_eq!(EventType::from_code(5), None);
    let ioctl = IoctlProtocol::new(3, 7, 0x1000, 0, 1000, 1000, 42, None);
    assert_eq!(ioctl.fd(), 3);
    let e = EventProtocol::new(
        99,
        10,
        11,
        [0; 16],
        EventType::FinishedIoctl,
        BinderInterface::HWBINDER,
        b"app".to_vec(),
        Some(ioctl),
    );
    assert_eq!(e.timestamp(), 99);
    assert_eq!(e.binder_interface(), BinderInterface::HWBINDER);
}

#[test]
fn binder_interfaces_by_path() {
    assert_eq!(BinderInterface::from_path("/dev/binder"), Some(BinderInterface::BINDER));
    assert_eq!(BinderInterface::from_path("/dev/binderfs/hwbinder"), Some(BinderInterface::HWBINDER));
    assert_eq!(BinderInterface::from_path("/dev/vndbinder"), Some(BinderInterface::VNDBINDER));
    assert_eq!(BinderInterface::from_path("/dev/null"), None);
}

#[test]
fn pdu_header() {
    let h = get_pdu_header();
    let mut expected = vec![0u8, 12, 0, 12];
    expected.extend_from_slice(b"binderdump");
    expected.extend_from_slice(&[0, 0, 0, 0, 0, 0]);
    assert_eq!(h.to_vec(), expected);
}

#[test]
fn capture_info_fields() {
    assert_eq!(android_os_name("14"), "Android 14");
    let info = CaptureInfo::from_parts(
        "Pixel".to_string(),
        "13",
        "fp".to_string(),
        "Linux 6.1".to_string(),
        "binderdump (version 1)".to_string(),
        Duration::from_secs(5),
    );
    assert_eq!(info.get_model(), "Pixel");
    assert_eq!(info.get_os(), "Android 13");
    assert_eq!(info.get_fingerprint(), "fp");
    assert_eq!(info.get_kernel_version(), "Linux 6.1");
    assert_eq!(info.get_capture_app(), "binderdump (version 1)");
    assert_eq!(*info.get_timeshift(), Duration::from_secs(5));
}

fn info(comm: &str) -> ProcessInfo {
    ProcessInfo {
        cmdline: "/system/bin/app".to_string(),
        comm: comm.to_string(),
        binder_fd: Some(4),
        hwbinder_fd: None,
        vndbinder_fd: Some(6),
    }
}

#[test]
fn process_cache() {
    let p = info("app");
    assert_eq!(p.get_binder_name(4), Some("/dev/binder"));
    assert_eq!(p.get_binder_name(6), Some("/dev/vndbinder"));
    assert_eq!(p.get_binder_name(5), None);
    assert_eq!(p.get_cmdline(), "/system/bin/app");
    assert_eq!(p.get_comm(), "app");

    let mut cache = ProcessCache::new();
    assert!(cache.get_proc(1, 2, None).is_none());
    cache.insert_proc(1, 2, info("app"));
    assert_eq!(cache.get_proc(1, 2, Some("app")).unwrap().get_comm(), "app");
    assert!(cache.get_proc(1, 2, Some("renamed")).is_none());
    assert!(cache.get_proc(2, 1, None).is_none());
    assert!(cache.get_proc(-1, 2, None).is_none());
    let gone = cache.invalidate_proc(1, 2).unwrap();
    assert_eq!(gone.get_comm(), "app");
    assert!(cache.invalidate_proc(1, 2).is_none());
    assert!(cache.get_proc(1, 2, None).is_none());
}

#[test]
fn transaction_codes() {
    assert_eq!(B_PACK_CHARS(b'_', b'P', b'N', b'G'), 0x5f504e47);
    assert_eq!(Code::new(0x5f504e47).known_name(), Some("'_PNG'"));
    assert_eq!(Code::new(B_PACK_CHARS(b'_', b'L', b'I', b'K')).known_name(), Some("'_LIK'"));
    assert_eq!(Code::new(1).known_name(), None);
}

#[test]
fn field_types() {
    assert_eq!(FtEnum::from_name("u16"), Some(FtEnum::U16));
    assert_eq!(FtEnum::from_name("usize"), Some(FtEnum::U64));
    assert_eq!(FtEnum::from_name("AbsoluteTime"), Some(FtEnum::AbsoulteTime));
    assert_eq!(FtEnum::from_name("None"), Some(FtEnum::Label));
    assert_eq!(FtEnum::from_name("float"), None);
    assert_eq!(FtEnum::AbsoulteTime.name(), "AbsoluteTime");
    assert_eq!(FtEnum::Label.name(), "None");
    assert_eq!(FieldDisplay::default(), FieldDisplay::Plain);
    assert_eq!(concat_abbrev(&"test".to_string(), "field3_len"), "test.field3_len");
}

#[test]
fn header_codes() {
    assert_eq!(binder_command::BC_TRANSACTION.code(), 0x4040_6300);
    assert_eq!(binder_command::BC_REQUEST_DEATH_NOTIFICATION.code(), 0x400c_630e);
    assert_eq!(binder_command::from_code(0x0000_630c), Some(binder_command::BC_ENTER_LOOPER));
    assert_eq!(binder_command::from_code(0x1234), None);
    assert_eq!(binder_return::BR_TRANSACTION_SEC_CTX.code(), 0x8048_7202);
    assert_eq!(binder_return::from_code(0x8040_7202), Some(binder_return::BR_TRANSACTION));
    assert_eq!(binder_return::from_code(0x0000_720c), Some(binder_return::BR_NOOP));
}

#[test]
fn splits_write_and_read_buffers() {
    let mut w = Vec::new();
    w.extend_from_slice(&binder_command::BC_INCREFS.code().to_le_bytes());
    w.extend_from_slice(&0u32.to_le_bytes());
    w.extend_from_slice(&binder_command::BC_ENTER_LOOPER.code().to_le_bytes());
    w.extend_from_slice(&binder_command::BC_FREE_BUFFER.code().to_le_bytes());
    w.extend_from_slice(&0x77u64.to_le_bytes());
    let cs = split_commands(&w).unwrap();
    assert_eq!(
        cs,
        vec![
            (0, BinderCommand::IncRefs(RefCommand { target: 0 })),
            (8, BinderCommand::EnterLooper),
            (12, BinderCommand::FreeBuffer(FreeBufferCommand { data_ptr: 0x77 })),
        ]
    );
    assert_eq!(BinderCommand::from_bytes(&w[8..]), Ok(BinderCommand::EnterLooper));
    assert_eq!(split_commands(&w[..14]), Err(BwrError::TooShort));
    assert_eq!(split_commands(&[1, 2, 3, 4]), Err(BwrError::UnknownHeader(0x0403_0201)));
    assert_eq!(split_commands(&[]), Ok(vec![]));

    let mut r = Vec::new();
    r.extend_from_slice(&binder_return::BR_NOOP.code().to_le_bytes());
    r.extend_from_slice(&binder_return::BR_TRANSACTION_COMPLETE.code().to_le_bytes());
    r.extend_from_slice(&binder_return::BR_DEAD_BINDER.code().to_le_bytes());
    r.extend_from_slice(&5u64.to_le_bytes());
    let rs = split_returns(&r).unwrap();
    assert_eq!(
        rs,
        vec![
            (0, BinderReturn::Noop),
            (4, BinderReturn::TransactionComplete),
            (8, BinderReturn::DeadBinder(DeadBinder { cookie: 5 })),
        ]
    );
    assert_eq!(BinderReturn::from_bytes(&[1, 0]), Err(BwrError::TooShort));
}

#[test]
fn process_info_from_open_descriptors() {
    let fds = vec![
        (0, "/dev/null".to_string()),
        (5, "/dev/binderfs/hwbinder".to_string()),
        (7, "/dev/binder".to_string()),
        (9, "/dev/binder".to_string()),
    ];
    let p = process_info_from_fds("cmd".to_string(), "comm".to_string(), &fds).unwrap();
    assert_eq!(p.binder_fd, Some(9));
    assert_eq!(p.hwbinder_fd, Some(5));
    assert_eq!(p.vndbinder_fd, None);
    assert_eq!(p.get_binder_name(5), Some("/dev/hwbinder"));
    let all = vec![
        (1, "/dev/binder".to_string()),
        (2, "/dev/hwbinder".to_string()),
        (3, "/dev/vndbinder".to_string()),
        (4, "/dev/binder".to_string()),
    ];
    let q = process_info_from_fds("c".to_string(), "n".to_string(), &all).unwrap();
    assert_eq!(q.binder_fd, Some(1));
    let none = vec![(1, "/dev/null".to_string())];
    assert!(process_info_from_fds("c".to_string(), "n".to_string(), &none).is_none());
}

#[test]
fn transaction_member_offsets() {
    let t = Transaction::get_offsets(10).unwrap();
    assert_eq!(t.name, "Transaction");
    assert_eq!((t.offset, t.size), (10, 64));
    let members: Vec<(String, usize, usize)> =
        t.fields.iter().map(|f| (f.field_name.clone(), f.offset, f.size)).collect();
    assert_eq!(members[0], ("target.handle".to_string(), 10, 4));
    assert_eq!(members[1], ("target.ptr".to_string(), 10, 8));
    assert_eq!(members[3], ("code".to_string(), 26, 4));
    assert_eq!(members[11], ("data.buf".to_string(), 58, 8));
    assert_eq!(members.len(), 12);
    let sg = TransactionSg::get_offsets(0).unwrap();
    assert_eq!(sg.name, "TransactionSg");
    assert_eq!(sg.size, 72);
    assert_eq!(sg.fields[1].field_name, "buffers_size");
    assert_eq!(sg.fields[1].offset, 64);
    assert_eq!(sg.fields[0].inner_struct.as_ref().unwrap().fields.len(), 12);
}
