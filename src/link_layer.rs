//! The exported-PDU header that tags each packet with the dissector to use.
use vstd::prelude::*;

verus! {

/// Tag of the option that names the dissector.
pub const EXP_PDU_TAG_DISSECTOR_NAME: u16 = 12;
/// Tag that ends the option list.
pub const EXP_PDU_TAG_END_OF_OPT: u16 = 0;
/// Length of the end-of-options option.
pub const EXP_PDU_TAG_END_OF_OPT_VALUE: u16 = 0;
/// Option values are padded to a multiple of this many bytes.
pub const ALIGNMENT: usize = 4;
/// Length of the dissector name, `binderdump`.
pub const DISSECTOR_NAME_LEN: usize = 10;

/// The dissector name, `binderdump`, in ASCII.
pub open spec fn dissector_name() -> Seq<u8> {
    seq![0x62u8, 0x69, 0x6e, 0x64, 0x65, 0x72, 0x64, 0x75, 0x6d, 0x70]
}

/// `len` rounded up to the option alignment.
pub fn aligned_len(len: usize) -> (r: usize)
    requires
        len + ALIGNMENT <= usize::MAX,
    ensures
        r as int % (ALIGNMENT as int) == 0,
        len <= r < len + ALIGNMENT,
{
    (len + ALIGNMENT - 1) / ALIGNMENT * ALIGNMENT
}

/// The two big-endian bytes of `v`.
fn be_bytes(v: u16) -> (r: (u8, u8))
    ensures
        r.0 as int * 256 + r.1 as int == v as int,
{
    ((v / 256) as u8, (v % 256) as u8)
}

/// The header in front of every packet: the dissector-name option (tag, padded
/// length, name padded with zeros), then the end-of-options option; all
/// integers big-endian.
pub fn get_pdu_header() -> (r: [u8; 20])
    ensures
        r@ == seq![0u8, 12, 0, 12] + dissector_name() + seq![0u8, 0, 0, 0, 0, 0],
{
    let padded = aligned_len(DISSECTOR_NAME_LEN);
    assert(padded == 12);
    let tag = be_bytes(EXP_PDU_TAG_DISSECTOR_NAME);
    let len = be_bytes(padded as u16);
    let end = be_bytes(EXP_PDU_TAG_END_OF_OPT);
    let end_value = be_bytes(EXP_PDU_TAG_END_OF_OPT_VALUE);
    let r = [
        tag.0,
        tag.1,
        len.0,
        len.1,
        0x62,
        0x69,
        0x6e,
        0x64,
        0x65,
        0x72,
        0x64,
        0x75,
        0x6d,
        0x70,
        0,
        0,
        end.0,
        end.1,
        end_value.0,
        end_value.1,
    ];
    assert(r@ =~= seq![0u8, 12, 0, 12] + dissector_name() + seq![0u8, 0, 0, 0, 0, 0]);
    r
}

} // verus!
