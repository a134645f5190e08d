//! Well-known transaction codes that every binder object answers.
use vstd::prelude::*;

verus! {

/// Packs four characters into a code, the first in the high byte.
pub open spec fn pack_chars(c1: u8, c2: u8, c3: u8, c4: u8) -> u32 {
    (c1 as u32 * 0x100_0000 + c2 as u32 * 0x1_0000 + c3 as u32 * 0x100 + c4 as u32) as u32
}

#[allow(non_snake_case)]
pub fn B_PACK_CHARS(c1: u8, c2: u8, c3: u8, c4: u8) -> (r: u32)
    ensures
        r == pack_chars(c1, c2, c3, c4),
{
    assert(c1 as u32 * 0x100_0000 + c2 as u32 * 0x1_0000 + c3 as u32 * 0x100 + c4 as u32
        <= u32::MAX) by (nonlinear_arith)
        requires
            c1 <= 255,
            c2 <= 255,
            c3 <= 255,
            c4 <= 255,
    ;
    c1 as u32 * 0x100_0000 + c2 as u32 * 0x1_0000 + c3 as u32 * 0x100 + c4 as u32
}

/// The well-known codes, each with its four characters.
pub open spec fn known_codes() -> Seq<(u32, Seq<char>)> {
    seq![
        (pack_chars(0x5f, 0x50, 0x4e, 0x47), "'_PNG'"@),
        (pack_chars(0x5f, 0x53, 0x52, 0x44), "'_SRD'"@),
        (pack_chars(0x5f, 0x45, 0x52, 0x44), "'_ERD'"@),
        (pack_chars(0x5f, 0x44, 0x4d, 0x50), "'_DMP'"@),
        (pack_chars(0x5f, 0x43, 0x4d, 0x44), "'_CMD'"@),
        (pack_chars(0x5f, 0x4e, 0x54, 0x46), "'_NTF'"@),
        (pack_chars(0x5f, 0x53, 0x50, 0x52), "'_SPR'"@),
        (pack_chars(0x5f, 0x45, 0x58, 0x54), "'_EXT'"@),
        (pack_chars(0x5f, 0x50, 0x49, 0x44), "'_PID'"@),
        (pack_chars(0x5f, 0x52, 0x50, 0x43), "'_RPC'"@),
        (pack_chars(0x5f, 0x54, 0x57, 0x54), "'_TWT'"@),
        (pack_chars(0x5f, 0x4c, 0x49, 0x4b), "'_LIK'"@),
    ]
}

/// A transaction code.
#[derive(Debug, Clone, Copy, PartialEq, Eq, Structural)]
pub struct Code {
    pub code: u32,
}

impl Code {
    pub fn new(code: u32) -> (r: Self)
        ensures
            r.code == code,
    {
        Code { code }
    }

    /// The quoted four-character name of a well-known code, or `None` for any other.
    pub fn known_name(&self) -> (r: Option<&'static str>)
        ensures
            r matches Some(s) ==> exists|i: int|
                0 <= i < known_codes().len() && known_codes()[i].0 == self.code && #[trigger] known_codes()[i].1
                    == s@,
            r is None ==> forall|i: int|
                0 <= i < known_codes().len() ==> #[trigger] known_codes()[i].0 != self.code,
    {
        let names: [(u32, &'static str); 12] = [
            (B_PACK_CHARS(0x5f, 0x50, 0x4e, 0x47), "'_PNG'"),
            (B_PACK_CHARS(0x5f, 0x53, 0x52, 0x44), "'_SRD'"),
            (B_PACK_CHARS(0x5f, 0x45, 0x52, 0x44), "'_ERD'"),
            (B_PACK_CHARS(0x5f, 0x44, 0x4d, 0x50), "'_DMP'"),
            (B_PACK_CHARS(0x5f, 0x43, 0x4d, 0x44), "'_CMD'"),
            (B_PACK_CHARS(0x5f, 0x4e, 0x54, 0x46), "'_NTF'"),
            (B_PACK_CHARS(0x5f, 0x53, 0x50, 0x52), "'_SPR'"),
            (B_PACK_CHARS(0x5f, 0x45, 0x58, 0x54), "'_EXT'"),
            (B_PACK_CHARS(0x5f, 0x50, 0x49, 0x44), "'_PID'"),
            (B_PACK_CHARS(0x5f, 0x52, 0x50, 0x43), "'_RPC'"),
            (B_PACK_CHARS(0x5f, 0x54, 0x57, 0x54), "'_TWT'"),
            (B_PACK_CHARS(0x5f, 0x4c, 0x49, 0x4b), "'_LIK'"),
        ];
        assert(forall|i: int| 0 <= i < 12 ==> #[trigger] names@[i].0 == known_codes()[i].0 && names@[i].1@ == known_codes()[i].1);
        let mut i: usize = 0;
        while i < 12
            invariant
                i <= 12,
                forall|j: int| 0 <= j < 12 ==> #[trigger] names@[j].0 == known_codes()[j].0 && names@[j].1@ == known_codes()[j].1,
                forall|j: int| 0 <= j < i ==> #[trigger] known_codes()[j].0 != self.code,
            decreases 12 - i,
        {
            if names[i].0 == self.code {
                assert(known_codes()[i as int].1 == names@[i as int].1@);
                return Some(names[i].1);
            }
            i = i + 1;
        }
        None
    }
}

} // verus!
