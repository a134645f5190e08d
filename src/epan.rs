//! How the viewer is told to display each field: its value type and its format.
use vstd::prelude::*;

use crate::binder::is;
use vstd::string::StringExecFns;

verus! {

/// The value type of a displayed field.
#[derive(Debug, Clone, Copy, PartialEq, Eq, Structural)]
pub enum FtEnum {
    /// A text label with no value.
    Label,
    Protocol,
    Boolean,
    /// One octet shown as a character.
    Char,
    U8,
    U16,
    U32,
    U64,
    I8,
    I16,
    I32,
    I64,
    AbsoulteTime,
    RelativeTime,
    /// A counted string, with no terminator.
    String,
    /// A zero-terminated string.
    StringZ,
    Ether,
    Bytes,
    IPv4,
    IPv6,
    /// A `u32` that refers to a frame number.
    FrameNum,
    Guid,
}

/// The display format of a field.
#[derive(Debug, Clone, Copy, PartialEq, Eq, Structural, Default)]
pub enum FieldDisplay {
    #[default]
    Plain,
    Dec,
    Hex,
    Oct,
    DecHex,
    HexDec,
    Custom,
    StrAsciis,
    StrUnicode,
    SepDot,
    SepDash,
    SepColon,
    SepSpace,
}

/// The value type named `s`; integer types also go by their Rust names.
pub open spec fn ft_of_name(s: Seq<char>) -> Option<FtEnum> {
    if s == "None"@ {
        Some(FtEnum::Label)
    } else if s == "Protocol"@ {
        Some(FtEnum::Protocol)
    } else if s == "Boolean"@ {
        Some(FtEnum::Boolean)
    } else if s == "Char"@ {
        Some(FtEnum::Char)
    } else if s == "u8"@ || s == "U8"@ {
        Some(FtEnum::U8)
    } else if s == "u16"@ || s == "U16"@ {
        Some(FtEnum::U16)
    } else if s == "u32"@ || s == "U32"@ {
        Some(FtEnum::U32)
    } else if s == "i8"@ || s == "I8"@ {
        Some(FtEnum::I8)
    } else if s == "i16"@ || s == "I16"@ {
        Some(FtEnum::I16)
    } else if s == "i32"@ || s == "I32"@ {
        Some(FtEnum::I32)
    } else if s == "u64"@ || s == "usize"@ || s == "U64"@ {
        Some(FtEnum::U64)
    } else if s == "i64"@ || s == "isize"@ || s == "I64"@ {
        Some(FtEnum::I64)
    } else if s == "AbsoluteTime"@ {
        Some(FtEnum::AbsoulteTime)
    } else if s == "RelativeTime"@ {
        Some(FtEnum::RelativeTime)
    } else if s == "String"@ {
        Some(FtEnum::String)
    } else if s == "StringZ"@ {
        Some(FtEnum::StringZ)
    } else if s == "Ether"@ {
        Some(FtEnum::Ether)
    } else if s == "Bytes"@ {
        Some(FtEnum::Bytes)
    } else if s == "IPv4"@ {
        Some(FtEnum::IPv4)
    } else if s == "IPv6"@ {
        Some(FtEnum::IPv6)
    } else if s == "FrameNum"@ {
        Some(FtEnum::FrameNum)
    } else if s == "Guid"@ {
        Some(FtEnum::Guid)
    } else {
        None
    }
}

/// The canonical name of a value type.
pub open spec fn ft_name(t: FtEnum) -> Seq<char> {
    match t {
        FtEnum::Label => "None"@,
        FtEnum::Protocol => "Protocol"@,
        FtEnum::Boolean => "Boolean"@,
        FtEnum::Char => "Char"@,
        FtEnum::U8 => "U8"@,
        FtEnum::U16 => "U16"@,
        FtEnum::U32 => "U32"@,
        FtEnum::U64 => "U64"@,
        FtEnum::I8 => "I8"@,
        FtEnum::I16 => "I16"@,
        FtEnum::I32 => "I32"@,
        FtEnum::I64 => "I64"@,
        FtEnum::AbsoulteTime => "AbsoluteTime"@,
        FtEnum::RelativeTime => "RelativeTime"@,
        FtEnum::String => "String"@,
        FtEnum::StringZ => "StringZ"@,
        FtEnum::Ether => "Ether"@,
        FtEnum::Bytes => "Bytes"@,
        FtEnum::IPv4 => "IPv4"@,
        FtEnum::IPv6 => "IPv6"@,
        FtEnum::FrameNum => "FrameNum"@,
        FtEnum::Guid => "Guid"@,
    }
}

impl FtEnum {
    /// The value type named `value`, or `None` when no type has that name.
    pub fn from_name(value: &str) -> (r: Option<FtEnum>)
        ensures
            r == ft_of_name(value@),
    {
        let v = value.to_owned();
        if is(&v, "None") {
            Some(FtEnum::Label)
        } else if is(&v, "Protocol") {
            Some(FtEnum::Protocol)
        } else if is(&v, "Boolean") {
            Some(FtEnum::Boolean)
        } else if is(&v, "Char") {
            Some(FtEnum::Char)
        } else if is(&v, "u8") || is(&v, "U8") {
            Some(FtEnum::U8)
        } else if is(&v, "u16") || is(&v, "U16") {
            Some(FtEnum::U16)
        } else if is(&v, "u32") || is(&v, "U32") {
            Some(FtEnum::U32)
        } else if is(&v, "i8") || is(&v, "I8") {
            Some(FtEnum::I8)
        } else if is(&v, "i16") || is(&v, "I16") {
            Some(FtEnum::I16)
        } else if is(&v, "i32") || is(&v, "I32") {
            Some(FtEnum::I32)
        } else if is(&v, "u64") || is(&v, "usize") || is(&v, "U64") {
            Some(FtEnum::U64)
        } else if is(&v, "i64") || is(&v, "isize") || is(&v, "I64") {
            Some(FtEnum::I64)
        } else if is(&v, "AbsoluteTime") {
            Some(FtEnum::AbsoulteTime)
        } else if is(&v, "RelativeTime") {
            Some(FtEnum::RelativeTime)
        } else if is(&v, "String") {
            Some(FtEnum::String)
        } else if is(&v, "StringZ") {
            Some(FtEnum::StringZ)
        } else if is(&v, "Ether") {
            Some(FtEnum::Ether)
        } else if is(&v, "Bytes") {
            Some(FtEnum::Bytes)
        } else if is(&v, "IPv4") {
            Some(FtEnum::IPv4)
        } else if is(&v, "IPv6") {
            Some(FtEnum::IPv6)
        } else if is(&v, "FrameNum") {
            Some(FtEnum::FrameNum)
        } else if is(&v, "Guid") {
            Some(FtEnum::Guid)
        } else {
            None
        }
    }

    /// The canonical name of the value type.
    pub fn name(&self) -> (r: &'static str)
        ensures
            r@ == ft_name(*self),
    {
        match self {
            FtEnum::Label => "None",
            FtEnum::Protocol => "Protocol",
            FtEnum::Boolean => "Boolean",
            FtEnum::Char => "Char",
            FtEnum::U8 => "U8",
            FtEnum::U16 => "U16",
            FtEnum::U32 => "U32",
            FtEnum::U64 => "U64",
            FtEnum::I8 => "I8",
            FtEnum::I16 => "I16",
            FtEnum::I32 => "I32",
            FtEnum::I64 => "I64",
            FtEnum::AbsoulteTime => "AbsoluteTime",
            FtEnum::RelativeTime => "RelativeTime",
            FtEnum::String => "String",
            FtEnum::StringZ => "StringZ",
            FtEnum::Ether => "Ether",
            FtEnum::Bytes => "Bytes",
            FtEnum::IPv4 => "IPv4",
            FtEnum::IPv6 => "IPv6",
            FtEnum::FrameNum => "FrameNum",
            FtEnum::Guid => "Guid",
        }
    }
}

/// The abbreviation of a sub-field: the parent's abbreviation, a dot, the suffix.
pub fn concat_abbrev(abbrev: &String, suffix: &str) -> (r: String)
    ensures
        r@ == abbrev@ + "."@ + suffix@,
{
    abbrev.clone().concat(".").concat(suffix)
}

} // verus!
