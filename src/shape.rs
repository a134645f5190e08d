//! Record shapes (how a type is laid out on the wire) and the values they hold.
use vstd::prelude::*;

use crate::wire::{pow256, lemma_pow256_8};

verus! {

/// A fixed-width integer or a boolean.
#[derive(Debug, Clone, Copy, PartialEq, Eq, Structural)]
pub enum ScalarKind {
    U8,
    U16,
    U32,
    U64,
    I8,
    I16,
    I32,
    I64,
    Bool,
}

/// How a type is laid out on the wire.
#[derive(Debug)]
pub enum Shape {
    /// A fixed-width integer or a boolean.
    Scalar(ScalarKind),
    /// Named fields, back to back in declaration order.
    Struct { name: String, fields: Vec<FieldShape> },
    /// A one-byte presence flag, then the inner value when present.
    Opt(Box<Shape>),
    /// A `u16` element count, then that many elements.
    Collection(Box<Shape>),
    /// Exactly `n` elements, with no length prefix.
    FixedArray(usize, Box<Shape>),
    /// A byte collection that must hold UTF-8.
    Text,
    /// An integer of the given width that must be one of the listed variants.
    Enum { repr: ScalarKind, variants: Vec<i128> },
}

/// One declared field of a struct shape.
#[derive(Debug)]
pub struct FieldShape {
    pub name: String,
    pub shape: Shape,
}

/// A decoded value. Integers of every width (and enum variants) are `Int`.
#[derive(Debug)]
pub enum Value {
    Int(i128),
    Bool(bool),
    Struct(Vec<Value>),
    Opt(Option<Box<Value>>),
    List(Vec<Value>),
    Text(Vec<u8>),
}

/// The mathematical content of a `Value`.
pub enum SValue {
    Int(int),
    Bool(bool),
    Struct(Seq<SValue>),
    Opt(Option<Box<SValue>>),
    List(Seq<SValue>),
    Text(Seq<u8>),
}

pub open spec fn sv(v: Value) -> SValue
    decreases v,
{
    match v {
        Value::Int(i) => SValue::Int(i as int),
        Value::Bool(b) => SValue::Bool(b),
        Value::Struct(vs) => SValue::Struct(sv_list(vs@)),
        Value::Opt(o) => match o {
            Some(b) => SValue::Opt(Some(Box::new(sv(*b)))),
            None => SValue::Opt(None),
        },
        Value::List(vs) => SValue::List(sv_list(vs@)),
        Value::Text(b) => SValue::Text(b@),
    }
}

pub open spec fn sv_list(vs: Seq<Value>) -> Seq<SValue>
    decreases vs,
{
    if vs.len() == 0 {
        Seq::empty()
    } else {
        sv_list(vs.subrange(0, vs.len() - 1)).push(sv(vs[vs.len() - 1]))
    }
}

impl View for Value {
    type V = SValue;

    open spec fn view(&self) -> SValue {
        sv(*self)
    }
}

pub proof fn lemma_sv_list_len(vs: Seq<Value>)
    ensures
        sv_list(vs).len() == vs.len(),
    decreases vs.len(),
{
    if vs.len() > 0 {
        lemma_sv_list_len(vs.subrange(0, vs.len() - 1));
    }
}

pub proof fn lemma_sv_list_push(vs: Seq<Value>, v: Value)
    ensures
        sv_list(vs.push(v)) == sv_list(vs).push(sv(v)),
{
    assert(vs.push(v).subrange(0, vs.len() as int) =~= vs);
}

pub proof fn lemma_sv_list_index(vs: Seq<Value>, i: int)
    requires
        0 <= i < vs.len(),
    ensures
        sv_list(vs).len() == vs.len(),
        sv_list(vs)[i] == sv(vs[i]),
    decreases vs.len(),
{
    lemma_sv_list_len(vs);
    if i < vs.len() - 1 {
        lemma_sv_list_index(vs.subrange(0, vs.len() - 1), i);
    }
}

/// Byte width of a scalar on the wire.
pub open spec fn width(k: ScalarKind) -> nat {
    match k {
        ScalarKind::U8 | ScalarKind::I8 | ScalarKind::Bool => 1,
        ScalarKind::U16 | ScalarKind::I16 => 2,
        ScalarKind::U32 | ScalarKind::I32 => 4,
        ScalarKind::U64 | ScalarKind::I64 => 8,
    }
}

pub open spec fn is_signed(k: ScalarKind) -> bool {
    k is I8 || k is I16 || k is I32 || k is I64
}

/// The integer that the raw little-endian number `raw` stands for
/// (two's complement for the signed kinds).
pub open spec fn int_of(k: ScalarKind, raw: nat) -> int {
    if is_signed(k) && raw >= pow256(width(k)) / 2 {
        raw - pow256(width(k))
    } else {
        raw as int
    }
}

/// The raw little-endian number written for the integer `v`.
pub open spec fn raw_of(k: ScalarKind, v: int) -> nat {
    if v < 0 {
        (v + pow256(width(k))) as nat
    } else {
        v as nat
    }
}

/// Whether `v` is representable in the kind.
pub open spec fn in_range(k: ScalarKind, v: int) -> bool {
    if is_signed(k) {
        -(pow256(width(k)) / 2) <= v < pow256(width(k)) / 2
    } else {
        0 <= v < pow256(width(k))
    }
}

pub proof fn lemma_pow256_width(k: ScalarKind)
    ensures
        pow256(width(k)) == match k {
            ScalarKind::U8 | ScalarKind::I8 | ScalarKind::Bool => 0x100nat,
            ScalarKind::U16 | ScalarKind::I16 => 0x1_0000nat,
            ScalarKind::U32 | ScalarKind::I32 => 0x1_0000_0000nat,
            ScalarKind::U64 | ScalarKind::I64 => 0x1_0000_0000_0000_0000nat,
        },
{
    reveal_with_fuel(pow256, 9);
    lemma_pow256_8();
}

impl ScalarKind {
    /// Byte width on the wire.
    pub fn width(&self) -> (r: usize)
        ensures
            r as nat == width(*self),
            1 <= r <= 8,
    {
        match self {
            ScalarKind::U8 | ScalarKind::I8 | ScalarKind::Bool => 1,
            ScalarKind::U16 | ScalarKind::I16 => 2,
            ScalarKind::U32 | ScalarKind::I32 => 4,
            ScalarKind::U64 | ScalarKind::I64 => 8,
        }
    }

    pub fn is_signed(&self) -> (r: bool)
        ensures
            r == is_signed(*self),
    {
        match self {
            ScalarKind::I8 | ScalarKind::I16 | ScalarKind::I32 | ScalarKind::I64 => true,
            _ => false,
        }
    }

    /// Whether `v` is representable in this kind.
    pub fn fits(&self, v: i128) -> (r: bool)
        ensures
            r == in_range(*self, v as int),
    {
        proof {
            lemma_pow256_width(*self);
        }
        match self {
            ScalarKind::U8 | ScalarKind::Bool => 0 <= v && v < 0x100,
            ScalarKind::U16 => 0 <= v && v < 0x1_0000,
            ScalarKind::U32 => 0 <= v && v < 0x1_0000_0000,
            ScalarKind::U64 => 0 <= v && v < 0x1_0000_0000_0000_0000,
            ScalarKind::I8 => -0x80 <= v && v < 0x80,
            ScalarKind::I16 => -0x8000 <= v && v < 0x8000,
            ScalarKind::I32 => -0x8000_0000 <= v && v < 0x8000_0000,
            ScalarKind::I64 => -0x8000_0000_0000_0000 <= v && v < 0x8000_0000_0000_0000,
        }
    }

    /// The integer that the raw number `raw` (read from `width` bytes) stands for.
    pub fn int_from_raw(&self, raw: u64) -> (r: i128)
        requires
            raw < pow256(width(*self)),
        ensures
            r as int == int_of(*self, raw as nat),
            in_range(*self, r as int),
    {
        proof {
            lemma_pow256_width(*self);
        }
        let w = self.width();
        if self.is_signed() {
            let full: i128 = if w == 8 {
                0x1_0000_0000_0000_0000i128
            } else if w == 4 {
                0x1_0000_0000i128
            } else if w == 2 {
                0x1_0000i128
            } else {
                0x100i128
            };
            if (raw as i128) >= full / 2 {
                raw as i128 - full
            } else {
                raw as i128
            }
        } else {
            raw as i128
        }
    }

    /// The raw number written for the integer `v`.
    pub fn raw_from_int(&self, v: i128) -> (r: u64)
        requires
            in_range(*self, v as int),
        ensures
            r as nat == raw_of(*self, v as int),
            r < pow256(width(*self)),
    {
        proof {
            lemma_pow256_width(*self);
        }
        let w = self.width();
        let full: i128 = if w == 8 {
            0x1_0000_0000_0000_0000i128
        } else if w == 4 {
            0x1_0000_0000i128
        } else if w == 2 {
            0x1_0000i128
        } else {
            0x100i128
        };
        if v < 0 {
            (v + full) as u64
        } else {
            v as u64
        }
    }
}

/// Encoding then decoding an in-range integer gives it back.
pub proof fn lemma_int_raw_round_trip(k: ScalarKind, v: int)
    requires
        in_range(k, v),
    ensures
        raw_of(k, v) < pow256(width(k)),
        int_of(k, raw_of(k, v)) == v,
{
    lemma_pow256_width(k);
}

} // verus!
