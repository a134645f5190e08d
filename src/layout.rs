//! Offset trees of fixed-size structs, known without decoding anything.
use vstd::prelude::*;

use crate::de::{spec_decode, spec_decode_fields, spec_decode_many};
use crate::offsets::{FieldOffset, StructOffset};
use crate::shape::{width, FieldShape, Shape};

verus! {

/// The number of bytes every value of `shape` takes, when that does not depend on
/// the value (no option, collection or text inside).
pub open spec fn static_size(shape: Shape) -> Option<nat>
    decreases shape, 0int,
{
    match shape {
        Shape::Scalar(k) => Some(width(k)),
        Shape::Enum { repr, variants } => Some(width(repr)),
        Shape::FixedArray(n, inner) => match static_size(*inner) {
            Some(z) => Some((n * z) as nat),
            None => None,
        },
        Shape::Struct { name, fields } => fields_size_upto(fields@, fields@.len() as int),
        _ => None,
    }
}

/// The bytes taken by the first `n` fields, when all of them have a fixed size.
pub open spec fn fields_size_upto(fields: Seq<FieldShape>, n: int) -> Option<nat>
    decreases fields, n,
{
    if n <= 0 || n > fields.len() {
        Some(0)
    } else {
        match (fields_size_upto(fields, n - 1), static_size(fields[n - 1].shape)) {
            (Some(a), Some(b)) => Some(a + b),
            _ => None,
        }
    }
}

/// `so` is the struct shape `shape` laid out from `base`: each field right after
/// the one before it, nested structs laid out in turn.
pub open spec fn laid_out(so: StructOffset, shape: Shape, base: nat) -> bool
    decreases shape,
{
    match shape {
        Shape::Struct { name, fields } => {
            &&& so.name == name
            &&& so.offset == base
            &&& static_size(shape) == Some(so.size as nat)
            &&& so.fields@.len() == fields@.len()
            &&& forall|i: int|
                0 <= i < fields@.len() ==> {
                    let f = #[trigger] so.fields@[i];
                    &&& f.field_name == fields@[i].name
                    &&& fields_size_upto(fields@, i) matches Some(p) && f.offset == base + p
                    &&& static_size(fields@[i].shape) == Some(f.size as nat)
                    &&& fields@[i].shape is Struct ==> (f.inner_struct matches Some(b) && laid_out(
                        *b,
                        fields@[i].shape,
                        f.offset as nat,
                    ))
                    &&& !(fields@[i].shape is Struct) ==> f.inner_struct.is_none()
                }
        },
        _ => false,
    }
}

/// A fixed total fixes every prefix, each no larger than the total, and each field.
pub proof fn lemma_fields_size_prefix(fields: Seq<FieldShape>, n: int, i: int)
    requires
        0 <= i < n <= fields.len(),
        fields_size_upto(fields, n) is Some,
    ensures
        fields_size_upto(fields, i) is Some,
        static_size(fields[i].shape) is Some,
        fields_size_upto(fields, i + 1) == Some(
            fields_size_upto(fields, i)->Some_0 + static_size(fields[i].shape)->Some_0,
        ),
        fields_size_upto(fields, i + 1)->Some_0 <= fields_size_upto(fields, n)->Some_0,
    decreases n - i,
{
    if i + 1 < n {
        lemma_fields_size_prefix(fields, n - 1, i);
    }
}

/// The fixed size of `shape` in bytes, or `None` when it has none or it exceeds
/// the address space.
pub fn size_of_shape(shape: &Shape) -> (r: Option<usize>)
    ensures
        r matches Some(z) ==> static_size(*shape) == Some(z as nat),
        r is None ==> static_size(*shape) is None || static_size(*shape)->Some_0 > usize::MAX,
    decreases shape, 0int,
{
    match shape {
        Shape::Scalar(k) => Some(k.width()),
        Shape::Enum { repr, variants } => Some(repr.width()),
        Shape::FixedArray(n, inner) => match size_of_shape(inner) {
            Some(z) => {
                let total = n.checked_mul(z);
                proof {
                    if total is None {
                        assert(*n as nat * z as nat > usize::MAX);
                    }
                }
                total
            },
            None => {
                proof {
                    if static_size(**inner) is Some {
                        let z = static_size(**inner)->Some_0;
                        if *n > 0 {
                            assert(*n as nat * z >= z) by (nonlinear_arith)
                                requires
                                    *n > 0,
                            ;
                        }
                    }
                }
                if *n == 0 {
                    match static_size_exists(inner) {
                        true => Some(0),
                        false => None,
                    }
                } else {
                    None
                }
            },
        },
        Shape::Struct { name, fields } => size_of_fields(fields),
        _ => None,
    }
}

/// Whether `shape` has a fixed size at all, however large.
fn static_size_exists(shape: &Shape) -> (r: bool)
    ensures
        r == static_size(*shape) is Some,
    decreases shape, 0int,
{
    match shape {
        Shape::Scalar(_) | Shape::Enum { .. } => true,
        Shape::FixedArray(_, inner) => static_size_exists(inner),
        Shape::Struct { name, fields } => fields_have_static_size(fields),
        _ => false,
    }
}

/// Whether every field has a fixed size.
fn fields_have_static_size(fields: &Vec<FieldShape>) -> (r: bool)
    ensures
        r == fields_size_upto(fields@, fields@.len() as int) is Some,
    decreases fields, 1int,
{
    let mut i: usize = 0;
    while i < fields.len()
        invariant
            i <= fields@.len(),
            fields_size_upto(fields@, i as int) is Some,
        decreases fields@.len() - i,
    {
        if !static_size_exists(&fields[i].shape) {
            proof {
                assert(fields_size_upto(fields@, i as int + 1) is None);
                lemma_fields_size_none(fields@, i as int + 1, fields@.len() as int);
            }
            return false;
        }
        i = i + 1;
    }
    true
}

/// Once a prefix has no fixed size, no longer prefix has one.
proof fn lemma_fields_size_none(fields: Seq<FieldShape>, i: int, n: int)
    requires
        0 < i <= n <= fields.len(),
        fields_size_upto(fields, i) is None,
    ensures
        fields_size_upto(fields, n) is None,
    decreases n - i,
{
    if i < n {
        lemma_fields_size_none(fields, i + 1, n);
    }
}

/// The fixed size of a list of fields, or `None` when one has none or the sum
/// exceeds the address space.
fn size_of_fields(fields: &Vec<FieldShape>) -> (r: Option<usize>)
    ensures
        r matches Some(z) ==> fields_size_upto(fields@, fields@.len() as int) == Some(z as nat),
        r is None ==> fields_size_upto(fields@, fields@.len() as int) is None
            || fields_size_upto(fields@, fields@.len() as int)->Some_0 > usize::MAX,
    decreases fields, 1int,
{
    let mut total: usize = 0;
    let mut i: usize = 0;
    while i < fields.len()
        invariant
            i <= fields@.len(),
            fields_size_upto(fields@, i as int) == Some(total as nat),
        decreases fields@.len() - i,
    {
        match size_of_shape(&fields[i].shape) {
            Some(z) => {
                match total.checked_add(z) {
                    Some(t) => {
                        total = t;
                    },
                    None => {
                        proof {
                            lemma_fields_size_grows(fields@, i as int + 1, fields@.len() as int);
                        }
                        return None;
                    },
                }
            },
            None => {
                proof {
                    if static_size(fields@[i as int].shape) is Some {
                        lemma_fields_size_grows(fields@, i as int + 1, fields@.len() as int);
                    } else {
                        lemma_fields_size_none(fields@, i as int + 1, fields@.len() as int);
                    }
                }
                return None;
            },
        }
        i = i + 1;
    }
    Some(total)
}

/// Fixed sizes only grow as fields are added.
proof fn lemma_fields_size_grows(fields: Seq<FieldShape>, i: int, n: int)
    requires
        0 < i <= n <= fields.len(),
    ensures
        fields_size_upto(fields, i) is Some && fields_size_upto(fields, n) is Some
            ==> fields_size_upto(fields, i)->Some_0 <= fields_size_upto(fields, n)->Some_0,
        fields_size_upto(fields, i) is None ==> fields_size_upto(fields, n) is None,
    decreases n - i,
{
    if i < n {
        lemma_fields_size_grows(fields, i + 1, n);
    }
}

/// The offset tree of the struct shape `shape` placed at `base`, without decoding:
/// `None` when `shape` is not a struct of fixed size, or would end past the
/// address space.
pub fn const_offsets(shape: &Shape, base: usize) -> (r: Option<StructOffset>)
    ensures
        r is Some <==> (shape is Struct && static_size(*shape) is Some && base
            + static_size(*shape)->Some_0 <= usize::MAX),
        r matches Some(so) ==> laid_out(so, *shape, base as nat),
    decreases shape, 0int,
{
    match shape {
        Shape::Struct { name, fields } => struct_offsets(name, fields, base),
        _ => None,
    }
}

fn struct_offsets(name: &String, fields: &Vec<FieldShape>, base: usize) -> (r: Option<StructOffset>)
    ensures
        r is Some <==> (fields_size_upto(fields@, fields@.len() as int) is Some && base
            + fields_size_upto(fields@, fields@.len() as int)->Some_0 <= usize::MAX),
        r matches Some(so) ==> laid_out(so, Shape::Struct { name: *name, fields: *fields }, base as nat),
    decreases fields, 1int,
{
    let size = match size_of_fields(fields) {
        Some(z) => z,
        None => return None,
    };
    if size > usize::MAX - base {
        return None;
    }
    let n = fields.len();
    let mut out: Vec<FieldOffset> = Vec::new();
    let mut pos: usize = base;
    let mut i: usize = 0;
    while i < n
        invariant
            n == fields@.len(),
            i <= n,
            fields_size_upto(fields@, n as int) == Some(size as nat),
            base + size <= usize::MAX,
            fields_size_upto(fields@, i as int) matches Some(p) && pos == base + p,
            out@.len() == i,
            forall|k: int|
                0 <= k < i ==> {
                    let f = #[trigger] out@[k];
                    &&& f.field_name == fields@[k].name
                    &&& fields_size_upto(fields@, k) matches Some(p) && f.offset == base + p
                    &&& static_size(fields@[k].shape) == Some(f.size as nat)
                    &&& fields@[k].shape is Struct ==> (f.inner_struct matches Some(b) && laid_out(
                        *b,
                        fields@[k].shape,
                        f.offset as nat,
                    ))
                    &&& !(fields@[k].shape is Struct) ==> f.inner_struct.is_none()
                },
        decreases n - i,
    {
        proof {
            lemma_fields_size_prefix(fields@, n as int, i as int);
        }
        let field_size = match size_of_shape(&fields[i].shape) {
            Some(z) => z,
            None => return None,
        };
        let inner_struct = match &fields[i].shape {
            Shape::Struct { name: inner_name, fields: inner_fields } => match struct_offsets(
                inner_name,
                inner_fields,
                pos,
            ) {
                Some(so) => Some(Box::new(so)),
                None => return None,
            },
            _ => None,
        };
        out.push(
            FieldOffset { field_name: fields[i].name.clone(), offset: pos, size: field_size, inner_struct },
        );
        pos = pos + field_size;
        i = i + 1;
    }
    Some(StructOffset { name: name.clone(), offset: base, size, fields: out })
}

/// Decoding a value of a fixed-size shape consumes exactly its fixed size.
pub proof fn lemma_decode_static_size(shape: Shape, buf: Seq<u8>, pos: nat)
    requires
        static_size(shape) is Some,
        spec_decode(shape, buf, pos) is Ok,
    ensures
        spec_decode(shape, buf, pos)->Ok_0.1 == pos + static_size(shape)->Some_0,
    decreases shape, 0int,
{
    match shape {
        Shape::FixedArray(n, inner) => {
            lemma_decode_many_static_size(*inner, n as nat, buf, pos);
        },
        Shape::Struct { name, fields } => {
            lemma_decode_fields_static_size(fields@, 0, buf, pos);
        },
        _ => {},
    }
}

/// The element form of `lemma_decode_static_size`.
pub proof fn lemma_decode_many_static_size(elem: Shape, n: nat, buf: Seq<u8>, pos: nat)
    requires
        static_size(elem) is Some,
        spec_decode_many(elem, n, buf, pos) is Ok,
    ensures
        spec_decode_many(elem, n, buf, pos)->Ok_0.1 == pos + n * static_size(elem)->Some_0,
    decreases elem, n + 1,
{
    if n > 0 {
        let z = static_size(elem)->Some_0;
        lemma_decode_static_size(elem, buf, pos);
        lemma_decode_many_static_size(elem, (n - 1) as nat, buf, pos + z);
        assert(pos + z + (n - 1) * z == pos + n * z) by (nonlinear_arith);
    } else {
        let z = static_size(elem)->Some_0;
        assert(n * z == 0) by (nonlinear_arith)
            requires
                n == 0,
        ;
    }
}

/// The field form of `lemma_decode_static_size`, for `fields[i..]`.
pub proof fn lemma_decode_fields_static_size(fields: Seq<FieldShape>, i: int, buf: Seq<u8>, pos: nat)
    requires
        0 <= i <= fields.len(),
        fields_size_upto(fields, fields.len() as int) is Some,
        spec_decode_fields(fields, i, buf, pos) is Ok,
    ensures
        fields_size_upto(fields, i) is Some,
        spec_decode_fields(fields, i, buf, pos)->Ok_0.1 + fields_size_upto(fields, i)->Some_0 == pos
            + fields_size_upto(fields, fields.len() as int)->Some_0,
    decreases fields, fields.len() - i,
{
    if i < fields.len() {
        lemma_fields_size_prefix(fields, fields.len() as int, i);
        let z = static_size(fields[i].shape)->Some_0;
        lemma_decode_static_size(fields[i].shape, buf, pos);
        lemma_decode_fields_static_size(fields, i + 1, buf, pos + z);
    }
}





/// `a` and `b` hold the same names, offsets and sizes, at every level.
pub open spec fn same_tree(a: StructOffset, b: StructOffset) -> bool
    decreases a,
{
    &&& a.name == b.name
    &&& a.offset == b.offset
    &&& a.size == b.size
    &&& a.fields@.len() == b.fields@.len()
    &&& forall|i: int|
        0 <= i < a.fields@.len() ==> {
            let f = #[trigger] a.fields@[i];
            let g = b.fields@[i];
            &&& f.field_name == g.field_name
            &&& f.offset == g.offset
            &&& f.size == g.size
            &&& match (f.inner_struct, g.inner_struct) {
                (Some(x), Some(y)) => same_tree(*x, *y),
                (None, None) => true,
                _ => false,
            }
        }
}

/// A static layout is unique: two trees laid out for the same shape from the same
/// base agree on every name, offset and size.
pub proof fn lemma_layout_unique(a: StructOffset, b: StructOffset, shape: Shape, base: nat)
    requires
        laid_out(a, shape, base),
        laid_out(b, shape, base),
    ensures
        same_tree(a, b),
    decreases shape,
{
    if let Shape::Struct { name, fields } = shape {
        assert forall|i: int| 0 <= i < a.fields@.len() implies {
            let f = #[trigger] a.fields@[i];
            let g = b.fields@[i];
            &&& f.field_name == g.field_name
            &&& f.offset == g.offset
            &&& f.size == g.size
            &&& match (f.inner_struct, g.inner_struct) {
                (Some(x), Some(y)) => same_tree(*x, *y),
                (None, None) => true,
                _ => false,
            }
        } by {
            let f = a.fields@[i];
            let g = b.fields@[i];
            assert(f == a.fields@[i]);
            assert(g == b.fields@[i]);
            if fields@[i].shape is Struct {
                let x = *f.inner_struct->Some_0;
                let y = *g.inner_struct->Some_0;
                lemma_layout_unique(x, y, fields@[i].shape, f.offset as nat);
            }
        }
    }
}

} // verus!
