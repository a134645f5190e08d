use binderdump::de::{from_bytes, from_bytes_with_offsets, PlainDeserializer};
use binderdump::error::PlainSerializerError;
use binderdump::offsets::{FieldOffset, StructOffset};
use binderdump::ser::{to_bytes, PlainSerializer};
use binderdump::shape::{FieldShape, ScalarKind, Shape, Value};

fn scalar(k: ScalarKind) -> Shape {
    Shape::Scalar(k)
}

fn field(name: &str, shape: Shape) -> FieldShape {
    FieldShape { name: name.to_string(), shape }
}

fn structure(name: &str, fields: Vec<FieldShape>) -> Shape {
    Shape::Struct { name: name.to_string(), fields }
}

fn bytes_of(shape: Shape) -> Shape {
    Shape::Collection(Box::new(shape))
}

fn ival(v: i128) -> Value {
    Value::Int(v)
}

fn list(vs: &[i128]) -> Value {
    Value::List(vs.iter().map(|v| Value::Int(*v)).collect())
}

fn some(v: Value) -> Value {
    Value::Opt(Some(Box::new(v)))
}

fn fo(name: &str, offset: usize, size: usize, inner: Option<StructOffset>) -> FieldOffset {
    FieldOffset { field_name: name.to_string(), offset, size, inner_struct: inner.map(Box::new) }
}

fn so(name: &str, offset: usize, size: usize, fields: Vec<FieldOffset>) -> StructOffset {
    StructOffset { name: name.to_string(), offset, size, fields }
}

fn same<T: std::fmt::Debug>(a: &T, b: &T) -> bool {
    format!("{:?}", a) == format!("{:?}", b)
}

fn int_seq_shape() -> Shape {
    structure(
        "Test",
        vec![field("int", scalar(ScalarKind::U32)), field("seq", bytes_of(scalar(ScalarKind::U8)))],
    )
}

fn enum_shape(repr: ScalarKind, n: i128) -> Shape {
    Shape::Enum { repr, variants: (0..n).collect() }
}

#[test]
fn de_test_struct() {
    let test = b"\x03\x00\x00\x00\x03\x00\x01\x02\x03";
    let expected = Value::Struct(vec![ival(3), list(&[1, 2, 3])]);
    let result = from_bytes(&int_seq_shape(), test).unwrap();
    assert!(same(&result, &expected));
}

#[test]
fn test_empty_seq() {
    let shape = structure("Test", vec![field("seq", bytes_of(scalar(ScalarKind::U8)))]);
    let test = b"\x00\x00";
    let expected = Value::Struct(vec![list(&[])]);
    let (result, offsets) = from_bytes_with_offsets(&shape, test).unwrap();
    assert!(same(&result, &expected));
    let expected_offsets =
        so("Test", 0, 2, vec![fo("seq_len", 0, 2, None), fo("seq", 2, 0, None)]);
    assert!(same(&offsets.unwrap(), &expected_offsets));
}

#[test]
fn de_test_enum() {
    let test = b"\x01\x00";
    let result = from_bytes(&enum_shape(ScalarKind::I16, 3), test).unwrap();
    assert!(same(&result, &ival(1)));
}

#[test]
fn test_option() {
    let shape = structure(
        "Test",
        vec![
            field("option", Shape::Opt(Box::new(scalar(ScalarKind::I32)))),
            field("option2", Shape::Opt(Box::new(bytes_of(scalar(ScalarKind::U8))))),
        ],
    );
    let test = b"\x01\x05\x00\x00\x00\x00";
    let expected = Value::Struct(vec![some(ival(5)), Value::Opt(None)]);
    assert!(same(&from_bytes(&shape, test).unwrap(), &expected));
}

#[test]
fn de_test_array() {
    let shape = structure(
        "Test",
        vec![field("array", Shape::FixedArray(3, Box::new(scalar(ScalarKind::U8))))],
    );
    let test = b"abc";
    let expected = Value::Struct(vec![list(&[b'a' as i128, b'b' as i128, b'c' as i128])]);
    assert!(same(&from_bytes(&shape, test).unwrap(), &expected));
}

fn inner_test_shape() -> Shape {
    structure(
        "InnerTest",
        vec![
            field("num", scalar(ScalarKind::I16)),
            field("inner", structure("InnerInnerTest", vec![field("num", scalar(ScalarKind::U8))])),
        ],
    )
}

#[test]
fn test_offsets() {
    let shape = structure(
        "Test",
        vec![
            field("array", Shape::FixedArray(3, Box::new(scalar(ScalarKind::U8)))),
            field("bytes", bytes_of(scalar(ScalarKind::U8))),
            field("inner", Shape::Opt(Box::new(inner_test_shape()))),
            field("inner2", inner_test_shape()),
        ],
    );
    let test = b"abc\x01\x00\x01\x01\x03\x00\x01\x02\x00\x06";
    let (result, offsets) = from_bytes_with_offsets(&shape, test).unwrap();
    let expected = Value::Struct(vec![
        list(&[b'a' as i128, b'b' as i128, b'c' as i128]),
        list(&[1]),
        some(Value::Struct(vec![ival(3), Value::Struct(vec![ival(1)])])),
        Value::Struct(vec![ival(2), Value::Struct(vec![ival(6)])]),
    ]);
    assert!(same(&result, &expected));

    let inner_at = |base: usize| {
        so(
            "InnerTest",
            base,
            3,
            vec![
                fo("num", base, 2, None),
                fo(
                    "inner",
                    base + 2,
                    1,
                    Some(so("InnerInnerTest", base + 2, 1, vec![fo("num", base + 2, 1, None)])),
                ),
            ],
        )
    };
    let expected_offsets = so(
        "Test",
        0,
        13,
        vec![
            fo("array", 0, 3, None),
            fo("bytes_len", 3, 2, None),
            fo("bytes", 5, 1, None),
            fo("inner_is_present", 6, 1, None),
            fo("inner", 7, 3, Some(inner_at(7))),
            fo("inner2", 10, 3, Some(inner_at(10))),
        ],
    );
    assert!(same(&offsets.unwrap(), &expected_offsets));
}

#[test]
fn test_offsets_option_none() {
    let shape = structure(
        "Test",
        vec![
            field(
                "inner",
                Shape::Opt(Box::new(structure(
                    "TestInner",
                    vec![field("foo", scalar(ScalarKind::U32))],
                ))),
            ),
            field("bar", scalar(ScalarKind::U8)),
        ],
    );
    let test = b"\x00\x03";
    let expected = Value::Struct(vec![Value::Opt(None), ival(3)]);
    let expected_offsets =
        so("Test", 0, 2, vec![fo("inner_is_present", 0, 1, None), fo("bar", 1, 1, None)]);
    let result = from_bytes_with_offsets(&shape, test).unwrap();
    assert!(same(&result.0, &expected));
    assert!(same(&result.1.unwrap(), &expected_offsets));
}

#[test]
fn ser_test_struct() {
    let test = Value::Struct(vec![ival(3), list(&[1, 2, 3])]);
    let expected = b"\x03\x00\x00\x00\x03\x00\x01\x02\x03";
    assert_eq!(to_bytes(&int_seq_shape(), &test).unwrap(), expected.to_vec());
}

#[test]
fn ser_test_enum() {
    let expected = b"\x01\x00";
    assert_eq!(to_bytes(&enum_shape(ScalarKind::I16, 3), &ival(1)).unwrap(), expected.to_vec());
}

fn full_test_shape() -> Shape {
    let test_enum = enum_shape(ScalarKind::U32, 2);
    structure(
        "Test",
        vec![
            field("int", scalar(ScalarKind::U32)),
            field("seq", bytes_of(scalar(ScalarKind::U8))),
            field("str", Shape::Text),
            field("en", test_enum.clone_shape()),
            field("inner", structure("TestInner", vec![field("en", test_enum)])),
            field("option", Shape::Opt(Box::new(scalar(ScalarKind::U16)))),
            field("array", Shape::FixedArray(2, Box::new(scalar(ScalarKind::U8)))),
        ],
    )
}

trait CloneShape {
    fn clone_shape(&self) -> Shape;
}

impl CloneShape for Shape {
    fn clone_shape(&self) -> Shape {
        match self {
            Shape::Enum { repr, variants } => Shape::Enum { repr: *repr, variants: variants.clone() },
            _ => unreachable!(),
        }
    }
}

#[test]
fn test_se_des() {
    let test = Value::Struct(vec![
        ival(0xff),
        list(&[3, 2, 1]),
        Value::Text(b"Hello".to_vec()),
        ival(0),
        Value::Struct(vec![ival(1)]),
        some(ival(9000)),
        list(&[1, 2]),
    ]);
    let shape = full_test_shape();
    let bytes = to_bytes(&shape, &test).unwrap();
    let result = from_bytes(&shape, &bytes).unwrap();
    assert!(same(&result, &test));
}

#[test]
fn test_des_se() {
    let bytes =
        b"\xff\x00\x00\x00\x03\x00\x03\x02\x01\x05\x00Hello\x00\x00\x00\x00\x01\x00\x00\x00\x00\x01\x02";
    let shape = full_test_shape();
    let test = from_bytes(&shape, bytes).unwrap();
    let result = to_bytes(&shape, &test).unwrap();
    assert_eq!(bytes.to_vec(), result);
}

#[test]
fn test_compile() {
    let des = PlainDeserializer::new(b"");
    assert!(matches!(des.take_offsets(), Err(PlainSerializerError::NoResult)));
    let ser = PlainSerializer::new();
    assert!(ser.into_bytes().is_empty());
}
