use binderdump::de::{from_bytes, from_bytes_with_offsets};
use binderdump::error::PlainSerializerError;
use binderdump::layout::{const_offsets, size_of_shape};
use binderdump::offsets::{FieldOffset, OffsetDeserializer, StructOffset};
use binderdump::ser::{to_bytes, PlainSerializer};
use binderdump::shape::{FieldShape, ScalarKind, Shape, Value};
use binderdump::wire::{read_le, write_le};

fn field(name: &str, shape: Shape) -> FieldShape {
    FieldShape { name: name.to_string(), shape }
}

fn structure(name: &str, fields: Vec<FieldShape>) -> Shape {
    Shape::Struct { name: name.to_string(), fields }
}

fn u8s() -> Shape {
    Shape::Collection(Box::new(Shape::Scalar(ScalarKind::U8)))
}

fn show<T: std::fmt::Debug>(a: &T) -> String {
    format!("{:?}", a)
}

fn fo(name: &str, offset: usize, size: usize, inner: Option<StructOffset>) -> FieldOffset {
    FieldOffset { field_name: name.to_string(), offset, size, inner_struct: inner.map(Box::new) }
}

fn so(name: &str, offset: usize, size: usize, fields: Vec<FieldOffset>) -> StructOffset {
    StructOffset { name: name.to_string(), offset, size, fields }
}

fn ordered(s: &StructOffset) -> bool {
    s.fields.windows(2).all(|w| w[0].offset + w[0].size <= w[1].offset)
        && s.fields.iter().all(|f| f.inner_struct.as_ref().map_or(true, |i| ordered(i)))
}

fn packed(s: &StructOffset) -> bool {
    s.fields.windows(2).all(|w| w[0].offset + w[0].size == w[1].offset)
        && s.fields.last().map_or(true, |l| l.offset + l.size == s.offset + s.size)
        && s.fields.iter().all(|f| f.inner_struct.as_ref().map_or(true, |i| packed(i)))
}

#[test]
fn struct_with_sequence_offsets() {
    let shape = structure(
        "Test",
        vec![field("int", Shape::Scalar(ScalarKind::U32)), field("seq", u8s())],
    );
    let (value, offsets) =
        from_bytes_with_offsets(&shape, b"\x03\x00\x00\x00\x03\x00\x01\x02\x03").unwrap();
    assert_eq!(
        show(&value),
        show(&Value::Struct(vec![
            Value::Int(3),
            Value::List(vec![Value::Int(1), Value::Int(2), Value::Int(3)])
        ]))
    );
    let expected = so(
        "Test",
        0,
        9,
        vec![fo("int", 0, 4, None), fo("seq_len", 4, 2, None), fo("seq", 6, 3, None)],
    );
    assert_eq!(show(&offsets.unwrap()), show(&expected));
}

#[test]
fn absent_option_offsets() {
    let shape =
        structure("Test", vec![field("option", Shape::Opt(Box::new(Shape::Scalar(ScalarKind::I32))))]);
    let (value, offsets) = from_bytes_with_offsets(&shape, b"\x00").unwrap();
    assert_eq!(show(&value), show(&Value::Struct(vec![Value::Opt(None)])));
    let expected = so("Test", 0, 1, vec![fo("option_is_present", 0, 1, None)]);
    assert_eq!(show(&offsets.unwrap()), show(&expected));
}

#[test]
fn present_option_starts_one_byte_later() {
    let shape =
        structure("Test", vec![field("option", Shape::Opt(Box::new(Shape::Scalar(ScalarKind::I32))))]);
    let (value, offsets) = from_bytes_with_offsets(&shape, b"\x01\xff\xff\xff\xff").unwrap();
    assert_eq!(show(&value), show(&Value::Struct(vec![Value::Opt(Some(Box::new(Value::Int(-1))))])));
    let expected =
        so("Test", 0, 5, vec![fo("option_is_present", 0, 1, None), fo("option", 1, 4, None)]);
    assert_eq!(show(&offsets.unwrap()), show(&expected));
}

#[test]
fn nested_struct_in_option_offsets() {
    let inner = structure("InnerTest", vec![field("num", Shape::Scalar(ScalarKind::I16))]);
    let shape = structure(
        "Test",
        vec![
            field("array", Shape::FixedArray(3, Box::new(Shape::Scalar(ScalarKind::U8)))),
            field("inner", Shape::Opt(Box::new(inner))),
        ],
    );
    let (value, offsets) = from_bytes_with_offsets(&shape, b"\x61\x62\x63\x01\x03\x00").unwrap();
    assert_eq!(
        show(&value),
        show(&Value::Struct(vec![
            Value::List(vec![Value::Int(0x61), Value::Int(0x62), Value::Int(0x63)]),
            Value::Opt(Some(Box::new(Value::Struct(vec![Value::Int(3)])))),
        ]))
    );
    let expected = so(
        "Test",
        0,
        6,
        vec![
            fo("array", 0, 3, None),
            fo("inner_is_present", 3, 1, None),
            fo("inner", 4, 2, Some(so("InnerTest", 4, 2, vec![fo("num", 4, 2, None)]))),
        ],
    );
    let offsets = offsets.unwrap();
    assert_eq!(show(&offsets), show(&expected));
    assert!(ordered(&offsets));
    assert!(packed(&offsets));
}

#[test]
fn oversized_collection_fails_to_encode() {
    let shape = structure("Test", vec![field("seq", u8s())]);
    let value = Value::Struct(vec![Value::List((0..65536).map(|_| Value::Int(0)).collect())]);
    assert!(matches!(to_bytes(&shape, &value), Err(PlainSerializerError::TooBig(65536))));
    let mut ser = PlainSerializer::new();
    let Value::Struct(fields) = &value else { unreachable!() };
    assert!(matches!(ser.serialize(&u8s(), &fields[0]), Err(PlainSerializerError::TooBig(65536))));
    assert!(ser.into_bytes().is_empty());
    let largest = Value::Struct(vec![Value::List((0..65535).map(|_| Value::Int(7)).collect())]);
    let bytes = to_bytes(&shape, &largest).unwrap();
    assert_eq!(bytes.len(), 2 + 65535);
    assert_eq!(&bytes[..2], b"\xff\xff");
}

#[test]
fn round_trip_of_every_shape() {
    let text = Shape::Text;
    let shape = structure(
        "All",
        vec![
            field("a", Shape::Scalar(ScalarKind::I8)),
            field("b", Shape::Scalar(ScalarKind::I64)),
            field("c", Shape::Scalar(ScalarKind::U64)),
            field("d", Shape::Scalar(ScalarKind::Bool)),
            field("e", text),
            field("f", Shape::Collection(Box::new(structure("P", vec![field("x", Shape::Scalar(ScalarKind::U16))])))),
            field("g", Shape::Enum { repr: ScalarKind::U8, variants: vec![0, 1, 2] }),
            field("h", Shape::Opt(Box::new(Shape::Opt(Box::new(Shape::Scalar(ScalarKind::I32)))))),
        ],
    );
    let value = Value::Struct(vec![
        Value::Int(-128),
        Value::Int(i64::MIN as i128),
        Value::Int(u64::MAX as i128),
        Value::Bool(true),
        Value::Text("héllo".as_bytes().to_vec()),
        Value::List(vec![Value::Struct(vec![Value::Int(65535)])]),
        Value::Int(2),
        Value::Opt(Some(Box::new(Value::Opt(None)))),
    ]);
    let bytes = to_bytes(&shape, &value).unwrap();
    assert_eq!(bytes[0], 0x80);
    assert_eq!(&bytes[1..9], &[0, 0, 0, 0, 0, 0, 0, 0x80]);
    assert_eq!(&bytes[9..17], &[0xff; 8]);
    assert_eq!(bytes[17], 1);
    let decoded = from_bytes(&shape, &bytes).unwrap();
    assert_eq!(show(&decoded), show(&value));
}

#[test]
fn root_size_is_bytes_consumed_not_buffer_length() {
    let shape = structure("T", vec![field("x", Shape::Scalar(ScalarKind::U16))]);
    let (_, offsets) = from_bytes_with_offsets(&shape, b"\x01\x02\x03\x04").unwrap();
    let offsets = offsets.unwrap();
    assert_eq!(offsets.offset, 0);
    assert_eq!(offsets.size, 2);
}

#[test]
fn options_inside_a_collection_overlap() {
    let shape = structure(
        "T",
        vec![field("f", Shape::Collection(Box::new(Shape::Opt(Box::new(Shape::Scalar(ScalarKind::U8))))))],
    );
    let (_, offsets) = from_bytes_with_offsets(&shape, b"\x02\x00\x01\x05\x01\x06").unwrap();
    let offsets = offsets.unwrap();
    let expected = so(
        "T",
        0,
        6,
        vec![
            fo("f_len", 0, 2, None),
            fo("f_is_present", 2, 1, None),
            fo("f_is_present", 4, 1, None),
            fo("f", 4, 2, None),
        ],
    );
    assert_eq!(show(&offsets), show(&expected));
    assert!(!ordered(&offsets));
    assert!(!packed(&offsets));
}

#[test]
fn repeated_nested_structs_in_one_field() {
    let elem = structure("E", vec![field("x", Shape::Scalar(ScalarKind::U8))]);
    let shape = structure("T", vec![field("items", Shape::Collection(Box::new(elem)))]);
    let (value, offsets) = from_bytes_with_offsets(&shape, b"\x02\x00\x07\x08").unwrap();
    assert_eq!(
        show(&value),
        show(&Value::Struct(vec![Value::List(vec![
            Value::Struct(vec![Value::Int(7)]),
            Value::Struct(vec![Value::Int(8)])
        ])]))
    );
    assert!(matches!(offsets, Err(PlainSerializerError::DoubleInnerStruct)));
    let (_, single) = from_bytes_with_offsets(&shape, b"\x01\x00\x07").unwrap();
    let expected = so(
        "T",
        0,
        3,
        vec![
            fo("items_len", 0, 2, None),
            fo("items", 2, 1, Some(so("E", 2, 1, vec![fo("x", 2, 1, None)]))),
        ],
    );
    assert_eq!(show(&single.unwrap()), show(&expected));
}

#[test]
fn top_level_values_that_are_not_structs() {
    let (v, offsets) = from_bytes_with_offsets(&u8s(), b"\x01\x00\x09").unwrap();
    assert_eq!(show(&v), show(&Value::List(vec![Value::Int(9)])));
    assert!(matches!(offsets, Err(PlainSerializerError::EmptyStructStack)));
    let pair = Shape::FixedArray(2, Box::new(structure("E", vec![field("x", Shape::Scalar(ScalarKind::U8))])));
    let (_, offsets) = from_bytes_with_offsets(&pair, b"\x01\x02").unwrap();
    assert!(matches!(offsets, Err(PlainSerializerError::TooManyStructs)));
    let (_, offsets) = from_bytes_with_offsets(&Shape::Scalar(ScalarKind::U8), b"\x01").unwrap();
    assert!(matches!(offsets, Err(PlainSerializerError::NoResult)));
}

#[test]
fn decode_failures() {
    let shape = structure("T", vec![field("x", Shape::Scalar(ScalarKind::U32))]);
    assert!(matches!(from_bytes(&shape, b"\x01\x02\x03"), Err(PlainSerializerError::UnexpectedEof)));
    assert!(matches!(from_bytes(&u8s(), b"\x03\x00\x01"), Err(PlainSerializerError::UnexpectedEof)));
    assert!(matches!(from_bytes(&Shape::Text, b"\x02\x00\xc3\x28"), Err(PlainSerializerError::Utf8Error)));
    let text = from_bytes(&Shape::Text, b"\x02\x00\xc3\xa9").unwrap();
    assert_eq!(show(&text), show(&Value::Text("é".as_bytes().to_vec())));
    let en = Shape::Enum { repr: ScalarKind::I16, variants: vec![0, 1, 2] };
    assert!(matches!(from_bytes(&en, b"\x07\x00"), Err(PlainSerializerError::InvalidVariant(7))));
    assert!(matches!(from_bytes(&en, b"\xff\xff"), Err(PlainSerializerError::InvalidVariant(-1))));
    assert_eq!(show(&from_bytes(&Shape::Scalar(ScalarKind::Bool), b"\x05").unwrap()), show(&Value::Bool(true)));
    assert_eq!(show(&from_bytes(&Shape::Scalar(ScalarKind::I16), b"\x00\x80").unwrap()), show(&Value::Int(-32768)));
}

#[test]
fn encode_failures() {
    let en = Shape::Enum { repr: ScalarKind::U8, variants: vec![0, 1] };
    assert!(matches!(to_bytes(&en, &Value::Int(5)), Err(PlainSerializerError::InvalidVariant(5))));
    assert!(matches!(to_bytes(&en, &Value::Int(300)), Err(PlainSerializerError::ShapeMismatch)));
    assert!(matches!(
        to_bytes(&Shape::Scalar(ScalarKind::I8), &Value::Int(128)),
        Err(PlainSerializerError::ShapeMismatch)
    ));
    assert!(matches!(
        to_bytes(&Shape::Scalar(ScalarKind::U8), &Value::Bool(true)),
        Err(PlainSerializerError::ShapeMismatch)
    ));
    assert!(matches!(
        to_bytes(&Shape::Text, &Value::Text(vec![0xc3, 0x28])),
        Err(PlainSerializerError::Utf8Error)
    ));
    let arr = Shape::FixedArray(2, Box::new(Shape::Scalar(ScalarKind::U8)));
    assert!(matches!(to_bytes(&arr, &Value::List(vec![Value::Int(1)])), Err(PlainSerializerError::ShapeMismatch)));
    let shape = structure("T", vec![field("x", Shape::Scalar(ScalarKind::U8))]);
    assert!(matches!(to_bytes(&shape, &Value::Struct(vec![])), Err(PlainSerializerError::ShapeMismatch)));
    assert_eq!(to_bytes(&Shape::Scalar(ScalarKind::I16), &Value::Int(-2)).unwrap(), vec![0xfe, 0xff]);
    assert_eq!(to_bytes(&Shape::Opt(Box::new(Shape::Scalar(ScalarKind::U8))), &Value::Opt(None)).unwrap(), vec![0]);
    assert!(PlainSerializerError::DoubleInnerStruct.is_protocol_violation());
    assert!(!PlainSerializerError::UnexpectedEof.is_protocol_violation());
}

#[test]
fn tracker_protocol_errors() {
    let mut t = OffsetDeserializer::new();
    assert!(matches!(t.add_field(0), Err(PlainSerializerError::EmptyStructStack)));
    assert!(matches!(t.add_len(0, 2), Err(PlainSerializerError::EmptyStructStack)));
    assert!(matches!(t.finish_struct(0), Err(PlainSerializerError::EmptyStructStack)));
    t.begin_struct("S".to_string(), vec!["a".to_string()], 0).unwrap();
    assert!(matches!(t.add_option(0, 1, true), Err(PlainSerializerError::TooManyFields)));
    assert!(matches!(t.finish_struct(0), Err(PlainSerializerError::TooLittleFields)));
    t.add_field(4).unwrap();
    assert!(matches!(t.add_field(5), Err(PlainSerializerError::TooManyFields)));
    assert!(matches!(t.finish_struct(3), Err(PlainSerializerError::BackwardsOffset)));
    t.begin_struct("Inner".to_string(), vec![], 4).unwrap();
    assert!(matches!(t.add_len(usize::MAX, 2), Err(PlainSerializerError::TooManyFields)));
    t.finish_struct(4).unwrap();
    t.begin_struct("Inner".to_string(), vec![], 4).unwrap();
    assert!(matches!(t.finish_struct(4), Err(PlainSerializerError::DoubleInnerStruct)));
    assert!(matches!(OffsetDeserializer::new().take(), Err(PlainSerializerError::NoResult)));

    let mut u = OffsetDeserializer::new();
    u.begin_struct("Outer".to_string(), vec!["a".to_string()], 0).unwrap();
    u.begin_struct("Inner".to_string(), vec![], 0).unwrap();
    assert!(matches!(u.finish_struct(0), Err(PlainSerializerError::NoFields)));
    assert!(matches!(u.take(), Err(PlainSerializerError::UnexpectedFields)));

    let mut w = OffsetDeserializer::new();
    w.begin_struct("S".to_string(), vec!["a".to_string()], 0).unwrap();
    w.add_field(0).unwrap();
    w.add_len(0, 2).unwrap();
    w.finish_struct(5).unwrap();
    assert!(matches!(w.begin_struct("S".to_string(), vec![], 5), Err(PlainSerializerError::TooManyStructs)));
    let tree = w.take().unwrap();
    assert_eq!(show(&tree), show(&so("S", 0, 5, vec![fo("a_len", 0, 2, None), fo("a", 2, 3, None)])));

    let mut v = OffsetDeserializer::new();
    v.begin_struct("S".to_string(), vec!["a".to_string()], 0).unwrap();
    v.add_field(usize::MAX).unwrap();
    assert!(matches!(v.add_len(usize::MAX, 2), Err(PlainSerializerError::OffsetOverflow)));
}

#[test]
fn little_endian_primitives() {
    assert_eq!(read_le(b"\x01\x02\x03", 0, 2), Some(0x0201));
    assert_eq!(read_le(b"\x01\x02\x03", 1, 2), Some(0x0302));
    assert_eq!(read_le(b"\x01\x02\x03", 2, 2), None);
    assert_eq!(read_le(&[0xff; 8], 0, 8), Some(u64::MAX));
    let mut out = vec![9u8];
    write_le(&mut out, 0x0a0b0c, 4);
    assert_eq!(out, vec![9, 0x0c, 0x0b, 0x0a, 0]);
}

fn const_test_shape() -> Shape {
    let inner_inner = structure("InnerInnerTest", vec![field("num", Shape::Scalar(ScalarKind::U8))]);
    let inner = structure(
        "InnerTest",
        vec![field("num", Shape::Scalar(ScalarKind::I16)), field("inner", inner_inner)],
    );
    structure(
        "Test",
        vec![field("array", Shape::FixedArray(3, Box::new(Shape::Scalar(ScalarKind::U8)))), field("inner", inner)],
    )
}

#[test]
fn test_const_offsets() {
    let expected_offsets = so(
        "Test",
        0,
        6,
        vec![
            fo("array", 0, 3, None),
            fo(
                "inner",
                3,
                3,
                Some(so(
                    "InnerTest",
                    3,
                    3,
                    vec![
                        fo("num", 3, 2, None),
                        fo(
                            "inner",
                            5,
                            1,
                            Some(so("InnerInnerTest", 5, 1, vec![fo("num", 5, 1, None)])),
                        ),
                    ],
                )),
            ),
        ],
    );
    let offsets = const_offsets(&const_test_shape(), 0);
    assert_eq!(show(&offsets.unwrap()), show(&expected_offsets));
}

#[test]
fn fixed_size_layouts_match_decoded_offsets() {
    let shape = const_test_shape();
    let (_, decoded) = from_bytes_with_offsets(&shape, b"abc\x01\x00\x02").unwrap();
    assert_eq!(show(&decoded.unwrap()), show(&const_offsets(&shape, 0).unwrap()));
    assert_eq!(size_of_shape(&shape), Some(6));
    assert_eq!(size_of_shape(&u8s()), None);
    assert!(const_offsets(&Shape::Scalar(ScalarKind::U8), 0).is_none());
    assert!(const_offsets(&shape, usize::MAX - 5).is_none());
    assert_eq!(const_offsets(&shape, 10).unwrap().fields[1].offset, 13);
    let huge = Shape::FixedArray(usize::MAX, Box::new(Shape::Scalar(ScalarKind::U16)));
    assert_eq!(size_of_shape(&huge), None);
    let empty = Shape::FixedArray(0, Box::new(structure("E", vec![field("x", Shape::Scalar(ScalarKind::U64))])));
    assert_eq!(size_of_shape(&empty), Some(0));
}
