use corepack::de::{Deserializer, Kind};
use corepack::error::Error;
use corepack::ser::Serializer;

fn encode<F: FnOnce(&mut Serializer<Vec<u8>>) -> Result<(), Error>>(f: F) -> Vec<u8> {
    let mut s = Serializer::new(Vec::new());
    f(&mut s).unwrap();
    s.into_bytes()
}

fn read_string(d: &mut Deserializer) -> String {
    String::from_utf8(d.deserialize_str_bytes().unwrap()).unwrap()
}

#[test]
fn test_str() {
    let expected = format!("Hello World!");
    let bytes = encode(|s| s.serialize_str(&expected));
    let mut d = Deserializer::new(bytes);
    assert_eq!(read_string(&mut d), expected);
    assert!(d.is_done());
}

// The enum of these tests has variants A(usize), B, C(i8, i8) and D { a: isize, b: String },
// with indices 0 to 3.

#[test]
fn test_enum() {
    let bytes = encode(|s| s.serialize_unit_variant(1));
    let mut d = Deserializer::new(bytes);
    assert_eq!(d.deserialize_u64().unwrap(), 1);
    assert!(d.is_done());
}

#[test]
fn test_enum_newtype() {
    let payload = encode(|s| s.serialize_usize(42));
    let bytes = encode(|s| s.serialize_newtype_variant(0, &payload));
    let mut d = Deserializer::new(bytes);
    assert_eq!(d.deserialize_seq_len().unwrap(), 2);
    assert_eq!(d.deserialize_u64().unwrap(), 0);
    assert_eq!(d.deserialize_u64().unwrap(), 42);
    assert!(d.is_done());
}

#[test]
fn test_enum_tuple() {
    let bytes = encode(|s| {
        let mut st = s.serialize_tuple_variant(2, 2)?;
        s.serialize_seq_elt(&mut st, &encode(|t| t.serialize_i8(-3)))?;
        s.serialize_seq_elt(&mut st, &encode(|t| t.serialize_i8(22)))?;
        s.serialize_seq_end(st)
    });
    let mut d = Deserializer::new(bytes);
    assert_eq!(d.deserialize_seq_len().unwrap(), 3);
    assert_eq!(d.deserialize_u64().unwrap(), 2);
    assert_eq!(d.deserialize_i64().unwrap(), -3);
    assert_eq!(d.deserialize_i64().unwrap(), 22);
    assert!(d.is_done());
}

#[test]
fn test_enum_struct() {
    let b = String::from("Hello world!");
    let bytes = encode(|s| {
        let mut st = s.serialize_struct_variant(3, 2)?;
        s.serialize_struct_elt(&mut st, "a", &encode(|t| t.serialize_isize(9001)))?;
        s.serialize_struct_elt(&mut st, "b", &encode(|t| t.serialize_str(&b)))?;
        s.serialize_map_end(st)
    });
    let mut d = Deserializer::new(bytes);
    assert_eq!(d.deserialize_seq_len().unwrap(), 2);
    assert_eq!(d.deserialize_u64().unwrap(), 3);
    assert_eq!(d.deserialize_map_len().unwrap(), 2);
    assert_eq!(read_string(&mut d), "a");
    assert_eq!(d.deserialize_i64().unwrap(), 9001);
    assert_eq!(read_string(&mut d), "b");
    assert_eq!(read_string(&mut d), b);
    assert!(d.is_done());
}

#[test]
fn integers_round_trip_at_class_edges() {
    let edges: Vec<i64> = vec![
        0, -1, -32, -33, 127, 128, -128, -129, 255, 256, 32767, 32768, -32768, -32769, 65535,
        65536, 2147483647, 2147483648, -2147483648, -2147483649, 4294967295, 4294967296,
        i64::MAX, i64::MIN,
    ];
    for v in edges {
        let mut d = Deserializer::new(encode(|s| s.serialize_i64(v)));
        assert_eq!(d.deserialize_i64().unwrap(), v);
        assert!(d.is_done());
    }
    let uedges: Vec<u64> = vec![0, 127, 128, 255, 256, 65535, 65536, 4294967295, 4294967296, u64::MAX];
    for v in uedges {
        let mut d = Deserializer::new(encode(|s| s.serialize_u64(v)));
        assert_eq!(d.deserialize_u64().unwrap(), v);
        assert!(d.is_done());
    }
}

#[test]
fn strings_bytes_and_headers_round_trip() {
    for n in [0usize, 31, 32, 255, 256, 65535, 65536] {
        let text = "x".repeat(n);
        let mut d = Deserializer::new(encode(|s| s.serialize_str(&text)));
        assert_eq!(read_string(&mut d), text);
        let raw = vec![7u8; n];
        let mut d = Deserializer::new(encode(|s| s.serialize_bytes(&raw)));
        assert_eq!(d.deserialize_bytes().unwrap(), raw);
        let mut d = Deserializer::new(encode(|s| s.serialize_seq(Some(n)).map(|_| ())));
        assert_eq!(d.deserialize_seq_len().unwrap(), n);
        let mut d = Deserializer::new(encode(|s| s.serialize_map(Some(n)).map(|_| ())));
        assert_eq!(d.deserialize_map_len().unwrap(), n);
    }
    for v in [true, false] {
        let mut d = Deserializer::new(encode(|s| s.serialize_bool(v)));
        assert_eq!(d.deserialize_bool().unwrap(), v);
    }
    let mut d = Deserializer::new(encode(|s| s.serialize_unit()));
    assert!(d.deserialize_unit().is_ok());
    assert!(d.is_done());
}

#[test]
fn tag_kinds_and_floats() {
    let cases: Vec<(u8, Kind)> = vec![
        (0x00, Kind::UInt),
        (0x7f, Kind::UInt),
        (0x80, Kind::Dict),
        (0x9f, Kind::Array),
        (0xa0, Kind::Str),
        (0xc0, Kind::Nil),
        (0xc3, Kind::Bool),
        (0xc5, Kind::Bin),
        (0xca, Kind::F32),
        (0xcb, Kind::F64),
        (0xcf, Kind::UInt),
        (0xd3, Kind::Int),
        (0xdb, Kind::Str),
        (0xdc, Kind::Array),
        (0xdf, Kind::Dict),
        (0xe0, Kind::Int),
    ];
    for (tag, kind) in cases {
        assert_eq!(Deserializer::new(vec![tag]).peek_kind(), Ok(kind));
    }
    for tag in [0xc1u8, 0xc7, 0xc9, 0xd4, 0xd8] {
        assert_eq!(
            Deserializer::new(vec![tag]).peek_kind(),
            Err(corepack::error::Error::simple(corepack::error::Reason::Invalid))
        );
    }
    let mut d = Deserializer::new(encode(|s| s.serialize_f32((-2.25f32).to_bits())));
    assert_eq!(f32::from_bits(d.deserialize_f32_bits().unwrap()), -2.25);
    let mut d = Deserializer::new(encode(|s| s.serialize_f64(1e300f64.to_bits())));
    assert_eq!(f64::from_bits(d.deserialize_f64_bits().unwrap()), 1e300);
    assert!(d.is_done());
}
