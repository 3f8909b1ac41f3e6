use corepack::de::Deserializer;
use corepack::error::{Error, Reason};
use corepack::ser::{SeqState, Serializer};
use std::collections::BTreeMap;

fn encode<F: FnOnce(&mut Serializer<Vec<u8>>) -> Result<(), Error>>(f: F) -> Vec<u8> {
    let mut s = Serializer::new(Vec::new());
    f(&mut s).unwrap();
    s.into_bytes()
}

#[test]
fn positive_fixint_test() {
    let v: u8 = 23;
    assert_eq!(encode(|s| s.serialize_u8(v)), &[0x17]);
}

#[test]
fn negative_fixint_test() {
    let v: i8 = -5;
    assert_eq!(encode(|s| s.serialize_i8(v)), &[0xfb]);
}

#[test]
fn uint8_test() {
    let v: u8 = 154;
    assert_eq!(encode(|s| s.serialize_u8(v)), &[0xcc, 0x9a]);
}

#[test]
fn fixstr_test() {
    let s: &str = "Hello World!";
    assert_eq!(
        encode(|x| x.serialize_str(s)),
        &[0xac, 0x48, 0x65, 0x6c, 0x6c, 0x6f, 0x20, 0x57, 0x6f, 0x72, 0x6c, 0x64, 0x21]
    );
}

#[test]
fn str8_test() {
    let s: &str = "The quick brown fox jumps over the lazy dog";
    let mut fixture: Vec<u8> = vec![];
    fixture.push(0xd9);
    fixture.push(s.len() as u8);
    fixture.extend_from_slice(s.as_bytes());
    assert_eq!(encode(|x| x.serialize_str(s)), fixture);
}

#[test]
fn fixarr_test() {
    let v: Vec<u8> = vec![5, 8, 20, 231];
    let out = encode(|s| {
        let mut st = s.serialize_seq(Some(v.len()))?;
        for x in &v {
            let e = encode(|t| t.serialize_u8(*x));
            s.serialize_seq_elt(&mut st, &e)?;
        }
        s.serialize_seq_end(st)
    });
    assert_eq!(out, &[0x94, 0x05, 0x08, 0x14, 0xcc, 0xe7]);
}

#[test]
fn array16_test() {
    let v: Vec<isize> = vec![-5, 16, 101, -45, 184, 89, 62, -233, -33, 304, 76, 90, 23, 108, 45, -3, 2];
    let out = encode(|s| {
        let mut st = s.serialize_seq(Some(v.len()))?;
        for x in &v {
            let e = encode(|t| t.serialize_isize(*x));
            s.serialize_seq_elt(&mut st, &e)?;
        }
        s.serialize_seq_end(st)
    });
    assert_eq!(
        out,
        &[
            0xdc, 0x00, 0x11, 0xfb, 0x10, 0x65, 0xd0, 0xd3, 0xcc, 0xb8, 0x59, 0x3e, 0xd1, 0xff,
            0x17, 0xd0, 0xdf, 0xd1, 0x01, 0x30, 0x4c, 0x5a, 0x17, 0x6c, 0x2d, 0xfd, 0x02
        ]
    );
}

#[test]
fn fixmap_test() {
    let mut map: BTreeMap<String, usize> = BTreeMap::new();
    map.insert("one".into(), 1);
    map.insert("two".into(), 2);
    map.insert("three".into(), 3);
    let out = encode(|s| {
        let mut st = s.serialize_map(Some(map.len()))?;
        for (k, v) in &map {
            let ek = encode(|t| t.serialize_str(k));
            let ev = encode(|t| t.serialize_usize(*v));
            s.serialize_map_key(&mut st, &ek)?;
            s.serialize_map_value(&mut st, &ev)?;
        }
        s.serialize_map_end(st)
    });
    assert_eq!(
        out,
        &[
            0x83, 0xa3, 0x6f, 0x6e, 0x65, 0x01, 0xa5, 0x74, 0x68, 0x72, 0x65, 0x65, 0x03, 0xa3,
            0x74, 0x77, 0x6f, 0x02
        ]
    );
}

#[test]
fn buffered_seq_matches_known_length() {
    let v: Vec<i64> = (0..17).map(|i| i * 1000 - 5000).collect();
    let known = encode(|s| {
        let mut st = s.serialize_seq(Some(v.len()))?;
        for x in &v {
            s.serialize_seq_elt(&mut st, &encode(|t| t.serialize_i64(*x)))?;
        }
        s.serialize_seq_end(st)
    });
    let unknown = encode(|s| {
        let mut st = s.serialize_seq(None)?;
        for x in &v {
            s.serialize_seq_elt(&mut st, &encode(|t| t.serialize_i64(*x)))?;
        }
        s.serialize_seq_end(st)
    });
    assert_eq!(known, unknown);
    assert_eq!(&known[..3], &[0xdc, 0x00, 0x11]);
}

#[test]
fn buffered_map_matches_known_length() {
    let known = encode(|s| {
        let mut st = s.serialize_map(Some(1))?;
        s.serialize_map_key(&mut st, &encode(|t| t.serialize_str("k")))?;
        s.serialize_map_value(&mut st, &encode(|t| t.serialize_bool(true)))?;
        s.serialize_map_end(st)
    });
    let unknown = encode(|s| {
        let mut st = s.serialize_map(None)?;
        s.serialize_map_key(&mut st, &encode(|t| t.serialize_str("k")))?;
        s.serialize_map_value(&mut st, &encode(|t| t.serialize_bool(true)))?;
        s.serialize_map_end(st)
    });
    assert_eq!(known, unknown);
    assert_eq!(known, &[0x81, 0xa1, 0x6b, 0xc3]);
}

#[test]
fn integer_size_class_edges() {
    assert_eq!(encode(|s| s.serialize_i64(-32)), &[0xe0]);
    assert_eq!(encode(|s| s.serialize_i64(-33)), &[0xd0, 0xdf]);
    assert_eq!(encode(|s| s.serialize_i64(127)), &[0x7f]);
    assert_eq!(encode(|s| s.serialize_i64(128)), &[0xcc, 0x80]);
    assert_eq!(encode(|s| s.serialize_i64(255)), &[0xcc, 0xff]);
    assert_eq!(encode(|s| s.serialize_i64(256)), &[0xd1, 0x01, 0x00]);
    assert_eq!(encode(|s| s.serialize_i64(-129)), &[0xd1, 0xff, 0x7f]);
    assert_eq!(encode(|s| s.serialize_i64(65535)), &[0xcd, 0xff, 0xff]);
    assert_eq!(encode(|s| s.serialize_i64(65536)), &[0xd2, 0x00, 0x01, 0x00, 0x00]);
    assert_eq!(encode(|s| s.serialize_i64(4294967295)), &[0xce, 0xff, 0xff, 0xff, 0xff]);
    assert_eq!(
        encode(|s| s.serialize_i64(i64::MIN)),
        &[0xd3, 0x80, 0, 0, 0, 0, 0, 0, 0]
    );
    assert_eq!(encode(|s| s.serialize_u64(256)), &[0xcd, 0x01, 0x00]);
    assert_eq!(encode(|s| s.serialize_u64(65536)), &[0xce, 0x00, 0x01, 0x00, 0x00]);
    assert_eq!(
        encode(|s| s.serialize_u64(u64::MAX)),
        &[0xcf, 0xff, 0xff, 0xff, 0xff, 0xff, 0xff, 0xff, 0xff]
    );
}

#[test]
fn scalars_and_floats() {
    assert_eq!(encode(|s| s.serialize_bool(true)), &[0xc3]);
    assert_eq!(encode(|s| s.serialize_bool(false)), &[0xc2]);
    assert_eq!(encode(|s| s.serialize_unit()), &[0xc0]);
    assert_eq!(encode(|s| s.serialize_none()), &[0xc0]);
    assert_eq!(encode(|s| s.serialize_f32(1.5f32.to_bits())), &[0xca, 0x3f, 0xc0, 0x00, 0x00]);
    assert_eq!(
        encode(|s| s.serialize_f64(1.5f64.to_bits())),
        &[0xcb, 0x3f, 0xf8, 0, 0, 0, 0, 0, 0]
    );
}

#[test]
fn string_and_bin_classes() {
    let s31 = "a".repeat(31);
    let s32 = "a".repeat(32);
    let s256 = "a".repeat(256);
    let s65536 = "a".repeat(65536);
    assert_eq!(encode(|x| x.serialize_str(&s31))[0], 0xbf);
    assert_eq!(&encode(|x| x.serialize_str(&s32))[..2], &[0xd9, 32]);
    assert_eq!(&encode(|x| x.serialize_str(&s256))[..3], &[0xda, 0x01, 0x00]);
    assert_eq!(&encode(|x| x.serialize_str(&s65536))[..5], &[0xdb, 0x00, 0x01, 0x00, 0x00]);
    assert_eq!(encode(|x| x.serialize_bytes(&[1, 2])), &[0xc4, 2, 1, 2]);
    assert_eq!(&encode(|x| x.serialize_bytes(&vec![0u8; 256]))[..3], &[0xc5, 0x01, 0x00]);
    assert_eq!(encode(|x| x.serialize_char('é')), &[0xa2, 0xc3, 0xa9]);
}

#[test]
fn too_big_container_is_refused() {
    let mut s = Serializer::new(Vec::new());
    assert_eq!(s.serialize_seq(Some(usize::MAX)).err(), Some(Error::simple(Reason::TooBig)));
    assert_eq!(s.serialize_map(Some(usize::MAX)).err(), Some(Error::simple(Reason::TooBig)));
    assert!(s.into_bytes().is_empty());
    let mut s = Serializer::new(Vec::new());
    let st = SeqState::Buffered(usize::MAX, vec![]);
    assert_eq!(s.serialize_seq_end(st), Err(Error::simple(Reason::TooBig)));
    assert!(s.into_bytes().is_empty());
}

#[test]
fn two_encoders_agree() {
    for v in [0i64, -1, -33, 300, 70000, -70000, i64::MAX, i64::MIN] {
        assert_eq!(encode(|s| s.serialize_i64(v)), encode(|s| s.serialize_i64(v)));
    }
}

#[test]
fn decode_failures() {
    let mut d = Deserializer::new(vec![]);
    assert_eq!(d.deserialize_u64(), Err(Error::simple(Reason::EndOfStream)));
    assert_eq!(d.deserialize_i64(), Err(Error::simple(Reason::EndOfStream)));
    let mut d = Deserializer::new(vec![0xc1]);
    assert_eq!(d.deserialize_i64(), Err(Error::simple(Reason::Invalid)));
    let mut d = Deserializer::new(vec![0xd4, 0, 0]);
    assert_eq!(d.deserialize_str_bytes(), Err(Error::simple(Reason::Invalid)));
    let mut d = Deserializer::new(vec![0xc3]);
    assert_eq!(d.deserialize_u64(), Err(Error::simple(Reason::TypeMismatch)));
    let mut d = Deserializer::new(vec![0xcd, 0x01]);
    assert_eq!(d.deserialize_u64(), Err(Error::simple(Reason::EndOfStream)));
    let mut d = Deserializer::new(vec![0xa3, b'a']);
    assert_eq!(d.deserialize_str_bytes(), Err(Error::simple(Reason::EndOfStream)));
    let mut d = Deserializer::new(vec![0xe0]);
    assert_eq!(d.deserialize_u64(), Err(Error::simple(Reason::TypeMismatch)));
    let mut d = Deserializer::new(vec![0xcf, 0xff, 0xff, 0xff, 0xff, 0xff, 0xff, 0xff, 0xff]);
    assert_eq!(d.deserialize_i64(), Err(Error::simple(Reason::TypeMismatch)));
}
