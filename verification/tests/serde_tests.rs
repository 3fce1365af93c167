use chim_compiler::stdlib::serde::msgpack::{from_vec, to_vec};
use chim_compiler::stdlib::serde::{Error, Value};

#[test]
fn msgpack_scalars() {
    assert_eq!(to_vec(&Value::null()), vec![0xC0]);
    assert_eq!(to_vec(&Value::bool(true)), vec![0xC3]);
    assert_eq!(to_vec(&Value::bool(false)), vec![0xC2]);
    assert_eq!(to_vec(&Value::integer(5)), vec![5]);
    assert_eq!(to_vec(&Value::integer(200)), vec![0xCC, 200]);
    assert_eq!(to_vec(&Value::integer(300)), vec![0xCD, 1, 44]);
    assert_eq!(to_vec(&Value::integer(70000)), vec![0xCE, 0, 1, 17, 112]);
    assert_eq!(to_vec(&Value::integer(-1)), vec![0xD0, 0xFF]);
    assert_eq!(to_vec(&Value::integer(-300)), vec![0xD0, 0xD4]);
    assert_eq!(to_vec(&Value::float(1.5f64.to_bits())), vec![0xCB, 0x3F, 0xF8, 0, 0, 0, 0, 0, 0]);
    assert_eq!(to_vec(&Value::string("hi".to_string())), vec![0xA2, b'h', b'i']);
}

#[test]
fn msgpack_containers() {
    let mut a = Value::array();
    a.push(Value::integer(1));
    a.push(Value::null());
    assert_eq!(to_vec(&Value::Array(a)), vec![0x92, 1, 0xC0]);
    let mut o = Value::object();
    o.push(("k".to_string(), Value::bool(true)));
    assert_eq!(to_vec(&Value::Object(o)), vec![0xDF, 0, 1, 0xA1, b'k', 0xC3]);
}

#[test]
fn msgpack_reading() {
    let v = from_vec(&[0x92, 1, 0xA1, b'x']).unwrap();
    let a = v.as_array().unwrap();
    assert_eq!(a.len(), 2);
    assert_eq!(a[0].as_int(), Some(1));
    assert_eq!(a[1].as_string(), Some("x".to_string()));
    assert_eq!(from_vec(&[0xD0, 0xFE]).unwrap().as_int(), Some(-2));
    assert!(from_vec(&[0xCC, 200]).unwrap().is_null());
    let f = from_vec(&[0xCB, 0x3F, 0xF8, 0, 0, 0, 0, 0, 0]).unwrap();
    assert_eq!(f.as_float_bits(), Some(1.5f64.to_bits()));
    assert_eq!(f.as_int(), Some(1));
    let o = from_vec(&[0xDF, 0, 2, 0xA1, b'k', 1, 0xA1, b'k', 2]).unwrap();
    assert_eq!(o.len(), 1);
    assert_eq!(o.get(&"k".to_string()).and_then(|v| v.as_int()), Some(2));
    assert_eq!(from_vec(&[0xA2, 0xFF, b'a']).unwrap().as_string(), Some("\u{FFFD}a".to_string()));
}

#[test]
fn msgpack_read_errors() {
    assert!(from_vec(&[]).is_err());
    assert!(from_vec(&[0xA3, b'a']).is_err());
    assert!(from_vec(&[0xCB, 1, 2]).is_err());
    assert!(from_vec(&[0xD0]).is_err());
    assert!(from_vec(&[0x91]).is_err());
    assert!(from_vec(&[0xDF, 0, 1, 1, 2]).is_err());
}

#[test]
fn msgpack_roundtrip_values() {
    let mut a = Value::array();
    a.push(Value::integer(-5));
    a.push(Value::float(0x4009_21FB_5444_2D18));
    a.push(Value::string("t\u{e9}xt".to_string()));
    let v = Value::Array(a);
    let back = from_vec(&to_vec(&v)).unwrap();
    assert_eq!(to_vec(&back), to_vec(&v));
}

#[test]
fn value_accessors() {
    assert_eq!(Value::float(2.9f64.to_bits()).as_int(), Some(2));
    assert_eq!(Value::float((-2.9f64).to_bits()).as_int(), Some(-2));
    assert_eq!(Value::float(1e300f64.to_bits()).as_int(), Some(i64::MAX));
    assert_eq!(Value::float(f64::NAN.to_bits()).as_int(), Some(0));
    assert_eq!(Value::float((-1e300f64).to_bits()).as_int(), Some(i64::MIN));
    assert_eq!(Value::integer(3).as_float_bits(), None);
    assert_eq!(Value::bool(true).as_bool(), Some(true));
    assert_eq!(Value::string("ab\u{e9}".to_string()).len(), 4);
    assert!(Value::null().is_null());
    assert!(Value::integer(1).index(0).is_none());
    let _e = Error::new("x".to_string());
}
