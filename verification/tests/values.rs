use pn_rust::error::Error;
use pn_rust::value::Value;

#[test]
fn is_undefined_distinguishes_variants() {
    assert!(Value::Undefined.is_undefined());
    assert!(!Value::Real(0).is_undefined());
    assert!(!Value::String(Vec::new()).is_undefined());
    assert!(!Value::Array(Vec::new()).is_undefined());
}

#[test]
fn as_accessors_narrow_without_coercion() {
    assert_eq!(
        Value::String(b"abc".to_vec()).as_string(),
        Some(b"abc".to_vec())
    );
    assert_eq!(Value::Real(0).as_string(), None);

    let bits = 2.5f64.to_bits();
    assert_eq!(Value::Real(bits).as_real(), Some(bits));
    assert_eq!(Value::String(Vec::new()).as_real(), None);

    let items = vec![Value::Undefined, Value::Real(bits)];
    assert_eq!(Value::Array(items.clone()).as_array(), Some(items));
    assert_eq!(Value::Real(bits).as_array(), None);
}

#[test]
fn to_accessors_return_the_payload() {
    assert_eq!(Value::String(b"xyz".to_vec()).to_string(), b"xyz".to_vec());
    let bits = 7.0f64.to_bits();
    assert_eq!(Value::Real(bits).to_real(), bits);
    assert_eq!(
        Value::Array(vec![Value::Undefined]).to_array(),
        vec![Value::Undefined]
    );
}

#[test]
fn expect_accessors_report_type_mismatch() {
    assert_eq!(
        Value::String(b"s".to_vec()).expect_string(),
        Ok(b"s".to_vec())
    );
    assert_eq!(Value::Real(1).expect_string(), Err(Error::TypeMismatch));
    assert_eq!(Value::Real(9).expect_real(), Ok(9));
    assert_eq!(Value::Undefined.expect_real(), Err(Error::TypeMismatch));
    assert_eq!(Value::Array(Vec::new()).expect_array(), Ok(Vec::new()));
    assert_eq!(
        Value::String(Vec::new()).expect_array(),
        Err(Error::TypeMismatch)
    );
}

#[test]
fn clone_preserves_nested_values() {
    let v = Value::Array(vec![
        Value::String(b"nested".to_vec()),
        Value::Array(vec![Value::Real(4.0f64.to_bits()), Value::Undefined]),
    ]);
    assert_eq!(v.clone(), v);
}

#[test]
fn error_descriptions_are_distinct() {
    let all = [
        Error::BufferCapacityExceeded,
        Error::UnknownFunction,
        Error::TypeMismatch,
        Error::MalformedPayload,
    ];
    for (i, a) in all.iter().enumerate() {
        assert!(!a.describe().is_empty());
        for (j, b) in all.iter().enumerate() {
            if i != j {
                assert_ne!(a.describe(), b.describe());
            }
        }
    }
}
