use sargparse::value::{ArgError, InnerData};

#[test]
fn constructors_and_accessors_round_trip() {
    assert_eq!(InnerData::from_int(-3).get_int().unwrap(), -3);
    assert_eq!(InnerData::from_float("1.5".to_string()).get_float().unwrap(), "1.5");
    assert_eq!(InnerData::from_str("hi".to_string()).get_str().unwrap(), "hi");
    assert_eq!(InnerData::from_bool(true).get_bool().unwrap(), true);
}

#[test]
fn wrong_accessor_reports_the_mismatch() {
    assert!(matches!(InnerData::from_int(1).get_bool(), Err(ArgError::WrongType)));
    assert!(matches!(InnerData::from_bool(true).get_int(), Err(ArgError::WrongType)));
    assert!(matches!(InnerData::from_str("x".to_string()).get_float(), Err(ArgError::WrongType)));
    assert!(matches!(InnerData::from_float("2.0".to_string()).get_str(), Err(ArgError::WrongType)));
}

#[test]
fn duplicate_copies_the_value() {
    let v = InnerData::from_str("copy me".to_string());
    let w = v.duplicate();
    assert_eq!(v.get_str().unwrap(), "copy me");
    assert_eq!(w.get_str().unwrap(), "copy me");
}
