use mutstr::mutstr;

#[test]
fn from_slice() {
    let result = mutstr::from("abc123".as_bytes());
    assert_eq!(result.as_str(), "abc123");
}

#[test]
fn from_str() {
    let result = mutstr::from("abc123");
    assert_eq!(result.as_str(), "abc123");
}

#[test]
fn default() {
    let result = mutstr::default();
    assert_eq!(result.as_str(), "");
}

#[test]
fn display() {
    let result = format!("{:?}", mutstr::from("abc123"));
    if !result.starts_with("mutstr { _ptr: ") {
        assert_eq!('a', 'b');
    }
}

#[test]
fn range_full() {
    let result = mutstr::from("abc123");
    assert_eq!(&result[..], "abc123");
}

#[test]
fn range() {
    let result = mutstr::from("abc123");
    assert_eq!(&result[0..6], "abc123");
}

#[test]
fn range_to() {
    let result = mutstr::from("abc123");
    assert_eq!(&result[..6], "abc123");
}

#[test]
fn range_from() {
    let result = mutstr::from("abc123");
    assert_eq!(&result[0..], "abc123");
}

#[test]
fn add_assign() {
    let mut result = mutstr::from("Hello my");
    result += " friend";
    assert_eq!(result.as_str(), "Hello my friend");
}

#[test]
fn sub_assign() {
    let mut result = mutstr::from("Hello my friend");
    result -= " friend";
    assert_eq!(result.as_str(), "Hello my");
}

#[test]
fn sub_assign_extended() {
    let mut result = mutstr::from("Hello my friend");
    result -= (1, " friend");
    assert_eq!(result.as_str(), "Hello my");
}

#[test]
fn as_ref_u8() {
    let result = mutstr::default();
    let value: &[u8] = result.as_ref();
    assert_eq!(value, b"");
}

#[test]
fn as_mut_u8() {
    let mut result = mutstr::default();
    let value: &mut [u8] = result.as_mut();
    assert_eq!(value, b"");
}

#[test]
fn as_ref_str() {
    let result = mutstr::default();
    let value: &str = result.as_ref();
    assert_eq!(value, "");
}

#[test]
fn as_mut_str() {
    let mut result = mutstr::default();
    let value: &mut str = result.as_mut();
    assert_eq!(value, "");
}
