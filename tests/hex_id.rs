use product_service::hex_id::HexId;

#[test]
fn demo_to_hex_string() {
    assert_eq!("c", 12.to_hex_string());
    assert_eq!("9", 9.to_hex_string());
    assert_eq!("a", 10.to_hex_string());
}

#[test]
fn demo_from_hex_string() {
    assert_eq!(12, i32::from_hex_str("c").unwrap());
    assert_eq!(10, i32::from_hex_str("a").unwrap());
    assert_eq!(1459, i32::from_hex_str("5b3").unwrap());
}

#[test]
fn hex_of_negative_shows_twos_complement() {
    assert_eq!("ffffffff", (-1i32).to_hex_string());
    assert_eq!("0", 0i32.to_hex_string());
}

#[test]
fn hex_reading_rejects_bad_text() {
    assert!(i32::from_hex_str("").is_err());
    assert!(i32::from_hex_str("g").is_err());
    assert!(i32::from_hex_str("-").is_err());
    assert!(i32::from_hex_str("80000000").is_err());
    assert_eq!(-16, i32::from_hex_str("-10").unwrap());
    assert_eq!(255, i32::from_hex_str("FF").unwrap());
}
