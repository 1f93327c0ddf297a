use product_service::error::ServiceError;
use product_service::quantity::{fancy_display, Quantity, Unit};

fn is_bad_request<T>(r: Result<T, ServiceError>) -> bool {
    matches!(r, Err(ServiceError::BadRequest(_)))
}

#[test]
fn simple_quantity_round_trip() {
    for n in [0u32, 7, 42, 5000, u32::MAX] {
        let text = format!("{}", n);
        let q = Quantity::try_from_str(&text).unwrap();
        assert_eq!(q, Quantity::Simple(n));
        assert_eq!(q.to_string(), text);
    }
}

#[test]
fn leading_zeros_render_canonically() {
    let q = Quantity::try_from_str("007").unwrap();
    assert_eq!(q, Quantity::Simple(7));
    assert_eq!(q.to_string(), "7");
}

#[test]
fn complex_quantity_parses() {
    assert_eq!(Quantity::try_from_str("3x5").unwrap(), Quantity::Complex(3, 5));
    assert_eq!(Quantity::Complex(3, 5).to_string(), "3x5");
    assert_eq!(Quantity::try_from_str("12x250").unwrap(), Quantity::Complex(12, 250));
}

#[test]
fn malformed_quantities_are_bad_requests() {
    for text in ["1x2x3", "1x", "x2", "1x3e", "", "x", "abc", "-1", "4294967296", "1 x 2"] {
        assert!(is_bad_request(Quantity::try_from_str(text)), "{}", text);
    }
}

#[test]
fn quantity_whitespace_is_ignored() {
    assert_eq!(Quantity::try_from_str("  12 ").unwrap(), Quantity::Simple(12));
    assert_eq!(Quantity::try_from_str("\t3x4\n").unwrap(), Quantity::Complex(3, 4));
}

#[test]
fn unit_aliases_parse() {
    let table = [
        ("piece", Unit::Piece),
        ("db", Unit::Piece),
        ("mm", Unit::Millimeter),
        ("millimeter", Unit::Millimeter),
        ("g", Unit::Gram),
        ("gr", Unit::Gram),
        ("gram", Unit::Gram),
        ("ml", Unit::Milliliter),
        ("milliliter", Unit::Milliliter),
    ];
    for (alias, unit) in table {
        let u = Unit::try_from_str(alias).unwrap();
        assert_eq!(u, unit);
        assert_eq!(Unit::try_from_str(&u.to_string()).unwrap(), unit);
    }
}

#[test]
fn unit_canonical_codes() {
    assert_eq!(Unit::try_from_str("piece").unwrap().to_string(), "db");
    assert_eq!(Unit::Millimeter.to_string(), "mm");
    assert_eq!(Unit::Gram.to_string(), "g");
    assert_eq!(Unit::Milliliter.to_string(), "ml");
}

#[test]
fn unknown_units_are_bad_requests() {
    for text in ["kg", "m", "piecee", "", "G"] {
        assert!(is_bad_request(Unit::try_from_str(text)), "{}", text);
    }
}

#[test]
fn unit_whitespace_is_ignored() {
    assert_eq!(Unit::try_from_str("  g ").unwrap(), Unit::Gram);
    assert_eq!(Unit::try_from_str("\tml\n").unwrap(), Unit::Milliliter);
}

#[test]
fn packaging_display() {
    assert_eq!(fancy_display(&Quantity::Simple(5000), &Unit::Gram), "5000g");
    assert_eq!(fancy_display(&Quantity::Complex(3, 5), &Unit::Piece), "3x5db");
}
