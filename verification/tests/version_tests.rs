use alpm::{vercmp, Error, Vercmp};

#[test]
fn basic_ordering() {
    assert!(matches!(vercmp("1.0", "2.0"), Ok(Vercmp::Older)));
    assert!(matches!(vercmp("1.0-1", "1.0-1"), Ok(Vercmp::Equal)));
    assert!(matches!(vercmp("2.0", "1.0"), Ok(Vercmp::Newer)));
}

#[test]
fn embedded_nul_is_a_conversion_error() {
    assert_eq!(vercmp("1.\0", "2.0").unwrap_err(), Error::InvalidName);
    assert_eq!(vercmp("1.0", "2.\00").unwrap_err(), Error::InvalidName);
}

#[test]
fn epoch_dominates() {
    assert!(matches!(vercmp("1:1.0", "2.0"), Ok(Vercmp::Newer)));
    assert!(matches!(vercmp("1.0", "1:0.1"), Ok(Vercmp::Older)));
    assert!(matches!(vercmp("1:2.0", "1:2.0"), Ok(Vercmp::Equal)));
}

#[test]
fn release_field_breaks_version_ties() {
    assert!(matches!(vercmp("1.0-1", "1.0-2"), Ok(Vercmp::Older)));
    assert!(matches!(vercmp("1.0-2", "1.0-1"), Ok(Vercmp::Newer)));
    assert!(matches!(vercmp("1.0-1", "1.0"), Ok(Vercmp::Equal)));
}

#[test]
fn numeric_runs_compare_by_magnitude() {
    assert!(matches!(vercmp("12", "2"), Ok(Vercmp::Newer)));
    assert!(matches!(vercmp("1.01", "1.1"), Ok(Vercmp::Equal)));
    assert!(matches!(vercmp("1.002", "1.2"), Ok(Vercmp::Equal)));
    assert!(matches!(vercmp("1.9", "1.10"), Ok(Vercmp::Older)));
}

#[test]
fn trailing_alphabetic_loses() {
    assert!(matches!(vercmp("1.0a", "1.0"), Ok(Vercmp::Older)));
    assert!(matches!(vercmp("1.0rc", "1.0"), Ok(Vercmp::Older)));
    assert!(matches!(vercmp("1.0.a", "1.0"), Ok(Vercmp::Newer)));
    assert!(matches!(vercmp("1.0.1", "1.0"), Ok(Vercmp::Newer)));
}

#[test]
fn numeric_beats_alphabetic() {
    assert!(matches!(vercmp("1.0.1", "1.0.a"), Ok(Vercmp::Newer)));
    assert!(matches!(vercmp("1.0a", "1.0b"), Ok(Vercmp::Older)));
}

#[test]
fn comparison_codes_map_to_outcomes() {
    assert_eq!(Vercmp::from(-7), Vercmp::Older);
    assert_eq!(Vercmp::from(0), Vercmp::Equal);
    assert_eq!(Vercmp::from(3), Vercmp::Newer);
}
