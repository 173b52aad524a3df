use opencli::package::version::{Version, VersionConstraint};

fn v(major: u32, minor: u32, patch: u32) -> Version {
    Version::new(major, minor, patch)
}

#[test]
fn parse_reads_numbers_and_suffix() {
    let parsed = Version::parse("v1.2.3-beta").unwrap();
    assert_eq!(parsed.major, 1);
    assert_eq!(parsed.minor, 2);
    assert_eq!(parsed.patch, 3);
    assert_eq!(parsed.suffix, "-beta");
}

#[test]
fn parse_defaults_missing_components_to_zero() {
    let parsed = Version::parse("R7").unwrap();
    assert_eq!((parsed.major, parsed.minor, parsed.patch), (7, 0, 0));
    assert_eq!(parsed.suffix, "");
    let parsed = Version::parse("  3.10   ").unwrap();
    assert_eq!((parsed.major, parsed.minor, parsed.patch), (3, 10, 0));
    let parsed = Version::parse("1.x").unwrap();
    assert_eq!((parsed.major, parsed.minor, parsed.patch), (1, 0, 0));
    assert_eq!(parsed.suffix, ".x");
    let parsed = Version::parse("1.2.3.4").unwrap();
    assert_eq!((parsed.major, parsed.minor, parsed.patch), (1, 2, 3));
    assert_eq!(parsed.suffix, ".4");
}

#[test]
fn parse_rejects_text_without_major_number() {
    for text in ["", "v", "abc", ".1.2", "-1", "x1.2.3"] {
        let err = Version::parse(text).unwrap_err();
        assert!(matches!(err, opencli::result::OpenCliError::Config(_)), "{text}");
    }
}

#[test]
fn parse_rejects_numbers_above_u32() {
    assert!(Version::parse("4294967295.0.0").is_ok());
    assert!(Version::parse("4294967296.0.0").is_err());
    assert!(Version::parse("1.4294967296.0").is_err());
    assert!(Version::parse("1.0.99999999999999999999").is_err());
}

#[test]
fn parse_then_display_gives_canonical_form() {
    for (text, shown) in [
        ("v1.2.3", "1.2.3"),
        ("v0.0.0", "0.0.0"),
        ("v10.20.30-rc.1", "10.20.30-rc.1"),
        ("V3.10.11+build", "3.10.11+build"),
        ("v4294967295.0.1", "4294967295.0.1"),
    ] {
        assert_eq!(Version::parse(text).unwrap().to_string(), shown);
    }
}

#[test]
fn caret_on_one_two_three() {
    let c = VersionConstraint::parse("^1.2.3").unwrap();
    assert!(matches!(c, VersionConstraint::Caret(_)));
    for ok in [v(1, 2, 3), v(1, 2, 9), v(1, 9, 0)] {
        assert!(c.matches(&ok));
    }
    for no in [v(0, 9, 9), v(2, 0, 0), v(1, 2, 2)] {
        assert!(!c.matches(&no));
    }
}

#[test]
fn caret_below_one_pins_minor() {
    let c = VersionConstraint::Caret(v(0, 2, 3));
    assert!(c.matches(&v(0, 2, 3)));
    assert!(c.matches(&v(0, 2, 100)));
    assert!(!c.matches(&v(0, 2, 2)));
    assert!(!c.matches(&v(0, 3, 3)));
    assert!(!c.matches(&v(0, 1, 9)));
    assert!(!c.matches(&v(1, 2, 3)));
}

#[test]
fn range_is_half_open() {
    let c = VersionConstraint::Range(v(1, 0, 0), v(2, 0, 0));
    assert!(c.matches(&v(1, 9, 9)));
    assert!(c.matches(&v(1, 0, 0)));
    assert!(!c.matches(&v(2, 0, 0)));
    assert!(!c.matches(&v(0, 9, 9)));
}

#[test]
fn constraint_operators() {
    assert!(matches!(VersionConstraint::parse("*").unwrap(), VersionConstraint::GreaterEqual(_)));
    assert!(matches!(VersionConstraint::parse("latest").unwrap(), VersionConstraint::GreaterEqual(_)));
    assert!(matches!(VersionConstraint::parse("~1.2.0").unwrap(), VersionConstraint::Tilde(_)));
    assert!(matches!(VersionConstraint::parse(">=1.2.0").unwrap(), VersionConstraint::GreaterEqual(_)));
    assert!(matches!(VersionConstraint::parse(">1.2.0").unwrap(), VersionConstraint::GreaterThan(_)));
    assert!(matches!(VersionConstraint::parse("<=1.2.0").unwrap(), VersionConstraint::LessEqual(_)));
    assert!(matches!(VersionConstraint::parse("<1.2.0").unwrap(), VersionConstraint::LessThan(_)));
    assert!(matches!(VersionConstraint::parse(" 1.2.0 ").unwrap(), VersionConstraint::Exact(_)));
    assert!(VersionConstraint::parse("=>1.2.0").is_err());
    assert!(VersionConstraint::parse("^").is_err());
    assert!(VersionConstraint::parse("").is_err());
    assert!(VersionConstraint::parse("^x").is_err());
}

#[test]
fn constraint_ranges() {
    for text in [">=1.0.0, <2.0.0", ">1.0.0,<2.0.0", ">= 1.0.0 , <= 2.0.0"] {
        match VersionConstraint::parse(text).unwrap() {
            VersionConstraint::Range(lo, hi) => {
                assert_eq!((lo.major, hi.major), (1, 2));
            }
            other => panic!("{other:?}"),
        }
    }
    for text in ["<1.0.0, >2.0.0", ">=1.0.0, >2.0.0", "<=1.0.0, <2.0.0", "1.0.0, 2.0.0", ">=1.0.0,", ">=1.0.0, <2.0.0, <3.0.0", ">=1.0.0, <2.0.0 x"] {
        let err = VersionConstraint::parse(text).unwrap_err();
        assert!(matches!(err, opencli::result::OpenCliError::Config(_)), "{text}");
    }
    assert!(matches!(VersionConstraint::parse_range(">= 1.5").unwrap(), VersionConstraint::GreaterEqual(_)));
    assert!(VersionConstraint::parse_range("^1.5").is_err());
}

#[test]
fn tilde_and_comparisons() {
    let t = VersionConstraint::Tilde(v(1, 2, 3));
    assert!(t.matches(&v(1, 2, 3)) && t.matches(&v(1, 2, 9)));
    assert!(!t.matches(&v(1, 3, 0)) && !t.matches(&v(1, 2, 2)));
    assert!(VersionConstraint::GreaterThan(v(1, 2, 3)).matches(&v(1, 2, 4)));
    assert!(!VersionConstraint::GreaterThan(v(1, 2, 3)).matches(&v(1, 2, 3)));
    assert!(VersionConstraint::LessEqual(v(1, 2, 3)).matches(&v(1, 2, 3)));
    assert!(!VersionConstraint::LessThan(v(1, 2, 3)).matches(&v(1, 2, 3)));
    assert!(VersionConstraint::Exact(v(1, 2, 3)).matches(&Version::with_suffix(1, 2, 3, "-x".to_string())));
}

#[test]
fn latest_matching_picks_newest_admitted() {
    let versions = vec![v(1, 0, 0), v(1, 5, 0), v(2, 0, 0), v(1, 4, 9)];
    let c = VersionConstraint::parse("^1.0.0").unwrap();
    let best = c.latest_matching(&versions).unwrap();
    assert_eq!((best.major, best.minor, best.patch), (1, 5, 0));
    let none = VersionConstraint::parse(">3.0.0").unwrap();
    assert!(none.latest_matching(&versions).is_none());
    assert!(c.latest_matching(&[]).is_none());
}

#[test]
fn latest_matching_takes_last_of_equal_releases() {
    let versions = vec![
        Version::with_suffix(1, 0, 0, "-a".to_string()),
        Version::with_suffix(1, 0, 0, "-b".to_string()),
    ];
    let c = VersionConstraint::parse("*").unwrap();
    assert_eq!(c.latest_matching(&versions).unwrap().suffix, "-b");
}

#[test]
fn order_ignores_suffix_and_equality_does_not() {
    let a = Version::with_suffix(1, 2, 3, "-a".to_string());
    let b = Version::with_suffix(1, 2, 3, "-b".to_string());
    assert!(!(a < b) && !(b < a));
    assert!(a != b);
    assert!(v(1, 2, 3) < v(1, 2, 4));
    assert!(v(1, 9, 9) < v(2, 0, 0));
    assert!(v(1, 2, 3) == v(1, 2, 3));
}

#[test]
fn refusals_name_what_was_refused() {
    assert_eq!(Version::parse("abc").unwrap_err().to_string(), "Config error: Invalid version format: abc");
    assert_eq!(
        VersionConstraint::parse(">= x").unwrap_err().to_string(),
        "Config error: Invalid version constraint: >= x"
    );
    assert_eq!(
        VersionConstraint::parse_range("<1.0.0, >2.0.0").unwrap_err().to_string(),
        "Config error: Invalid range constraint"
    );
}
