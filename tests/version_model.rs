use cargo_stale::requirement::{parse_simple_version, parse_version_requirement};
use cargo_stale::version::Version;
use std::cmp::Ordering;

#[test]
fn parses_full_version() {
    let v = Version::parse(" 1.2.3-rc.1+build.5 ").unwrap();
    assert_eq!(v.major, 1);
    assert_eq!(v.minor, Some(2));
    assert_eq!(v.patch, Some(3));
    assert_eq!(v.pre_release.as_deref(), Some("rc.1"));
    assert_eq!(v.build.as_deref(), Some("build.5"));
}

#[test]
fn parses_partial_versions() {
    let v = Version::parse("7").unwrap();
    assert_eq!((v.major, v.minor, v.patch), (7, None, None));
    let v = Version::parse("7.4").unwrap();
    assert_eq!((v.major, v.minor, v.patch), (7, Some(4), None));
    let v = Version::parse("1.0.0+build.123").unwrap();
    assert_eq!(v.pre_release, None);
    assert_eq!(v.build.as_deref(), Some("build.123"));
}

#[test]
fn rejects_bad_versions() {
    assert!(Version::parse("").is_none());
    assert!(Version::parse("a.1.2").is_none());
    assert!(Version::parse("1.x").is_none());
    assert!(Version::parse("1.2.3.4").is_none());
    assert!(Version::parse("4294967296").is_none());
    assert!(Version::parse("4294967295").is_some());
    assert!(Version::parse("^1.0").is_none());
}

#[test]
fn renders_back() {
    for text in ["1", "1.2", "1.2.3", "1.2.3-alpha.1", "0.1.0+meta", "2.0.0-rc.1+b.7"] {
        assert_eq!(Version::parse(text).unwrap().render(), text);
    }
}

#[test]
fn ordering() {
    let p = |s: &str| Version::parse(s).unwrap();
    assert_eq!(p("1.2.3").compare(&p("1.2.4")), Ordering::Less);
    assert_eq!(p("2.0.0").compare(&p("1.9.9")), Ordering::Greater);
    assert_eq!(p("1.2.3").compare(&p("1.2.3")), Ordering::Equal);
    assert_eq!(p("1.2.3-rc.1").compare(&p("1.2.3")), Ordering::Less);
    assert_eq!(p("1.2.3-alpha").compare(&p("1.2.3-beta")), Ordering::Less);
    assert_eq!(p("1").compare(&p("1.5.0")), Ordering::Equal);
    assert_eq!(p("1.2.3+a").compare(&p("1.2.3+b")), Ordering::Equal);
    let (a, b, c) = (p("0.9.0"), p("1.0.0-rc.1"), p("1.0.0"));
    assert_eq!(a.compare(&b), Ordering::Less);
    assert_eq!(b.compare(&c), Ordering::Less);
    assert_eq!(a.compare(&c), Ordering::Less);
    assert_eq!(c.compare(&a), Ordering::Greater);
}

#[test]
fn requirement_operators() {
    let cases = [
        ("^1.2", "^", "1.2"),
        ("~0.3.4", "~", "0.3.4"),
        ("=2.0.0", "=", "2.0.0"),
        (">=1.0", ">=", "1.0"),
        ("<=1.0", "<=", "1.0"),
        (">1.0", ">", "1.0"),
        ("<1.0", "<", "1.0"),
        ("  1.0.4 ", "", "1.0.4"),
    ];
    for (text, op, body) in cases {
        let r = parse_version_requirement(text).unwrap();
        assert_eq!(r.operator, op);
        assert_eq!(r.version, body);
    }
}

#[test]
fn simple_versions() {
    assert_eq!(parse_simple_version("1.2.3"), Some((1, 2, 3)));
    assert_eq!(parse_simple_version("1.2"), Some((1, 2, 0)));
    assert_eq!(parse_simple_version("1"), Some((1, 0, 0)));
    assert_eq!(parse_simple_version("1.2.3.4"), Some((1, 2, 3)));
    assert_eq!(parse_simple_version("1.x"), None);
    assert_eq!(parse_simple_version(""), None);
}
