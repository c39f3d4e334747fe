use reproto::model::{PathSegment, RpPathSegment, Token};
use reproto::version::{parse_u64, parse_version, parse_version_req, Comparator, Op, Version};

#[test]
fn parse_versions() {
    assert_eq!(parse_version(b"1.0.0"), Some(Version::new(1, 0, 0)));
    assert_eq!(parse_version(b"10.20.30"), Some(Version::new(10, 20, 30)));
    assert_eq!(parse_version(b"1.0"), None);
    assert_eq!(parse_version(b"1.0.x"), None);
    assert_eq!(parse_version(b"1.01.0"), None);
    assert_eq!(parse_version(b""), None);
}

#[test]
fn parse_numbers() {
    assert_eq!(parse_u64(b"0"), Some(0));
    assert_eq!(parse_u64(b"42"), Some(42));
    assert_eq!(parse_u64(b"18446744073709551615"), Some(u64::MAX));
    assert_eq!(parse_u64(b"18446744073709551616"), None);
    assert_eq!(parse_u64(b"007"), None);
    assert_eq!(parse_u64(b""), None);
}

#[test]
fn parse_requirements() {
    let req = parse_version_req(b">=1.0.0,<2.0.0").unwrap();
    assert!(req.matches(&Version::new(1, 0, 0)));
    assert!(req.matches(&Version::new(1, 5, 0)));
    assert!(!req.matches(&Version::new(0, 9, 0)));
    assert!(!req.matches(&Version::new(2, 0, 0)));

    let exact = parse_version_req(b"=1.2.3").unwrap();
    assert!(exact.matches(&Version::new(1, 2, 3)));
    assert!(!exact.matches(&Version::new(1, 2, 4)));

    let bare = parse_version_req(b"3.0.0").unwrap();
    assert_eq!(bare.comparators[0], Comparator { op: Op::Exact, version: Version::new(3, 0, 0) });

    assert!(parse_version_req(b">=1.0").is_none());
}

#[test]
fn keyword_safe_variants() {
    assert_eq!(Token::TypeKeyword.keyword_safe(), Some("_type"));
    assert_eq!(Token::StreamKeyword.keyword_safe(), Some("_stream"));
    assert_eq!(Token::Comma.keyword_safe(), None);
    assert_eq!(Token::Identifier(String::from("x")).keyword_safe(), None);
}

#[test]
fn path_segments() {
    let lit = RpPathSegment::Literal { value: String::from("users") };
    assert_eq!(lit.path(), "users");
    assert_eq!(lit.id(), "users");
    let var = RpPathSegment::Variable { name: String::from("id"), ty: String::from("u64") };
    assert_eq!(var.path(), "{id}");
    assert_eq!(var.id(), "id");
    let parsed = PathSegment::Variable { name: String::from("id"), ty: String::from("u64") };
    match parsed.into_model() {
        RpPathSegment::Variable { name, ty } => {
            assert_eq!(name, "id");
            assert_eq!(ty, "u64");
        },
        _ => panic!("expected a variable segment"),
    }
}
