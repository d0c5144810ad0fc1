use version_spec::constraint::{ConstraintSpec, Spec, SpecRegistry};
use version_spec::errors::SpecError;

fn spec(text: &str) -> ConstraintSpec {
    match ConstraintSpec::parse(text) {
        Ok(cs) => cs,
        Err(_) => panic!("constraint should parse: {}", text),
    }
}

fn parse_fails(text: &str) -> SpecError {
    match ConstraintSpec::parse(text) {
        Ok(_) => panic!("constraint should be rejected: {}", text),
        Err(e) => e,
    }
}

#[test]
fn test_ver_eval() {
    assert_eq!(spec("==1.7").test_match("1.7.0"), true);
    assert_eq!(spec("<=1.7").test_match("1.7.0"), true);
    assert_eq!(spec("<1.7").test_match("1.7.0"), false);
    assert_eq!(spec(">=1.7").test_match("1.7.0"), true);
    assert_eq!(spec(">1.7").test_match("1.7.0"), false);
    assert_eq!(spec(">=1.7").test_match("1.6.7"), false);
    assert_eq!(spec("2013a").test_match(">2013b"), false);
    assert_eq!(spec("2013k").test_match(">2013b"), true);
    assert_eq!(spec("3.0.0").test_match(">2013b"), false);
    assert_eq!(spec("1.0.0").test_match(">1.0.0a"), true);
    assert_eq!(spec("1.0.0").test_match(">1.0.0*"), true);
    assert_eq!(spec("1.0").test_match("1.0*"), true);
    assert_eq!(spec("1.0.0").test_match("1.0*"), true);
    assert_eq!(spec("1.0").test_match("1.0.0*"), true);
    assert_eq!(spec("1.0.1").test_match("1.0.0*"), false);
    assert_eq!(spec("2013a").test_match("2013a*"), true);
    assert_eq!(spec("2013a").test_match("2013b*"), false);
    assert_eq!(spec("2013ab").test_match("2013a*"), true);
    assert_eq!(spec("1.3.4").test_match("1.2.4*"), false);
    assert_eq!(spec("1.2.3+4.5.6").test_match("1.2.3*"), true);
    assert_eq!(spec("1.2.3+4.5.6").test_match("1.2.3+4*"), true);
    assert_eq!(spec("1.2.3+4.5.6").test_match("1.2.3+5*"), false);
    assert_eq!(spec("1.2.3+4.5.6").test_match("1.2.4+5*"), false);
}

#[test]
fn test_ver_eval_errors() {
    // A candidate under no valid reading satisfies nothing; matching
    // itself never fails once the constraint has been built.
    assert_eq!(spec("3.0.0").test_match("><2.4.5"), false);
    assert_eq!(spec("3.0.0").test_match("!!2.4.5"), false);
    assert_eq!(spec("3.0.0").test_match("!"), false);
}

#[test]
fn test_version_spec_1() {
    let mut reg = SpecRegistry::new();
    let id1 = reg.parse_interned("1.7.1").unwrap();
    let id2 = reg.parse_interned("1.7.1*").unwrap();
    let id3 = reg.parse_interned("1.7.1").unwrap();
    let v1 = reg.get(id1);
    let v2 = reg.get(id2);
    let v3 = reg.get(id3);
    assert!(v1.is_exact());
    assert_ne!(v2.is_exact(), true);
    assert!(v3.is_exact());
    assert!(v1.same_constraint(v3));
    assert!(!v1.same_constraint(v2));
    assert!(!v3.same_constraint(v2));
    // interning: equal canonical constraints are one shared instance
    assert_eq!(id1, id3);
    assert_ne!(id1, id2);
}

#[test]
fn test_version_spec_2() {
    let v1 = spec("( (1.5|((1.6|1.7), 1.8), 1.9 |2.0))|2.1");
    assert_eq!(v1.canonical_text(), "1.5|1.6|1.7,1.8,1.9|2.0|2.1");
    assert!(ConstraintSpec::parse("(1.5").is_err());
    assert!(ConstraintSpec::parse("1.5)").is_err());
    assert!(ConstraintSpec::parse("1.5||1.6").is_err());
    assert!(ConstraintSpec::parse("^1.5").is_err());
}

#[test]
fn test_version_spec_3() {
    let mut reg = SpecRegistry::new();
    let id1 = reg.parse_interned("1.7.1*").unwrap();
    let id2 = reg.parse_interned("1.7.1.*").unwrap();
    assert_eq!(reg.get(id1).is_exact(), false);
    assert_eq!(reg.get(id2).is_exact(), false);
    assert!(reg.get(id1).same_constraint(reg.get(id2)));
    assert_eq!(reg.get(id1).same_constraint(reg.get(id2)), true);
    assert_eq!(id1, id2);
}

#[test]
fn test_version_spec_4() {
    let mut reg = SpecRegistry::new();
    let id1 = reg.parse_interned("1.7.1*,1.8.1*").unwrap();
    let id2 = reg.parse_interned("1.7.1.*,1.8.1.*").unwrap();
    let id3 = reg.parse_interned("1.7.1*,1.8.1.*").unwrap();
    assert_eq!(reg.get(id1).is_exact(), false);
    assert_eq!(reg.get(id2).is_exact(), false);
    assert!(reg.get(id1).same_constraint(reg.get(id2)));
    assert!(reg.get(id2).same_constraint(reg.get(id3)));
    assert_eq!(id1, id2);
    assert_eq!(id1, id3);
}

#[test]
fn test_match() {
    let cases: Vec<(&str, bool)> = vec![
        ("1.7.*", true),
        ("1.7.1", true),
        ("1.7.0", false),
        ("1.7", false),
        ("1.5.*", false),
        (">=1.5", true),
        ("!=1.5", true),
        ("!=1.7.1", false),
        ("==1.7.1", true),
        ("==1.7", false),
        ("==1.7.2", false),
        ("==1.7.1.0", true),
        ("1.7.*|1.8.*", true),
        (">1.7,<1.8", true),
        (">1.7.1,<1.8", false),
        ("^1.7.1$", true),
        (r"^1\.7\.1$", true),
        (r"^1\.7\.[0-9]+$", true),
        (r"^1\.8.*$", false),
        (r"^1\.[5-8]\.1$", true),
        (r"^[^1].*$", false),
        (r"^[0-9+]+\.[0-9+]+\.[0-9]+$", true),
        ("^$", false),
        ("^.*$", true),
        ("1.7.*|^0.*$", true),
        ("1.6.*|^0.*$", false),
        ("1.6.*|^0.*$|1.7.1", true),
        ("^0.*$|1.7.1", true),
        (r"1.6.*|^.*\.7\.1$|0.7.1", true),
        ("*", true),
        ("1.*.1", true),
        ("1.5.*|>1.7,<1.8", true),
        ("1.5.*|>1.7,<1.7.1", false),
    ];
    for (vspec, expected) in cases {
        let m = spec(vspec);
        assert_eq!(m.canonical_text(), vspec, "canonical text of {}", vspec);
        assert_eq!(m.test_match("1.7.1"), expected, "{}", vspec);
    }
}

#[test]
fn test_local_identifier() {
    // The separator for the local identifier should be either `.` or `+`;
    // a valid version text matches itself.
    let versions = [
        "1.7.0",
        "1.7.0.post123",
        "1.7.0.post123.gabcdef9",
        "1.7.0.post123 + gabcdef9",
    ];
    for version in versions {
        let m = spec(version);
        assert!(m.test_match(version), "{}", version);
    }
}

#[test]
fn test_not_eq_star() {
    assert_eq!(spec("=3.3").test_match("3.3.1"), true);
    assert_eq!(spec("=3.3").test_match("3.3"), true);
    assert_eq!(spec("=3.3").test_match("3.4"), false);

    assert_eq!(spec("3.3.*").test_match("3.3.1"), true);
    assert_eq!(spec("3.3.*").test_match("3.3"), true);
    assert_eq!(spec("3.3.*").test_match("3.4"), false);

    assert_eq!(spec("=3.3.*").test_match("3.3.1"), true);
    assert_eq!(spec("=3.3.*").test_match("3.3"), true);
    assert_eq!(spec("=3.3.*").test_match("3.4"), false);

    assert_eq!(spec("!=3.3.*").test_match("3.3.1"), false);
    assert_eq!(spec("!=3.3.*").test_match("3.4"), true);
    assert_eq!(spec("!=3.3.*").test_match("3.4.1"), true);

    assert_eq!(spec("!=3.3").test_match("3.3.1"), true);
    assert_eq!(spec("!=3.3").test_match("3.3.0.0"), false);
    assert_eq!(spec("!=3.3.*").test_match("3.3.0.0"), false);
}

#[test]
fn test_compound_versions() {
    let vs = spec(">=2.7, !=3.0.*, !=3.1.*, !=3.2.*, !=3.3.*");
    assert_eq!(vs.test_match("2.6.8"), false);
    assert!(vs.test_match("2.7.2"));
    assert_eq!(vs.test_match("3.3"), false);
    assert_eq!(vs.test_match("3.3.4"), false);
    assert!(vs.test_match("3.4"));
    assert!(vs.test_match("3.4a"));
}

#[test]
fn test_invalid_version_specs() {
    assert!(ConstraintSpec::parse("~").is_err());
    assert!(ConstraintSpec::parse("^").is_err());
}

#[test]
fn test_compatible_release_versions() {
    assert_eq!(spec("~=1.10").test_match("1.11.0"), true);
    assert_eq!(spec("~=1.10.0").test_match("1.11.0"), false);

    assert_eq!(spec("~=3.3.2").test_match("3.4.0"), false);
    assert_eq!(spec("~=3.3.2").test_match("3.3.1"), false);
    assert_eq!(spec("~=3.3.2").test_match("3.3.2.0"), true);
    assert_eq!(spec("~=3.3.2").test_match("3.3.3"), true);

    assert_eq!(spec("~=3.3.2|==2.2").test_match("2.2.0"), true);
    assert_eq!(spec("~=3.3.2|==2.2").test_match("3.3.3"), true);
    assert_eq!(spec("~=3.3.2|==2.2").test_match("2.2.1"), false);

    assert!(ConstraintSpec::parse("~=3.3.2.*").is_err());
}

#[test]
fn test_pep_440_arbitrary_equality_operator() {
    assert!(ConstraintSpec::parse("===3.3.2.*").is_err());
}

#[test]
fn test_error_variants() {
    assert_eq!(parse_fails("(1.5"), SpecError::Syntax);
    assert_eq!(parse_fails("1.5)"), SpecError::Syntax);
    assert_eq!(parse_fails("1.5||1.6"), SpecError::Syntax);
    assert_eq!(parse_fails("^1.5"), SpecError::Operator);
    assert_eq!(parse_fails("~"), SpecError::Operator);
    assert_eq!(parse_fails("~=3.3.2.*"), SpecError::Operator);
    assert_eq!(parse_fails("1..2"), SpecError::VersionParse);
    assert_eq!(parse_fails(">=1.%"), SpecError::VersionParse);
    assert_eq!(parse_fails("^[$"), SpecError::RegexCompile);
}

#[test]
fn test_spec_trait_surface() {
    let m = spec("==1.7.1");
    assert_eq!(m.get_spec(), "==1.7.1");
    assert_eq!(m.raw_value(), "==1.7.1");
    assert!(Spec::is_exact(&m));
    assert_eq!(m.exact_value(), Some("==1.7.1"));
    let n = spec(">=1.5");
    assert_eq!(n.exact_value(), None);
    let matcher = m.get_matcher();
    let _ = matcher;
}

#[test]
fn test_exact_flags() {
    assert!(spec("1.7.1").is_exact());
    assert!(spec("==1.7").is_exact());
    assert!(!spec("=1.7").is_exact());
    assert!(!spec("1.7.*").is_exact());
    assert!(!spec("*").is_exact());
    assert!(!spec(">1.7,<1.8").is_exact());
}

#[test]
fn test_always_matches_everything() {
    let star = spec("*");
    for candidate in ["0", "1.7.1", "2013a", "1.2.3+4.5.6", "x.y.z"] {
        assert!(star.test_match(candidate), "{}", candidate);
    }
}

#[test]
fn test_exact_text_with_at() {
    let m = spec("1.2.3@be001");
    assert!(m.is_exact());
    assert!(m.test_match("1.2.3@be001"));
    assert!(!m.test_match("1.2.3"));
}

#[test]
fn test_canonical_star_normalization() {
    assert_eq!(spec("1.7.1*").canonical_text(), "1.7.1.*");
    assert_eq!(spec("1.7.1.*").canonical_text(), "1.7.1.*");
    assert_eq!(spec("1.7.*").canonical_text(), "1.7.*");
}

#[test]
fn test_registry_distinct_constraints() {
    let mut reg = SpecRegistry::new();
    let a = reg.parse_interned("1.7.*").unwrap();
    let b = reg.parse_interned("1.8.*").unwrap();
    let c = reg.parse_interned("1.7.*").unwrap();
    assert_ne!(a, b);
    assert_eq!(a, c);
    assert_eq!(reg.len(), 2);
    assert!(reg.get(a).test_match("1.7.9"));
    assert!(!reg.get(b).test_match("1.7.9"));
}

#[test]
fn test_alpha_ordering_details() {
    // an alphabetic run sorts below a numeric run at the same position
    assert_eq!(spec("<1.0.0").test_match("1.0.0a"), true);
    assert_eq!(spec(">2013a").test_match("2013ab"), true);
    assert_eq!(spec("==1.7").test_match("1.7.0.0.0"), true);
}

#[test]
fn test_canonical_fixed_point() {
    let first = spec("( (1.5|((1.6|1.7), 1.8), 1.9 |2.0))|2.1");
    let canon = first.canonical_text().to_string();
    let second = spec(&canon);
    assert_eq!(second.canonical_text(), canon);
    let third = spec("1.7.1*,1.8.1*");
    assert_eq!(third.canonical_text(), "1.7.1.*,1.8.1.*");
    assert_eq!(spec(third.canonical_text()).canonical_text(), "1.7.1.*,1.8.1.*");
}

#[test]
fn test_error_descriptions() {
    assert_eq!(SpecError::Syntax.describe(), "malformed constraint syntax");
    assert_eq!(SpecError::Operator.describe(), "invalid operator usage");
    assert_eq!(SpecError::VersionParse.describe(), "invalid version text");
    assert_eq!(
        SpecError::RegexCompile.describe(),
        "regular expression failed to compile"
    );
}
