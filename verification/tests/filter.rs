use ldap_rs::error::Error;
use ldap_rs::filter::escape::{c2b, hex2b, is_hex, unescape};
use ldap_rs::filter::order::{rank, Rank};
use ldap_rs::filter::parse_filter;
use ldap_rs::filter::tree::{
    AttributeValueAssertion, Filter, MatchingRuleAssertion, SubstringChoice, SubstringFilter,
};

fn ava(attr: &str, value: &[u8]) -> AttributeValueAssertion {
    AttributeValueAssertion::new(attr.as_bytes().to_vec(), value.to_vec())
}

fn name(s: &str) -> Vec<u8> {
    s.as_bytes().to_vec()
}

#[test]
fn test_parser() {
    let test_filters = vec![
        (
            r#"(cn=Babs Jensen\2a\30T\30\01)"#,
            Filter::EqualityMatch(ava("cn", b"Babs Jensen*0T0\x01")),
        ),
        (
            r#"(objectSid=\01\05\00\00\00\00\00\05\15\00\00\00B\c9\b5+\b7\a79\87\16\0c\d4\a5\01\02\00\00)"#,
            Filter::EqualityMatch(ava(
                "objectSid",
                b"\x01\x05\0\0\0\0\0\x05\x15\0\0\0B\xc9\xb5+\xb7\xa79\x87\x16\x0c\xd4\xa5\x01\x02\0\0",
            )),
        ),
        ("(cn=*)", Filter::Present(name("cn"))),
        (
            "(!(cn=Tim Howes))",
            Filter::Not(Box::new(Filter::EqualityMatch(ava("cn", b"Tim Howes")))),
        ),
        (
            "(&(objectClass=Person)(|(sn=Jensen)(cn=Babs J*)))",
            Filter::And(vec![
                Filter::EqualityMatch(ava("objectClass", b"Person")),
                Filter::Or(vec![
                    Filter::EqualityMatch(ava("sn", b"Jensen")),
                    Filter::Substrings(SubstringFilter::new(
                        name("cn"),
                        vec![SubstringChoice::Initial(b"Babs J".to_vec())],
                    )),
                ]),
            ]),
        ),
        (
            "(o=univ*of*mich*end)",
            Filter::Substrings(SubstringFilter::new(
                name("o"),
                vec![
                    SubstringChoice::Initial(b"univ".to_vec()),
                    SubstringChoice::Any(b"of".to_vec()),
                    SubstringChoice::Any(b"mich".to_vec()),
                    SubstringChoice::Final(b"end".to_vec()),
                ],
            )),
        ),
        (
            "(cn:1.2.3.4.5:=Fred Flintstone)",
            Filter::ExtensibleMatch(MatchingRuleAssertion::new(
                Some(name("1.2.3.4.5")),
                Some(name("cn")),
                b"Fred Flintstone".to_vec(),
                false,
            )),
        ),
        (
            "(sn:dn:2.4.6.8.10:=Barney Rubble)",
            Filter::ExtensibleMatch(MatchingRuleAssertion::new(
                Some(name("2.4.6.8.10")),
                Some(name("sn")),
                b"Barney Rubble".to_vec(),
                true,
            )),
        ),
        (
            "(o:dn:=Ace Industry)",
            Filter::ExtensibleMatch(MatchingRuleAssertion::new(
                None,
                Some(name("o")),
                b"Ace Industry".to_vec(),
                true,
            )),
        ),
        (
            "(:dn:2.4.6.8.10:=Dino)",
            Filter::ExtensibleMatch(MatchingRuleAssertion::new(
                Some(name("2.4.6.8.10")),
                None,
                b"Dino".to_vec(),
                true,
            )),
        ),
        (
            "(!(userAccountControl:1.2.840.113556.1.4.803:=2))",
            Filter::Not(Box::new(Filter::ExtensibleMatch(MatchingRuleAssertion::new(
                Some(name("1.2.840.113556.1.4.803")),
                Some(name("userAccountControl")),
                b"2".to_vec(),
                false,
            )))),
        ),
    ];

    for f in test_filters {
        assert_eq!(parse_filter(f.0).unwrap(), f.1);
    }
}

#[test]
fn test_bad_filter_1() {
    let filter = r#"(objectClass=a\00test\bx\dd\\12)"#;
    assert!(parse_filter(filter).is_err());
}

#[test]
fn test_bad_filter_2() {
    let filter = r#"(objectClass=\\CC)"#;
    assert!(parse_filter(filter).is_err());
}

#[test]
fn test_bad_filter_3() {
    let filter = r#"(objectClass=\CC\\)"#;
    assert!(parse_filter(filter).is_err());
}

#[test]
fn test_bad_filter_4() {
    let filter = r#"(objectClass=\aav\bb\0n)"#;
    assert!(parse_filter(filter).is_err());
}

#[test]
fn test_unescape() {
    let hex = br#"hello\20\77\6f\72\6c\64\00\01"#;
    let decoded = unescape(hex);
    assert_eq!(decoded, b"hello world\x00\x01");
}

#[test]
fn test_unescape_bad_pattern() {
    let hex = br#"hello\\gg"#;
    let decoded = unescape(hex);
    assert_eq!(decoded, b"hello\\\\gg");
}

#[test]
fn bad_filter_is_invalid_filter() {
    assert_eq!(parse_filter(r#"(objectClass=\\CC)"#), Err(Error::InvalidFilter));
}

#[test]
fn filter_with_person_and_substring() {
    let parsed = parse_filter("(&(objectClass=person)(uid=ne*t*n))").unwrap();
    // the members of a set stand in the order of their texts, the shorter first
    let expected = Filter::And(vec![
        Filter::Substrings(SubstringFilter::new(
            name("uid"),
            vec![
                SubstringChoice::Initial(b"ne".to_vec()),
                SubstringChoice::Any(b"t".to_vec()),
                SubstringChoice::Final(b"n".to_vec()),
            ],
        )),
        Filter::EqualityMatch(ava("objectClass", b"person")),
    ]);
    assert_eq!(parsed, expected);
    assert_eq!(parsed, parse_filter("(&(uid=ne*t*n)(objectClass=person))").unwrap());
}

#[test]
fn escape_parse_gives_raw_bytes() {
    let parsed = parse_filter("(cn=Babs Jensen\\2a\\30T\\30\\01)").unwrap();
    assert_eq!(parsed, Filter::EqualityMatch(ava("cn", b"Babs Jensen*0T0\x01")));
}

fn text(f: &Filter) -> String {
    String::from_utf8(f.render()).unwrap()
}

#[test]
fn render_writes_the_filter_down() {
    let cases = [
        ("(cn=*)", "(cn=*)"),
        ("(cn=)", "(cn=)"),
        ("(cn=Babs Jensen\\2A\\30T\\30\\01)", "(cn=Babs Jensen\\2a0T0\\01)"),
        ("(!(cn=Tim Howes))", "(!(cn=Tim Howes))"),
        ("(&(objectClass=Person)(|(sn=Jensen)(cn=Babs J*)))", "(&(objectClass=Person)(|(sn=Jensen)(cn=Babs J*)))"),
        ("(&(a=1)(a=1)(b=2)(a=1))", "(&(a=1)(b=2))"),
        ("(o=univ*of*mich*end)", "(o=univ*of*mich*end)"),
        ("(o=*x)", "(o=*x)"),
        ("(o=*x*)", "(o=*x*)"),
        ("(o=x*)", "(o=x*)"),
        ("(a~=b)", "(a~=b)"),
        ("(a>=b)", "(a>=b)"),
        ("(a<=\\28)", "(a<=\\28)"),
        ("(cn:1.2.3.4.5:=Fred Flintstone)", "(cn:1.2.3.4.5:=Fred Flintstone)"),
        ("(sn:dn:2.4.6.8.10:=Barney Rubble)", "(sn:dn:2.4.6.8.10:=Barney Rubble)"),
        ("(o:dn:=Ace Industry)", "(o:dn:=Ace Industry)"),
        ("(:dn:2.4.6.8.10:=Dino)", "(:dn:2.4.6.8.10:=Dino)"),
        ("(:dn:=rule named dn)", "(:dn:=rule named dn)"),
        ("(cn:=x)", "(cn:=x)"),
        ("(cn=caf\u{e9})", "(cn=caf\\c3\\a9)"),
    ];
    for (input, expected) in cases {
        let parsed = parse_filter(input).unwrap();
        assert_eq!(text(&parsed), expected, "for {}", input);
        assert_eq!(parse_filter(&text(&parsed)).unwrap(), parsed, "for {}", input);
    }
}

#[test]
fn parse_render_parse_is_parse() {
    let inputs = [
        r#"(cn=Babs Jensen\2a\30T\30\01)"#,
        r#"(objectSid=\01\05\00\00\00\00\00\05\15\00\00\00B\c9\b5+\b7\a79\87\16\0c\d4\a5\01\02\00\00)"#,
        "(&(objectClass=person)(cn=*dm*)(!(userAccountControl:1.2.840.113556.1.4.803:=2)))",
        "(|(&(a=b)(c=d))(&(c=d)(a=b))(!(&(a=b)(c=d))))",
        "(a;lang-en=*\\2a*)",
    ];
    for input in inputs {
        let once = parse_filter(input).unwrap();
        let twice = parse_filter(&text(&once)).unwrap();
        assert_eq!(twice, once, "for {}", input);
    }
}

#[test]
fn sets_hold_nothing_twice() {
    assert_eq!(
        parse_filter("(|(a=1)(b=2)(a=1)(b=2)(c=3))").unwrap(),
        Filter::Or(vec![
            Filter::EqualityMatch(ava("a", b"1")),
            Filter::EqualityMatch(ava("b", b"2")),
            Filter::EqualityMatch(ava("c", b"3")),
        ])
    );
}

#[test]
fn extensible_forms() {
    let m = |rule: Option<&str>, attr: Option<&str>, value: &[u8], dn: bool| {
        Filter::ExtensibleMatch(MatchingRuleAssertion::new(
            rule.map(name),
            attr.map(name),
            value.to_vec(),
            dn,
        ))
    };
    assert_eq!(parse_filter("(cn:=x)").unwrap(), m(None, Some("cn"), b"x", false));
    assert_eq!(parse_filter("(cn:dn:=x)").unwrap(), m(None, Some("cn"), b"x", true));
    assert_eq!(parse_filter("(cn:dnx:=x)").unwrap(), m(Some("dnx"), Some("cn"), b"x", false));
    assert_eq!(parse_filter("(cn:dn:dn:=x)").unwrap(), m(Some("dn"), Some("cn"), b"x", true));
    assert_eq!(parse_filter("(:dn:=x)").unwrap(), m(Some("dn"), None, b"x", false));
    assert_eq!(parse_filter("(:caseExactMatch:=)").unwrap(), m(Some("caseExactMatch"), None, b"", false));
    for bad in ["(:=x)", "(::=x)", "(cn:dn:)", "(cn:=a*b)", "(cn:1.2:x)", "(cn::=x)", "(:dn::=x)"] {
        assert!(parse_filter(bad).is_err(), "{}", bad);
    }
}

#[test]
fn what_is_no_filter_is_rejected() {
    let bad = [
        "",
        "(",
        ")",
        "()",
        "cn=x",
        "(cn=x",
        "(cn=x))",
        "(cn=x)(cn=y)",
        " (cn=x)",
        "(&)",
        "(|)",
        "(!)",
        "(!(a=b)(c=d))",
        "(=x)",
        "(cn)",
        "(cn x=y)",
        "(cn=a(b)",
        "(cn=a\\)",
        "(cn=a\\2)",
        "(cn=a\\g0)",
        "(cn=a**b)",
        "(cn=**)",
        "(cn~=a*b)",
        "(cn>=*)",
        "(cn>x)",
        "(cn=a\0b)",
        "(&(cn=x)",
        "(&(cn=x)x)",
    ];
    for input in bad {
        assert_eq!(parse_filter(input), Err(Error::InvalidFilter), "{:?}", input);
    }
}

#[test]
fn same_compares_trees_and_clone_copies_them() {
    let texts = [
        "(cn=*)",
        "(cn=x)",
        "(cn=y)",
        "(sn=x)",
        "(cn~=x)",
        "(cn>=x)",
        "(cn<=x)",
        "(cn=x*)",
        "(cn=*x)",
        "(cn=*x*)",
        "(cn=x*y)",
        "(!(cn=x))",
        "(&(cn=x))",
        "(|(cn=x))",
        "(&(cn=x)(cn=y))",
        "(&(cn=y)(cn=z))",
        "(cn:=x)",
        "(cn:dn:=x)",
        "(cn:r:=x)",
        "(:r:=x)",
    ];
    let filters: Vec<Filter> = texts.iter().map(|t| parse_filter(t).unwrap()).collect();
    for (i, a) in filters.iter().enumerate() {
        assert_eq!(&a.clone(), a);
        for (j, b) in filters.iter().enumerate() {
            assert_eq!(a.same(b), i == j, "{} and {}", texts[i], texts[j]);
            assert_eq!(a.same(b), a == b);
        }
    }
}

#[test]
fn hex_digits() {
    assert_eq!(c2b(b'0'), 0);
    assert_eq!(c2b(b'9'), 9);
    assert_eq!(c2b(b'a'), 10);
    assert_eq!(c2b(b'f'), 15);
    assert_eq!(c2b(b'A'), 10);
    assert_eq!(c2b(b'F'), 15);
    assert_eq!(hex2b(b"2a"), 0x2a);
    assert_eq!(hex2b(b"FF"), 0xff);
    assert_eq!(hex2b(b"00"), 0);
    assert!(is_hex(b'c') && is_hex(b'C') && is_hex(b'7'));
    assert!(!is_hex(b'g') && !is_hex(b'G') && !is_hex(b'/') && !is_hex(b':') && !is_hex(b'`') && !is_hex(b'@'));
}

#[test]
fn unescape_takes_escapes_from_the_left() {
    assert_eq!(unescape(b""), b"");
    assert_eq!(unescape(b"\\"), b"\\");
    assert_eq!(unescape(b"\\4"), b"\\4");
    assert_eq!(unescape(b"\\41"), b"A");
    assert_eq!(unescape(b"\\\\41"), b"\\A");
    assert_eq!(unescape(b"\\5c41"), b"\\41");
    assert_eq!(unescape(b"a\\4g\\62c"), b"a\\4gbc");
}

#[test]
fn well_formed_trees_are_those_that_come_back() {
    let present = |a: &str| Filter::Present(name(a));
    let well_formed = vec![
        present("cn"),
        Filter::And(vec![present("a"), present("b")]),
        Filter::Not(Box::new(present("a;lang-en"))),
        Filter::EqualityMatch(ava("cn", b"")),
        Filter::Substrings(SubstringFilter::new(name("cn"), vec![SubstringChoice::Any(b"*".to_vec())])),
        Filter::ExtensibleMatch(MatchingRuleAssertion::new(Some(name("dn")), None, vec![0], false)),
        Filter::ExtensibleMatch(MatchingRuleAssertion::new(Some(name("dn")), Some(name("cn")), vec![], true)),
    ];
    for f in &well_formed {
        assert!(f.is_well_formed(), "{:?}", f);
        assert_eq!(&ldap_rs::filter::FilterParser::parse(&f.render()).unwrap(), f);
    }
    let ill_formed = vec![
        present(""),
        present("c n"),
        present("c=n"),
        Filter::And(vec![]),
        Filter::Or(vec![present("a"), present("a")]),
        Filter::Or(vec![present("b"), present("a")]),
        Filter::And(vec![present("ab"), present("c")]),
        Filter::And(vec![present("a"), present("")]),
        Filter::Not(Box::new(Filter::Or(vec![]))),
        Filter::GreaterOrEqual(ava("", b"x")),
        Filter::Substrings(SubstringFilter::new(name("cn"), vec![])),
        Filter::Substrings(SubstringFilter::new(name("cn"), vec![SubstringChoice::Any(vec![])])),
        Filter::Substrings(SubstringFilter::new(
            name("cn"),
            vec![SubstringChoice::Final(b"a".to_vec()), SubstringChoice::Any(b"b".to_vec())],
        )),
        Filter::Substrings(SubstringFilter::new(
            name("cn"),
            vec![SubstringChoice::Any(b"a".to_vec()), SubstringChoice::Initial(b"b".to_vec())],
        )),
        Filter::Substrings(SubstringFilter::new(
            name("cn"),
            vec![SubstringChoice::Initial(b"a".to_vec()), SubstringChoice::Initial(b"b".to_vec())],
        )),
        Filter::ExtensibleMatch(MatchingRuleAssertion::new(None, None, vec![], false)),
        Filter::ExtensibleMatch(MatchingRuleAssertion::new(None, None, vec![], true)),
        Filter::ExtensibleMatch(MatchingRuleAssertion::new(Some(name("dn")), Some(name("cn")), vec![], false)),
        Filter::ExtensibleMatch(MatchingRuleAssertion::new(Some(name("")), Some(name("cn")), vec![], false)),
    ];
    for f in &ill_formed {
        assert!(!f.is_well_formed(), "{:?}", f);
        assert_ne!(ldap_rs::filter::FilterParser::parse(&f.render()).ok().as_ref(), Some(f), "{:?}", f);
    }
}

#[test]
fn operands_are_a_set() {
    let first = parse_filter("(&(a=1)(a=1)(b=2))").unwrap();
    let second = parse_filter("(&(b=2)(a=1))").unwrap();
    let members = Filter::And(vec![
        Filter::EqualityMatch(ava("a", b"1")),
        Filter::EqualityMatch(ava("b", b"2")),
    ]);
    assert_eq!(first, second);
    assert_eq!(first, members);
    assert!(first.same(&second));
    assert_eq!(
        parse_filter("(|(cn=zz)(!(cn=a))(cn=b)(cn=zz)(cn=b))").unwrap(),
        parse_filter("(|(!(cn=a))(cn=zz)(cn=b))").unwrap()
    );
    // sets inside sets
    assert_eq!(
        parse_filter("(&(|(x=1)(y=2))(|(y=2)(x=1))(z=3))").unwrap(),
        parse_filter("(&(z=3)(|(y=2)(x=1)))").unwrap()
    );
    assert_ne!(parse_filter("(&(a=1)(b=2))").unwrap(), parse_filter("(|(a=1)(b=2))").unwrap());
    assert_ne!(parse_filter("(&(a=1)(b=2))").unwrap(), parse_filter("(&(a=1)(b=3))").unwrap());
}

#[test]
fn rank_orders_shorter_first_then_by_byte() {
    assert_eq!(rank(b"", b""), Rank::Same);
    assert_eq!(rank(b"", b"a"), Rank::Before);
    assert_eq!(rank(b"b", b"aa"), Rank::Before);
    assert_eq!(rank(b"aa", b"b"), Rank::After);
    assert_eq!(rank(b"ab", b"ac"), Rank::Before);
    assert_eq!(rank(b"ba", b"ab"), Rank::After);
    assert_eq!(rank(b"\xff", b"\x00\x00"), Rank::Before);
    assert_eq!(rank(b"abc", b"abc"), Rank::Same);
}
