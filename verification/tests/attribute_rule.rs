//! Rules by attribute.

use oc_protocol::attribute_rule::{
    decode, encode, is_identifier, parse_clause, profiles, tag, Clause, Mode, Rule, Tightening,
    MAX_CLAUSES, MAX_NAME_BYTES, MAX_TIGHTENINGS, MAX_VALUES,
};
use oc_protocol::error::FormatError;
use oc_protocol::tlv::{TlvReader, TlvWriter};

fn stream(items: &[Vec<u8>]) -> Vec<u8> {
    let mut out = Vec::new();
    for item in items {
        out.extend_from_slice(&(item.len() as u32).to_le_bytes());
        out.extend_from_slice(item);
    }
    out
}

fn clause(attribute: &str, mode: Mode, values: &[&str]) -> Clause {
    Clause {
        attribute: attribute.to_string(),
        mode,
        values: values.iter().map(|v| (*v).to_string()).collect(),
    }
}

fn sample() -> Rule {
    Rule {
        clauses: vec![
            clause("dept", Mode::AnyOf, &["legal", "production"]),
            clause("contract", Mode::AtLeast, &["2026"]),
        ],
        max_lease_seconds: Some(86_400),
        tightenings: vec![Tightening {
            unless: clause("clearance", Mode::AllOf, &["secret"]),
            profile: vec![1, 0, 1, 0, 0, 0, 7],
        }],
    }
}

#[test]
fn a_rule_survives_the_round_trip() {
    let bytes = encode(&sample()).unwrap();
    assert_eq!(decode(&bytes, None).unwrap(), sample());
    let empty = encode(&Rule::default()).unwrap();
    assert!(decode(&empty, None).unwrap().is_empty());
}

#[test]
fn without_tightenings_the_third_tag_is_absent() {
    let plain = Rule { tightenings: Vec::new(), ..sample() };
    let bytes = encode(&plain).unwrap();
    let mut reader = TlvReader::new(&bytes);
    while let Some(field) = reader.next_field().unwrap() {
        assert_ne!(field.tag, tag::TIGHTENINGS, "пустые ужесточения записаны");
    }
}

#[test]
fn a_hostile_rule_is_refused_on_parsing() {
    let bad = |rule: Rule, why: &str| {
        assert!(encode(&rule).is_err(), "записано: {why}");
    };
    bad(
        Rule { clauses: vec![clause("dept", Mode::AnyOf, &[])], ..Rule::default() },
        "пустое условие",
    );
    bad(
        Rule { clauses: vec![clause("dept", Mode::AtLeast, &["a", "b"])], ..Rule::default() },
        "«не ниже» двух",
    );
    bad(
        Rule { clauses: vec![clause("отдел", Mode::AnyOf, &["a"])], ..Rule::default() },
        "не идентификатор",
    );
    bad(
        Rule { clauses: vec![clause("dept", Mode::AnyOf, &["a b"])], ..Rule::default() },
        "пробел в значении",
    );
    bad(Rule { max_lease_seconds: Some(0), ..Rule::default() }, "нулевой потолок");
    bad(
        Rule { clauses: vec![clause("dept", Mode::AnyOf, &["a"]); MAX_CLAUSES + 1], ..Rule::default() },
        "условий сверх предела",
    );

    let mut bytes = encode(
        &Rule { clauses: vec![clause("dept", Mode::AnyOf, &["a"])], ..Rule::default() },
    ).unwrap();
    let at = bytes.iter().position(|b| *b == Mode::AnyOf.as_u8()).unwrap();
    bytes[at] = 9;
    assert!(decode(&bytes, None).is_err(), "незнакомый режим разобран");

    let mut item = vec![Mode::AllOf.as_u8()];
    item.extend_from_slice(&stream(&[b"dept".to_vec()]));
    let mut w = TlvWriter::new();
    w.put(tag::CLAUSES, &stream(&[item])).unwrap();
    assert!(decode(&w.finish(), None).is_err(), "условие без значений разобрано");

    let mut w = TlvWriter::new();
    w.put(tag::MAX_LEASE, &10i64.to_le_bytes()).unwrap();
    assert!(matches!(decode(&w.finish(), None), Err(FormatError::MissingField { .. })));

    let mut w = TlvWriter::new();
    w.put(tag::CLAUSES, &[]).unwrap();
    w.put(tag::TIGHTENINGS, &[]).unwrap();
    assert!(decode(&w.finish(), None).is_err(), "пустой поток ужесточений разобран");

    let mut w = TlvWriter::new();
    w.put(tag::CLAUSES, &[]).unwrap();
    w.put(9, &[1]).unwrap();
    assert!(matches!(decode(&w.finish(), None), Err(FormatError::UnknownCriticalField { tag: 9 })));
}

#[test]
fn a_clause_is_read_from_the_command_line_one_way() {
    assert_eq!(
        parse_clause("dept=legal|production").unwrap(),
        clause("dept", Mode::AnyOf, &["legal", "production"]),
    );
    assert_eq!(
        parse_clause("dept=legal&production").unwrap(),
        clause("dept", Mode::AllOf, &["legal", "production"]),
    );
    assert_eq!(
        parse_clause("contract>=2026").unwrap(),
        clause("contract", Mode::AtLeast, &["2026"]),
    );
    assert_eq!(parse_clause("dept=legal").unwrap(), clause("dept", Mode::AnyOf, &["legal"]));
    assert!(parse_clause("dept").is_err());
    assert!(parse_clause("dept=a|b&c").is_err(), "смешанное условие разобрано");
}

#[test]
fn attribute_rule_decoding_arbitrary_bytes_never_panics() {
    let bytes = encode(&sample()).unwrap();
    for cut in 0..bytes.len() {
        let _ = decode(&bytes[..cut], None);
    }
    for at in 0..bytes.len() {
        let mut damaged = bytes.clone();
        damaged[at] ^= 0xff;
        let _ = decode(&damaged, None);
    }
    let mut w = TlvWriter::new();
    w.put(tag::CLAUSES, &u32::MAX.to_le_bytes()).unwrap();
    assert!(decode(&w.finish(), None).is_err());
}

#[test]
fn the_bytes_of_a_rule_are_fixed() {
    let rule = Rule {
        clauses: vec![clause("d", Mode::AtLeast, &["a"])],
        max_lease_seconds: Some(10),
        tightenings: vec![],
    };
    let bytes = encode(&rule).unwrap();
    let mut expected = vec![1, 0, 8, 0, 0, 0, 10, 0, 0, 0, 0, 0, 0, 0];
    expected.extend_from_slice(&[2, 0, 15, 0, 0, 0, 11, 0, 0, 0, 3]);
    expected.extend_from_slice(&[1, 0, 0, 0, b'd', 1, 0, 0, 0, b'a']);
    assert_eq!(bytes, expected);
}

#[test]
fn a_profile_that_its_codec_refuses_refuses_the_rule() {
    let bytes = encode(&sample()).unwrap();
    let why = FormatError::MissingField { tag: 77 };
    assert_eq!(decode(&bytes, Some((0, why))), Err(why));
    assert_eq!(decode(&bytes, Some((1, why))).unwrap(), sample());
}

#[test]
fn every_limit_of_a_rule_is_named() {
    let many = Rule {
        tightenings: vec![sample().tightenings[0].clone(); MAX_TIGHTENINGS + 1],
        ..Rule::default()
    };
    assert_eq!(
        encode(&many),
        Err(FormatError::BadFieldLength { tag: tag::TIGHTENINGS, len: MAX_TIGHTENINGS + 1 })
    );
    let wide = Rule {
        clauses: vec![clause("dept", Mode::AnyOf, &vec!["a"; MAX_VALUES + 1])],
        ..Rule::default()
    };
    assert_eq!(
        encode(&wide),
        Err(FormatError::BadFieldLength { tag: tag::CLAUSES, len: MAX_VALUES + 1 })
    );
    let never = Rule { max_lease_seconds: Some(-1), ..Rule::default() };
    assert_eq!(encode(&never), Err(FormatError::UnknownCriticalField { tag: tag::MAX_LEASE }));
    let mut long = TlvWriter::new();
    long.put(tag::CLAUSES, &stream(&vec![vec![]; MAX_CLAUSES + 1])).unwrap();
    assert_eq!(
        decode(&long.finish(), None),
        Err(FormatError::BadFieldLength { tag: tag::CLAUSES, len: MAX_CLAUSES + 1 })
    );
    let mut lone = TlvWriter::new();
    lone.put(tag::CLAUSES, &[]).unwrap();
    let pair = stream(&[vec![1, 1, 0, 0, 0, b'd', 1, 0, 0, 0, b'a']]);
    lone.put(tag::TIGHTENINGS, &stream(&[pair])).unwrap();
    assert_eq!(
        decode(&lone.finish(), None),
        Err(FormatError::BadFieldLength { tag: tag::TIGHTENINGS, len: 1 })
    );
}

#[test]
fn an_identifier_is_short_and_plain() {
    assert!(is_identifier("a"));
    assert!(is_identifier("Dept_1.2:x/y-z"));
    assert!(is_identifier(&"x".repeat(MAX_NAME_BYTES)));
    assert!(!is_identifier(&"x".repeat(MAX_NAME_BYTES + 1)));
    for bad in ["", "a b", "a=b", "a|b", "a&b", "é", "a\"b"] {
        assert!(!is_identifier(bad), "{bad}");
    }
}

#[test]
fn a_clause_keeps_empty_pieces_and_later_signs() {
    assert_eq!(parse_clause("a=").unwrap(), clause("a", Mode::AnyOf, &[""]));
    assert_eq!(parse_clause("a=b||c").unwrap(), clause("a", Mode::AnyOf, &["b", "", "c"]));
    assert_eq!(parse_clause("a=b=c").unwrap(), clause("a", Mode::AnyOf, &["b=c"]));
    assert_eq!(parse_clause("a=b>=c").unwrap(), clause("a=b", Mode::AtLeast, &["c"]));
    assert_eq!(parse_clause(">=").unwrap(), clause("", Mode::AtLeast, &[""]));
    assert_eq!(parse_clause("отдел=да&нет").unwrap(), clause("отдел", Mode::AllOf, &["да", "нет"]));
    assert_eq!(parse_clause(""), Err("ожидалось имя=значение"));
}

#[test]
fn modes_have_numbers() {
    for mode in [Mode::AnyOf, Mode::AllOf, Mode::AtLeast] {
        assert_eq!(Mode::from_u8(mode.as_u8()), Some(mode));
    }
    assert_eq!(Mode::from_u8(0), None);
    assert_eq!(Mode::from_u8(4), None);
}

#[test]
fn the_profiles_are_told_before_the_rule_is_read() {
    let mut rule = sample();
    rule.tightenings.push(Tightening {
        unless: clause("dept", Mode::AnyOf, &["legal"]),
        profile: vec![9, 9],
    });
    let bytes = encode(&rule).unwrap();
    assert_eq!(profiles(&bytes), vec![vec![1, 0, 1, 0, 0, 0, 7], vec![9, 9]]);
    let why = FormatError::MissingField { tag: 77 };
    assert_eq!(decode(&bytes, Some((1, why))), Err(why));
    assert_eq!(decode(&bytes, Some((0, why))), Err(why));
    assert_eq!(decode(&bytes, None).unwrap(), rule);
    assert!(profiles(&encode(&Rule::default()).unwrap()).is_empty());

    // The second item has one part only.
    let mut w = TlvWriter::new();
    w.put(tag::CLAUSES, &[]).unwrap();
    let whole = stream(&[b"x".to_vec(), vec![5]]);
    w.put(tag::TIGHTENINGS, &stream(&[whole, stream(&[b"x".to_vec()])])).unwrap();
    assert_eq!(profiles(&w.finish()), vec![vec![5]]);
    assert!(profiles(b"not a rule").is_empty());
}

#[test]
fn a_typed_condition_is_read_back() {
    for (mode, sign, between) in [(Mode::AnyOf, "=", "|"), (Mode::AllOf, "=", "&")] {
        for values in [vec!["a", "b-1"], vec!["a", "b", "x.y:z/w"]] {
            let typed = format!("dept{}{}", sign, values.join(between));
            assert_eq!(parse_clause(&typed).unwrap(), clause("dept", mode, &values));
        }
    }
    assert_eq!(parse_clause("d.e>=2026").unwrap(), clause("d.e", Mode::AtLeast, &["2026"]));
    assert_eq!(parse_clause("dept=").unwrap(), clause("dept", Mode::AnyOf, &[""]));
    assert_eq!(parse_clause("=a").unwrap(), clause("", Mode::AnyOf, &["a"]));
    assert_eq!(parse_clause("a>=b=c").unwrap(), clause("a", Mode::AtLeast, &["b=c"]));
    assert_eq!(parse_clause("dept=a||b").unwrap(), clause("dept", Mode::AnyOf, &["a", "", "b"]));
}

#[test]
fn a_condition_that_mixes_its_separators_is_refused_wherever_they_stand() {
    let mixed = "«любое из» и «все» в одном условии не смешиваются";
    assert_eq!(parse_clause("a>=b|c&d"), Err(mixed));
    assert_eq!(parse_clause("a|b&c=d"), Err(mixed));
    assert_eq!(parse_clause("a|b>=c&d"), Err(mixed));
    assert_eq!(parse_clause("a=b|c&d"), Err(mixed));
    assert_eq!(parse_clause("a&b=c|d"), Err(mixed));

    let bare = "ожидалось имя=значение";
    assert_eq!(parse_clause("a|b&c"), Err(bare));
    assert_eq!(parse_clause("a>b"), Err(bare));
    assert_eq!(parse_clause(""), Err(bare));

    assert_eq!(parse_clause("a>=b|c").unwrap(), clause("a", Mode::AtLeast, &["b|c"]));
    assert_eq!(parse_clause("a|b=c").unwrap(), clause("a|b", Mode::AnyOf, &["c"]));
}

#[test]
fn a_typed_condition_has_as_many_values_as_it_is_given() {
    let names: Vec<String> = (0..MAX_VALUES + 10).map(|n| format!("v{}", n)).collect();
    let values: Vec<&str> = names.iter().map(String::as_str).collect();
    let typed = format!("dept={}", values.join("|"));
    assert_eq!(parse_clause(&typed).unwrap(), clause("dept", Mode::AnyOf, &values));
}
