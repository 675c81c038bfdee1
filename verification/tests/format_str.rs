use oopsie_macros::format_str::{format_arg_usage, FormatStrError};

fn summary(s: &str) -> Option<(usize, Vec<String>)> {
    format_arg_usage(s).ok().map(|u| {
        let mut names: Vec<String> = u.names.clone();
        names.sort();
        names.dedup();
        (u.positional, names)
    })
}

fn expect(s: &str, expected: Option<(usize, &[&str])>) {
    let expected = expected.map(|(p, names)| {
        let mut v: Vec<String> = names.iter().map(|n| n.to_string()).collect();
        v.sort();
        (p, v)
    });
    assert_eq!(summary(s), expected, "format string {s:?}");
}

#[test]
fn unmatched_close_is_distinguished() {
    assert_eq!(
        format_arg_usage("ok }} then } here"),
        Err(FormatStrError::UnmatchedClose { at: 11 })
    );
    assert_eq!(format_arg_usage("{"), Err(FormatStrError::Malformed { at: 1 }));
}

#[test]
fn usage_table_accepts_what_format_accepts() {
    expect("", Some((0, &[])));
    expect("plain", Some((0, &[])));
    expect("{{}}", Some((0, &[])));
    expect("{{{}}}", Some((1, &[])));
    expect("{} {}", Some((2, &[])));
    expect("{1} {}", Some((2, &[])));
    expect("{0} {0}", Some((1, &[])));
    expect("{name} {name:?}", Some((0, &["name"])));
    expect("{:>width$}", Some((1, &["width"])));
    expect("{:.prec$}", Some((1, &["prec"])));
    expect("{:1$}", Some((2, &[])));
    expect("{:.3$}", Some((4, &[])));
    expect("{:.*}", Some((2, &[])));
    expect("{0:.*}", Some((1, &[])));
    expect("{:08.3}", Some((1, &[])));
    expect("{:*^+#012.5x?}", Some((1, &[])));
    expect("{:}>5}", Some((1, &[])));
    expect("{:x?} {:X?} {:#?}", Some((3, &[])));
    expect("{ }", Some((1, &[])));
    expect("{name }", Some((0, &["name"])));
    expect("{type}", Some((0, &["type"])));
    expect("{é}", Some((0, &["é"])));
    expect("{_x}", Some((0, &["_x"])));
    expect("{65535}", Some((65536, &[])));
}

#[test]
fn usage_table_rejects_what_format_rejects() {
    for s in ["{", "}", "a } b", "{ name}", "{r#type}", "{_}", "{:_}", "{:?x}", "{name.field}", "{0a}", "{65536}", "{name?}"] {
        assert_eq!(summary(s), None, "format string {s:?}");
    }
}

#[test]
fn names_are_reported_in_order_with_repeats() {
    let u = format_arg_usage("{b} {a} {b:>w$}").unwrap();
    // A placeholder's own name comes before the names its spec counts with.
    assert_eq!(u.names, vec!["b".to_string(), "a".to_string(), "b".to_string(), "w".to_string()]);
    assert_eq!(u.positional, 0);
    assert!(u.references("a"));
    assert!(u.references("w"));
    assert!(!u.references("c"));
    assert!(!u.is_empty());
    assert!(format_arg_usage("only {{text}}").unwrap().is_empty());
}

#[test]
fn error_offsets_are_bytes() {
    assert_eq!(format_arg_usage("é}"), Err(FormatStrError::UnmatchedClose { at: 2 }));
    assert_eq!(format_arg_usage("}"), Err(FormatStrError::UnmatchedClose { at: 0 }));
}

type Expected = Option<(usize, &'static [&'static str])>;

#[test]
fn table_matches_expected_usage() {
    let cases: &[(&str, Expected)] = &[
        ("", Some((0, &[]))),
        ("plain", Some((0, &[]))),
        ("{{}}", Some((0, &[]))),
        ("{{{}}}", Some((1, &[]))),
        ("{} {}", Some((2, &[]))),
        ("{1} {}", Some((2, &[]))),
        ("{0} {0}", Some((1, &[]))),
        ("{name} {name:?}", Some((0, &["name"]))),
        ("{:>width$}", Some((1, &["width"]))),
        ("{:.prec$}", Some((1, &["prec"]))),
        ("{:1$}", Some((2, &[]))),
        ("{:.3$}", Some((4, &[]))),
        ("{:.*}", Some((2, &[]))),
        ("{0:.*}", Some((1, &[]))),
        ("{:0$}", Some((1, &[]))),
        ("{:08.3}", Some((1, &[]))),
        ("{:*^+#012.5x?}", Some((1, &[]))),
        ("{:}>5}", Some((1, &[]))),
        ("{:x?} {:X?} {:#?}", Some((3, &[]))),
        ("{:e}", Some((1, &[]))),
        ("{ }", Some((1, &[]))),
        ("{name }", Some((0, &["name"]))),
        ("{name :?}", Some((0, &["name"]))),
        ("{type}", Some((0, &["type"]))),
        ("{é}", Some((0, &["é"]))),
        ("{_x}", Some((0, &["_x"]))),
        ("{:.}", Some((1, &[]))),
        ("{65535}", Some((65536, &[]))),
        ("{", None),
        ("}", None),
        ("a } b", None),
        ("{ name}", None),
        ("{r#type}", None),
        ("{_}", None),
        ("{:_}", None),
        ("{:?x}", None),
        ("{:?#}", None),
        ("{name.field}", None),
        ("{0a}", None),
        ("{65536}", None),
        ("{:.5$x}", Some((6, &[]))),
        ("{name?}", None),
    ];
    for &(s, expected) in cases {
        expect(s, expected);
    }
}

#[test]
fn names_come_in_order_of_appearance() {
    assert_eq!(format_arg_usage("{a} {b} {a}").unwrap().names, vec!["a", "b", "a"]);
    let u = format_arg_usage("{name:width$}").unwrap();
    assert_eq!(u.positional, 0);
    assert_eq!(u.names, vec!["name", "width"]);
    assert_eq!(format_arg_usage("{x:>w$.p$}").unwrap().names, vec!["x", "w", "p"]);
    // An implicit placeholder still takes its index after its own `.*`.
    assert_eq!(format_arg_usage("{:.*} {n}").unwrap().positional, 2);
}
