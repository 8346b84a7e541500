use torin::config::annotation::Annotation;
use torin::config::{self, InCodeConfig};
use torin::model;
use torin::model::{Date, Feature, Rule};

#[test]
fn config_test_in_code_config() {
    struct Case {
        input: &'static str,
        expected: Result<InCodeConfig, ()>,
    }
    let cases = vec![
        Case {
            input: "// torin DELETE BEGIN feature=foo",
            expected: Ok(InCodeConfig {
                command: config::Command::Delete,
                target: config::Target::Begin(config::Trigger::Feature(Feature::new("foo"))),
            }),
        },
        Case {
            input: "// torin ERROR END",
            expected: Ok(InCodeConfig {
                command: config::Command::Error,
                target: config::Target::End,
            }),
        },
        Case { input: "// torin ERROR END feature=foo", expected: Err(()) },
        Case {
            input: "// torin DELETE NEIGHBOR feature=bar",
            expected: Ok(InCodeConfig {
                command: config::Command::Delete,
                target: config::Target::Neighbor(config::Trigger::Feature(Feature::new("bar"))),
            }),
        },
        Case {
            input: "// torin DELETE BEGIN date=2023-10-01",
            expected: Ok(InCodeConfig {
                command: config::Command::Delete,
                target: config::Target::Begin(config::Trigger::Date(Date::new(2023, 10, 1))),
            }),
        },
    ];
    for case in cases {
        let got = InCodeConfig::parse(case.input);
        match case.expected {
            Ok(expected) => {
                assert!(got.is_ok(), "Failed to parse: `{}`", case.input);
                assert_eq!(got.unwrap(), expected);
            }
            Err(_) => assert!(got.is_err(), "Expected error for input: `{}`", case.input),
        }
    }
}

#[test]
fn mod_test_in_code_config() {
    struct Case {
        input: &'static str,
        expected: Result<Annotation, ()>,
    }
    let cases = vec![
        Case {
            input: "// torin DELETE BEGIN rule=foo",
            expected: Ok(Annotation {
                command: model::Command::Delete,
                target: model::Target::Begin(model::Trigger::Rule(Rule::new("foo"))),
            }),
        },
        Case {
            input: "// torin ERROR END",
            expected: Ok(Annotation {
                command: model::Command::Error,
                target: model::Target::End,
            }),
        },
        Case { input: "// torin ERROR END rule=foo", expected: Err(()) },
        Case {
            input: "// torin DELETE NEIGHBOR rule=bar",
            expected: Ok(Annotation {
                command: model::Command::Delete,
                target: model::Target::Neighbor(model::Trigger::Rule(Rule::new("bar"))),
            }),
        },
        Case {
            input: "// torin DELETE BEGIN date=2023-10-01",
            expected: Ok(Annotation {
                command: model::Command::Delete,
                target: model::Target::Begin(model::Trigger::Date(Date::new(2023, 10, 1))),
            }),
        },
    ];
    for case in cases {
        let got = Annotation::parse(case.input);
        match case.expected {
            Ok(expected) => {
                assert!(got.is_ok(), "Failed to parse: `{}`", case.input);
                assert_eq!(got.unwrap(), expected);
            }
            Err(_) => assert!(got.is_err(), "Expected error for input: `{}`", case.input),
        }
    }
}

#[test]
fn annotation_parse_rejections() {
    // not a directive line at all: distinct from a parse error, but both
    // are reported as errors by the parser
    assert!(Annotation::parse("plain code").is_err());
    assert!(!Annotation::is_match("plain code"));
    assert!(Annotation::is_match("   // torin DELETE END extra"));
    // unknown command or mode
    assert!(Annotation::parse("// torin REMOVE BEGIN rule=a").is_err());
    assert!(Annotation::parse("// torin DELETE AROUND rule=a").is_err());
    // trigger arity
    assert!(Annotation::parse("// torin DELETE BEGIN").is_err());
    assert!(Annotation::parse("// torin DELETE NEIGHBOR").is_err());
    // duplicate, unknown and conflicting parameters
    assert!(Annotation::parse("// torin DELETE BEGIN rule=a rule=b").is_err());
    assert!(Annotation::parse("// torin DELETE BEGIN date=2023-01-01 date=2023-01-02").is_err());
    assert!(Annotation::parse("// torin DELETE BEGIN gate=a").is_err());
    assert!(Annotation::parse("// torin DELETE BEGIN rule=a date=2023-01-01").is_err());
    // malformed dates
    assert!(Annotation::parse("// torin DELETE BEGIN date=2023-10").is_err());
    assert!(Annotation::parse("// torin DELETE BEGIN date=soon").is_err());
    // leading whitespace before the marker is fine
    assert!(Annotation::parse("    // torin DELETE BEGIN rule=a").is_ok());
    assert!(Annotation::parse("\t// torin ERROR END").is_ok());
}

#[test]
fn in_code_config_target_end() {
    assert!(InCodeConfig::is_target_end("// torin DELETE END"));
    assert!(InCodeConfig::is_target_end("// torin ERROR END"));
    assert!(!InCodeConfig::is_target_end("// torin DELETE BEGIN feature=a"));
    assert!(!InCodeConfig::is_target_end("not a directive"));
}

#[test]
fn marker_must_lead_the_line() {
    // text before the marker keeps the line an ordinary one
    assert!(!Annotation::is_match("code(); // torin DELETE END"));
    // the bare marker without a trailing payload is no directive either
    assert!(!Annotation::is_match("// torin"));
    // a doubled space yields an empty token, which no command matches
    assert!(Annotation::parse("// torin  DELETE END").is_err());
}

#[test]
fn unicode_whitespace_counts() {
    // any Unicode whitespace may precede the marker, as `char::is_whitespace`
    // and the original tooling's whitespace class have it
    assert!(Annotation::is_match("\u{a0}// torin DELETE END"));
    assert!(Annotation::is_match("\u{2003}\u{2002}// torin ERROR END"));
    assert!(Annotation::parse("\u{a0}// torin DELETE BEGIN rule=a").is_ok());
    // and a line of Unicode-only whitespace trims to nothing
    assert!(InCodeConfig::is_match("\u{3000}// torin DELETE END"));
}

#[test]
fn error_messages_name_the_offender() {
    let err = Annotation::parse("// torin DELETE BEGIN gate=a").unwrap_err();
    assert_eq!(err.message(), "Unknown parameter: gate");
    let err = Annotation::parse("// torin DELETE BEGIN rule=a date=2023-01-01").unwrap_err();
    assert_eq!(
        err.message(),
        "Only one trigger type is allowed (`rule`=a, `date`=2023-01-01)"
    );
    let err = InCodeConfig::parse("// torin DELETE BEGIN feature=a date=2023-01-01").unwrap_err();
    assert_eq!(
        err.message(),
        "Only one trigger type is allowed (`feature`=a, `date`=2023-01-01)"
    );
}
