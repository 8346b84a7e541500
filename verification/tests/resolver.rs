use torin::action::{Action, Actions, Command, Range};
use torin::config;
use torin::engine::file::File;
use torin::engine::plan::{Plan, Plans};
use torin::ext::lines::LinesOps;
use torin::ext::sized_split::{LeastSizedSplit, SizedSplit};
use torin::model;
use torin::model::{Feature, Rule};

fn strings(v: &[&str]) -> Vec<String> {
    v.iter().map(|s| s.to_string()).collect()
}

#[test]
fn action_test_operations() {
    struct Case {
        lines: Vec<String>,
        expected: Vec<Action>,
    }
    let cases = [
        Case {
            lines: strings(&[
                "fuga",
                "",
                "hoge",
                "// torin DELETE BEGIN feature=foo",
                "some code",
                "// torin DELETE END",
                "fuga",
                "",
                "hoge",
            ]),
            expected: vec![Action {
                command: Command::Delete,
                trigger: config::Trigger::Feature(Feature::new("foo")),
                range: Range { begin: 3, end: 5 },
            }],
        },
        Case {
            lines: strings(&[
                "fuga",
                "",
                "hoge",
                "",
                "// torin DELETE NEIGHBOR feature=foo",
                "some code",
                "fuga",
                "",
                "hoge",
                "",
            ]),
            expected: vec![Action {
                command: Command::Delete,
                trigger: config::Trigger::Feature(Feature::new("foo")),
                range: Range { begin: 4, end: 6 },
            }],
        },
    ];
    for case in cases {
        let ops = Actions::parse(&case.lines).unwrap();
        if case.expected.is_empty() {
            assert!(ops.is_none(), "Expected no operations, got: {:?}", ops);
        } else {
            assert!(ops.is_some(), "Expected operations, got None");
            assert_eq!(ops.unwrap().actions, case.expected);
        }
    }
}

#[test]
fn plan_test_operations() {
    struct Case {
        lines: Vec<String>,
        expected: Vec<Plan>,
    }
    let cases = [
        Case {
            lines: strings(&[
                "fuga",
                "",
                "hoge",
                "// torin DELETE BEGIN rule=foo",
                "some code",
                "// torin DELETE END",
                "fuga",
                "",
                "hoge",
            ]),
            expected: vec![Plan {
                command: model::Command::Delete,
                trigger: model::Trigger::Rule(Rule::new("foo")),
                range: torin::engine::plan::Range { begin: 3, end: 5 },
            }],
        },
        Case {
            lines: strings(&[
                "fuga",
                "// torin DELETE BEGIN rule=foo",
                "// torin DELETE END",
                "hoge",
            ]),
            expected: vec![Plan {
                command: model::Command::Delete,
                trigger: model::Trigger::Rule(Rule::new("foo")),
                range: torin::engine::plan::Range { begin: 1, end: 2 },
            }],
        },
        Case {
            lines: strings(&[
                "fuga",
                "",
                "hoge",
                "",
                "// torin DELETE NEIGHBOR rule=foo",
                "some code",
                "fuga",
                "",
                "hoge",
                "",
            ]),
            expected: vec![Plan {
                command: model::Command::Delete,
                trigger: model::Trigger::Rule(Rule::new("foo")),
                range: torin::engine::plan::Range { begin: 4, end: 6 },
            }],
        },
    ];
    for case in cases {
        let ops = Plans::parse(&case.lines).unwrap();
        if case.expected.is_empty() {
            assert!(ops.is_none(), "Expected no operations, got: {ops:?}");
        } else {
            assert!(ops.is_some(), "Expected operations, got None");
            assert_eq!(ops.unwrap().plans, case.expected);
        }
    }
}

#[test]
fn plan_parse_nested_is_error() {
    let lines = strings(&[
        "// torin DELETE BEGIN rule=a",
        "code",
        "// torin DELETE BEGIN rule=b",
        "// torin DELETE END",
    ]);
    assert!(Plans::parse(&lines).is_err());

    let lines = strings(&[
        "// torin DELETE BEGIN rule=a",
        "// torin DELETE NEIGHBOR rule=b",
        "// torin DELETE END",
    ]);
    assert!(Plans::parse(&lines).is_err());
}

#[test]
fn plan_parse_unterminated_begin_is_error() {
    // no directive after the BEGIN: the last line stands in, and it is no END
    let lines = strings(&["// torin DELETE BEGIN rule=a", "code", "tail"]);
    assert!(Plans::parse(&lines).is_err());
}

#[test]
fn plan_parse_neighbor_without_blanks_covers_all() {
    let lines = strings(&["a", "// torin DELETE NEIGHBOR rule=x", "b"]);
    let plans = Plans::parse(&lines).unwrap().unwrap();
    assert_eq!(plans.plans.len(), 1);
    assert_eq!(plans.plans[0].begin(), 0);
    assert_eq!(plans.plans[0].end(), 2);
}

#[test]
fn plan_parse_no_directives_is_none() {
    let lines = strings(&["a", "", "b"]);
    assert!(Plans::parse(&lines).unwrap().is_none());
    let none: Vec<String> = vec![];
    assert!(Plans::parse(&none).unwrap().is_none());
}

#[test]
fn test_match() {
    let data: Vec<String> = ["0", "1", "1", "1", "0", "0", "1", "0", "1", "1", "1"]
        .iter()
        .map(|x| x.to_string())
        .collect();
    assert_eq!(data.next_match(0, |x| x == "1"), Some(1));
    assert_eq!(data.next_match(1, |x| x == "0"), Some(4));
    assert_eq!(data.prev_match(10, |x| x == "1"), Some(9));
    assert_eq!(data.prev_match(5, |x| x == "0"), Some(4));

    // out of bounds
    assert_eq!(data.next_match(11, |x| x == "0"), None);
    assert_eq!(data.next_match(11, |x| x == "1"), None);
    assert_eq!(data.prev_match(0, |x| x == "0"), None);
    assert_eq!(data.prev_match(0, |x| x == "1"), None);
}

#[test]
fn payloads_1() {
    let strs = "t".sized_split::<1>(' ');
    assert!(strs.is_ok());
    assert_eq!(strs.unwrap(), ["t"]);

    let strs = "t t".sized_split::<1>(' ');
    assert!(strs.is_err());

    let strs = "t t t".sized_split::<1>(' ');
    assert!(strs.is_err());
}

#[test]
fn payloads_2() {
    let strs = "t".sized_split::<2>(' ');
    assert!(strs.is_err());

    let strs = "t t".sized_split::<2>(' ');
    assert!(strs.is_ok());
    assert_eq!(strs.unwrap(), ["t", "t"]);

    let strs = "t t t".sized_split::<2>(' ');
    assert!(strs.is_err());
}

#[test]
fn least_sized_split_hands_back_rest() {
    let (head, rest) = "DELETE BEGIN rule=a".least_sized_split::<2>(' ').unwrap();
    assert_eq!(head, ["DELETE", "BEGIN"]);
    assert_eq!(rest, ["rule=a"]);
    assert!("DELETE".least_sized_split::<2>(' ').is_err());
}

#[test]
fn actions_prune_and_first() {
    let lines = strings(&[
        "// torin ERROR BEGIN feature=keepme",
        "// torin DELETE END",
        "",
        "// torin DELETE NEIGHBOR feature=gone",
        "x",
    ]);
    let actions = Actions::parse(&lines).unwrap().unwrap();
    assert_eq!(actions.actions.len(), 2);
    // "keepme" is active, so its trigger does not fire; "gone" is absent
    let ctx = config::context::Context::mock(
        model::Date::mock(2024, 1, 1),
        vec!["keepme".to_string()],
    );
    let pruned = actions.prune(&ctx).unwrap();
    assert_eq!(pruned.actions.len(), 1);
    let first = pruned.first().unwrap();
    assert_eq!(first.range.begin, 3);
    assert_eq!(first.range.end, 4);
    assert!(pruned.all(|a| !a.command().is_error()));
    let empty = Actions { actions: vec![] };
    assert!(empty.first().is_err());
    assert!(empty.all(|a| a.command().is_error()));
}

#[test]
fn action_apply_deletes_range() {
    let lines = strings(&["l0", "l1", "l2", "l3"]);
    let actions = vec![Action {
        command: Command::Delete,
        trigger: config::Trigger::Feature(Feature::new("f")),
        range: Range { begin: 1, end: 2 },
    }];
    let mut f = File::mock(lines.clone());
    actions[0].apply(&mut f).unwrap();
    assert_eq!(f.lines(), vec!["l0", "l3"]);
    assert!(!actions[0].command().is_error());

    let reporting = Action {
        command: Command::Error,
        trigger: config::Trigger::Feature(Feature::new("f")),
        range: Range { begin: 0, end: 3 },
    };
    let mut g = File::mock(lines.clone());
    reporting.apply(&mut g).unwrap();
    assert_eq!(g.lines(), lines);
    assert!(reporting.command().is_error());
}

#[test]
fn names_round_trip() {
    assert_eq!(Rule::new("alpha").name(), "alpha");
    assert_eq!(Feature::new("beta").name(), "beta");
}

#[test]
fn plans_accessors() {
    let lines = strings(&["// torin ERROR BEGIN rule=r", "x", "// torin ERROR END"]);
    let plans = Plans::parse(&lines).unwrap().unwrap();
    let first = plans.first().unwrap();
    assert_eq!(first.begin(), 0);
    assert_eq!(first.end(), 2);
    assert!(first.command().is_error());
    assert_eq!(plans.iter().len(), 1);
    assert!(plans.all(|p| p.command().is_error()));
    let empty = Plans { plans: vec![] };
    assert!(empty.first().is_err());
}

#[test]
fn actions_parse_nested_is_error() {
    // the older dialect detects nesting just as the engine resolver does
    let lines = strings(&[
        "// torin DELETE BEGIN feature=a",
        "code",
        "// torin DELETE BEGIN feature=b",
        "// torin DELETE END",
    ]);
    assert!(Actions::parse(&lines).is_err());

    let lines = strings(&[
        "// torin DELETE BEGIN feature=a",
        "// torin DELETE NEIGHBOR feature=b",
        "// torin DELETE END",
    ]);
    let err = Actions::parse(&lines).unwrap_err();
    assert_eq!(err.line(), Some(0));
}

#[test]
fn parse_errors_point_at_the_offending_line() {
    // a malformed directive line: the error points at it
    let lines = strings(&["fine", "// torin DELETE BEGIN rule=a rule=b"]);
    let err = Plans::parse(&lines).unwrap_err();
    assert_eq!(err.line(), Some(1));
    // a BEGIN answered by a non-directive last line: the answering line
    let lines = strings(&["// torin DELETE BEGIN rule=a", "code", "tail"]);
    let err = Plans::parse(&lines).unwrap_err();
    assert_eq!(err.line(), Some(2));
    // a nested annotation: the BEGIN line itself
    let lines = strings(&[
        "x",
        "// torin DELETE BEGIN rule=a",
        "// torin DELETE NEIGHBOR rule=b",
    ]);
    let err = Plans::parse(&lines).unwrap_err();
    assert_eq!(err.line(), Some(1));
    // an error without a line keeps none
    assert_eq!(torin::Error::new("plain").line(), None);
}
