use torin::config;
use torin::config::manifest::{Manifest, Project};
use torin::engine::action::Action;
use torin::engine::context::Context;
use torin::engine::file::File;
use torin::engine::mode::Mode;
use torin::engine::{Engine, Status};
use torin::model;
use torin::model::{Date, Feature};

fn strings(v: &[&str]) -> Vec<String> {
    v.iter().map(|s| s.to_string()).collect()
}

#[test]
fn context_test_context() {
    let ctx = Context::mock(Date::mock(2025, 5, 20), strings(&["foo", "bar"]));
    assert!(!ctx.is_triggered(&model::Trigger::rule("foo")));
    assert!(ctx.is_triggered(&model::Trigger::rule("baz")));
    assert!(ctx.is_triggered(&model::Trigger::Date(Date::mock(2025, 5, 19))));
    assert!(ctx.is_triggered(&model::Trigger::Date(Date::mock(2025, 5, 20))));
    assert!(!ctx.is_triggered(&model::Trigger::Date(Date::mock(2025, 5, 21))));
}

#[test]
fn config_context_test_context() {
    let ctx =
        config::context::Context::mock(Date::mock(2025, 5, 20), strings(&["foo", "bar"]));
    assert!(!ctx.is_triggered(&config::Trigger::Feature(Feature::new("foo"))));
    assert!(ctx.is_triggered(&config::Trigger::Feature(Feature::new("baz"))));
    // date maturity follows the one trigger model: active once reached
    assert!(ctx.is_triggered(&config::Trigger::Date(Date::mock(2025, 5, 19))));
    assert!(ctx.is_triggered(&config::Trigger::Date(Date::mock(2025, 5, 20))));
    assert!(!ctx.is_triggered(&config::Trigger::Date(Date::mock(2025, 5, 21))));
}

#[test]
fn rule_trigger_empty_set_activates_everything() {
    let ctx = Context::mock(Date::mock(2024, 1, 1), vec![]);
    assert!(ctx.is_triggered(&model::Trigger::rule("anything")));
    assert!(ctx.is_triggered(&model::Trigger::rule("")));
}

#[test]
fn begin_end_block_is_pruned() {
    // an active BEGIN/END pair is removed along with both marker lines
    let lines = strings(&[
        "fuga",
        "",
        "hoge",
        "// torin DELETE BEGIN rule=foo",
        "some code",
        "// torin DELETE END",
        "fuga",
        "",
        "hoge",
    ]);
    let ctx = Context::mock(Date::mock(2024, 1, 1), vec![]);
    let mut f = File::mock(lines);
    let (status, errors) = Action::new(Mode::Apply).run(&ctx, &mut f).unwrap();
    assert_eq!(status, Status::Success);
    assert!(errors.is_empty());
    assert_eq!(f.lines(), vec!["fuga", "", "hoge", "fuga", "", "hoge"]);
    assert_eq!(f.join(), "fuga\n\nhoge\nfuga\n\nhoge");
}

#[test]
fn inactive_rule_means_no_changes() {
    // the same document, but the rule is active, so the trigger is not
    let lines = strings(&[
        "fuga",
        "",
        "hoge",
        "// torin DELETE BEGIN rule=foo",
        "some code",
        "// torin DELETE END",
        "fuga",
        "",
        "hoge",
    ]);
    let ctx = Context::mock(Date::mock(2024, 1, 1), strings(&["foo"]));
    let mut f = File::mock(lines.clone());
    let (status, errors) = Action::new(Mode::Check).run(&ctx, &mut f).unwrap();
    assert_eq!(status, Status::Success);
    assert!(errors.is_empty());
    assert_eq!(f.lines(), lines);
    assert!(f.diffs().is_empty());
}

#[test]
fn neighbor_block_keeps_blank_boundaries() {
    let lines = strings(&["a", "", "b", "", "// torin DELETE NEIGHBOR rule=x", "code", "c", "", "d", ""]);
    let ctx = Context::mock(Date::mock(2024, 1, 1), vec![]);
    let mut f = File::mock(lines);
    let (status, errors) = Action::new(Mode::Apply).run(&ctx, &mut f).unwrap();
    assert_eq!(status, Status::Success);
    assert!(errors.is_empty());
    assert_eq!(f.lines(), vec!["a", "", "b", "", "", "d", ""]);
}

#[test]
fn remaining_error_directives_are_reported() {
    let lines = strings(&["a", "// torin ERROR BEGIN rule=gone", "b", "// torin ERROR END", "c"]);
    let ctx = Context::mock(Date::mock(2024, 1, 1), vec![]);
    let mut f = File::mock(lines.clone());
    let (status, errors) = Action::new(Mode::Check).run(&ctx, &mut f).unwrap();
    assert_eq!(status, Status::Failure);
    assert_eq!(errors.len(), 1);
    assert_eq!(errors[0].begin(), 1);
    assert_eq!(errors[0].end(), 3);
    assert!(errors[0].command().is_error());
    // reported, never applied: the text is untouched
    assert_eq!(f.lines(), lines);
}

#[test]
fn date_trigger_matures_with_the_context() {
    let lines = strings(&["keep", "// torin DELETE BEGIN date=2025-06-15", "gone", "// torin DELETE END"]);
    // the day before: nothing happens
    let early = Context::mock(Date::mock(2025, 6, 14), vec![]);
    let mut f = File::mock(lines.clone());
    let (status, _) = Action::new(Mode::Plan).run(&early, &mut f).unwrap();
    assert_eq!(status, Status::Success);
    assert_eq!(f.lines(), lines);
    // the day itself: equality activates the trigger
    let exact = Context::mock(Date::mock(2025, 6, 15), vec![]);
    let mut f = File::mock(lines.clone());
    Action::new(Mode::Apply).run(&exact, &mut f).unwrap();
    assert_eq!(f.lines(), vec!["keep"]);
}

#[test]
fn no_directives_is_a_no_op() {
    let lines = strings(&["x", "", "y"]);
    let ctx = Context::mock(Date::mock(2024, 1, 1), vec![]);
    let mut f = File::mock(lines.clone());
    let (status, errors) = Action::new(Mode::Check).run(&ctx, &mut f).unwrap();
    assert_eq!(status, Status::Success);
    assert!(errors.is_empty());
    assert_eq!(f.lines(), lines);
}

#[test]
fn resolution_is_idempotent() {
    let lines = strings(&[
        "head",
        "// torin DELETE BEGIN rule=foo",
        "body",
        "// torin DELETE END",
        "tail",
    ]);
    let ctx = Context::mock(Date::mock(2024, 1, 1), vec![]);
    let mut f = File::mock(lines);
    Action::new(Mode::Apply).run(&ctx, &mut f).unwrap();
    let once = f.lines();
    assert_eq!(once, vec!["head", "tail"]);
    // a second run over the pruned output finds nothing to do
    let mut g = File::mock(once.clone());
    let (status, errors) = Action::new(Mode::Apply).run(&ctx, &mut g).unwrap();
    assert_eq!(status, Status::Success);
    assert!(errors.is_empty());
    assert_eq!(g.lines(), once);
}

#[test]
fn malformed_directive_fails_the_file() {
    let lines = strings(&["// torin DELETE BEGIN rule=a rule=b", "x", "// torin DELETE END"]);
    let ctx = Context::mock(Date::mock(2024, 1, 1), vec![]);
    let mut f = File::mock(lines);
    assert!(Action::new(Mode::Plan).run(&ctx, &mut f).is_err());
}

#[test]
fn multiple_blocks_resolve_one_per_pass() {
    let lines = strings(&[
        "a",
        "// torin DELETE BEGIN rule=one",
        "x",
        "// torin DELETE END",
        "b",
        "// torin DELETE BEGIN rule=two",
        "y",
        "// torin DELETE END",
        "c",
    ]);
    let ctx = Context::mock(Date::mock(2024, 1, 1), vec![]);
    let mut f = File::mock(lines);
    Action::new(Mode::Apply).run(&ctx, &mut f).unwrap();
    assert_eq!(f.lines(), vec!["a", "b", "c"]);
}

#[test]
fn engine_runs_all_files() {
    let manifest = Manifest {
        project: Project {
            includes: strings(&["src/**"]),
            excludes: vec![],
            rules: strings(&["held"]),
        },
    };
    let engine =
        Engine::init(Mode::Check, manifest, strings(&["one.txt", "two.txt"])).unwrap();
    let clean = File::mock(strings(&["nothing", "here"]));
    let dirty = File::mock(strings(&[
        "keep",
        "// torin DELETE BEGIN rule=absent",
        "drop",
        "// torin DELETE END",
    ]));
    let mut files = vec![clean, dirty];
    let status = engine.run(&mut files).unwrap();
    assert_eq!(status, Status::Failure);
    // a rule listed in the manifest holds its block in place
    let held = File::mock(strings(&[
        "keep",
        "// torin DELETE BEGIN rule=held",
        "still here",
        "// torin DELETE END",
    ]));
    let mut files = vec![File::mock(strings(&["calm"])), held];
    let status = engine.run(&mut files).unwrap();
    assert_eq!(status, Status::Success);
}

#[test]
fn with_trace_reports_the_outcome() {
    assert!(torin::with_trace(|| Ok(())));
    assert!(!torin::with_trace(|| Err(torin::Error::new("boom"))));
    let e = torin::Error::new("boom");
    assert_eq!(e.message(), "boom");
}

#[test]
fn nested_error_names_the_line() {
    let lines = strings(&[
        "// torin DELETE BEGIN rule=a",
        "code",
        "// torin DELETE BEGIN rule=b",
        "// torin DELETE END",
    ]);
    let err = torin::engine::plan::Plans::parse(&lines).unwrap_err();
    assert_eq!(
        err.message(),
        "Nested torin annotation found: // torin DELETE BEGIN rule=a"
    );
}

#[test]
fn unicode_blank_line_bounds_a_neighbor() {
    // a line of Unicode-only whitespace is blank, so it bounds the block
    let lines = strings(&["a", "\u{3000}", "// torin DELETE NEIGHBOR rule=x", "b", "", "c"]);
    let ctx = Context::mock(Date::mock(2024, 1, 1), vec![]);
    let mut f = File::mock(lines);
    Action::new(Mode::Apply).run(&ctx, &mut f).unwrap();
    assert_eq!(f.lines(), vec!["a", "\u{3000}", "", "c"]);
}

#[test]
fn engine_aborts_on_a_malformed_file() {
    let manifest = Manifest {
        project: Project { includes: vec![], excludes: vec![], rules: vec![] },
    };
    let engine =
        Engine::init(Mode::Apply, manifest, strings(&["a.txt", "b.txt", "c.txt"])).unwrap();
    let clean = File::mock(strings(&["plain"]));
    let malformed = File::mock(strings(&["// torin DELETE BEGIN rule=a rule=b"]));
    let untouched = File::mock(strings(&[
        "x",
        "// torin DELETE BEGIN rule=gone",
        "y",
        "// torin DELETE END",
    ]));
    let mut files = vec![clean, malformed, untouched.clone()];
    assert!(engine.run(&mut files).is_err());
    // the file after the failing one is untouched
    assert_eq!(files[2], untouched);
}
