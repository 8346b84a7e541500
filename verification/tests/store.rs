use torin::engine::diff::DiffBuilder;
use torin::engine::file::File;
use torin::engine::lines::{Flag, Lines};

#[test]
fn test_lines_from_string() {
    let lines = Lines::from("line1\nline2\nline3".to_string());
    assert_eq!(
        lines,
        Lines {
            data: vec![
                (Flag::NotChange, "line1".to_string()),
                (Flag::NotChange, "line2".to_string()),
                (Flag::NotChange, "line3".to_string()),
            ],
        }
    );
}

#[test]
fn test_lines_flagging() {
    let mut lines = Lines::from("line1\nline2\nline3\nline4\nline5".to_string());
    lines.flagging(Flag::Delete, 1..3);
    assert_eq!(
        lines,
        Lines {
            data: vec![
                (Flag::NotChange, "line1".to_string()),
                (Flag::Delete, "line2".to_string()),
                (Flag::Delete, "line3".to_string()),
                (Flag::NotChange, "line4".to_string()),
                (Flag::NotChange, "line5".to_string()),
            ],
        }
    );
}

#[test]
fn test_lines_flagging_on_flag_existed() {
    let mut lines = Lines::from("line1\nline2\nline3\nline4\nline5".to_string());
    lines.flagging(Flag::Delete, 0..2);
    lines.flagging(Flag::Delete, 1..2);
    assert_eq!(
        lines,
        Lines {
            data: vec![
                (Flag::Delete, "line1".to_string()),
                (Flag::Delete, "line2".to_string()),
                (Flag::NotChange, "line3".to_string()),
                (Flag::Delete, "line4".to_string()),
                (Flag::NotChange, "line5".to_string()),
            ],
        }
    );
}

#[test]
fn test_lines_apply() {
    let mut lines = Lines::from("line1\nline2\nline3\nline4\nline5".to_string());
    lines.flagging(Flag::Delete, 1..3);
    lines.apply();
    assert_eq!(
        lines,
        Lines {
            data: vec![
                (Flag::NotChange, "line1".to_string()),
                (Flag::NotChange, "line4".to_string()),
                (Flag::NotChange, "line5".to_string()),
            ],
        }
    );
}

#[test]
fn test_lines_join() {
    let mut lines = Lines::from("line1\nline2\nline3\nline4\nline5".to_string());
    lines.flagging(Flag::Delete, 1..3);
    lines.apply();
    assert_eq!(lines.join(), "line1\nline4\nline5");
}

#[test]
fn test_diff() {
    let mut builder = DiffBuilder::new(0);
    let first_line = "This is a test line.".to_string();
    builder.add(first_line);
    let second_line = "This is another line.".to_string();
    builder.add(second_line);

    assert_eq!(builder.begin, 0);
    assert_eq!(
        builder.lines,
        vec!["This is a test line.".to_string(), "This is another line.".to_string()]
    );

    let diff = builder.build();
    assert_eq!(diff.begin, 0);
    assert_eq!(diff.end, 2);
    assert_eq!(diff.content, "- This is a test line.\n- This is another line.");

    let unified_diff = diff.unified_diff_format();
    assert_eq!(
        unified_diff,
        "\x1b[1;39m@@ -1,2 +1,0 @@\x1b[0m\n\x1b[31m- This is a test line.\n- This is another line.\x1b[0m"
    );
}

#[test]
fn test_drain() {
    let f = File::mock(vec![
        "line1".to_string(), // index=0
        "line2".to_string(), // index=1
        "line3".to_string(), // index=2
        "line4".to_string(), // index=3
        "line5".to_string(), // index=4
        "line6".to_string(), // index=5
    ]);
    struct Case {
        name: &'static str,
        start: usize,
        end: usize,
        expected: Vec<&'static str>,
    }
    for case in [
        Case { name: "remove all", start: 0, end: 5, expected: vec![] },
        Case {
            name: "remove subslice from beginning",
            start: 0,
            end: 2,
            expected: vec!["line4", "line5", "line6"],
        },
        Case {
            name: "remove subslice",
            start: 2,
            end: 4,
            expected: vec!["line1", "line2", "line6"],
        },
        Case {
            name: "remove subslice from end",
            start: 4,
            end: 6,
            expected: vec!["line1", "line2", "line3", "line4"],
        },
    ] {
        let mut f = f.clone();
        f.flagging(case.start, case.end);
        f.apply();
        assert_eq!(f.lines(), case.expected, "{}", case.name);
    }
}

#[test]
fn file_diffs_group_runs() {
    let mut f = File::mock(vec![
        "a".to_string(),
        "b".to_string(),
        "c".to_string(),
        "d".to_string(),
        "e".to_string(),
    ]);
    f.flagging(1, 1);
    f.flagging(2, 2); // visible index 2 is now "d": two separate runs appear
    let ds = f.diffs();
    assert_eq!(ds.len(), 2);
    assert_eq!(ds[0].begin, 1);
    assert_eq!(ds[0].end, 2);
    assert_eq!(ds[0].content, "- b");
    assert_eq!(ds[0].lineno(), 2);
    assert_eq!(ds[1].begin, 3);
    assert_eq!(ds[1].content, "- d");
}

#[test]
fn file_diffs_merge_adjacent_runs() {
    // deletions from different passes that become adjacent merge into one hunk
    let mut f = File::mock(vec!["a".to_string(), "b".to_string(), "c".to_string()]);
    f.flagging(1, 1);
    f.flagging(1, 1); // after the first pass, visible index 1 is "c"
    let ds = f.diffs();
    assert_eq!(ds.len(), 1);
    assert_eq!(ds[0].begin, 1);
    assert_eq!(ds[0].end, 3);
    assert_eq!(ds[0].content, "- b\n- c");
    assert_eq!(ds[0].unified_diff_format(), "\x1b[1;39m@@ -2,2 +2,0 @@\x1b[0m\n\x1b[31m- b\n- c\x1b[0m");
}

#[test]
fn file_with_content_round_trip() {
    let f = File::with_content(None, "x\ny\nz".to_string());
    assert_eq!(f.lines(), vec!["x", "y", "z"]);
    assert_eq!(f.join(), "x\ny\nz");
}

#[test]
fn lines_len_counts_all_entries() {
    let mut lines = Lines::from("a\nb\nc".to_string());
    assert_eq!(lines.len(), 3);
    lines.flagging(Flag::Delete, 0..1);
    // flagged entries stay in place; only apply removes them
    assert_eq!(lines.len(), 3);
    lines.apply();
    assert_eq!(lines.len(), 2);
}
