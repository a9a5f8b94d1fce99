use weave_core::conflict::is_comment_line;
use weave_core::interstitial::{merge_gap, merge_gap_with};
use weave_core::linemerge::merge3;
use weave_core::merge::{fallback_with, merge_entities};
use weave_core::region::Entity;
use weave_core::text::{
    chars_of, join_newline, normalize, split_lines, string_of, trimmed, trimmed_start,
};

fn text(s: &str) -> Vec<char> {
    s.chars().collect()
}

fn strings(ls: &[Vec<char>]) -> Vec<String> {
    ls.iter().map(|l| l.iter().collect()).collect()
}

#[test]
fn chars_and_strings_round_trip() {
    assert_eq!(chars_of("héllo\n"), text("héllo\n"));
    assert_eq!(string_of(&text("héllo\n")), "héllo\n");
    assert_eq!(string_of(&chars_of("")), "");
}

#[test]
fn lines_follow_line_feeds_and_carriage_returns() {
    assert_eq!(strings(&split_lines(&text("a\nb\r\n\nc"))), vec!["a", "b", "", "c"]);
    assert_eq!(strings(&split_lines(&text("a\n"))), vec!["a"]);
    assert_eq!(strings(&split_lines(&text("a\n\n"))), vec!["a", ""]);
    assert_eq!(strings(&split_lines(&text("a\r"))), vec!["a\r"]);
    assert_eq!(strings(&split_lines(&text("a\r\r\n"))), vec!["a\r"]);
    assert!(split_lines(&text("")).is_empty());
    for sample in ["", "x", "x\n", "\n", "\r\n", "a\r\nb", "one\ntwo\n\nthree\r\n"] {
        let expected: Vec<&str> = sample.lines().collect();
        assert_eq!(strings(&split_lines(&text(sample))), expected, "sample {:?}", sample);
    }
}

#[test]
fn trimming_follows_unicode_white_space() {
    assert_eq!(trimmed(&text(" \t a b \u{00A0}\u{3000}\n")), text("a b"));
    assert_eq!(trimmed_start(&text("\u{2003} x ")), text("x "));
    assert_eq!(trimmed(&text("   ")), text(""));
    for sample in ["", " a", "a ", "\u{0085}a\u{1680}", "\u{200B}a", "\u{FEFF}b "] {
        let expected: Vec<char> = sample.trim().chars().collect();
        assert_eq!(trimmed(&text(sample)), expected, "sample {:?}", sample);
    }
}

#[test]
fn joining_puts_line_feeds_between_lines() {
    assert_eq!(join_newline(&vec![text("a"), text(""), text("b")]), text("a\n\nb"));
    assert_eq!(join_newline(&vec![]), text(""));
    assert_eq!(join_newline(&vec![text("a")]), text("a"));
}

#[test]
fn comment_lines_are_told_by_their_opener() {
    assert!(is_comment_line("  // note"));
    assert!(is_comment_line("/* note"));
    assert!(is_comment_line(" * note"));
    assert!(is_comment_line("# note"));
    assert!(is_comment_line("\"\"\"doc"));
    assert!(is_comment_line("'''doc"));
    assert!(!is_comment_line("x // note"));
    assert!(!is_comment_line(""));
}

#[test]
fn line_merge_combines_and_reports() {
    assert_eq!(merge3("a\nb\nc\n", "A\nb\nc\n", "a\nb\nC\n"), Ok("A\nb\nC\n".to_string()));
    assert!(merge3("a\n", "b\n", "c\n").is_err());
}

#[test]
fn gap_merge_prefers_the_changed_side() {
    let s = |x: &str| x.to_string();
    assert_eq!(merge_gap(&s("b\n"), &s("o\n"), &s("o\n")), "o\n");
    assert_eq!(merge_gap(&s("b\n"), &s("b\n"), &s("t\n")), "t\n");
    assert_eq!(merge_gap(&s("b\n"), &s("o\n"), &s("b\n")), "o\n");
    assert_eq!(
        merge_gap(&s("import a\n"), &s("import a\nimport b\n"), &s("import a\nimport c\n")),
        "import a\nimport b\nimport c\n"
    );
    assert_eq!(merge_gap(&s("x\ny\nz\n"), &s("X\ny\nz\n"), &s("x\ny\nZ\n")), "X\ny\nZ\n");
    assert_eq!(
        merge_gap_with(&s("1\n"), &s("2\n"), &s("3\n"), Err(s("marked"))),
        "marked"
    );
    assert_eq!(merge_gap_with(&s("1\n"), &s("2\n"), &s("3\n"), Ok(s("merged"))), "merged");
}

#[test]
fn fallback_outcomes_by_merge_result() {
    let r = fallback_with("b", "o", "t", Ok("f() \n{\n}\n".to_string()), Err(String::new()));
    assert!(r.is_clean());
    assert_eq!(r.content, "f()  {\n}\n");
    assert!(r.stats.used_fallback);
    let r = fallback_with("b", "o", "t", Err(String::new()), Ok("plain".to_string()));
    assert!(r.is_clean());
    assert_eq!(r.content, "plain");
    let r = fallback_with("b", "o", "t", Err(String::new()), Err("marked".to_string()));
    assert_eq!(r.content, "marked");
    assert_eq!(r.conflicts.len(), 1);
    assert_eq!(r.conflicts[0].entity_name, "(file)");
    assert_eq!(r.conflicts[0].entity_type, "file");
    assert_eq!(r.conflicts[0].ours_content.as_deref(), Some("o"));
    assert_eq!(r.stats.entities_conflicted, 1);
    assert!(r.stats.used_fallback);
}

fn entity(id: &str, hash: &str, start_line: usize, end_line: usize) -> Entity {
    Entity {
        id: id.to_string(),
        name: id.to_string(),
        entity_type: "function".to_string(),
        content_hash: hash.to_string(),
        start_line,
        end_line,
        content: String::new(),
        parent_id: None,
    }
}

#[test]
fn entities_only_theirs_has_are_placed_by_their_neighbours() {
    let base = "A\n\nB\n";
    let ours = "A\n\nB\n\nO\n";
    let theirs = "T0\nA\nT1\nT2\nB\n";
    let be = vec![entity("a", "1", 1, 1), entity("b", "2", 3, 3)];
    let oe = vec![entity("a", "1", 1, 1), entity("b", "2", 3, 3), entity("o", "3", 5, 5)];
    let te = vec![
        entity("t0", "4", 1, 1),
        entity("a", "1", 2, 2),
        entity("t1", "5", 3, 3),
        entity("t2", "6", 4, 4),
        entity("b", "2", 5, 5),
    ];
    let r = merge_entities(base, ours, theirs, &be, &oe, &te);
    assert!(r.is_clean());
    assert_eq!(r.content, "T0\nA\nT1\nT2\nB\n\nO\n");
    assert_eq!(r.stats.entities_unchanged, 2);
    assert_eq!(r.stats.entities_added_ours, 1);
    assert_eq!(r.stats.entities_added_theirs, 3);
}

#[test]
fn deletions_and_modify_delete_conflicts() {
    let base = "A\nB\nC\n";
    let ours = "A\nB2\n";
    let theirs = "B\nC2\n";
    let be = vec![entity("a", "a", 1, 1), entity("b", "b", 2, 2), entity("c", "c", 3, 3)];
    let oe = vec![entity("a", "a", 1, 1), entity("b", "b2", 2, 2)];
    let te = vec![entity("b", "b", 1, 1), entity("c", "c2", 2, 2)];
    let r = merge_entities(base, ours, theirs, &be, &oe, &te);
    assert_eq!(r.stats.entities_deleted, 1);
    assert_eq!(r.stats.entities_ours_only, 1);
    assert_eq!(r.stats.entities_conflicted, 1);
    assert_eq!(r.conflicts.len(), 1);
    assert_eq!(r.conflicts[0].entity_name, "c");
    assert_eq!(
        r.content,
        "B2\n<<<<<<< ours \u{2014} function `c` (deleted in ours, modified in theirs, complexity: S)\n=======\nC2\n>>>>>>> theirs \u{2014} function `c` (deleted in ours, modified in theirs, complexity: S)\n"
    );
}

#[test]
fn parser_without_entities_falls_back() {
    let r = merge_entities("a\nb\nc\n", "A\nb\nc\n", "a\nb\nC\n", &vec![], &vec![], &vec![]);
    assert!(r.stats.used_fallback);
    assert_eq!(r.content, "A\nb\nC\n");
}

#[test]
fn normal_form_drops_trailing_white_space() {
    assert_eq!(normalize("a  \nb\t\r\n\nc \n"), "a\nb\n\nc");
    assert_eq!(normalize("a\nb"), normalize("a \nb\n"));
    assert_eq!(normalize(""), "");
    for sample in ["x \n y\n", "\n\n", " \n", "a\r\nb  ", "  lead\n"] {
        let expected = sample.lines().map(|l| l.trim_end()).collect::<Vec<_>>().join("\n");
        assert_eq!(normalize(sample), expected, "sample {:?}", sample);
    }
}

#[test]
fn our_order_decides_between_anchors() {
    // Theirs has X, C, Y, D; ours has Y before X: each of C and D follows its
    // anchor, and the anchors stand in our order.
    let base = "X\nY\n";
    let ours = "Y\nX\n";
    let theirs = "X\nC\nY\nD\n";
    let be = vec![entity("x", "x", 1, 1), entity("y", "y", 2, 2)];
    let oe = vec![entity("y", "y", 1, 1), entity("x", "x", 2, 2)];
    let te = vec![
        entity("x", "x", 1, 1),
        entity("c", "c", 2, 2),
        entity("y", "y", 3, 3),
        entity("d", "d", 4, 4),
    ];
    let r = merge_entities(base, ours, theirs, &be, &oe, &te);
    assert!(r.is_clean());
    assert_eq!(r.content, "Y\nD\nX\nC\n");
    assert_eq!(r.stats.entities_added_theirs, 2);
    assert_eq!(r.stats.entities_unchanged, 2);
}

#[test]
fn entities_without_an_anchor_come_first() {
    let base = "head\nA\n";
    let ours = "head\nA\n";
    let theirs = "head\nN\nA\nM\n";
    let be = vec![entity("a", "a", 2, 2)];
    let oe = vec![entity("a", "a", 2, 2)];
    let te = vec![entity("n", "n", 2, 2), entity("a", "a", 3, 3), entity("m", "m", 4, 4)];
    let r = merge_entities(base, ours, theirs, &be, &oe, &te);
    assert!(r.is_clean());
    assert_eq!(r.content, "head\nN\nA\nM\n");
}

#[test]
fn a_conflict_is_counted_and_listed_once() {
    let base = "A\nB\n";
    let ours = "A1\nB\n";
    let theirs = "A2\nB\n";
    let be = vec![entity("a", "a", 1, 1), entity("b", "b", 2, 2)];
    let oe = vec![entity("a", "a1", 1, 1), entity("b", "b", 2, 2)];
    let te = vec![entity("a", "a2", 1, 1), entity("b", "b", 2, 2)];
    let r = merge_entities(base, ours, theirs, &be, &oe, &te);
    assert_eq!(r.conflicts.len(), 1);
    assert_eq!(r.stats.entities_conflicted, 1);
    assert_eq!(r.stats.entities_unchanged, 1);
    let block = r.conflicts[0].to_conflict_markers();
    assert_eq!(r.content.matches(block.as_str()).count(), 1);
    assert!(r.content.starts_with(block.as_str()));
    assert!(r.content.ends_with("B\n"));
}
