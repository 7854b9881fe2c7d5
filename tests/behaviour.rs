use spdcp::{Comment, Tag};

fn tag(name: &str, text: &str) -> Tag {
    Tag { tag: name.to_string(), text: text.to_string() }
}

#[test]
fn admin_menu_block() {
    let raw = "/**
* Adds targets to an admin menu.
*
* Each client is displayed as: name (userid)
*
* @param menu          Menu Handle.
* @param alive_only    True to only select alive players.
* @return              Number of clients added.
*/";
    let c = Comment::parse(raw);
    assert_eq!(c.brief, "Adds targets to an admin menu.\n\nEach client is displayed as: name (userid)");
    assert_eq!(
        c.tags,
        vec![
            tag("", "Adds targets to an admin menu.\n\nEach client is displayed as: name (userid)"),
            tag("param:menu", "Menu Handle."),
            tag("param:alive_only", "True to only select alive players."),
            tag("return", "Number of clients added."),
        ]
    );
}

#[test]
fn no_delimiter_gives_empty_record() {
    let c = Comment::parse("int main() { return 1 / 2 * 3; }");
    assert_eq!(c.brief, "");
    assert!(c.tags.is_empty());
    let e = Comment::parse(String::new());
    assert_eq!(e.brief, "");
    assert!(e.tags.is_empty());
}

#[test]
fn plain_block_is_brief() {
    let c = Comment::parse("/* first line\n * second line */");
    assert_eq!(c.brief, "first line\nsecond line");
    assert_eq!(c.tags, vec![tag("", "first line\nsecond line")]);
}

#[test]
fn param_with_name_and_text() {
    let c = Comment::parse("/** @param count   how many items  */");
    assert_eq!(c.brief, "");
    assert_eq!(c.tags, vec![tag("param:count", "how many items")]);
}

#[test]
fn param_with_single_word() {
    let c = Comment::parse("/** @param count */");
    assert_eq!(c.tags, vec![tag("param:unknown", "count")]);
}

#[test]
fn blank_lines_trimmed_at_ends_kept_inside() {
    let c = Comment::parse("/*\n * first\n *\n * second\n */");
    assert_eq!(c.brief, "first\n\nsecond");
    assert_eq!(c.tags, vec![tag("", "first\n\nsecond")]);
    let d = Comment::parse("/*\n * first\n *\n *\n */");
    assert_eq!(d.tags, vec![tag("", "first\n\n")]);
}

#[test]
fn scenario_brief_and_return() {
    let c = Comment::parse("/** Brief text.\n * @return value. */");
    assert_eq!(c.brief, "Brief text.");
    assert_eq!(c.tags, vec![tag("", "Brief text."), tag("return", "value.")]);
}

#[test]
fn scenario_line_comment_run() {
    let c = Comment::parse("// first part\n// second part\n  code();\n");
    assert_eq!(c.brief, "first part\nsecond part");
    assert_eq!(c.tags, vec![tag("", "first part\nsecond part")]);
}

#[test]
fn line_run_resumes_after_break() {
    let c = Comment::parse("// one\nx = 1;\n// two\n");
    assert_eq!(c.brief, "one\ntwo");
    assert_eq!(c.tags, vec![tag("", "one"), tag("", "two")]);
}

#[test]
fn whitespace_only_line_continues_run() {
    let c = Comment::parse("// one\n   \n// two\nend");
    assert_eq!(c.tags, vec![tag("", "one\n\ntwo")]);
}

#[test]
fn scenario_malformed_tag_dropped() {
    let c = Comment::parse("/** Summary.\n * @ description\n */");
    assert_eq!(c.brief, "Summary.");
    assert_eq!(c.tags, vec![tag("", "Summary.")]);
    let d = Comment::parse("/** @ description */");
    assert_eq!(d.brief, "");
    assert!(d.tags.is_empty());
}

#[test]
fn tag_without_space_dropped() {
    let c = Comment::parse("/** Text.\n * @deprecated\n * @return r */");
    assert_eq!(c.tags, vec![tag("", "Text."), tag("return", "r")]);
}

#[test]
fn several_blocks_merge() {
    let c = Comment::parse("/* one */ code(); /* @return x */ more(); // two\n");
    assert_eq!(c.brief, "one\ntwo");
    assert_eq!(c.tags, vec![tag("", "one"), tag("return", "x"), tag("", "two")]);
}

#[test]
fn brief_tag_joins_brief() {
    let c = Comment::parse("/** Lead.\n * @brief More.\n * @note n */");
    assert_eq!(c.brief, "Lead.\nMore.");
    assert_eq!(c.tags, vec![tag("", "Lead."), tag("brief", "More."), tag("note", "n")]);
}

#[test]
fn unclosed_block_runs_to_end() {
    let c = Comment::parse("/* open text");
    assert_eq!(c.tags, vec![tag("", "open text")]);
}

#[test]
fn empty_block_gives_empty_record() {
    let c = Comment::parse("/**/");
    assert_eq!(c.brief, "");
    assert!(c.tags.is_empty());
}

#[test]
fn line_endings_normalised() {
    let c = Comment::parse("/* a\r\n * b\r * c */");
    assert_eq!(c.brief, "a\nb\nc");
}

#[test]
fn decoration_stripped() {
    let c = Comment::parse("/**< value \x0B\there\tnow */");
    assert_eq!(c.tags, vec![tag("", "valuehere now")]);
    let d = Comment::parse("// ///text\n");
    assert_eq!(d.tags, vec![tag("", "text")]);
}

#[test]
fn multi_line_tag_text() {
    let c = Comment::parse("/**\n * @return first\n *   second\n */");
    assert_eq!(c.tags, vec![tag("return", "first\nsecond")]);
}

#[test]
fn parse_str_matches_parse() {
    let text = "/** B.\n * @error e */";
    assert_eq!(Comment::parse_str(text), Comment::parse(text.to_string()));
}

#[test]
fn line_run_then_block() {
    let c = Comment::parse("// lead\n/* @return r */");
    assert_eq!(c.brief, "lead");
    assert_eq!(c.tags, vec![tag("", "lead"), tag("return", "r")]);
}

#[test]
fn record_clone_and_debug() {
    let a = Comment::parse("/** x */");
    let b = a.clone();
    assert_eq!(a, b);
    assert_eq!(format!("{:?}", b.tags[0]), "Tag { tag: \"\", text: \"x\" }");
}
