use transformer::clean;

#[test]
fn remove_single_line_comments() {
    assert_eq!(clean("// SINGLE LINE COMMENT"), "");
    assert_eq!(
        clean("NON COMMENT\n// SINGLE LINE COMMENT\n"),
        "NON COMMENT"
    );
    assert_eq!(clean("NOT A COMMENT"), "NOT A COMMENT");
    // The run around the comment holds newlines, so it becomes one newline.
    assert_eq!(
        clean("NOT A COMMENT\n// SINGLE LINE COMMENT\nADDITIONAL NOT A COMMENT"),
        "NOT A COMMENT\nADDITIONAL NOT A COMMENT"
    );
}

#[test]
fn remove_multi_line_comments() {
    assert_eq!(
        clean(
            "/* MULTI LINE COMMENT */
        "
        ),
        ""
    );
    assert_eq!(
        clean(
            " /* MULTI\nLINE\nCOMMENT\n*/
    "
        ),
        ""
    );
    assert_eq!(
        clean(
            "NON COMMENT\n /* MULTI LINE COMMENT\n*/
    "
        ),
        "NON COMMENT"
    );
    // The run around the comment holds newlines outside it, so it becomes one newline.
    assert_eq!(
        clean(
            "BEFORE NON COMMENT\n /* MULTI\n LINE\n COMMENT\n*/
    \nAFTER NON COMMENT"
        ),
        "BEFORE NON COMMENT\nAFTER NON COMMENT"
    );
}

#[test]
fn compress_whitespace() {
    assert_eq!(clean("  "), "");
    assert_eq!(clean("\t \t"), "");
    assert_eq!(clean("\t\n\t\n"), "");
    assert_eq!(clean("\t\tclass Main {};\t\t\n"), " class Main {};");
}

#[test]
fn ignore_string_constants() {
    assert_eq!(clean("\"  \t\""), "\"  \t\"");
    assert_eq!(
        clean("\"// SINGLE LINE COMMENT\""),
        "\"// SINGLE LINE COMMENT\""
    )
}

#[test]
fn clean_line_comment_leaves_its_newline() {
    assert_eq!(clean("A // comment\nB"), "A\nB");
}

#[test]
fn clean_block_comment_across_lines_leaves_a_space() {
    assert_eq!(clean("A /* c1\nc2 */ B"), "A B");
}

#[test]
fn clean_block_comment_between_characters_leaves_nothing() {
    assert_eq!(clean("A/* c */B"), "AB");
}

#[test]
fn clean_unterminated_block_comment_swallows_the_rest() {
    assert_eq!(clean("x; /* open\ny;"), "x;");
}

#[test]
fn clean_string_keeps_comment_openers_and_spaces() {
    assert_eq!(clean("\"a  //b /*c\""), "\"a  //b /*c\"");
    assert_eq!(clean("x =  \"a  b\"  ;"), "x = \"a  b\" ;");
}

#[test]
fn clean_is_idempotent_on_clean_text() {
    let t = "class Main {\nfield int x;\n}";
    let once = clean(t);
    assert_eq!(clean(&once), once);
    assert_eq!(once, t);
}

#[test]
fn clean_empty_input() {
    assert_eq!(clean(""), "");
}

#[test]
fn clean_keeps_single_slash_and_star() {
    assert_eq!(clean("a / b * c"), "a / b * c");
}

#[test]
fn clean_twice_on_single_spaced_text_with_string() {
    let t = "let s = \"a // b\";\ndo f(s); ";
    let once = clean(t);
    assert_eq!(once, "let s = \"a // b\";\ndo f(s);");
    assert_eq!(clean(&once), once);
}

#[test]
fn clean_string_literal_spans_lines() {
    assert_eq!(clean("\"a\n  b\""), "\"a\n  b\"");
    assert_eq!(clean("\"open  //x"), "\"open  //x");
}
