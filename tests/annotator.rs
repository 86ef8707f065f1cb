use transformer::{annotate, Annotation};

#[test]
fn annotate_string() {
    assert_eq!(
        annotate("\"TEST STRING\""),
        vec![("\"TEST STRING\"", Some(Annotation::String))]
    );
    assert_eq!(
        annotate("\"STR1\"\"STR2\""),
        vec![
            ("\"STR1\"", Some(Annotation::String)),
            ("\"STR2\"", Some(Annotation::String))
        ]
    );
    assert_eq!(annotate("\"UNTERMINATED"), vec![("\"UNTERMINATED", None)]);
    assert_eq!(
        annotate("\"STRING\nNEWLINE\""),
        vec![
            ("\"STRING", None),
            ("\n", Some(Annotation::Whitespace)),
            ("NEWLINE\"", None)
        ]
    );
}

#[test]
fn annotate_comment() {
    assert_eq!(
        annotate("// SINGLE LINE COMMENT\n"),
        vec![
            ("// SINGLE LINE COMMENT", Some(Annotation::Comment)),
            ("\n", Some(Annotation::Whitespace))
        ]
    );
    assert_eq!(
        annotate("/* MULTI\n LINE \n COMMENT */"),
        vec![("/* MULTI\n LINE \n COMMENT */", Some(Annotation::Comment))]
    )
}

#[test]
fn annotate_whitespace() {
    assert_eq!(
        annotate(" \n\n"),
        vec![(" \n\n", Some(Annotation::Whitespace))]
    );
    assert_eq!(
        annotate("class Main {\n"),
        vec![
            ("class", None),
            (" ", Some(Annotation::Whitespace)),
            ("Main", None),
            (" ", Some(Annotation::Whitespace)),
            ("{", None),
            ("\n", Some(Annotation::Whitespace))
        ]
    )
}

#[test]
fn annotate_composite() {
    assert_eq!(
        annotate("\"// COMMENT\""),
        vec![("\"// COMMENT\"", Some(Annotation::String))]
    );
    assert_eq!(
        annotate("/*\"INNTER STRING\"*/"),
        vec![("/*\"INNTER STRING\"*/", Some(Annotation::Comment))]
    );
}

#[test]
fn annotate_empty_input() {
    assert_eq!(annotate(""), vec![]);
}

#[test]
fn annotate_plain_text_stops_at_comment() {
    assert_eq!(
        annotate("x=1;// c\ny"),
        vec![
            ("x=1;", None),
            ("// c", Some(Annotation::Comment)),
            ("\n", Some(Annotation::Whitespace)),
            ("y", None)
        ]
    );
}

#[test]
fn annotate_block_comment_ends_at_first_close() {
    assert_eq!(
        annotate("/*a*/b/*c*/"),
        vec![
            ("/*a*/", Some(Annotation::Comment)),
            ("b", None),
            ("/*c*/", Some(Annotation::Comment))
        ]
    );
    assert_eq!(
        annotate("/* open"),
        vec![("/* open", Some(Annotation::Comment))]
    );
}
