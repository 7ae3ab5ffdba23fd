use konster::style::{AttrSet, Color, Style};
use konster::template::{Alignment, Placeholder, Template, TemplatePart};

fn plain_style() -> Style {
    Style {
        foreground: None,
        background: None,
        fg_bright: false,
        bg_bright: false,
        attributes: AttrSet {
            bold: false,
            dim: false,
            italic: false,
            underlined: false,
            blink: false,
            reverse: false,
            hidden: false,
        },
        force: None,
        for_stderr: false,
    }
}

fn plain_placeholder(key: &[u8]) -> Placeholder {
    Placeholder {
        key: key.to_vec(),
        align: Alignment::Left,
        width: None,
        truncate: false,
        style: None,
        alt_style: None,
    }
}

#[test]
fn a() {
    let q = Template::from_str(r#"{ "foo": "{foo}", "bar": {bar} }"#);
    assert_eq!(q.parts.len(), 6);
    assert_eq!(q.parts[0], TemplatePart::Literal(b"{ ".to_vec()));
    assert_eq!(q.parts[1], TemplatePart::Literal(b"\"foo\": \"".to_vec()));
    assert_eq!(q.parts[2], TemplatePart::Placeholder(plain_placeholder(b"foo")));
    assert_eq!(q.parts[3], TemplatePart::Literal(b"\", \"bar\": ".to_vec()));
    assert_eq!(q.parts[4], TemplatePart::Placeholder(plain_placeholder(b"bar")));
    assert_eq!(q.parts[5], TemplatePart::Literal(b" }".to_vec()));

    let r = Template::from_str("{foo:^54.red.on_blue/green.on_cyan}");
    assert_eq!(r.parts.len(), 1);
    let expected = Placeholder {
        key: b"foo".to_vec(),
        align: Alignment::Center,
        width: Some(54),
        truncate: false,
        style: Some(Style {
            foreground: Some(Color::Red),
            background: Some(Color::Blue),
            ..plain_style()
        }),
        alt_style: Some(Style {
            foreground: Some(Color::Green),
            background: Some(Color::Cyan),
            ..plain_style()
        }),
    };
    assert_eq!(r.parts[0], TemplatePart::Placeholder(expected));
}

#[test]
fn plain_text_is_one_literal() {
    let t = Template::from_str("hello world");
    assert_eq!(t.parts, vec![TemplatePart::Literal(b"hello world".to_vec())]);
}

#[test]
fn double_braces_escape() {
    let t = Template::from_str("{{x}}");
    assert_eq!(t.parts, vec![TemplatePart::Literal(b"{x}".to_vec())]);
    let rendered: Vec<u8> = t
        .parts
        .iter()
        .flat_map(|p| match p {
            TemplatePart::Literal(text) => text.clone(),
            _ => panic!("only literals expected"),
        })
        .collect();
    assert_eq!(rendered, b"{x}".to_vec());

    let empty = Template::from_str("{{}}");
    assert_eq!(empty.parts, vec![TemplatePart::Literal(b"{}".to_vec())]);
}

#[test]
fn bare_key_placeholder_has_defaults() {
    let t = Template::from_str("{foo}");
    assert_eq!(t.parts.len(), 1);
    assert_eq!(t.parts[0], TemplatePart::Placeholder(plain_placeholder(b"foo")));
}

#[test]
fn center_width_truncate_style() {
    let t = Template::from_str("{foo:^10!.red}");
    assert_eq!(t.parts.len(), 1);
    let expected = Placeholder {
        key: b"foo".to_vec(),
        align: Alignment::Center,
        width: Some(10),
        truncate: true,
        style: Some(Style { foreground: Some(Color::Red), ..plain_style() }),
        alt_style: None,
    };
    assert_eq!(t.parts[0], TemplatePart::Placeholder(expected));
}

#[test]
fn styles_without_width_are_separated() {
    // no width digits at all: `.` right after the alignment field
    let t = Template::from_str("{foo:.red.on_blue/green.on_cyan}");
    assert_eq!(t.parts.len(), 1);
    let expected = Placeholder {
        key: b"foo".to_vec(),
        align: Alignment::Left,
        width: None,
        truncate: false,
        style: Some(Style {
            foreground: Some(Color::Red),
            background: Some(Color::Blue),
            ..plain_style()
        }),
        alt_style: Some(Style {
            foreground: Some(Color::Green),
            background: Some(Color::Cyan),
            ..plain_style()
        }),
    };
    assert_eq!(t.parts[0], TemplatePart::Placeholder(expected));
}

#[test]
fn style_token_directly_after_colon_is_a_fault() {
    // the grammar expects alignment, digits, `!`, `.` or `}` after `:`
    assert!(Template::try_from_str("{foo:red.on_blue/green.on_cyan}").is_none());
}

#[test]
fn whitespace_after_brace_degrades_to_literal() {
    let t = Template::from_str("{ foo}");
    assert_eq!(
        t.parts,
        vec![
            TemplatePart::Literal(b"{ ".to_vec()),
            TemplatePart::Literal(b"foo}".to_vec()),
        ]
    );
    let rendered: Vec<u8> = t
        .parts
        .iter()
        .flat_map(|p| match p {
            TemplatePart::Literal(text) => text.clone(),
            _ => panic!("only literals expected"),
        })
        .collect();
    assert_eq!(rendered, b"{ foo}".to_vec());
}

#[test]
fn newline_is_its_own_part() {
    let t = Template::from_str("ab\ncd");
    assert_eq!(
        t.parts,
        vec![
            TemplatePart::Literal(b"ab".to_vec()),
            TemplatePart::NewLine,
            TemplatePart::Literal(b"cd".to_vec()),
        ]
    );
}

#[test]
fn newline_edge_cases() {
    let only = Template::from_str("\n");
    assert_eq!(only.parts, vec![TemplatePart::NewLine]);

    let trailing = Template::from_str("ab\n");
    assert_eq!(
        trailing.parts,
        vec![TemplatePart::Literal(b"ab".to_vec()), TemplatePart::NewLine]
    );

    let doubled = Template::from_str("x\n\ny");
    assert_eq!(
        doubled.parts,
        vec![
            TemplatePart::Literal(b"x".to_vec()),
            TemplatePart::NewLine,
            TemplatePart::NewLine,
            TemplatePart::Literal(b"y".to_vec()),
        ]
    );
}

#[test]
fn alignment_and_width_fields() {
    let right = Template::from_str("{k:>7}");
    let expected = Placeholder {
        key: b"k".to_vec(),
        align: Alignment::Right,
        width: Some(7),
        truncate: false,
        style: None,
        alt_style: None,
    };
    assert_eq!(right.parts, vec![TemplatePart::Placeholder(expected)]);

    let bang_only = Template::from_str("{k:!}");
    let expected = Placeholder {
        key: b"k".to_vec(),
        align: Alignment::Left,
        width: None,
        truncate: true,
        style: None,
        alt_style: None,
    };
    assert_eq!(bang_only.parts, vec![TemplatePart::Placeholder(expected)]);

    let width_then_bang = Template::from_str("{k:5!}");
    let expected = Placeholder {
        key: b"k".to_vec(),
        align: Alignment::Left,
        width: Some(5),
        truncate: true,
        style: None,
        alt_style: None,
    };
    assert_eq!(width_then_bang.parts, vec![TemplatePart::Placeholder(expected)]);
}

#[test]
fn truncate_shortcut_after_key() {
    let t = Template::from_str("{k!5}");
    let expected = Placeholder {
        key: b"k".to_vec(),
        align: Alignment::Left,
        width: Some(5),
        truncate: true,
        style: None,
        alt_style: None,
    };
    assert_eq!(t.parts, vec![TemplatePart::Placeholder(expected)]);
}

#[test]
fn grammar_faults_are_reported() {
    assert!(Template::try_from_str("{}").is_none());
    assert!(Template::try_from_str("{:5}").is_none());
    assert!(Template::try_from_str("}x").is_none());
    assert!(Template::try_from_str("a}b").is_none());
    assert!(Template::try_from_str("{k:x}").is_none());
    assert!(Template::try_from_str("{k:12 }").is_none());
}

#[test]
fn unterminated_input_loses_open_fields() {
    // ending inside the key: the placeholder was never emitted
    let t = Template::from_str("{foo");
    assert_eq!(t.parts.len(), 0);

    // ending right after the opening brace: the buffered text is lost too
    let t = Template::from_str("ab{");
    assert_eq!(t.parts.len(), 0);

    // ending after the colon: the placeholder was already emitted
    let t = Template::from_str("{foo:");
    assert_eq!(t.parts, vec![TemplatePart::Placeholder(plain_placeholder(b"foo"))]);

    // ending inside the width: the buffered digits are lost
    let t = Template::from_str("{foo:12");
    assert_eq!(t.parts, vec![TemplatePart::Placeholder(plain_placeholder(b"foo"))]);
}

#[test]
fn escaped_brace_inside_literal() {
    let t = Template::from_str("a{{b");
    assert_eq!(t.parts, vec![TemplatePart::Literal(b"a{b".to_vec())]);
}

#[test]
fn doubled_close_brace_inside_literal() {
    let t = Template::from_str("a}}b");
    assert_eq!(t.parts, vec![TemplatePart::Literal(b"a}b".to_vec())]);
}

#[test]
fn backtrack_rebuilds_from_the_brace() {
    // text buffered before the `{` was never flushed, so the abandoned
    // opening re-emits it after the brace, as the transition table says
    let t = Template::from_str("ab{ c");
    assert_eq!(
        t.parts,
        vec![
            TemplatePart::Literal(b"{ab ".to_vec()),
            TemplatePart::Literal(b"c".to_vec()),
        ]
    );
}

#[test]
fn key_may_hold_punctuation() {
    let t = Template::from_str("{a.b!}");
    // `!` after a non-empty key is the truncation shortcut; `.` stays in the key
    let expected = Placeholder {
        key: b"a.b".to_vec(),
        align: Alignment::Left,
        width: None,
        truncate: true,
        style: None,
        alt_style: None,
    };
    assert_eq!(t.parts, vec![TemplatePart::Placeholder(expected)]);
}
