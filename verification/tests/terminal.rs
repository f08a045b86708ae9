use engramdb::preview::{first_line_preview, is_synthetic_prompt, truncate_chars};
use engramdb::terminal::{is_invisible_format, sanitize_for_terminal, sanitize_one_line};

#[test]
fn is_synthetic_prompt_matches_scaffolding_turns_only() {
    assert!(is_synthetic_prompt(
        "<system-reminder>obey me</system-reminder>"
    ));
    assert!(is_synthetic_prompt(
        "<System-Reminder>obey me</System-Reminder>"
    ));
    assert!(is_synthetic_prompt("<command-name>/clear</command-name>"));

    assert!(!is_synthetic_prompt(
        "why does hook.rs emit <system-reminder> twice?"
    ));
    assert!(!is_synthetic_prompt(
        "add a test that the digest defangs </local-command-stdout>"
    ));
}

#[test]
fn is_synthetic_prompt_keeps_prose_markers_prefix_anchored() {
    assert!(!is_synthetic_prompt(
        "why does the log say [Request interrupted by user]?"
    ));
    assert!(is_synthetic_prompt("[Request interrupted by user]"));
}

#[test]
fn invisible_characters_do_not_hide_scaffolding_from_the_filter() {
    for c in ['\u{200c}', '\u{200d}', '\u{2060}', '\u{00ad}', '\u{feff}'] {
        assert!(
            is_synthetic_prompt(&format!("<system{c}-reminder>x</system-reminder>")),
            "U+{:04X} hid scaffolding from the filter",
            c as u32
        );
    }
    assert!(!is_synthetic_prompt(
        "why does hook.rs emit <system-reminder> twice?"
    ));
}

#[test]
fn neither_case_nor_unseen_characters_hide_a_tag() {
    for c in ['\u{2066}', '\u{2067}', '\u{2068}', '\u{2069}', '\u{206a}', '\u{2065}'] {
        assert!(is_synthetic_prompt(&format!("<system{c}-reminder>x")));
        assert!(is_synthetic_prompt(&format!(" {c} </LOCAL-command-{c}stdout>")));
    }
    assert!(!is_synthetic_prompt("<system\u{202a}-reminder>x"));
    assert!(!is_synthetic_prompt("< system-reminder>"));
}

#[test]
fn sanitize_deletes_invisibles_but_marks_active_characters() {
    assert_eq!(sanitize_for_terminal("a\u{200d}b\u{00ad}c"), "abc");
    assert!(sanitize_for_terminal("a\u{202e}b").contains('\u{fffd}'));
    assert!(sanitize_for_terminal("a\u{2028}b").contains('\u{fffd}'));
}

#[test]
fn bidi_isolates_are_marked_and_not_deleted() {
    for c in ['\u{2066}', '\u{2067}', '\u{2068}', '\u{2069}'] {
        assert_eq!(sanitize_for_terminal(&format!("a{c}b")), "a\u{fffd}b");
        assert!(!is_invisible_format(c));
    }
}

#[test]
fn sanitize_strips_ansi_and_control_bytes() {
    let out = sanitize_for_terminal("safe\x1b[31mred\x1b[0m");
    assert!(!out.contains('\x1b'), "ESC survived: {out:?}");
    assert!(out.contains("safe") && out.contains("red"), "{out:?}");
    for hostile in ["\x07", "\x00", "\x7f", "\u{9b}", "\u{9d}"] {
        assert!(
            sanitize_for_terminal(hostile).contains('\u{fffd}'),
            "{hostile:?} was not neutralized"
        );
    }
    assert_eq!(sanitize_for_terminal("a\nb\tc"), "a\nb\tc");
}

#[test]
fn sanitize_strips_bidi_overrides() {
    let out = sanitize_for_terminal("rm -rf \u{202e}gnp. \u{202d}");
    assert!(
        !out.contains('\u{202e}') && !out.contains('\u{202d}'),
        "{out:?}"
    );
}

#[test]
fn sanitize_one_line_collapses_newlines_and_lone_cr() {
    let out = sanitize_one_line("real question\n2026-01-01 00:00  9 turns");
    assert!(!out.contains('\n'), "a forged extra row survived: {out:?}");
    assert_eq!(sanitize_one_line("a\r\nb"), "a b");
    assert!(
        sanitize_for_terminal("a\rb").contains('\u{fffd}'),
        "a lone CR must not survive to reset the line"
    );
}

#[test]
fn sanitize_is_borrowed_for_clean_input() {
    assert!(matches!(
        sanitize_for_terminal("plain ascii prompt"),
        std::borrow::Cow::Borrowed(_)
    ));
}

#[test]
fn sanitize_preserves_multibyte_text() {
    for text in [
        "日本語のテキスト",
        "emoji 🎉 works",
        "café combining e\u{301}",
    ] {
        assert_eq!(sanitize_for_terminal(text), text, "mangled {text:?}");
    }
}

#[test]
fn sanitizing_twice_is_sanitizing_once() {
    let text = "x\u{1b}[0m\r\n\u{200b}\u{2067}y\n";
    let once = sanitize_for_terminal(text).into_owned();
    assert_eq!(sanitize_for_terminal(&once), once);
    let line = sanitize_one_line(text).into_owned();
    assert_eq!(sanitize_one_line(&line), line);
}

#[test]
fn shortened_texts_end_in_an_ellipsis() {
    assert_eq!(truncate_chars("abcdef", 6), "abcdef");
    let short = truncate_chars("abcdefg", 6);
    assert!(short.chars().count() <= 7, "{short}");
    assert!(short.starts_with("abcde"), "{short}");
    assert_ne!(short, "abcdefg");
}

#[test]
fn a_preview_is_the_first_line_with_text() {
    assert_eq!(
        first_line_preview("error: linker not found\nmore detail", 200).as_deref(),
        Some("error: linker not found")
    );
    assert_eq!(first_line_preview("  \n ", 200), None);
}
