use ringlog::cli::{select_mode, Mode};
use ringlog::text::{message_of_line, text_of_message};

fn mode(args: &[&str]) -> Mode {
    let mut all = vec!["ringlog".to_string()];
    all.extend(args.iter().map(|a| a.to_string()));
    select_mode(&all)
}

#[test]
fn subcommands_select_the_mode() {
    assert_eq!(mode(&["server"]), Mode::Server);
    assert_eq!(mode(&["producer"]), Mode::Producer);
    assert_eq!(mode(&["consumer"]), Mode::Consumer { start_offset: 0 });
    assert_eq!(mode(&["consumer", "26"]), Mode::Consumer { start_offset: 26 });
}

#[test]
fn anything_else_runs_the_demo() {
    assert_eq!(select_mode(&Vec::new()), Mode::Demo);
    assert_eq!(mode(&[]), Mode::Demo);
    assert_eq!(mode(&["Server"]), Mode::Demo);
    assert_eq!(mode(&["demo", "server"]), Mode::Demo);
}

#[test]
fn starting_offset_is_a_decimal_number_or_zero() {
    let offset = |text: &str| mode(&["consumer", text]);
    assert_eq!(offset("+7"), Mode::Consumer { start_offset: 7 });
    assert_eq!(offset("007"), Mode::Consumer { start_offset: 7 });
    assert_eq!(
        offset("18446744073709551615"),
        Mode::Consumer { start_offset: u64::MAX }
    );
    for text in ["", "+", "-1", "++1", " 1", "1 ", "1_000", "0x10", "18446744073709551616", "x"] {
        assert_eq!(offset(text), Mode::Consumer { start_offset: 0 }, "{:?}", text);
    }
}

#[test]
fn line_is_trimmed_of_unicode_white_space() {
    let white = [
        '\u{9}', '\u{a}', '\u{b}', '\u{c}', '\u{d}', '\u{20}', '\u{85}', '\u{a0}', '\u{1680}',
        '\u{2000}', '\u{2001}', '\u{2002}', '\u{2003}', '\u{2004}', '\u{2005}', '\u{2006}',
        '\u{2007}', '\u{2008}', '\u{2009}', '\u{200a}', '\u{2028}', '\u{2029}', '\u{202f}',
        '\u{205f}', '\u{3000}',
    ];
    for c in '\0'..=char::MAX {
        let is_white = white.contains(&c);
        assert_eq!(message_of_line(&c.to_string()).is_none(), is_white, "{:?}", c);
        if is_white {
            let line = format!("{}a{}b{}{}", c, c, c, c);
            assert_eq!(message_of_line(&line).unwrap(), format!("a{}b", c).into_bytes());
        }
    }
}

#[test]
fn message_of_a_line_is_its_utf8() {
    assert_eq!(message_of_line("plain"), Some(b"plain".to_vec()));
    assert_eq!(message_of_line(" \u{e9} "), Some(vec![0xc3, 0xa9]));
    assert_eq!(message_of_line(" \t"), None);
}

#[test]
fn typed_text_is_shown_text() {
    for text in ["hello", "gr\u{fc}n", "\u{1f980} crab"] {
        let message = message_of_line(&format!("  {}\n", text)).unwrap();
        assert_eq!(text_of_message(&message), text);
    }
}

#[test]
fn bytes_that_are_no_text_are_replaced() {
    assert_eq!(text_of_message(&vec![b'a', 0xff, b'b']), "a\u{fffd}b");
}
