use dvr_client::rtsp::{
    get_rtsp_status, options_reply, parse_request, request_lines, respond, ProtocolMismatch,
};
use dvr_client::text::{
    chars_of, split_fields, split_parts, trimmed, trimmed_each, trimmed_non_empty, whitespace,
    Separator,
};

fn s(v: &[char]) -> String {
    v.iter().collect()
}

fn strings(v: &[Vec<char>]) -> Vec<String> {
    v.iter().map(|p| s(p)).collect()
}

fn contains(haystack: &[u8], needle: &[u8]) -> bool {
    haystack.windows(needle.len()).any(|w| w == needle)
}

#[test]
fn options_gets_the_fixed_answer() {
    let reply =
        respond("OPTIONS rtsp://x RTSP/1.0\r\nCSeq: 2\r\nUser-Agent: test\r\n").unwrap();
    assert!(reply.starts_with(b"RTSP/1.0 200 OK"));
    assert!(contains(&reply, b"Public: DESCRIBE, SETUP, PLAY, PAUSE, RECORD"));
    assert_eq!(
        reply,
        b"RTSP/1.0 200 OK\r\nCSeq: 2\r\nPublic: DESCRIBE, SETUP, PLAY, PAUSE, RECORD\r\n\r\n"
            .to_vec()
    );
    assert_eq!(reply, options_reply());
}

#[test]
fn other_methods_are_not_answered() {
    for method in ["DESCRIBE", "SETUP", "PLAY", "options", "OPTION", "OPTIONSS", "GET"] {
        let text = format!("{} rtsp://x RTSP/1.0\r\nCSeq: 2\r\nUser-Agent: test\r\n", method);
        assert_eq!(respond(&text), Err(ProtocolMismatch::UnexpectedMethod));
    }
}

#[test]
fn other_line_counts_are_not_answered() {
    assert_eq!(respond(""), Err(ProtocolMismatch::LineCount { found: 0 }));
    assert_eq!(respond("\r\n\r\n"), Err(ProtocolMismatch::LineCount { found: 0 }));
    assert_eq!(
        respond("OPTIONS rtsp://x RTSP/1.0\r\n"),
        Err(ProtocolMismatch::LineCount { found: 1 })
    );
    assert_eq!(
        respond("OPTIONS rtsp://x RTSP/1.0\r\nCSeq: 2\r\n"),
        Err(ProtocolMismatch::LineCount { found: 2 })
    );
    assert_eq!(
        respond("OPTIONS rtsp://x RTSP/1.0\r\nCSeq: 2\r\nUser-Agent: test\r\nAccept: x\r\n"),
        Err(ProtocolMismatch::LineCount { found: 4 })
    );
}

#[test]
fn line_ends_may_be_bare_and_repeated() {
    let reply = respond("OPTIONS * RTSP/1.0\nCSeq: 7\n\n\nUser-Agent: a\r").unwrap();
    assert_eq!(reply, options_reply());
    let reply = respond("\r\n\r\nOPTIONS\rCSeq\rUA").unwrap();
    assert_eq!(reply, options_reply());
}

#[test]
fn a_line_of_white_space_is_no_line() {
    // Three lines once the blank one is left out: answered.
    assert_eq!(
        respond("OPTIONS x y\r\n   \r\nCSeq: 2\r\nUser-Agent: t\r\n"),
        Ok(options_reply())
    );
    // Two lines once the blank ones are left out: not answered.
    assert_eq!(
        respond("OPTIONS\n \nx"),
        Err(ProtocolMismatch::LineCount { found: 2 })
    );
    assert_eq!(
        respond("  \t \r\nCSeq: 2\r\nUser-Agent: t\r\n"),
        Err(ProtocolMismatch::LineCount { found: 2 })
    );
    assert_eq!(
        respond("OPTIONS x y\r\nCSeq: 2\r\n\u{a0}\u{3000}\r\n"),
        Err(ProtocolMismatch::LineCount { found: 2 })
    );
    assert_eq!(respond(" \r\n\t\r\n  "), Err(ProtocolMismatch::LineCount { found: 0 }));
}

#[test]
fn only_three_lines_are_answered_even_for_options() {
    let line = "OPTIONS rtsp://x RTSP/1.0\r\n";
    for n in 0..8usize {
        let text = line.repeat(n);
        if n == 3 {
            assert_eq!(respond(&text), Ok(options_reply()));
        } else {
            assert_eq!(respond(&text), Err(ProtocolMismatch::LineCount { found: n }));
        }
    }
}

#[test]
fn the_method_is_the_first_word_whatever_surrounds_it() {
    assert!(respond("   OPTIONS\trtsp://x   RTSP/1.0  \r\nCSeq: 2\r\nUser-Agent: t").is_ok());
    assert!(respond("\u{a0}OPTIONS\u{2003}x\r\nCSeq: 2\r\nUser-Agent: t").is_ok());
    assert!(respond("OPTIONS\r\na\r\nb").is_ok());
    assert_eq!(
        respond("x OPTIONS\r\na\r\nb"),
        Err(ProtocolMismatch::UnexpectedMethod)
    );
}

#[test]
fn request_lines_are_trimmed_and_never_split_inside() {
    let lines = request_lines("  OPTIONS rtsp://x RTSP/1.0 \r\n\tCSeq: 2\r\n\r\nUser-Agent: test app\n");
    assert_eq!(
        strings(&lines),
        vec!["OPTIONS rtsp://x RTSP/1.0", "CSeq: 2", "User-Agent: test app"]
    );
    assert_eq!(strings(&request_lines(" \r\nx")), vec!["x"]);
    assert_eq!(strings(&request_lines("a\n \t \nb\n\u{2003}\n")), vec!["a", "b"]);
    assert!(request_lines("").is_empty());
}

#[test]
fn request_lines_agree_with_std() {
    let samples = [
        "OPTIONS rtsp://x RTSP/1.0\r\nCSeq: 2\r\nUser-Agent: test\r\n",
        "a\rb\nc\r\n\r\nd",
        "\n\n  x  \n \n",
        " \r\n\t\r\ny",
        "OPTIONS\n \nx",
        "no line end",
        "\u{2028}odd\u{85} \r tail\u{3000}",
    ];
    for text in samples {
        let expected: Vec<String> = text
            .split_terminator(&['\r', '\n'])
            .map(|l| l.trim().to_string())
            .filter(|l| !l.is_empty())
            .collect();
        assert_eq!(strings(&request_lines(text)), expected);
    }
}

#[test]
fn a_request_is_cut_into_words_and_header_parts() {
    let r = parse_request("OPTIONS rtsp://x RTSP/1.0\r\nCSeq: 2\r\nUser-Agent: test\r\n").unwrap();
    assert_eq!(strings(&r.request_line), vec!["OPTIONS", "rtsp://x", "RTSP/1.0"]);
    assert_eq!(strings(&r.cseq), vec!["CSeq", "2"]);
    assert_eq!(strings(&r.user_agent), vec!["User-Agent", "test"]);
    let r = parse_request("PLAY\r\nno colon\r\na: b :c:\r\n").unwrap();
    assert_eq!(strings(&r.request_line), vec!["PLAY"]);
    assert_eq!(strings(&r.cseq), vec!["no colon"]);
    assert_eq!(strings(&r.user_agent), vec!["a", "b", "c", ""]);
    let r = parse_request("GET /\r\n \r\nk: v\r\n\r\nu: w").unwrap();
    assert_eq!(strings(&r.request_line), vec!["GET", "/"]);
    assert_eq!(strings(&r.cseq), vec!["k", "v"]);
    assert_eq!(strings(&r.user_agent), vec!["u", "w"]);
    assert_eq!(
        parse_request("one\r\ntwo").err(),
        Some(ProtocolMismatch::LineCount { found: 2 })
    );
}

#[test]
fn status_lines_are_formatted() {
    assert_eq!(get_rtsp_status(200, "OK"), b"RTSP/1.0 200 OK\r\n".to_vec());
    assert_eq!(
        get_rtsp_status(404, "Not Found"),
        b"RTSP/1.0 404 Not Found\r\n".to_vec()
    );
    assert_eq!(get_rtsp_status(0, ""), b"RTSP/1.0 0 \r\n".to_vec());
    assert_eq!(get_rtsp_status(7, "x"), b"RTSP/1.0 7 x\r\n".to_vec());
    assert_eq!(get_rtsp_status(65535, "\u{e9}"), "RTSP/1.0 65535 \u{e9}\r\n".as_bytes().to_vec());
}

#[test]
fn status_codes_agree_with_std_formatting() {
    for code in [0u16, 1, 9, 10, 11, 99, 100, 101, 999, 1000, 9999, 10000, 12345, 65534, 65535] {
        let expected = format!("RTSP/1.0 {} {}\r\n", code, "Reason");
        assert_eq!(get_rtsp_status(code, "Reason"), expected.into_bytes());
    }
}

#[test]
fn white_space_is_what_unicode_says() {
    for n in 0..=0x10FFFFu32 {
        if let Some(c) = char::from_u32(n) {
            assert_eq!(whitespace(c), c.is_whitespace());
        }
    }
}

#[test]
fn separators_cut_at_their_characters() {
    assert!(Separator::LineBreak.cuts_at('\r'));
    assert!(Separator::LineBreak.cuts_at('\n'));
    assert!(!Separator::LineBreak.cuts_at(' '));
    assert!(Separator::Whitespace.cuts_at('\t'));
    assert!(Separator::Whitespace.cuts_at('\n'));
    assert!(!Separator::Whitespace.cuts_at(':'));
    assert!(Separator::Colon.cuts_at(':'));
    assert!(!Separator::Colon.cuts_at(';'));
}

#[test]
fn fields_parts_and_trim_agree_with_std() {
    let samples = ["", " ", "a", " a b  c ", ":a::b:", "a:b", "\t x\u{a0}y \n", "::", "  lead", "trail  "];
    for text in samples {
        let chars = chars_of(text);
        assert_eq!(s(&chars), text);
        let words: Vec<String> = text.split_whitespace().map(|w| w.to_string()).collect();
        assert_eq!(strings(&split_fields(&chars, Separator::Whitespace)), words);
        let pieces: Vec<String> = text.split(':').map(|w| w.to_string()).collect();
        assert_eq!(strings(&split_parts(&chars, Separator::Colon)), pieces);
        assert_eq!(s(&trimmed(&chars)), text.trim());
    }
}

#[test]
fn trimming_pieces_keeps_or_drops_the_empty_ones() {
    let pieces: Vec<Vec<char>> =
        [" a ", "", "  ", "b", "\t"].iter().map(|p| p.chars().collect()).collect();
    assert_eq!(strings(&trimmed_each(&pieces)), vec!["a", "", "", "b", ""]);
    assert_eq!(strings(&trimmed_non_empty(&pieces)), vec!["a", "b"]);
    assert!(trimmed_non_empty(&Vec::new()).is_empty());
}
