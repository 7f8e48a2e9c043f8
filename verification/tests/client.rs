use tokio_udp_demo::client::{on_line, LineAction};

#[test]
fn blank_lines_are_skipped() {
    for line in ["", " ", "\t \u{3000}\r\n"] {
        assert!(matches!(on_line(line), LineAction::Skip));
    }
}

#[test]
fn white_space_is_what_unicode_says() {
    for c in '\0'..=char::MAX {
        let skipped = matches!(on_line(&c.to_string()), LineAction::Skip);
        assert_eq!(skipped, c.is_whitespace());
    }
}

#[test]
fn quit_leaves_whatever_surrounds_it() {
    for line in ["/quit", "  /quit", "/quit\t", "\u{a0}/quit \r"] {
        assert!(matches!(on_line(line), LineAction::Quit));
    }
}

#[test]
fn other_lines_are_sent_as_they_are() {
    for line in ["hello", " hello ", "/quit now", "/Quit", "gr\u{fc}\u{df}e \u{1f600}", "/ quit"] {
        match on_line(line) {
            LineAction::Send(bytes) => assert_eq!(bytes, line.as_bytes()),
            other => panic!("{:?}", other),
        }
    }
}
