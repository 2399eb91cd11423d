use chat_relay::parse::{classify, read_event, tokenize};
use chat_relay::registry::Event;

fn bytes(s: &str) -> Vec<u8> {
    s.as_bytes().to_vec()
}

#[test]
fn plain_text_is_a_broadcast_payload_untrimmed() {
    match classify(1, bytes("hello world\n")) {
        Event::Broadcast(id, text) => {
            assert_eq!(id, 1);
            assert_eq!(text, bytes("hello world\n"));
        }
        _ => panic!("expected a broadcast"),
    }
}

#[test]
fn leading_slash_makes_a_command() {
    match classify(2, bytes("/setnickname bob\n")) {
        Event::Command(id, toks) => {
            assert_eq!(id, 2);
            assert_eq!(toks, vec![bytes("/setnickname"), bytes("bob")]);
        }
        _ => panic!("expected a command"),
    }
}

#[test]
fn slash_inside_the_text_is_still_a_broadcast() {
    match classify(1, bytes("a /b c")) {
        Event::Broadcast(_, text) => assert_eq!(text, bytes("a /b c")),
        _ => panic!("expected a broadcast"),
    }
}

#[test]
fn empty_chunk_is_a_broadcast() {
    match classify(1, Vec::new()) {
        Event::Broadcast(_, text) => assert!(text.is_empty()),
        _ => panic!("expected a broadcast"),
    }
}

#[test]
fn tokens_split_on_runs_of_ascii_whitespace() {
    assert_eq!(
        tokenize(&bytes("/foo  bar\t baz\r\n")),
        vec![bytes("/foo"), bytes("bar"), bytes("baz")]
    );
    assert_eq!(tokenize(&bytes("/")), vec![bytes("/")]);
    assert_eq!(tokenize(&bytes("   ")), Vec::<Vec<u8>>::new());
    assert_eq!(tokenize(&bytes("one")), vec![bytes("one")]);
}

#[test]
fn vertical_tab_is_not_a_separator() {
    // Only space, tab, line feed, form feed and carriage return split;
    // a vertical tab stays inside its token.
    assert_eq!(
        tokenize(&b"/a\x0bb\x0cc".to_vec()),
        vec![b"/a\x0bb".to_vec(), b"c".to_vec()]
    );
}

#[test]
fn raw_read_of_valid_text_passes_through() {
    match read_event(1, b"just text\n") {
        Event::Broadcast(id, text) => {
            assert_eq!(id, 1);
            assert_eq!(text, bytes("just text\n"));
        }
        _ => panic!("expected a broadcast"),
    }
}

#[test]
fn invalid_bytes_are_replaced_not_fatal() {
    // 0xFF is no UTF-8 sequence: the decoder substitutes the replacement
    // character instead of failing, so the payload changes but arrives.
    match read_event(1, &[0xFF, b'h', b'i']) {
        Event::Broadcast(_, text) => {
            assert_eq!(text, "\u{FFFD}hi".as_bytes().to_vec());
        }
        _ => panic!("expected a broadcast"),
    }
}

#[test]
fn command_events_always_carry_the_command_word() {
    match read_event(3, b"/ lonely marker") {
        Event::Command(_, toks) => {
            assert!(!toks.is_empty());
            assert_eq!(toks[0], bytes("/"));
        }
        _ => panic!("expected a command"),
    }
}
