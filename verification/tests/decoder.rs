use sse_codec::SseCodec;
use sse_codec::SseCodecError;
use sse_codec::SseEvent;

fn expect_event(codec: &mut SseCodec) -> SseEvent {
    codec.poll_event().expect("failed to parse").expect("missing event")
}

fn drain(codec: &mut SseCodec) -> Vec<SseEvent> {
    let mut events = Vec::new();
    while let Ok(Some(ev)) = codec.poll_event() {
        events.push(ev);
    }
    events
}

#[test]
fn field_colon_space() {
    let test_data = "data:test\n\ndata: test\n\n";
    let mut codec = SseCodec::new();
    codec.feed(test_data.as_bytes().to_vec());
    let expected_event = SseEvent {
        event: None,
        data: Some("test".into()),
        id: None,
        retry: None,
    };
    let event_1 = expect_event(&mut codec);
    assert!(event_1 == expected_event);
    let event_2 = expect_event(&mut codec);
    assert!(event_2 == expected_event);
    let no_event_3 = matches!(codec.poll_event(), Ok(None));
    assert!(no_event_3);
    assert!(matches!(codec.finish(), Ok(None)));
}

#[test]
fn field_colon_space_r() {
    let test_data = "data:test\r\rdata: test\r\r";
    let mut codec = SseCodec::new();
    codec.feed(test_data.as_bytes().to_vec());
    let expected_event = SseEvent {
        event: None,
        data: Some("test".into()),
        id: None,
        retry: None,
    };
    let event_1 = expect_event(&mut codec);
    assert!(event_1 == expected_event);
    let event_2 = expect_event(&mut codec);
    assert!(event_2 == expected_event);
    let no_event_3 = matches!(codec.poll_event(), Ok(None));
    assert!(no_event_3);
    assert!(matches!(codec.finish(), Ok(None)));
}

#[test]
fn field_colon_space_rn() {
    let test_data = "data:test\r\n\r\ndata: test\r\n\r\n";
    let mut codec = SseCodec::new();
    codec.feed(test_data.as_bytes().to_vec());
    let expected_event = SseEvent {
        event: None,
        data: Some("test".into()),
        id: None,
        retry: None,
    };
    let event_1 = expect_event(&mut codec);
    assert!(event_1 == expected_event);
    let event_2 = expect_event(&mut codec);
    assert!(event_2 == expected_event);
    let no_event_3 = matches!(codec.poll_event(), Ok(None));
    assert!(no_event_3);
    assert!(matches!(codec.finish(), Ok(None)));
}

#[test]
fn trailing_nl() {
    let test_data = "data\n\ndata\ndata\n\ndata:";
    let mut codec = SseCodec::new();
    codec.feed(test_data.as_bytes().to_vec());
    let expected_event_1 = SseEvent {
        event: None,
        data: Some("".into()),
        id: None,
        retry: None,
    };
    let event_1 = expect_event(&mut codec);
    assert!(event_1 == expected_event_1);
    let expected_event_2 = SseEvent {
        event: None,
        data: Some("\n".into()),
        id: None,
        retry: None,
    };
    let event_2 = expect_event(&mut codec);
    assert!(event_2 == expected_event_2);
    let no_event_3 = matches!(codec.poll_event(), Ok(None));
    assert!(no_event_3);
    assert!(matches!(codec.finish(), Ok(None)));
}

#[test]
fn byte_by_byte_chunking_is_invariant() {
    let stream = "event:tick\ndata:test\r\n\r\nid:7\ndata: a\rdata:b\r\rdata:last\r\n\r\n";

    let mut whole = SseCodec::new();
    whole.feed(stream.as_bytes().to_vec());
    let expected = drain(&mut whole);
    assert_eq!(expected.len(), 3);

    let mut split = SseCodec::new();
    let mut got = Vec::new();
    for b in stream.as_bytes() {
        split.feed(vec![*b]);
        got.append(&mut drain(&mut split));
    }
    assert_eq!(got, expected);
}

#[test]
fn pending_record_resets_between_events() {
    let mut codec = SseCodec::new();
    codec.feed("event:a\nid:x\nretry:7\ndata:one\n\ndata:two\n\n".as_bytes().to_vec());
    let event_1 = expect_event(&mut codec);
    assert_eq!(
        event_1,
        SseEvent {
            event: Some("a".into()),
            data: Some("one".into()),
            id: Some("x".into()),
            retry: Some(7),
        }
    );
    let event_2 = expect_event(&mut codec);
    assert_eq!(
        event_2,
        SseEvent { event: None, data: Some("two".into()), id: None, retry: None }
    );
}

#[test]
fn id_with_nul_keeps_prior_value() {
    let mut codec = SseCodec::new();
    codec.feed("id:ok\nid:b\0ad\ndata:x\n\n".as_bytes().to_vec());
    let event = expect_event(&mut codec);
    assert_eq!(event.id, Some("ok".into()));
}

#[test]
fn id_with_nul_never_set() {
    let mut codec = SseCodec::new();
    codec.feed("id:\0\ndata:x\n\n".as_bytes().to_vec());
    let event = expect_event(&mut codec);
    assert_eq!(event.id, None);
}

#[test]
fn retry_rejects_non_digits() {
    let mut codec = SseCodec::new();
    codec.feed("retry:12x\nretry:+5\nretry:1 2\nretry:\ndata:x\n\n".as_bytes().to_vec());
    let event = expect_event(&mut codec);
    assert_eq!(event.retry, None);
}

#[test]
fn retry_bounds() {
    let mut codec = SseCodec::new();
    codec.feed("retry:18446744073709551615\ndata:x\n\n".as_bytes().to_vec());
    let event = expect_event(&mut codec);
    assert_eq!(event.retry, Some(u64::MAX));

    codec.feed("retry:3\nretry:18446744073709551616\ndata:x\n\n".as_bytes().to_vec());
    let event = expect_event(&mut codec);
    assert_eq!(event.retry, Some(3));
}

#[test]
fn retry_leading_zeros() {
    let mut codec = SseCodec::new();
    codec.feed("retry:007\ndata:x\n\n".as_bytes().to_vec());
    let event = expect_event(&mut codec);
    assert_eq!(event.retry, Some(7));
}

#[test]
fn comments_and_unknown_fields_are_ignored() {
    let mut codec = SseCodec::new();
    codec.feed(": a comment\nfoo:bar\ndata:x\n\n".as_bytes().to_vec());
    let event = expect_event(&mut codec);
    assert_eq!(
        event,
        SseEvent { event: None, data: Some("x".into()), id: None, retry: None }
    );
}

#[test]
fn event_field_overwrites() {
    let mut codec = SseCodec::new();
    codec.feed("event:a\nevent:b\ndata:z\n\n".as_bytes().to_vec());
    let event = expect_event(&mut codec);
    assert_eq!(event.event, Some("b".into()));
}

#[test]
fn bare_field_name_has_empty_value() {
    let mut codec = SseCodec::new();
    codec.feed("event\ndata\n\n".as_bytes().to_vec());
    let event = expect_event(&mut codec);
    assert_eq!(event.event, Some("".into()));
    assert_eq!(event.data, Some("".into()));
}

#[test]
fn blank_line_alone_emits_empty_event() {
    let mut codec = SseCodec::new();
    codec.feed("\n".as_bytes().to_vec());
    let event = expect_event(&mut codec);
    assert_eq!(event, SseEvent { event: None, data: None, id: None, retry: None });
}

#[test]
fn non_ascii_text_is_decoded() {
    let mut codec = SseCodec::new();
    codec.feed("data:héllo \u{2603}\n\n".as_bytes().to_vec());
    let event = expect_event(&mut codec);
    assert_eq!(event.data, Some("héllo \u{2603}".into()));
}

#[test]
fn invalid_utf8_is_fatal_and_deterministic() {
    let mut codec = SseCodec::new();
    codec.feed(vec![b'd', 0xFF, b'\n']);
    let first = codec.poll_event();
    assert!(matches!(first, Err(SseCodecError::InvalidUtf8(_))));
    if let Err(e) = first {
        assert_eq!(e.message(), "a line was not valid utf8");
    }
    // the bad line was not consumed: an unchanged retry reproduces the error
    let second = codec.poll_event();
    assert!(matches!(second, Err(SseCodecError::InvalidUtf8(_))));
}

#[test]
fn invalid_utf8_after_a_valid_event() {
    let mut codec = SseCodec::new();
    let mut bytes = "data:ok\n\n".as_bytes().to_vec();
    bytes.extend_from_slice(&[0xC3, 0x28, b'\n']);
    codec.feed(bytes);
    let event = expect_event(&mut codec);
    assert_eq!(event.data, Some("ok".into()));
    assert!(matches!(codec.poll_event(), Err(SseCodecError::InvalidUtf8(_))));
}

#[test]
fn split_crlf_across_deliveries() {
    let mut codec = SseCodec::new();
    codec.feed("data:a\r".as_bytes().to_vec());
    assert!(matches!(codec.poll_event(), Ok(None)));
    codec.feed("\n\r\n".as_bytes().to_vec());
    let event = expect_event(&mut codec);
    assert_eq!(event.data, Some("a".into()));
}

#[test]
fn bare_cr_state_survives_a_flush() {
    // After a bare `\r`, the pending-`\r` state lives on across an emitted
    // event and even across a later `\n`-terminated line, so the `\n` that
    // follows that line is consumed as terminator continuation, not as a
    // blank line.
    let mut codec = SseCodec::new();
    codec.feed("data:x\r\rdata:y\n\n".as_bytes().to_vec());
    let event_1 = expect_event(&mut codec);
    assert_eq!(event_1.data, Some("x".into()));
    assert!(matches!(codec.poll_event(), Ok(None)));
    assert!(matches!(codec.finish(), Ok(None)));
}

#[test]
fn finish_discards_partial_record() {
    let mut codec = SseCodec::new();
    codec.feed("data:x\nid:7".as_bytes().to_vec());
    assert!(matches!(codec.poll_event(), Ok(None)));
    assert!(matches!(codec.finish(), Ok(None)));
}

#[test]
fn finish_emits_a_complete_buffered_event() {
    let mut codec = SseCodec::new();
    codec.feed("data:x\n\n".as_bytes().to_vec());
    let finished = codec.finish();
    match finished {
        Ok(Some(event)) => assert_eq!(event.data, Some("x".into())),
        _ => panic!("expected one final event"),
    }
}

#[test]
fn transport_error_is_carried_through() {
    let io_error = std::io::Error::new(std::io::ErrorKind::UnexpectedEof, "closed");
    let error = SseCodecError::from(io_error);
    assert!(matches!(error, SseCodecError::Io(_)));
    assert_eq!(error.message(), "an I/O error occured");
}

#[test]
fn default_is_a_fresh_decoder() {
    let mut codec = SseCodec::default();
    codec.feed("data:d\n\n".as_bytes().to_vec());
    let event = expect_event(&mut codec);
    assert_eq!(event.data, Some("d".into()));
}
