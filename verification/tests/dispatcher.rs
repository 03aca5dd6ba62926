//! End-to-end connection scenarios, driven synchronously through the
//! dispatcher engine.

use bytes::Bytes;
use h1_dispatch::body::ResponseBodySize;
use h1_dispatch::h1::body::BodyPoll;
use h1_dispatch::h1::proto::context::ConnectionType;
use h1_dispatch::h1::proto::dispatcher::Dispatcher;
use h1_dispatch::h1::proto::dispatcher::DecodeState;
use h1_dispatch::h1::proto::dispatcher::IdleAction;
use h1_dispatch::h1::proto::error::Parse;
use h1_dispatch::h1::proto::error::ProtoError;
use h1_dispatch::http::HeaderPair;
use h1_dispatch::http::ResponseParts;
use h1_dispatch::http::Version;

const DATE: &[u8] = b"Thu, 01 Jan 1970 00:00:00 GMT";

fn disp() -> Dispatcher {
    Dispatcher::new(64, 4096, 4096, 75_000, 0, DATE.to_vec())
}

fn contains(haystack: &[u8], needle: &[u8]) -> bool {
    haystack.windows(needle.len()).any(|w| w == needle)
}

#[test]
fn happy_get() {
    let mut d = disp();
    assert!(matches!(d.poll_idle(), IdleAction::WaitRead));
    let bp = d.feed_read(b"GET / HTTP/1.1\r\nHost: x\r\n\r\n");
    assert!(!bp);
    let (head, handle, _chan) = d.decode_head().unwrap().unwrap();
    assert_eq!(head.method, b"GET".to_vec());
    assert_eq!(head.target, b"/".to_vec());
    assert_eq!(head.version, Version::Http11);
    assert!(handle.is_none());
    let parts = ResponseParts {
        status: 200,
        version: Version::Http11,
        headers: vec![HeaderPair { name: b"content-length".to_vec(), value: b"5".to_vec() }],
    };
    let mut enc = d.encode_head(parts, ResponseBodySize::Sized(5)).unwrap();
    enc.encode(Bytes::copy_from_slice(b"hello"), &mut d.write_buf);
    d.end_response(&mut enc, true);
    let wire = d.write_buf.pending().to_vec();
    let expected =
        b"HTTP/1.1 200 OK\r\ncontent-length: 5\r\ndate: Thu, 01 Jan 1970 00:00:00 GMT\r\n\r\nhello";
    assert_eq!(wire, expected.to_vec());
    assert_eq!(d.ctx.ctype(), ConnectionType::KeepAlive);
    assert!(!d.ctx.is_force_close());
}

#[test]
fn chunked_upload_to_streaming_response() {
    let mut d = disp();
    d.feed_read(
        b"POST /e HTTP/1.1\r\nHost: x\r\ntransfer-encoding: chunked\r\n\r\n5\r\nhello\r\n0\r\n\r\n",
    );
    let (head, handle, mut chan) = d.decode_head().unwrap().unwrap();
    assert_eq!(head.method, b"POST".to_vec());
    let mut h = handle.expect("chunked request must have a body handle");
    let st = h.decode(&mut d.read_buf, &mut chan).unwrap();
    assert!(matches!(st, DecodeState::Eof));
    match chan.poll_next() {
        BodyPoll::Chunk(b) => assert_eq!(&b[..], b"hello"),
        _ => panic!("expected the uploaded chunk"),
    }
    assert!(matches!(chan.poll_next(), BodyPoll::End));
    let parts = ResponseParts { status: 200, version: Version::Http11, headers: vec![] };
    let mut enc = d.encode_head(parts, ResponseBodySize::Stream).unwrap();
    enc.encode(Bytes::copy_from_slice(b"hello"), &mut d.write_buf);
    d.end_response(&mut enc, true);
    let wire = d.write_buf.pending().to_vec();
    assert!(contains(&wire, b"transfer-encoding: chunked\r\n"));
    assert!(wire.ends_with(b"5\r\nhello\r\n0\r\n\r\n"));
    assert!(!d.ctx.is_force_close());
}

#[test]
fn expect_continue() {
    let mut d = disp();
    d.feed_read(b"POST /u HTTP/1.1\r\nHost: x\r\ncontent-length: 5\r\nexpect: 100-continue\r\n\r\n");
    let (_head, handle, mut chan) = d.decode_head().unwrap().unwrap();
    assert!(d.ctx.is_expect_header());
    let mut h = handle.unwrap();
    // The expect service accepted: the interim head goes out before any
    // body byte flows.
    d.encode_continue();
    assert_eq!(d.write_buf.pending(), b"HTTP/1.1 100 Continue\r\n\r\n");
    assert!(matches!(chan.poll_next(), BodyPoll::Pending));
    // Only now does the client send the body.
    d.feed_read(b"hello");
    let st = h.decode(&mut d.read_buf, &mut chan).unwrap();
    assert!(matches!(st, DecodeState::Eof));
    match chan.poll_next() {
        BodyPoll::Chunk(b) => assert_eq!(&b[..], b"hello"),
        _ => panic!("expected the body after the interim response"),
    }
    assert!(matches!(chan.poll_next(), BodyPoll::End));
}

#[test]
fn header_too_large() {
    // Byte cap: the head never completes and the read buffer is full.
    let mut d = Dispatcher::new(64, 32, 4096, 75_000, 0, DATE.to_vec());
    let bp = d.feed_read(b"GET / HTTP/1.1\r\nx-filler: aaaaaaaaaaaaaaaaaaaaaaaa");
    assert!(bp);
    match d.decode_head() {
        Err(ProtoError::Parse(Parse::HeaderTooLarge)) => {},
        _ => panic!("expected a too-large head"),
    }
    d.request_error(431);
    assert!(d.ctx.is_force_close());
    let wire = d.write_buf.pending().to_vec();
    assert!(wire.starts_with(b"HTTP/1.1 431 Request Header Fields Too Large\r\n"));
    assert!(contains(&wire, b"connection: close\r\n"));
    assert!(matches!(d.poll_idle(), IdleAction::Exit));

    // Count cap: more headers than the limit allows.
    let mut d = Dispatcher::new(2, 4096, 4096, 75_000, 0, DATE.to_vec());
    d.feed_read(b"GET / HTTP/1.1\r\na: 1\r\nb: 2\r\nc: 3\r\n\r\n");
    match d.decode_head() {
        Err(ProtoError::Parse(Parse::HeaderTooLarge)) => {},
        _ => panic!("expected a too-large head"),
    }
}

#[test]
fn pipelining_three_gets_one_read() {
    let mut d = disp();
    d.feed_read(
        b"GET /a HTTP/1.1\r\nHost: x\r\n\r\nGET /b HTTP/1.1\r\nHost: x\r\n\r\nGET /c HTTP/1.1\r\nHost: x\r\n\r\n",
    );
    let mut targets: Vec<Vec<u8>> = Vec::new();
    let mut wire_after: Vec<usize> = Vec::new();
    loop {
        match d.decode_head().unwrap() {
            None => break,
            Some((head, handle, _chan)) => {
                assert!(handle.is_none());
                targets.push(head.target.clone());
                let body = head.target.clone();
                let parts = ResponseParts {
                    status: 200,
                    version: Version::Http11,
                    headers: vec![],
                };
                let mut enc = d
                    .encode_head(parts, ResponseBodySize::Sized(body.len()))
                    .unwrap();
                enc.encode(Bytes::copy_from_slice(&body), &mut d.write_buf);
                // The next head is encoded only after this response ended.
                d.end_response(&mut enc, true);
                wire_after.push(d.write_buf.pending().len());
            },
        }
    }
    assert_eq!(targets, vec![b"/a".to_vec(), b"/b".to_vec(), b"/c".to_vec()]);
    let wire = d.write_buf.pending().to_vec();
    let one = |t: &str| {
        format!(
            "HTTP/1.1 200 OK\r\ncontent-length: 2\r\ndate: Thu, 01 Jan 1970 00:00:00 GMT\r\n\r\n{}",
            t
        )
    };
    let expected = format!("{}{}{}", one("/a"), one("/b"), one("/c"));
    assert_eq!(wire, expected.into_bytes());
    // Each later response begins exactly where the previous one ended.
    assert_eq!(wire_after[0] * 2, wire_after[1]);
    assert_eq!(wire_after[0] * 3, wire_after[2]);
}

#[test]
fn service_drops_body_early() {
    let mut d = disp();
    d.feed_read(b"POST /big HTTP/1.1\r\nHost: x\r\ncontent-length: 10485760\r\n\r\n");
    let (_head, handle, mut chan) = d.decode_head().unwrap().unwrap();
    let mut h = handle.unwrap();
    let first_kb = vec![7u8; 1024];
    d.feed_read(&first_kb);
    let st = h.decode(&mut d.read_buf, &mut chan).unwrap();
    assert!(matches!(st, DecodeState::Continue));
    match chan.poll_next() {
        BodyPoll::Chunk(b) => assert_eq!(b.len(), 1024),
        _ => panic!("expected the first kilobyte"),
    }
    // The service answers without reading the rest.
    let parts = ResponseParts { status: 200, version: Version::Http11, headers: vec![] };
    let mut enc = d.encode_head(parts, ResponseBodySize::Sized(2)).unwrap();
    enc.encode(Bytes::copy_from_slice(b"ok"), &mut d.write_buf);
    d.end_response(&mut enc, chan.is_eof());
    assert!(d.ctx.is_force_close());
    let wire = d.write_buf.pending().to_vec();
    assert!(wire.ends_with(b"\r\nok"));
    assert!(matches!(d.poll_idle(), IdleAction::Shutdown));
}

#[test]
fn connection_lifecycle_and_timer() {
    // HTTP/1.0 closes by default; `connection: keep-alive` keeps it open.
    let mut d = disp();
    d.feed_read(b"GET / HTTP/1.0\r\n\r\n");
    let _ = d.decode_head().unwrap().unwrap();
    assert_eq!(d.ctx.ctype(), ConnectionType::Close);
    assert!(matches!(d.poll_idle(), IdleAction::Shutdown));

    let mut d = disp();
    d.feed_read(b"GET / HTTP/1.0\r\nConnection: Keep-Alive\r\n\r\n");
    let _ = d.decode_head().unwrap().unwrap();
    assert_eq!(d.ctx.ctype(), ConnectionType::KeepAlive);

    let mut d = disp();
    d.feed_read(b"GET / HTTP/1.1\r\nconnection: close\r\n\r\n");
    let _ = d.decode_head().unwrap().unwrap();
    assert_eq!(d.ctx.ctype(), ConnectionType::Close);

    // Timer arithmetic and timeout decisions.
    let mut d = disp();
    d.update_timer(1_000);
    assert_eq!(d.deadline, 76_000);
    assert!(matches!(d.timeout_action(), IdleAction::Exit));
    d.feed_read(b"GET / HTTP/1.1\r\nHost: x\r\n\r\n");
    let _ = d.decode_head().unwrap().unwrap();
    assert!(matches!(d.timeout_action(), IdleAction::Shutdown));
}

#[test]
fn bad_request_line_gets_400() {
    let mut d = disp();
    d.feed_read(b"GET /\r\nHost: x\r\n\r\n");
    match d.decode_head() {
        Err(ProtoError::Parse(Parse::RequestLine)) => {},
        _ => panic!("expected a request-line error"),
    }
    d.request_error(400);
    assert!(d.ctx.is_force_close());
    let wire = d.write_buf.pending().to_vec();
    assert!(wire.starts_with(b"HTTP/1.1 400 Bad Request\r\n"));

    let mut d = disp();
    d.feed_read(b"GET / HTTP/2.0\r\nHost: x\r\n\r\n");
    assert!(matches!(d.decode_head(), Err(ProtoError::Parse(Parse::RequestLine))));

    let mut d = disp();
    d.feed_read(b"GET / HTTP/1.1\r\ncontent-length: zzz\r\n\r\n");
    assert!(matches!(d.decode_head(), Err(ProtoError::Parse(Parse::HeaderValue))));
}

#[test]
fn upgrade_with_101_hands_off() {
    let mut d = disp();
    d.feed_read(b"GET /ws HTTP/1.1\r\nHost: x\r\nConnection: upgrade\r\nUpgrade: websocket\r\n\r\n");
    let _ = d.decode_head().unwrap().unwrap();
    assert_eq!(d.ctx.ctype(), ConnectionType::Upgrade);
    let parts = ResponseParts {
        status: 101,
        version: Version::Http11,
        headers: vec![HeaderPair { name: b"connection".to_vec(), value: b"upgrade".to_vec() }],
    };
    let mut enc = d.encode_head(parts, ResponseBodySize::Empty).unwrap();
    // On an upgraded connection body bytes pass through unframed.
    enc.encode(Bytes::copy_from_slice(b"raw"), &mut d.write_buf);
    let wire = d.write_buf.pending().to_vec();
    assert!(wire.starts_with(b"HTTP/1.1 101 Switching Protocols\r\n"));
    assert!(wire.ends_with(b"\r\n\r\nraw"));
    assert_eq!(d.ctx.ctype(), ConnectionType::Upgrade);
    assert!(matches!(d.poll_idle(), IdleAction::Shutdown));
}

#[test]
fn informational_response_refused() {
    let mut d = disp();
    d.feed_read(b"GET / HTTP/1.1\r\nHost: x\r\n\r\n");
    let _ = d.decode_head().unwrap().unwrap();
    let parts = ResponseParts { status: 100, version: Version::Http11, headers: vec![] };
    match d.encode_head(parts, ResponseBodySize::Empty) {
        Err(ProtoError::Parse(Parse::StatusCode)) => {},
        other => panic!("expected the 1xx refusal, got {:?}", other.map(|_| ())),
    }
    // Nothing may have reached the wire from the failed head.
    assert_eq!(d.write_buf.pending(), b"");
}

#[test]
fn connect_2xx_forbids_framing_headers() {
    let mut d = disp();
    d.feed_read(b"CONNECT example:443 HTTP/1.1\r\nHost: example\r\n\r\n");
    let _ = d.decode_head().unwrap().unwrap();
    assert!(d.ctx.is_connect_method());
    let parts = ResponseParts {
        status: 200,
        version: Version::Http11,
        headers: vec![HeaderPair { name: b"content-length".to_vec(), value: b"7".to_vec() }],
    };
    let mut enc = d.encode_head(parts, ResponseBodySize::Empty).unwrap();
    let wire = d.write_buf.pending().to_vec();
    assert!(!contains(&wire, b"content-length"));
    // The encoder stays at end-of-frame: nothing else is emitted.
    d.end_response(&mut enc, true);
    assert_eq!(d.write_buf.pending().to_vec(), wire);
}

#[test]
fn backpressure_pauses_reading() {
    let mut d = Dispatcher::new(64, 8, 4096, 75_000, 0, DATE.to_vec());
    assert!(!d.feed_read(b"GET"));
    assert!(d.feed_read(b" / HTTP"));
    // One read can run past the limit by at most its own length.
    assert!(d.read_buf.len() <= 8 + b" / HTTP".len());
}
