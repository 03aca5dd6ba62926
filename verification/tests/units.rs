//! Unit tests for the codec pieces, the number parsers, the body channel
//! and the service shells.

use bytes::Bytes;
use bytes::BytesMut;
use h1_dispatch::body::RequestBody as UnifiedBody;
use h1_dispatch::body::ResponseBody;
use h1_dispatch::body::ResponseBodySize;
use h1_dispatch::config::HttpServiceConfig;
use h1_dispatch::h1::body::BodyError;
use h1_dispatch::h1::body::BodyPoll;
use h1_dispatch::h1::body::RequestBody;
use h1_dispatch::h1::proto::buf::FlatWriteBuf;
use h1_dispatch::h1::proto::buf::ListWriteBuf;
use h1_dispatch::h1::proto::buf::use_vectored_writes;
use h1_dispatch::h1::proto::context::ConnectionType;
use h1_dispatch::h1::proto::decode::TransferDecoding;
use h1_dispatch::h1::proto::dispatcher::Dispatcher;
use h1_dispatch::h1::proto::encode::TransferEncoding;
use h1_dispatch::h1::proto::error::Parse;
use h1_dispatch::h1::proto::error::ProtoError;
use h1_dispatch::h2::builder::H2ServiceBuilder;
use h1_dispatch::num::format_u64;
use h1_dispatch::num::parse_dec_u64;
use h1_dispatch::num::parse_hex_u64;
use h1_dispatch::scan::find_byte_exec;
use h1_dispatch::scan::find_crlf_exec;
use h1_dispatch::scan::find_crlfcrlf_exec;
use h1_dispatch::scan::slice_eq;
use h1_dispatch::scan::trim_ws_exec;
use h1_dispatch::service::H1UringService;
use h1_dispatch::service::NotFoundService;

#[test]
fn decimal_text() {
    assert_eq!(format_u64(0), b"0".to_vec());
    assert_eq!(format_u64(1234), b"1234".to_vec());
    assert_eq!(format_u64(u64::MAX), b"18446744073709551615".to_vec());
    assert_eq!(parse_dec_u64(b"0"), Some(0));
    assert_eq!(parse_dec_u64(b"10485760"), Some(10_485_760));
    assert_eq!(parse_dec_u64(b"18446744073709551615"), Some(u64::MAX));
    assert_eq!(parse_dec_u64(b"18446744073709551616"), None);
    assert_eq!(parse_dec_u64(b""), None);
    assert_eq!(parse_dec_u64(b"+5"), None);
    assert_eq!(parse_dec_u64(b"5x"), None);
}

#[test]
fn hex_text() {
    assert_eq!(parse_hex_u64(b"5", u64::MAX), Some(5));
    assert_eq!(parse_hex_u64(b"ff", u64::MAX), Some(255));
    assert_eq!(parse_hex_u64(b"FF", u64::MAX), Some(255));
    assert_eq!(parse_hex_u64(b"g", u64::MAX), None);
    assert_eq!(parse_hex_u64(b"", u64::MAX), None);
    assert_eq!(parse_hex_u64(b"10", 15), None);
}

#[test]
fn length_decoder_streams_and_ends() {
    let mut dec = TransferDecoding::length(10);
    let mut buf = BytesMut::new();
    buf.extend_from_slice(b"hell");
    let got = dec.decode(&mut buf).unwrap().unwrap();
    assert_eq!(&got[..], b"hell");
    assert!(dec.decode(&mut buf).unwrap().is_none());
    buf.extend_from_slice(b"o worlds");
    let got = dec.decode(&mut buf).unwrap().unwrap();
    assert_eq!(&got[..], b"o worl");
    let eof = dec.decode(&mut buf).unwrap().unwrap();
    assert!(eof.is_empty());
    assert!(dec.is_eof());
    // Bytes past the body stay in the buffer for the next head.
    assert_eq!(&buf[..], b"ds");
}

#[test]
fn chunked_decoder_handles_splits_extensions_and_trailers() {
    let mut dec = TransferDecoding::chunked();
    let mut buf = BytesMut::new();
    buf.extend_from_slice(b"5;note=1\r\nhel");
    let got = dec.decode(&mut buf).unwrap().unwrap();
    assert_eq!(&got[..], b"hel");
    assert!(dec.decode(&mut buf).unwrap().is_none());
    buf.extend_from_slice(b"lo\r\n3\r\nxyz\r\n0\r\ntrailer: ignored\r\n\r\nNEXT");
    let got = dec.decode(&mut buf).unwrap().unwrap();
    assert_eq!(&got[..], b"lo");
    let got = dec.decode(&mut buf).unwrap().unwrap();
    assert_eq!(&got[..], b"xyz");
    let eof = dec.decode(&mut buf).unwrap().unwrap();
    assert!(eof.is_empty());
    assert!(dec.is_eof());
    assert_eq!(&buf[..], b"NEXT");
}

#[test]
fn chunked_decoder_rejects_bad_sizes() {
    let mut dec = TransferDecoding::chunked();
    let mut buf = BytesMut::new();
    buf.extend_from_slice(b"zz\r\n");
    assert_eq!(dec.decode(&mut buf), Err(ProtoError::Parse(Parse::ChunkSize)));

    // A chunk past 2^63 - 1 is refused.
    let mut dec = TransferDecoding::chunked();
    let mut buf = BytesMut::new();
    buf.extend_from_slice(b"8000000000000000\r\n");
    assert_eq!(dec.decode(&mut buf), Err(ProtoError::Parse(Parse::ChunkSize)));

    let mut dec = TransferDecoding::chunked();
    let mut buf = BytesMut::new();
    buf.extend_from_slice(b"7fffffffffffffff\r\n");
    assert!(dec.decode(&mut buf).unwrap().is_none());
}

#[test]
fn chunked_decoder_rejects_bad_data_crlf() {
    let mut dec = TransferDecoding::chunked();
    let mut buf = BytesMut::new();
    buf.extend_from_slice(b"2\r\nab");
    let got = dec.decode(&mut buf).unwrap().unwrap();
    assert_eq!(&got[..], b"ab");
    buf.extend_from_slice(b"XX0\r\n\r\n");
    assert_eq!(dec.decode(&mut buf), Err(ProtoError::Parse(Parse::ChunkSize)));
}

#[test]
fn encoder_framing_matches_kind() {
    // Length framing truncates past the declared size.
    let mut buf = FlatWriteBuf::new(4096);
    let mut enc = TransferEncoding::length(4);
    enc.encode(Bytes::copy_from_slice(b"abcdef"), &mut buf);
    enc.encode_eof(&mut buf);
    assert_eq!(buf.pending(), b"abcd");

    // Chunked framing wraps each piece and writes the terminator.
    let mut buf = FlatWriteBuf::new(4096);
    let mut enc = TransferEncoding::chunked();
    enc.encode(Bytes::copy_from_slice(b"hello world, hi!!"), &mut buf);
    enc.encode(Bytes::new(), &mut buf);
    enc.encode_eof(&mut buf);
    assert_eq!(buf.pending(), b"11\r\nhello world, hi!!\r\n0\r\n\r\n");

    // Unframed passthrough writes bytes alone and no terminator.
    let mut buf = FlatWriteBuf::new(4096);
    let mut enc = TransferEncoding::chunked_from(ConnectionType::Upgrade);
    enc.encode(Bytes::copy_from_slice(b"raw"), &mut buf);
    enc.encode_eof(&mut buf);
    assert_eq!(buf.pending(), b"raw");

    // No body at all: nothing is framed.
    let mut buf = FlatWriteBuf::new(4096);
    let mut enc = TransferEncoding::eof();
    enc.encode_eof(&mut buf);
    assert_eq!(buf.pending(), b"");
}

#[test]
fn body_channel_is_fifo_and_fails_after_drop() {
    let mut chan = RequestBody::create(false);
    chan.feed_data(Bytes::copy_from_slice(b"one")).unwrap();
    chan.feed_data(Bytes::copy_from_slice(b"two")).unwrap();
    assert!(!chan.ready());
    match chan.poll_next() {
        BodyPoll::Chunk(b) => assert_eq!(&b[..], b"one"),
        _ => panic!("expected the first chunk first"),
    }
    match chan.poll_next() {
        BodyPoll::Chunk(b) => assert_eq!(&b[..], b"two"),
        _ => panic!("expected the second chunk next"),
    }
    assert!(chan.ready());
    assert!(matches!(chan.poll_next(), BodyPoll::Pending));
    chan.feed_error(BodyError::Io).unwrap();
    assert!(matches!(chan.poll_next(), BodyPoll::Failed(BodyError::Io)));
    chan.feed_eof().unwrap();
    assert!(matches!(chan.poll_next(), BodyPoll::End));

    let mut chan = RequestBody::create(false);
    chan.drop_consumer();
    assert_eq!(chan.feed_data(Bytes::copy_from_slice(b"x")), Err(BodyError::Closed));
    assert_eq!(chan.feed_eof(), Err(BodyError::Closed));
}

#[test]
fn response_body_variants() {
    let empty: ResponseBody<()> = ResponseBody::Empty;
    assert!(empty.is_eof());
    assert_eq!(empty.size(), ResponseBodySize::Empty);

    let mut one: ResponseBody<()> = ResponseBody::buffer(Bytes::copy_from_slice(b"hello"));
    assert!(!one.is_eof());
    assert_eq!(one.size(), ResponseBodySize::Sized(5));
    assert_eq!(&one.next_chunk().unwrap()[..], b"hello");
    assert!(one.next_chunk().is_none());

    let mut split: ResponseBody<()> =
        ResponseBody::buffer_with_chunk_size(Bytes::copy_from_slice(b"hello"), 2);
    assert_eq!(&split.next_chunk().unwrap()[..], b"he");
    assert_eq!(&split.next_chunk().unwrap()[..], b"ll");
    assert_eq!(&split.next_chunk().unwrap()[..], b"o");
    assert!(split.next_chunk().is_none());

    let stream: ResponseBody<u8> = ResponseBody::stream(9);
    assert!(!stream.is_eof());
    assert_eq!(stream.size(), ResponseBodySize::Stream);

    assert!(matches!(UnifiedBody::default(), UnifiedBody::Empty));
}

#[test]
fn empty_content_length_request_has_no_handle() {
    let mut d = Dispatcher::new(64, 4096, 4096, 75_000, 0, b"D".to_vec());
    d.feed_read(b"POST / HTTP/1.1\r\ncontent-length: 0\r\n\r\n");
    let (_head, handle, chan) = d.decode_head().unwrap().unwrap();
    assert!(handle.is_none());
    assert!(chan.is_eof());
}

#[test]
fn header_line_without_colon_is_refused() {
    let mut d = Dispatcher::new(64, 4096, 4096, 75_000, 0, b"D".to_vec());
    d.feed_read(b"GET / HTTP/1.1\r\nnocolonhere\r\n\r\n");
    assert!(matches!(d.decode_head(), Err(ProtoError::Parse(Parse::HeaderName))));
}

#[test]
fn header_values_are_trimmed_and_names_lowercased() {
    let mut d = Dispatcher::new(64, 4096, 4096, 75_000, 0, b"D".to_vec());
    d.feed_read(b"GET / HTTP/1.1\r\nHoSt:   x.example  \r\n\r\n");
    let (head, _handle, _chan) = d.decode_head().unwrap().unwrap();
    assert_eq!(head.headers.len(), 1);
    assert_eq!(head.headers[0].name, b"host".to_vec());
    assert_eq!(head.headers[0].value, b"x.example".to_vec());
}

#[test]
fn service_shells() {
    let nf = NotFoundService;
    let (parts, size) = nf.call();
    assert_eq!(parts.status, 404);
    assert_eq!(size, ResponseBodySize::Empty);

    let cfg = HttpServiceConfig::new(96, 8192, 8192);
    let svc = H1UringService::new(cfg, 11u32, 0u8);
    assert_eq!(svc.config.header_limit, 96);
    assert_eq!(svc.service, 11);

    let b: H2ServiceBuilder<(), _, _> = H2ServiceBuilder::new(5u32);
    assert_eq!(b.factory, 5);
    let b2 = b.openssl(7u16);
    assert_eq!(b2.factory, 5);
    assert_eq!(b2.tls_factory, 7);
}

#[test]
fn scan_helpers() {
    assert_eq!(find_byte_exec(b"abc", b'b'), Some(1));
    assert_eq!(find_byte_exec(b"abc", b'z'), None);
    assert_eq!(find_crlf_exec(b"ab\r\ncd\r\n"), Some(2));
    assert_eq!(find_crlf_exec(b"ab\rcd"), None);
    assert_eq!(find_crlfcrlf_exec(b"a\r\n\r\nb"), Some(1));
    assert_eq!(find_crlfcrlf_exec(b"a\r\nb\r\n"), None);
    assert!(slice_eq(b"same", b"same"));
    assert!(!slice_eq(b"same", b"sane"));
    assert_eq!(trim_ws_exec(b"  a b\t "), b"a b".to_vec());
    assert_eq!(trim_ws_exec(b" \t "), Vec::<u8>::new());
}

#[test]
fn connection_token_list_is_folded_in_order() {
    let mut d = Dispatcher::new(64, 4096, 4096, 75_000, 0, b"D".to_vec());
    d.feed_read(b"GET / HTTP/1.1\r\nConnection: foo , Keep-Alive, CLOSE\r\n\r\n");
    let _ = d.decode_head().unwrap().unwrap();
    assert_eq!(d.ctx.ctype(), ConnectionType::Close);
}

#[test]
fn reason_phrases_in_canned_heads() {
    let mut d = Dispatcher::new(64, 4096, 4096, 75_000, 0, b"D".to_vec());
    d.request_error(503);
    assert!(d.write_buf.pending().starts_with(b"HTTP/1.1 503 Service Unavailable\r\n"));

    let mut d = Dispatcher::new(64, 4096, 4096, 75_000, 0, b"D".to_vec());
    d.request_error(299);
    assert!(d.write_buf.pending().starts_with(b"HTTP/1.1 299 <none>\r\n"));
}

#[test]
fn spent_length_encoder_emits_nothing() {
    let mut buf = FlatWriteBuf::new(4096);
    let mut enc = TransferEncoding::length(0);
    enc.encode(Bytes::copy_from_slice(b"extra"), &mut buf);
    enc.encode_eof(&mut buf);
    assert_eq!(buf.pending(), b"");
}

#[test]
fn error_status_mapping() {
    assert_eq!(ProtoError::Parse(Parse::HeaderTooLarge).status(), 431);
    assert_eq!(ProtoError::Parse(Parse::RequestLine).status(), 400);
    assert_eq!(ProtoError::Parse(Parse::ChunkSize).status(), 400);
}

#[test]
fn list_write_buffer_segments_and_consume() {
    let mut buf = ListWriteBuf::new(4096);
    assert!(buf.empty());
    buf.write_head(b"HTTP/1.1 200 OK\r\n\r\n");
    buf.write_buf(Bytes::copy_from_slice(b"hello"));
    buf.write_chunk(Bytes::copy_from_slice(b"world"));
    assert_eq!(buf.len(), 19 + 5 + 10);
    // The body chunk is its own segment, passed through uncopied.
    assert_eq!(&buf.segments[1][..], b"hello");
    assert_eq!(&buf.segments[3][..], b"world");
    // A partial vectored write releases whole segments and splits one.
    buf.consume(21);
    assert_eq!(buf.len(), 13);
    assert_eq!(&buf.segments[0][..], b"llo");
    buf.consume(13);
    assert!(buf.empty());

    let mut buf = ListWriteBuf::new(2);
    assert!(!buf.backpressure());
    buf.write_static(b"abc");
    assert!(buf.backpressure());
}

#[test]
fn buffer_mode_choice() {
    assert!(use_vectored_writes(false, true));
    assert!(!use_vectored_writes(true, true));
    assert!(!use_vectored_writes(false, false));
}
