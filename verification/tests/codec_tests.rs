use minlambda::codec::{
    decode_chunked, encode_chunked, finish_chunks, hex_bytes, parse_chunk_size, read_fixed,
    write_chunk, Body, ReadStep,
};
use minlambda::HttpError;

#[test]
fn round_trip_empty_body() {
    let encoded = encode_chunked(b"", 8);
    assert_eq!(encoded, b"0\r\n\r\n");
    assert_eq!(decode_chunked(&encoded).unwrap(), b"");
}

#[test]
fn round_trip_one_byte() {
    let encoded = encode_chunked(b"x", 8);
    assert_eq!(encoded, b"1\r\nx\r\n0\r\n\r\n");
    assert_eq!(decode_chunked(&encoded).unwrap(), b"x");
}

#[test]
fn round_trip_exactly_one_buffer() {
    let body = b"12345678";
    let encoded = encode_chunked(body, 8);
    assert_eq!(encoded, b"8\r\n12345678\r\n0\r\n\r\n");
    assert_eq!(decode_chunked(&encoded).unwrap(), body);
}

#[test]
fn round_trip_many_buffers() {
    let body: Vec<u8> = (0u16..1000).map(|i| (i % 251) as u8).collect();
    let encoded = encode_chunked(&body, 7);
    assert_eq!(decode_chunked(&encoded).unwrap(), body);
}

#[test]
fn decode_hand_built_frames() {
    let input = b"3\r\nabc\r\n2\r\nde\r\n0\r\n\r\n";
    assert_eq!(decode_chunked(input).unwrap(), b"abcde");
}

#[test]
fn decode_ignores_chunk_extension_and_case() {
    let input = b"A;name=value\r\n0123456789\r\n0\r\n\r\n";
    assert_eq!(decode_chunked(input).unwrap(), b"0123456789");
}

#[test]
fn decode_chunked_example() {
    assert_eq!(decode_chunked(b"5\r\nhello\r\n0\r\n\r\n").unwrap(), b"hello");
}

#[test]
fn decode_bad_size_line_is_fatal() {
    assert_eq!(
        decode_chunked(b"zz\r\nhello\r\n0\r\n\r\n"),
        Err(HttpError::InvalidChunkLength)
    );
}

#[test]
fn decode_truncated_chunk() {
    assert_eq!(decode_chunked(b"5\r\nhe"), Err(HttpError::Truncated));
    assert_eq!(decode_chunked(b"5"), Err(HttpError::Truncated));
}

#[test]
fn fixed_length_body() {
    assert_eq!(read_fixed(b"hello", 5).unwrap(), b"hello");
    assert_eq!(read_fixed(b"hello world", 5).unwrap(), b"hello");
    assert_eq!(read_fixed(b"hel", 5), Err(HttpError::Truncated));
}

#[test]
fn parse_chunk_size_lines() {
    assert_eq!(parse_chunk_size(b"0\r\n"), Some(0));
    assert_eq!(parse_chunk_size(b"a\r\n"), Some(10));
    assert_eq!(parse_chunk_size(b"FF\r\n"), Some(255));
    assert_eq!(parse_chunk_size(b"  10  \r\n"), Some(16));
    assert_eq!(parse_chunk_size(b"5;ext=1\r\n"), Some(5));
    assert_eq!(parse_chunk_size(b"\r\n"), None);
    assert_eq!(parse_chunk_size(b"q5\r\n"), None);
    assert_eq!(parse_chunk_size(b"ffffffffffffffffffff\r\n"), None);
}

#[test]
fn hex_rendering() {
    assert_eq!(hex_bytes(0), b"0");
    assert_eq!(hex_bytes(10), b"a");
    assert_eq!(hex_bytes(255), b"ff");
    assert_eq!(hex_bytes(4096), b"1000");
}

#[test]
fn writer_frames_each_write() {
    assert_eq!(write_chunk(b"hello"), b"5\r\nhello\r\n");
    assert_eq!(write_chunk(&[0u8; 16]), [b"10\r\n".as_slice(), &[0u8; 16], b"\r\n"].concat());
    assert_eq!(write_chunk(b""), b"");
    assert_eq!(finish_chunks(), b"0\r\n\r\n");
}

#[test]
fn body_reader_walks_chunked_stream() {
    let wire = b"5\r\nhello\r\n0\r\n\r\n";
    let mut pos = 0usize;
    let mut out = Vec::new();
    let mut body = Body::new_chunked();
    loop {
        match body.next_step() {
            ReadStep::Eof => break,
            ReadStep::Line => {
                let lf = wire[pos..].iter().position(|&b| b == b'\n').unwrap();
                body.take_line(&wire[pos..pos + lf + 1]).unwrap();
                pos += lf + 1;
            }
            ReadStep::Data(max) => {
                let take = max.min(3);
                out.extend_from_slice(&wire[pos..pos + take]);
                let skip_crlf = body.take_data(take);
                pos += take;
                if skip_crlf {
                    pos += 2;
                }
            }
        }
    }
    assert_eq!(out, b"hello");
}

#[test]
fn body_reader_fixed_budget() {
    let mut body = Body::new_fixed(5);
    assert_eq!(body.next_step(), ReadStep::Data(5));
    assert!(!body.take_data(3));
    assert_eq!(body.next_step(), ReadStep::Data(2));
    assert!(!body.take_data(2));
    assert_eq!(body.next_step(), ReadStep::Eof);
}

#[test]
fn body_reader_rejects_bad_size_line() {
    let mut body = Body::new_chunked();
    assert_eq!(body.next_step(), ReadStep::Line);
    assert_eq!(body.take_line(b"xyzzy\r\n"), Err(HttpError::InvalidChunkLength));
}
