use static_http::chunked::{chunked_body, encode_blocks, encode_chunk, encode_hex, BLOCK_SIZE};

/// Reads a chunked body back: the payloads of its frames, or `None` if it is malformed.
fn read_back(body: &[u8]) -> Option<Vec<Vec<u8>>> {
    let mut payloads = Vec::new();
    let mut at = 0;
    loop {
        let mut end = at;
        while end < body.len() && body[end].is_ascii_hexdigit() {
            end += 1;
        }
        if end == at {
            return None;
        }
        let digits = std::str::from_utf8(&body[at..end]).ok()?;
        let length = usize::from_str_radix(digits, 16).ok()?;
        if body.len() < end + 2 + length + 2 || &body[end..end + 2] != b"\r\n" {
            return None;
        }
        let start = end + 2;
        if &body[start + length..start + length + 2] != b"\r\n" {
            return None;
        }
        at = start + length + 2;
        if length == 0 {
            return if at == body.len() { Some(payloads) } else { None };
        }
        payloads.push(body[start..start + length].to_vec());
    }
}

fn sample(length: usize) -> Vec<u8> {
    (0..length).map(|i| (i * 31 % 251) as u8).collect()
}

#[test]
fn hex_of_small_numbers() {
    assert_eq!(encode_hex(0), b"0".to_vec());
    assert_eq!(encode_hex(9), b"9".to_vec());
    assert_eq!(encode_hex(10), b"a".to_vec());
    assert_eq!(encode_hex(15), b"f".to_vec());
    assert_eq!(encode_hex(16), b"10".to_vec());
}

#[test]
fn hex_of_block_sizes() {
    assert_eq!(encode_hex(904), b"388".to_vec());
    assert_eq!(encode_hex(4096), b"1000".to_vec());
    assert_eq!(encode_hex(48879), b"beef".to_vec());
}

#[test]
fn hex_matches_the_standard_formatting() {
    for n in [0usize, 1, 15, 16, 17, 255, 256, 4095, 4096, 65535, 1 << 20, usize::MAX] {
        assert_eq!(encode_hex(n), format!("{:x}", n).into_bytes());
    }
}

#[test]
fn hex_has_no_leading_zero() {
    for n in 1usize..5000 {
        assert_ne!(encode_hex(n)[0], b'0');
    }
}

#[test]
fn chunk_of_ten_bytes() {
    assert_eq!(encode_chunk(b"0123456789"), b"a\r\n0123456789\r\n".to_vec());
}

#[test]
fn chunk_of_nothing_is_the_terminator() {
    assert_eq!(encode_chunk(b""), b"0\r\n\r\n".to_vec());
}

#[test]
fn chunk_keeps_line_breaks_in_the_payload() {
    assert_eq!(encode_chunk(b"\r\n"), b"2\r\n\r\n\r\n".to_vec());
}

#[test]
fn blocks_of_nothing_are_nothing() {
    assert_eq!(encode_blocks(b""), Vec::<u8>::new());
}

#[test]
fn blocks_of_a_full_block() {
    let data = sample(BLOCK_SIZE);
    let mut expected = b"1000\r\n".to_vec();
    expected.extend_from_slice(&data);
    expected.extend_from_slice(b"\r\n");
    assert_eq!(encode_blocks(&data), expected);
}

#[test]
fn blocks_of_one_byte_more_than_a_block() {
    let data = sample(BLOCK_SIZE + 1);
    let mut expected = b"1000\r\n".to_vec();
    expected.extend_from_slice(&data[..BLOCK_SIZE]);
    expected.extend_from_slice(b"\r\n1\r\n");
    expected.extend_from_slice(&data[BLOCK_SIZE..]);
    expected.extend_from_slice(b"\r\n");
    assert_eq!(encode_blocks(&data), expected);
}

#[test]
fn body_of_an_empty_file() {
    assert_eq!(chunked_body(b""), b"0\r\n\r\n".to_vec());
}

#[test]
fn body_of_ten_bytes() {
    assert_eq!(chunked_body(b"<p>hi</p>\n"), b"a\r\n<p>hi</p>\n\r\n0\r\n\r\n".to_vec());
}

#[test]
fn body_of_five_thousand_bytes_has_two_chunks() {
    let data = sample(5000);
    let mut expected = b"1000\r\n".to_vec();
    expected.extend_from_slice(&data[..4096]);
    expected.extend_from_slice(b"\r\n388\r\n");
    expected.extend_from_slice(&data[4096..]);
    expected.extend_from_slice(b"\r\n0\r\n\r\n");
    assert_eq!(chunked_body(&data), expected);
}

#[test]
fn body_reads_back_as_the_data() {
    for length in [0usize, 1, 10, 4095, 4096, 4097, 5000, 8192, 12289] {
        let data = sample(length);
        let payloads = read_back(&chunked_body(&data)).expect("a well-formed body");
        assert!(payloads.iter().all(|p| !p.is_empty() && p.len() <= BLOCK_SIZE));
        assert_eq!(payloads.concat(), data);
        assert_eq!(payloads.len(), (length + BLOCK_SIZE - 1) / BLOCK_SIZE);
    }
}

#[test]
fn body_ends_with_exactly_one_terminator() {
    let body = chunked_body(&sample(5000));
    assert!(body.ends_with(b"\r\n0\r\n\r\n"));
    assert!(read_back(&body[..body.len() - 5]).is_none());
    let mut twice = body.clone();
    twice.extend_from_slice(b"0\r\n\r\n");
    assert!(read_back(&twice).is_none());
}
