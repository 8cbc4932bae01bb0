use mining_proxy::framing::LineBuffer;
use mining_proxy::hexcodec::{byte_swapped_hex, encode_hex, reverse_hash, reverse_string};

#[test]
fn encode_hex_two_digits_per_byte() {
    assert_eq!(encode_hex(&[0xde, 0xad, 0xbe, 0xef]), "deadbeef");
    assert_eq!(encode_hex(&[0x00, 0x0f, 0xa0]), "000fa0");
    assert_eq!(encode_hex(&[]), "");
}

#[test]
fn reverse_hash_reverses_digit_pairs() {
    assert_eq!(reverse_hash("00ff10"), "10ff00");
    assert_eq!(reverse_hash("ABCD"), "cdab");
    assert_eq!(reverse_hash(""), "");
    assert_eq!(reverse_hash("abc"), "0cab");
    assert_eq!(reverse_hash("f"), "0f");
}

#[test]
fn reverse_string_reverses_characters() {
    assert_eq!(reverse_string("abc"), "cba");
    assert_eq!(reverse_string(""), "");
    assert_eq!(reverse_string("00ff"), "ff00");
}

#[test]
fn nonce_is_byte_swapped_not_string_reversed() {
    assert_eq!(byte_swapped_hex(b"deadbeef"), Some(b"efbeadde".to_vec()));
    assert_ne!(byte_swapped_hex(b"deadbeef"), Some(b"feebdaed".to_vec()));
    assert_eq!(byte_swapped_hex(b"DEADBEEF"), Some(b"efbeadde".to_vec()));
    assert_eq!(byte_swapped_hex(b"abc"), None);
    assert_eq!(byte_swapped_hex(b"zz"), None);
    assert_eq!(byte_swapped_hex(b""), Some(Vec::new()));
}

fn relay(chunks: &[&[u8]]) -> (Vec<u8>, usize) {
    let mut buf = LineBuffer::new();
    let mut out = Vec::new();
    for c in chunks {
        for line in buf.push_chunk(c) {
            assert_eq!(line.last(), Some(&b'\n'));
            assert!(!line[..line.len() - 1].contains(&b'\n'));
            out.extend_from_slice(&line);
        }
    }
    (out, buf.pending_len())
}

fn relay_to_end(chunks: &[&[u8]]) -> Vec<u8> {
    let mut buf = LineBuffer::new();
    let mut out = Vec::new();
    for c in chunks {
        for line in buf.push_chunk(c) {
            out.extend_from_slice(&line);
        }
    }
    out.extend_from_slice(&buf.finish());
    assert_eq!(buf.pending_len(), 0);
    out
}

#[test]
fn whole_stream_is_forwarded_at_end() {
    let data: &[u8] = b"{\"id\":1}\npartial without newline";
    for cut in 0..=data.len() {
        assert_eq!(relay_to_end(&[&data[..cut], &data[cut..]]), data.to_vec());
    }
    assert_eq!(relay_to_end(&[]), Vec::<u8>::new());
    assert_eq!(relay_to_end(&[b"no newline at all"]), b"no newline at all".to_vec());
}

#[test]
fn partial_line_waits_for_its_newline() {
    let mut buf = LineBuffer::new();
    assert!(buf.push_chunk(b"{\"id\":1").is_empty());
    assert_eq!(buf.pending_len(), 7);
    let lines = buf.push_chunk(b"}\n{\"id\"");
    assert_eq!(lines, vec![b"{\"id\":1}\n".to_vec()]);
    assert_eq!(buf.pending_len(), 5);
}

#[test]
fn several_lines_in_one_read() {
    let mut buf = LineBuffer::new();
    let lines = buf.push_chunk(b"a\nbb\n\nccc");
    assert_eq!(lines, vec![b"a\n".to_vec(), b"bb\n".to_vec(), b"\n".to_vec()]);
    assert_eq!(buf.pending_len(), 3);
}

#[test]
fn relay_output_is_independent_of_read_splits() {
    let data: &[u8] = b"{\"id\":1,\"method\":\"mining.subscribe\"}\nnot json\n{\"id\":2}\n";
    let whole = relay(&[data]);
    assert_eq!(whole, (data.to_vec(), 0));
    for cut in 0..data.len() {
        assert_eq!(relay(&[&data[..cut], &data[cut..]]), (data.to_vec(), 0));
    }
    let bytes: Vec<&[u8]> = data.chunks(1).collect();
    assert_eq!(relay(&bytes), (data.to_vec(), 0));
    let partial = relay(&[b"ab\nc", b"d"]);
    assert_eq!(partial, (b"ab\n".to_vec(), 2));
}
