use bytes::BytesMut;
use transfer_proxy_rs::network::{
    encode_frame, next_frame, read_string, read_ushort, read_varint, split_frames, varint_size,
    write_bytes, write_string, write_varint, DrainEnd, FrameStep,
};
use transfer_proxy_rs::test_borrow::read_str;

#[test]
fn test_varint_encode_decode() {
    let mut buf = BytesMut::new();
    let value = 12345;
    write_varint(value, &mut buf);

    let decode_buf = buf.clone();
    let (decoded, bytes_read) = read_varint(&decode_buf).unwrap();

    assert_eq!(decoded, value);
    assert_eq!(bytes_read, buf.len());
}

fn encoded(value: i32) -> Vec<u8> {
    let mut buf = BytesMut::new();
    write_varint(value, &mut buf);
    buf.to_vec()
}

#[test]
fn varint_known_encodings() {
    assert_eq!(encoded(0), vec![0x00]);
    assert_eq!(encoded(1), vec![0x01]);
    assert_eq!(encoded(127), vec![0x7f]);
    assert_eq!(encoded(128), vec![0x80, 0x01]);
    assert_eq!(encoded(300), vec![0xac, 0x02]);
    assert_eq!(encoded(25565), vec![0xdd, 0xc7, 0x01]);
    assert_eq!(encoded(2147483647), vec![0xff, 0xff, 0xff, 0xff, 0x07]);
    assert_eq!(encoded(-1), vec![0xff, 0xff, 0xff, 0xff, 0x0f]);
    assert_eq!(encoded(i32::MIN), vec![0x80, 0x80, 0x80, 0x80, 0x08]);
}

#[test]
fn varint_roundtrip_many_values() {
    for v in [0, 1, -1, 127, 128, 255, 16383, 16384, 2097151, 2097152, 268435455, 268435456, i32::MAX, i32::MIN, -300] {
        let mut bytes = encoded(v);
        let n = bytes.len();
        bytes.extend_from_slice(&[0xff, 0x01]);
        assert_eq!(read_varint(&bytes), Some((v, n)));
        assert_eq!(varint_size(v), n);
    }
}

#[test]
fn varint_size_values() {
    assert_eq!(varint_size(0), 1);
    assert_eq!(varint_size(127), 1);
    assert_eq!(varint_size(128), 2);
    assert_eq!(varint_size(16384), 3);
    assert_eq!(varint_size(-1), 5);
}

#[test]
fn read_varint_incomplete_and_too_long() {
    assert_eq!(read_varint(&[]), None);
    assert_eq!(read_varint(&[0x80]), None);
    assert_eq!(read_varint(&[0x80, 0x80, 0x80, 0x80, 0x80]), None);
    assert_eq!(read_varint(&[0x80, 0x80, 0x80, 0x80, 0x80, 0x01]), None);
    // Bits beyond 32 are dropped.
    assert_eq!(read_varint(&[0xff, 0xff, 0xff, 0xff, 0x7f]), Some((-1, 5)));
}

#[test]
fn strings_roundtrip() {
    let mut buf = BytesMut::new();
    write_string("héllo", &mut buf);
    assert_eq!(buf.to_vec(), vec![6, b'h', 0xc3, 0xa9, b'l', b'l', b'o']);
    let mut bytes = buf.to_vec();
    bytes.push(42);
    assert_eq!(read_string(&bytes), Some(("héllo", 7)));
}

#[test]
fn read_string_rejects_bad_input() {
    // Declared length longer than the buffer.
    assert_eq!(read_string(&[5, b'a', b'b']), None);
    // Invalid UTF-8.
    assert_eq!(read_string(&[2, 0xff, 0xfe]), None);
    // Negative length.
    assert_eq!(read_string(&[0xff, 0xff, 0xff, 0xff, 0x0f]), None);
    // Longer than 32767 bytes.
    let mut big = vec![0x80, 0x80, 0x02];
    big.extend(std::iter::repeat(b'a').take(32768));
    assert_eq!(read_string(&big), None);
    // Empty string.
    assert_eq!(read_string(&[0]), Some(("", 1)));
}

#[test]
fn write_bytes_prefixes_length() {
    let mut buf = BytesMut::new();
    write_bytes(&[1, 2, 3], &mut buf);
    assert_eq!(buf.to_vec(), vec![3, 1, 2, 3]);
}

#[test]
fn read_ushort_big_endian() {
    assert_eq!(read_ushort(&[0x63, 0xdd, 0x01]), Some((25565, 2)));
    assert_eq!(read_ushort(&[0x01]), None);
}

#[test]
fn read_str_borrows() {
    let payload = b"hello world".as_slice();
    assert_eq!(read_str(payload), "hello world");
}

#[test]
fn frames_roundtrip() {
    let frame = encode_frame(0x0B, &[1, 2, 3]);
    assert_eq!(frame.to_vec(), vec![4, 0x0B, 1, 2, 3]);
    let mut bytes = frame.to_vec();
    bytes.extend_from_slice(&[9, 9]);
    assert_eq!(next_frame(&bytes), FrameStep::Packet { consumed: 5, id: 0x0B, body_start: 2 });
}

#[test]
fn next_frame_cases() {
    assert_eq!(next_frame(&[]), FrameStep::Incomplete);
    assert_eq!(next_frame(&[3, 0, 1]), FrameStep::Incomplete);
    assert_eq!(next_frame(&[0xff, 0xff, 0xff, 0xff, 0x0f]), FrameStep::Malformed);
    assert_eq!(next_frame(&[0]), FrameStep::Unreadable { consumed: 1 });
    assert_eq!(next_frame(&[1, 0x80, 7]), FrameStep::Unreadable { consumed: 2 });
    let big_id = encode_frame(300, &[]);
    assert_eq!(big_id.to_vec(), vec![2, 0xac, 0x02]);
    assert_eq!(next_frame(&big_id), FrameStep::Packet { consumed: 3, id: 300, body_start: 3 });
}

/// The packets, as id and payload, that draining `buf` yields.
fn packets(buf: &[u8]) -> (Vec<(i32, Vec<u8>)>, usize, DrainEnd) {
    let (frames, consumed, end) = split_frames(buf);
    (frames.iter().map(|&(id, a, b)| (id, buf[a..b].to_vec())).collect(), consumed, end)
}

#[test]
fn split_frames_any_pieces() {
    let mut all = encode_frame(1, &[10, 11]).to_vec();
    all.extend_from_slice(&encode_frame(2, &[]).to_vec());
    all.extend_from_slice(&encode_frame(3, &[7; 5]).to_vec());
    let whole = packets(&all);
    assert_eq!(whole, (vec![(1, vec![10, 11]), (2, vec![]), (3, vec![7; 5])], all.len(), DrainEnd::Wait));
    for cut in 0..=all.len() {
        let first = packets(&all[..cut]);
        assert_eq!(first.2, DrainEnd::Wait);
        let mut rest = all[first.1..cut].to_vec();
        rest.extend_from_slice(&all[cut..]);
        let second = packets(&rest);
        let mut joined = first.0.clone();
        joined.extend(second.0);
        assert_eq!(joined, whole.0);
        assert_eq!(first.1 + second.1, all.len());
    }
}

#[test]
fn split_frames_stops_at_unreadable_and_malformed() {
    let mut buf = encode_frame(4, &[1]).to_vec();
    buf.extend_from_slice(&[1, 0x80]);
    buf.extend_from_slice(&encode_frame(5, &[]).to_vec());
    assert_eq!(packets(&buf), (vec![(4, vec![1])], 5, DrainEnd::Skipped));
    let mut bad = encode_frame(6, &[]).to_vec();
    bad.extend_from_slice(&[0xff, 0xff, 0xff, 0xff, 0x0f]);
    assert_eq!(packets(&bad), (vec![(6, vec![])], 2, DrainEnd::Malformed));
    assert_eq!(packets(&[3, 0]), (vec![], 0, DrainEnd::Wait));
}

#[test]
fn split_frames_over_three_reads() {
    let mut all = encode_frame(1, &[1, 2, 3, 4]).to_vec();
    all.extend_from_slice(&encode_frame(2, &[5]).to_vec());
    let whole = packets(&all).0;
    for a in 0..=all.len() {
        for b in a..=all.len() {
            let mut got = Vec::new();
            let mut left: Vec<u8> = Vec::new();
            for piece in [&all[..a], &all[a..b], &all[b..]] {
                left.extend_from_slice(piece);
                let (p, consumed, end) = packets(&left);
                assert_eq!(end, DrainEnd::Wait);
                got.extend(p);
                left = left[consumed..].to_vec();
            }
            assert_eq!(got, whole);
            assert!(left.is_empty());
        }
    }
}
