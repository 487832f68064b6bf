use maelstrom_worker::wire::{read_frame, read_varint, write_frame, write_varint};

fn varint(n: u64) -> Vec<u8> {
    let mut out = vec![];
    write_varint(&mut out, n);
    out
}

#[test]
fn varint_encodings() {
    assert_eq!(varint(0), vec![0]);
    assert_eq!(varint(1), vec![1]);
    assert_eq!(varint(127), vec![127]);
    assert_eq!(varint(128), vec![128, 1]);
    assert_eq!(varint(300), vec![172, 2]);
    assert_eq!(varint(16383), vec![255, 127]);
    assert_eq!(varint(16384), vec![128, 128, 1]);
    assert_eq!(varint(u64::MAX), vec![255, 255, 255, 255, 255, 255, 255, 255, 255, 1]);
    let mut out = vec![9];
    write_varint(&mut out, 128);
    assert_eq!(out, vec![9, 128, 1]);
}

#[test]
fn varint_round_trip() {
    for n in [0u64, 1, 127, 128, 255, 256, 16383, 16384, 1 << 32, (1 << 63) - 1, 1 << 63, u64::MAX] {
        let mut bytes = vec![7, 7];
        write_varint(&mut bytes, n);
        let end = bytes.len();
        bytes.extend_from_slice(&[200, 3]);
        assert_eq!(read_varint(&bytes, 2), Some((n, end)));
    }
}

#[test]
fn varint_rejects_what_is_not_canonical() {
    assert_eq!(read_varint(&[], 0), None);
    assert_eq!(read_varint(&[1], 1), None);
    assert_eq!(read_varint(&[1], 5), None);
    assert_eq!(read_varint(&[128], 0), None);
    assert_eq!(read_varint(&[255, 255], 0), None);
    assert_eq!(read_varint(&[128, 0], 0), None);
    assert_eq!(read_varint(&[129, 128, 0], 0), None);
    assert_eq!(read_varint(&[255, 255, 255, 255, 255, 255, 255, 255, 255, 2], 0), None);
    assert_eq!(read_varint(&[255, 255, 255, 255, 255, 255, 255, 255, 255, 129, 0], 0), None);
    assert_eq!(read_varint(&[128, 128, 128, 128, 128, 128, 128, 128, 128, 128, 1], 0), None);
    assert_eq!(read_varint(&[128, 1], 0), Some((128, 2)));
    assert_eq!(read_varint(&[0, 0], 0), Some((0, 1)));
    assert_eq!(
        read_varint(&[128, 128, 128, 128, 128, 128, 128, 128, 128, 1], 0),
        Some((1 << 63, 10))
    );
}

#[test]
fn frames_round_trip() {
    let mut stream = vec![];
    write_frame(&mut stream, b"hello");
    write_frame(&mut stream, b"");
    let big = vec![5u8; 300];
    write_frame(&mut stream, &big);
    assert_eq!(&stream[..7], &[5, b'h', b'e', b'l', b'l', b'o', 0]);
    assert_eq!(&stream[7..9], &[172, 2]);
    assert_eq!(read_frame(&stream, 0), Some((b"hello".to_vec(), 6)));
    assert_eq!(read_frame(&stream, 6), Some((vec![], 7)));
    assert_eq!(read_frame(&stream, 7), Some((big, stream.len())));
    assert_eq!(read_frame(&stream, stream.len()), None);
}

#[test]
fn incomplete_frames_are_not_read() {
    let mut stream = vec![];
    write_frame(&mut stream, &[1, 2, 3]);
    for cut in 0..stream.len() {
        assert_eq!(read_frame(&stream[..cut], 0), None);
    }
    assert_eq!(read_frame(&stream, 0), Some((vec![1, 2, 3], 4)));
    assert_eq!(read_frame(&[128, 0, 1], 0), None);
    assert_eq!(read_frame(&[255, 255, 255, 255, 255, 255, 255, 255, 255, 1], 0), None);
}
