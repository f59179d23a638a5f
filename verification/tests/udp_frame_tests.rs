use yamux_cli::udp_frame::{
    decode_len_header, encode_len_header, frame_datagram, DatagramReader, ReaderState,
    MAX_DATAGRAM_LEN, UDP_BUF_LEN, UDP_BYTES_LEN,
};

#[test]
fn header_is_big_endian() {
    assert_eq!(encode_len_header(0x0102_0304), [1, 2, 3, 4]);
    assert_eq!(encode_len_header(5), [0, 0, 0, 5]);
    assert_eq!(decode_len_header([0, 0, 1, 0]), 256);
    assert_eq!(decode_len_header([0xff, 0xff, 0xff, 0xff]), u32::MAX);
}

#[test]
fn header_agrees_with_std() {
    for n in [0u32, 1, 255, 256, 65532, 65536, 0xdead_beef, u32::MAX].iter() {
        assert_eq!(encode_len_header(*n), n.to_be_bytes());
        assert_eq!(decode_len_header(n.to_be_bytes()), *n);
    }
}

#[test]
fn frame_is_header_then_payload() {
    assert_eq!(frame_datagram(b"hello"), vec![0, 0, 0, 5, b'h', b'e', b'l', b'l', b'o']);
    assert_eq!(frame_datagram(b""), vec![0, 0, 0, 0]);
    let big = vec![7u8; MAX_DATAGRAM_LEN];
    let f = frame_datagram(&big);
    assert_eq!(&f[..UDP_BYTES_LEN], &[0, 0, 0xff, 0xfc]);
    assert_eq!(&f[UDP_BYTES_LEN..], &big[..]);
}

#[test]
fn reader_recovers_framed_datagrams() {
    let mut reader = DatagramReader::new();
    let mut stream = Vec::new();
    stream.extend(frame_datagram(b"first"));
    stream.extend(frame_datagram(b""));
    stream.extend(frame_datagram(&[1, 2, 3]));
    let mut pos = 0;
    let mut out = Vec::new();
    while pos < stream.len() {
        let n = reader.wanted().unwrap();
        if let Some(d) = reader.on_bytes(&stream[pos..pos + n]) {
            out.push(d);
        }
        pos += n;
    }
    assert_eq!(out, vec![b"first".to_vec(), vec![], vec![1, 2, 3]]);
    assert_eq!(reader.state(), ReaderState::AwaitingHeader);
}

#[test]
fn reader_asks_for_header_then_datagram() {
    let mut reader = DatagramReader::new();
    assert_eq!(reader.wanted(), Some(4));
    assert_eq!(reader.on_bytes(&[0, 0, 0, 3]), None);
    assert_eq!(reader.state(), ReaderState::AwaitingDatagram { len: 3 });
    assert_eq!(reader.wanted(), Some(3));
    assert_eq!(reader.on_bytes(&[9, 8, 7]), Some(vec![9, 8, 7]));
    assert_eq!(reader.wanted(), Some(4));
}

#[test]
fn reader_accepts_a_full_buffer() {
    let mut reader = DatagramReader::new();
    let h = encode_len_header(UDP_BUF_LEN as u32);
    assert_eq!(reader.on_bytes(&h), None);
    assert_eq!(reader.wanted(), Some(UDP_BUF_LEN));
}

#[test]
fn reader_stops_on_oversized_length() {
    let mut reader = DatagramReader::new();
    let h = encode_len_header(UDP_BUF_LEN as u32 + 1);
    assert_eq!(reader.on_bytes(&h), None);
    assert_eq!(reader.state(), ReaderState::Finished);
    assert_eq!(reader.wanted(), None);
}

#[test]
fn reader_stops_on_failure() {
    let mut reader = DatagramReader::new();
    reader.on_failure();
    assert_eq!(reader.wanted(), None);
}

#[test]
fn successive_frames_concatenate() {
    let datagrams: Vec<Vec<u8>> = vec![b"a".to_vec(), vec![], vec![0xff; 300]];
    let mut stream = Vec::new();
    for d in datagrams.iter() {
        stream.extend(frame_datagram(d));
    }
    let mut expected = Vec::new();
    for d in datagrams.iter() {
        expected.extend((d.len() as u32).to_be_bytes());
        expected.extend(d);
    }
    assert_eq!(stream, expected);
}
