use plp::{ByteSource, Error, Progress, ReadTyMode, ReadTyState, SourceError};

fn source_of(bytes: &[u8]) -> ByteSource {
    let mut s = ByteSource::new();
    s.push_bytes(bytes);
    s
}

fn plp_prefix(size: u64) -> Vec<u8> {
    size.to_le_bytes().to_vec()
}

fn chunk(bytes: &[u8]) -> Vec<u8> {
    let mut v = (bytes.len() as u32).to_le_bytes().to_vec();
    v.extend_from_slice(bytes);
    v
}

fn plp_stream(size: u64, chunks: &[&[u8]]) -> Vec<u8> {
    let mut v = plp_prefix(size);
    for c in chunks {
        v.extend(chunk(c));
    }
    v.extend_from_slice(&[0, 0, 0, 0]);
    v
}

fn fixed_stream(bytes: &[u8]) -> Vec<u8> {
    let mut v = (bytes.len() as u16).to_le_bytes().to_vec();
    v.extend_from_slice(bytes);
    v
}

fn decode_all(mode: ReadTyMode, stream: &[u8]) -> (Result<Progress, Error>, usize) {
    let mut src = source_of(stream);
    let mut st = ReadTyState::new(mode);
    let r = st.read(&mut src);
    (r, src.remaining())
}

#[test]
fn auto_below_threshold_is_fixed_size() {
    assert_eq!(ReadTyMode::auto(0), ReadTyMode::FixedSize(0));
    assert_eq!(ReadTyMode::auto(1), ReadTyMode::FixedSize(1));
    assert_eq!(ReadTyMode::auto(0xfffe), ReadTyMode::FixedSize(0xfffe));
}

#[test]
fn auto_at_and_above_threshold_is_plp() {
    assert_eq!(ReadTyMode::auto(0xffff), ReadTyMode::Plp);
    assert_eq!(ReadTyMode::auto(0x10000), ReadTyMode::Plp);
    assert_eq!(ReadTyMode::auto(usize::MAX), ReadTyMode::Plp);
}

#[test]
fn new_state_keeps_mode_and_is_not_done() {
    let st = ReadTyState::new(ReadTyMode::FixedSize(7));
    assert_eq!(st.mode(), ReadTyMode::FixedSize(7));
    assert!(!st.is_done());
    let st = ReadTyState::new(ReadTyMode::Plp);
    assert_eq!(st.mode(), ReadTyMode::Plp);
}

#[test]
fn plp_null_prefix_yields_null_and_reads_no_body() {
    let mut stream = vec![0xff; 8];
    stream.extend_from_slice(&[0, 0, 0, 0, 9, 9]);
    let mut src = source_of(&stream);
    let mut st = ReadTyState::new(ReadTyMode::Plp);
    assert_eq!(st.read(&mut src), Ok(Progress::Ready(None)));
    assert_eq!(src.remaining(), 6);
    assert!(st.is_done());
}

#[test]
fn plp_unknown_length_two_chunks() {
    let stream = plp_stream(0xffff_ffff_ffff_fffe, &[&[1, 2, 3], &[4, 5]]);
    let (r, left) = decode_all(ReadTyMode::Plp, &stream);
    assert_eq!(r, Ok(Progress::Ready(Some(vec![1, 2, 3, 4, 5]))));
    assert_eq!(left, 0);
}

#[test]
fn plp_known_length_hint() {
    let stream = plp_stream(5, &[&[10, 20], &[30, 40, 50]]);
    let (r, _) = decode_all(ReadTyMode::Plp, &stream);
    assert_eq!(r, Ok(Progress::Ready(Some(vec![10, 20, 30, 40, 50]))));
}

#[test]
fn plp_length_hint_is_not_enforced() {
    let stream = plp_stream(100, &[&[7, 8]]);
    let (r, _) = decode_all(ReadTyMode::Plp, &stream);
    assert_eq!(r, Ok(Progress::Ready(Some(vec![7, 8]))));
}

#[test]
fn plp_empty_value() {
    let stream = plp_stream(0, &[]);
    let (r, left) = decode_all(ReadTyMode::Plp, &stream);
    assert_eq!(r, Ok(Progress::Ready(Some(vec![]))));
    assert_eq!(left, 0);
}

#[test]
fn fixed_size_zero_bytes() {
    let mut stream = fixed_stream(&[]);
    stream.extend_from_slice(&[0xaa, 0xbb]);
    let (r, left) = decode_all(ReadTyMode::FixedSize(0), &stream);
    assert_eq!(r, Ok(Progress::Ready(Some(vec![]))));
    assert_eq!(left, 2);
}

#[test]
fn fixed_size_one_byte() {
    let mut stream = fixed_stream(&[0x42]);
    stream.extend_from_slice(&[0, 0, 0, 0]);
    let (r, left) = decode_all(ReadTyMode::FixedSize(1), &stream);
    assert_eq!(r, Ok(Progress::Ready(Some(vec![0x42]))));
    assert_eq!(left, 4);
}

#[test]
fn fixed_size_largest() {
    let body: Vec<u8> = (0..65534u32).map(|i| (i % 251) as u8).collect();
    let mut stream = fixed_stream(&body);
    stream.push(0x01);
    let (r, left) = decode_all(ReadTyMode::FixedSize(65534), &stream);
    assert_eq!(r, Ok(Progress::Ready(Some(body))));
    assert_eq!(left, 1);
}

#[test]
fn fixed_size_has_no_chunk_framing() {
    // Bytes that would read as a chunk length are taken as payload.
    let stream = fixed_stream(&[3, 0, 0, 0]);
    let (r, _) = decode_all(ReadTyMode::FixedSize(4), &stream);
    assert_eq!(r, Ok(Progress::Ready(Some(vec![3, 0, 0, 0]))));
}

#[test]
fn suspends_mid_chunk_and_resumes() {
    let stream = plp_stream(0xffff_ffff_ffff_fffe, &[&[1, 2, 3], &[4, 5]]);
    let mut src = source_of(&stream[..14]);
    let mut st = ReadTyState::new(ReadTyMode::Plp);
    assert_eq!(st.read(&mut src), Ok(Progress::Suspended));
    assert_eq!(src.remaining(), 0);
    assert!(!st.is_done());
    src.push_bytes(&stream[14..]);
    assert_eq!(st.read(&mut src), Ok(Progress::Ready(Some(vec![1, 2, 3, 4, 5]))));
    assert_eq!(src.remaining(), 0);
}

#[test]
fn suspends_inside_a_prefix_without_consuming_it() {
    let stream = plp_stream(3, &[&[9, 8, 7]]);
    let mut src = source_of(&stream[..5]);
    let mut st = ReadTyState::new(ReadTyMode::Plp);
    assert_eq!(st.read(&mut src), Ok(Progress::Suspended));
    assert_eq!(src.remaining(), 5);
    src.push_bytes(&stream[5..]);
    assert_eq!(st.read(&mut src), Ok(Progress::Ready(Some(vec![9, 8, 7]))));
}

#[test]
fn resumption_at_every_split_matches_one_pass() {
    let plp = plp_stream(0xffff_ffff_ffff_fffe, &[&[1, 2, 3], &[4], &[5, 6]]);
    let fixed = fixed_stream(&[11, 12, 13, 14]);
    for (mode, stream) in [(ReadTyMode::Plp, plp), (ReadTyMode::FixedSize(4), fixed)] {
        let (whole, whole_left) = decode_all(mode, &stream);
        for split in 0..=stream.len() {
            let mut src = source_of(&stream[..split]);
            let mut st = ReadTyState::new(mode);
            let first = st.read(&mut src);
            let r = if first == Ok(Progress::Suspended) {
                src.push_bytes(&stream[split..]);
                st.read(&mut src)
            } else {
                first
            };
            assert_eq!(r, whole);
            assert_eq!(src.remaining(), whole_left);
        }
    }
}

#[test]
fn resumption_one_byte_at_a_time() {
    let stream = plp_stream(6, &[&[1, 2], &[3, 4, 5, 6]]);
    let mut src = ByteSource::new();
    let mut st = ReadTyState::new(ReadTyMode::Plp);
    let mut result = None;
    for b in &stream {
        src.push_bytes(&[*b]);
        match st.read(&mut src) {
            Ok(Progress::Suspended) => {}
            other => {
                result = Some(other);
                break;
            }
        }
    }
    assert_eq!(result, Some(Ok(Progress::Ready(Some(vec![1, 2, 3, 4, 5, 6])))));
}

#[test]
fn round_trip_many_small_chunks() {
    let chunks: Vec<Vec<u8>> = (0..200u32).map(|i| vec![i as u8]).collect();
    let refs: Vec<&[u8]> = chunks.iter().map(|c| c.as_slice()).collect();
    let expected: Vec<u8> = chunks.concat();
    let stream = plp_stream(0xffff_ffff_ffff_fffe, &refs);
    let (r, left) = decode_all(ReadTyMode::Plp, &stream);
    assert_eq!(r, Ok(Progress::Ready(Some(expected))));
    assert_eq!(left, 0);
}

#[test]
fn round_trip_single_large_chunk() {
    let body: Vec<u8> = (0..200_000u32).map(|i| (i % 253) as u8).collect();
    let stream = plp_stream(body.len() as u64, &[&body]);
    let (r, left) = decode_all(ReadTyMode::Plp, &stream);
    assert_eq!(r, Ok(Progress::Ready(Some(body))));
    assert_eq!(left, 0);
}

#[test]
fn round_trip_fixed_size() {
    let body: Vec<u8> = (0..300u32).map(|i| (i * 7) as u8).collect();
    let stream = fixed_stream(&body);
    let (r, left) = decode_all(ReadTyMode::auto(body.len()), &stream);
    assert_eq!(r, Ok(Progress::Ready(Some(body))));
    assert_eq!(left, 0);
}

#[test]
fn closed_source_short_of_the_value_fails() {
    let stream = plp_stream(4, &[&[1, 2, 3, 4]]);
    let mut src = source_of(&stream[..15]);
    src.close();
    let mut st = ReadTyState::new(ReadTyMode::Plp);
    assert_eq!(st.read(&mut src), Err(Error::UnexpectedEof));
}

#[test]
fn closed_source_in_prefix_fails() {
    let mut src = source_of(&[5]);
    src.close();
    let mut st = ReadTyState::new(ReadTyMode::FixedSize(5));
    assert_eq!(st.read(&mut src), Err(Error::UnexpectedEof));
    assert_eq!(src.remaining(), 1);
}

#[test]
fn closed_source_holding_the_whole_value_succeeds() {
    let mut src = source_of(&fixed_stream(&[1, 2]));
    src.close();
    let mut st = ReadTyState::new(ReadTyMode::FixedSize(2));
    assert_eq!(st.read(&mut src), Ok(Progress::Ready(Some(vec![1, 2]))));
}

#[test]
fn source_reads_little_endian_integers() {
    let mut src = source_of(&[
        0x34, 0x12, 0x78, 0x56, 0x34, 0x12, 0x08, 0x07, 0x06, 0x05, 0x04, 0x03, 0x02, 0x01, 0xee,
    ]);
    assert_eq!(src.read_u16_le(), Ok(0x1234));
    assert_eq!(src.read_u32_le(), Ok(0x1234_5678));
    assert_eq!(src.read_u64_le(), Ok(0x0102_0304_0506_0708));
    assert_eq!(src.read_u8(), Ok(0xee));
    assert_eq!(src.remaining(), 0);
}

#[test]
fn source_short_reads_consume_nothing() {
    let mut src = source_of(&[1, 2, 3]);
    assert_eq!(src.read_u32_le(), Err(SourceError::WouldBlock));
    assert_eq!(src.remaining(), 3);
    assert_eq!(src.read_u64_le(), Err(SourceError::WouldBlock));
    src.close();
    assert!(src.is_closed());
    assert_eq!(src.read_u32_le(), Err(SourceError::UnexpectedEof));
    assert_eq!(src.read_u16_le(), Ok(0x0201));
    assert_eq!(src.read_u8(), Ok(3));
    assert_eq!(src.read_u8(), Err(SourceError::UnexpectedEof));
}
