use term_stream::cast::compressed_payload;
use term_stream::cast::decode_cast;
use term_stream::cast::decode_evt;
use term_stream::cast::encode_evt;
use term_stream::cast::encode_payload;
use term_stream::cast::frame_record;
use term_stream::cast::open_payload;
use term_stream::cast::read_resize;
use term_stream::cast::unpacked_payload;
use term_stream::cast::CastError;
use term_stream::cast::EventKind;
use term_stream::cast::RawEvt;
use term_stream::caster::heartbeat_record;
use term_stream::caster::telemetry_blob;
use term_stream::caster::Caster;
use term_stream::caster::Logger;
use term_stream::wire::put_varint;
use term_stream::wire::read_u32_le;
use term_stream::wire::read_varint;
use term_stream::wire::u16_le;
use term_stream::wire::u32_le;

fn payload_of(len: usize) -> Vec<u8> {
    let mut out = Vec::with_capacity(len);
    let mut x: u32 = 12345;
    for i in 0..len {
        x = x.wrapping_mul(1103515245).wrapping_add(12345);
        out.push(if i % 3 == 0 { (x >> 16) as u8 } else { b'a' + (i % 7) as u8 });
    }
    out
}

fn varint_of(n: usize) -> Vec<u8> {
    let mut out = Vec::new();
    put_varint(&mut out, n);
    out
}

#[test]
fn cast_roundtrip_uncompressed() {
    let evt = RawEvt { elapsed: 1.5f32.to_bits(), kind: EventKind::Output, payload: b"hi".to_vec() };
    let bytes = encode_evt(&evt).unwrap();
    assert_eq!(bytes, vec![0x00, 0x00, 0xC0, 0x3F, 0x01, 0x02, 0x68, 0x69]);
    let (back, used) = decode_evt(&bytes).unwrap();
    assert_eq!(used, 8);
    assert_eq!(back, evt);
    assert_eq!(f32::from_bits(back.elapsed), 1.5);
}

#[test]
fn cast_roundtrip_compressed() {
    let evt = RawEvt { elapsed: 0.0f32.to_bits(), kind: EventKind::Output, payload: vec![b'A'; 512] };
    let bytes = encode_evt(&evt).unwrap();
    assert_eq!(&bytes[0..4], &[0u8, 0, 0, 0][..]);
    assert_eq!(bytes[4], 0x81);
    let (stored_len, width) = read_varint(&bytes, 5).unwrap();
    assert_eq!(5 + width + stored_len, bytes.len());
    assert!(stored_len < 512);
    let unpacked = zstd::stream::decode_all(&bytes[5 + width..]).unwrap();
    assert_eq!(unpacked, vec![b'A'; 512]);
    let (back, used) = decode_evt(&bytes).unwrap();
    assert_eq!(used, bytes.len());
    assert_eq!(back, evt);
}

#[test]
fn cast_roundtrip_all_kinds_and_sizes() {
    for kind in [EventKind::Input, EventKind::Output, EventKind::Resize] {
        for len in [0usize, 1, 256, 257, 10_000] {
            let evt = RawEvt { elapsed: 2.25f32.to_bits(), kind, payload: payload_of(len) };
            let bytes = encode_evt(&evt).unwrap();
            assert_eq!(bytes[4] & 0x7f, kind.code());
            assert_eq!(bytes[4] & 0x80 != 0, len > 256);
            let (back, used) = decode_evt(&bytes).unwrap();
            assert_eq!(used, bytes.len());
            assert_eq!(back, evt);
        }
    }
}

#[test]
fn cast_decodes_a_whole_transcript() {
    let events = vec![
        Caster::input(0.5f32.to_bits(), b"ls\r".to_vec()),
        Caster::output(0.75f32.to_bits(), payload_of(300)),
        Caster::resize(1.0f32.to_bits(), 24, 80),
        Caster::output(1.25f32.to_bits(), Vec::new()),
    ];
    let mut log = Vec::new();
    for e in &events {
        log.extend_from_slice(&encode_evt(e).unwrap());
    }
    assert_eq!(decode_cast(&log).unwrap(), events);
    assert_eq!(decode_cast(&[]).unwrap(), Vec::<RawEvt>::new());
}

#[test]
fn cast_decoder_ignores_what_follows_a_record() {
    let evt = Caster::input(3.0f32.to_bits(), b"q".to_vec());
    let mut bytes = encode_evt(&evt).unwrap();
    let len = bytes.len();
    bytes.extend_from_slice(&[0xff, 0xff, 0xff]);
    let (back, used) = decode_evt(&bytes).unwrap();
    assert_eq!(used, len);
    assert_eq!(back, evt);
}

#[test]
fn cast_decoder_names_what_is_wrong() {
    assert_eq!(decode_evt(&[]).unwrap_err(), CastError::Truncated);
    assert_eq!(decode_evt(&[0, 0, 0, 0]).unwrap_err(), CastError::Truncated);
    assert_eq!(decode_evt(&[0, 0, 0, 0, 1]).unwrap_err(), CastError::Truncated);
    assert_eq!(decode_evt(&[0, 0, 0, 0, 1, 0x80]).unwrap_err(), CastError::Truncated);
    assert_eq!(decode_evt(&[0, 0, 0, 0, 1, 5, 1, 2]).unwrap_err(), CastError::Truncated);
    assert_eq!(decode_evt(&[0, 0, 0, 0, 3, 0]).unwrap_err(), CastError::UnknownKind);
    assert_eq!(decode_evt(&[0, 0, 0, 0, 4, 0]).unwrap_err(), CastError::UnknownKind);
    assert_eq!(decode_evt(&[0, 0, 0, 0, 0x83, 0]).unwrap_err(), CastError::UnknownKind);
    assert_eq!(decode_evt(&[0, 0, 0, 0, 0x81, 2, 1, 2]).unwrap_err(), CastError::Decompress);
    let mut log = encode_evt(&Caster::input(0, b"a".to_vec())).unwrap();
    log.extend_from_slice(&[9, 9]);
    assert_eq!(decode_cast(&log).unwrap_err(), CastError::Truncated);
    let mut log = encode_evt(&Caster::input(0, b"a".to_vec())).unwrap();
    log.extend_from_slice(&[0, 0, 0, 0, 0x82, 1, 7]);
    assert_eq!(decode_cast(&log).unwrap_err(), CastError::Decompress);
}

#[test]
fn encode_payload_compresses_above_256_bytes() {
    for len in [0usize, 1, 255, 256] {
        let raw = payload_of(len);
        assert_eq!(encode_payload(raw.clone()).unwrap(), (false, raw));
    }
    for len in [257usize, 258, 1000, 10_000] {
        let raw = payload_of(len);
        let (compressed, stored) = encode_payload(raw.clone()).unwrap();
        assert!(compressed);
        assert_ne!(stored, raw);
        assert_eq!(zstd::stream::decode_all(&stored[..]).unwrap(), raw);
        assert_eq!(open_payload(&stored, true).unwrap(), raw);
    }
}

#[test]
fn payload_outcomes_follow_the_compressor() {
    assert_eq!(compressed_payload(Some(vec![1, 2, 3])), Ok((true, vec![1, 2, 3])));
    assert_eq!(compressed_payload(None), Err(CastError::Compress));
    assert_eq!(unpacked_payload(Some(vec![4, 5])), Ok(vec![4, 5]));
    assert_eq!(unpacked_payload(None), Err(CastError::Decompress));
    assert_eq!(open_payload(&[1, 2, 3], false), Ok(vec![1, 2, 3]));
    assert_eq!(open_payload(&[1, 2, 3], true), Err(CastError::Decompress));
}

#[test]
fn frame_record_lays_out_the_fields() {
    let rec = frame_record(0x3FC00000, EventKind::Input, false, b"abc");
    assert_eq!(rec, vec![0x00, 0x00, 0xC0, 0x3F, 0x00, 0x03, b'a', b'b', b'c']);
    let rec = frame_record(1, EventKind::Resize, true, &[7u8; 200]);
    assert_eq!(&rec[..7], &[1u8, 0, 0, 0, 0x82, 0xC8, 0x01][..]);
    assert_eq!(rec.len(), 207);
}

#[test]
fn event_kind_codes() {
    assert_eq!(EventKind::Input.code(), 0);
    assert_eq!(EventKind::Output.code(), 1);
    assert_eq!(EventKind::Resize.code(), 2);
    assert_eq!(EventKind::from_code(0), Some(EventKind::Input));
    assert_eq!(EventKind::from_code(1), Some(EventKind::Output));
    assert_eq!(EventKind::from_code(2), Some(EventKind::Resize));
    assert_eq!(EventKind::from_code(3), None);
    assert_eq!(EventKind::from_code(255), None);
}

#[test]
fn varint_encodes_seven_bits_per_byte() {
    assert_eq!(varint_of(0), vec![0x00]);
    assert_eq!(varint_of(1), vec![0x01]);
    assert_eq!(varint_of(127), vec![0x7f]);
    assert_eq!(varint_of(128), vec![0x80, 0x01]);
    assert_eq!(varint_of(300), vec![0xAC, 0x02]);
    assert_eq!(varint_of(16384), vec![0x80, 0x80, 0x01]);
    let mut out = vec![9u8];
    put_varint(&mut out, 2);
    assert_eq!(out, vec![9, 2]);
}

#[test]
fn varint_reads_back() {
    assert_eq!(read_varint(&[0xAC, 0x02, 0xff], 0), Some((300, 2)));
    assert_eq!(read_varint(&[0xff, 0xAC, 0x02], 1), Some((300, 2)));
    assert_eq!(read_varint(&[0x00], 0), Some((0, 1)));
    assert_eq!(read_varint(&[0x80, 0x00], 0), Some((0, 2)));
    assert_eq!(read_varint(&[0x80], 0), None);
    assert_eq!(read_varint(&[], 0), None);
    assert_eq!(read_varint(&[1], 1), None);
    for n in [0usize, 1, 127, 128, 255, 256, 16383, 16384, 1 << 31, usize::MAX] {
        let bytes = varint_of(n);
        assert_eq!(read_varint(&bytes, 0), Some((n, bytes.len())));
    }
}

#[test]
fn varint_too_large_is_refused() {
    let mut bytes = vec![0xffu8; 10];
    bytes.push(0x01);
    assert_eq!(read_varint(&bytes, 0), None);
    let mut zeros = vec![0x80u8; 20];
    zeros.push(0x00);
    assert_eq!(read_varint(&zeros, 0), Some((0, 21)));
    let mut late = vec![0x80u8; 20];
    late.push(0x01);
    assert_eq!(read_varint(&late, 0), None);
}

#[test]
fn little_endian_words() {
    assert_eq!(u32_le(0x01020304), vec![4, 3, 2, 1]);
    assert_eq!(u32_le(0), vec![0, 0, 0, 0]);
    assert_eq!(u32_le(u32::MAX), vec![255, 255, 255, 255]);
    assert_eq!(u16_le(0x0102), vec![2, 1]);
    assert_eq!(u16_le(80), vec![80, 0]);
    assert_eq!(read_u32_le(&[9, 4, 3, 2, 1], 1), 0x01020304);
    assert_eq!(read_u32_le(&[0, 0, 0xC0, 0x3F], 0), 1.5f32.to_bits());
}

#[test]
fn caster_builds_events() {
    let e = Caster::input(7, b"x".to_vec());
    assert_eq!(e, RawEvt { elapsed: 7, kind: EventKind::Input, payload: b"x".to_vec() });
    let e = Caster::output(8, b"yz".to_vec());
    assert_eq!(e, RawEvt { elapsed: 8, kind: EventKind::Output, payload: b"yz".to_vec() });
    let e = Caster::resize(9, 24, 80);
    assert_eq!(e, RawEvt { elapsed: 9, kind: EventKind::Resize, payload: vec![24, 0, 80, 0] });
    let e = Caster::resize(9, 0x0102, 0x0304);
    assert_eq!(e.payload, vec![2, 1, 4, 3]);
    assert_eq!(Logger::input(7, b"x".to_vec()), Caster::input(7, b"x".to_vec()));
    assert_eq!(Logger::output(7, b"x".to_vec()), Caster::output(7, b"x".to_vec()));
    assert_eq!(Logger::resize(1, 2, 3), Caster::resize(1, 2, 3));
}

#[test]
fn resize_record_is_stored_raw() {
    let bytes = encode_evt(&Caster::resize(0, 50, 132)).unwrap();
    assert_eq!(bytes, vec![0, 0, 0, 0, 2, 4, 50, 0, 132, 0]);
}

#[test]
fn heartbeat_is_four_little_endian_bytes() {
    assert_eq!(Caster::heartbeat(1_700_000_000), 1_700_000_000);
    assert_eq!(Caster::heartbeat(0x1_0000_0005), 5);
    assert_eq!(Logger::heartbeat(0x1_0000_0005), 5);
    assert_eq!(heartbeat_record(0x01020304), vec![4, 3, 2, 1]);
    assert_eq!(heartbeat_record(1_700_000_000), 1_700_000_000u32.to_le_bytes().to_vec());
}

#[test]
fn caster_records_and_reports() {
    let mut caster = Caster::new(1234, true, 5);
    assert_eq!(caster.timestamp(), 1234);
    assert!(caster.verbose_log());
    assert_eq!(caster.verbose_interval(), 5);
    assert_eq!(caster.tick(), None);
    let first = Caster::input(1, b"ls\r".to_vec());
    let second = Caster::output(2, payload_of(400));
    let a = caster.record(&first).unwrap();
    let b = caster.record(&second).unwrap();
    assert_eq!(a, encode_evt(&first).unwrap());
    assert_eq!(b, encode_evt(&second).unwrap());
    let blob = caster.tick().unwrap();
    let packed = base64::Engine::decode(&base64::engine::general_purpose::STANDARD, blob).unwrap();
    let pending = zstd::stream::decode_all(&packed[..]).unwrap();
    let mut both = a.clone();
    both.extend_from_slice(&b);
    assert_eq!(pending, both);
    assert_eq!(decode_cast(&pending).unwrap(), vec![first, second]);
    assert_eq!(caster.tick(), None);
}

#[test]
fn caster_without_telemetry_reports_nothing() {
    let mut caster = Caster::new(1, false, 5);
    assert!(!caster.verbose_log());
    caster.record(&Caster::input(1, b"a".to_vec())).unwrap();
    assert_eq!(caster.tick(), None);
}

#[test]
fn logger_records() {
    let mut logger = Logger::new();
    let evt = Logger::output(3, b"hello".to_vec());
    assert_eq!(logger.record(&evt).unwrap(), vec![3, 0, 0, 0, 1, 5, b'h', b'e', b'l', b'l', b'o']);
}

#[test]
fn telemetry_blob_is_base64_or_the_error_word() {
    assert_eq!(telemetry_blob(None), "ErrorParsingString");
    assert_eq!(telemetry_blob(Some(b"hello".to_vec())), "aGVsbG8=");
    assert_eq!(telemetry_blob(Some(vec![0xfb, 0xff])), "+/8=");
    assert_eq!(telemetry_blob(Some(Vec::new())), "");
}

#[test]
fn resize_payload_reads_back() {
    assert_eq!(read_resize(&Caster::resize(0, 24, 80).payload), Some((24, 80)));
    assert_eq!(read_resize(&Caster::resize(0, 65535, 258).payload), Some((65535, 258)));
    assert_eq!(read_resize(&[1, 2, 3, 4]), Some((0x0201, 0x0403)));
    assert_eq!(read_resize(&[1, 2, 3]), None);
    assert_eq!(read_resize(&[1, 2, 3, 4, 5]), None);
    assert_eq!(read_resize(&[]), None);
}
