use ttf_render::ttf::types::{Reader, Tag, Version16Dot16, F2DOT14, LONGDATETIME};

#[test]
fn reader_reads_big_endian_values() {
    let data: Vec<u8> = vec![
        0x12, 0x34, 0xFF, 0xFE, 0x01, 0x02, 0x03, 0x04, 0x80, 0x00, 0x00, 0x00, 0xAB,
    ];
    let mut r = Reader::new(&data);
    assert_eq!(r.read_uint16(), 0x1234);
    assert_eq!(r.read_int16(), -2);
    assert_eq!(r.read_uint32(), 0x01020304);
    assert_eq!(r.read_int32(), i32::MIN);
    assert_eq!(r.read_uint8(), 0xAB);
    assert_eq!(r.tell(), 13);
    assert_eq!(r.remaining(), 0);
}

#[test]
fn reader_reads_signed_bytes_and_words() {
    let data: Vec<u8> = vec![0xFF, 0x7F, 0xFF, 0xFF, 0xC0, 0x00];
    let mut r = Reader::new(&data);
    assert_eq!(r.read_int8(), -1);
    assert_eq!(r.read_offset8(), 0x7F);
    assert_eq!(r.read_fword(), -1);
    let f = r.read_f2dot14();
    assert_eq!(f.0, -16384);
}

#[test]
fn reader_reads_u24_offsets_and_fixed() {
    let data: Vec<u8> = vec![1, 2, 3, 4, 5, 6, 0x00, 0x01, 0x80, 0x00, 0xFF, 0xFF, 0, 0, 0, 9];
    let mut r = Reader::new(&data);
    assert_eq!(r.read_uint24(), [1, 2, 3]);
    assert_eq!(r.read_offset24(), [4, 5, 6]);
    assert_eq!(r.read_fixed(), 0x0001_8000);
    assert_eq!(r.read_ufword(), 0xFFFF);
    assert_eq!(r.read_offset16(), 0);
    assert_eq!(r.read_offset16(), 9);
}

#[test]
fn reader_reads_tag_version_offset32_and_date() {
    let data: Vec<u8> = vec![
        b'h', b'e', b'a', b'd', 0x00, 0x01, 0x00, 0x00, 0xDE, 0xAD, 0xBE, 0xEF, 0xFF, 0xFF, 0xFF,
        0xFF, 0xFF, 0xFF, 0xFF, 0xFE,
    ];
    let mut r = Reader::new(&data);
    assert_eq!(r.read_tag(), Tag(0x68656164));
    assert_eq!(r.read_version16dot16(), Version16Dot16(0x00010000));
    assert_eq!(r.read_offset32(), 0xDEADBEEF);
    let t = r.read_longdatetime();
    assert_eq!(t.0, -2);
}

#[test]
fn reader_read_returns_slice_and_advances() {
    let data: Vec<u8> = vec![10, 20, 30, 40, 50];
    let mut r = Reader::new(&data);
    r.seek(1);
    let s = r.read(3);
    assert_eq!(s, &[20, 30, 40]);
    assert_eq!(r.tell(), 4);
}

#[test]
fn seek_inside_data_moves_and_beyond_is_ignored() {
    let data: Vec<u8> = vec![0; 8];
    let mut r = Reader::new(&data);
    r.seek(5);
    assert_eq!(r.tell(), 5);
    r.seek(8);
    assert_eq!(r.tell(), 5);
    r.seek(100);
    assert_eq!(r.tell(), 5);
    r.seek(0);
    assert_eq!(r.tell(), 0);
    assert_eq!(r.remaining(), 8);
}

#[test]
fn tag_from_str_packs_first_four_bytes() {
    assert_eq!(Tag::from_str("head"), Tag(0x68656164));
    assert_eq!(Tag::from_str("ab"), Tag(0x6162));
    assert_eq!(Tag::from_str(""), Tag(0));
    assert_eq!(Tag::from_str("glyfXYZ"), Tag(0x676C7966));
}

#[test]
fn tag_from_chars_matches_from_str() {
    assert_eq!(Tag::from_chars('c', 'm', 'a', 'p'), Tag::from_str("cmap"));
    assert_eq!(Tag::from_chars('O', 'S', '/', '2').0, 0x4F532F32);
}

#[test]
fn tag_to_string_round_trips_ascii() {
    assert_eq!(Tag::from_chars('l', 'o', 'c', 'a').to_string(), "loca");
    assert_eq!(Tag::from_str("maxp").to_string(), "maxp");
}

#[test]
fn tag_to_string_replaces_invalid_utf8() {
    let t = Tag(0x41FF4243);
    assert_eq!(t.to_string(), "A\u{FFFD}BC");
}

#[test]
fn version_from_major_minor_and_to_string() {
    let v = Version16Dot16::from_major_minor(1, 0);
    assert_eq!(v, Version16Dot16(0x00010000));
    assert_eq!(v.to_string(), "1.0");
    let w = Version16Dot16::from_major_minor(0, 5);
    assert_eq!(w.0, 5);
    assert_eq!(w.to_string(), "0.5");
    assert_eq!(Version16Dot16::from_major_minor(65535, 1234).to_string(), "65535.1234");
}

#[test]
fn longdatetime_to_string_shifts_from_unix_epoch() {
    let t = LONGDATETIME(0);
    assert_eq!(t.to_string(), "2036-01-02 00:00:00");
    let u = LONGDATETIME(86400 + 3661);
    assert_eq!(u.to_string(), "2036-01-03 01:01:01");
}

#[test]
fn longdatetime_to_datetime_adds_epoch_shift() {
    let t = LONGDATETIME(10);
    let st = t.to_datetime().unwrap().time;
    let secs = st.duration_since(std::time::UNIX_EPOCH).unwrap().as_secs();
    assert_eq!(secs, 2082844800 + 10);
}

#[test]
fn f2dot14_keeps_raw_bits() {
    let f = F2DOT14(0x4000);
    assert_eq!(f.0, 16384);
}
