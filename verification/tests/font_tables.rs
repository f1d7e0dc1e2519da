use ttf_render::renderer::loader::Font;
use ttf_render::ttf::cmap::{CmapHeader, CmapSubtable, PlatformId};
use ttf_render::ttf::glyph::Glyph;
use ttf_render::ttf::table::{HeadTable, MaxpTable};
use ttf_render::ttf::table_directory::TTFTableDirectory;
use ttf_render::ttf::types::{Reader, Tag};

fn push16(v: &mut Vec<u8>, x: u16) {
    v.extend_from_slice(&x.to_be_bytes());
}

fn push32(v: &mut Vec<u8>, x: u32) {
    v.extend_from_slice(&x.to_be_bytes());
}

fn record(v: &mut Vec<u8>, tag: &[u8; 4], offset: u32, length: u32) {
    v.extend_from_slice(tag);
    push32(v, 0);
    push32(v, offset);
    push32(v, length);
}

fn head_table(v: &mut Vec<u8>, index_to_loc_format: i16) {
    push16(v, 1); // major
    push16(v, 0); // minor
    push32(v, 0x0001_0000); // revision
    push32(v, 0x1234_5678); // checksum adjustment
    push32(v, 0x5F0F_3CF5); // magic
    push16(v, 0x000B); // flags
    push16(v, 1000); // units per em
    v.extend_from_slice(&[0; 8]); // created
    v.extend_from_slice(&0x10i64.to_be_bytes()); // modified
    push16(v, (-50i16) as u16); // x_min
    push16(v, (-20i16) as u16); // y_min
    push16(v, 600); // x_max
    push16(v, 800); // y_max
    push16(v, 0); // mac style
    push16(v, 8); // lowest rec ppem
    push16(v, 2); // direction hint
    push16(v, index_to_loc_format as u16);
    push16(v, 0); // glyph data format
}

/// A small font: directory, head, maxp (full), cmap with one Windows/BMP
/// format-4 subtable, a short loca table and three glyphs.
fn sample_font() -> Vec<u8> {
    let mut v = Vec::new();
    push32(&mut v, 0x0001_0000);
    push16(&mut v, 5);
    push16(&mut v, 64);
    push16(&mut v, 2);
    push16(&mut v, 16);
    record(&mut v, b"cmap", 178, 34);
    record(&mut v, b"glyf", 218, 42);
    record(&mut v, b"head", 92, 54);
    record(&mut v, b"loca", 212, 6);
    record(&mut v, b"maxp", 146, 32);
    assert_eq!(v.len(), 92);
    head_table(&mut v, 0);
    assert_eq!(v.len(), 146);
    // maxp 1.0
    push32(&mut v, 0x0001_0000);
    push16(&mut v, 2); // num glyphs
    for i in 0..13u16 {
        push16(&mut v, i + 1);
    }
    assert_eq!(v.len(), 178);
    // cmap header: one record, platform 3 encoding 1, subtable at +10
    push16(&mut v, 0);
    push16(&mut v, 1);
    push16(&mut v, 3);
    push16(&mut v, 1);
    push16(&mut v, 10);
    assert_eq!(v.len(), 188);
    // format 4 subtable, one segment, one glyph id
    push16(&mut v, 4);
    push16(&mut v, 24); // length
    push16(&mut v, 2); // seg_count_x2
    push16(&mut v, 2);
    push16(&mut v, 0);
    push16(&mut v, 0);
    push16(&mut v, 0xFFFF); // end code
    push16(&mut v, 0); // reserved pad
    push16(&mut v, 0xFFFF); // start code
    push16(&mut v, 1); // id delta
    push16(&mut v, 0); // id range offset
    push16(&mut v, 7); // glyph id array
    assert_eq!(v.len(), 212);
    // loca, short format (offsets halved)
    push16(&mut v, 0);
    push16(&mut v, 11);
    push16(&mut v, 16);
    assert_eq!(v.len(), 218);
    // glyph 0: one contour, three points
    push16(&mut v, 1);
    push16(&mut v, 0);
    push16(&mut v, 0);
    push16(&mut v, 100);
    push16(&mut v, 100);
    push16(&mut v, 2); // end point of contour 0
    push16(&mut v, 0); // no instructions
    v.push(0x3F); // on curve, short positive x and y, repeat
    v.push(2); // two more
    v.extend_from_slice(&[10, 20, 30]);
    v.extend_from_slice(&[5, 5, 5]);
    assert_eq!(v.len(), 240);
    // glyph 1: composite
    push16(&mut v, (-1i16) as u16);
    push16(&mut v, 1);
    push16(&mut v, 2);
    push16(&mut v, 3);
    push16(&mut v, 4);
    // glyph 2: empty
    push16(&mut v, 0);
    push16(&mut v, 0);
    push16(&mut v, 0);
    push16(&mut v, 0);
    push16(&mut v, 0);
    assert_eq!(v.len(), 260);
    v
}

#[test]
fn directory_reads_records_and_finds_tags() {
    let data = sample_font();
    let mut r = Reader::new(&data);
    let dir = TTFTableDirectory::read_from(&mut r);
    assert_eq!(r.tell(), 92);
    assert_eq!(dir.sfnt_version, 0x0001_0000);
    assert_eq!(dir.num_tables, 5);
    assert_eq!(dir.search_range, 64);
    assert_eq!(dir.entry_selector, 2);
    assert_eq!(dir.range_shift, 16);
    assert_eq!(dir.table_records.len(), 5);
    let head = dir.get_table_record(&Tag::from_str("head")).unwrap();
    assert_eq!(head.offset, 92);
    assert_eq!(head.length, 54);
    assert!(dir.get_table_record(&Tag::from_str("OS/2")).is_none());
}

#[test]
fn get_table_record_returns_first_match() {
    let mut v = Vec::new();
    push32(&mut v, 0x0001_0000);
    push16(&mut v, 2);
    push16(&mut v, 0);
    push16(&mut v, 0);
    push16(&mut v, 0);
    record(&mut v, b"head", 100, 1);
    record(&mut v, b"head", 200, 2);
    let mut r = Reader::new(&v);
    let dir = TTFTableDirectory::read_from(&mut r);
    assert_eq!(dir.get_table_record(&Tag::from_str("head")).unwrap().offset, 100);
}

#[test]
fn directory_that_does_not_fit_is_refused() {
    let mut v = Vec::new();
    push32(&mut v, 0x0001_0000);
    push16(&mut v, 3);
    push16(&mut v, 0);
    push16(&mut v, 0);
    push16(&mut v, 0);
    record(&mut v, b"head", 100, 1);
    let mut r = Reader::new(&v);
    assert!(TTFTableDirectory::try_read_from(&mut r).is_none());
    let short = vec![0u8; 11];
    let mut r2 = Reader::new(&short);
    assert!(TTFTableDirectory::try_read_from(&mut r2).is_none());
}

#[test]
fn head_table_fields() {
    let data = sample_font();
    let mut r = Reader::new(&data);
    r.seek(92);
    let head = HeadTable::read_from(&mut r);
    assert_eq!(HeadTable::TAG, "head");
    assert_eq!(head.major_version, 1);
    assert_eq!(head.minor_version, 0);
    assert_eq!(head.font_revision, 0x0001_0000);
    assert_eq!(head.check_sum_adjustment, 0x1234_5678);
    assert_eq!(head.magic_number, 0x5F0F_3CF5);
    assert_eq!(head.flags, 0x000B);
    assert_eq!(head.units_per_em, 1000);
    assert_eq!(head.created.0, 0);
    assert_eq!(head.modified.0, 0x10);
    assert_eq!(head.x_min, -50);
    assert_eq!(head.y_min, -20);
    assert_eq!(head.x_max, 600);
    assert_eq!(head.y_max, 800);
    assert_eq!(head.lowest_rec_ppem, 8);
    assert_eq!(head.font_direction_hint, 2);
    assert_eq!(head.index_to_loc_format, 0);
    assert_eq!(head.glyph_data_format, 0);
    assert_eq!(r.tell(), 146);
}

#[test]
fn maxp_full_and_short_forms() {
    let data = sample_font();
    let mut r = Reader::new(&data);
    r.seek(146);
    match MaxpTable::read_from(&mut r) {
        MaxpTable::Version1_0(t) => {
            assert_eq!(t.num_glyphs, 2);
            assert_eq!(t.max_points, 1);
            assert_eq!(t.max_component_depth, 13);
        }
        MaxpTable::Version0_5(_) => panic!("expected the full form"),
    }
    assert_eq!(r.tell(), 178);

    let short: Vec<u8> = vec![0, 0, 0, 5, 0, 9];
    let mut r2 = Reader::new(&short);
    match MaxpTable::read_from(&mut r2) {
        MaxpTable::Version0_5(t) => assert_eq!(t.num_glyphs, 9),
        MaxpTable::Version1_0(_) => panic!("expected the short form"),
    }
}

#[test]
fn maxp_unknown_version_is_refused() {
    // 0x00005000 is how fonts usually write 0.5; this reader compares with
    // from_major_minor(0, 5), which is 5.
    let data: Vec<u8> = vec![0, 0, 0x50, 0, 0, 9];
    let mut r = Reader::new(&data);
    assert!(MaxpTable::try_read_from(&mut r).is_none());
}

#[test]
fn cmap_header_and_platform_ids() {
    let mut v = Vec::new();
    push16(&mut v, 0);
    push16(&mut v, 3);
    for (p, e, o) in [(0u16, 3u16, 28u16), (3, 1, 40), (9, 0, 52)] {
        push16(&mut v, p);
        push16(&mut v, e);
        push16(&mut v, o);
    }
    let mut r = Reader::new(&v);
    let h = CmapHeader::read_from(&mut r);
    assert_eq!(h.version, 0);
    assert_eq!(h.num_tables, 3);
    assert_eq!(h.encoding_records[0].platform_id, PlatformId::Unicode);
    assert_eq!(h.encoding_records[1].platform_id, PlatformId::Windows);
    assert_eq!(h.encoding_records[1].encoding_id, 1);
    assert_eq!(h.encoding_records[1].offset, 40);
    assert_eq!(h.encoding_records[2].platform_id, PlatformId::Custom);
    assert_eq!(PlatformId::try_from(2u16), Ok(PlatformId::Iso));
    assert_eq!(PlatformId::try_from(5u16), Err(()));
}

#[test]
fn cmap_format4_subtable() {
    let data = sample_font();
    let mut r = Reader::new(&data);
    r.seek(188);
    match CmapSubtable::read_from(&mut r) {
        CmapSubtable::Format4(t) => {
            assert_eq!(t.format, 4);
            assert_eq!(t.length, 24);
            assert_eq!(t.seg_count_x2, 2);
            assert_eq!(t.end_code, vec![0xFFFF]);
            assert_eq!(t.reserved_pad, 0);
            assert_eq!(t.start_code, vec![0xFFFF]);
            assert_eq!(t.id_delta, vec![1]);
            assert_eq!(t.id_range_offset, vec![0]);
            assert_eq!(t.glyph_id_array, vec![7]);
        }
        _ => panic!("expected format 4"),
    }
    assert_eq!(r.tell(), 212);
}

#[test]
fn cmap_format4_short_length_is_refused() {
    let mut v = Vec::new();
    push16(&mut v, 4);
    push16(&mut v, 20); // less than 14 + 8 * seg_count
    push16(&mut v, 2);
    for _ in 0..8 {
        push16(&mut v, 0);
    }
    let mut r = Reader::new(&v);
    assert!(CmapSubtable::try_read_from(&mut r).is_none());
}

#[test]
fn cmap_format0_and_format6() {
    let mut v = Vec::new();
    push16(&mut v, 0);
    push16(&mut v, 262);
    push16(&mut v, 0);
    for i in 0..256u32 {
        v.push((i % 251) as u8);
    }
    let mut r = Reader::new(&v);
    match CmapSubtable::read_from(&mut r) {
        CmapSubtable::Format0(t) => {
            assert_eq!(t.length, 262);
            assert_eq!(t.glyph_id_array[0], 0);
            assert_eq!(t.glyph_id_array[255], 4);
        }
        _ => panic!("expected format 0"),
    }
    assert_eq!(r.tell(), 262);

    let mut w = Vec::new();
    push16(&mut w, 6);
    push16(&mut w, 14);
    push16(&mut w, 0);
    push16(&mut w, 32);
    push16(&mut w, 2);
    push16(&mut w, 5);
    push16(&mut w, 6);
    let mut r2 = Reader::new(&w);
    match CmapSubtable::read_from(&mut r2) {
        CmapSubtable::Format6(t) => {
            assert_eq!(t.first_code, 32);
            assert_eq!(t.entry_count, 2);
            assert_eq!(t.glyph_id_array, vec![5, 6]);
        }
        _ => panic!("expected format 6"),
    }
}

#[test]
fn cmap_format2_reads_keys_only() {
    let mut v = Vec::new();
    push16(&mut v, 2);
    push16(&mut v, 518);
    push16(&mut v, 0);
    for i in 0..256u16 {
        push16(&mut v, i * 8);
    }
    let mut r = Reader::new(&v);
    match CmapSubtable::read_from(&mut r) {
        CmapSubtable::Format2(t) => {
            assert_eq!(t.sub_header_keys[1], 8);
            assert_eq!(t.sub_header_keys[255], 2040);
            assert!(t.sub_headers.is_empty());
            assert!(t.glyph_id_array.is_empty());
        }
        _ => panic!("expected format 2"),
    }
    assert_eq!(r.tell(), 518);
}

#[test]
fn cmap_group_formats() {
    for format in [8u16, 12, 13] {
        let mut v = Vec::new();
        push16(&mut v, format);
        push32(&mut v, 40);
        push32(&mut v, 0);
        push32(&mut v, 2);
        for (a, b, c) in [(32u32, 126u32, 3u32), (0x1F600, 0x1F64F, 100)] {
            push32(&mut v, a);
            push32(&mut v, b);
            push32(&mut v, c);
        }
        let mut r = Reader::new(&v);
        let t = CmapSubtable::read_from(&mut r);
        assert_eq!(r.tell(), 38);
        match (format, t) {
            (8, CmapSubtable::Format8(t)) => {
                assert_eq!(t.num_groups, 2);
                assert!(t.is32.is_empty());
                assert_eq!(t.groups[1].start_char_code, 0x1F600);
                assert_eq!(t.groups[1].start_glyph_id, 100);
            }
            (12, CmapSubtable::Format12(t)) => {
                assert_eq!(t.groups[0].end_char_code, 126);
            }
            (13, CmapSubtable::Format13(t)) => {
                assert_eq!(t.groups[1].glyph_id, 100);
            }
            _ => panic!("wrong variant"),
        }
    }
}

#[test]
fn cmap_format10_and_format14() {
    let mut v = Vec::new();
    push16(&mut v, 10);
    push32(&mut v, 24);
    push32(&mut v, 0);
    push32(&mut v, 0x10000);
    push32(&mut v, 2);
    push16(&mut v, 11);
    push16(&mut v, 12);
    let mut r = Reader::new(&v);
    match CmapSubtable::read_from(&mut r) {
        CmapSubtable::Format10(t) => {
            assert_eq!(t.start_char_code, 0x10000);
            assert_eq!(t.glyph_id_array, vec![11, 12]);
        }
        _ => panic!("expected format 10"),
    }

    let mut w = Vec::new();
    push16(&mut w, 14);
    push32(&mut w, 21);
    push32(&mut w, 1);
    w.extend_from_slice(&[0x00, 0xFE, 0x0F]);
    push32(&mut w, 0);
    push32(&mut w, 77);
    let mut r2 = Reader::new(&w);
    match CmapSubtable::read_from(&mut r2) {
        CmapSubtable::Format14(t) => {
            assert_eq!(t.number_of_var_selector_records, 1);
            assert_eq!(t.var_selector_records[0].var_selector, [0x00, 0xFE, 0x0F]);
            assert_eq!(t.var_selector_records[0].non_default_uvs_offset, 77);
        }
        _ => panic!("expected format 14"),
    }
}

#[test]
fn cmap_unknown_format_is_refused() {
    let v: Vec<u8> = vec![0, 3, 0, 0, 0, 0];
    let mut r = Reader::new(&v);
    assert!(CmapSubtable::try_read_from(&mut r).is_none());
}

#[test]
fn glyph_with_repeated_flags_and_deltas() {
    let data = sample_font();
    let mut r = Reader::new(&data);
    r.seek(218);
    match Glyph::read_from(&mut r) {
        Glyph::Simple(g) => {
            assert_eq!(g.end_pts_of_contours, vec![2]);
            assert_eq!(g.instruction_length, 0);
            assert!(g.instructions.is_empty());
            assert_eq!(g.points.len(), 3);
            let xs: Vec<i16> = g.points.iter().map(|p| p.x).collect();
            let ys: Vec<i16> = g.points.iter().map(|p| p.y).collect();
            assert_eq!(xs, vec![10, 30, 60]);
            assert_eq!(ys, vec![5, 10, 15]);
            assert!(g.points.iter().all(|p| p.on_curve));
        }
        Glyph::Composite(_) => panic!("expected a simple glyph"),
    }
    assert_eq!(r.tell(), 240);
}

#[test]
fn glyph_long_and_repeated_coordinates() {
    let mut v = Vec::new();
    push16(&mut v, 1); // one contour
    v.extend_from_slice(&[0; 8]);
    push16(&mut v, 1); // end point 1: two points
    push16(&mut v, 2); // two instruction bytes
    v.extend_from_slice(&[0xAA, 0xBB]);
    // point 0: off curve, long x, long y; point 1: on curve, short negative x, same y
    v.push(0x00);
    v.push(0x01 | 0x02 | 0x20);
    push16(&mut v, (-300i16) as u16); // x of point 0
    v.push(50); // x delta of point 1: -50
    push16(&mut v, 1000); // y of point 0
    let mut r = Reader::new(&v);
    match Glyph::read_from(&mut r) {
        Glyph::Simple(g) => {
            assert_eq!(g.instructions, vec![0xAA, 0xBB]);
            assert_eq!(g.points[0].x, -300);
            assert_eq!(g.points[0].y, 1000);
            assert!(!g.points[0].on_curve);
            assert_eq!(g.points[1].x, -350);
            assert_eq!(g.points[1].y, 1000);
            assert!(g.points[1].on_curve);
        }
        Glyph::Composite(_) => panic!("expected a simple glyph"),
    }
    assert_eq!(r.tell(), v.len());
}

#[test]
fn glyph_coordinate_overflow_is_refused() {
    let mut v = Vec::new();
    push16(&mut v, 1);
    v.extend_from_slice(&[0; 8]);
    push16(&mut v, 1);
    push16(&mut v, 0);
    v.push(0x00);
    v.push(0x00);
    push16(&mut v, 30000);
    push16(&mut v, 30000); // 60000 does not fit in i16
    push16(&mut v, 0);
    push16(&mut v, 0);
    let mut r = Reader::new(&v);
    assert!(Glyph::try_read_from(&mut r).is_none());
}

#[test]
fn glyph_truncated_flags_are_refused() {
    let mut v = Vec::new();
    push16(&mut v, 1);
    v.extend_from_slice(&[0; 8]);
    push16(&mut v, 4); // five points
    push16(&mut v, 0);
    v.push(0x37);
    let mut r = Reader::new(&v);
    assert!(Glyph::try_read_from(&mut r).is_none());
}

#[test]
fn composite_and_empty_glyphs() {
    let data = sample_font();
    let mut r = Reader::new(&data);
    r.seek(240);
    match Glyph::read_from(&mut r) {
        Glyph::Composite(c) => {
            assert_eq!(c.header.number_of_contours, -1);
            assert_eq!(c.header.y_max, 4);
        }
        Glyph::Simple(_) => panic!("expected a composite glyph"),
    }
    match Glyph::read_from(&mut r) {
        Glyph::Simple(s) => {
            assert!(s.points.is_empty());
            assert!(s.end_pts_of_contours.is_empty());
        }
        Glyph::Composite(_) => panic!("expected an empty glyph"),
    }
    assert_eq!(r.tell(), 260);
}

#[test]
fn font_from_data_reads_tables() {
    let data = sample_font();
    let font = Font::from_data(&data);
    assert_eq!(font.head.units_per_em, 1000);
    assert_eq!(font.maxp.num_glyphs, 2);
    assert_eq!(font.directory.num_tables, 5);
    assert!(matches!(font.cmap, CmapSubtable::Format4(_)));
    assert!(font.loca.is_empty());
    assert!(font.glyf.is_empty());
    assert_eq!(font.reader.tell(), 212);
}

#[test]
fn font_read_loca_doubles_short_offsets() {
    let data = sample_font();
    let mut font = Font::from_data(&data);
    font.read_loca();
    assert_eq!(font.loca, vec![0, 22, 32]);
    assert_eq!(font.reader.tell(), 218);
}

#[test]
fn font_read_loca_long_format() {
    let mut data = sample_font();
    // index_to_loc_format lives 50 bytes into head (at 92).
    data[92 + 50] = 0;
    data[92 + 51] = 1;
    // Three long entries need 12 bytes from 212: they run over the glyphs,
    // which is fine for this table alone.
    let mut font = Font::from_data(&data);
    font.read_loca();
    assert_eq!(font.loca, vec![11, 0x0010_0001, 0]);
}

#[test]
fn font_read_glyf_reads_every_location() {
    let data = sample_font();
    let mut font = Font::from_data(&data);
    font.read_glyf();
    assert_eq!(font.loca, vec![0, 22, 32]);
    assert_eq!(font.glyf.len(), 3);
    assert!(matches!(font.glyf[0], Glyph::Simple(_)));
    assert!(matches!(font.glyf[1], Glyph::Composite(_)));
    match &font.glyf[2] {
        Glyph::Simple(s) => assert!(s.points.is_empty()),
        Glyph::Composite(_) => panic!("expected an empty glyph"),
    }
    assert_eq!(font.reader.tell(), 260);
}

#[test]
fn font_without_windows_bmp_record_is_refused() {
    let mut data = sample_font();
    // encoding id of the only cmap record, at 178 + 6
    data[185] = 0;
    assert!(Font::try_from_data(&data).is_none());
}

#[test]
fn font_without_cmap_table_is_refused() {
    let mut data = sample_font();
    // rename the "cmap" record's tag
    data[12] = b'x';
    assert!(Font::try_from_data(&data).is_none());
}

#[test]
fn font_with_short_maxp_is_refused() {
    let mut data = sample_font();
    // maxp version 5 is the short form, which fonts here must not have
    data[146..150].copy_from_slice(&[0, 0, 0, 5]);
    assert!(Font::try_from_data(&data).is_none());
}

#[test]
fn font_try_read_glyf_fails_without_glyf_table() {
    let mut data = sample_font();
    data[28] = b'x'; // "glyf" record's tag
    let mut font = Font::from_data(&data);
    assert!(!font.try_read_glyf());
}

#[test]
fn format8_and_format12_read_the_same_groups() {
    let mut body = Vec::new();
    push32(&mut body, 40);
    push32(&mut body, 3);
    push32(&mut body, 2);
    for (a, b, c) in [(32u32, 126u32, 3u32), (0x1F600, 0x1F64F, 100)] {
        push32(&mut body, a);
        push32(&mut body, b);
        push32(&mut body, c);
    }
    let mut v8 = Vec::new();
    push16(&mut v8, 8);
    v8.extend_from_slice(&body);
    let mut v12 = Vec::new();
    push16(&mut v12, 12);
    v12.extend_from_slice(&body);
    let mut r8 = Reader::new(&v8);
    let mut r12 = Reader::new(&v12);
    match (CmapSubtable::read_from(&mut r8), CmapSubtable::read_from(&mut r12)) {
        (CmapSubtable::Format8(a), CmapSubtable::Format12(b)) => {
            assert_eq!(a.length, b.length);
            assert_eq!(a.language, b.language);
            assert_eq!(a.num_groups, b.num_groups);
            assert_eq!(a.groups.len(), b.groups.len());
            for (x, y) in a.groups.iter().zip(b.groups.iter()) {
                assert_eq!(x.start_char_code, y.start_char_code);
                assert_eq!(x.end_char_code, y.end_char_code);
                assert_eq!(x.start_glyph_id, y.start_glyph_id);
            }
        }
        _ => panic!("wrong variants"),
    }
    assert_eq!(r8.tell(), r12.tell());
}
