use ttf_glyphs::buffer::ByteBuffer;
use ttf_glyphs::error::FontError;
use ttf_glyphs::reader::{read_table_directory, FontParser};
use ttf_glyphs::table::{CmapTable, EncodingRecord, TableName, TableRecord};

fn be16(v: u16) -> [u8; 2] {
    v.to_be_bytes()
}

fn be32(v: u32) -> [u8; 4] {
    v.to_be_bytes()
}

/// An SFNT file holding `tables` in order, each padded to an even length.
fn sfnt(tables: &[(&[u8; 4], Vec<u8>)]) -> Vec<u8> {
    let mut out = Vec::new();
    out.extend_from_slice(&be32(0x0001_0000));
    out.extend_from_slice(&be16(tables.len() as u16));
    out.extend_from_slice(&[0; 6]);
    let mut offset = 12 + 16 * tables.len();
    let mut body = Vec::new();
    for (tag, data) in tables {
        out.extend_from_slice(&tag[..]);
        out.extend_from_slice(&be32(0));
        out.extend_from_slice(&be32(offset as u32));
        out.extend_from_slice(&be32(data.len() as u32));
        let mut d = data.clone();
        if d.len() % 2 == 1 {
            d.push(0);
        }
        offset += d.len();
        body.extend_from_slice(&d);
    }
    out.extend_from_slice(&body);
    out
}

fn maxp(num_glyphs: u16) -> Vec<u8> {
    let mut t = be32(0x0000_5000).to_vec();
    t.extend_from_slice(&be16(num_glyphs));
    t
}

fn head(magic: u32, index_to_loc_format: i16) -> Vec<u8> {
    let mut t = vec![0u8; 54];
    t[12..16].copy_from_slice(&be32(magic));
    t[50..52].copy_from_slice(&index_to_loc_format.to_be_bytes());
    t
}

fn hhea(num_h_metrics: u16) -> Vec<u8> {
    let mut t = vec![0u8; 36];
    t[34..36].copy_from_slice(&be16(num_h_metrics));
    t
}

/// Two explicit metrics, then three bearings.
fn hmtx() -> Vec<u8> {
    let mut t = Vec::new();
    for (aw, lsb) in [(500u16, 10i16), (600, 20)] {
        t.extend_from_slice(&be16(aw));
        t.extend_from_slice(&lsb.to_be_bytes());
    }
    for lsb in [30i16, 40, 50] {
        t.extend_from_slice(&lsb.to_be_bytes());
    }
    t
}

/// One Windows record pointing at a format 4 subtable: 'A'..'Z' to 1..26.
fn cmap(version: u16, platform_id: u16, format: u16) -> Vec<u8> {
    let mut t = Vec::new();
    t.extend_from_slice(&be16(version));
    t.extend_from_slice(&be16(1));
    t.extend_from_slice(&be16(platform_id));
    t.extend_from_slice(&be16(1));
    t.extend_from_slice(&be32(12));
    t.extend_from_slice(&be16(format));
    t.extend_from_slice(&be16(32));
    t.extend_from_slice(&be16(0));
    t.extend_from_slice(&be16(4));
    t.extend_from_slice(&be16(4));
    t.extend_from_slice(&be16(1));
    t.extend_from_slice(&be16(0));
    for v in [90u16, 0xffff] {
        t.extend_from_slice(&be16(v));
    }
    t.extend_from_slice(&be16(0));
    for v in [65u16, 0xffff] {
        t.extend_from_slice(&be16(v));
    }
    for v in [-64i16, 1] {
        t.extend_from_slice(&v.to_be_bytes());
    }
    for v in [0u16, 0] {
        t.extend_from_slice(&be16(v));
    }
    t
}

/// Glyph 1: a triangle (0,0) (100,0) (50,100), every point on the curve.
fn triangle() -> Vec<u8> {
    let mut g = Vec::new();
    for v in [1i16, 0, 0, 100, 100] {
        g.extend_from_slice(&v.to_be_bytes());
    }
    g.extend_from_slice(&be16(2));
    g.extend_from_slice(&be16(0));
    g.extend_from_slice(&[0x31, 0x33, 0x27]);
    g.extend_from_slice(&[100, 50]);
    g.extend_from_slice(&[100]);
    g
}

/// A compound glyph with one component `component` moved by `(dx, dy)`.
fn compound(component: u16, dx: i16, dy: i16) -> Vec<u8> {
    let mut g = Vec::new();
    for v in [-1i16, 100, 0, 200, 100] {
        g.extend_from_slice(&v.to_be_bytes());
    }
    g.extend_from_slice(&be16(0x0003));
    g.extend_from_slice(&be16(component));
    g.extend_from_slice(&dx.to_be_bytes());
    g.extend_from_slice(&dy.to_be_bytes());
    g
}

/// Glyphs: 0 empty, 1 triangle, 2 empty (a space), 3 the triangle moved by
/// (100, 0), 4 a compound that refers to itself.
fn test_font() -> Vec<u8> {
    let mut glyf = triangle();
    glyf.extend(compound(1, 100, 0));
    glyf.extend(compound(4, 0, 0));
    let mut loca = Vec::new();
    for half in [0u16, 0, 10, 10, 19, 28] {
        loca.extend_from_slice(&be16(half));
    }
    sfnt(&[
        (b"maxp", maxp(5)),
        (b"head", head(0x5F0F_3CF5, 0)),
        (b"hhea", hhea(2)),
        (b"hmtx", hmtx()),
        (b"cmap", cmap(0, 3, 4)),
        (b"loca", loca),
        (b"glyf", glyf),
    ])
}

fn parser(bytes: Vec<u8>) -> FontParser {
    let mut buffer = ByteBuffer::new(bytes);
    let records = read_table_directory(&mut buffer).unwrap();
    FontParser::new(buffer, records)
}

#[test]
fn directory_lists_every_table() {
    let mut buffer = ByteBuffer::new(test_font());
    let records = read_table_directory(&mut buffer).unwrap();
    assert_eq!(records.len(), 7);
    assert_eq!(records[0].tag, *b"maxp");
    assert_eq!(records[0].absolute_offset, 12 + 16 * 7);
    assert_eq!(records[6].tag, *b"glyf");
    assert_eq!(buffer.current_position(), 12 + 16 * 7);
}

#[test]
fn directory_rejects_unknown_version_and_truncation() {
    let mut bytes = test_font();
    bytes[0] = 0x02;
    let mut buffer = ByteBuffer::new(bytes);
    assert_eq!(read_table_directory(&mut buffer).err(), Some(FontError::UnsupportedFontVersion));
    let mut otto = ByteBuffer::new(b"OTTO\x00\x00\x00\x00\x00\x00\x00\x00".to_vec());
    assert_eq!(read_table_directory(&mut otto).unwrap().len(), 0);
    let mut truncated = ByteBuffer::new(test_font()[..40].to_vec());
    assert_eq!(read_table_directory(&mut truncated).err(), Some(FontError::OutOfBounds));
}

#[test]
fn table_tags_and_lookup() {
    assert_eq!(TableName::Hmtx.as_tag(), *b"hmtx");
    assert_eq!(TableName::Glyf.as_tag(), *b"glyf");
    let p = parser(test_font());
    assert_eq!(p.find_table(TableName::Maxp), Ok(12 + 16 * 7));
    let empty = FontParser::new(ByteBuffer::new(vec![]), vec![TableRecord { tag: *b"head", absolute_offset: 0 }]);
    assert_eq!(empty.find_table(TableName::Cmap), Err(FontError::TableNotFound(TableName::Cmap)));
}

#[test]
fn scalar_tables() {
    let mut p = parser(test_font());
    assert_eq!(p.read_maxp_table().unwrap().num_glyphs, 5);
    assert_eq!(p.read_head_table().unwrap().index_to_loc_format, 0);
    assert_eq!(p.read_hhea_table().unwrap().num_h_metrics, 2);
}

#[test]
fn head_with_wrong_magic_number() {
    let bytes = sfnt(&[(b"head", head(0x1234_5678, 0))]);
    let mut p = parser(bytes);
    assert_eq!(p.read_head_table().err(), Some(FontError::InvalidMagicNumber));
    let mut missing = parser(sfnt(&[(b"head", head(0x5F0F_3CF5, 0))]));
    assert_eq!(missing.read_maxp_table().err(), Some(FontError::TableNotFound(TableName::Maxp)));
}

#[test]
fn hmtx_reuses_the_last_advance_width() {
    let mut p = parser(test_font());
    let t = p.read_hmtx_table(5, 2).unwrap();
    assert_eq!(t.advance_widths, vec![500, 600, 600, 600, 600]);
    assert_eq!(t.left_side_bearings, vec![10, 20, 30, 40, 50]);
    assert_eq!(p.read_hmtx_table(60000, 2).err(), Some(FontError::OutOfBounds));
}

#[test]
fn cmap_records_and_subtable() {
    let mut p = parser(test_font());
    let cmap_table = p.read_cmap_table().unwrap();
    assert_eq!(cmap_table.num_tables, 1);
    let base = p.find_table(TableName::Cmap).unwrap();
    assert_eq!(
        cmap_table.encoding_records[0],
        EncodingRecord { platform_id: 3, encoding_id: 1, subtable_absolute_offset: base + 12 }
    );
    let sub = p.read_cmap_subtable(&cmap_table, 1).unwrap();
    assert_eq!(sub.format, 4);
    assert_eq!(sub.seg_count_x2, 4);
    assert_eq!(sub.end_code, vec![90, 0xffff]);
    assert_eq!(sub.start_code, vec![65, 0xffff]);
    assert_eq!(sub.id_delta, vec![-64, 1]);
    assert_eq!(sub.id_range_offset, vec![0, 0]);
    assert!(sub.glyph_id_array.is_empty());
    assert_eq!(sub.char_to_glyph_index(65), Some(1));
    assert_eq!(sub.char_to_glyph_index(0x5a), Some(26));
    assert_eq!(sub.char_to_glyph_index(0x61), None);
    assert_eq!(sub.char_to_glyph_index(0xffff), Some(0));
}

#[test]
fn cmap_errors() {
    let mut v1 = parser(sfnt(&[(b"cmap", cmap(1, 3, 4))]));
    assert_eq!(v1.read_cmap_table().err(), Some(FontError::UnsupportedCmapVersion));
    let mut mac_only = parser(sfnt(&[(b"cmap", cmap(0, 1, 4))]));
    let t = mac_only.read_cmap_table().unwrap();
    assert_eq!(mac_only.read_cmap_subtable(&t, 0).err(), Some(FontError::NoUsableCmapSubtable));
    assert!(mac_only.read_cmap_subtable(&t, 1).is_ok());
    let mut format6 = parser(sfnt(&[(b"cmap", cmap(0, 3, 6))]));
    let t6 = format6.read_cmap_table().unwrap();
    assert_eq!(format6.read_cmap_subtable(&t6, 3).err(), Some(FontError::UnsupportedCmapFormat));
}

#[test]
fn encoding_record_choice_prefers_platform_then_windows() {
    let p = parser(test_font());
    let records = vec![
        EncodingRecord { platform_id: 0, encoding_id: 3, subtable_absolute_offset: 10 },
        EncodingRecord { platform_id: 3, encoding_id: 1, subtable_absolute_offset: 20 },
        EncodingRecord { platform_id: 1, encoding_id: 0, subtable_absolute_offset: 30 },
    ];
    let t = CmapTable { num_tables: 3, encoding_records: records };
    assert_eq!(p.choose_encoding_record(&t, 1).unwrap().subtable_absolute_offset, 30);
    assert_eq!(p.choose_encoding_record(&t, 4).unwrap().subtable_absolute_offset, 20);
    let none = CmapTable { num_tables: 0, encoding_records: vec![] };
    assert_eq!(p.choose_encoding_record(&none, 3), None);
}

#[test]
fn glyph_offsets_short_and_long() {
    let mut p = parser(test_font());
    assert_eq!(p.read_glyph_offsets(5, 0), Ok(vec![0, 0, 20, 20, 38, 56]));
    assert_eq!(p.read_glyph_offsets(5, 2).err(), Some(FontError::InvalidLocaFormat));
    assert_eq!(p.read_glyph_offsets(1000, 0).err(), Some(FontError::OutOfBounds));
    let mut long_form = Vec::new();
    for v in [0u32, 8, 8] {
        long_form.extend_from_slice(&be32(v));
    }
    let mut q = parser(sfnt(&[(b"loca", long_form)]));
    let offsets = q.read_glyph_offsets(2, 1).unwrap();
    assert_eq!(offsets.len(), 3);
    assert_eq!(offsets, vec![0, 8, 8]);
}

#[test]
fn empty_span_gives_empty_glyph() {
    let mut p = parser(test_font());
    let offsets = p.read_glyph_offsets(5, 0).unwrap();
    let hmtx = p.read_hmtx_table(5, 2).unwrap();
    let g = p.read_glyph(&offsets, 2, &hmtx).unwrap();
    assert_eq!(g.glyph_index, 2);
    assert_eq!(g.num_contours, 0);
    assert!(g.x_coordinates.is_empty());
    assert!(g.processed_points.is_empty());
    assert_eq!(g.advance_width, 600);
    let mut no_glyf = parser(sfnt(&[(b"maxp", maxp(1))]));
    let same = vec![4u32, 4];
    let widths = ttf_glyphs::table::HmtxTable { advance_widths: vec![7], left_side_bearings: vec![0] };
    assert_eq!(no_glyf.read_glyph(&same, 0, &widths).unwrap().advance_width, 7);
}

#[test]
fn simple_glyph_outline() {
    let mut p = parser(test_font());
    let offsets = p.read_glyph_offsets(5, 0).unwrap();
    let hmtx = p.read_hmtx_table(5, 2).unwrap();
    let g = p.read_glyph(&offsets, 1, &hmtx).unwrap();
    assert_eq!(g.num_contours, 1);
    assert_eq!((g.xmin, g.ymin, g.xmax, g.ymax), (0, 0, 100, 100));
    assert_eq!(g.flags, vec![0x31, 0x33, 0x27]);
    assert_eq!(g.x_coordinates, vec![0, 100, 50]);
    assert_eq!(g.y_coordinates, vec![0, 0, 100]);
    assert_eq!(g.processed_points, vec![(0, 0), (50, 0), (100, 0), (75, 50), (50, 100), (25, 50)]);
    assert_eq!(g.end_pts_of_contours, vec![5]);
    assert_eq!(g.advance_width, 600);
}

#[test]
fn compound_glyph_is_translated() {
    let mut p = parser(test_font());
    let offsets = p.read_glyph_offsets(5, 0).unwrap();
    let hmtx = p.read_hmtx_table(5, 2).unwrap();
    let g = p.read_glyph(&offsets, 3, &hmtx).unwrap();
    assert_eq!(g.num_contours, 1);
    assert_eq!(g.x_coordinates, vec![100, 200, 150]);
    assert_eq!(g.y_coordinates, vec![0, 0, 100]);
    assert_eq!(g.end_pts_of_contours, vec![5]);
    assert!(g.flags.is_empty());
    assert!(g.processed_points.is_empty());
}

#[test]
fn self_referential_compound_fails() {
    let mut p = parser(test_font());
    let offsets = p.read_glyph_offsets(5, 0).unwrap();
    let hmtx = p.read_hmtx_table(5, 2).unwrap();
    assert_eq!(p.read_glyph(&offsets, 4, &hmtx).err(), Some(FontError::CompoundGlyphCycle));
}

#[test]
fn glyph_index_out_of_range() {
    let mut p = parser(test_font());
    let offsets = p.read_glyph_offsets(5, 0).unwrap();
    let hmtx = p.read_hmtx_table(5, 2).unwrap();
    assert_eq!(p.read_glyph(&offsets, 5, &hmtx).err(), Some(FontError::GlyphIndexOutOfRange));
    let short = ttf_glyphs::table::HmtxTable { advance_widths: vec![1], left_side_bearings: vec![0] };
    assert_eq!(p.read_glyph(&offsets, 1, &short).err(), Some(FontError::GlyphIndexOutOfRange));
    assert_eq!(p.read_glyph(&vec![], 0, &hmtx).err(), Some(FontError::GlyphIndexOutOfRange));
}

#[test]
fn glyph_past_the_end_of_the_file() {
    let mut p = parser(test_font());
    let hmtx = p.read_hmtx_table(5, 2).unwrap();
    let offsets = vec![4000u32, 4010];
    assert_eq!(p.read_glyph(&offsets, 0, &hmtx).err(), Some(FontError::OutOfBounds));
}

/// A compound glyph whose one component has byte arguments and no XY flag.
fn compound_bytes(component: u16, arg1: u8, arg2: u8) -> Vec<u8> {
    let mut g = Vec::new();
    for v in [-1i16, 0, 0, 0, 0] {
        g.extend_from_slice(&v.to_be_bytes());
    }
    g.extend_from_slice(&be16(0x0000));
    g.extend_from_slice(&be16(component));
    g.extend_from_slice(&[arg1, arg2]);
    g
}

/// Glyphs: 0 refers to 1, 1 refers to 0, 2 the triangle, 3 the triangle
/// through byte arguments that are not a translation.
fn cyclic_font() -> (FontParser, Vec<u32>, ttf_glyphs::table::HmtxTable) {
    let mut glyf = compound(1, 0, 0);
    glyf.extend(compound(0, 0, 0));
    glyf.extend(triangle());
    glyf.extend(compound_bytes(2, 7, 9));
    let p = parser(sfnt(&[(b"glyf", glyf)]));
    let offsets = vec![0u32, 18, 36, 56, 72];
    let hmtx = ttf_glyphs::table::HmtxTable { advance_widths: vec![1, 2, 3, 4], left_side_bearings: vec![0; 4] };
    (p, offsets, hmtx)
}

#[test]
fn mutually_referential_compounds_fail() {
    let (mut p, offsets, hmtx) = cyclic_font();
    assert_eq!(p.read_glyph(&offsets, 0, &hmtx).err(), Some(FontError::CompoundGlyphCycle));
    assert_eq!(p.read_glyph(&offsets, 1, &hmtx).err(), Some(FontError::CompoundGlyphCycle));
}

#[test]
fn point_matching_arguments_do_not_move_the_component() {
    let (mut p, offsets, hmtx) = cyclic_font();
    let g = p.read_glyph(&offsets, 3, &hmtx).unwrap();
    assert_eq!(g.x_coordinates, vec![0, 100, 50]);
    assert_eq!(g.y_coordinates, vec![0, 0, 100]);
    assert_eq!(g.advance_width, 4);
}

#[test]
fn cmap_subtable_offset_past_32_bits() {
    let mut t = cmap(0, 3, 4);
    t[8..12].copy_from_slice(&be32(0xffff_fff0));
    let mut p = parser(sfnt(&[(b"cmap", t)]));
    assert_eq!(p.read_cmap_table().err(), Some(FontError::OutOfBounds));
}

#[test]
fn hmtx_without_explicit_metrics_is_an_error() {
    let mut p = parser(test_font());
    assert_eq!(p.read_hmtx_table(5, 0).err(), Some(FontError::MissingHorizontalMetrics));
    let none = p.read_hmtx_table(0, 0).unwrap();
    assert!(none.advance_widths.is_empty());
}

#[test]
fn loca_readers_leave_the_cursor_after_the_table() {
    let mut short = ByteBuffer::new(vec![0, 1, 0, 2, 0, 3, 9]);
    assert_eq!(ttf_glyphs::reader::read_loca_table_16(&mut short, 2), Ok(vec![2, 4, 6]));
    assert_eq!(short.current_position(), 6);
    let mut long = ByteBuffer::new(vec![0, 0, 0, 1, 0, 0, 0, 5]);
    assert_eq!(ttf_glyphs::reader::read_loca_table_32(&mut long, 1), Ok(vec![1, 5]));
    assert_eq!(long.current_position(), 8);
    let mut truncated = ByteBuffer::new(vec![0, 1]);
    assert!(ttf_glyphs::reader::read_loca_table_16(&mut truncated, 1).is_err());
    assert_eq!(truncated.current_position(), 0);
}

/// A simple glyph of one contour: its end index, flag bytes and coordinate bytes.
fn simple(end: u16, flags: &[u8], xy: &[u8]) -> Vec<u8> {
    let mut g = Vec::new();
    for v in [1i16, 0, 0, 0, 0] {
        g.extend_from_slice(&v.to_be_bytes());
    }
    g.extend_from_slice(&be16(end));
    g.extend_from_slice(&be16(0));
    g.extend_from_slice(flags);
    g.extend_from_slice(xy);
    g
}

/// Glyphs: 0 four points from one repeated flag, 1 two short X deltas,
/// 2 two off-curve points then an on-curve one.
fn scenario_font() -> (FontParser, Vec<u32>, ttf_glyphs::table::HmtxTable) {
    let mut glyf = simple(3, &[0x39, 3], &[]);
    glyf.extend(simple(1, &[0x33, 0x23], &[5, 3]));
    glyf.extend(simple(2, &[0x30, 0x36, 0x17], &[10, 10, 10, 10]));
    let p = parser(sfnt(&[(b"glyf", glyf)]));
    let offsets = vec![0u32, 16, 34, 55];
    let hmtx = ttf_glyphs::table::HmtxTable { advance_widths: vec![9, 9, 9], left_side_bearings: vec![0; 3] };
    (p, offsets, hmtx)
}

#[test]
fn glyph_repeat_flag_gives_four_points() {
    let (mut p, offsets, hmtx) = scenario_font();
    let g = p.read_glyph(&offsets, 0, &hmtx).unwrap();
    assert_eq!(g.flags, vec![0x39, 0x39, 0x39, 0x39]);
    assert_eq!(g.x_coordinates, vec![0, 0, 0, 0]);
    assert_eq!(g.y_coordinates, vec![0, 0, 0, 0]);
}

#[test]
fn glyph_short_deltas_accumulate() {
    let (mut p, offsets, hmtx) = scenario_font();
    let g = p.read_glyph(&offsets, 1, &hmtx).unwrap();
    assert_eq!(g.x_coordinates, vec![5, 2]);
    assert_eq!(g.y_coordinates, vec![0, 0]);
}

#[test]
fn glyph_off_curve_pair_gets_a_midpoint() {
    let (mut p, offsets, hmtx) = scenario_font();
    let g = p.read_glyph(&offsets, 2, &hmtx).unwrap();
    assert_eq!(g.x_coordinates, vec![0, 10, 20]);
    assert_eq!(g.y_coordinates, vec![0, 10, 0]);
    assert_eq!(g.processed_points, vec![(0, 0), (5, 5), (10, 10), (20, 0)]);
    assert_eq!(g.end_pts_of_contours, vec![3]);
}
