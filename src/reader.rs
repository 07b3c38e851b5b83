use vstd::prelude::*;

use crate::buffer::{ByteBuffer, be_i16, be_u16, be_u32};
use crate::error::FontError;
use crate::glyph::{
    ARG_1_AND_2_ARE_WORDS,
    ARGS_ARE_XY_VALUES,
    Glyph,
    GlyphView,
    MAX_COMPOUND_DEPTH,
    MORE_COMPONENTS,
    adjusted_ends,
    component_offset,
    component_record_len,
    components_spec,
    glyph_spec,
    translate_coordinates,
};
use crate::outline::{read_simple_outline, synthesize_implied_points};
use crate::table::{
    CmapFormat4,
    CmapTable,
    EncodingRecord,
    HeadTable,
    HheaTable,
    HmtxTable,
    MaxpTable,
    TableName,
    TableRecord,
};

verus! {

/// `sfnt` version of TrueType outlines.
pub const SFNT_VERSION_TRUETYPE: u32 = 0x0001_0000;

/// `sfnt` version tag `OTTO`.
pub const SFNT_VERSION_OTTO: u32 = 0x4F54_544F;

/// The magic number that every `head` table holds.
pub const HEAD_MAGIC_NUMBER: u32 = 0x5F0F_3CF5;

/// The platform whose `cmap` subtable is taken when the preferred one is absent.
pub const FALLBACK_PLATFORM_ID: u16 = 3;

/// The first index at or after `from` whose element satisfies `pred`.
pub open spec fn first_index<T>(s: Seq<T>, pred: spec_fn(T) -> bool, from: int) -> Option<int>
    decreases s.len() - from,
{
    if from < 0 || from >= s.len() {
        None
    } else if pred(s[from]) {
        Some(from)
    } else {
        first_index(s, pred, from + 1)
    }
}

proof fn lemma_first_index_skip<T>(s: Seq<T>, pred: spec_fn(T) -> bool, from: int, to: int)
    requires
        0 <= from <= to,
        forall|j: int| from <= j < to && j < s.len() ==> !pred(#[trigger] s[j]),
    ensures
        first_index(s, pred, from) == first_index(s, pred, to),
    decreases to - from,
{
    if from < to && from < s.len() {
        lemma_first_index_skip(s, pred, from + 1, to);
    }
}

pub open spec fn has_tag(tag: Seq<u8>) -> spec_fn(TableRecord) -> bool {
    |r: TableRecord| r.tag@ == tag
}

/// The offset of the first directory record for `name`.
pub open spec fn table_lookup(records: Seq<TableRecord>, name: TableName) -> Result<u32, FontError> {
    match first_index(records, has_tag(name.spec_tag()), 0) {
        Some(i) => Ok(records[i].absolute_offset),
        None => Err(FontError::TableNotFound(name)),
    }
}

/// The outcome of reading a table directory at `p`.
pub open spec fn directory_status(b: Seq<u8>, p: int) -> Result<(), FontError> {
    if p + 4 > b.len() {
        Err(FontError::OutOfBounds)
    } else if be_u32(b, p) != SFNT_VERSION_TRUETYPE && be_u32(b, p) != SFNT_VERSION_OTTO {
        Err(FontError::UnsupportedFontVersion)
    } else if p + 6 > b.len() || p + 12 + 16 * be_u16(b, p + 4) > b.len() {
        Err(FontError::OutOfBounds)
    } else {
        Ok(())
    }
}

/// Record `i` of the directory at `p`: its tag and the table's offset.
pub open spec fn directory_record_matches(rec: TableRecord, b: Seq<u8>, p: int, i: int) -> bool {
    &&& rec.tag@ == b.subrange(p + 12 + 16 * i, p + 16 + 16 * i)
    &&& rec.absolute_offset == be_u32(b, p + 20 + 16 * i)
}

fn same_tag(a: &[u8; 4], b: &[u8; 4]) -> (r: bool)
    ensures
        r == (a@ == b@),
{
    let r = a[0] == b[0] && a[1] == b[1] && a[2] == b[2] && a[3] == b[3];
    proof {
        if r {
            assert(a@ =~= b@);
        } else {
            assert(a@ != b@) by {
                if a@ == b@ {
                    assert(a@[0] == b@[0] && a@[1] == b@[1] && a@[2] == b@[2] && a@[3] == b@[3]);
                }
            }
        }
    }
    r
}

/// Reads the table directory at the cursor: version, table count, and one
/// `{tag, checksum, offset, length}` record per table; checksum and length
/// are not kept.
pub fn read_table_directory(buffer: &mut ByteBuffer) -> (r: Result<Vec<TableRecord>, FontError>)
    ensures
        final(buffer).data() == old(buffer).data(),
        match r {
            Ok(recs) => {
                let b = old(buffer).data();
                let p = old(buffer).pos();
                &&& directory_status(b, p) is Ok
                &&& recs@.len() == be_u16(b, p + 4)
                &&& forall|i: int|
                    0 <= i < recs@.len() ==> directory_record_matches(#[trigger] recs@[i], b, p, i)
                &&& final(buffer).pos() == p + 12 + 16 * recs@.len()
            },
            Err(e) => directory_status(old(buffer).data(), old(buffer).pos()) == Err::<(), _>(e),
        },
{
    let ghost b = buffer.data();
    let ghost p = buffer.pos();
    let version = buffer.read_u32()?;
    if version != SFNT_VERSION_TRUETYPE && version != SFNT_VERSION_OTTO {
        return Err(FontError::UnsupportedFontVersion);
    }
    let num_tables = buffer.read_u16()?;
    buffer.skip_bytes(6)?;
    let mut records: Vec<TableRecord> = Vec::new();
    let mut i: u16 = 0;
    while i < num_tables
        invariant
            b == old(buffer).data(),
            p == old(buffer).pos(),
            buffer.data() == b,
            p + 12 + 16 * i <= b.len(),
            p + 4 <= b.len(),
            be_u32(b, p) == SFNT_VERSION_TRUETYPE || be_u32(b, p) == SFNT_VERSION_OTTO,
            p + 6 <= b.len(),
            num_tables == be_u16(b, p + 4),
            i <= num_tables,
            buffer.pos() == p + 12 + 16 * i,
            records@.len() == i,
            forall|j: int|
                0 <= j < i ==> directory_record_matches(#[trigger] records@[j], b, p, j),
        decreases num_tables - i,
    {
        let tag = buffer.read_tag()?;
        buffer.skip_bytes(4)?;
        let absolute_offset = buffer.read_u32()?;
        buffer.skip_bytes(4)?;
        records.push(TableRecord { tag, absolute_offset });
        i = i + 1;
    }
    Ok(records)
}

/// The outcome of reading `maxp` at `o`.
pub open spec fn maxp_at(b: Seq<u8>, o: int) -> Result<MaxpTable, FontError> {
    if o + 6 > b.len() {
        Err(FontError::OutOfBounds)
    } else {
        Ok(MaxpTable { num_glyphs: be_u16(b, o + 4) })
    }
}

/// The outcome of reading `head` at `o`: the magic number sits at byte 12,
/// `indexToLocFormat` at byte 50.
pub open spec fn head_at(b: Seq<u8>, o: int) -> Result<HeadTable, FontError> {
    if o + 16 > b.len() {
        Err(FontError::OutOfBounds)
    } else if be_u32(b, o + 12) != HEAD_MAGIC_NUMBER {
        Err(FontError::InvalidMagicNumber)
    } else if o + 52 > b.len() {
        Err(FontError::OutOfBounds)
    } else {
        Ok(HeadTable { index_to_loc_format: be_i16(b, o + 50) })
    }
}

/// The outcome of reading `hhea` at `o`: `numberOfHMetrics` sits at byte 34.
pub open spec fn hhea_at(b: Seq<u8>, o: int) -> Result<HheaTable, FontError> {
    if o + 36 > b.len() {
        Err(FontError::OutOfBounds)
    } else {
        Ok(HheaTable { num_h_metrics: be_u16(b, o + 34) })
    }
}

/// The number of glyphs past the explicit metrics, which carry a bearing only.
pub open spec fn hmtx_tail(num_glyphs: u16, num_h_metrics: u16) -> int {
    if num_glyphs > num_h_metrics {
        num_glyphs - num_h_metrics
    } else {
        0
    }
}

pub open spec fn hmtx_fits(b: Seq<u8>, o: int, num_glyphs: u16, num_h_metrics: u16) -> bool {
    o + 4 * num_h_metrics + 2 * hmtx_tail(num_glyphs, num_h_metrics) <= b.len()
}

/// `t` holds the metrics stored at `o`: explicit pairs first, then bearings
/// whose advance repeats the last explicit one.
pub open spec fn hmtx_matches(
    t: &HmtxTable,
    b: Seq<u8>,
    o: int,
    num_glyphs: u16,
    num_h_metrics: u16,
) -> bool {
    let nh = num_h_metrics as int;
    let n = nh + hmtx_tail(num_glyphs, num_h_metrics);
    &&& t.advance_widths@.len() == n
    &&& t.left_side_bearings@.len() == n
    &&& forall|i: int|
        0 <= i < nh ==> #[trigger] t.advance_widths@[i] == be_u16(b, o + 4 * i)
            && t.left_side_bearings@[i] == be_i16(b, o + 4 * i + 2)
    &&& forall|i: int|
        nh <= i < n ==> #[trigger] t.advance_widths@[i] == be_u16(b, o + 4 * (nh - 1))
            && t.left_side_bearings@[i] == be_i16(b, o + 4 * nh + 2 * (i - nh))
}

/// The outcome of reading the `cmap` header at `o`.
pub open spec fn cmap_status(b: Seq<u8>, o: int) -> Result<(), FontError> {
    if o + 2 > b.len() {
        Err(FontError::OutOfBounds)
    } else if be_u16(b, o) != 0 {
        Err(FontError::UnsupportedCmapVersion)
    } else if o + 4 > b.len() || o + 4 + 8 * be_u16(b, o + 2) > b.len() {
        Err(FontError::OutOfBounds)
    } else if exists|i: int|
        0 <= i < be_u16(b, o + 2) && o + #[trigger] be_u32(b, o + 8 + 8 * i) > u32::MAX {
        Err(FontError::OutOfBounds)
    } else {
        Ok(())
    }
}

/// Encoding record `i` of the `cmap` at `o`, its offset made absolute.
pub open spec fn encoding_record_matches(rec: EncodingRecord, b: Seq<u8>, o: int, i: int) -> bool {
    &&& rec.platform_id == be_u16(b, o + 4 + 8 * i)
    &&& rec.encoding_id == be_u16(b, o + 6 + 8 * i)
    &&& rec.subtable_absolute_offset == o + be_u32(b, o + 8 + 8 * i)
}

pub open spec fn on_platform(platform_id: u16) -> spec_fn(EncodingRecord) -> bool {
    |r: EncodingRecord| r.platform_id == platform_id
}

/// The first record of the preferred platform, else the first of the
/// fallback platform.
pub open spec fn chosen_record(recs: Seq<EncodingRecord>, platform_id: u16) -> Option<
    EncodingRecord,
> {
    match first_index(recs, on_platform(platform_id), 0) {
        Some(i) => Some(recs[i]),
        None => match first_index(recs, on_platform(FALLBACK_PLATFORM_ID), 0) {
            Some(i) => Some(recs[i]),
            None => None,
        },
    }
}

/// The segment count of the format 4 subtable at `s`.
pub open spec fn subtable_segments(b: Seq<u8>, s: int) -> int {
    be_u16(b, s + 6) as int / 2
}

/// The number of glyph ids after the segment arrays of the subtable at `s`.
pub open spec fn subtable_glyph_ids(b: Seq<u8>, s: int) -> int {
    (be_u16(b, s + 2) - 16 - 8 * subtable_segments(b, s)) / 2
}

/// The outcome of decoding the `cmap` subtable at `s`.
pub open spec fn subtable_status(b: Seq<u8>, s: int) -> Result<(), FontError> {
    let n = subtable_segments(b, s);
    if s + 2 > b.len() {
        Err(FontError::OutOfBounds)
    } else if be_u16(b, s) != 4 {
        Err(FontError::UnsupportedCmapFormat)
    } else if s + 16 + 8 * n > b.len() {
        Err(FontError::OutOfBounds)
    } else if be_u16(b, s + 2) < 16 + 8 * n {
        Err(FontError::OutOfBounds)
    } else if s + 16 + 8 * n + 2 * subtable_glyph_ids(b, s) > b.len() {
        Err(FontError::OutOfBounds)
    } else {
        Ok(())
    }
}

/// `t` holds the format 4 subtable stored at `s`.
pub open spec fn subtable_matches(t: &CmapFormat4, b: Seq<u8>, s: int) -> bool {
    let n = subtable_segments(b, s);
    &&& t.format == 4
    &&& t.length == be_u16(b, s + 2)
    &&& t.language == be_u16(b, s + 4)
    &&& t.seg_count_x2 == be_u16(b, s + 6)
    &&& t.search_range == be_u16(b, s + 8)
    &&& t.entry_selector == be_u16(b, s + 10)
    &&& t.range_shift == be_u16(b, s + 12)
    &&& t.end_code@.len() == n
    &&& t.start_code@.len() == n
    &&& t.id_delta@.len() == n
    &&& t.id_range_offset@.len() == n
    &&& t.glyph_id_array@.len() == subtable_glyph_ids(b, s)
    &&& forall|i: int| 0 <= i < n ==> #[trigger] t.end_code@[i] == be_u16(b, s + 14 + 2 * i)
    &&& forall|i: int| 0 <= i < n ==> #[trigger] t.start_code@[i] == be_u16(b, s + 16 + 2 * n + 2 * i)
    &&& forall|i: int| 0 <= i < n ==> #[trigger] t.id_delta@[i] == be_i16(b, s + 16 + 4 * n + 2 * i)
    &&& forall|i: int|
        0 <= i < n ==> #[trigger] t.id_range_offset@[i] == be_u16(b, s + 16 + 6 * n + 2 * i)
    &&& forall|i: int|
        0 <= i < subtable_glyph_ids(b, s) ==> #[trigger] t.glyph_id_array@[i] == be_u16(
            b,
            s + 16 + 8 * n + 2 * i,
        )
}

/// The width in bytes of one `loca` entry.
pub open spec fn loca_width(index_to_loc_format: i16) -> int {
    if index_to_loc_format == 0 {
        2
    } else {
        4
    }
}

/// Entry `i` of the `loca` table at `o`, as a byte offset into `glyf`.
pub open spec fn loca_entry(b: Seq<u8>, o: int, index_to_loc_format: i16, i: int) -> u32 {
    if index_to_loc_format == 0 {
        (2 * be_u16(b, o + 2 * i)) as u32
    } else {
        be_u32(b, o + 4 * i)
    }
}

/// The outcome of reading the glyph offsets.
pub open spec fn loca_status(
    b: Seq<u8>,
    loca: Result<u32, FontError>,
    num_glyphs: u16,
    index_to_loc_format: i16,
) -> Result<(), FontError> {
    if index_to_loc_format != 0 && index_to_loc_format != 1 {
        Err(FontError::InvalidLocaFormat)
    } else {
        match loca {
            Err(e) => Err(e),
            Ok(o) => if o + loca_width(index_to_loc_format) * (num_glyphs + 1) > b.len() {
                Err(FontError::OutOfBounds)
            } else {
                Ok(())
            },
        }
    }
}

/// Reads `num_glyphs + 1` short offsets, each stored halved.
pub fn read_loca_table_16(buffer: &mut ByteBuffer, num_glyphs: u16) -> (r: Result<
    Vec<u32>,
    FontError,
>)
    ensures
        final(buffer).data() == old(buffer).data(),
        match r {
            Ok(v) => old(buffer).has(2 * (num_glyphs + 1)) && v@.len() == num_glyphs + 1
                && forall|i: int|
                0 <= i <= num_glyphs ==> #[trigger] v@[i] == loca_entry(
                    old(buffer).data(),
                    old(buffer).pos(),
                    0,
                    i,
                ),
            Err(e) => !old(buffer).has(2 * (num_glyphs + 1)) && e == FontError::OutOfBounds,
        },
        r is Ok ==> final(buffer).pos() == old(buffer).pos() + 2 * (num_glyphs + 1),
        r is Err ==> *final(buffer) == *old(buffer),
{
    let count: usize = num_glyphs as usize + 1;
    let halves = buffer.read_u16_array(count)?;
    let mut offsets: Vec<u32> = Vec::new();
    let mut i: usize = 0;
    while i < count
        invariant
            count == num_glyphs + 1,
            halves@.len() == count,
            i <= count,
            offsets@.len() == i,
            forall|j: int|
                0 <= j < i ==> #[trigger] offsets@[j] == (2 * halves@[j]) as u32,
        decreases count - i,
    {
        offsets.push(halves[i] as u32 * 2);
        i = i + 1;
    }
    Ok(offsets)
}

/// Reads `num_glyphs + 1` long offsets.
pub fn read_loca_table_32(buffer: &mut ByteBuffer, num_glyphs: u16) -> (r: Result<
    Vec<u32>,
    FontError,
>)
    ensures
        final(buffer).data() == old(buffer).data(),
        match r {
            Ok(v) => old(buffer).has(4 * (num_glyphs + 1)) && v@.len() == num_glyphs + 1
                && forall|i: int|
                0 <= i <= num_glyphs ==> #[trigger] v@[i] == loca_entry(
                    old(buffer).data(),
                    old(buffer).pos(),
                    1,
                    i,
                ),
            Err(e) => !old(buffer).has(4 * (num_glyphs + 1)) && e == FontError::OutOfBounds,
        },
        r is Ok ==> final(buffer).pos() == old(buffer).pos() + 4 * (num_glyphs + 1),
        r is Err ==> *final(buffer) == *old(buffer),
{
    buffer.read_u32_array(num_glyphs as usize + 1)
}

/// A decoder for one font: its bytes, behind a cursor, and its table directory.
pub struct FontParser {
    buffer: ByteBuffer,
    table_records: Vec<TableRecord>,
}

impl FontParser {
    pub closed spec fn bytes(&self) -> Seq<u8> {
        self.buffer.data()
    }

    pub closed spec fn records(&self) -> Seq<TableRecord> {
        self.table_records@
    }

    /// Where the table `name` starts, or why it cannot be found.
    pub open spec fn table(&self, name: TableName) -> Result<u32, FontError> {
        table_lookup(self.records(), name)
    }

    /// Decoding moves only the cursor: the bytes and the directory stay.
    pub open spec fn same_font(&self, other: &FontParser) -> bool {
        self.bytes() == other.bytes() && self.records() == other.records()
    }

    pub fn new(buffer: ByteBuffer, table_records: Vec<TableRecord>) -> (r: FontParser)
        ensures
            r.bytes() == buffer.data(),
            r.records() == table_records@,
    {
        FontParser { buffer, table_records }
    }

    /// Looks a table up by tag, scanning the directory in order.
    pub fn find_table(&self, name: TableName) -> (r: Result<u32, FontError>)
        ensures
            r == self.table(name),
    {
        let tag = name.as_tag();
        let n = self.table_records.len();
        let mut i: usize = 0;
        while i < n
            invariant
                n == self.table_records@.len(),
                tag@ == name.spec_tag(),
                i <= n,
                forall|j: int|
                    0 <= j < i ==> !has_tag(name.spec_tag())(#[trigger] self.table_records@[j]),
            decreases n - i,
        {
            if same_tag(&self.table_records[i].tag, &tag) {
                proof {
                    lemma_first_index_skip(self.records(), has_tag(name.spec_tag()), 0, i as int);
                }
                return Ok(self.table_records[i].absolute_offset);
            }
            i = i + 1;
        }
        proof {
            lemma_first_index_skip(self.records(), has_tag(name.spec_tag()), 0, n as int);
        }
        Err(FontError::TableNotFound(name))
    }

    /// Puts the cursor at the start of table `name`.
    fn seek_table(&mut self, name: TableName) -> (r: Result<u32, FontError>)
        ensures
            final(self).same_font(old(self)),
            r == old(self).table(name),
            r matches Ok(o) ==> final(self).buffer.pos() == o,
    {
        let o = self.find_table(name)?;
        self.buffer.set_position(o as usize);
        Ok(o)
    }

    pub fn read_maxp_table(&mut self) -> (r: Result<MaxpTable, FontError>)
        ensures
            final(self).same_font(old(self)),
            r == (match old(self).table(TableName::Maxp) {
                Ok(o) => maxp_at(old(self).bytes(), o as int),
                Err(e) => Err(e),
            }),
    {
        self.seek_table(TableName::Maxp)?;
        self.buffer.skip_bytes(4)?;
        let num_glyphs = self.buffer.read_u16()?;
        Ok(MaxpTable { num_glyphs })
    }

    pub fn read_head_table(&mut self) -> (r: Result<HeadTable, FontError>)
        ensures
            final(self).same_font(old(self)),
            r == (match old(self).table(TableName::Head) {
                Ok(o) => head_at(old(self).bytes(), o as int),
                Err(e) => Err(e),
            }),
    {
        self.seek_table(TableName::Head)?;
        self.buffer.skip_bytes(12)?;
        let magic_number = self.buffer.read_u32()?;
        if magic_number != HEAD_MAGIC_NUMBER {
            return Err(FontError::InvalidMagicNumber);
        }
        self.buffer.skip_bytes(34)?;
        let index_to_loc_format = self.buffer.read_i16()?;
        Ok(HeadTable { index_to_loc_format })
    }

    pub fn read_hhea_table(&mut self) -> (r: Result<HheaTable, FontError>)
        ensures
            final(self).same_font(old(self)),
            r == (match old(self).table(TableName::Hhea) {
                Ok(o) => hhea_at(old(self).bytes(), o as int),
                Err(e) => Err(e),
            }),
    {
        self.seek_table(TableName::Hhea)?;
        self.buffer.skip_bytes(34)?;
        let num_h_metrics = self.buffer.read_u16()?;
        Ok(HheaTable { num_h_metrics })
    }
}

impl FontParser {
    /// Reads `num_h_metrics` explicit `(advance, bearing)` pairs, then one
    /// bearing for each further glyph up to `num_glyphs`, which reuses the
    /// last explicit advance. Without any explicit metric there is no
    /// advance to reuse, and glyphs fail with `MissingHorizontalMetrics`.
    pub fn read_hmtx_table(&mut self, num_glyphs: u16, num_h_metrics: u16) -> (r: Result<
        HmtxTable,
        FontError,
    >)
        ensures
            final(self).same_font(old(self)),
            num_h_metrics == 0 && num_glyphs > 0 ==> r == Err::<HmtxTable, _>(
                FontError::MissingHorizontalMetrics,
            ),
            num_h_metrics > 0 || num_glyphs == 0 ==> match old(self).table(TableName::Hmtx) {
                Err(e) => r == Err::<HmtxTable, _>(e),
                Ok(o) => match r {
                    Ok(t) => hmtx_fits(old(self).bytes(), o as int, num_glyphs, num_h_metrics)
                        && hmtx_matches(&t, old(self).bytes(), o as int, num_glyphs, num_h_metrics),
                    Err(e) => !hmtx_fits(old(self).bytes(), o as int, num_glyphs, num_h_metrics)
                        && e == FontError::OutOfBounds,
                },
            },
    {
        if num_h_metrics == 0 && num_glyphs > 0 {
            return Err(FontError::MissingHorizontalMetrics);
        }
        let o = self.seek_table(TableName::Hmtx)?;
        let ghost b = self.bytes();
        let tail: usize = if num_glyphs > num_h_metrics {
            (num_glyphs - num_h_metrics) as usize
        } else {
            0
        };
        let need: usize = 4 * num_h_metrics as usize + 2 * tail;
        if self.buffer.remaining() < need || self.buffer.current_position() > self.buffer.len() {
            return Err(FontError::OutOfBounds);
        }
        assert(hmtx_fits(b, o as int, num_glyphs, num_h_metrics));
        let mut advance_widths: Vec<u16> = Vec::new();
        let mut left_side_bearings: Vec<i16> = Vec::new();
        let mut i: u16 = 0;
        while i < num_h_metrics
            invariant
                b == self.bytes(),
                self.same_font(old(self)),
                o + need <= b.len(),
                need == 4 * num_h_metrics + 2 * tail,
                i <= num_h_metrics,
                self.buffer.pos() == o + 4 * i,
                advance_widths@.len() == i,
                left_side_bearings@.len() == i,
                forall|j: int|
                    0 <= j < i ==> #[trigger] advance_widths@[j] == be_u16(b, o + 4 * j)
                        && left_side_bearings@[j] == be_i16(b, o + 4 * j + 2),
            decreases num_h_metrics - i,
        {
            let aw = self.buffer.read_u16()?;
            let lsb = self.buffer.read_i16()?;
            advance_widths.push(aw);
            left_side_bearings.push(lsb);
            i = i + 1;
        }
        if tail > 0 {
            let last = advance_widths[advance_widths.len() - 1];
            let bearings = self.buffer.read_i16_array(tail)?;
            let mut k: usize = 0;
            while k < tail
                invariant
                    b == self.bytes(),
                    hmtx_fits(b, o as int, num_glyphs, num_h_metrics),
                    tail == num_glyphs - num_h_metrics,
                    num_h_metrics > 0,
                    last == be_u16(b, o + 4 * (num_h_metrics - 1)),
                    bearings@.len() == tail,
                    forall|j: int|
                        0 <= j < tail ==> #[trigger] bearings@[j] == be_i16(
                            b,
                            o + 4 * num_h_metrics + 2 * j,
                        ),
                    k <= tail,
                    advance_widths@.len() == num_h_metrics + k,
                    left_side_bearings@.len() == num_h_metrics + k,
                    forall|j: int|
                        0 <= j < num_h_metrics ==> #[trigger] advance_widths@[j] == be_u16(
                            b,
                            o + 4 * j,
                        ) && left_side_bearings@[j] == be_i16(b, o + 4 * j + 2),
                    forall|j: int|
                        num_h_metrics <= j < num_h_metrics + k ==> #[trigger] advance_widths@[j]
                            == last && left_side_bearings@[j] == bearings@[j - num_h_metrics],
                decreases tail - k,
            {
                advance_widths.push(last);
                left_side_bearings.push(bearings[k]);
                k = k + 1;
            }
            assert forall|j: int|
                num_h_metrics <= j < num_h_metrics + tail implies #[trigger] advance_widths@[j]
                    == be_u16(b, o + 4 * (num_h_metrics - 1)) && left_side_bearings@[j] == be_i16(
                    b,
                    o + 4 * num_h_metrics + 2 * (j - num_h_metrics),
                ) by {
                assert(advance_widths@[j] == last);
                assert(left_side_bearings@[j] == bearings@[j - num_h_metrics]);
                assert(bearings@[j - num_h_metrics] == be_i16(
                    b,
                    o + 4 * num_h_metrics + 2 * (j - num_h_metrics),
                ));
            }
        }
        let t = HmtxTable { advance_widths, left_side_bearings };
        assert(hmtx_fits(b, o as int, num_glyphs, num_h_metrics));
        assert(hmtx_matches(&t, b, o as int, num_glyphs, num_h_metrics));
        Ok(t)
    }

    /// Reads the `cmap` header and its encoding records.
    pub fn read_cmap_table(&mut self) -> (r: Result<CmapTable, FontError>)
        ensures
            final(self).same_font(old(self)),
            match old(self).table(TableName::Cmap) {
                Err(e) => r == Err::<CmapTable, _>(e),
                Ok(o) => match r {
                    Ok(t) => {
                        let b = old(self).bytes();
                        &&& cmap_status(b, o as int) is Ok
                        &&& t.num_tables == be_u16(b, o + 2)
                        &&& t.encoding_records@.len() == t.num_tables
                        &&& forall|i: int|
                            0 <= i < t.num_tables ==> encoding_record_matches(
                                #[trigger] t.encoding_records@[i],
                                b,
                                o as int,
                                i,
                            )
                    },
                    Err(e) => cmap_status(old(self).bytes(), o as int) == Err::<(), _>(e),
                },
            },
    {
        let o = self.seek_table(TableName::Cmap)?;
        let ghost b = self.bytes();
        let version = self.buffer.read_u16()?;
        if version != 0 {
            return Err(FontError::UnsupportedCmapVersion);
        }
        let num_tables = self.buffer.read_u16()?;
        if self.buffer.remaining() < 8 * num_tables as usize {
            return Err(FontError::OutOfBounds);
        }
        let mut encoding_records: Vec<EncodingRecord> = Vec::new();
        let mut i: u16 = 0;
        while i < num_tables
            invariant
                b == self.bytes(),
                self.same_font(old(self)),
                old(self).table(TableName::Cmap) == Ok::<u32, FontError>(o),
                o + 4 + 8 * num_tables <= b.len(),
                be_u16(b, o as int) == 0,
                num_tables == be_u16(b, o + 2),
                i <= num_tables,
                self.buffer.pos() == o + 4 + 8 * i,
                encoding_records@.len() == i,
                forall|j: int|
                    0 <= j < i ==> encoding_record_matches(
                        #[trigger] encoding_records@[j],
                        b,
                        o as int,
                        j,
                    ),
            decreases num_tables - i,
        {
            let platform_id = self.buffer.read_u16()?;
            let encoding_id = self.buffer.read_u16()?;
            let subtable_offset = self.buffer.read_u32()?;
            if subtable_offset > u32::MAX - o {
                assert(o + be_u32(b, o + 8 + 8 * i) > u32::MAX);
                return Err(FontError::OutOfBounds);
            }
            encoding_records.push(
                EncodingRecord {
                    platform_id,
                    encoding_id,
                    subtable_absolute_offset: o + subtable_offset,
                },
            );
            i = i + 1;
        }
        proof {
            assert forall|j: int| 0 <= j < be_u16(b, o + 2) implies !(o + #[trigger] be_u32(
                b,
                o + 8 + 8 * j,
            ) > u32::MAX) by {
                assert(encoding_record_matches(encoding_records@[j], b, o as int, j));
            }
        }
        Ok(CmapTable { num_tables, encoding_records })
    }

    /// Picks the subtable of `platform_id`, else of the fallback platform.
    pub fn choose_encoding_record(&self, cmap_table: &CmapTable, platform_id: u16) -> (r: Option<
        EncodingRecord,
    >)
        ensures
            r == chosen_record(cmap_table.encoding_records@, platform_id),
    {
        match find_platform(&cmap_table.encoding_records, platform_id) {
            Some(i) => Some(cmap_table.encoding_records[i]),
            None => match find_platform(&cmap_table.encoding_records, FALLBACK_PLATFORM_ID) {
                Some(i) => Some(cmap_table.encoding_records[i]),
                None => None,
            },
        }
    }

    /// Decodes the format 4 subtable that `choose_encoding_record` selects.
    pub fn read_cmap_subtable(&mut self, cmap_table: &CmapTable, platform_id: u16) -> (r: Result<
        CmapFormat4,
        FontError,
    >)
        ensures
            final(self).same_font(old(self)),
            match chosen_record(cmap_table.encoding_records@, platform_id) {
                None => r == Err::<CmapFormat4, _>(FontError::NoUsableCmapSubtable),
                Some(rec) => match r {
                    Ok(t) => {
                        let s = rec.subtable_absolute_offset as int;
                        &&& subtable_status(old(self).bytes(), s) is Ok
                        &&& subtable_matches(&t, old(self).bytes(), s)
                        &&& t.wf()
                    },
                    Err(e) => subtable_status(
                        old(self).bytes(),
                        rec.subtable_absolute_offset as int,
                    ) == Err::<(), _>(e),
                },
            },
    {
        let rec = match self.choose_encoding_record(cmap_table, platform_id) {
            Some(rec) => rec,
            None => {
                return Err(FontError::NoUsableCmapSubtable);
            },
        };
        let ghost b = self.bytes();
        let ghost s = rec.subtable_absolute_offset as int;
        self.buffer.set_position(rec.subtable_absolute_offset as usize);
        let format = self.buffer.read_u16()?;
        if format != 4 {
            return Err(FontError::UnsupportedCmapFormat);
        }
        if self.buffer.remaining() < 14 {
            return Err(FontError::OutOfBounds);
        }
        let length = self.buffer.read_u16()?;
        let language = self.buffer.read_u16()?;
        let seg_count_x2 = self.buffer.read_u16()?;
        let search_range = self.buffer.read_u16()?;
        let entry_selector = self.buffer.read_u16()?;
        let range_shift = self.buffer.read_u16()?;
        let seg_count: usize = (seg_count_x2 / 2) as usize;
        if self.buffer.remaining() < 8 * seg_count + 2 {
            return Err(FontError::OutOfBounds);
        }
        let end_code = self.buffer.read_u16_array(seg_count)?;
        let _reserved_pad = self.buffer.read_u16()?;
        let start_code = self.buffer.read_u16_array(seg_count)?;
        let id_delta = self.buffer.read_i16_array(seg_count)?;
        let id_range_offset = self.buffer.read_u16_array(seg_count)?;
        if (length as usize) < 16 + 8 * seg_count {
            return Err(FontError::OutOfBounds);
        }
        let glyph_id_count: usize = (length as usize - (16 + 8 * seg_count)) / 2;
        let glyph_id_array = self.buffer.read_u16_array(glyph_id_count)?;
        let t = CmapFormat4 {
            format,
            length,
            language,
            seg_count_x2,
            search_range,
            entry_selector,
            range_shift,
            end_code,
            start_code,
            id_delta,
            id_range_offset,
            glyph_id_array,
        };
        Ok(t)
    }

    /// Reads the `loca` table: `num_glyphs + 1` byte offsets into `glyf`.
    pub fn read_glyph_offsets(&mut self, num_glyphs: u16, index_to_loc_format: i16) -> (r: Result<
        Vec<u32>,
        FontError,
    >)
        ensures
            final(self).same_font(old(self)),
            match r {
                Ok(v) => {
                    let b = old(self).bytes();
                    let o = old(self).table(TableName::Loca)->Ok_0 as int;
                    &&& loca_status(
                        b,
                        old(self).table(TableName::Loca),
                        num_glyphs,
                        index_to_loc_format,
                    ) is Ok
                    &&& v@.len() == num_glyphs + 1
                    &&& forall|i: int|
                        0 <= i <= num_glyphs ==> #[trigger] v@[i] == loca_entry(
                            b,
                            o,
                            index_to_loc_format,
                            i,
                        )
                },
                Err(e) => loca_status(
                    old(self).bytes(),
                    old(self).table(TableName::Loca),
                    num_glyphs,
                    index_to_loc_format,
                ) == Err::<(), _>(e),
            },
    {
        if index_to_loc_format == 0 {
            self.seek_table(TableName::Loca)?;
            read_loca_table_16(&mut self.buffer, num_glyphs)
        } else if index_to_loc_format == 1 {
            self.seek_table(TableName::Loca)?;
            read_loca_table_32(&mut self.buffer, num_glyphs)
        } else {
            Err(FontError::InvalidLocaFormat)
        }
    }
}

/// The index of the first record of `platform_id`.
fn find_platform(recs: &Vec<EncodingRecord>, platform_id: u16) -> (r: Option<usize>)
    ensures
        match r {
            Some(i) => first_index(recs@, on_platform(platform_id), 0) == Some(i as int) && i
                < recs@.len(),
            None => first_index(recs@, on_platform(platform_id), 0) is None,
        },
{
    let mut i: usize = 0;
    while i < recs.len()
        invariant
            i <= recs@.len(),
            forall|j: int| 0 <= j < i ==> !on_platform(platform_id)(#[trigger] recs@[j]),
        decreases recs@.len() - i,
    {
        if recs[i].platform_id == platform_id {
            proof {
                lemma_first_index_skip(recs@, on_platform(platform_id), 0, i as int);
            }
            return Some(i);
        }
        i = i + 1;
    }
    proof {
        lemma_first_index_skip(recs@, on_platform(platform_id), 0, i as int);
    }
    None
}


impl FontParser {
    /// The glyph that `glyph_index` decodes to, with no enclosing compound.
    pub open spec fn glyph_result(&self, offsets: Seq<u32>, widths: Seq<u16>, glyph_index: u16) -> Result<
        GlyphView,
        FontError,
    > {
        glyph_spec(
            self.bytes(),
            self.table(TableName::Glyf),
            offsets,
            widths,
            glyph_index,
            Seq::empty(),
            MAX_COMPOUND_DEPTH as nat,
        )
    }

    /// Decodes glyph `glyph_index`: an empty glyph when its span is empty,
    /// else a simple glyph with its implied points, or a compound glyph made
    /// of its translated components.
    pub fn read_glyph(&mut self, glyph_offsets: &Vec<u32>, glyph_index: u16, hmtx_table: &HmtxTable) -> (r:
        Result<Glyph, FontError>)
        ensures
            final(self).same_font(old(self)),
            match r {
                Ok(g) => old(self).glyph_result(
                    glyph_offsets@,
                    hmtx_table.advance_widths@,
                    glyph_index,
                ) == Ok::<GlyphView, FontError>(g@),
                Err(e) => old(self).glyph_result(
                    glyph_offsets@,
                    hmtx_table.advance_widths@,
                    glyph_index,
                ) == Err::<GlyphView, FontError>(e),
            },
    {
        let ancestors: Vec<u16> = Vec::new();
        self.read_glyph_nested(glyph_offsets, glyph_index, hmtx_table, &ancestors, MAX_COMPOUND_DEPTH)
    }

    fn read_glyph_nested(
        &mut self,
        glyph_offsets: &Vec<u32>,
        glyph_index: u16,
        hmtx_table: &HmtxTable,
        ancestors: &Vec<u16>,
        depth: usize,
    ) -> (r: Result<Glyph, FontError>)
        ensures
            final(self).same_font(old(self)),
            match r {
                Ok(g) => glyph_spec(
                    old(self).bytes(),
                    old(self).table(TableName::Glyf),
                    glyph_offsets@,
                    hmtx_table.advance_widths@,
                    glyph_index,
                    ancestors@,
                    depth as nat,
                ) == Ok::<GlyphView, FontError>(g@),
                Err(e) => glyph_spec(
                    old(self).bytes(),
                    old(self).table(TableName::Glyf),
                    glyph_offsets@,
                    hmtx_table.advance_widths@,
                    glyph_index,
                    ancestors@,
                    depth as nat,
                ) == Err::<GlyphView, FontError>(e),
            },
        decreases depth, 0int,
    {
        let idx = glyph_index as usize;
        if idx + 1 >= glyph_offsets.len() || idx >= hmtx_table.advance_widths.len() {
            return Err(FontError::GlyphIndexOutOfRange);
        }
        let start = glyph_offsets[idx];
        let end = glyph_offsets[idx + 1];
        let advance_width = hmtx_table.advance_widths[idx];
        if start == end {
            let g = Glyph {
                glyph_index,
                num_contours: 0,
                xmin: 0,
                ymin: 0,
                xmax: 0,
                ymax: 0,
                end_pts_of_contours: Vec::new(),
                x_coordinates: Vec::new(),
                y_coordinates: Vec::new(),
                flags: Vec::new(),
                processed_points: Vec::new(),
                advance_width,
            };
            assert(g@ =~= crate::glyph::empty_glyph(glyph_index, advance_width));
            return Ok(g);
        }
        let glyf = self.find_table(TableName::Glyf)?;
        let base = glyf as usize;
        let total = self.buffer.len();
        if start as usize > usize::MAX - base {
            assert(base + start + 10 > total);
            return Err(FontError::OutOfBounds);
        }
        let pos = base + start as usize;
        let ghost b = self.bytes();
        self.buffer.set_position(pos);
        let num_contours = self.buffer.read_i16()?;
        let xmin = self.buffer.read_i16()?;
        let ymin = self.buffer.read_i16()?;
        let xmax = self.buffer.read_i16()?;
        let ymax = self.buffer.read_i16()?;
        if num_contours >= 0 {
            let (ends, flags, xs, ys) = read_simple_outline(
                &mut self.buffer,
                num_contours as usize,
            )?;
            let (points, adjusted) = synthesize_implied_points(&flags, &xs, &ys, &ends)?;
            assert(adjusted@ =~= adjusted_ends(flags@, xs@, ys@, ends@));
            Ok(
                Glyph {
                    glyph_index,
                    num_contours,
                    xmin,
                    ymin,
                    xmax,
                    ymax,
                    end_pts_of_contours: adjusted,
                    x_coordinates: xs,
                    y_coordinates: ys,
                    flags,
                    processed_points: points,
                    advance_width,
                },
            )
        } else if depth == 0 {
            Err(FontError::CompoundGlyphCycle)
        } else {
            let inner = with_ancestor(ancestors, glyph_index);
            let body = self.buffer.current_position();
            let (xs, ys, ends) = self.read_components(
                glyph_offsets,
                hmtx_table,
                &inner,
                depth - 1,
                body,
            )?;
            if ends.len() > 0x7fff {
                return Err(FontError::MalformedGlyph);
            }
            Ok(
                Glyph {
                    glyph_index,
                    num_contours: ends.len() as i16,
                    xmin,
                    ymin,
                    xmax,
                    ymax,
                    end_pts_of_contours: ends,
                    x_coordinates: xs,
                    y_coordinates: ys,
                    flags: Vec::new(),
                    processed_points: Vec::new(),
                    advance_width,
                },
            )
        }
    }

    /// Reads the component records at `start` and decodes each component.
    fn read_components(
        &mut self,
        glyph_offsets: &Vec<u32>,
        hmtx_table: &HmtxTable,
        ancestors: &Vec<u16>,
        depth: usize,
        start: usize,
    ) -> (r: Result<(Vec<i16>, Vec<i16>, Vec<u16>), FontError>)
        ensures
            final(self).same_font(old(self)),
            match r {
                Ok((xs, ys, ends)) => components_spec(
                    old(self).bytes(),
                    old(self).table(TableName::Glyf),
                    glyph_offsets@,
                    hmtx_table.advance_widths@,
                    ancestors@,
                    depth as nat,
                    start as int,
                    (Seq::empty(), Seq::empty(), Seq::empty()),
                ) == Ok::<_, FontError>((xs@, ys@, ends@)),
                Err(e) => components_spec(
                    old(self).bytes(),
                    old(self).table(TableName::Glyf),
                    glyph_offsets@,
                    hmtx_table.advance_widths@,
                    ancestors@,
                    depth as nat,
                    start as int,
                    (Seq::empty(), Seq::empty(), Seq::empty()),
                ) == Err::<(Seq<i16>, Seq<i16>, Seq<u16>), _>(e),
            },
        decreases depth, 1int,
    {
        let ghost b = self.bytes();
        let ghost glyf = self.table(TableName::Glyf);
        let ghost goal = components_spec(
            b,
            glyf,
            glyph_offsets@,
            hmtx_table.advance_widths@,
            ancestors@,
            depth as nat,
            start as int,
            (Seq::empty(), Seq::empty(), Seq::empty()),
        );
        let mut xs: Vec<i16> = Vec::new();
        let mut ys: Vec<i16> = Vec::new();
        let mut ends: Vec<u16> = Vec::new();
        let mut pos = start;
        loop
            invariant
                self.same_font(old(self)),
                b == old(self).bytes(),
                glyf == old(self).table(TableName::Glyf),
                goal == components_spec(
                    b,
                    glyf,
                    glyph_offsets@,
                    hmtx_table.advance_widths@,
                    ancestors@,
                    depth as nat,
                    start as int,
                    (Seq::empty(), Seq::empty(), Seq::empty()),
                ),
                components_spec(
                    b,
                    glyf,
                    glyph_offsets@,
                    hmtx_table.advance_widths@,
                    ancestors@,
                    depth as nat,
                    pos as int,
                    (xs@, ys@, ends@),
                ) == goal,
            decreases b.len() - pos,
        {
            self.buffer.set_position(pos);
            let flags = self.buffer.read_u16()?;
            let component = self.buffer.read_u16()?;
            let words = flags & ARG_1_AND_2_ARE_WORDS != 0;
            let (arg1, arg2): (i16, i16) = if words {
                let a1 = self.buffer.read_i16()?;
                let a2 = self.buffer.read_i16()?;
                (a1, a2)
            } else {
                let a1 = self.buffer.read_u8()?;
                let a2 = self.buffer.read_u8()?;
                (a1 as i16, a2 as i16)
            };
            let (dx, dy): (i16, i16) = if flags & ARGS_ARE_XY_VALUES != 0 {
                (arg1, arg2)
            } else {
                (0, 0)
            };
            let len: usize = if words {
                8
            } else {
                6
            };
            let next = self.buffer.current_position();
            assert(next == pos + len);
            if contains_id(ancestors, component) {
                return Err(FontError::CompoundGlyphCycle);
            }
            let mut sub = self.read_glyph_nested(
                glyph_offsets,
                component,
                hmtx_table,
                ancestors,
                depth,
            )?;
            translate_coordinates(&mut sub.x_coordinates, dx);
            translate_coordinates(&mut sub.y_coordinates, dy);
            xs.append(&mut sub.x_coordinates);
            ys.append(&mut sub.y_coordinates);
            ends.append(&mut sub.end_pts_of_contours);
            if flags & MORE_COMPONENTS == 0 {
                return Ok((xs, ys, ends));
            }
            pos = next;
        }
    }
}

/// Whether `id` is among `ids`.
fn contains_id(ids: &Vec<u16>, id: u16) -> (r: bool)
    ensures
        r == ids@.contains(id),
{
    let mut i: usize = 0;
    while i < ids.len()
        invariant
            i <= ids@.len(),
            forall|j: int| 0 <= j < i ==> ids@[j] != id,
        decreases ids@.len() - i,
    {
        if ids[i] == id {
            return true;
        }
        i = i + 1;
    }
    false
}

/// `ids` with `id` added at the end.
fn with_ancestor(ids: &Vec<u16>, id: u16) -> (r: Vec<u16>)
    ensures
        r@ == ids@.push(id),
{
    let mut out: Vec<u16> = Vec::new();
    let mut i: usize = 0;
    while i < ids.len()
        invariant
            i <= ids@.len(),
            out@ == ids@.subrange(0, i as int),
        decreases ids@.len() - i,
    {
        out.push(ids[i]);
        i = i + 1;
        assert(out@ =~= ids@.subrange(0, i as int));
    }
    out.push(id);
    assert(out@ =~= ids@.push(id));
    out
}

/// The raw value of `loca` entry `i`, before short offsets are doubled.
pub open spec fn loca_raw(b: Seq<u8>, o: int, index_to_loc_format: i16, i: int) -> int {
    if index_to_loc_format == 0 {
        be_u16(b, o + 2 * i) as int
    } else {
        be_u32(b, o + 4 * i) as int
    }
}

/// The glyph offsets hold `num_glyphs + 1` entries for either format, and
/// they are non-decreasing whenever the stored entries are: doubling the
/// short form keeps their order.
pub proof fn lemma_glyph_offsets_shape(
    b: Seq<u8>,
    o: int,
    num_glyphs: u16,
    index_to_loc_format: i16,
    offsets: Seq<u32>,
)
    requires
        index_to_loc_format == 0 || index_to_loc_format == 1,
        offsets.len() == num_glyphs + 1,
        forall|i: int|
            0 <= i <= num_glyphs ==> #[trigger] offsets[i] == loca_entry(b, o, index_to_loc_format, i),
        forall|i: int|
            0 <= i < num_glyphs ==> #[trigger] loca_raw(b, o, index_to_loc_format, i) <= loca_raw(
                b,
                o,
                index_to_loc_format,
                i + 1,
            ),
    ensures
        offsets.len() == num_glyphs + 1,
        forall|i: int| 0 <= i < num_glyphs ==> #[trigger] offsets[i] <= offsets[i + 1],
{
    assert forall|i: int| 0 <= i < num_glyphs implies #[trigger] offsets[i] <= offsets[i + 1] by {
        assert(loca_raw(b, o, index_to_loc_format, i) <= loca_raw(b, o, index_to_loc_format, i + 1));
        assert(offsets[i + 1] == loca_entry(b, o, index_to_loc_format, i + 1));
    }
}

} // verus!
