use vstd::prelude::*;

verus! {

/// The tables that the decoder looks up in the table directory.
#[derive(Debug, Clone, Copy, PartialEq, Eq, Structural)]
pub enum TableName {
    Maxp,
    Cmap,
    Head,
    Hhea,
    Hmtx,
    Loca,
    Glyf,
}

impl TableName {
    /// The four ASCII bytes that identify the table in the directory.
    pub open spec fn spec_tag(self) -> Seq<u8> {
        match self {
            TableName::Maxp => seq![0x6d, 0x61, 0x78, 0x70],
            TableName::Cmap => seq![0x63, 0x6d, 0x61, 0x70],
            TableName::Head => seq![0x68, 0x65, 0x61, 0x64],
            TableName::Hhea => seq![0x68, 0x68, 0x65, 0x61],
            TableName::Hmtx => seq![0x68, 0x6d, 0x74, 0x78],
            TableName::Loca => seq![0x6c, 0x6f, 0x63, 0x61],
            TableName::Glyf => seq![0x67, 0x6c, 0x79, 0x66],
        }
    }

    pub fn as_tag(&self) -> (r: [u8; 4])
        ensures
            r@ == self.spec_tag(),
    {
        let r = match self {
            TableName::Maxp => [0x6d, 0x61, 0x78, 0x70],
            TableName::Cmap => [0x63, 0x6d, 0x61, 0x70],
            TableName::Head => [0x68, 0x65, 0x61, 0x64],
            TableName::Hhea => [0x68, 0x68, 0x65, 0x61],
            TableName::Hmtx => [0x68, 0x6d, 0x74, 0x78],
            TableName::Loca => [0x6c, 0x6f, 0x63, 0x61],
            TableName::Glyf => [0x67, 0x6c, 0x79, 0x66],
        };
        assert(r@ =~= self.spec_tag());
        r
    }
}

/// One entry of the table directory.
#[derive(Debug, Clone, Copy)]
pub struct TableRecord {
    pub tag: [u8; 4],
    pub absolute_offset: u32,
}

#[derive(Debug, Clone, Copy, PartialEq, Eq, Structural)]
pub struct MaxpTable {
    pub num_glyphs: u16,
}

#[derive(Debug, Clone, Copy, PartialEq, Eq, Structural)]
pub struct HeadTable {
    pub index_to_loc_format: i16,
}

#[derive(Debug, Clone, Copy, PartialEq, Eq, Structural)]
pub struct HheaTable {
    pub num_h_metrics: u16,
}

/// Horizontal metrics, one advance width and one left side bearing per glyph.
#[derive(Debug)]
pub struct HmtxTable {
    pub advance_widths: Vec<u16>,
    pub left_side_bearings: Vec<i16>,
}

/// One `cmap` encoding record; the subtable offset is absolute in the file.
#[derive(Debug, Clone, Copy, PartialEq, Eq, Structural)]
pub struct EncodingRecord {
    pub platform_id: u16,
    pub encoding_id: u16,
    pub subtable_absolute_offset: u32,
}

#[derive(Debug)]
pub struct CmapTable {
    pub num_tables: u16,
    pub encoding_records: Vec<EncodingRecord>,
}

/// A segmented (format 4) character to glyph mapping.
#[derive(Debug)]
pub struct CmapFormat4 {
    pub format: u16,
    pub length: u16,
    pub language: u16,
    pub seg_count_x2: u16,
    pub search_range: u16,
    pub entry_selector: u16,
    pub range_shift: u16,
    pub end_code: Vec<u16>,
    pub start_code: Vec<u16>,
    pub id_delta: Vec<i16>,
    pub id_range_offset: Vec<u16>,
    pub glyph_id_array: Vec<u16>,
}

impl CmapFormat4 {
    /// The four segment arrays run in parallel.
    pub open spec fn wf(&self) -> bool {
        &&& self.start_code@.len() == self.end_code@.len()
        &&& self.id_delta@.len() == self.end_code@.len()
        &&& self.id_range_offset@.len() == self.end_code@.len()
    }

    pub open spec fn seg_count(&self) -> int {
        self.end_code@.len() as int
    }

    pub open spec fn covers(&self, i: int, code: u16) -> bool {
        self.start_code@[i] <= code <= self.end_code@[i]
    }

    /// The first segment at or after `from` whose range holds `code`.
    pub open spec fn first_covering(&self, code: u16, from: int) -> Option<int>
        decreases self.seg_count() - from,
    {
        if from < 0 || from >= self.seg_count() {
            None
        } else if self.covers(from, code) {
            Some(from)
        } else {
            self.first_covering(code, from + 1)
        }
    }

    /// Where segment `i` sends `code`: by delta modulo 65536, or through the
    /// glyph id array at the offset counted from the segment's own
    /// `idRangeOffset` entry; nothing where that offset leaves the array.
    pub open spec fn segment_glyph(&self, i: int, code: u16) -> Option<u16> {
        if self.id_range_offset@[i] == 0 {
            Some(((code + self.id_delta@[i]) % 0x1_0000) as u16)
        } else {
            let idx = self.id_range_offset@[i] / 2 + (code - self.start_code@[i]) - (
            self.seg_count() - i);
            if 0 <= idx < self.glyph_id_array@.len() {
                Some(self.glyph_id_array@[idx])
            } else {
                None
            }
        }
    }

    /// The glyph of `code`, from the first segment that covers it.
    pub open spec fn lookup(&self, code: u16) -> Option<u16> {
        match self.first_covering(code, 0) {
            Some(i) => self.segment_glyph(i, code),
            None => None,
        }
    }

    proof fn lemma_skip(&self, code: u16, from: int, to: int)
        requires
            0 <= from <= to,
            forall|j: int| from <= j < to && j < self.seg_count() ==> !self.covers(j, code),
        ensures
            self.first_covering(code, from) == self.first_covering(code, to),
        decreases to - from,
    {
        if from < to && from < self.seg_count() {
            self.lemma_skip(code, from + 1, to);
        }
    }

    /// Maps a character code to a glyph id; `None` when no segment covers it.
    pub fn char_to_glyph_index(&self, char_code: u16) -> (r: Option<u16>)
        requires
            self.wf(),
        ensures
            r == self.lookup(char_code),
    {
        let n = self.end_code.len();
        let mut i: usize = 0;
        while i < n
            invariant
                self.wf(),
                n == self.seg_count(),
                i <= n,
                forall|j: int| 0 <= j < i ==> !self.covers(j, char_code),
            decreases n - i,
        {
            if char_code >= self.start_code[i] && char_code <= self.end_code[i] {
                proof {
                    self.lemma_skip(char_code, 0, i as int);
                }
                if self.id_range_offset[i] == 0 {
                    let sum: i32 = char_code as i32 + self.id_delta[i] as i32;
                    let g: i32 = if sum < 0 {
                        sum + 0x1_0000
                    } else if sum >= 0x1_0000 {
                        sum - 0x1_0000
                    } else {
                        sum
                    };
                    return Some(g as u16);
                } else {
                    let base: usize = (self.id_range_offset[i] / 2) as usize + (char_code
                        - self.start_code[i]) as usize;
                    let back: usize = n - i;
                    if base < back {
                        return None;
                    }
                    let idx = base - back;
                    if idx < self.glyph_id_array.len() {
                        return Some(self.glyph_id_array[idx]);
                    }
                    return None;
                }
            }
            i = i + 1;
        }
        proof {
            self.lemma_skip(char_code, 0, n as int);
        }
        None
    }
}

} // verus!
