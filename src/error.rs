use vstd::prelude::*;

use crate::table::TableName;

verus! {

/// Everything that can go wrong while decoding a font.
#[derive(Debug, Clone, Copy, PartialEq, Eq, Structural)]
pub enum FontError {
    /// A read or skip would move the cursor past the end of the buffer.
    OutOfBounds,
    /// The table directory has no record with this tag.
    TableNotFound(TableName),
    /// The file does not start with a known SFNT version tag.
    UnsupportedFontVersion,
    /// The `head` table does not hold its magic number.
    InvalidMagicNumber,
    /// The `cmap` header version is not 0.
    UnsupportedCmapVersion,
    /// The selected `cmap` subtable is not in the segmented format 4.
    UnsupportedCmapFormat,
    /// No `cmap` encoding record matches the platform or the Windows fallback.
    NoUsableCmapSubtable,
    /// `hmtx` would have glyphs but no explicit metric whose advance width
    /// they could reuse (`numberOfHMetrics` is 0).
    MissingHorizontalMetrics,
    /// `indexToLocFormat` is neither 0 nor 1.
    InvalidLocaFormat,
    /// The glyph id has no span in the offset table or no horizontal metric.
    GlyphIndexOutOfRange,
    /// A compound glyph refers back to itself, or nests too deeply.
    CompoundGlyphCycle,
    /// The contour end indices of a simple glyph do not increase, or its
    /// outline has more points than 16-bit indices can address.
    MalformedGlyph,
}

} // verus!
