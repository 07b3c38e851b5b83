use vstd::prelude::*;

use crate::buffer::{be_i16, be_u16};
use crate::error::FontError;
use crate::outline::{
    X_IS_SAME_OR_POSITIVE,
    X_SHORT_VECTOR,
    Y_IS_SAME_OR_POSITIVE,
    Y_SHORT_VECTOR,
    ends_at,
    flags_from,
    implied_ok,
    lemma_coords_len,
    lemma_flags_len,
    outline_points,
    point_count,
    simple_parts,
    wrap16,
    wrapping_add16,
};

verus! {

/// Component flag: the two arguments are signed 16-bit words, not bytes.
pub const ARG_1_AND_2_ARE_WORDS: u16 = 0x0001;

/// Component flag: the arguments are an `(dx, dy)` translation.
pub const ARGS_ARE_XY_VALUES: u16 = 0x0002;

/// Component flag: another component record follows.
pub const MORE_COMPONENTS: u16 = 0x0020;

/// How many compound levels a glyph may nest.
pub const MAX_COMPOUND_DEPTH: usize = 8;

/// A decoded glyph outline.
#[derive(Debug)]
pub struct Glyph {
    pub glyph_index: u16,
    pub num_contours: i16,
    pub xmin: i16,
    pub ymin: i16,
    pub xmax: i16,
    pub ymax: i16,
    /// Index of each contour's last point in `processed_points`.
    pub end_pts_of_contours: Vec<u16>,
    pub x_coordinates: Vec<i16>,
    pub y_coordinates: Vec<i16>,
    pub flags: Vec<u8>,
    /// The points of every contour with the implied on-curve points inserted.
    pub processed_points: Vec<(i16, i16)>,
    pub advance_width: u16,
}

/// The mathematical value of a `Glyph`.
pub struct GlyphView {
    pub glyph_index: u16,
    pub num_contours: i16,
    pub xmin: i16,
    pub ymin: i16,
    pub xmax: i16,
    pub ymax: i16,
    pub end_pts: Seq<u16>,
    pub xs: Seq<i16>,
    pub ys: Seq<i16>,
    pub flags: Seq<u8>,
    pub points: Seq<(i16, i16)>,
    pub advance_width: u16,
}

impl View for Glyph {
    type V = GlyphView;

    open spec fn view(&self) -> GlyphView {
        GlyphView {
            glyph_index: self.glyph_index,
            num_contours: self.num_contours,
            xmin: self.xmin,
            ymin: self.ymin,
            xmax: self.xmax,
            ymax: self.ymax,
            end_pts: self.end_pts_of_contours@,
            xs: self.x_coordinates@,
            ys: self.y_coordinates@,
            flags: self.flags@,
            points: self.processed_points@,
            advance_width: self.advance_width,
        }
    }
}

/// A glyph without contours or points, such as a space.
pub open spec fn empty_glyph(glyph_index: u16, advance_width: u16) -> GlyphView {
    GlyphView {
        glyph_index,
        num_contours: 0,
        xmin: 0,
        ymin: 0,
        xmax: 0,
        ymax: 0,
        end_pts: Seq::empty(),
        xs: Seq::empty(),
        ys: Seq::empty(),
        flags: Seq::empty(),
        points: Seq::empty(),
        advance_width,
    }
}

/// Every coordinate moved by `d`, modulo 2^16.
pub open spec fn shift(v: Seq<i16>, d: i16) -> Seq<i16> {
    Seq::new(v.len(), |i: int| wrap16(v[i] + d))
}

/// The adjusted contour ends of a simple glyph.
pub open spec fn adjusted_ends(flags: Seq<u8>, xs: Seq<i16>, ys: Seq<i16>, ends: Seq<u16>) -> Seq<
    u16,
> {
    Seq::new(ends.len(), |c: int| (outline_points(flags, xs, ys, ends, c + 1).len() - 1) as u16)
}

/// The length of a component record with these flags.
pub open spec fn component_record_len(flags: u16) -> int {
    if flags & ARG_1_AND_2_ARE_WORDS != 0 {
        8
    } else {
        6
    }
}

/// The translation of the component record at `pos`: its arguments when
/// they are XY values, else none.
pub open spec fn component_offset(b: Seq<u8>, pos: int, flags: u16) -> (i16, i16) {
    if flags & ARGS_ARE_XY_VALUES == 0 {
        (0, 0)
    } else if flags & ARG_1_AND_2_ARE_WORDS != 0 {
        (be_i16(b, pos + 4), be_i16(b, pos + 6))
    } else {
        (b[pos + 4] as i16, b[pos + 5] as i16)
    }
}

/// The glyph that `glyph_index` decodes to in the font bytes `b`, given the
/// `glyf` table's offset, the glyph offsets and the advance widths.
/// `ancestors` are the compound glyphs that contain this one, and `depth`
/// the compound levels still allowed.
pub open spec fn glyph_spec(
    b: Seq<u8>,
    glyf: Result<u32, FontError>,
    offsets: Seq<u32>,
    widths: Seq<u16>,
    glyph_index: u16,
    ancestors: Seq<u16>,
    depth: nat,
) -> Result<GlyphView, FontError>
    decreases depth, 0int,
{
    let id = glyph_index as int;
    if id + 1 >= offsets.len() || id >= widths.len() {
        Err(FontError::GlyphIndexOutOfRange)
    } else if offsets[id] == offsets[id + 1] {
        Ok(empty_glyph(glyph_index, widths[id]))
    } else {
        match glyf {
            Err(e) => Err(e),
            Ok(g) => {
                let pos = g + offsets[id];
                if pos + 10 > b.len() {
                    Err(FontError::OutOfBounds)
                } else if be_i16(b, pos) >= 0 {
                    match simple_parts(b, pos + 10, be_i16(b, pos) as int) {
                        Err(e) => Err(e),
                        Ok((ends, f, xs, ys)) => if !implied_ok(f, xs, ys, ends) {
                            Err(FontError::MalformedGlyph)
                        } else {
                            Ok(
                                GlyphView {
                                    glyph_index,
                                    num_contours: be_i16(b, pos),
                                    xmin: be_i16(b, pos + 2),
                                    ymin: be_i16(b, pos + 4),
                                    xmax: be_i16(b, pos + 6),
                                    ymax: be_i16(b, pos + 8),
                                    end_pts: adjusted_ends(f, xs, ys, ends),
                                    xs,
                                    ys,
                                    flags: f,
                                    points: outline_points(f, xs, ys, ends, ends.len() as int),
                                    advance_width: widths[id],
                                },
                            )
                        },
                    }
                } else if depth == 0 {
                    Err(FontError::CompoundGlyphCycle)
                } else {
                    match components_spec(
                        b,
                        glyf,
                        offsets,
                        widths,
                        ancestors.push(glyph_index),
                        (depth - 1) as nat,
                        pos + 10,
                        (Seq::empty(), Seq::empty(), Seq::empty()),
                    ) {
                        Err(e) => Err(e),
                        Ok((xs, ys, ends)) => if ends.len() > 0x7fff {
                            Err(FontError::MalformedGlyph)
                        } else {
                            Ok(
                                GlyphView {
                                    glyph_index,
                                    num_contours: ends.len() as i16,
                                    xmin: be_i16(b, pos + 2),
                                    ymin: be_i16(b, pos + 4),
                                    xmax: be_i16(b, pos + 6),
                                    ymax: be_i16(b, pos + 8),
                                    end_pts: ends,
                                    xs,
                                    ys,
                                    flags: Seq::empty(),
                                    points: Seq::empty(),
                                    advance_width: widths[id],
                                },
                            )
                        },
                    }
                }
            },
        }
    }
}

/// The component records from `pos` on, appended to `acc`: each component
/// glyph's X and Y coordinates, translated, and its contour ends.
pub open spec fn components_spec(
    b: Seq<u8>,
    glyf: Result<u32, FontError>,
    offsets: Seq<u32>,
    widths: Seq<u16>,
    ancestors: Seq<u16>,
    depth: nat,
    pos: int,
    acc: (Seq<i16>, Seq<i16>, Seq<u16>),
) -> Result<(Seq<i16>, Seq<i16>, Seq<u16>), FontError>
    decreases depth, b.len() - pos,
{
    if pos < 0 || pos + 4 > b.len() {
        Err(FontError::OutOfBounds)
    } else {
        let flags = be_u16(b, pos);
        let component = be_u16(b, pos + 2);
        let len = component_record_len(flags);
        if pos + len > b.len() {
            Err(FontError::OutOfBounds)
        } else if ancestors.contains(component) {
            Err(FontError::CompoundGlyphCycle)
        } else {
            match glyph_spec(b, glyf, offsets, widths, component, ancestors, depth) {
                Err(e) => Err(e),
                Ok(sub) => {
                    let (dx, dy) = component_offset(b, pos, flags);
                    let next = (
                        acc.0 + shift(sub.xs, dx),
                        acc.1 + shift(sub.ys, dy),
                        acc.2 + sub.end_pts,
                    );
                    if flags & MORE_COMPONENTS != 0 {
                        components_spec(b, glyf, offsets, widths, ancestors, depth, pos + len, next)
                    } else {
                        Ok(next)
                    }
                },
            }
        }
    }
}

/// Moves every coordinate by `d`, modulo 2^16.
pub fn translate_coordinates(v: &mut Vec<i16>, d: i16)
    ensures
        final(v)@ == shift(old(v)@, d),
{
    let n = v.len();
    let mut i: usize = 0;
    while i < n
        invariant
            n == v@.len(),
            n == old(v)@.len(),
            i <= n,
            forall|j: int| 0 <= j < i ==> #[trigger] v@[j] == wrap16(old(v)@[j] + d),
            forall|j: int| i <= j < n ==> #[trigger] v@[j] == old(v)@[j],
        decreases n - i,
    {
        let moved = wrapping_add16(v[i], d as i32);
        v.set(i, moved);
        i = i + 1;
    }
    assert(v@ =~= shift(old(v)@, d));
}

/// A glyph whose span in `glyf` is empty decodes to an empty glyph, never to
/// an error, whatever the bytes and whether `glyf` exists; its id must have
/// an advance width.
pub proof fn lemma_empty_span(
    b: Seq<u8>,
    glyf: Result<u32, FontError>,
    offsets: Seq<u32>,
    widths: Seq<u16>,
    glyph_index: u16,
    ancestors: Seq<u16>,
    depth: nat,
)
    requires
        glyph_index + 1 < offsets.len(),
        glyph_index < widths.len(),
        offsets[glyph_index as int] == offsets[glyph_index + 1],
    ensures
        glyph_spec(b, glyf, offsets, widths, glyph_index, ancestors, depth) matches Ok(g) && g.num_contours
            == 0 && g.end_pts.len() == 0 && g.xs.len() == 0 && g.ys.len() == 0 && g.points.len() == 0,
{
}

/// A component whose arguments are XY values moves every X coordinate of the
/// decoded sub-glyph by `dx` and every Y coordinate by `dy`, and keeps its
/// contour ends; a zero `dy` leaves Y as it was.
pub proof fn lemma_component_translation(
    b: Seq<u8>,
    glyf: Result<u32, FontError>,
    offsets: Seq<u32>,
    widths: Seq<u16>,
    ancestors: Seq<u16>,
    depth: nat,
    pos: int,
    sub: GlyphView,
)
    requires
        0 <= pos,
        pos + component_record_len(be_u16(b, pos)) <= b.len(),
        be_u16(b, pos) & ARGS_ARE_XY_VALUES != 0,
        be_u16(b, pos) & MORE_COMPONENTS == 0,
        !ancestors.contains(be_u16(b, pos + 2)),
        glyph_spec(b, glyf, offsets, widths, be_u16(b, pos + 2), ancestors, depth) == Ok::<
            GlyphView,
            FontError,
        >(sub),
    ensures
        components_spec(
            b,
            glyf,
            offsets,
            widths,
            ancestors,
            depth,
            pos,
            (Seq::empty(), Seq::empty(), Seq::empty()),
        ) matches Ok((xs, ys, ends)) && xs.len() == sub.xs.len() && ys.len() == sub.ys.len()
            && ends == sub.end_pts && (forall|i: int|
            0 <= i < xs.len() ==> #[trigger] xs[i] == wrap16(
                sub.xs[i] + component_offset(b, pos, be_u16(b, pos)).0,
            )) && (forall|i: int|
            0 <= i < ys.len() ==> #[trigger] ys[i] == wrap16(
                sub.ys[i] + component_offset(b, pos, be_u16(b, pos)).1,
            )) && (component_offset(b, pos, be_u16(b, pos)).1 == 0 ==> ys == sub.ys),
{
    let (dx, dy) = component_offset(b, pos, be_u16(b, pos));
    let e: Seq<i16> = Seq::empty();
    assert(e + shift(sub.xs, dx) =~= shift(sub.xs, dx));
    assert(e + shift(sub.ys, dy) =~= shift(sub.ys, dy));
    assert(Seq::<u16>::empty() + sub.end_pts =~= sub.end_pts);
    if dy == 0 {
        assert(shift(sub.ys, dy) =~= sub.ys);
    }
}

/// A compound glyph whose component refers to the glyph itself fails with
/// `CompoundGlyphCycle` instead of recursing.
pub proof fn lemma_self_reference(
    b: Seq<u8>,
    glyf: Result<u32, FontError>,
    offsets: Seq<u32>,
    widths: Seq<u16>,
    glyph_index: u16,
    ancestors: Seq<u16>,
    depth: nat,
)
    requires
        glyph_index + 1 < offsets.len(),
        glyph_index < widths.len(),
        offsets[glyph_index as int] != offsets[glyph_index + 1],
        glyf is Ok,
        ({
            let pos = glyf->Ok_0 + offsets[glyph_index as int];
            &&& pos + 10 + component_record_len(be_u16(b, pos + 10)) <= b.len()
            &&& be_i16(b, pos) < 0
            &&& be_u16(b, pos + 12) == glyph_index
        }),
    ensures
        glyph_spec(b, glyf, offsets, widths, glyph_index, ancestors, depth) == Err::<
            GlyphView,
            FontError,
        >(FontError::CompoundGlyphCycle),
{
    let inner = ancestors.push(glyph_index);
    assert(inner[inner.len() - 1] == glyph_index);
    assert(inner.contains(glyph_index));
}

/// Where the data of glyph `glyph_index` starts, once `glyf` is found.
pub open spec fn glyph_pos(glyf: Result<u32, FontError>, offsets: Seq<u32>, glyph_index: u16) -> int {
    glyf->Ok_0 + offsets[glyph_index as int]
}

/// The glyph's data is a header that announces a compound glyph.
pub open spec fn is_compound(
    b: Seq<u8>,
    glyf: Result<u32, FontError>,
    offsets: Seq<u32>,
    widths: Seq<u16>,
    glyph_index: u16,
) -> bool {
    let id = glyph_index as int;
    &&& id + 1 < offsets.len()
    &&& id < widths.len()
    &&& offsets[id] != offsets[id + 1]
    &&& glyf is Ok
    &&& glyph_pos(glyf, offsets, glyph_index) + 10 <= b.len()
    &&& be_i16(b, glyph_pos(glyf, offsets, glyph_index)) < 0
}

/// A glyph that is not compound decodes the same inside any compound glyph
/// as on its own.
pub proof fn lemma_not_compound_stands_alone(
    b: Seq<u8>,
    glyf: Result<u32, FontError>,
    offsets: Seq<u32>,
    widths: Seq<u16>,
    glyph_index: u16,
    a1: Seq<u16>,
    d1: nat,
    a2: Seq<u16>,
    d2: nat,
)
    requires
        !is_compound(b, glyf, offsets, widths, glyph_index),
    ensures
        glyph_spec(b, glyf, offsets, widths, glyph_index, a1, d1) == glyph_spec(
            b,
            glyf,
            offsets,
            widths,
            glyph_index,
            a2,
            d2,
        ),
{
}

/// A simple glyph holds exactly as many flags as its contour ends announce
/// points, one X and one Y per flag, the flags being the expanded run-length
/// stream; its header and advance width are kept.
pub proof fn lemma_simple_glyph_shape(
    b: Seq<u8>,
    glyf: Result<u32, FontError>,
    offsets: Seq<u32>,
    widths: Seq<u16>,
    glyph_index: u16,
    ancestors: Seq<u16>,
    depth: nat,
)
    requires
        glyph_index + 1 < offsets.len(),
        glyph_index < widths.len(),
        offsets[glyph_index as int] != offsets[glyph_index + 1],
        glyf is Ok,
        glyph_pos(glyf, offsets, glyph_index) + 10 <= b.len(),
        be_i16(b, glyph_pos(glyf, offsets, glyph_index)) >= 0,
    ensures
        glyph_spec(b, glyf, offsets, widths, glyph_index, ancestors, depth) matches Ok(g) ==> {
            let pos = glyph_pos(glyf, offsets, glyph_index);
            let nc = be_i16(b, pos) as int;
            let p1 = pos + 10 + 2 * nc;
            let n = point_count(ends_at(b, pos + 10, nc));
            &&& g.flags.len() == n
            &&& g.flags == flags_from(b, p1 + 2 + be_u16(b, p1), Seq::empty(), n)->Some_0.0
            &&& g.xs.len() == n
            &&& g.ys.len() == n
            &&& g.num_contours == be_i16(b, pos)
            &&& g.xmin == be_i16(b, pos + 2) && g.ymin == be_i16(b, pos + 4)
            &&& g.xmax == be_i16(b, pos + 6) && g.ymax == be_i16(b, pos + 8)
            &&& g.advance_width == widths[glyph_index as int]
            &&& g.glyph_index == glyph_index
        },
{
    let pos = glyph_pos(glyf, offsets, glyph_index);
    let nc = be_i16(b, pos) as int;
    let p1 = pos + 10 + 2 * nc;
    let n = point_count(ends_at(b, pos + 10, nc));
    let p2 = p1 + 2 + be_u16(b, p1);
    if n >= 0 {
        lemma_flags_len(b, p2, Seq::empty(), n);
    }
    if let Some((f, p3)) = flags_from(b, p2, Seq::empty(), n) {
        lemma_coords_len(b, p3, f, 0, 0, Seq::empty(), X_SHORT_VECTOR, X_IS_SAME_OR_POSITIVE);
        if let Some((xs, p4)) = coords_from_x(b, p3, f) {
            lemma_coords_len(b, p4, f, 0, 0, Seq::empty(), Y_SHORT_VECTOR, Y_IS_SAME_OR_POSITIVE);
        }
    }
}

spec fn coords_from_x(b: Seq<u8>, p: int, f: Seq<u8>) -> Option<(Seq<i16>, int)> {
    crate::outline::coords_from(b, p, f, 0, 0, Seq::empty(), X_SHORT_VECTOR, X_IS_SAME_OR_POSITIVE)
}

/// A compound glyph of one component with XY arguments `(dx, dy)` holds the
/// component glyph, decoded on its own, with every X moved by `dx` and every
/// Y by `dy`, and the component's contour ends. The component must not be
/// compound itself: nested compounds decode with one level less.
pub proof fn lemma_compound_translation(
    b: Seq<u8>,
    glyf: Result<u32, FontError>,
    offsets: Seq<u32>,
    widths: Seq<u16>,
    glyph_index: u16,
    ancestors: Seq<u16>,
    depth: nat,
    sub: GlyphView,
)
    requires
        is_compound(b, glyf, offsets, widths, glyph_index),
        depth >= 1,
        ({
            let rec = glyph_pos(glyf, offsets, glyph_index) + 10;
            let flags = be_u16(b, rec);
            let component = be_u16(b, rec + 2);
            &&& rec + component_record_len(flags) <= b.len()
            &&& flags & ARGS_ARE_XY_VALUES != 0
            &&& flags & MORE_COMPONENTS == 0
            &&& component != glyph_index
            &&& !ancestors.contains(component)
            &&& !is_compound(b, glyf, offsets, widths, component)
            &&& glyph_spec(
                b,
                glyf,
                offsets,
                widths,
                component,
                Seq::empty(),
                MAX_COMPOUND_DEPTH as nat,
            ) == Ok::<GlyphView, FontError>(sub)
        }),
        sub.end_pts.len() <= 0x7fff,
    ensures
        glyph_spec(b, glyf, offsets, widths, glyph_index, ancestors, depth) matches Ok(g) && {
            let rec = glyph_pos(glyf, offsets, glyph_index) + 10;
            let (dx, dy) = component_offset(b, rec, be_u16(b, rec));
            &&& g.glyph_index == glyph_index
            &&& g.xs == shift(sub.xs, dx)
            &&& g.ys == shift(sub.ys, dy)
            &&& g.end_pts == sub.end_pts
            &&& g.num_contours == sub.end_pts.len()
        },
{
    let rec = glyph_pos(glyf, offsets, glyph_index) + 10;
    let component = be_u16(b, rec + 2);
    let inner = ancestors.push(glyph_index);
    assert(!inner.contains(component)) by {
        if inner.contains(component) {
            let k = choose|k: int| 0 <= k < inner.len() && inner[k] == component;
            if k < ancestors.len() {
                assert(ancestors[k] == component);
            }
        }
    }
    lemma_not_compound_stands_alone(
        b,
        glyf,
        offsets,
        widths,
        component,
        inner,
        (depth - 1) as nat,
        Seq::empty(),
        MAX_COMPOUND_DEPTH as nat,
    );
    lemma_component_translation(b, glyf, offsets, widths, inner, (depth - 1) as nat, rec, sub);
}

/// A component record that names the glyph itself or any glyph containing
/// it fails with `CompoundGlyphCycle` before any recursion.
pub proof fn lemma_cycle_record(
    b: Seq<u8>,
    glyf: Result<u32, FontError>,
    offsets: Seq<u32>,
    widths: Seq<u16>,
    ancestors: Seq<u16>,
    depth: nat,
    pos: int,
    acc: (Seq<i16>, Seq<i16>, Seq<u16>),
)
    requires
        0 <= pos,
        pos + component_record_len(be_u16(b, pos)) <= b.len(),
        ancestors.contains(be_u16(b, pos + 2)),
    ensures
        components_spec(b, glyf, offsets, widths, ancestors, depth, pos, acc) == Err::<
            (Seq<i16>, Seq<i16>, Seq<u16>),
            FontError,
        >(FontError::CompoundGlyphCycle),
{
}

/// A compound glyph nested deeper than the bound fails with
/// `CompoundGlyphCycle`.
pub proof fn lemma_depth_exhausted(
    b: Seq<u8>,
    glyf: Result<u32, FontError>,
    offsets: Seq<u32>,
    widths: Seq<u16>,
    glyph_index: u16,
    ancestors: Seq<u16>,
)
    requires
        is_compound(b, glyf, offsets, widths, glyph_index),
    ensures
        glyph_spec(b, glyf, offsets, widths, glyph_index, ancestors, 0) == Err::<
            GlyphView,
            FontError,
        >(FontError::CompoundGlyphCycle),
{
}

} // verus!
