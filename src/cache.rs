use std::collections::HashMap;
use vstd::prelude::*;

use crate::glyph::{Glyph, GlyphView};

verus! {

broadcast use vstd::std_specs::hash::group_hash_axioms;

/// A zoom factor held exactly as the ratio `num / den`.
#[derive(Clone, Copy, Debug)]
pub struct Zoom {
    num: u32,
    den: u32,
}

impl Zoom {
    #[verifier::type_invariant]
    spec fn inv(&self) -> bool {
        self.den > 0
    }

    pub closed spec fn spec_num(&self) -> u32 {
        self.num
    }

    pub closed spec fn spec_den(&self) -> u32 {
        self.den
    }

    /// The zoom `num / den`; none for a zero denominator.
    pub fn new(num: u32, den: u32) -> (r: Option<Zoom>)
        ensures
            r is Some <==> den > 0,
            r matches Some(z) ==> z.spec_num() == num && z.spec_den() == den,
    {
        if den == 0 {
            None
        } else {
            Some(Zoom { num, den })
        }
    }

    pub fn numerator(&self) -> (r: u32)
        ensures
            r == self.spec_num(),
    {
        self.num
    }

    pub fn denominator(&self) -> (r: u32)
        ensures
            r == self.spec_den(),
            r > 0,
    {
        proof {
            use_type_invariant(self);
        }
        self.den
    }

    pub open spec fn same_as(&self, other: Zoom) -> bool {
        self.spec_num() == other.spec_num() && self.spec_den() == other.spec_den()
    }
}

/// `x` limited to the 16-bit range.
pub open spec fn clamp16(x: int) -> i16 {
    if x > 0x7fff {
        0x7fff
    } else if x < -0x8000 {
        -0x8000i16
    } else {
        x as i16
    }
}

/// `v` times the zoom, rounded toward zero and limited to 16 bits.
pub open spec fn scale(v: int, z: Zoom) -> i16 {
    let p = v * z.spec_num();
    if p >= 0 {
        clamp16(p / z.spec_den() as int)
    } else {
        clamp16(-((-p) / z.spec_den() as int))
    }
}

/// The least value of `s`, 0 when it is empty.
pub open spec fn seq_min(s: Seq<i16>) -> i16
    decreases s.len(),
{
    if s.len() == 0 {
        0
    } else if s.len() == 1 {
        s[0]
    } else if s.last() < seq_min(s.drop_last()) {
        s.last()
    } else {
        seq_min(s.drop_last())
    }
}

/// The greatest value of `s`, 0 when it is empty.
pub open spec fn seq_max(s: Seq<i16>) -> i16
    decreases s.len(),
{
    if s.len() == 0 {
        0
    } else if s.len() == 1 {
        s[0]
    } else if s.last() > seq_max(s.drop_last()) {
        s.last()
    } else {
        seq_max(s.drop_last())
    }
}

/// The glyph's processed points with the bounding box's min corner moved to
/// the origin, then zoomed.
pub open spec fn scaled_points(g: GlyphView, z: Zoom) -> Seq<(i16, i16)> {
    Seq::new(
        g.points.len(),
        |i: int|
            (
                scale(g.points[i].0 - seq_min(g.xs), z),
                scale(g.points[i].1 - seq_min(g.ys), z),
            ),
    )
}

/// The zoomed bounding box `(xmin, xmax, ymin, ymax)` of the raw coordinates.
pub open spec fn scaled_box(g: GlyphView, z: Zoom) -> (i16, i16, i16, i16) {
    (
        scale(seq_min(g.xs) as int, z),
        scale(seq_max(g.xs) as int, z),
        scale(seq_min(g.ys) as int, z),
        scale(seq_max(g.ys) as int, z),
    )
}

/// A glyph's outline prepared for drawing at one zoom.
#[derive(Debug)]
pub struct CachedGlyphData {
    pub scaled_points: Vec<(i16, i16)>,
    pub bounding_box: (i16, i16, i16, i16),
}

impl CachedGlyphData {
    /// The entry holds glyph `g` at zoom `z`.
    pub open spec fn holds(&self, g: GlyphView, z: Zoom) -> bool {
        self.scaled_points@ == scaled_points(g, z) && self.bounding_box == scaled_box(g, z)
    }
}

/// Zoomed outlines by glyph id, all computed at the cache's current zoom.
pub struct GlyphCache {
    cache: HashMap<u16, CachedGlyphData>,
    zoom: Option<Zoom>,
}

/// Scales one coordinate difference.
pub fn scale_coordinate(v: i32, z: Zoom) -> (r: i16)
    ensures
        r == scale(v as int, z),
{
    let num = z.numerator();
    let den = z.denominator();
    proof {
        assert(-0x8000_0000 * 0x1_0000_0000 < v * num < 0x8000_0000 * 0x1_0000_0000) by (nonlinear_arith)
            requires
                -0x8000_0000 <= v < 0x8000_0000,
                0 <= num < 0x1_0000_0000,
        ;
    }
    let p: i64 = v as i64 * num as i64;
    let mag: u64 = if p >= 0 {
        p as u64
    } else {
        (-p) as u64
    };
    let q: u64 = mag / den as u64;
    let limit: u64 = if p >= 0 {
        0x7fff
    } else {
        0x8000
    };
    if q > limit {
        if p >= 0 {
            0x7fff
        } else {
            -0x8000
        }
    } else if p >= 0 {
        q as i16
    } else {
        -(q as i32) as i16
    }
}

fn min_max(s: &Vec<i16>) -> (r: (i16, i16))
    ensures
        r.0 == seq_min(s@),
        r.1 == seq_max(s@),
{
    if s.len() == 0 {
        return (0, 0);
    }
    let mut lo = s[0];
    let mut hi = s[0];
    let mut i: usize = 1;
    assert(s@.subrange(0, 1) =~= seq![s@[0]]);
    while i < s.len()
        invariant
            1 <= i <= s@.len(),
            lo == seq_min(s@.subrange(0, i as int)),
            hi == seq_max(s@.subrange(0, i as int)),
        decreases s@.len() - i,
    {
        assert(s@.subrange(0, i + 1).drop_last() =~= s@.subrange(0, i as int));
        if s[i] < lo {
            lo = s[i];
        }
        if s[i] > hi {
            hi = s[i];
        }
        i = i + 1;
    }
    assert(s@.subrange(0, s@.len() as int) =~= s@);
    (lo, hi)
}

impl GlyphCache {
    /// The cached entries by glyph id.
    pub closed spec fn entries(&self) -> Map<u16, CachedGlyphData> {
        self.cache@
    }

    /// The zoom that every entry was computed at, once one was.
    pub closed spec fn current_zoom(&self) -> Option<Zoom> {
        self.zoom
    }

    pub fn new() -> (r: GlyphCache)
        ensures
            r.entries() == Map::<u16, CachedGlyphData>::empty(),
            r.current_zoom() is None,
    {
        GlyphCache { cache: HashMap::new(), zoom: None }
    }

    /// Computes glyph `glyph` at `zoom_level` and stores it under its id. A
    /// zoom other than the current one first drops every entry.
    pub fn update_cache(&mut self, glyph: &Glyph, zoom_level: Zoom)
        ensures
            final(self).current_zoom() == Some(zoom_level),
            final(self).entries().dom() == (if old(self).current_zoom() matches Some(z)
                && z.same_as(zoom_level) {
                old(self).entries().dom()
            } else {
                Set::empty()
            }).insert(glyph.glyph_index),
            final(self).entries()[glyph.glyph_index].holds(glyph@, zoom_level),
            forall|k: u16|
                k != glyph.glyph_index && #[trigger] final(self).entries().contains_key(k)
                    ==> final(self).entries()[k] == old(self).entries()[k],
    {
        let keep = match self.zoom {
            Some(z) => z.numerator() == zoom_level.numerator() && z.denominator()
                == zoom_level.denominator(),
            None => false,
        };
        if !keep {
            self.cache.clear();
        }
        self.zoom = Some(zoom_level);
        let (min_x, max_x) = min_max(&glyph.x_coordinates);
        let (min_y, max_y) = min_max(&glyph.y_coordinates);
        let mut points: Vec<(i16, i16)> = Vec::new();
        let n = glyph.processed_points.len();
        let mut i: usize = 0;
        while i < n
            invariant
                n == glyph.processed_points@.len(),
                min_x == seq_min(glyph.x_coordinates@),
                min_y == seq_min(glyph.y_coordinates@),
                i <= n,
                points@.len() == i,
                forall|j: int|
                    0 <= j < i ==> #[trigger] points@[j] == scaled_points(glyph@, zoom_level)[j],
            decreases n - i,
        {
            let (px, py) = glyph.processed_points[i];
            let sx = scale_coordinate(px as i32 - min_x as i32, zoom_level);
            let sy = scale_coordinate(py as i32 - min_y as i32, zoom_level);
            points.push((sx, sy));
            i = i + 1;
        }
        assert(points@ =~= scaled_points(glyph@, zoom_level));
        let bounding_box = (
            scale_coordinate(min_x as i32, zoom_level),
            scale_coordinate(max_x as i32, zoom_level),
            scale_coordinate(min_y as i32, zoom_level),
            scale_coordinate(max_y as i32, zoom_level),
        );
        self.cache.insert(glyph.glyph_index, CachedGlyphData { scaled_points: points, bounding_box });
    }

    /// The entry of `glyph_index`, if it was computed at the current zoom.
    pub fn get_cached_data(&self, glyph_index: u16) -> (r: Option<&CachedGlyphData>)
        ensures
            match r {
                Some(d) => self.entries().contains_key(glyph_index) && *d == self.entries()[glyph_index],
                None => !self.entries().contains_key(glyph_index),
            },
    {
        self.cache.get(&glyph_index)
    }
}

/// Two updates of one glyph at two whole-number zooms: each entry holds the
/// point offsets from the box's min corner times its own zoom, so a point off
/// that corner lands at two different places (while no product leaves 16 bits).
pub proof fn lemma_rezoom(
    first: CachedGlyphData,
    second: CachedGlyphData,
    g: GlyphView,
    z1: Zoom,
    z2: Zoom,
    i: int,
)
    requires
        first.holds(g, z1),
        second.holds(g, z2),
        z1.spec_den() == 1,
        z2.spec_den() == 1,
        z1.spec_num() != z2.spec_num(),
        0 <= i < g.points.len(),
        g.points[i].0 != seq_min(g.xs),
        -0x8000 <= (g.points[i].0 - seq_min(g.xs)) * z1.spec_num() <= 0x7fff,
        -0x8000 <= (g.points[i].0 - seq_min(g.xs)) * z2.spec_num() <= 0x7fff,
    ensures
        first.scaled_points@[i].0 == (g.points[i].0 - seq_min(g.xs)) * z1.spec_num(),
        second.scaled_points@[i].0 == (g.points[i].0 - seq_min(g.xs)) * z2.spec_num(),
        first.scaled_points@[i] != second.scaled_points@[i],
{
    let d = g.points[i].0 - seq_min(g.xs);
    assert(first.scaled_points@[i] == scaled_points(g, z1)[i]);
    assert(second.scaled_points@[i] == scaled_points(g, z2)[i]);
    assert(d * z1.spec_num() != d * z2.spec_num()) by (nonlinear_arith)
        requires
            d != 0,
            z1.spec_num() != z2.spec_num(),
    ;
}

} // verus!
