use vstd::prelude::*;

use crate::buffer::{ByteBuffer, be_i16, be_u16};
use crate::error::FontError;

verus! {

/// Flag bit of a point that lies on the curve.
pub const ON_CURVE_POINT: u8 = 0x01;

/// Flag bit of an X delta stored in one unsigned byte.
pub const X_SHORT_VECTOR: u8 = 0x02;

/// Flag bit of a Y delta stored in one unsigned byte.
pub const Y_SHORT_VECTOR: u8 = 0x04;

/// Flag bit announcing a repeat count in the next byte.
pub const REPEAT_FLAG: u8 = 0x08;

/// With `X_SHORT_VECTOR`: the delta is positive; without it: X is unchanged.
pub const X_IS_SAME_OR_POSITIVE: u8 = 0x10;

/// With `Y_SHORT_VECTOR`: the delta is positive; without it: Y is unchanged.
pub const Y_IS_SAME_OR_POSITIVE: u8 = 0x20;

/// The flags decoded from the run-length stream at `pos` once `acc` is
/// extended to `n` flags, with the position after the stream; `None` when the
/// stream runs past the end of `b`. A repeat never yields more than `n` flags.
pub open spec fn flags_from(b: Seq<u8>, pos: int, acc: Seq<u8>, n: int) -> Option<(Seq<u8>, int)>
    decreases n - acc.len(),
{
    if acc.len() >= n {
        Some((acc, pos))
    } else if pos < 0 || pos >= b.len() {
        None
    } else if b[pos] & REPEAT_FLAG == 0 {
        flags_from(b, pos + 1, acc.push(b[pos]), n)
    } else if pos + 1 >= b.len() {
        None
    } else {
        let copies = if 1 + b[pos + 1] <= n - acc.len() {
            1 + b[pos + 1]
        } else {
            n - acc.len()
        };
        flags_from(b, pos + 2, acc + Seq::new(copies as nat, |k: int| b[pos]), n)
    }
}

/// Expanding the flag run-length stream yields exactly the requested number
/// of flags, however long the runs it holds.
pub proof fn lemma_flags_len(b: Seq<u8>, pos: int, acc: Seq<u8>, n: int)
    requires
        acc.len() <= n,
    ensures
        flags_from(b, pos, acc, n) matches Some((f, _)) ==> f.len() == n,
    decreases n - acc.len(),
{
    if acc.len() < n && 0 <= pos < b.len() {
        if b[pos] & REPEAT_FLAG == 0 {
            lemma_flags_len(b, pos + 1, acc.push(b[pos]), n);
        } else if pos + 1 < b.len() {
            let copies = if 1 + b[pos + 1] <= n - acc.len() {
                1 + b[pos + 1]
            } else {
                n - acc.len()
            };
            lemma_flags_len(b, pos + 2, acc + Seq::new(copies as nat, |k: int| b[pos]), n);
        }
    }
}

/// Decodes `num_points` point flags, expanding repeat runs.
pub fn decode_flags(buffer: &mut ByteBuffer, num_points: usize) -> (r: Result<Vec<u8>, FontError>)
    ensures
        final(buffer).data() == old(buffer).data(),
        match r {
            Ok(f) => f@.len() == num_points && flags_from(
                old(buffer).data(),
                old(buffer).pos(),
                Seq::empty(),
                num_points as int,
            ) == Some((f@, final(buffer).pos())),
            Err(e) => e == FontError::OutOfBounds && flags_from(
                old(buffer).data(),
                old(buffer).pos(),
                Seq::empty(),
                num_points as int,
            ) is None,
        },
{
    let ghost b = buffer.data();
    let ghost goal = flags_from(b, buffer.pos(), Seq::empty(), num_points as int);
    let mut flags: Vec<u8> = Vec::new();
    while flags.len() < num_points
        invariant
            b == old(buffer).data(),
            goal == flags_from(b, old(buffer).pos(), Seq::empty(), num_points as int),
            buffer.data() == b,
            flags@.len() <= num_points,
            flags_from(b, buffer.pos(), flags@, num_points as int) == goal,
        decreases num_points - flags@.len(),
    {
        let ghost pos0 = buffer.pos();
        let ghost acc0 = flags@;
        let flag = buffer.read_u8()?;
        if flag & REPEAT_FLAG != 0 {
            let repeat = buffer.read_u8()?;
            let ghost before = flags@;
            let room: usize = num_points - flags.len();
            let copies: usize = if 1 + repeat as usize <= room {
                1 + repeat as usize
            } else {
                room
            };
            let mut k: usize = 0;
            while k < copies
                invariant
                    k <= copies,
                    copies <= room,
                    room == num_points - before.len(),
                    flags@ == before + Seq::new(k as nat, |j: int| flag),
                decreases copies - k,
            {
                flags.push(flag);
                k = k + 1;
                assert(flags@ =~= before + Seq::new(k as nat, |j: int| flag));
            }
            assert(Seq::new(copies as nat, |j: int| flag) =~= Seq::new(
                copies as nat,
                |j: int| b[pos0],
            ));
            assert(flags_from(b, pos0, acc0, num_points as int) == flags_from(
                b,
                pos0 + 2,
                flags@,
                num_points as int,
            ));
        } else {
            flags.push(flag);
            assert(flags_from(b, pos0, acc0, num_points as int) == flags_from(
                b,
                pos0 + 1,
                flags@,
                num_points as int,
            ));
        }
    }
    proof {
        lemma_flags_len(b, old(buffer).pos(), Seq::empty(), num_points as int);
    }
    Ok(flags)
}

/// The 16-bit two's complement value congruent to `x`, for `|x| < 2^16`.
pub open spec fn wrap16(x: int) -> i16 {
    if x > 0x7fff {
        (x - 0x1_0000) as i16
    } else if x < -0x8000 {
        (x + 0x1_0000) as i16
    } else {
        x as i16
    }
}

/// Adds two 16-bit values modulo 2^16.
pub fn wrapping_add16(a: i16, d: i32) -> (r: i16)
    requires
        -0x8000 <= d <= 0x7fff,
    ensures
        r == wrap16(a + d),
{
    let s: i32 = a as i32 + d;
    if s > 0x7fff {
        (s - 0x1_0000) as i16
    } else if s < -0x8000 {
        (s + 0x1_0000) as i16
    } else {
        s as i16
    }
}

/// The coordinates decoded from the delta stream at `pos`, starting from
/// flag `i` with the running value `prev`, and the position after them;
/// `None` when the stream runs past the end of `b`.
pub open spec fn coords_from(
    b: Seq<u8>,
    pos: int,
    flags: Seq<u8>,
    i: int,
    prev: i16,
    acc: Seq<i16>,
    short_bit: u8,
    same_bit: u8,
) -> Option<(Seq<i16>, int)>
    decreases flags.len() - i,
{
    if i < 0 || i >= flags.len() {
        Some((acc, pos))
    } else if flags[i] & short_bit != 0 {
        if pos < 0 || pos >= b.len() {
            None
        } else {
            let v = if flags[i] & same_bit != 0 {
                wrap16(prev + b[pos])
            } else {
                wrap16(prev - b[pos])
            };
            coords_from(b, pos + 1, flags, i + 1, v, acc.push(v), short_bit, same_bit)
        }
    } else if flags[i] & same_bit != 0 {
        coords_from(b, pos, flags, i + 1, prev, acc.push(prev), short_bit, same_bit)
    } else if pos < 0 || pos + 2 > b.len() {
        None
    } else {
        let v = wrap16(prev + be_i16(b, pos));
        coords_from(b, pos + 2, flags, i + 1, v, acc.push(v), short_bit, same_bit)
    }
}

/// Decoding coordinates yields one per flag.
pub proof fn lemma_coords_len(
    b: Seq<u8>,
    pos: int,
    flags: Seq<u8>,
    i: int,
    prev: i16,
    acc: Seq<i16>,
    short_bit: u8,
    same_bit: u8,
)
    requires
        0 <= i <= flags.len(),
        acc.len() == i,
    ensures
        coords_from(b, pos, flags, i, prev, acc, short_bit, same_bit) matches Some((c, _))
            ==> c.len() == flags.len(),
    decreases flags.len() - i,
{
    if i < flags.len() {
        if flags[i] & short_bit != 0 {
            if 0 <= pos < b.len() {
                let v = if flags[i] & same_bit != 0 {
                    wrap16(prev + b[pos])
                } else {
                    wrap16(prev - b[pos])
                };
                lemma_coords_len(b, pos + 1, flags, i + 1, v, acc.push(v), short_bit, same_bit);
            }
        } else if flags[i] & same_bit != 0 {
            lemma_coords_len(b, pos, flags, i + 1, prev, acc.push(prev), short_bit, same_bit);
        } else if 0 <= pos && pos + 2 <= b.len() {
            let v = wrap16(prev + be_i16(b, pos));
            lemma_coords_len(b, pos + 2, flags, i + 1, v, acc.push(v), short_bit, same_bit);
        }
    }
}

/// Decodes one coordinate per flag from 0: a short delta (one byte, its sign
/// given by `same_bit`), no delta (`same_bit` without `short_bit`), or a
/// signed 16-bit delta. Values accumulate modulo 2^16.
pub fn decode_coordinates(buffer: &mut ByteBuffer, flags: &Vec<u8>, short_bit: u8, same_bit: u8) -> (r:
    Result<Vec<i16>, FontError>)
    ensures
        final(buffer).data() == old(buffer).data(),
        match r {
            Ok(c) => c@.len() == flags@.len() && coords_from(
                old(buffer).data(),
                old(buffer).pos(),
                flags@,
                0,
                0,
                Seq::empty(),
                short_bit,
                same_bit,
            ) == Some((c@, final(buffer).pos())),
            Err(e) => e == FontError::OutOfBounds && coords_from(
                old(buffer).data(),
                old(buffer).pos(),
                flags@,
                0,
                0,
                Seq::empty(),
                short_bit,
                same_bit,
            ) is None,
        },
{
    let ghost b = buffer.data();
    let ghost goal = coords_from(b, buffer.pos(), flags@, 0, 0, Seq::empty(), short_bit, same_bit);
    let mut coords: Vec<i16> = Vec::new();
    let mut prev: i16 = 0;
    let mut i: usize = 0;
    while i < flags.len()
        invariant
            b == old(buffer).data(),
            goal == coords_from(
                b,
                old(buffer).pos(),
                flags@,
                0,
                0,
                Seq::empty(),
                short_bit,
                same_bit,
            ),
            buffer.data() == b,
            i <= flags@.len(),
            coords@.len() == i,
            coords_from(b, buffer.pos(), flags@, i as int, prev, coords@, short_bit, same_bit)
                == goal,
        decreases flags@.len() - i,
    {
        let ghost pos0 = buffer.pos();
        let ghost acc0 = coords@;
        let ghost prev0 = prev;
        let flag = flags[i];
        let v: i16 = if flag & short_bit != 0 {
            let d = buffer.read_u8()?;
            if flag & same_bit != 0 {
                wrapping_add16(prev, d as i32)
            } else {
                wrapping_add16(prev, -(d as i32))
            }
        } else if flag & same_bit != 0 {
            prev
        } else {
            let d = buffer.read_i16()?;
            wrapping_add16(prev, d as i32)
        };
        coords.push(v);
        assert(coords_from(b, pos0, flags@, i as int, prev0, acc0, short_bit, same_bit)
            == coords_from(b, buffer.pos(), flags@, i + 1, v, coords@, short_bit, same_bit));
        prev = v;
        i = i + 1;
    }
    proof {
        lemma_coords_len(b, old(buffer).pos(), flags@, 0, 0, Seq::empty(), short_bit, same_bit);
    }
    Ok(coords)
}

/// Whether a point with flag `f` lies on the curve.
pub open spec fn on_curve(f: u8) -> bool {
    f & ON_CURVE_POINT != 0
}

/// Half the sum of two coordinates, rounded toward zero.
pub open spec fn midpoint(a: i16, b: i16) -> i16 {
    let s = a + b;
    if s >= 0 {
        (s / 2) as i16
    } else {
        (-((-s) / 2)) as i16
    }
}

fn midpoint16(a: i16, b: i16) -> (r: i16)
    ensures
        r == midpoint(a, b),
{
    let s: i32 = a as i32 + b as i32;
    if s >= 0 {
        let h: u32 = (s as u32) / 2;
        h as i16
    } else {
        let h: u32 = ((-s) as u32) / 2;
        -(h as i32) as i16
    }
}

/// The index of the first point of contour `c`.
pub open spec fn contour_start(ends: Seq<u16>, c: int) -> int {
    if c <= 0 {
        0
    } else {
        ends[c - 1] + 1
    }
}

/// The contour end indices increase strictly, and the last one closes the
/// `n` points; no contours for no points.
pub open spec fn contours_wf(ends: Seq<u16>, n: int) -> bool {
    &&& forall|c: int| 0 < c < ends.len() ==> ends[c - 1] < #[trigger] ends[c]
    &&& if ends.len() == 0 {
        n == 0
    } else {
        ends.last() + 1 == n
    }
}

/// Point `j` of the contour of `m` points that starts at `s`, followed by
/// the midpoint to its successor (the first point after the last) when both
/// lie on the curve or both lie off it.
pub open spec fn expand_point(
    flags: Seq<u8>,
    xs: Seq<i16>,
    ys: Seq<i16>,
    s: int,
    m: int,
    j: int,
) -> Seq<(i16, i16)> {
    let i = s + j;
    let k = if j + 1 == m {
        s
    } else {
        s + j + 1
    };
    if on_curve(flags[i]) == on_curve(flags[k]) {
        seq![(xs[i], ys[i]), (midpoint(xs[i], xs[k]), midpoint(ys[i], ys[k]))]
    } else {
        seq![(xs[i], ys[i])]
    }
}

/// The first `j` points of a contour with their implied midpoints.
pub open spec fn expand_contour(
    flags: Seq<u8>,
    xs: Seq<i16>,
    ys: Seq<i16>,
    s: int,
    m: int,
    j: int,
) -> Seq<(i16, i16)>
    decreases j,
{
    if j <= 0 {
        Seq::empty()
    } else {
        expand_contour(flags, xs, ys, s, m, j - 1) + expand_point(flags, xs, ys, s, m, j - 1)
    }
}

/// Drops a last point that repeats the first one.
pub open spec fn close_contour(p: Seq<(i16, i16)>) -> Seq<(i16, i16)> {
    if p.len() >= 2 && p.last() == p[0] {
        p.drop_last()
    } else {
        p
    }
}

/// The expanded points of contour `c`.
pub open spec fn contour_points(flags: Seq<u8>, xs: Seq<i16>, ys: Seq<i16>, ends: Seq<u16>, c: int) -> Seq<
    (i16, i16),
> {
    let s = contour_start(ends, c);
    let m = ends[c] - s + 1;
    close_contour(expand_contour(flags, xs, ys, s, m, m))
}

/// The expanded points of the first `c` contours, in order.
pub open spec fn outline_points(flags: Seq<u8>, xs: Seq<i16>, ys: Seq<i16>, ends: Seq<u16>, c: int) -> Seq<
    (i16, i16),
>
    decreases c,
{
    if c <= 0 {
        Seq::empty()
    } else {
        outline_points(flags, xs, ys, ends, c - 1) + contour_points(flags, xs, ys, ends, c - 1)
    }
}

/// The synthesis applies: parallel point arrays, well-formed contours, and
/// end indices that fit 16 bits.
pub open spec fn implied_ok(flags: Seq<u8>, xs: Seq<i16>, ys: Seq<i16>, ends: Seq<u16>) -> bool {
    &&& xs.len() == flags.len()
    &&& ys.len() == flags.len()
    &&& contours_wf(ends, flags.len() as int)
    &&& outline_points(flags, xs, ys, ends, ends.len() as int).len() <= 0x1_0000
}

/// `adjusted` holds the index of each contour's last point in the
/// expanded outline.
pub open spec fn adjusted_ends_match(
    adjusted: Seq<u16>,
    flags: Seq<u8>,
    xs: Seq<i16>,
    ys: Seq<i16>,
    ends: Seq<u16>,
) -> bool {
    &&& adjusted.len() == ends.len()
    &&& forall|c: int|
        0 <= c < ends.len() ==> #[trigger] adjusted[c] == outline_points(flags, xs, ys, ends, c + 1).len()
            - 1
}

proof fn lemma_outline_grows(flags: Seq<u8>, xs: Seq<i16>, ys: Seq<i16>, ends: Seq<u16>, c: int, d: int)
    requires
        0 <= c <= d,
    ensures
        outline_points(flags, xs, ys, ends, c).len() <= outline_points(flags, xs, ys, ends, d).len(),
    decreases d - c,
{
    if c < d {
        lemma_outline_grows(flags, xs, ys, ends, c, d - 1);
    }
}

fn contours_well_formed(end_pts: &Vec<u16>, n: usize) -> (r: bool)
    ensures
        r == contours_wf(end_pts@, n as int),
{
    let k = end_pts.len();
    if k == 0 {
        return n == 0;
    }
    let mut c: usize = 1;
    while c < k
        invariant
            k == end_pts@.len(),
            1 <= c <= k,
            forall|d: int| 0 < d < c ==> end_pts@[d - 1] < #[trigger] end_pts@[d],
        decreases k - c,
    {
        if end_pts[c - 1] >= end_pts[c] {
            return false;
        }
        c = c + 1;
    }
    end_pts[k - 1] as usize + 1 == n
}

/// Appends the expanded, closed contour of `m` points that starts at `s`.
fn append_contour(
    points: &mut Vec<(i16, i16)>,
    flags: &Vec<u8>,
    xs: &Vec<i16>,
    ys: &Vec<i16>,
    s: usize,
    m: usize,
)
    requires
        xs@.len() == flags@.len(),
        ys@.len() == flags@.len(),
        s + m <= flags@.len(),
        m >= 1,
    ensures
        final(points)@ == old(points)@ + close_contour(
            expand_contour(flags@, xs@, ys@, s as int, m as int, m as int),
        ),
{
    let ghost f = flags@;
    let ghost x = xs@;
    let ghost y = ys@;
    let begin = points.len();
    let ghost before = points@;
    let mut j: usize = 0;
    while j < m
        invariant
            f == flags@,
            x == xs@,
            y == ys@,
            x.len() == f.len(),
            y.len() == f.len(),
            s + m <= flags.len(),
            j <= m,
            begin == before.len(),
            before == old(points)@,
            points@ == before + expand_contour(f, x, y, s as int, m as int, j as int),
            points@.len() >= begin + j,
        decreases m - j,
    {
        let i = s + j;
        let nx = if j + 1 == m {
            s
        } else {
            s + j + 1
        };
        points.push((xs[i], ys[i]));
        if (flags[i] & ON_CURVE_POINT != 0) == (flags[nx] & ON_CURVE_POINT != 0) {
            let mx = midpoint16(xs[i], xs[nx]);
            let my = midpoint16(ys[i], ys[nx]);
            points.push((mx, my));
        }
        j = j + 1;
        assert(points@ =~= before + expand_contour(f, x, y, s as int, m as int, j as int));
    }
    let ghost expanded = expand_contour(f, x, y, s as int, m as int, m as int);
    let len = points.len();
    if len - begin >= 2 && points[len - 1].0 == points[begin].0 && points[len - 1].1
        == points[begin].1 {
        points.pop();
        assert(expanded.last() == expanded[0]);
        assert(points@ =~= before + close_contour(expanded));
    } else {
        assert(points@ =~= before + close_contour(expanded));
    }
}

/// Inserts the implied on-curve points of every contour and returns the
/// expanded points with each contour's adjusted end index; fails with
/// `MalformedGlyph` unless `implied_ok` holds.
pub fn synthesize_implied_points(
    flags: &Vec<u8>,
    xs: &Vec<i16>,
    ys: &Vec<i16>,
    end_pts: &Vec<u16>,
) -> (r: Result<(Vec<(i16, i16)>, Vec<u16>), FontError>)
    ensures
        match r {
            Ok((points, adjusted)) => implied_ok(flags@, xs@, ys@, end_pts@) && points@
                == outline_points(flags@, xs@, ys@, end_pts@, end_pts@.len() as int)
                && adjusted_ends_match(adjusted@, flags@, xs@, ys@, end_pts@),
            Err(e) => !implied_ok(flags@, xs@, ys@, end_pts@) && e == FontError::MalformedGlyph,
        },
{
    let n = flags.len();
    if xs.len() != n || ys.len() != n || !contours_well_formed(end_pts, n) {
        return Err(FontError::MalformedGlyph);
    }
    let ghost f = flags@;
    let ghost x = xs@;
    let ghost y = ys@;
    let ghost e = end_pts@;
    let k = end_pts.len();
    let mut points: Vec<(i16, i16)> = Vec::new();
    let mut adjusted: Vec<u16> = Vec::new();
    let mut c: usize = 0;
    while c < k
        invariant
            f == flags@,
            x == xs@,
            y == ys@,
            e == end_pts@,
            k == e.len(),
            n == f.len(),
            x.len() == n,
            y.len() == n,
            contours_wf(e, n as int),
            c <= k,
            points@ == outline_points(f, x, y, e, c as int),
            points@.len() <= 0x1_0000,
            adjusted@.len() == c,
            forall|d: int|
                0 <= d < c ==> #[trigger] adjusted@[d] == outline_points(f, x, y, e, d + 1).len()
                    - 1,
        decreases k - c,
    {
        let s: usize = if c == 0 {
            0
        } else {
            end_pts[c - 1] as usize + 1
        };
        let last: usize = end_pts[c] as usize;
        proof {
            lemma_contour_bounds(e, n as int, c as int);
        }
        append_contour(&mut points, flags, xs, ys, s, last - s + 1);
        proof {
            lemma_outline_step(f, x, y, e, c as int);
        }
        assert(points@ == outline_points(f, x, y, e, c + 1));
        if points.len() > 0x1_0000 {
            proof {
                lemma_outline_grows(f, x, y, e, c + 1, k as int);
            }
            return Err(FontError::MalformedGlyph);
        }
        adjusted.push((points.len() - 1) as u16);
        c = c + 1;
    }
    Ok((points, adjusted))
}

proof fn lemma_outline_step(f: Seq<u8>, x: Seq<i16>, y: Seq<i16>, e: Seq<u16>, c: int)
    requires
        0 <= c,
    ensures
        outline_points(f, x, y, e, c + 1) == outline_points(f, x, y, e, c) + close_contour(
            expand_contour(
                f,
                x,
                y,
                contour_start(e, c),
                e[c] - contour_start(e, c) + 1,
                e[c] - contour_start(e, c) + 1,
            ),
        ),
{
}

proof fn lemma_contour_bounds(e: Seq<u16>, n: int, c: int)
    requires
        contours_wf(e, n),
        0 <= c < e.len(),
    ensures
        contour_start(e, c) <= e[c] < n,
{
    if c > 0 {
        assert(e[c - 1] < e[c]);
    }
    lemma_ends_increase(e, c, e.len() - 1);
}

proof fn lemma_ends_increase(e: Seq<u16>, a: int, b: int)
    requires
        0 <= a <= b < e.len(),
        forall|c: int| 0 < c < e.len() ==> e[c - 1] < #[trigger] e[c],
    ensures
        e[a] <= e[b],
    decreases b - a,
{
    if a < b {
        lemma_ends_increase(e, a, b - 1);
    }
}

/// The `nc` contour end indices stored at `pos`.
pub open spec fn ends_at(b: Seq<u8>, pos: int, nc: int) -> Seq<u16> {
    Seq::new(nc as nat, |i: int| be_u16(b, pos + 2 * i))
}

/// The number of points that the contour end indices announce.
pub open spec fn point_count(ends: Seq<u16>) -> int {
    if ends.len() == 0 {
        0
    } else {
        ends.last() + 1
    }
}

/// The raw parts of the simple glyph body at `pos` with `nc` contours: end
/// indices, then (after the skipped instructions) flags, X and Y.
pub open spec fn simple_parts(b: Seq<u8>, pos: int, nc: int) -> Result<
    (Seq<u16>, Seq<u8>, Seq<i16>, Seq<i16>),
    FontError,
> {
    let ends = ends_at(b, pos, nc);
    let p1 = pos + 2 * nc;
    if p1 + 2 > b.len() {
        Err(FontError::OutOfBounds)
    } else if p1 + 2 + be_u16(b, p1) > b.len() {
        Err(FontError::OutOfBounds)
    } else {
        match flags_from(b, p1 + 2 + be_u16(b, p1), Seq::empty(), point_count(ends)) {
            None => Err(FontError::OutOfBounds),
            Some((f, p3)) => match coords_from(
                b,
                p3,
                f,
                0,
                0,
                Seq::empty(),
                X_SHORT_VECTOR,
                X_IS_SAME_OR_POSITIVE,
            ) {
                None => Err(FontError::OutOfBounds),
                Some((xs, p4)) => match coords_from(
                    b,
                    p4,
                    f,
                    0,
                    0,
                    Seq::empty(),
                    Y_SHORT_VECTOR,
                    Y_IS_SAME_OR_POSITIVE,
                ) {
                    None => Err(FontError::OutOfBounds),
                    Some((ys, _)) => Ok((ends, f, xs, ys)),
                },
            },
        }
    }
}

/// Where the cursor ends after the simple glyph body at `pos`: past the last
/// Y coordinate byte.
pub open spec fn simple_end(b: Seq<u8>, pos: int, nc: int) -> int {
    let p1 = pos + 2 * nc;
    match flags_from(b, p1 + 2 + be_u16(b, p1), Seq::empty(), point_count(ends_at(b, pos, nc))) {
        None => pos,
        Some((f, p3)) => match coords_from(
            b,
            p3,
            f,
            0,
            0,
            Seq::empty(),
            X_SHORT_VECTOR,
            X_IS_SAME_OR_POSITIVE,
        ) {
            None => pos,
            Some((_, p4)) => match coords_from(
                b,
                p4,
                f,
                0,
                0,
                Seq::empty(),
                Y_SHORT_VECTOR,
                Y_IS_SAME_OR_POSITIVE,
            ) {
                None => pos,
                Some((_, p5)) => p5,
            },
        },
    }
}

/// Reads the body of a simple glyph with `num_contours` contours at the
/// cursor; hinting instructions are skipped.
pub fn read_simple_outline(buffer: &mut ByteBuffer, num_contours: usize) -> (r: Result<
    (Vec<u16>, Vec<u8>, Vec<i16>, Vec<i16>),
    FontError,
>)
    ensures
        final(buffer).data() == old(buffer).data(),
        match r {
            Ok((ends, f, xs, ys)) => simple_parts(
                old(buffer).data(),
                old(buffer).pos(),
                num_contours as int,
            ) == Ok::<_, FontError>((ends@, f@, xs@, ys@)) && final(buffer).pos() == simple_end(
                old(buffer).data(),
                old(buffer).pos(),
                num_contours as int,
            ),
            Err(e) => simple_parts(old(buffer).data(), old(buffer).pos(), num_contours as int)
                == Err::<(Seq<u16>, Seq<u8>, Seq<i16>, Seq<i16>), _>(e),
        },
{
    let ghost b = buffer.data();
    let ghost pos = buffer.pos();
    let ends = buffer.read_u16_array(num_contours)?;
    assert(ends@ =~= ends_at(b, pos, num_contours as int));
    let instruction_length = buffer.read_u16()?;
    buffer.skip_bytes(instruction_length as usize)?;
    let num_points: usize = if num_contours > 0 {
        ends[num_contours - 1] as usize + 1
    } else {
        0
    };
    let flags = decode_flags(buffer, num_points)?;
    let xs = decode_coordinates(buffer, &flags, X_SHORT_VECTOR, X_IS_SAME_OR_POSITIVE)?;
    let ys = decode_coordinates(buffer, &flags, Y_SHORT_VECTOR, Y_IS_SAME_OR_POSITIVE)?;
    Ok((ends, flags, xs, ys))
}

/// A flag with the short bit takes one byte: the running coordinate moves
/// up by it with the same-or-positive bit, down by it without.
pub proof fn lemma_short_delta(
    b: Seq<u8>,
    pos: int,
    flags: Seq<u8>,
    i: int,
    prev: i16,
    acc: Seq<i16>,
    short_bit: u8,
    same_bit: u8,
)
    requires
        0 <= i < flags.len(),
        0 <= pos < b.len(),
        flags[i] & short_bit != 0,
    ensures
        coords_from(b, pos, flags, i, prev, acc, short_bit, same_bit) == ({
            let v = if flags[i] & same_bit != 0 {
                wrap16(prev + b[pos])
            } else {
                wrap16(prev - b[pos])
            };
            coords_from(b, pos + 1, flags, i + 1, v, acc.push(v), short_bit, same_bit)
        }),
{
}

/// How many midpoints the first `j` points of a contour get.
pub open spec fn midpoint_count(flags: Seq<u8>, s: int, m: int, j: int) -> int
    decreases j,
{
    if j <= 0 {
        0
    } else {
        let i = s + j - 1;
        let k = if j == m {
            s
        } else {
            s + j
        };
        midpoint_count(flags, s, m, j - 1) + if on_curve(flags[i]) == on_curve(flags[k]) {
            1int
        } else {
            0int
        }
    }
}

/// Two consecutive off-curve points get their midpoint, as an on-curve
/// point, between them.
pub proof fn lemma_off_curve_pair(flags: Seq<u8>, xs: Seq<i16>, ys: Seq<i16>, s: int, m: int, j: int)
    requires
        0 <= j < m,
        !on_curve(flags[s + j]),
        !on_curve(flags[if j + 1 == m { s } else { s + j + 1 }]),
    ensures
        ({
            let k = if j + 1 == m {
                s
            } else {
                s + j + 1
            };
            expand_point(flags, xs, ys, s, m, j) == seq![
                (xs[s + j], ys[s + j]),
                (midpoint(xs[s + j], xs[k]), midpoint(ys[s + j], ys[k])),
            ]
        }),
{
}

/// Each inserted midpoint lengthens the contour by one: its expanded points
/// number its own points plus its midpoints.
pub proof fn lemma_contour_growth(flags: Seq<u8>, xs: Seq<i16>, ys: Seq<i16>, s: int, m: int, j: int)
    requires
        0 <= j <= m,
    ensures
        expand_contour(flags, xs, ys, s, m, j).len() == j + midpoint_count(flags, s, m, j),
    decreases j,
{
    if j > 0 {
        lemma_contour_growth(flags, xs, ys, s, m, j - 1);
    }
}

} // verus!
