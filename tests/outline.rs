use ttf_glyphs::buffer::ByteBuffer;
use ttf_glyphs::error::FontError;
use ttf_glyphs::glyph::translate_coordinates;
use ttf_glyphs::outline::{
    decode_coordinates, decode_flags, synthesize_implied_points, wrapping_add16, X_IS_SAME_OR_POSITIVE,
    X_SHORT_VECTOR, Y_IS_SAME_OR_POSITIVE, Y_SHORT_VECTOR,
};

#[test]
fn repeat_flag_expands_to_four_flags() {
    let mut b = ByteBuffer::new(vec![0x09, 3]);
    assert_eq!(decode_flags(&mut b, 4), Ok(vec![0x09, 0x09, 0x09, 0x09]));
    assert_eq!(b.current_position(), 2);
}

#[test]
fn repeat_never_exceeds_point_count() {
    let mut b = ByteBuffer::new(vec![0x09, 5, 0x01]);
    assert_eq!(decode_flags(&mut b, 2), Ok(vec![0x09, 0x09]));
    assert_eq!(b.current_position(), 2);
}

#[test]
fn plain_flags_and_truncated_stream() {
    let mut b = ByteBuffer::new(vec![0x01, 0x00, 0x31]);
    assert_eq!(decode_flags(&mut b, 3), Ok(vec![0x01, 0x00, 0x31]));
    let mut short = ByteBuffer::new(vec![0x01]);
    assert_eq!(decode_flags(&mut short, 2), Err(FontError::OutOfBounds));
    let mut missing_count = ByteBuffer::new(vec![0x08]);
    assert_eq!(decode_flags(&mut missing_count, 2), Err(FontError::OutOfBounds));
}

#[test]
fn short_deltas_accumulate() {
    let mut b = ByteBuffer::new(vec![5, 3]);
    let flags = vec![X_SHORT_VECTOR | X_IS_SAME_OR_POSITIVE, X_SHORT_VECTOR];
    assert_eq!(
        decode_coordinates(&mut b, &flags, X_SHORT_VECTOR, X_IS_SAME_OR_POSITIVE),
        Ok(vec![5, 2])
    );
}

#[test]
fn same_and_word_deltas() {
    let mut b = ByteBuffer::new(vec![0x01, 0x00, 0xff, 0x38]);
    let flags = vec![0, Y_IS_SAME_OR_POSITIVE, 0];
    assert_eq!(
        decode_coordinates(&mut b, &flags, Y_SHORT_VECTOR, Y_IS_SAME_OR_POSITIVE),
        Ok(vec![256, 256, 56])
    );
    let mut truncated = ByteBuffer::new(vec![0x01]);
    assert_eq!(
        decode_coordinates(&mut truncated, &vec![0], Y_SHORT_VECTOR, Y_IS_SAME_OR_POSITIVE),
        Err(FontError::OutOfBounds)
    );
}

#[test]
fn coordinates_wrap_at_sixteen_bits() {
    assert_eq!(wrapping_add16(32767, 1), -32768);
    assert_eq!(wrapping_add16(-32768, -1), 32767);
    assert_eq!(wrapping_add16(10, -3), 7);
}

#[test]
fn midpoint_between_two_off_curve_points() {
    let flags = vec![0, 0, 1];
    let xs = vec![0, 10, 20];
    let ys = vec![0, 10, 0];
    let ends = vec![2];
    let (points, adjusted) = synthesize_implied_points(&flags, &xs, &ys, &ends).unwrap();
    assert_eq!(points, vec![(0, 0), (5, 5), (10, 10), (20, 0)]);
    assert_eq!(adjusted, vec![3]);
}

#[test]
fn midpoints_between_on_curve_points_and_wraparound() {
    let flags = vec![1, 1, 1];
    let xs = vec![0, 100, 50];
    let ys = vec![0, 0, 100];
    let (points, adjusted) = synthesize_implied_points(&flags, &xs, &ys, &vec![2]).unwrap();
    assert_eq!(points, vec![(0, 0), (50, 0), (100, 0), (75, 50), (50, 100), (25, 50)]);
    assert_eq!(adjusted, vec![5]);
}

#[test]
fn closing_duplicate_is_dropped_per_contour() {
    let flags = vec![1, 1, 0];
    let xs = vec![7, 0, 4];
    let ys = vec![7, 0, 4];
    let (points, adjusted) = synthesize_implied_points(&flags, &xs, &ys, &vec![0, 2]).unwrap();
    assert_eq!(points, vec![(7, 7), (0, 0), (4, 4)]);
    assert_eq!(adjusted, vec![0, 2]);
}

#[test]
fn midpoint_rounds_toward_zero() {
    let (points, _) = synthesize_implied_points(&vec![0, 0], &vec![-3, 0], &vec![3, 0], &vec![1]).unwrap();
    assert_eq!(points, vec![(-3, 3), (-1, 1), (0, 0), (-1, 1)]);
}

#[test]
fn malformed_contours_are_rejected() {
    let flags = vec![1, 1, 1];
    let xs = vec![0, 1, 2];
    assert_eq!(
        synthesize_implied_points(&flags, &xs, &xs, &vec![2, 1]),
        Err(FontError::MalformedGlyph)
    );
    assert_eq!(
        synthesize_implied_points(&flags, &xs, &xs, &vec![1]),
        Err(FontError::MalformedGlyph)
    );
    assert_eq!(
        synthesize_implied_points(&flags, &vec![0, 1], &xs, &vec![2]),
        Err(FontError::MalformedGlyph)
    );
}

#[test]
fn translation_moves_every_coordinate() {
    let mut xs = vec![0, -5, 32700];
    translate_coordinates(&mut xs, 100);
    assert_eq!(xs, vec![100, 95, -32736]);
}
