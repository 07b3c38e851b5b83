use ttf_glyphs::cache::{scale_coordinate, GlyphCache, Zoom};
use ttf_glyphs::glyph::Glyph;
use ttf_glyphs::platform::platform_id_for_os;

fn glyph(index: u16) -> Glyph {
    Glyph {
        glyph_index: index,
        num_contours: 1,
        xmin: 10,
        ymin: -5,
        xmax: 30,
        ymax: 15,
        end_pts_of_contours: vec![2],
        x_coordinates: vec![10, 30, 20],
        y_coordinates: vec![-5, -5, 15],
        flags: vec![1, 1, 1],
        processed_points: vec![(10, -5), (30, -5), (20, 15)],
        advance_width: 40,
    }
}

#[test]
fn zoom_needs_a_denominator() {
    assert!(Zoom::new(1, 0).is_none());
    let z = Zoom::new(3, 2).unwrap();
    assert_eq!((z.numerator(), z.denominator()), (3, 2));
}

#[test]
fn scaling_truncates_toward_zero_and_saturates() {
    let half = Zoom::new(1, 2).unwrap();
    assert_eq!(scale_coordinate(5, half), 2);
    assert_eq!(scale_coordinate(-5, half), -2);
    let big = Zoom::new(1000, 1).unwrap();
    assert_eq!(scale_coordinate(100, big), 32767);
    assert_eq!(scale_coordinate(-100, big), -32768);
}

#[test]
fn update_twice_follows_each_zoom() {
    let mut cache = GlyphCache::new();
    let g = glyph(7);
    cache.update_cache(&g, Zoom::new(2, 1).unwrap());
    let first = cache.get_cached_data(7).unwrap();
    assert_eq!(first.scaled_points, vec![(0, 0), (40, 0), (20, 40)]);
    assert_eq!(first.bounding_box, (20, 60, -10, 30));
    cache.update_cache(&g, Zoom::new(3, 1).unwrap());
    let second = cache.get_cached_data(7).unwrap();
    assert_eq!(second.scaled_points, vec![(0, 0), (60, 0), (30, 60)]);
    assert_eq!(second.bounding_box, (30, 90, -15, 45));
}

#[test]
fn zoom_change_drops_other_entries() {
    let mut cache = GlyphCache::new();
    assert!(cache.get_cached_data(1).is_none());
    let z = Zoom::new(1, 1).unwrap();
    cache.update_cache(&glyph(1), z);
    cache.update_cache(&glyph(2), z);
    assert!(cache.get_cached_data(1).is_some());
    assert!(cache.get_cached_data(2).is_some());
    cache.update_cache(&glyph(2), Zoom::new(2, 1).unwrap());
    assert!(cache.get_cached_data(1).is_none());
    assert!(cache.get_cached_data(2).is_some());
}

#[test]
fn empty_glyph_caches_nothing_to_draw() {
    let mut cache = GlyphCache::new();
    let mut g = glyph(3);
    g.x_coordinates.clear();
    g.y_coordinates.clear();
    g.processed_points.clear();
    cache.update_cache(&g, Zoom::new(5, 1).unwrap());
    let d = cache.get_cached_data(3).unwrap();
    assert!(d.scaled_points.is_empty());
    assert_eq!(d.bounding_box, (0, 0, 0, 0));
}

#[test]
fn platform_of_each_system() {
    assert_eq!(platform_id_for_os("Linux"), 3);
    assert_eq!(platform_id_for_os("Windows"), 3);
    assert_eq!(platform_id_for_os("MacOS"), 1);
    assert_eq!(platform_id_for_os("Darwin"), 4);
    assert_eq!(platform_id_for_os(""), 4);
}
