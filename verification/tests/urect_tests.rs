use tile_render::urect::URect;
use tile_render::vec2::UVec2;

#[test]
fn new_and_accessors() {
    let r = URect::new(3, 4, 10, 20);
    assert_eq!(r.x, 3);
    assert_eq!(r.y, 4);
    assert_eq!(r.w, 10);
    assert_eq!(r.h, 20);
    assert_eq!(r.left(), 3);
    assert_eq!(r.right(), 13);
    assert_eq!(r.top(), 4);
    assert_eq!(r.bottom(), 24);
    assert_eq!(r.point(), UVec2 { x: 3, y: 4 });
    assert_eq!(r.size(), UVec2 { x: 10, y: 20 });
}

#[test]
fn from_sides_builds_the_same_rect() {
    let r = URect::from_sides(3, 13, 4, 24);
    assert_eq!(r, URect::new(3, 4, 10, 20));
    let empty = URect::from_sides(5, 5, 7, 7);
    assert_eq!(empty, URect::new(5, 7, 0, 0));
}

#[test]
fn scale_grows_extents() {
    let mut r = URect::new(1, 2, 3, 4);
    r.scale(2, 3);
    assert_eq!(r, URect::new(1, 2, 6, 12));
}

#[test]
fn contains_is_half_open() {
    let r = URect::new(2, 2, 3, 3);
    assert!(r.contains(UVec2 { x: 2, y: 2 }));
    assert!(r.contains(UVec2 { x: 4, y: 4 }));
    assert!(!r.contains(UVec2 { x: 5, y: 4 }));
    assert!(!r.contains(UVec2 { x: 4, y: 5 }));
    assert!(!r.contains(UVec2 { x: 1, y: 2 }));
}

#[test]
fn overlaps_counts_touching_edges() {
    let a = URect::new(0, 0, 2, 2);
    let b = URect::new(2, 0, 2, 2);
    let c = URect::new(5, 5, 1, 1);
    assert!(a.overlaps(&b));
    assert!(b.overlaps(&a));
    assert!(!a.overlaps(&c));
    assert!(!c.overlaps(&a));
    assert!(a.overlaps(&a));
}

#[test]
fn overlaps_is_symmetric_on_samples() {
    let rects = [
        URect::new(0, 0, 2, 2),
        URect::new(1, 1, 3, 3),
        URect::new(2, 0, 2, 2),
        URect::new(7, 7, 1, 1),
        URect::new(0, 4, 10, 0),
    ];
    for a in rects.iter() {
        for b in rects.iter() {
            assert_eq!(a.overlaps(b), b.overlaps(a));
        }
    }
}

#[test]
fn combine_with_is_the_bounding_rect() {
    let a = URect::new(1, 2, 3, 4);
    let b = URect::new(0, 5, 2, 2);
    let c = a.combine_with(b);
    assert_eq!(c, URect::new(0, 2, 4, 5));
}

#[test]
fn intersect_clamps_to_the_overlap() {
    let a = URect::new(0, 0, 4, 4);
    let b = URect::new(2, 1, 4, 4);
    assert_eq!(a.intersect(b), Some(URect::new(2, 1, 2, 3)));
}

#[test]
fn intersect_of_touching_rects_is_empty_but_some() {
    let a = URect::new(0, 0, 2, 2);
    let b = URect::new(2, 0, 2, 2);
    assert_eq!(a.intersect(b), Some(URect::new(2, 0, 0, 2)));
}

#[test]
fn intersect_none_iff_no_overlap() {
    let rects = [
        URect::new(0, 0, 2, 2),
        URect::new(1, 1, 3, 3),
        URect::new(2, 0, 2, 2),
        URect::new(3, 3, 1, 1),
        URect::new(7, 7, 2, 2),
    ];
    for a in rects.iter() {
        for b in rects.iter() {
            assert_eq!(a.intersect(*b).is_none(), !a.overlaps(b));
        }
    }
}

#[test]
fn offset_then_deoffset_is_identity() {
    let r = URect::new(5, 9, 3, 4);
    let v = UVec2 { x: 11, y: 2 };
    assert_eq!(r.offset(v).deoffset(v), r);
    let zero = UVec2 { x: 0, y: 0 };
    assert_eq!(r.offset(zero).deoffset(zero), r);
}
