use shiny_portal::damage::{DamageRect, DamageSet, MAX_DAMAGE_RECTS};
use shiny_portal::geometry::Size;

fn rect(x: i32, y: i32, width: i32, height: i32) -> DamageRect {
    DamageRect { x, y, width, height }
}

fn size(width: u32, height: u32) -> Size {
    Size { width, height }
}

#[test]
fn size_defaults_to_nothing() {
    assert_eq!(Size::default(), size(0, 0));
}

#[test]
fn full_rect_is_capped_at_the_signed_range() {
    assert_eq!(DamageRect::full(size(640, 480)), rect(0, 0, 640, 480));
    assert_eq!(DamageRect::full(size(u32::MAX, 3)), rect(0, 0, i32::MAX, 3));
}

#[test]
fn only_positive_extents_are_valid() {
    assert!(rect(-5, -5, 1, 1).is_valid());
    assert!(!rect(0, 0, 0, 4).is_valid());
    assert!(!rect(0, 0, 4, -1).is_valid());
}

#[test]
fn area_of_invalid_rect_is_zero() {
    assert_eq!(rect(0, 0, -3, 7).area(), 0);
    assert_eq!(rect(9, 9, 3, 7).area(), 21);
    assert_eq!(rect(0, 0, i32::MAX, i32::MAX).area(), 4611686014132420609);
}

#[test]
fn clipping_is_intersection() {
    let frame = size(100, 50);
    assert_eq!(rect(-10, -10, 20, 20).clipped_to(frame), Some(rect(0, 0, 10, 10)));
    assert_eq!(rect(90, 40, 20, 20).clipped_to(frame), Some(rect(90, 40, 10, 10)));
    assert_eq!(rect(100, 0, 5, 5).clipped_to(frame), None);
    assert_eq!(rect(0, 0, 0, 5).clipped_to(frame), None);
    assert_eq!(rect(0, 0, 5, 5).clipped_to(size(0, 50)), None);
    assert_eq!(
        rect(i32::MAX, 0, i32::MAX, 5).clipped_to(size(u32::MAX, 50)),
        None
    );
}

#[test]
fn clipping_twice_is_clipping_once() {
    let frame = size(100, 50);
    let once = rect(-10, 20, 300, 300).clipped_to(frame).unwrap();
    assert_eq!(once, rect(0, 20, 100, 30));
    assert_eq!(once.clipped_to(frame), Some(once));
}

#[test]
fn full_set_copies_the_frame() {
    let set = DamageSet::full();
    assert!(set.is_full());
    assert_eq!(set.rects_for_frame(size(4, 3)), vec![rect(0, 0, 4, 3)]);
}

#[test]
fn empty_set_copies_nothing() {
    let set = DamageSet::empty();
    assert!(!set.is_full());
    assert!(set.rects_for_frame(size(4, 3)).is_empty());
}

#[test]
fn reported_damage_is_copied() {
    let frame = size(100, 100);
    let mut set = DamageSet::empty();
    set.add_many(&[rect(1, 2, 3, 4), rect(-5, 90, 10, 20), rect(0, 0, 0, 9)], frame);
    assert!(!set.is_full());
    assert_eq!(
        set.rects_for_frame(frame),
        vec![rect(1, 2, 3, 4), rect(0, 90, 5, 10)]
    );
}

#[test]
fn damage_accumulates() {
    let frame = size(100, 100);
    let mut set = DamageSet::empty();
    set.add_many(&[rect(1, 2, 3, 4)], frame);
    set.add_many(&[rect(50, 50, 2, 2)], frame);
    assert_eq!(
        set.rects_for_frame(frame),
        vec![rect(1, 2, 3, 4), rect(50, 50, 2, 2)]
    );
}

#[test]
fn full_damage_absorbs() {
    let frame = size(100, 100);
    let mut set = DamageSet::full();
    set.add_many(&[rect(1, 1, 1, 1)], frame);
    assert_eq!(set, DamageSet::full());
}

#[test]
fn damage_of_two_fifths_is_full() {
    let frame = size(100, 100);
    let mut below = DamageSet::empty();
    below.add_many(&[rect(0, 0, 100, 39)], frame);
    assert!(!below.is_full());
    let mut at = DamageSet::empty();
    at.add_many(&[rect(0, 0, 100, 40)], frame);
    assert!(at.is_full());
}

#[test]
fn overlaps_count_twice() {
    let frame = size(100, 100);
    let mut set = DamageSet::empty();
    set.add_many(&[rect(0, 0, 100, 20), rect(0, 0, 100, 20)], frame);
    assert!(set.is_full());
}

#[test]
fn too_many_rects_are_full() {
    let frame = size(1000, 1000);
    let many: Vec<DamageRect> = (0..MAX_DAMAGE_RECTS as i32).map(|i| rect(i, i, 1, 1)).collect();
    let mut set = DamageSet::empty();
    set.add_many(&many, frame);
    assert!(!set.is_full());
    assert_eq!(set.rects_for_frame(frame).len(), 24);
    set.add_many(&[rect(500, 500, 1, 1)], frame);
    assert!(set.is_full());
    assert_eq!(set.rects_for_frame(frame), vec![rect(0, 0, 1000, 1000)]);
}

#[test]
fn empty_frame_is_full() {
    let mut set = DamageSet::empty();
    set.add_many(&[], size(0, 10));
    assert!(set.is_full());
}

#[test]
fn copied_rects_lie_in_the_frame() {
    let mut set = DamageSet::empty();
    set.add_many(&[rect(10, 10, 50, 5)], size(100, 100));
    assert_eq!(set.rects_for_frame(size(20, 12)), vec![rect(10, 10, 10, 2)]);
    assert!(set.rects_for_frame(size(5, 5)).is_empty());
}

#[test]
fn simplifying_clips_to_a_smaller_frame() {
    let mut set = DamageSet::empty();
    set.add_many(&[rect(10, 10, 4, 4), rect(60, 60, 4, 4)], size(100, 100));
    set.simplify(size(50, 50));
    assert_eq!(set.rects_for_frame(size(100, 100)), vec![rect(10, 10, 4, 4)]);
}

#[test]
fn large_frames_can_be_weighed() {
    let frame = size(16384, 16384);
    let mut set = DamageSet::empty();
    set.add_many(&[rect(0, 0, 10, 10), rect(-1, -1, 5, 5)], frame);
    assert_eq!(
        set.rects_for_frame(frame),
        vec![rect(0, 0, 10, 10), rect(0, 0, 4, 4)]
    );
}

#[test]
fn damage_can_be_taken_where_it_can_be_weighed() {
    let huge = size(1 << 29, 1 << 29);
    let whole = rect(0, 0, 1 << 29, 1 << 29);
    let corner = rect(0, 0, 8, 8);
    assert!(DamageSet::empty().can_take(&[whole], size(4096, 2160)));
    assert!(DamageSet::empty().can_take(&[corner], huge));
    assert!(!DamageSet::empty().can_take(&[whole], huge));
    assert!(!DamageSet::empty().can_take(&[corner], size(u32::MAX, u32::MAX)));
    assert!(DamageSet::full().can_take(&[whole], size(u32::MAX, u32::MAX)));
    assert!(DamageSet::empty().can_take(&[whole], size(0, u32::MAX)));
    let many = vec![corner; MAX_DAMAGE_RECTS + 1];
    assert!(DamageSet::empty().can_take(&many, size(u32::MAX, u32::MAX)));
}
