//! Damage of captured frames: which part of a buffer has to be copied again.
//!
//! A damage set is either a short list of rectangles or the whole frame. It falls back to the
//! whole frame once the list is long or covers much of the frame.

use vstd::prelude::*;

use crate::geometry::Size;

verus! {

/// The longest list of rectangles that a damage set keeps.
pub const MAX_DAMAGE_RECTS: usize = 24;

/// The share of the frame, in percent, from which on the whole frame counts as damaged.
pub const FULL_DAMAGE_AREA_PERCENT: u64 = 40;

/// A damaged rectangle in buffer coordinates.
#[derive(Debug, Clone, Copy, PartialEq, Eq, Structural)]
pub struct DamageRect {
    pub x: i32,
    pub y: i32,
    pub width: i32,
    pub height: i32,
}

/// The part of an extent that damage coordinates can address.
pub open spec fn addressable(extent: u32) -> int {
    if extent <= i32::MAX {
        extent as int
    } else {
        i32::MAX as int
    }
}

/// Whether a pixel lies in the addressable part of a frame.
pub open spec fn in_frame(frame: Size, px: int, py: int) -> bool {
    0 <= px < addressable(frame.width) && 0 <= py < addressable(frame.height)
}

/// The value nearest to `v` between 0 and `hi`.
pub open spec fn clamped(v: int, hi: int) -> int {
    if v < 0 {
        0
    } else if v > hi {
        hi
    } else {
        v
    }
}

impl DamageRect {
    /// Whether the rectangle has a positive extent.
    pub open spec fn valid(self) -> bool {
        self.width > 0 && self.height > 0
    }

    /// Whether a pixel lies in the rectangle.
    pub open spec fn covers(self, px: int, py: int) -> bool {
        self.x <= px < self.x + self.width && self.y <= py < self.y + self.height
    }

    /// The rectangle of all addressable pixels of a frame.
    pub open spec fn of_frame(frame: Size) -> DamageRect {
        DamageRect {
            x: 0,
            y: 0,
            width: addressable(frame.width) as i32,
            height: addressable(frame.height) as i32,
        }
    }

    /// The part of the rectangle inside the frame, if there is any.
    pub open spec fn clip(self, frame: Size) -> Option<DamageRect> {
        let x1 = clamped(self.x as int, addressable(frame.width));
        let y1 = clamped(self.y as int, addressable(frame.height));
        let x2 = clamped(self.x + self.width, addressable(frame.width));
        let y2 = clamped(self.y + self.height, addressable(frame.height));
        if self.valid() && x1 < x2 && y1 < y2 {
            Some(
                DamageRect {
                    x: x1 as i32,
                    y: y1 as i32,
                    width: (x2 - x1) as i32,
                    height: (y2 - y1) as i32,
                },
            )
        } else {
            None
        }
    }

    /// The number of pixels of the rectangle.
    pub open spec fn pixels(self) -> int {
        if self.valid() {
            self.width * self.height
        } else {
            0
        }
    }

    /// The rectangle of all addressable pixels of a frame.
    pub fn full(size: Size) -> (rect: Self)
        ensures
            rect == Self::of_frame(size),
    {
        let limit: u32 = i32::MAX as u32;
        let width: u32 = if size.width < limit { size.width } else { limit };
        let height: u32 = if size.height < limit { size.height } else { limit };
        DamageRect { x: 0, y: 0, width: width as i32, height: height as i32 }
    }

    /// Whether the rectangle has a positive extent.
    pub fn is_valid(&self) -> (valid: bool)
        ensures
            valid == self.valid(),
    {
        self.width > 0 && self.height > 0
    }

    /// The part of the rectangle inside the frame, if there is any.
    pub fn clipped_to(&self, size: Size) -> (clipped: Option<Self>)
        ensures
            clipped == self.clip(size),
    {
        if !self.is_valid() || size.width == 0 || size.height == 0 {
            return None;
        }
        let bounds = DamageRect::full(size);
        let max_x: i64 = bounds.width as i64;
        let max_y: i64 = bounds.height as i64;
        let x1: i64 = clamp_to(self.x as i64, max_x);
        let y1: i64 = clamp_to(self.y as i64, max_y);
        let x2: i64 = clamp_to(self.x as i64 + self.width as i64, max_x);
        let y2: i64 = clamp_to(self.y as i64 + self.height as i64, max_y);
        if x2 <= x1 || y2 <= y1 {
            return None;
        }
        Some(
            DamageRect {
                x: x1 as i32,
                y: y1 as i32,
                width: (x2 - x1) as i32,
                height: (y2 - y1) as i32,
            },
        )
    }

    /// The number of pixels of the rectangle, 0 for one without a positive extent.
    pub fn area(&self) -> (area: u64)
        ensures
            area == self.pixels(),
    {
        if !self.is_valid() {
            return 0;
        }
        proof {
            lemma_pixels_bound(*self);
        }
        self.width as u64 * self.height as u64
    }
}

fn clamp_to(v: i64, hi: i64) -> (clamped_v: i64)
    requires
        0 <= hi,
    ensures
        clamped_v == clamped(v as int, hi as int),
{
    if v < 0 {
        0
    } else if v > hi {
        hi
    } else {
        v
    }
}

proof fn lemma_pixels_bound(rect: DamageRect)
    ensures
        0 <= rect.pixels() <= i32::MAX * i32::MAX,
{
    if rect.valid() {
        assert(0 <= rect.width * rect.height <= i32::MAX * i32::MAX) by (nonlinear_arith)
            requires
                0 < rect.width <= i32::MAX,
                0 < rect.height <= i32::MAX,
        ;
    }
}

/// The parts of the rectangles inside the frame, in order, without the empty ones.
pub open spec fn clip_all(rects: Seq<DamageRect>, frame: Size) -> Seq<DamageRect>
    decreases rects.len(),
{
    if rects.len() == 0 {
        Seq::empty()
    } else {
        let init = clip_all(rects.drop_last(), frame);
        match rects.last().clip(frame) {
            Some(rect) => init.push(rect),
            None => init,
        }
    }
}

/// The sum of the pixel counts; overlaps count more than once.
pub open spec fn total_pixels(rects: Seq<DamageRect>) -> int
    decreases rects.len(),
{
    if rects.len() == 0 {
        0
    } else {
        total_pixels(rects.drop_last()) + rects.last().pixels()
    }
}

/// The damaged pixels that count against the share of the frame.
pub open spec fn counted_pixels(rects: Seq<DamageRect>, frame: Size) -> int {
    if total_pixels(rects) < frame.area() {
        total_pixels(rects)
    } else {
        frame.area()
    }
}

/// What a damage set holds.
#[verifier::ext_equal]
pub struct DamageView {
    pub full: bool,
    pub rects: Seq<DamageRect>,
}

impl DamageView {
    /// The whole frame.
    pub open spec fn whole() -> DamageView {
        DamageView { full: true, rects: Seq::empty() }
    }

    /// No damage.
    pub open spec fn none() -> DamageView {
        DamageView { full: false, rects: Seq::empty() }
    }

    /// A set of the whole frame lists no rectangles.
    pub open spec fn wf(self) -> bool {
        self.full ==> self.rects.len() == 0
    }

    /// The set with its rectangles clipped to the frame, or the whole frame where the list is too
    /// long, the frame is empty or the rectangles take up too much of it.
    pub open spec fn simplified(self, frame: Size) -> DamageView {
        let kept = clip_all(self.rects, frame);
        if self.full {
            self
        } else if kept.len() > MAX_DAMAGE_RECTS || frame.area() == 0 || counted_pixels(kept, frame)
            * 100 >= frame.area() * FULL_DAMAGE_AREA_PERCENT {
            DamageView::whole()
        } else {
            DamageView { full: false, rects: kept }
        }
    }

    /// The set after more damage was reported for a frame.
    pub open spec fn with_damage(self, rects: Seq<DamageRect>, frame: Size) -> DamageView {
        if self.full {
            self
        } else {
            DamageView { full: false, rects: self.rects + clip_all(rects, frame) }.simplified(frame)
        }
    }

    /// The rectangles to copy for a frame.
    pub open spec fn rects_for(self, frame: Size) -> Seq<DamageRect> {
        if self.full {
            seq![DamageRect::of_frame(frame)]
        } else {
            clip_all(self.rects, frame)
        }
    }

    /// Whether a pixel of a frame will be copied.
    pub open spec fn copies(self, frame: Size, px: int, py: int) -> bool {
        exists|i: int|
            0 <= i < self.rects_for(frame).len() && (#[trigger] self.rects_for(frame)[i]).covers(
                px,
                py,
            )
    }

    /// Whether weighing the rectangles against the frame stays within 64 bits.
    pub open spec fn weighable(self, frame: Size) -> bool {
        let kept = clip_all(self.rects, frame);
        !self.full && kept.len() <= MAX_DAMAGE_RECTS && frame.area() != 0 ==> {
            &&& total_pixels(kept) <= u64::MAX
            &&& counted_pixels(kept, frame) * 100 <= u64::MAX
            &&& frame.area() * FULL_DAMAGE_AREA_PERCENT <= u64::MAX
        }
    }

    /// Whether weighing the set after `with_damage` stays within 64 bits.
    pub open spec fn can_take(self, rects: Seq<DamageRect>, frame: Size) -> bool {
        DamageView { full: self.full, rects: self.rects + clip_all(rects, frame) }.weighable(frame)
    }
}

/// The damage that a buffer has missed.
#[derive(Debug, Clone, PartialEq, Eq)]
pub struct DamageSet {
    full: bool,
    rects: Vec<DamageRect>,
}

impl View for DamageSet {
    type V = DamageView;

    closed spec fn view(&self) -> DamageView {
        DamageView { full: self.full, rects: self.rects@ }
    }
}

impl DamageSet {
    /// The damage of a whole frame.
    pub fn full() -> (set: Self)
        ensures
            set@ == DamageView::whole(),
    {
        DamageSet { full: true, rects: Vec::new() }
    }

    /// No damage.
    pub fn empty() -> (set: Self)
        ensures
            set@ == DamageView::none(),
    {
        DamageSet { full: false, rects: Vec::new() }
    }

    /// Whether the whole frame is damaged.
    pub fn is_full(&self) -> (full: bool)
        ensures
            full == self@.full,
    {
        self.full
    }

    /// Whether weighing the set after `add_many` stays within 64 bits.
    pub fn can_take(&self, rects: &[DamageRect], frame_size: Size) -> (can: bool)
        ensures
            can == self@.can_take(rects@, frame_size),
    {
        if self.full {
            return true;
        }
        let mut more: Vec<DamageRect> = self.rects.clone();
        assert(more@ == self.rects@);
        push_clipped(&mut more, rects, frame_size);
        let kept: Vec<DamageRect> = clip_rects(&more, frame_size);
        if kept.len() > MAX_DAMAGE_RECTS {
            return true;
        }
        proof {
            assert(0 <= frame_size.width * frame_size.height <= u32::MAX * u32::MAX)
                by (nonlinear_arith)
                requires
                    0 <= frame_size.width <= u32::MAX,
                    0 <= frame_size.height <= u32::MAX,
            ;
        }
        let area: u128 = frame_size.width as u128 * frame_size.height as u128;
        if area == 0 {
            return true;
        }
        let total: u128 = sum_areas(&kept);
        let counted: u128 = if total < area { total } else { area };
        let limit: u128 = u64::MAX as u128;
        total <= limit && counted * 100 <= limit && area * FULL_DAMAGE_AREA_PERCENT as u128
            <= limit
    }

    /// Adds the damage that was reported for a frame.
    pub fn add_many(&mut self, rects: &[DamageRect], frame_size: Size)
        requires
            old(self)@.can_take(rects@, frame_size),
        ensures
            final(self)@ == old(self)@.with_damage(rects@, frame_size),
    {
        if self.full {
            return;
        }
        push_clipped(&mut self.rects, rects, frame_size);
        self.simplify(frame_size);
    }

    /// The rectangles to copy for a frame.
    pub fn rects_for_frame(&self, frame_size: Size) -> (rects: Vec<DamageRect>)
        ensures
            rects@ == self@.rects_for(frame_size),
    {
        if self.full {
            return vec![DamageRect::full(frame_size)];
        }
        clip_rects(&self.rects, frame_size)
    }

    /// Clips the rectangles to the frame and falls back to the whole frame where they are too many
    /// or take up too much of it.
    pub fn simplify(&mut self, frame_size: Size)
        requires
            old(self)@.weighable(frame_size),
        ensures
            final(self)@ == old(self)@.simplified(frame_size),
    {
        if self.full {
            return;
        }
        self.rects = clip_rects(&self.rects, frame_size);
        if self.rects.len() > MAX_DAMAGE_RECTS {
            self.full = true;
            self.rects.clear();
            return;
        }
        proof {
            assert(frame_size.width * frame_size.height <= u32::MAX * u32::MAX) by (nonlinear_arith)
                requires
                    frame_size.width <= u32::MAX,
                    frame_size.height <= u32::MAX,
            ;
        }
        let frame_area: u64 = frame_size.width as u64 * frame_size.height as u64;
        if frame_area == 0 {
            self.full = true;
            self.rects.clear();
            return;
        }
        let total: u64 = sum_areas(&self.rects) as u64;
        let damaged_area: u64 = if total < frame_area { total } else { frame_area };
        if damaged_area * 100 >= frame_area * FULL_DAMAGE_AREA_PERCENT {
            self.full = true;
            self.rects.clear();
        }
    }
}

fn push_clipped(kept: &mut Vec<DamageRect>, rects: &[DamageRect], frame: Size)
    ensures
        final(kept)@ == old(kept)@ + clip_all(rects@, frame),
{
    let ghost before = kept@;
    let mut i: usize = 0;
    while i < rects.len()
        invariant
            i <= rects.len(),
            kept@ == before + clip_all(rects@.take(i as int), frame),
        decreases rects.len() - i,
    {
        assert(rects@.take(i + 1).drop_last() == rects@.take(i as int));
        if let Some(rect) = rects[i].clipped_to(frame) {
            kept.push(rect);
        }
        i += 1;
    }
    assert(rects@.take(i as int) == rects@);
}

fn clip_rects(rects: &Vec<DamageRect>, frame: Size) -> (kept: Vec<DamageRect>)
    ensures
        kept@ == clip_all(rects@, frame),
{
    let mut kept: Vec<DamageRect> = Vec::new();
    push_clipped(&mut kept, rects.as_slice(), frame);
    kept
}

fn sum_areas(rects: &Vec<DamageRect>) -> (total: u128)
    requires
        rects@.len() <= MAX_DAMAGE_RECTS,
    ensures
        total == total_pixels(rects@),
{
    let mut total: u128 = 0;
    let mut i: usize = 0;
    while i < rects.len()
        invariant
            i <= rects.len() <= MAX_DAMAGE_RECTS,
            total == total_pixels(rects@.take(i as int)),
            total <= i * u64::MAX,
        decreases rects.len() - i,
    {
        assert(rects@.take(i + 1).drop_last() == rects@.take(i as int));
        total = total + rects[i].area() as u128;
        i += 1;
    }
    assert(rects@.take(i as int) == rects@);
    total
}

/// Clipping is intersection: the clipped rectangle has exactly the pixels that the rectangle and
/// the frame share, and nothing is left exactly where they share none.
pub proof fn law_clip_is_intersection(rect: DamageRect, frame: Size)
    requires
        rect.valid(),
    ensures
        rect.clip(frame) matches Some(clipped) ==> clipped.valid() && forall|px: int, py: int| #[trigger]
            clipped.covers(px, py) <==> rect.covers(px, py) && in_frame(frame, px, py),
        rect.clip(frame) is None <==> forall|px: int, py: int|
            !(#[trigger] rect.covers(px, py) && in_frame(frame, px, py)),
{
    if let Some(clipped) = rect.clip(frame) {
        assert(rect.covers(clipped.x as int, clipped.y as int) && in_frame(
            frame,
            clipped.x as int,
            clipped.y as int,
        ));
    }
}

/// Clipping a second time changes nothing.
pub proof fn law_clip_is_idempotent(rects: Seq<DamageRect>, frame: Size)
    ensures
        clip_all(clip_all(rects, frame), frame) == clip_all(rects, frame),
    decreases rects.len(),
{
    if rects.len() > 0 {
        law_clip_is_idempotent(rects.drop_last(), frame);
        let init = clip_all(rects.drop_last(), frame);
        if let Some(rect) = rects.last().clip(frame) {
            assert(init.push(rect).drop_last() == init);
            assert(rect.clip(frame) == Some(rect));
        }
    }
}

/// A damaged pixel stays among the clipped rectangles where it lies in the frame.
proof fn lemma_clip_all_keeps(rects: Seq<DamageRect>, frame: Size, i: int, px: int, py: int) -> (j:
    int)
    requires
        0 <= i < rects.len(),
        rects[i].valid(),
        rects[i].covers(px, py),
        in_frame(frame, px, py),
    ensures
        0 <= j < clip_all(rects, frame).len(),
        clip_all(rects, frame)[j].covers(px, py),
        clip_all(rects, frame)[j].valid(),
    decreases rects.len(),
{
    let init = clip_all(rects.drop_last(), frame);
    if i == rects.len() - 1 {
        law_clip_is_intersection(rects[i], frame);
        init.len() as int
    } else {
        lemma_clip_all_keeps(rects.drop_last(), frame, i, px, py)
    }
}

proof fn lemma_clip_all_members(rects: Seq<DamageRect>, frame: Size)
    ensures
        clip_all(rects, frame).len() <= rects.len(),
        forall|j: int| 0 <= j < clip_all(rects, frame).len() ==> {
            let rect = #[trigger] clip_all(rects, frame)[j];
            &&& rect.valid()
            &&& 0 <= rect.x && rect.x + rect.width <= addressable(frame.width)
            &&& 0 <= rect.y && rect.y + rect.height <= addressable(frame.height)
        },
    decreases rects.len(),
{
    if rects.len() > 0 {
        lemma_clip_all_members(rects.drop_last(), frame);
    }
}

proof fn lemma_clip_all_appended(a: Seq<DamageRect>, b: Seq<DamageRect>, frame: Size)
    ensures
        clip_all(a + b, frame) == clip_all(a, frame) + clip_all(b, frame),
    decreases b.len(),
{
    if b.len() == 0 {
        assert(a + b == a);
    } else {
        assert((a + b).drop_last() == a + b.drop_last());
        lemma_clip_all_appended(a, b.drop_last(), frame);
    }
}

proof fn lemma_whole_frame_copies(frame: Size, px: int, py: int)
    requires
        in_frame(frame, px, py),
    ensures
        DamageView::whole().copies(frame, px, py),
{
    assert(DamageView::whole().rects_for(frame)[0].covers(px, py));
}

/// No reported damage is lost: every pixel of the frame that lies in a reported rectangle is
/// copied the next time the set is used for that frame.
pub proof fn law_reported_damage_is_copied(
    set: DamageView,
    rects: Seq<DamageRect>,
    frame: Size,
    i: int,
    px: int,
    py: int,
)
    requires
        0 <= i < rects.len(),
        rects[i].valid(),
        rects[i].covers(px, py),
        in_frame(frame, px, py),
    ensures
        set.with_damage(rects, frame).copies(frame, px, py),
{
    let after = set.with_damage(rects, frame);
    if after.full {
        assert(after.rects_for(frame) == DamageView::whole().rects_for(frame));
        lemma_whole_frame_copies(frame, px, py);
        assert(after.rects_for(frame)[0].covers(px, py));
    } else {
        let added = clip_all(rects, frame);
        lemma_clip_all_appended(set.rects, added, frame);
        law_clip_is_idempotent(rects, frame);
        law_clip_is_idempotent(set.rects + added, frame);
        let j = lemma_clip_all_keeps(rects, frame, i, px, py);
        let k = clip_all(set.rects, frame).len() + j;
        assert(after.rects_for(frame)[k].covers(px, py));
    }
}

/// Reporting more damage never takes a pixel out of the set.
pub proof fn law_damage_only_grows(
    set: DamageView,
    rects: Seq<DamageRect>,
    frame: Size,
    px: int,
    py: int,
)
    requires
        set.copies(frame, px, py),
    ensures
        set.with_damage(rects, frame).copies(frame, px, py),
{
    let after = set.with_damage(rects, frame);
    let i = choose|i: int|
        0 <= i < set.rects_for(frame).len() && (#[trigger] set.rects_for(frame)[i]).covers(px, py);
    if set.full {
    } else if after.full {
        lemma_clip_all_members(set.rects, frame);
        lemma_whole_frame_copies(frame, px, py);
        assert(after.rects_for(frame)[0].covers(px, py));
    } else {
        let added = clip_all(rects, frame);
        lemma_clip_all_appended(set.rects, added, frame);
        law_clip_is_idempotent(set.rects + added, frame);
        assert(after.rects_for(frame)[i].covers(px, py));
    }
}

/// Once the whole frame is damaged, it stays so until the set is replaced.
pub proof fn law_full_damage_absorbs(set: DamageView, rects: Seq<DamageRect>, frame: Size)
    requires
        set.full,
    ensures
        set.with_damage(rects, frame) == set,
        set.simplified(frame) == set,
{
}

/// A set that does not stand for the whole frame stays small: at most `MAX_DAMAGE_RECTS`
/// rectangles, each inside the frame, which together take up less than
/// `FULL_DAMAGE_AREA_PERCENT` of it. One that stands for the whole frame lists no rectangles.
pub proof fn law_damage_stays_small(set: DamageView, rects: Seq<DamageRect>, frame: Size)
    requires
        set.wf(),
    ensures
        set.with_damage(rects, frame).wf(),
        !set.with_damage(rects, frame).full ==> {
            let kept = set.with_damage(rects, frame).rects;
            &&& kept.len() <= MAX_DAMAGE_RECTS
            &&& total_pixels(kept) * 100 < frame.area() * FULL_DAMAGE_AREA_PERCENT
            &&& forall|j: int|
                0 <= j < kept.len() ==> (#[trigger] kept[j]).valid() && kept[j].clip(frame) == Some(
                    kept[j],
                )
        },
{
    if !set.with_damage(rects, frame).full {
        lemma_clip_all_members(set.rects + clip_all(rects, frame), frame);
        assert(frame.area() >= 0) by (nonlinear_arith)
            requires
                frame.area() == frame.width * frame.height,
                frame.width >= 0,
                frame.height >= 0,
        ;
    }
}

/// The rectangles for a frame are those of the clipped set: each has pixels, and all of them lie
/// in the frame.
pub proof fn law_copied_rects_lie_in_frame(set: DamageView, frame: Size, i: int, px: int, py: int)
    requires
        0 <= i < set.rects_for(frame).len(),
        set.rects_for(frame)[i].covers(px, py),
    ensures
        in_frame(frame, px, py),
{
    if !set.full {
        lemma_clip_all_members(set.rects, frame);
    }
}

/// Weighing damage stays within 64 bits for every frame whose area does so a hundredfold.
pub proof fn law_common_frames_are_weighable(set: DamageView, rects: Seq<DamageRect>, frame: Size)
    requires
        frame.area() * 100 <= u64::MAX,
    ensures
        set.weighable(frame),
        set.can_take(rects, frame),
{
    let more = DamageView { full: set.full, rects: set.rects + clip_all(rects, frame) };
    lemma_clip_all_total(set.rects, frame);
    lemma_clip_all_total(more.rects, frame);
    assert(0 <= frame.area()) by (nonlinear_arith)
        requires
            frame.area() == frame.width * frame.height,
            frame.width >= 0,
            frame.height >= 0,
    ;
    assert forall|kept: Seq<DamageRect>|
        kept.len() <= MAX_DAMAGE_RECTS && total_pixels(kept) <= kept.len()
            * frame.area() implies #[trigger] total_pixels(kept) <= u64::MAX by {
        assert(kept.len() * frame.area() <= 24 * frame.area()) by (nonlinear_arith)
            requires
                kept.len() <= 24,
                0 <= frame.area(),
        ;
    }
}

proof fn lemma_clip_all_total(rects: Seq<DamageRect>, frame: Size)
    ensures
        0 <= total_pixels(clip_all(rects, frame)) <= clip_all(rects, frame).len() * frame.area(),
    decreases rects.len(),
{
    if rects.len() > 0 {
        let init = clip_all(rects.drop_last(), frame);
        lemma_clip_all_total(rects.drop_last(), frame);
        if let Some(rect) = rects.last().clip(frame) {
            assert(init.push(rect).drop_last() == init);
            assert(0 <= rect.width * rect.height <= frame.width * frame.height) by (nonlinear_arith)
                requires
                    0 <= rect.width <= frame.width,
                    0 <= rect.height <= frame.height,
            ;
            assert((init.len() + 1) * frame.area() == init.len() * frame.area() + frame.area())
                by (nonlinear_arith);
        }
    }
}

/// Whether a pixel lies between the edges of a rectangle.
pub open spec fn has_pixel(rect: DamageRect, px: int, py: int) -> bool {
    rect.x <= px && px < rect.x + rect.width && rect.y <= py && py < rect.y + rect.height
}

/// Whether a frame has a pixel that a rectangle can have too.
pub open spec fn shows(frame: Size, px: int, py: int) -> bool {
    0 <= px && px < frame.width && px < i32::MAX && 0 <= py && py < frame.height && py < i32::MAX
}

/// Whether a pixel lies in one of the rectangles.
pub open spec fn have_pixel(rects: Seq<DamageRect>, px: int, py: int) -> bool {
    exists|i: int| 0 <= i < rects.len() && has_pixel(#[trigger] rects[i], px, py)
}

/// Clipping a rectangle keeps the pixels that it shares with the frame, and no others. Nothing is
/// left exactly where there is none, as for a rectangle without a positive extent.
pub proof fn law_clipping_keeps_shared_pixels(
    rect: DamageRect,
    frame: Size,
    clipped: Option<DamageRect>,
)
    requires
        call_ensures(DamageRect::clipped_to, (&rect, frame), clipped),
    ensures
        clipped matches Some(c) ==> c.width > 0 && c.height > 0 && forall|px: int, py: int|
            #[trigger] has_pixel(c, px, py) <==> has_pixel(rect, px, py) && shows(frame, px, py),
        clipped is None ==> forall|px: int, py: int| #[trigger]
            has_pixel(rect, px, py) ==> !shows(frame, px, py),
        rect.width <= 0 || rect.height <= 0 ==> clipped is None,
{
    if let Some(c) = clipped {
        assert(has_pixel(c, c.x as int, c.y as int));
    } else {
        assert forall|px: int, py: int| #[trigger] has_pixel(rect, px, py) implies !shows(
            frame,
            px,
            py,
        ) by {
            assert(rect.width > 0 && rect.height > 0);
        }
    }
}

/// The rectangle of a frame starts at its corner and has every pixel of it that can be named.
pub proof fn law_full_rect_has_the_frame(frame: Size, rect: DamageRect)
    requires
        call_ensures(DamageRect::full, (frame,), rect),
    ensures
        rect.x == 0 && rect.y == 0,
        rect.width == (if frame.width <= 0x7fff_ffff {
            frame.width as int
        } else {
            0x7fff_ffff
        }),
        rect.height == (if frame.height <= 0x7fff_ffff {
            frame.height as int
        } else {
            0x7fff_ffff
        }),
        forall|px: int, py: int| #[trigger] has_pixel(rect, px, py) <==> shows(frame, px, py),
{
}

/// A rectangle is valid where it has both a width and a height, and its area is their product.
pub proof fn law_valid_rects_have_pixels(rect: DamageRect, valid: bool, area: u64)
    requires
        call_ensures(DamageRect::is_valid, (&rect,), valid),
        call_ensures(DamageRect::area, (&rect,), area),
    ensures
        valid <==> rect.width > 0 && rect.height > 0,
        rect.width > 0 && rect.height > 0 ==> area == rect.width * rect.height,
        rect.width <= 0 || rect.height <= 0 ==> area == 0,
        valid <==> exists|px: int, py: int| has_pixel(rect, px, py),
{
    if rect.width > 0 && rect.height > 0 {
        assert(has_pixel(rect, rect.x as int, rect.y as int));
    }
}

/// Rectangles are clipped one after the other, each on its own, and their areas add up.
pub proof fn law_rects_are_clipped_in_turn(
    a: Seq<DamageRect>,
    b: Seq<DamageRect>,
    rect: DamageRect,
    frame: Size,
)
    ensures
        clip_all(a + b, frame) == clip_all(a, frame) + clip_all(b, frame),
        rect.clip(frame) matches Some(c) ==> clip_all(seq![rect], frame) == seq![c],
        rect.clip(frame) is None ==> clip_all(seq![rect], frame).len() == 0,
        total_pixels(a + b) == total_pixels(a) + total_pixels(b),
        rect.width > 0 && rect.height > 0 ==> total_pixels(seq![rect]) == rect.width * rect.height,
        rect.width <= 0 || rect.height <= 0 ==> total_pixels(seq![rect]) == 0,
    decreases b.len(),
{
    reveal_with_fuel(clip_all, 2);
    reveal_with_fuel(total_pixels, 2);
    assert(seq![rect].drop_last() == Seq::<DamageRect>::empty());
    if b.len() == 0 {
        assert(a + b == a);
    } else {
        assert((a + b).drop_last() == a + b.drop_last());
        law_rects_are_clipped_in_turn(a, b.drop_last(), rect, frame);
        assert(clip_all(a + b, frame) == clip_all(a, frame) + clip_all(b, frame));
    }
}

proof fn lemma_pixels_of_clipped(rects: Seq<DamageRect>, frame: Size, px: int, py: int)
    ensures
        have_pixel(clip_all(rects, frame), px, py) <==> have_pixel(rects, px, py) && shows(
            frame,
            px,
            py,
        ),
    decreases rects.len(),
{
    if rects.len() > 0 {
        let init = rects.drop_last();
        let kept = clip_all(init, frame);
        let all = clip_all(rects, frame);
        lemma_pixels_of_clipped(init, frame, px, py);
        if have_pixel(init, px, py) {
            let i = choose|i: int| 0 <= i < init.len() && has_pixel(#[trigger] init[i], px, py);
            assert(has_pixel(rects[i], px, py));
        }
        if have_pixel(rects, px, py) {
            let i = choose|i: int| 0 <= i < rects.len() && has_pixel(#[trigger] rects[i], px, py);
            if i < init.len() {
                assert(has_pixel(init[i], px, py));
            }
        }
        if have_pixel(kept, px, py) {
            let i = choose|i: int| 0 <= i < kept.len() && has_pixel(#[trigger] kept[i], px, py);
            assert(has_pixel(all[i], px, py));
        }
        if have_pixel(all, px, py) {
            let i = choose|i: int| 0 <= i < all.len() && has_pixel(#[trigger] all[i], px, py);
            if i < kept.len() {
                assert(has_pixel(kept[i], px, py));
            }
        }
        assert(has_pixel(rects[rects.len() - 1], px, py) ==> have_pixel(rects, px, py));
        if rects.last().clip(frame) is Some {
            assert(has_pixel(all[all.len() - 1], px, py) ==> have_pixel(all, px, py));
        }
    }
}

pub(crate) proof fn lemma_copied(set: DamageView, frame: Size, px: int, py: int)
    ensures
        have_pixel(set.rects_for(frame), px, py) <==> shows(frame, px, py) && (set.full
            || have_pixel(set.rects, px, py)),
{
    lemma_pixels_of_clipped(set.rects, frame, px, py);
    if set.full {
        assert(has_pixel(set.rects_for(frame)[0], px, py) <==> shows(frame, px, py));
    }
}

/// A set of the whole frame copies every pixel of the frame. Any other set copies the pixels of the
/// frame that lie in its rectangles. Neither copies a pixel that the frame does not have.
pub proof fn law_missed_pixels_are_copied(
    set: DamageSet,
    frame: Size,
    whole: DamageRect,
    rects: Vec<DamageRect>,
    px: int,
    py: int,
)
    requires
        call_ensures(DamageRect::full, (frame,), whole),
        call_ensures(DamageSet::rects_for_frame, (&set, frame), rects),
    ensures
        set@.full ==> (have_pixel(rects@, px, py) <==> shows(frame, px, py)),
        !set@.full ==> (have_pixel(rects@, px, py) <==> have_pixel(set@.rects, px, py) && shows(
            frame,
            px,
            py,
        )),
        set@.full ==> rects@ == seq![whole],
        !set@.full ==> rects@ == clip_all(set@.rects, frame),
{
    lemma_pixels_of_clipped(set@.rects, frame, px, py);
    if set@.full {
        assert(has_pixel(rects@[0], px, py) <==> shows(frame, px, py));
    }
}

/// The set of the whole frame says so and misses every pixel. The empty set misses none.
pub proof fn law_full_misses_all_and_empty_none(
    all: DamageSet,
    all_full: bool,
    nothing: DamageSet,
    nothing_full: bool,
    frame: Size,
    all_rects: Vec<DamageRect>,
    no_rects: Vec<DamageRect>,
    px: int,
    py: int,
)
    requires
        call_ensures(DamageSet::full, (), all),
        call_ensures(DamageSet::is_full, (&all,), all_full),
        call_ensures(DamageSet::rects_for_frame, (&all, frame), all_rects),
        call_ensures(DamageSet::empty, (), nothing),
        call_ensures(DamageSet::is_full, (&nothing,), nothing_full),
        call_ensures(DamageSet::rects_for_frame, (&nothing, frame), no_rects),
    ensures
        all_full && !nothing_full,
        have_pixel(all_rects@, px, py) <==> shows(frame, px, py),
        no_rects@.len() == 0,
{
    lemma_copied(all@, frame, px, py);
}

/// Whether a list of rectangles inside a frame is too much to keep: more than 24 of them, or 40
/// percent of the frame. The frame may also have no pixel at all.
pub open spec fn is_too_much(kept: Seq<DamageRect>, frame: Size) -> bool {
    ||| frame.width == 0
    ||| frame.height == 0
    ||| kept.len() > 24
    ||| total_pixels(kept) * 100 >= frame.width * frame.height * 40
}

proof fn lemma_weight(kept: Seq<DamageRect>, frame: Size)
    ensures
        is_too_much(kept, frame) <==> (kept.len() > MAX_DAMAGE_RECTS || frame.area() == 0
            || counted_pixels(kept, frame) * 100 >= frame.area() * FULL_DAMAGE_AREA_PERCENT),
        frame.area() == 0 <==> frame.width == 0 || frame.height == 0,
        frame.area() >= 0,
{
    assert(frame.width * frame.height >= 0) by (nonlinear_arith)
        requires
            frame.width >= 0,
            frame.height >= 0,
    ;
    assert(frame.width * frame.height == 0 <==> frame.width == 0 || frame.height == 0)
        by (nonlinear_arith)
        requires
            frame.width >= 0,
            frame.height >= 0,
    ;
}

/// Reported damage is added to what was missed before, to the pixel: a set that does not end up as
/// the whole frame misses what it missed before and what was reported inside the frame, and nothing
/// else. It ends up as the whole frame where it was that before or has become too much to keep.
pub proof fn law_reported_damage_is_added(
    set: &mut DamageSet,
    rects: &[DamageRect],
    frame: Size,
    px: int,
    py: int,
)
    requires
        call_ensures(DamageSet::add_many, (set, rects, frame), ()),
    ensures
        final(set)@.full <==> old(set)@.full || is_too_much(
            clip_all(old(set)@.rects + rects@, frame),
            frame,
        ),
        old(set)@.full ==> final(set)@ == old(set)@,
        !old(set)@.full && final(set)@.full ==> final(set)@.rects.len() == 0,
        !final(set)@.full ==> (have_pixel(final(set)@.rects, px, py) <==> shows(frame, px, py) && (
        have_pixel(old(set)@.rects, px, py) || have_pixel(rects@, px, py))),
        !final(set)@.full ==> final(set)@.rects == clip_all(old(set)@.rects + rects@, frame),
{
    lemma_added(*old(set), *final(set), rects@, frame, px, py);
}

pub(crate) proof fn lemma_added(
    before: DamageSet,
    after: DamageSet,
    rects: Seq<DamageRect>,
    frame: Size,
    px: int,
    py: int,
)
    requires
        after@ == before@.with_damage(rects, frame),
    ensures
        after@.full <==> before@.full || is_too_much(
            clip_all(before@.rects + rects, frame),
            frame,
        ),
        before@.full ==> after@ == before@,
        !before@.full && after@.full ==> after@.rects.len() == 0,
        !after@.full ==> (have_pixel(after@.rects, px, py) <==> shows(frame, px, py) && (have_pixel(
            before@.rects,
            px,
            py,
        ) || have_pixel(rects, px, py))),
        !after@.full ==> after@.rects == clip_all(before@.rects + rects, frame),
{
    let all = before@.rects + rects;
    let added = clip_all(rects, frame);
    let kept = clip_all(before@.rects + added, frame);
    lemma_clip_all_appended(before@.rects, added, frame);
    lemma_clip_all_appended(before@.rects, rects, frame);
    law_clip_is_idempotent(rects, frame);
    assert(kept == clip_all(all, frame));
    lemma_weight(kept, frame);
    lemma_pixels_of_clipped(all, frame, px, py);
    if have_pixel(before@.rects, px, py) {
        let i = choose|i: int|
            0 <= i < before@.rects.len() && has_pixel(#[trigger] before@.rects[i], px, py);
        assert(has_pixel(all[i], px, py));
    }
    if have_pixel(rects, px, py) {
        let i = choose|i: int| 0 <= i < rects.len() && has_pixel(#[trigger] rects[i], px, py);
        assert(has_pixel(all[before@.rects.len() + i], px, py));
    }
    if have_pixel(all, px, py) {
        let i = choose|i: int| 0 <= i < all.len() && has_pixel(#[trigger] all[i], px, py);
        if i < before@.rects.len() {
            assert(has_pixel(before@.rects[i], px, py));
        } else {
            assert(has_pixel(rects[i - before@.rects.len()], px, py));
        }
    }
}

/// To simplify a set keeps its pixels of the frame, or makes it the whole frame where it is too
/// much to keep.
pub proof fn law_simplifying_keeps_pixels(set: &mut DamageSet, frame: Size, px: int, py: int)
    requires
        call_ensures(DamageSet::simplify, (set, frame), ()),
    ensures
        final(set)@.full <==> old(set)@.full || is_too_much(
            clip_all(old(set)@.rects, frame),
            frame,
        ),
        old(set)@.full ==> final(set)@ == old(set)@,
        !old(set)@.full && final(set)@.full ==> final(set)@.rects.len() == 0,
        !final(set)@.full ==> (have_pixel(final(set)@.rects, px, py) <==> shows(frame, px, py)
            && have_pixel(old(set)@.rects, px, py)),
        !final(set)@.full ==> final(set)@.rects == clip_all(old(set)@.rects, frame),
{
    lemma_weight(clip_all(old(set)@.rects, frame), frame);
    lemma_pixels_of_clipped(old(set)@.rects, frame, px, py);
}

/// A set can take more damage unless it has to weigh a list against the frame and the numbers for
/// that are out of reach: the sum of the areas, a hundred times what counts of it, or 40 times the
/// area of the frame.
pub proof fn law_damage_that_can_be_taken(
    set: DamageSet,
    rects: &[DamageRect],
    frame: Size,
    can: bool,
)
    requires
        call_ensures(DamageSet::can_take, (&set, rects, frame), can),
    ensures
        set@.full || frame.width == 0 || frame.height == 0 || clip_all(
            set@.rects + rects@,
            frame,
        ).len() > 24 ==> can,
        !(set@.full || frame.width == 0 || frame.height == 0 || clip_all(
            set@.rects + rects@,
            frame,
        ).len() > 24) ==> {
            let total = total_pixels(clip_all(set@.rects + rects@, frame));
            let area = frame.width * frame.height;
            can <==> total <= u64::MAX && (total * 100 <= u64::MAX || area * 100 <= u64::MAX)
                && area * 40 <= u64::MAX
        },
{
    let added = clip_all(rects@, frame);
    lemma_clip_all_appended(set@.rects, added, frame);
    lemma_clip_all_appended(set@.rects, rects@, frame);
    law_clip_is_idempotent(rects@, frame);
    lemma_weight(clip_all(set@.rects + rects@, frame), frame);
}

} // verus!
