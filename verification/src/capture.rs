//! Screen capture: which display to capture, what part of each captured frame to
//! send, in which order, and when to ask the video encoder for a keyframe.

use crate::cursor::RgbaPointer;
use crate::pixels;
use std::collections::VecDeque;
use vstd::prelude::*;

verus! {

/// Percentage of the frame that has to change for an immediate keyframe.
pub const KEYFRAME_CHANGE_PCT: u64 = 20;

/// The same, shortly after a click.
pub const KEYFRAME_CHANGE_PCT_POST_CLICK: u64 = 5;

/// How long after a click the lower percentage holds, in milliseconds.
pub const POST_CLICK_WINDOW_MS: u64 = 400;

/// When the mouse was last pressed, in milliseconds since some start.
pub struct ClickSignal {
    /// 0 is never.
    pub last_click_ms: u64,
}

impl Default for ClickSignal {
    fn default() -> (r: Self)
        ensures
            r.last_click_ms == 0,
    {
        ClickSignal::new()
    }
}

impl ClickSignal {
    /// No click yet.
    pub fn new() -> (r: Self)
        ensures
            r.last_click_ms == 0,
    {
        ClickSignal { last_click_ms: 0 }
    }

    /// Remembers a click. One at the very start counts as one millisecond later,
    /// so that it is not taken for none.
    pub fn record_click(&mut self, now_ms: u64)
        ensures
            final(self).last_click_ms == recorded(now_ms),
    {
        self.last_click_ms = if now_ms == 0 {
            1
        } else {
            now_ms
        };
    }

    /// Whether the last click was at most `window_ms` ago.
    pub fn within(&self, now_ms: u64, window_ms: u64) -> (r: bool)
        ensures
            r == clicked_within(self.last_click_ms, now_ms, window_ms),
    {
        if self.last_click_ms == 0 {
            return false;
        }
        now_ms.saturating_sub(self.last_click_ms) <= window_ms
    }
}

/// The time that a click is remembered by; 0 would be none.
pub open spec fn recorded(click_ms: u64) -> u64 {
    if click_ms == 0 {
        1
    } else {
        click_ms
    }
}

/// Whether a click, if there was one, was at most `window_ms` ago.
pub open spec fn clicked_within(last_click_ms: u64, now_ms: u64, window_ms: u64) -> bool {
    last_click_ms != 0 && now_ms - last_click_ms <= window_ms
}

/// A click is noticed from the moment it is recorded until its window is over, and
/// not a millisecond longer. One at the very start counts as one millisecond later.
pub proof fn law_click_window(click_ms: u64, now_ms: u64, window_ms: u64)
    requires
        click_ms <= now_ms,
    ensures
        click_ms >= 1 ==> (clicked_within(recorded(click_ms), now_ms, window_ms) <==> now_ms
            - click_ms <= window_ms),
        click_ms == 0 ==> (clicked_within(recorded(click_ms), now_ms, window_ms) <==> now_ms - 1
            <= window_ms),
        !clicked_within(0, now_ms, window_ms),
{
}

/// How many clients are taking frames.
pub struct SessionTracker {
    pub count: usize,
}

impl SessionTracker {
    /// A client connected: the count before it.
    pub fn enter(&mut self) -> (prev: usize)
        ensures
            prev == old(self).count,
            final(self).count == old(self).count.wrapping_add(1),
    {
        let prev: usize = self.count;
        self.count = prev.wrapping_add(1);
        prev
    }

    /// A client left: the count before that.
    pub fn leave(&mut self) -> (prev: usize)
        ensures
            prev == old(self).count,
            final(self).count == old(self).count.wrapping_sub(1),
    {
        let prev: usize = self.count;
        self.count = prev.wrapping_sub(1);
        prev
    }
}

/// A client that leaves undoes its own arrival: sessions that come and go leave
/// the count where it was.
pub proof fn law_session_count_is_balanced(count: usize)
    ensures
        count.wrapping_add(1).wrapping_sub(1) == count,
        count.wrapping_sub(1).wrapping_add(1) == count,
{
}

/// A display as the system lists it.
#[derive(Debug, Clone, Copy, PartialEq, Eq, Structural)]
pub struct DisplayInfo {
    pub id: u32,
    pub width: u32,
    pub height: u32,
}

/// Why a display cannot be captured.
#[derive(Debug, Clone, Copy, PartialEq, Eq, Structural)]
pub enum CaptureError {
    /// No display with this id is listed.
    NoSuchDisplay(u32),
    /// No display is listed at all.
    NoDisplays,
    /// The width does not fit the protocol.
    WidthTooLarge,
    /// The height does not fit the protocol.
    HeightTooLarge,
}

/// What to capture.
#[derive(Debug, Clone, Copy, PartialEq, Eq, Structural)]
pub struct CapturePlan {
    /// Position of the display in the list.
    pub index: usize,
    /// Whether the desktop is a scaled picture of the display. Changed areas are
    /// reported in the display's own coordinates, so then every frame is sent
    /// whole.
    pub force_full_frame: bool,
}

/// The position of the display to capture: the first with the wanted id, or the
/// first of all where none is wanted.
pub open spec fn chosen_display(displays: Seq<DisplayInfo>, target: Option<u32>) -> Option<int>
    decreases displays.len(),
{
    match target {
        None => if displays.len() > 0 {
            Some(0)
        } else {
            None
        },
        Some(id) => if displays.len() == 0 {
            None
        } else {
            match chosen_display(displays.drop_last(), target) {
                Some(i) => Some(i),
                None => if displays.last().id == id {
                    Some(displays.len() - 1)
                } else {
                    None
                },
            }
        },
    }
}

/// The size of a display in the protocol's terms.
pub open spec fn protocol_size(d: DisplayInfo) -> Result<(u16, u16), CaptureError> {
    if d.width > u16::MAX {
        Err(CaptureError::WidthTooLarge)
    } else if d.height > u16::MAX {
        Err(CaptureError::HeightTooLarge)
    } else {
        Ok((d.width as u16, d.height as u16))
    }
}

fn display_size(d: &DisplayInfo) -> (r: Result<(u16, u16), CaptureError>)
    ensures
        r == protocol_size(*d),
{
    if d.width > 0xffff {
        Err(CaptureError::WidthTooLarge)
    } else if d.height > 0xffff {
        Err(CaptureError::HeightTooLarge)
    } else {
        Ok((d.width as u16, d.height as u16))
    }
}

fn find_display(displays: &[DisplayInfo], target: Option<u32>) -> (r: Option<usize>)
    ensures
        match r {
            Some(i) => chosen_display(displays@, target) == Some(i as int) && i < displays@.len(),
            None => chosen_display(displays@, target) is None,
        },
{
    match target {
        None => if displays.len() > 0 {
            Some(0)
        } else {
            None
        },
        Some(id) => {
            let mut i: usize = 0;
            assert(displays@.subrange(0, 0) =~= Seq::<DisplayInfo>::empty());
            while i < displays.len()
                invariant
                    i <= displays@.len(),
                    target == Some(id),
                    chosen_display(displays@.subrange(0, i as int), target) is None,
                decreases displays@.len() - i,
            {
                proof {
                    let next = displays@.subrange(0, i + 1);
                    assert(next.drop_last() =~= displays@.subrange(0, i as int));
                    assert(next.last() == displays@[i as int]);
                }
                if displays[i].id == id {
                    proof {
                        lemma_chosen_in_prefix(displays@, target, i + 1);
                    }
                    return Some(i);
                }
                i = i + 1;
            }
            assert(displays@.subrange(0, i as int) =~= displays@);
            None
        },
    }
}

/// A display found in the first part of a list is the one found in all of it.
proof fn lemma_chosen_in_prefix(displays: Seq<DisplayInfo>, target: Option<u32>, n: int)
    requires
        0 <= n <= displays.len(),
        target is Some,
        chosen_display(displays.subrange(0, n), target) is Some,
    ensures
        chosen_display(displays, target) == chosen_display(displays.subrange(0, n), target),
    decreases displays.len() - n,
{
    if n == displays.len() {
        assert(displays.subrange(0, n) =~= displays);
    } else {
        let next = displays.subrange(0, n + 1);
        assert(next.drop_last() =~= displays.subrange(0, n));
        lemma_chosen_in_prefix(displays, target, n + 1);
    }
}

/// The size of the primary display.
pub open spec fn primary_size(displays: Seq<DisplayInfo>) -> Result<(u16, u16), CaptureError> {
    if displays.len() == 0 {
        Err(CaptureError::NoDisplays)
    } else {
        protocol_size(displays[0])
    }
}

/// The size of the primary display, which is the first one listed.
pub fn primary_display_size(displays: &[DisplayInfo]) -> (r: Result<(u16, u16), CaptureError>)
    ensures
        r == primary_size(displays@),
{
    if displays.len() == 0 {
        Err(CaptureError::NoDisplays)
    } else {
        display_size(&displays[0])
    }
}

/// The capture of a `width` x `height` desktop from one of these displays.
pub open spec fn planned(
    displays: Seq<DisplayInfo>,
    target: Option<u32>,
    width: u16,
    height: u16,
) -> Result<CapturePlan, CaptureError> {
    match chosen_display(displays, target) {
        None => Err(
            match target {
                Some(id) => CaptureError::NoSuchDisplay(id),
                None => CaptureError::NoDisplays,
            },
        ),
        Some(i) => match protocol_size(displays[i]) {
            Err(e) => Err(e),
            Ok((w, h)) => Ok(
                CapturePlan { index: i as usize, force_full_frame: w != width || h != height },
            ),
        },
    }
}

/// Plans the capture of a `width` x `height` desktop from one of these displays.
pub fn plan_capture(
    displays: &[DisplayInfo],
    target: Option<u32>,
    width: u16,
    height: u16,
) -> (r: Result<CapturePlan, CaptureError>)
    ensures
        r == planned(displays@, target, width, height),
{
    match find_display(displays, target) {
        None => match target {
            Some(id) => Err(CaptureError::NoSuchDisplay(id)),
            None => Err(CaptureError::NoDisplays),
        },
        Some(i) => match display_size(&displays[i]) {
            Err(e) => Err(e),
            Ok((w, h)) => Ok(
                CapturePlan { index: i, force_full_frame: w != width || h != height },
            ),
        },
    }
}

/// A rectangle within a frame.
#[derive(Debug, Clone, Copy, PartialEq, Eq, Structural)]
pub struct Rect {
    pub x: u16,
    pub y: u16,
    pub w: u16,
    pub h: u16,
}

/// A changed area as the system reports it, rounded to whole pixels.
#[derive(Debug, Clone, Copy, PartialEq, Eq, Structural)]
pub struct DirtyRect {
    pub x: u32,
    pub y: u32,
    pub w: u32,
    pub h: u32,
}

pub open spec fn at_most(a: int, b: int) -> int {
    if a < b {
        a
    } else {
        b
    }
}

/// The part of a changed area that lies within a frame, unless that is nothing.
pub open spec fn clamped(r: DirtyRect, width: u16, height: u16) -> Option<Rect> {
    let x = at_most(r.x as int, width as int);
    let y = at_most(r.y as int, height as int);
    let w = at_most(r.w as int, width - x);
    let h = at_most(r.h as int, height - y);
    if w == 0 || h == 0 {
        None
    } else {
        Some(Rect { x: x as u16, y: y as u16, w: w as u16, h: h as u16 })
    }
}

/// The parts of changed areas that lie within a frame, in order.
pub open spec fn all_clamped(dirty: Seq<DirtyRect>, width: u16, height: u16) -> Seq<Rect>
    decreases dirty.len(),
{
    if dirty.len() == 0 {
        Seq::empty()
    } else {
        match clamped(dirty.last(), width, height) {
            Some(r) => all_clamped(dirty.drop_last(), width, height).push(r),
            None => all_clamped(dirty.drop_last(), width, height),
        }
    }
}

/// Cuts a changed area down to a frame.
pub fn clamp_rect(r: DirtyRect, width: u16, height: u16) -> (out: Option<Rect>)
    ensures
        out == clamped(r, width, height),
{
    let x: u16 = if r.x < width as u32 {
        r.x as u16
    } else {
        width
    };
    let y: u16 = if r.y < height as u32 {
        r.y as u16
    } else {
        height
    };
    let w: u16 = if r.w < (width - x) as u32 {
        r.w as u16
    } else {
        width - x
    };
    let h: u16 = if r.h < (height - y) as u32 {
        r.h as u16
    } else {
        height - y
    };
    if w == 0 || h == 0 {
        None
    } else {
        Some(Rect { x, y, w, h })
    }
}

/// What is sent of a frame: all of it for the first one, for a scaled one, and
/// where the changed areas are not known; else the changed areas.
pub open spec fn rects_to_send(
    seeded: bool,
    force_full_frame: bool,
    dirty: Option<Seq<DirtyRect>>,
    width: u16,
    height: u16,
) -> Seq<Rect> {
    if seeded && !force_full_frame && dirty is Some && dirty->0.len() > 0 {
        all_clamped(dirty->0, width, height)
    } else {
        seq![Rect { x: 0, y: 0, w: width, h: height }]
    }
}

/// Decides what is sent of a frame.
pub fn plan_rects(
    seeded: bool,
    force_full_frame: bool,
    dirty: Option<&[DirtyRect]>,
    width: u16,
    height: u16,
) -> (out: Vec<Rect>)
    ensures
        out@ == rects_to_send(
            seeded,
            force_full_frame,
            match dirty {
                Some(d) => Some(d@),
                None => None,
            },
            width,
            height,
        ),
{
    let mut out: Vec<Rect> = Vec::new();
    match dirty {
        Some(list) => {
            if seeded && !force_full_frame && list.len() > 0 {
                let mut i: usize = 0;
                assert(list@.subrange(0, 0) =~= Seq::<DirtyRect>::empty());
                while i < list.len()
                    invariant
                        i <= list@.len(),
                        out@ == all_clamped(list@.subrange(0, i as int), width, height),
                    decreases list@.len() - i,
                {
                    proof {
                        let next = list@.subrange(0, i + 1);
                        assert(next.drop_last() =~= list@.subrange(0, i as int));
                        assert(next.last() == list@[i as int]);
                    }
                    match clamp_rect(list[i], width, height) {
                        Some(r) => {
                            out.push(r);
                        },
                        None => {},
                    }
                    i = i + 1;
                }
                assert(list@.subrange(0, i as int) =~= list@);
                return out;
            }
        },
        None => {},
    }
    out.push(Rect { x: 0, y: 0, w: width, h: height });
    assert(out@ =~= seq![Rect { x: 0, y: 0, w: width, h: height }]);
    out
}

/// Whether a rectangle lies within a frame.
pub open spec fn inside(r: Rect, width: u16, height: u16) -> bool {
    r.x + r.w <= width && r.y + r.h <= height
}

/// Every rectangle that is sent lies within the frame, whatever the system
/// reported.
pub proof fn law_sent_rects_lie_in_the_frame(
    seeded: bool,
    force_full_frame: bool,
    dirty: Option<Seq<DirtyRect>>,
    width: u16,
    height: u16,
)
    ensures
        forall|i: int|
            #![trigger rects_to_send(seeded, force_full_frame, dirty, width, height)[i]]
            0 <= i < rects_to_send(seeded, force_full_frame, dirty, width, height).len() ==> inside(
                rects_to_send(seeded, force_full_frame, dirty, width, height)[i],
                width,
                height,
            ),
{
    if dirty is Some {
        lemma_all_clamped_inside(dirty->0, width, height);
    }
}

proof fn lemma_all_clamped_inside(dirty: Seq<DirtyRect>, width: u16, height: u16)
    ensures
        forall|i: int|
            0 <= i < all_clamped(dirty, width, height).len() ==> {
                let r = #[trigger] all_clamped(dirty, width, height)[i];
                inside(r, width, height) && r.w > 0 && r.h > 0
            },
    decreases dirty.len(),
{
    if dirty.len() > 0 {
        lemma_all_clamped_inside(dirty.drop_last(), width, height);
        lemma_clamped_inside(dirty.last(), width, height);
        let before = all_clamped(dirty.drop_last(), width, height);
        let all = all_clamped(dirty, width, height);
        assert forall|i: int| 0 <= i < all.len() implies {
            let r = #[trigger] all[i];
            inside(r, width, height) && r.w > 0 && r.h > 0
        } by {
            if i < before.len() {
                assert(all[i] == before[i]);
            }
        }
    }
}

proof fn lemma_clamped_inside(d: DirtyRect, width: u16, height: u16)
    ensures
        clamped(d, width, height) matches Some(r) ==> inside(r, width, height) && r.w > 0 && r.h
            > 0,
{
}

/// The first frame seeds the client's cache: it is sent whole.
pub proof fn law_first_frame_is_whole(
    force_full_frame: bool,
    dirty: Option<Seq<DirtyRect>>,
    width: u16,
    height: u16,
)
    ensures
        rects_to_send(false, force_full_frame, dirty, width, height) == seq![
            Rect { x: 0, y: 0, w: width, h: height },
        ],
{
}

/// The order of the bytes of a pixel.
#[derive(Debug, Clone, Copy, PartialEq, Eq, Structural)]
pub enum PixelFormat {
    ARgb32,
    BgrA32,
}

/// A rectangle of new pixels, in tight rows.
pub struct BitmapUpdate {
    pub x: u16,
    pub y: u16,
    pub width: u16,
    pub height: u16,
    pub format: PixelFormat,
    pub data: Vec<u8>,
    pub stride: usize,
}

/// An update for the client.
pub enum DisplayUpdate {
    Bitmap(BitmapUpdate),
    Pointer(RgbaPointer),
}

/// Whether a captured frame holds the pixels of a rectangle.
pub open spec fn holds_rect(len: int, stride: int, r: Rect) -> bool {
    r.w > 0 && r.h > 0 ==> pixels::rows_fit(
        len,
        r.y * stride + 4 * r.x,
        stride,
        4 * r.w,
        r.h as int,
    )
}

/// Whether an update shows a rectangle of a captured frame.
pub open spec fn shows(u: BitmapUpdate, src: Seq<u8>, stride: int, r: Rect) -> bool {
    &&& u.x == r.x && u.y == r.y && u.width == r.w && u.height == r.h
    &&& u.format == PixelFormat::BgrA32
    &&& u.stride == 4 * r.w
    &&& u.data@ == pixels::packed_rows(src, r.y * stride + 4 * r.x, stride, 4 * r.w, r.h as int)
}

/// Copies a rectangle out of a captured frame. A rectangle without pixels gives
/// no update.
pub fn rect_update(src: &[u8], src_stride: usize, r: Rect) -> (out: Option<BitmapUpdate>)
    requires
        holds_rect(src@.len() as int, src_stride as int, r),
    ensures
        match out {
            Some(u) => r.w > 0 && r.h > 0 && shows(u, src@, src_stride as int, r),
            None => r.w == 0 || r.h == 0,
        },
{
    if r.w == 0 || r.h == 0 {
        return None;
    }
    let row_bytes: usize = r.w as usize * 4;
    let len: usize = src.len();
    assert(0 <= (r.h - 1) * src_stride) by (nonlinear_arith)
        requires
            r.h > 0,
    ;
    assert(r.y * src_stride + 4 * r.x <= len);
    assert(0 <= r.y * src_stride) by (nonlinear_arith);
    let at: usize = r.y as usize * src_stride + r.x as usize * 4;
    let data = pixels::copy_rows(src, at, src_stride, row_bytes, r.h as usize);
    Some(
        BitmapUpdate {
            x: r.x,
            y: r.y,
            width: r.w,
            height: r.h,
            format: PixelFormat::BgrA32,
            data,
            stride: row_bytes,
        },
    )
}

/// The area of changed rectangles, in pixels.
pub open spec fn area(sizes: Seq<(u32, u32)>) -> int
    decreases sizes.len(),
{
    if sizes.len() == 0 {
        0
    } else {
        area(sizes.drop_last()) + sizes.last().0 * sizes.last().1
    }
}

/// The area of changed rectangles, in pixels, or the largest number there is.
pub fn changed_area(sizes: &[(u32, u32)]) -> (r: u64)
    ensures
        r == at_most(area(sizes@), u64::MAX as int),
{
    let mut total: u64 = 0;
    let mut i: usize = 0;
    assert(sizes@.subrange(0, 0) =~= Seq::<(u32, u32)>::empty());
    while i < sizes.len()
        invariant
            i <= sizes@.len(),
            total == at_most(area(sizes@.subrange(0, i as int)), u64::MAX as int),
        decreases sizes@.len() - i,
    {
        let (w, h) = sizes[i];
        proof {
            let next = sizes@.subrange(0, i + 1);
            assert(next.drop_last() =~= sizes@.subrange(0, i as int));
            assert(next.last() == (w, h));
            assert(0 <= w * h <= 0xffff_ffff * 0xffff_ffff) by (nonlinear_arith)
                requires
                    w <= 0xffff_ffff,
                    h <= 0xffff_ffff,
            ;
        }
        let one: u64 = w as u64 * h as u64;
        total = total.saturating_add(one);
        i = i + 1;
    }
    assert(sizes@.subrange(0, i as int) =~= sizes@);
    total
}

/// The percentage that a change has to reach for a keyframe.
pub open spec fn threshold(clicked: bool) -> int {
    if clicked {
        KEYFRAME_CHANGE_PCT_POST_CLICK as int
    } else {
        KEYFRAME_CHANGE_PCT as int
    }
}

/// Whether a change is large enough for a keyframe.
pub open spec fn is_big(frame_px: u64, changed_px: u64, clicked: bool) -> bool {
    frame_px > 0 && changed_px * 100 >= frame_px * threshold(clicked)
}

/// Whether the screen is calm enough to wait for the next large change.
pub open spec fn is_quiet(frame_px: u64, changed_px: u64, clicked: bool) -> bool {
    frame_px == 0 || changed_px * 100 < frame_px * (threshold(clicked) / 2)
}

/// Fires when a large change begins, and not again until it has subsided.
pub struct KeyframeTrigger {
    pub armed: bool,
}

/// Whether a frame asks for a keyframe.
pub open spec fn fires(armed: bool, frame_px: u64, changed_px: u64, clicked: bool) -> bool {
    armed && is_big(frame_px, changed_px, clicked)
}

/// Whether the trigger is armed after a frame.
pub open spec fn armed_after(armed: bool, frame_px: u64, changed_px: u64, clicked: bool) -> bool {
    if fires(armed, frame_px, changed_px, clicked) {
        false
    } else if is_quiet(frame_px, changed_px, clicked) {
        true
    } else {
        armed
    }
}

impl KeyframeTrigger {
    /// Ready for the first large change.
    pub fn new() -> (r: Self)
        ensures
            r.armed,
    {
        KeyframeTrigger { armed: true }
    }

    /// Looks at how much of a frame changed: whether to ask for a keyframe.
    pub fn observe(&mut self, frame_px: u64, changed_px: u64, clicked: bool) -> (fire: bool)
        ensures
            fire == fires(old(self).armed, frame_px, changed_px, clicked),
            final(self).armed == armed_after(old(self).armed, frame_px, changed_px, clicked),
    {
        let high: u64 = if clicked {
            KEYFRAME_CHANGE_PCT_POST_CLICK
        } else {
            KEYFRAME_CHANGE_PCT
        };
        let low: u64 = high / 2;
        let changed: u128 = changed_px as u128 * 100;
        assert(0 <= frame_px * high <= 0xffff_ffff_ffff_ffff * 100) by (nonlinear_arith)
            requires
                frame_px <= 0xffff_ffff_ffff_ffff,
                high <= 100,
        ;
        assert(0 <= frame_px * low <= 0xffff_ffff_ffff_ffff * 100) by (nonlinear_arith)
            requires
                frame_px <= 0xffff_ffff_ffff_ffff,
                low <= 100,
        ;
        let big = frame_px > 0 && changed >= frame_px as u128 * high as u128;
        let quiet = frame_px == 0 || changed < frame_px as u128 * low as u128;
        if self.armed && big {
            self.armed = false;
            true
        } else {
            if quiet {
                self.armed = true;
            }
            false
        }
    }
}

/// One frame as the trigger sees it: its pixels, how many changed, and whether
/// the mouse was clicked shortly before.
pub struct Observation {
    pub frame_px: u64,
    pub changed_px: u64,
    pub clicked: bool,
}

/// The trigger's state after some frames.
pub open spec fn armed_after_all(armed: bool, frames: Seq<Observation>) -> bool
    decreases frames.len(),
{
    if frames.len() == 0 {
        armed
    } else {
        let last = frames.last();
        armed_after(
            armed_after_all(armed, frames.drop_last()),
            last.frame_px,
            last.changed_px,
            last.clicked,
        )
    }
}

/// Sustained change asks for one keyframe only: after one fired, none fires again
/// as long as no frame is quiet, however many frames pass.
pub proof fn law_sustained_change_fires_once(
    first: Observation,
    frames: Seq<Observation>,
    next: Observation,
)
    requires
        fires(true, first.frame_px, first.changed_px, first.clicked),
        forall|i: int|
            0 <= i < frames.len() ==> !is_quiet(
                (#[trigger] frames[i]).frame_px,
                frames[i].changed_px,
                frames[i].clicked,
            ),
    ensures
        ({
            let armed = armed_after(true, first.frame_px, first.changed_px, first.clicked);
            !fires(
                armed_after_all(armed, frames),
                next.frame_px,
                next.changed_px,
                next.clicked,
            )
        }),
{
    lemma_stays_disarmed(frames);
}

proof fn lemma_stays_disarmed(frames: Seq<Observation>)
    requires
        forall|i: int|
            0 <= i < frames.len() ==> !is_quiet(
                (#[trigger] frames[i]).frame_px,
                frames[i].changed_px,
                frames[i].clicked,
            ),
    ensures
        !armed_after_all(false, frames),
    decreases frames.len(),
{
    if frames.len() > 0 {
        assert forall|i: int| 0 <= i < frames.drop_last().len() implies !is_quiet(
            (#[trigger] frames.drop_last()[i]).frame_px,
            frames.drop_last()[i].changed_px,
            frames.drop_last()[i].clicked,
        ) by {
            assert(frames.drop_last()[i] == frames[i]);
        }
        lemma_stays_disarmed(frames.drop_last());
        assert(frames.last() == frames[frames.len() - 1]);
    }
}

/// A quiet frame makes the trigger ready again, and the next large change fires.
pub proof fn law_quiet_frame_rearms(armed: bool, quiet: Observation, next: Observation)
    requires
        is_quiet(quiet.frame_px, quiet.changed_px, quiet.clicked),
        is_big(next.frame_px, next.changed_px, next.clicked),
    ensures
        fires(
            armed_after(armed, quiet.frame_px, quiet.changed_px, quiet.clicked),
            next.frame_px,
            next.changed_px,
            next.clicked,
        ),
{
    assert(quiet.frame_px * (threshold(quiet.clicked) / 2) <= quiet.frame_px * threshold(
        quiet.clicked,
    )) by (nonlinear_arith)
        requires
            threshold(quiet.clicked) >= 0,
    ;
}

impl Observation {
    /// Whether the change is large enough for a keyframe.
    pub open spec fn big(self) -> bool {
        is_big(self.frame_px, self.changed_px, self.clicked)
    }

    /// Whether the screen is calm enough to wait for the next large change.
    pub open spec fn quiet(self) -> bool {
        is_quiet(self.frame_px, self.changed_px, self.clicked)
    }
}

/// Whether frame `i` of a session asks for a keyframe.
pub open spec fn fires_at(frames: Seq<Observation>, i: int) -> bool {
    fires(
        armed_after_all(true, frames.subrange(0, i)),
        frames[i].frame_px,
        frames[i].changed_px,
        frames[i].clicked,
    )
}

/// Whether no frame from `from` up to `to` asked for a keyframe.
pub open spec fn none_fires(frames: Seq<Observation>, from: int, to: int) -> bool {
    forall|j: int| from <= j < to ==> !#[trigger] fires_at(frames, j)
}

/// Whether, at frame `i`, a quiet frame has come since the last one that asked for
/// a keyframe.
pub open spec fn calmed_down(frames: Seq<Observation>, i: int) -> bool {
    exists|k: int| 0 <= k < i && (#[trigger] frames[k]).quiet() && none_fires(frames, k, i)
}

/// Whether a keyframe is due at frame `i`: its change is large, and either none before
/// it asked for one, or a quiet frame has come since the last that did.
pub open spec fn keyframe_due(frames: Seq<Observation>, i: int) -> bool {
    frames[i].big() && (none_fires(frames, 0, i) || calmed_down(frames, i))
}

/// A frame asks for a keyframe exactly when its change is large and either none
/// before it asked for one, or a quiet frame has come since the last that did. So
/// sustained change costs one keyframe, not one for each frame.
pub proof fn law_keyframe_condition(frames: Seq<Observation>, i: int)
    requires
        0 <= i < frames.len(),
    ensures
        fires_at(frames, i) <==> keyframe_due(frames, i),
{
    lemma_armed(frames, i);
}

/// A frame cannot be quiet and large at once.
proof fn lemma_quiet_is_not_big(o: Observation)
    ensures
        !(o.quiet() && o.big()),
{
    assert(o.frame_px * (threshold(o.clicked) / 2) <= o.frame_px * threshold(o.clicked))
        by (nonlinear_arith)
        requires
            threshold(o.clicked) >= 0,
    ;
}

/// What being armed means in terms of the frames that came before.
proof fn lemma_armed(frames: Seq<Observation>, i: int)
    requires
        0 <= i <= frames.len(),
    ensures
        armed_after_all(true, frames.subrange(0, i)) <==> none_fires(frames, 0, i) || calmed_down(
            frames,
            i,
        ),
    decreases i,
{
    if i > 0 {
        let p = i - 1;
        lemma_armed(frames, p);
        let upto = frames.subrange(0, i);
        assert(upto.drop_last() =~= frames.subrange(0, p));
        assert(upto.last() == frames[p]);
        lemma_quiet_is_not_big(frames[p]);
        if fires_at(frames, p) {
            assert(!none_fires(frames, 0, i));
            if calmed_down(frames, i) {
                let k = choose|k: int|
                    0 <= k < i && (#[trigger] frames[k]).quiet() && none_fires(frames, k, i);
                assert(!fires_at(frames, p));
            }
        } else if frames[p].quiet() {
            assert(none_fires(frames, p, i));
            assert(calmed_down(frames, i));
        } else {
            if none_fires(frames, 0, p) {
                assert(none_fires(frames, 0, i));
            }
            if calmed_down(frames, p) {
                let k = choose|k: int|
                    0 <= k < p && (#[trigger] frames[k]).quiet() && none_fires(frames, k, p);
                assert(none_fires(frames, k, i));
            }
            if calmed_down(frames, i) {
                let k = choose|k: int|
                    0 <= k < i && (#[trigger] frames[k]).quiet() && none_fires(frames, k, i);
                assert(k < p);
                assert(none_fires(frames, k, p));
            }
        }
    }
}

/// A captured sample, apart from its pixels.
#[derive(Debug, Clone, Copy, PartialEq, Eq, Structural)]
pub struct Sample {
    /// Whether the frame has content, where the system says so.
    pub has_content: Option<bool>,
    /// Whether there are pixels.
    pub has_image: bool,
    pub width: usize,
    pub height: usize,
}

/// What a sample leads to.
#[derive(Debug, Clone, Copy, PartialEq, Eq, Structural)]
pub enum SampleStep {
    /// Nothing to show: take the next one.
    Skip,
    /// The frame is too large for the protocol.
    Fail(CaptureError),
    /// Submit the frame to the video encoder, with or without a keyframe.
    SubmitVideo { width: u16, height: u16, force_keyframe: bool },
    /// Send it as bitmaps.
    SendBitmaps { width: u16, height: u16 },
}

/// What happens while a client waits for its next update.
pub enum UpdateEvent<'a> {
    /// The top of the loop: the cursor updates that were read just now.
    Look(Vec<DisplayUpdate>),
    /// The stream delivered a sample. `changed_px` is how many of its pixels changed,
    /// and `clicked` whether the mouse was clicked shortly before.
    Captured { sample: Sample, changed_px: u64, clicked: bool },
    /// The stream ended.
    Ended,
    /// The video encoder took the frame for a client that shows video, or did not.
    Submitted(bool),
    /// The pixels of the frame, and which of them changed.
    Frame {
        src: &'a [u8],
        stride: usize,
        dirty: Option<&'a [DirtyRect]>,
        width: u16,
        height: u16,
    },
}

/// What to do for a client that waits for its next update.
pub enum UpdateStep {
    /// Give it this one.
    Send(DisplayUpdate),
    /// Wait for the next sample.
    Await,
    /// Back to the top of the loop.
    Again,
    /// Submit the frame to the video encoder, with or without a keyframe.
    Submit { width: u16, height: u16, force_keyframe: bool },
    /// Hand the frame's pixels in, to be sent as bitmaps.
    Draw { width: u16, height: u16 },
    /// Hand the pixels in of the frame that was submitted.
    DrawSubmitted,
    /// There are no more updates.
    End,
    /// The frame is too large for the protocol.
    Fail(CaptureError),
}

/// What follows a sample.
pub open spec fn update_step(step: SampleStep) -> UpdateStep {
    match step {
        SampleStep::Skip => UpdateStep::Again,
        SampleStep::Fail(e) => UpdateStep::Fail(e),
        SampleStep::SubmitVideo { width, height, force_keyframe } => UpdateStep::Submit {
            width,
            height,
            force_keyframe,
        },
        SampleStep::SendBitmaps { width, height } => UpdateStep::Draw { width, height },
    }
}

/// The updates of one client's session.
pub struct ScreenCaptureUpdates {
    pub pending: VecDeque<DisplayUpdate>,
    /// Whether a frame was sent.
    pub seeded: bool,
    pub force_full_frame: bool,
    /// Whether frames go to the video encoder first.
    pub video: bool,
    pub keyframe_on_change: bool,
    pub trigger: KeyframeTrigger,
}

/// The size of a frame in the protocol's terms, for a sample that shows one.
pub open spec fn sample_size(s: Sample) -> Option<Result<(u16, u16), CaptureError>> {
    if s.has_content == Some(false) || !s.has_image {
        None
    } else if s.width > u16::MAX {
        Some(Err(CaptureError::WidthTooLarge))
    } else if s.height > u16::MAX {
        Some(Err(CaptureError::HeightTooLarge))
    } else {
        Some(Ok((s.width as u16, s.height as u16)))
    }
}

/// The updates that show some rectangles of a frame, in order.
pub open spec fn show_all(
    updates: Seq<DisplayUpdate>,
    src: Seq<u8>,
    stride: int,
    rects: Seq<Rect>,
) -> bool {
    &&& updates.len() == rects.len()
    &&& forall|i: int|
        0 <= i < rects.len() ==> (#[trigger] updates[i] matches DisplayUpdate::Bitmap(u) && shows(
            u,
            src,
            stride,
            rects[i],
        ))
}

/// The changed rectangles as a value, where they are known.
pub open spec fn dirty_view(dirty: Option<&[DirtyRect]>) -> Option<Seq<DirtyRect>> {
    match dirty {
        Some(d) => Some(d@),
        None => None,
    }
}

/// Whether an update is the next of what is at hand, cursor updates first, and the
/// rest waits.
pub open spec fn handed_out(
    r: Option<DisplayUpdate>,
    cursor: Seq<DisplayUpdate>,
    before: Seq<DisplayUpdate>,
    after: Seq<DisplayUpdate>,
) -> bool {
    match r {
        Some(u) => seq![u] + after == cursor + before,
        None => cursor.len() == 0 && before.len() == 0 && after.len() == 0,
    }
}

/// Whether a frame was sent, after the video encoder took one or did not, and whether
/// the frame still has to be sent.
pub open spec fn after_video(seeded: bool, taken: bool) -> (bool, bool) {
    (seeded || taken, !taken)
}

/// The rectangles that have pixels.
pub open spec fn with_pixels(rects: Seq<Rect>) -> Seq<Rect> {
    rects.filter(|r: Rect| r.w > 0 && r.h > 0)
}

impl ScreenCaptureUpdates {
    /// A session that has sent nothing.
    pub fn new(force_full_frame: bool, video: bool, keyframe_on_change: bool) -> (r: Self)
        ensures
            r.pending@.len() == 0,
            !r.seeded,
            r.force_full_frame == force_full_frame,
            r.video == video,
            r.keyframe_on_change == keyframe_on_change,
            r.trigger.armed,
            r.saw(Seq::empty()),
    {
        ScreenCaptureUpdates {
            pending: VecDeque::new(),
            seeded: false,
            force_full_frame,
            video,
            keyframe_on_change,
            trigger: KeyframeTrigger::new(),
        }
    }

    /// Whether the trigger stands as it does after these frames, the first of a session
    /// first.
    pub open spec fn saw(self, frames: Seq<Observation>) -> bool {
        self.trigger.armed == armed_after_all(true, frames)
    }

    /// What a sample of a frame leads to, given whether the trigger is armed.
    pub open spec fn sample_step(self, sample: Sample, changed_px: u64, clicked: bool) -> SampleStep {
        match sample_size(sample) {
            None => SampleStep::Skip,
            Some(Err(e)) => SampleStep::Fail(e),
            Some(Ok((width, height))) => if self.video {
                SampleStep::SubmitVideo {
                    width,
                    height,
                    force_keyframe: self.keyframe_on_change && fires(
                        self.trigger.armed,
                        (width * height) as u64,
                        changed_px,
                        clicked,
                    ),
                }
            } else {
                SampleStep::SendBitmaps { width, height }
            },
        }
    }

    /// What the trigger sees of a sample, where it looks at it at all: at a frame that
    /// goes to the video encoder of a session with keyframes on change.
    pub open spec fn observed(self, sample: Sample, changed_px: u64, clicked: bool) -> Option<
        Observation,
    > {
        match sample_size(sample) {
            Some(Ok((width, height))) => if self.video && self.keyframe_on_change {
                Some(Observation { frame_px: (width * height) as u64, changed_px, clicked })
            } else {
                None
            },
            _ => None,
        }
    }

    /// Whether the trigger is armed after a sample.
    pub open spec fn armed_next(self, sample: Sample, changed_px: u64, clicked: bool) -> bool {
        match self.observed(sample, changed_px, clicked) {
            Some(o) => armed_after(self.trigger.armed, o.frame_px, o.changed_px, o.clicked),
            None => self.trigger.armed,
        }
    }

    /// Nothing but the trigger differs from `other`.
    pub open spec fn same_but_trigger(self, other: Self) -> bool {
        &&& self.pending@ == other.pending@
        &&& self.seeded == other.seeded
        &&& self.force_full_frame == other.force_full_frame
        &&& self.video == other.video
        &&& self.keyframe_on_change == other.keyframe_on_change
    }

    /// Whether what waits is `before`, and behind it what is to be sent of a frame.
    pub open spec fn queued(
        self,
        before: Self,
        src: Seq<u8>,
        stride: int,
        dirty: Option<Seq<DirtyRect>>,
        width: u16,
        height: u16,
    ) -> bool {
        let rects = rects_to_send(before.seeded, before.force_full_frame, dirty, width, height);
        let n = before.pending@.len() as int;
        &&& self.pending@.len() >= n
        &&& self.pending@.subrange(0, n) == before.pending@
        &&& show_all(
            self.pending@.subrange(n, self.pending@.len() as int),
            src,
            stride,
            with_pixels(rects),
        )
    }

    /// Nothing but the queue differs from `other`.
    pub open spec fn same_but_queue(self, other: Self) -> bool {
        &&& self.seeded == other.seeded
        &&& self.force_full_frame == other.force_full_frame
        &&& self.video == other.video
        &&& self.keyframe_on_change == other.keyframe_on_change
        &&& self.trigger == other.trigger
    }

    /// The next update to send, if one is at hand. New cursor updates go before
    /// everything that waits, so that the pointer keeps up; nothing is lost and
    /// nothing else changes places.
    pub fn next_pending(&mut self, cursor: Vec<DisplayUpdate>) -> (r: Option<DisplayUpdate>)
        ensures
            final(self).same_but_queue(*old(self)),
            handed_out(r, cursor@, old(self).pending@, final(self).pending@),
    {
        let ghost all = cursor@ + self.pending@;
        let mut rest = cursor;
        while rest.len() > 0
            invariant
                rest@ + self.pending@ == all,
                self.same_but_queue(*old(self)),
            decreases rest@.len(),
        {
            let ghost before = rest@ + self.pending@;
            match rest.pop() {
                Some(u) => {
                    self.pending.push_front(u);
                },
                None => {},
            }
            assert(rest@ + self.pending@ =~= before);
        }
        assert(self.pending@ =~= all);
        let r = self.pending.pop_front();
        assert(r is Some ==> seq![r->0] + self.pending@ =~= all);
        r
    }

    /// A sample arrived. `changed_px` is how many of its pixels changed, and
    /// `clicked` whether the mouse was clicked shortly before.
    pub fn on_sample(&mut self, sample: Sample, changed_px: u64, clicked: bool) -> (r: SampleStep)
        ensures
            final(self).same_but_trigger(*old(self)),
            r == old(self).sample_step(sample, changed_px, clicked),
            final(self).trigger.armed == old(self).armed_next(sample, changed_px, clicked),
    {
        match sample.has_content {
            Some(content) => {
                if !content {
                    return SampleStep::Skip;
                }
            },
            None => {},
        }
        if !sample.has_image {
            return SampleStep::Skip;
        }
        if sample.width > 0xffff {
            return SampleStep::Fail(CaptureError::WidthTooLarge);
        }
        if sample.height > 0xffff {
            return SampleStep::Fail(CaptureError::HeightTooLarge);
        }
        let width: u16 = sample.width as u16;
        let height: u16 = sample.height as u16;
        if !self.video {
            return SampleStep::SendBitmaps { width, height };
        }
        let force_keyframe = if self.keyframe_on_change {
            assert(0 <= width * height <= 0xffff * 0xffff) by (nonlinear_arith)
                requires
                    width <= 0xffff,
                    height <= 0xffff,
            ;
            self.trigger.observe(width as u64 * height as u64, changed_px, clicked)
        } else {
            false
        };
        SampleStep::SubmitVideo { width, height, force_keyframe }
    }

    /// The video encoder took the frame for a client that shows video, or it did
    /// not: whether the frame still has to be sent as bitmaps.
    pub fn on_video(&mut self, taken: bool) -> (send_bitmaps: bool)
        ensures
            (final(self).seeded, send_bitmaps) == after_video(old(self).seeded, taken),
            final(self).pending@ == old(self).pending@,
            final(self).force_full_frame == old(self).force_full_frame,
            final(self).video == old(self).video,
            final(self).keyframe_on_change == old(self).keyframe_on_change,
            final(self).trigger == old(self).trigger,
    {
        if taken {
            self.seeded = true;
        }
        !taken
    }

    /// Queues what is to be sent of a frame, behind what waits already.
    pub fn queue_frame(
        &mut self,
        src: &[u8],
        stride: usize,
        dirty: Option<&[DirtyRect]>,
        width: u16,
        height: u16,
    )
        requires
            holds_rect(
                src@.len() as int,
                stride as int,
                Rect { x: 0, y: 0, w: width, h: height },
            ),
        ensures
            final(self).seeded,
            final(self).force_full_frame == old(self).force_full_frame,
            final(self).video == old(self).video,
            final(self).keyframe_on_change == old(self).keyframe_on_change,
            final(self).trigger == old(self).trigger,
            final(self).queued(
                *old(self),
                src@,
                stride as int,
                dirty_view(dirty),
                width,
                height,
            ),
    {
        broadcast use vstd::seq_lib::group_seq_properties;

        let rects = plan_rects(self.seeded, self.force_full_frame, dirty, width, height);
        proof {
            law_sent_rects_lie_in_the_frame(
                self.seeded,
                self.force_full_frame,
                match dirty {
                    Some(d) => Some(d@),
                    None => None,
                },
                width,
                height,
            );
        }
        let ghost before = self.pending@;
        let ghost n = before.len() as int;
        let mut i: usize = 0;
        assert(rects@.subrange(0, 0) =~= Seq::<Rect>::empty());
        assert(with_pixels(rects@.subrange(0, 0)) =~= Seq::<Rect>::empty()) by {
            reveal(Seq::filter);
        }
        while i < rects.len()
            invariant
                i <= rects@.len(),
                n == before.len(),
                holds_rect(
                    src@.len() as int,
                    stride as int,
                    Rect { x: 0, y: 0, w: width, h: height },
                ),
                forall|j: int|
                    0 <= j < rects@.len() ==> inside(#[trigger] rects@[j], width, height),
                self.pending@.len() >= n,
                self.pending@.subrange(0, n) == before,
                show_all(
                    self.pending@.subrange(n, self.pending@.len() as int),
                    src@,
                    stride as int,
                    with_pixels(rects@.subrange(0, i as int)),
                ),
                self.force_full_frame == old(self).force_full_frame,
                self.video == old(self).video,
                self.keyframe_on_change == old(self).keyframe_on_change,
                self.trigger == old(self).trigger,
            decreases rects@.len() - i,
        {
            let r = rects[i];
            proof {
                lemma_inside_is_held(src@.len() as int, stride as int, r, width, height);
                let next = rects@.subrange(0, i + 1);
                assert(next.drop_last() =~= rects@.subrange(0, i as int));
                assert(next.last() == r);
                reveal(Seq::filter);
            }
            let ghost queued = self.pending@;
            match rect_update(src, stride, r) {
                Some(u) => {
                    self.pending.push_back(DisplayUpdate::Bitmap(u));
                    proof {
                        let k = queued.len() as int;
                        assert(self.pending@.subrange(0, n) =~= before) by {
                            assert(queued.subrange(0, n) =~= before);
                        }
                        let tail = self.pending@.subrange(n, k + 1);
                        assert(tail =~= queued.subrange(n, k).push(self.pending@[k]));
                    }
                },
                None => {},
            }
            i = i + 1;
        }
        assert(rects@.subrange(0, i as int) =~= rects@);
        self.seeded = true;
    }
}

impl ScreenCaptureUpdates {
    /// One event while a client waits for its next update. Cursor updates go first,
    /// then what waits; only then is the next sample looked at. A frame goes to the
    /// video encoder where there is one, and is sent as bitmaps where that does not
    /// show it.
    ///
    /// A session with keyframes on change asks for one exactly when its history says
    /// that one is due.
    pub fn next_update<'a>(&mut self, event: UpdateEvent<'a>) -> (r: UpdateStep)
        requires
            event matches UpdateEvent::Frame { src, stride, dirty: _, width, height } ==> holds_rect(
                src@.len() as int,
                stride as int,
                Rect { x: 0, y: 0, w: width, h: height },
            ),
        ensures
            match event {
                UpdateEvent::Look(cursor) => {
                    &&& final(self).same_but_queue(*old(self))
                    &&& if cursor@.len() + old(self).pending@.len() == 0 {
                        r is Await && final(self).pending@.len() == 0
                    } else {
                        r matches UpdateStep::Send(u) && seq![u] + final(self).pending@ == cursor@
                            + old(self).pending@
                    }
                },
                UpdateEvent::Captured { sample, changed_px, clicked } => {
                    &&& r == update_step(old(self).sample_step(sample, changed_px, clicked))
                    &&& final(self).same_but_trigger(*old(self))
                    &&& final(self).trigger.armed == old(self).armed_next(
                        sample,
                        changed_px,
                        clicked,
                    )
                },
                UpdateEvent::Ended => {
                    &&& r is End
                    &&& final(self).same_but_trigger(*old(self))
                    &&& final(self).trigger == old(self).trigger
                },
                UpdateEvent::Submitted(taken) => {
                    &&& if taken {
                        r is Again
                    } else {
                        r is DrawSubmitted
                    }
                    &&& final(self).seeded == after_video(old(self).seeded, taken).0
                    &&& final(self).pending@ == old(self).pending@
                    &&& final(self).same_mode(*old(self))
                },
                UpdateEvent::Frame { src, stride, dirty, width, height } => {
                    &&& r is Again
                    &&& final(self).seeded
                    &&& final(self).same_mode(*old(self))
                    &&& final(self).queued(
                        *old(self),
                        src@,
                        stride as int,
                        dirty_view(dirty),
                        width,
                        height,
                    )
                },
            },
            event matches UpdateEvent::Captured { sample, changed_px, clicked } ==> (forall|
                frames: Seq<Observation>,
            |
                #[trigger] old(self).saw(frames) ==> (match old(self).observed(
                    sample,
                    changed_px,
                    clicked,
                ) {
                    Some(o) => {
                        &&& final(self).saw(frames.push(o))
                        &&& r matches UpdateStep::Submit { width: _, height: _, force_keyframe }
                        &&& force_keyframe == keyframe_due(frames.push(o), frames.len() as int)
                    },
                    None => {
                        &&& final(self).saw(frames)
                        &&& r matches UpdateStep::Submit {
                            width: _,
                            height: _,
                            force_keyframe,
                        } ==> !force_keyframe
                    },
                })),
            !(event is Captured) ==> final(self).trigger == old(self).trigger,
    {
        match event {
            UpdateEvent::Look(cursor) => match self.next_pending(cursor) {
                Some(u) => UpdateStep::Send(u),
                None => UpdateStep::Await,
            },
            UpdateEvent::Captured { sample, changed_px, clicked } => {
                let step = self.on_sample(sample, changed_px, clicked);
                proof {
                    assert forall|frames: Seq<Observation>| #[trigger]
                        old(self).saw(frames) && old(self).observed(
                            sample,
                            changed_px,
                            clicked,
                        ) is Some implies ({
                        let o = old(self).observed(sample, changed_px, clicked)->0;
                        &&& self.saw(frames.push(o))
                        &&& fires(old(self).trigger.armed, o.frame_px, o.changed_px, o.clicked)
                            == keyframe_due(frames.push(o), frames.len() as int)
                    }) by {
                        let o = old(self).observed(sample, changed_px, clicked)->0;
                        let all = frames.push(o);
                        assert(all.drop_last() =~= frames);
                        assert(all.subrange(0, frames.len() as int) =~= frames);
                        law_keyframe_condition(all, frames.len() as int);
                    }
                }
                match step {
                    SampleStep::Skip => UpdateStep::Again,
                    SampleStep::Fail(e) => UpdateStep::Fail(e),
                    SampleStep::SubmitVideo { width, height, force_keyframe } => UpdateStep::Submit {
                        width,
                        height,
                        force_keyframe,
                    },
                    SampleStep::SendBitmaps { width, height } => UpdateStep::Draw { width, height },
                }
            },
            UpdateEvent::Ended => UpdateStep::End,
            UpdateEvent::Submitted(taken) => if self.on_video(taken) {
                UpdateStep::DrawSubmitted
            } else {
                UpdateStep::Again
            },
            UpdateEvent::Frame { src, stride, dirty, width, height } => {
                self.queue_frame(src, stride, dirty, width, height);
                UpdateStep::Again
            },
        }
    }

    /// The session is of the same kind as `other`, and its trigger stands as there.
    pub open spec fn same_mode(self, other: Self) -> bool {
        &&& self.force_full_frame == other.force_full_frame
        &&& self.video == other.video
        &&& self.keyframe_on_change == other.keyframe_on_change
        &&& self.trigger == other.trigger
    }
}

/// A buffer that holds a frame holds every rectangle within it.
proof fn lemma_inside_is_held(len: int, stride: int, r: Rect, width: u16, height: u16)
    requires
        inside(r, width, height),
        0 <= stride,
        holds_rect(len, stride, Rect { x: 0, y: 0, w: width, h: height }),
    ensures
        holds_rect(len, stride, r),
{
    if r.w > 0 && r.h > 0 {
        assert(r.y * stride + (r.h - 1) * stride == (r.y + r.h - 1) * stride) by (nonlinear_arith);
        assert((r.y + r.h - 1) * stride <= (height - 1) * stride) by (nonlinear_arith)
            requires
                r.y + r.h <= height,
                0 <= stride,
        ;
        assert(0 * stride == 0) by (nonlinear_arith);
    }
}

/// Why there is no test picture.
#[derive(Debug, Clone, Copy, PartialEq, Eq, Structural)]
pub enum StubError {
    ZeroWidth,
    ZeroHeight,
}

/// The four bytes of every pixel of the test picture.
pub open spec fn stub_pixel() -> Seq<u8> {
    seq![0xff, 0x10, 0x80, 0x90]
}

/// Whether an update is the test picture of this size.
pub open spec fn stub_picture(u: BitmapUpdate, width: u16, height: u16) -> bool {
    &&& u.x == 0 && u.y == 0 && u.width == width && u.height == height
    &&& u.format == PixelFormat::ARgb32
    &&& u.stride == 4 * width
    &&& u.data@ == Seq::new((4 * (width * height)) as nat, |i: int| stub_pixel()[i % 4])
}

/// A source that shows one plain picture, where there is no screen to capture.
pub struct StubUpdates {
    pub pending: Option<BitmapUpdate>,
}

impl StubUpdates {
    /// A picture of one colour that fills the desktop.
    pub fn new(width: u16, height: u16) -> (r: Result<Self, StubError>)
        ensures
            match r {
                Ok(s) => {
                    &&& width > 0 && height > 0
                    &&& s.pending matches Some(u)
                    &&& stub_picture(u, width, height)
                },
                Err(StubError::ZeroWidth) => width == 0,
                Err(StubError::ZeroHeight) => width > 0 && height == 0,
            },
    {
        if width == 0 {
            return Err(StubError::ZeroWidth);
        }
        if height == 0 {
            return Err(StubError::ZeroHeight);
        }
        assert(0 <= width * height <= 0xffff * 0xffff) by (nonlinear_arith)
            requires
                width <= 0xffff,
                height <= 0xffff,
        ;
        let count: u64 = width as u64 * height as u64;
        let mut data: Vec<u8> = Vec::new();
        let mut i: u64 = 0;
        while i < count
            invariant
                i <= count,
                data@ == Seq::new((4 * i) as nat, |i: int| stub_pixel()[i % 4]),
            decreases count - i,
        {
            data.push(0xff);
            data.push(0x10);
            data.push(0x80);
            data.push(0x90);
            i = i + 1;
            assert(data@ =~= Seq::new((4 * i) as nat, |i: int| stub_pixel()[i % 4]));
        }
        Ok(
            StubUpdates {
                pending: Some(
                    BitmapUpdate {
                        x: 0,
                        y: 0,
                        width,
                        height,
                        format: PixelFormat::ARgb32,
                        data,
                        stride: width as usize * 4,
                    },
                ),
            },
        )
    }

    /// The picture, the first time; then nothing, for ever.
    pub fn next_update(&mut self) -> (r: Option<BitmapUpdate>)
        ensures
            r == old(self).pending,
            final(self).pending is None,
    {
        self.pending.take()
    }
}

/// Whether a pixel lies in a rectangle of a frame.
pub open spec fn has_pixel(r: Rect, px: int, py: int) -> bool {
    r.x <= px < r.x + r.w && r.y <= py < r.y + r.h
}

/// Whether a pixel lies in a changed area.
pub open spec fn touches(d: DirtyRect, px: int, py: int) -> bool {
    d.x <= px < d.x + d.w && d.y <= py < d.y + d.h
}

/// Whether a pixel lies in some rectangle that is sent.
pub open spec fn covered(rects: Seq<Rect>, px: int, py: int) -> bool {
    exists|i: int| 0 <= i < rects.len() && has_pixel(#[trigger] rects[i], px, py)
}

/// Whether a pixel lies in some changed area.
pub open spec fn changed_somewhere(dirty: Seq<DirtyRect>, px: int, py: int) -> bool {
    exists|k: int| 0 <= k < dirty.len() && touches(#[trigger] dirty[k], px, py)
}

/// Cutting a changed area down to a frame keeps the pixels that lie in both, all of
/// them and no others.
pub proof fn law_clamping_keeps_the_common_pixels(
    d: DirtyRect,
    width: u16,
    height: u16,
    px: int,
    py: int,
)
    ensures
        (clamped(d, width, height) matches Some(r) && has_pixel(r, px, py)) <==> (touches(d, px, py)
            && px < width && py < height),
{
}

proof fn lemma_all_clamped_cover(dirty: Seq<DirtyRect>, width: u16, height: u16, px: int, py: int)
    ensures
        covered(all_clamped(dirty, width, height), px, py) <==> (changed_somewhere(dirty, px, py)
            && px < width && py < height),
    decreases dirty.len(),
{
    let all = all_clamped(dirty, width, height);
    if dirty.len() > 0 {
        let head = dirty.drop_last();
        let before = all_clamped(head, width, height);
        lemma_all_clamped_cover(head, width, height, px, py);
        law_clamping_keeps_the_common_pixels(dirty.last(), width, height, px, py);
        if covered(all, px, py) {
            let i = choose|i: int| 0 <= i < all.len() && has_pixel(#[trigger] all[i], px, py);
            if i < before.len() {
                assert(before[i] == all[i]);
                assert(covered(before, px, py));
                let k = choose|k: int| 0 <= k < head.len() && touches(#[trigger] head[k], px, py);
                assert(dirty[k] == head[k]);
            } else {
                assert(touches(dirty[dirty.len() - 1], px, py));
            }
        }
        if changed_somewhere(dirty, px, py) && px < width && py < height {
            let k = choose|k: int| 0 <= k < dirty.len() && touches(#[trigger] dirty[k], px, py);
            if k < head.len() {
                assert(head[k] == dirty[k]);
                assert(covered(before, px, py));
                let i = choose|i: int|
                    0 <= i < before.len() && has_pixel(#[trigger] before[i], px, py);
                assert(all[i] == before[i]);
            } else {
                assert(has_pixel(all[all.len() - 1], px, py));
            }
        }
    }
}

/// What is sent covers what changed, whether or not the session is seeded, scaled or
/// knows the areas: every pixel of the frame that lies in a changed area is sent.
pub proof fn law_changed_pixels_are_sent(
    seeded: bool,
    force_full_frame: bool,
    dirty: Option<Seq<DirtyRect>>,
    width: u16,
    height: u16,
    px: int,
    py: int,
)
    requires
        0 <= px < width,
        0 <= py < height,
        dirty matches Some(d) ==> d.len() == 0 || changed_somewhere(d, px, py),
    ensures
        covered(rects_to_send(seeded, force_full_frame, dirty, width, height), px, py),
{
    let rects = rects_to_send(seeded, force_full_frame, dirty, width, height);
    if seeded && !force_full_frame && dirty is Some && dirty->0.len() > 0 {
        lemma_all_clamped_cover(dirty->0, width, height, px, py);
    } else {
        assert(has_pixel(rects[0], px, py));
    }
}

/// Where the areas are known, and the client has a picture at the display's own size,
/// only what changed is sent; otherwise every pixel of the frame is.
pub proof fn law_only_changed_pixels_are_sent(
    seeded: bool,
    force_full_frame: bool,
    dirty: Option<Seq<DirtyRect>>,
    width: u16,
    height: u16,
    px: int,
    py: int,
)
    ensures
        seeded && !force_full_frame && dirty is Some && dirty->0.len() > 0 && covered(
            rects_to_send(seeded, force_full_frame, dirty, width, height),
            px,
            py,
        ) ==> changed_somewhere(dirty->0, px, py) && px < width && py < height,
        !seeded || force_full_frame || dirty is None || dirty->0.len() == 0 ==> (covered(
            rects_to_send(seeded, force_full_frame, dirty, width, height),
            px,
            py,
        ) <==> 0 <= px < width && 0 <= py < height),
{
    let rects = rects_to_send(seeded, force_full_frame, dirty, width, height);
    if seeded && !force_full_frame && dirty is Some && dirty->0.len() > 0 {
        lemma_all_clamped_cover(dirty->0, width, height, px, py);
    } else {
        assert(rects.len() == 1);
        if 0 <= px < width && 0 <= py < height {
            assert(has_pixel(rects[0], px, py));
        }
    }
}

/// An update carries the pixels of its rectangle, each byte from its own place in the
/// captured frame.
pub proof fn law_updates_carry_the_pixels(
    u: BitmapUpdate,
    src: Seq<u8>,
    stride: int,
    r: Rect,
    row: int,
    col: int,
)
    requires
        0 <= stride,
        holds_rect(src.len() as int, stride, r),
        shows(u, src, stride, r),
        0 <= row < r.h,
        0 <= col < 4 * r.w,
    ensures
        u.x == r.x && u.y == r.y && u.width == r.w && u.height == r.h,
        u.stride == 4 * r.w,
        u.data@.len() == u.stride * u.height,
        u.data@[row * u.stride + col] == src[(r.y + row) * stride + 4 * r.x + col],
{
    assert(0 <= r.y * stride) by (nonlinear_arith)
        requires
            0 <= stride,
    ;
    pixels::law_packed_bytes(
        src,
        r.y * stride + 4 * r.x,
        stride,
        4 * r.w,
        r.h as int,
        row,
        col,
    );
    assert((r.y + row) * stride == r.y * stride + row * stride) by (nonlinear_arith);
}

/// Only rectangles with pixels are sent, and every pixel that a planned rectangle has
/// is in one of those.
pub proof fn law_empty_rects_carry_nothing(rects: Seq<Rect>, px: int, py: int)
    ensures
        covered(with_pixels(rects), px, py) <==> covered(rects, px, py),
        forall|i: int|
            0 <= i < with_pixels(rects).len() ==> (#[trigger] with_pixels(rects)[i]).w > 0
                && with_pixels(rects)[i].h > 0,
    decreases rects.len(),
{
    reveal(Seq::filter);
    let kept = with_pixels(rects);
    if rects.len() > 0 {
        let head = rects.drop_last();
        law_empty_rects_carry_nothing(head, px, py);
        let before = with_pixels(head);
        assert(kept == before || kept == before.push(rects.last()));
        if covered(kept, px, py) {
            let i = choose|i: int| 0 <= i < kept.len() && has_pixel(#[trigger] kept[i], px, py);
            if i < before.len() {
                assert(before[i] == kept[i]);
                let j = choose|j: int| 0 <= j < head.len() && has_pixel(#[trigger] head[j], px, py);
                assert(rects[j] == head[j]);
            } else {
                assert(has_pixel(rects[rects.len() - 1], px, py));
            }
        }
        if covered(rects, px, py) {
            let j = choose|j: int| 0 <= j < rects.len() && has_pixel(#[trigger] rects[j], px, py);
            if j < head.len() {
                assert(head[j] == rects[j]);
                let i = choose|i: int|
                    0 <= i < before.len() && has_pixel(#[trigger] before[i], px, py);
                assert(kept[i] == before[i]);
            } else {
                assert(kept == before.push(rects.last()));
                assert(has_pixel(kept[kept.len() - 1], px, py));
            }
        }
        assert forall|i: int| 0 <= i < kept.len() implies (#[trigger] kept[i]).w > 0 && kept[i].h
            > 0 by {
            if i < before.len() {
                assert(kept[i] == before[i]);
            }
        }
    }
}

/// The changed area is the sum over the rectangles of width times height.
pub proof fn law_areas_add_up(a: Seq<(u32, u32)>, b: Seq<(u32, u32)>, w: u32, h: u32)
    ensures
        area(Seq::empty()) == 0,
        area(seq![(w, h)]) == w * h,
        area(a + b) == area(a) + area(b),
    decreases b.len(),
{
    let one = seq![(w, h)];
    assert(one.drop_last() =~= Seq::<(u32, u32)>::empty());
    if b.len() == 0 {
        assert(a + b =~= a);
    } else {
        assert((a + b).drop_last() =~= a + b.drop_last());
        law_areas_add_up(a, b.drop_last(), w, h);
    }
}

/// A change is large from a fifth of the frame on, and right after a click from a
/// twentieth; the screen is calm below a tenth, and after a click below a fiftieth.
pub proof fn law_how_much_is_a_large_change(frame_px: u64, changed_px: u64)
    ensures
        is_big(frame_px, changed_px, false) <==> frame_px > 0 && 5 * changed_px >= frame_px,
        is_big(frame_px, changed_px, true) <==> frame_px > 0 && 20 * changed_px >= frame_px,
        is_quiet(frame_px, changed_px, false) <==> frame_px == 0 || 10 * changed_px < frame_px,
        is_quiet(frame_px, changed_px, true) <==> frame_px == 0 || 50 * changed_px < frame_px,
{
    let (idle, clicked) = (threshold(false), threshold(true));
    assert(idle == 20 && clicked == 5);
    assert(frame_px * idle == 20 * frame_px) by (nonlinear_arith)
        requires
            idle == 20,
    ;
    assert(frame_px * (idle / 2) == 10 * frame_px) by (nonlinear_arith)
        requires
            idle == 20,
    ;
    assert(frame_px * clicked == 5 * frame_px) by (nonlinear_arith)
        requires
            clicked == 5,
    ;
    assert(frame_px * (clicked / 2) == 2 * frame_px) by (nonlinear_arith)
        requires
            clicked == 5,
    ;
}

/// The display that is captured is the first with the wanted id, or the first of all
/// where none is wanted; there is none exactly where no display will do.
pub proof fn law_which_display_is_captured(displays: Seq<DisplayInfo>, target: Option<u32>)
    ensures
        match chosen_display(displays, target) {
            Some(i) => {
                &&& 0 <= i < displays.len()
                &&& target matches Some(id) ==> displays[i].id == id && (forall|j: int|
                    0 <= j < i ==> (#[trigger] displays[j]).id != id)
                &&& target is None ==> i == 0
            },
            None => match target {
                Some(id) => forall|j: int| 0 <= j < displays.len() ==> (#[trigger] displays[j]).id
                    != id,
                None => displays.len() == 0,
            },
        },
    decreases displays.len(),
{
    if displays.len() > 0 && target is Some {
        let head = displays.drop_last();
        law_which_display_is_captured(head, target);
        assert forall|j: int| 0 <= j < head.len() implies head[j] == #[trigger] displays[j] by {}
    }
}

/// Sizes are taken over as they are, and turned down exactly where they exceed sixteen
/// bits, the width first; a sample without a picture is passed over.
pub proof fn law_sizes_are_kept(d: DisplayInfo, s: Sample)
    ensures
        match protocol_size(d) {
            Ok((w, h)) => w == d.width && h == d.height,
            Err(CaptureError::WidthTooLarge) => d.width >= 0x1_0000,
            Err(CaptureError::HeightTooLarge) => d.width < 0x1_0000 && d.height >= 0x1_0000,
            Err(_) => false,
        },
        match sample_size(s) {
            None => !s.has_image || s.has_content == Some(false),
            Some(r) => s.has_image && s.has_content != Some(false) && (match r {
                Ok((w, h)) => w == s.width && h == s.height,
                Err(CaptureError::WidthTooLarge) => s.width >= 0x1_0000,
                Err(CaptureError::HeightTooLarge) => s.width < 0x1_0000 && s.height >= 0x1_0000,
                Err(_) => false,
            }),
        },
{
}

/// A frame that has a size goes to the encoder where there is one and is drawn where
/// there is none, at that size; what has none goes nowhere.
pub proof fn law_where_a_frame_goes(
    session: ScreenCaptureUpdates,
    sample: Sample,
    changed_px: u64,
    clicked: bool,
)
    ensures
        match update_step(session.sample_step(sample, changed_px, clicked)) {
            UpdateStep::Submit { width, height, force_keyframe } => {
                &&& session.video && width == sample.width && height == sample.height
                &&& force_keyframe ==> session.keyframe_on_change && session.trigger.armed
            },
            UpdateStep::Draw { width, height } => !session.video && width == sample.width && height
                == sample.height,
            UpdateStep::Again => !sample.has_image || sample.has_content == Some(false),
            UpdateStep::Fail(_) => sample.width >= 0x1_0000 || sample.height >= 0x1_0000,
            _ => false,
        },
        session.observed(sample, changed_px, clicked) matches Some(o) ==> o.frame_px
            == sample.width * sample.height && o.changed_px == changed_px && o.clicked == clicked,
        session.observed(sample, changed_px, clicked) is Some <==> session.video
            && session.keyframe_on_change && (sample_size(sample) matches Some(Ok(_))),
{
    if let Some(Ok((w, h))) = sample_size(sample) {
        assert(0 <= w * h <= 0xffff * 0xffff) by (nonlinear_arith)
            requires
                w <= 0xffff,
                h <= 0xffff,
        ;
    }
}

/// What is handed out is the first of the new cursor updates, or the one that has
/// waited longest if there is none. Everything behind it waits on, in its order.
pub proof fn law_cursor_updates_go_first(
    r: Option<DisplayUpdate>,
    cursor: Seq<DisplayUpdate>,
    before: Seq<DisplayUpdate>,
    after: Seq<DisplayUpdate>,
)
    requires
        handed_out(r, cursor, before, after),
    ensures
        cursor.len() > 0 ==> r == Some(cursor[0]) && after == cursor.subrange(
            1,
            cursor.len() as int,
        ) + before,
        cursor.len() == 0 && before.len() > 0 ==> r == Some(before[0]) && after
            == before.subrange(1, before.len() as int),
        cursor.len() == 0 && before.len() == 0 ==> r is None && after.len() == 0,
{
    if let Some(u) = r {
        let all = seq![u] + after;
        assert(all[0] == u);
        assert(after =~= all.subrange(1, all.len() as int));
        if cursor.len() > 0 {
            assert((cursor + before)[0] == cursor[0]);
            assert(after =~= cursor.subrange(1, cursor.len() as int) + before);
        } else {
            assert((cursor + before)[0] == before[0]);
            assert(after =~= before.subrange(1, before.len() as int));
        }
    } else {
        assert(after =~= Seq::<DisplayUpdate>::empty());
    }
}

/// A capture is of the display that was asked for, or the first one, and its frames
/// are cut to what changed exactly where the desktop has the display's own size. What
/// cannot be captured is told by the reason.
pub proof fn law_how_a_capture_is_planned(
    displays: Seq<DisplayInfo>,
    target: Option<u32>,
    width: u16,
    height: u16,
)
    requires
        displays.len() <= usize::MAX,
    ensures
        planned(displays, target, width, height) matches Ok(plan) ==> {
            &&& 0 <= plan.index < displays.len()
            &&& target matches Some(id) ==> displays[plan.index as int].id == id
            &&& target is None ==> plan.index == 0
            &&& plan.force_full_frame <==> displays[plan.index as int].width != width
                || displays[plan.index as int].height != height
            &&& displays[plan.index as int].width < 0x1_0000
            &&& displays[plan.index as int].height < 0x1_0000
        },
        planned(displays, target, width, height) matches Err(e) ==> match e {
            CaptureError::NoSuchDisplay(id) => target == Some(id) && forall|k: int|
                0 <= k < displays.len() ==> (#[trigger] displays[k]).id != id,
            CaptureError::NoDisplays => target is None && displays.len() == 0,
            _ => displays.len() > 0,
        },
        displays.len() == 0 ==> primary_size(displays) == Err::<(u16, u16), CaptureError>(
            CaptureError::NoDisplays,
        ),
        displays.len() > 0 ==> primary_size(displays) == protocol_size(displays[0]),
{
    lemma_chosen_is_found(displays, target);
}

proof fn lemma_chosen_is_found(displays: Seq<DisplayInfo>, target: Option<u32>)
    ensures
        match chosen_display(displays, target) {
            Some(i) => 0 <= i < displays.len() && (target matches Some(id) ==> displays[i].id
                == id) && (target is None ==> i == 0),
            None => match target {
                Some(id) => forall|k: int|
                    0 <= k < displays.len() ==> (#[trigger] displays[k]).id != id,
                None => displays.len() == 0,
            },
        },
    decreases displays.len(),
{
    if displays.len() > 0 {
        let head = displays.drop_last();
        lemma_chosen_is_found(head, target);
        assert forall|k: int| 0 <= k < head.len() implies head[k] == #[trigger] displays[k] by {}
    }
}

/// Every pixel of the test picture has the same four bytes, and there is one for each
/// pixel of the desktop.
pub proof fn law_the_test_picture_is_plain(
    u: BitmapUpdate,
    width: u16,
    height: u16,
    i: int,
)
    requires
        stub_picture(u, width, height),
        0 <= i < width * height,
    ensures
        u.width == width && u.height == height && u.x == 0 && u.y == 0,
        u.data@.len() == 4 * (width * height),
        u.stride == 4 * width,
        u.data@[4 * i] == 0xff,
        u.data@[4 * i + 1] == 0x10,
        u.data@[4 * i + 2] == 0x80,
        u.data@[4 * i + 3] == 0x90,
{
    let px = stub_pixel();
    assert(px[0] == 0xff && px[1] == 0x10 && px[2] == 0x80 && px[3] == 0x90);
    assert((4 * i) % 4 == 0 && (4 * i + 1) % 4 == 1 && (4 * i + 2) % 4 == 2 && (4 * i + 3) % 4 == 3);
}

/// What is sent of a frame waits behind everything that waited before, one update for
/// each rectangle with pixels, in order.
pub proof fn law_frames_wait_behind_what_waits(
    before: ScreenCaptureUpdates,
    after: ScreenCaptureUpdates,
    src: Seq<u8>,
    stride: int,
    dirty: Option<Seq<DirtyRect>>,
    width: u16,
    height: u16,
    i: int,
)
    requires
        after.queued(before, src, stride, dirty, width, height),
    ensures
        ({
            let n = before.pending@.len() as int;
            let rects = with_pixels(
                rects_to_send(before.seeded, before.force_full_frame, dirty, width, height),
            );
            &&& after.pending@.len() == n + rects.len()
            &&& 0 <= i < n ==> after.pending@[i] == before.pending@[i]
            &&& 0 <= i < rects.len() ==> (after.pending@[n + i] matches DisplayUpdate::Bitmap(u)
                && shows(u, src, stride, rects[i]))
        }),
{
    let n = before.pending@.len() as int;
    let tail = after.pending@.subrange(n, after.pending@.len() as int);
    let rects = with_pixels(
        rects_to_send(before.seeded, before.force_full_frame, dirty, width, height),
    );
    assert(show_all(tail, src, stride, rects));
    if 0 <= i < n {
        assert(after.pending@.subrange(0, n)[i] == after.pending@[i]);
    }
    if 0 <= i < rects.len() {
        assert(tail[i] == after.pending@[n + i]);
    }
}

/// A frame that the video encoder took counts as sent and is not sent again; one that
/// it did not take is still to be sent, and changes nothing.
pub proof fn law_what_video_takes_is_sent(seeded: bool)
    ensures
        after_video(seeded, true) == (true, false),
        after_video(seeded, false) == (seeded, true),
{
}

/// What is said to differ in nothing but the queue, the trigger, or both, differs in
/// nothing else.
pub proof fn law_what_stays_of_a_session(a: ScreenCaptureUpdates, b: ScreenCaptureUpdates)
    ensures
        a.same_but_queue(b) ==> a == (ScreenCaptureUpdates { pending: a.pending, ..b }),
        a.same_but_trigger(b) ==> a == (ScreenCaptureUpdates {
            trigger: a.trigger,
            pending: a.pending,
            ..b
        }) && a.pending@ == b.pending@,
        a.same_mode(b) ==> a == (ScreenCaptureUpdates {
            pending: a.pending,
            seeded: a.seeded,
            ..b
        }),
        a.seeded == b.seeded && a.same_mode(b) ==> a.same_but_queue(b),
{
}

} // verus!
