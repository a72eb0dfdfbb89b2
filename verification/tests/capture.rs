use macrdp::capture::{
    changed_area, clamp_rect, plan_capture, plan_rects, primary_display_size, rect_update,
    CaptureError, ClickSignal, DirtyRect, DisplayInfo, DisplayUpdate, KeyframeTrigger, PixelFormat,
    Rect, Sample, SampleStep, ScreenCaptureUpdates, SessionTracker, StubError, StubUpdates,
    UpdateEvent, UpdateStep, POST_CLICK_WINDOW_MS,
};
use macrdp::cursor::{cursor_from_bitmap, CursorState, RgbaPointer};

#[test]
fn clicks_are_noticed_within_their_window() {
    let mut c = ClickSignal::default();
    assert!(!c.within(0, u64::MAX));
    c.record_click(0);
    assert!(c.within(0, 0));
    c.record_click(1000);
    assert!(c.within(1000 + POST_CLICK_WINDOW_MS, POST_CLICK_WINDOW_MS));
    assert!(!c.within(1001 + POST_CLICK_WINDOW_MS, POST_CLICK_WINDOW_MS));
    assert!(c.within(900, 0));
}

#[test]
fn sessions_come_and_go() {
    let mut t = SessionTracker { count: 0 };
    assert_eq!(t.enter(), 0);
    assert_eq!(t.enter(), 1);
    assert_eq!(t.leave(), 2);
    assert_eq!(t.leave(), 1);
    assert_eq!(t.count, 0);
}

const DISPLAYS: [DisplayInfo; 3] = [
    DisplayInfo { id: 1, width: 1920, height: 1080 },
    DisplayInfo { id: 9, width: 70_000, height: 10 },
    DisplayInfo { id: 7, width: 10, height: 70_000 },
];

#[test]
fn displays_are_chosen() {
    assert_eq!(primary_display_size(&DISPLAYS), Ok((1920, 1080)));
    assert_eq!(primary_display_size(&[]), Err(CaptureError::NoDisplays));
    let plan = plan_capture(&DISPLAYS, None, 1920, 1080).expect("plan");
    assert_eq!((plan.index, plan.force_full_frame), (0, false));
    let plan = plan_capture(&DISPLAYS, Some(1), 1280, 720).expect("plan");
    assert_eq!((plan.index, plan.force_full_frame), (0, true));
    assert_eq!(plan_capture(&DISPLAYS, Some(9), 1, 1), Err(CaptureError::WidthTooLarge));
    assert_eq!(plan_capture(&DISPLAYS, Some(7), 1, 1), Err(CaptureError::HeightTooLarge));
    assert_eq!(plan_capture(&DISPLAYS, Some(5), 1, 1), Err(CaptureError::NoSuchDisplay(5)));
    assert_eq!(plan_capture(&[], None, 1, 1), Err(CaptureError::NoDisplays));
}

#[test]
fn changed_areas_are_cut_to_the_frame() {
    let r = |x, y, w, h| DirtyRect { x, y, w, h };
    assert_eq!(clamp_rect(r(1, 2, 3, 4), 10, 10), Some(Rect { x: 1, y: 2, w: 3, h: 4 }));
    assert_eq!(clamp_rect(r(8, 8, 5, 1), 10, 10), Some(Rect { x: 8, y: 8, w: 2, h: 1 }));
    assert_eq!(clamp_rect(r(10, 0, 5, 5), 10, 10), None);
    assert_eq!(clamp_rect(r(u32::MAX, 0, u32::MAX, 5), 10, 10), None);
    let whole = Rect { x: 0, y: 0, w: 10, h: 10 };
    let dirty = [r(1, 1, 1, 1), r(50, 1, 1, 1), r(9, 9, 9, 9)];
    assert_eq!(
        plan_rects(true, false, Some(&dirty), 10, 10),
        vec![Rect { x: 1, y: 1, w: 1, h: 1 }, Rect { x: 9, y: 9, w: 1, h: 1 }]
    );
    assert_eq!(plan_rects(false, false, Some(&dirty), 10, 10), vec![whole]);
    assert_eq!(plan_rects(true, true, Some(&dirty), 10, 10), vec![whole]);
    assert_eq!(plan_rects(true, false, Some(&[]), 10, 10), vec![whole]);
    assert_eq!(plan_rects(true, false, None, 10, 10), vec![whole]);
}

#[test]
fn rectangles_are_cut_out() {
    let src: Vec<u8> = (0..60).collect();
    let u = rect_update(&src, 20, Rect { x: 1, y: 1, w: 2, h: 2 }).expect("update");
    assert_eq!((u.x, u.y, u.width, u.height, u.stride), (1, 1, 2, 2, 8));
    assert_eq!(u.format, PixelFormat::BgrA32);
    assert_eq!(
        u.data,
        vec![24, 25, 26, 27, 28, 29, 30, 31, 44, 45, 46, 47, 48, 49, 50, 51]
    );
    assert!(rect_update(&src, 20, Rect { x: 0, y: 0, w: 0, h: 2 }).is_none());
}

#[test]
fn areas_add_up() {
    assert_eq!(changed_area(&[(2, 3), (4, 5)]), 26);
    assert_eq!(changed_area(&[(u32::MAX, u32::MAX), (u32::MAX, u32::MAX)]), u64::MAX);
}

#[test]
fn large_changes_fire_once() {
    let mut t = KeyframeTrigger::new();
    assert!(!t.observe(1000, 199, false));
    assert!(t.observe(1000, 200, false));
    assert!(!t.observe(1000, 1000, false));
    assert!(!t.observe(1000, 100, false));
    assert!(!t.observe(1000, 900, false));
    assert!(!t.observe(1000, 99, false));
    assert!(t.observe(1000, 900, false));
    let mut t = KeyframeTrigger::new();
    assert!(!t.observe(1000, 49, true));
    assert!(t.observe(1000, 50, true));
    assert!(!t.observe(0, 50, true));
    assert!(t.observe(1000, 50, true));
}

fn pointer(n: u8) -> RgbaPointer {
    RgbaPointer { width: 1, height: 1, hot_x: 0, hot_y: 0, data: vec![n, 0, 0, 255] }
}

#[test]
fn frames_are_queued_behind_the_cursor() {
    let mut s = ScreenCaptureUpdates::new(false, false, false);
    let src: Vec<u8> = (0..16).collect();
    s.queue_frame(&src, 8, None, 2, 2);
    assert!(s.seeded);
    let dirty = [DirtyRect { x: 1, y: 0, w: 1, h: 1 }];
    s.queue_frame(&src, 8, Some(&dirty), 2, 2);
    let cursor = vec![DisplayUpdate::Pointer(pointer(1)), DisplayUpdate::Pointer(pointer(2))];
    assert!(matches!(s.next_pending(cursor), Some(DisplayUpdate::Pointer(ref p)) if p.data[0] == 1));
    assert!(
        matches!(s.next_pending(Vec::new()), Some(DisplayUpdate::Pointer(ref p)) if p.data[0] == 2)
    );
    match s.next_pending(Vec::new()) {
        Some(DisplayUpdate::Bitmap(u)) => assert_eq!(u.data, src),
        _ => panic!("the whole frame"),
    }
    match s.next_pending(Vec::new()) {
        Some(DisplayUpdate::Bitmap(u)) => assert_eq!((u.x, u.data), (1, vec![4, 5, 6, 7])),
        _ => panic!("the changed area"),
    }
    assert!(s.next_pending(Vec::new()).is_none());
}

#[test]
fn samples_lead_somewhere() {
    let sample = Sample { has_content: Some(true), has_image: true, width: 10, height: 10 };
    let mut s = ScreenCaptureUpdates::new(false, false, false);
    assert_eq!(
        s.on_sample(Sample { has_content: Some(false), ..sample }, 0, false),
        SampleStep::Skip
    );
    assert_eq!(s.on_sample(Sample { has_image: false, ..sample }, 0, false), SampleStep::Skip);
    assert_eq!(
        s.on_sample(Sample { width: 65_536, ..sample }, 0, false),
        SampleStep::Fail(CaptureError::WidthTooLarge)
    );
    assert_eq!(
        s.on_sample(Sample { height: 65_536, ..sample }, 0, false),
        SampleStep::Fail(CaptureError::HeightTooLarge)
    );
    assert_eq!(
        s.on_sample(Sample { has_content: None, ..sample }, 0, false),
        SampleStep::SendBitmaps { width: 10, height: 10 }
    );
    let mut v = ScreenCaptureUpdates::new(false, true, true);
    assert_eq!(
        v.on_sample(sample, 20, false),
        SampleStep::SubmitVideo { width: 10, height: 10, force_keyframe: true }
    );
    assert_eq!(
        v.on_sample(sample, 20, false),
        SampleStep::SubmitVideo { width: 10, height: 10, force_keyframe: false }
    );
    assert!(v.on_video(false));
    assert!(!v.seeded);
    assert!(!v.on_video(true));
    assert!(v.seeded);
}

#[test]
fn test_picture_is_shown_once() {
    let mut s = StubUpdates::new(2, 1).ok().expect("stub");
    let u = s.next_update().expect("picture");
    assert_eq!(u.format, PixelFormat::ARgb32);
    assert_eq!(u.data, vec![0xff, 0x10, 0x80, 0x90, 0xff, 0x10, 0x80, 0x90]);
    assert_eq!(u.stride, 8);
    assert!(s.next_update().is_none());
    assert!(matches!(StubUpdates::new(0, 0), Err(StubError::ZeroWidth)));
    assert!(matches!(StubUpdates::new(1, 0), Err(StubError::ZeroHeight)));
}

#[test]
fn cursor_bitmaps_are_packed() {
    let bitmap = [1, 2, 3, 4, 0, 0, 5, 6, 7, 8];
    let p = cursor_from_bitmap(&bitmap, 6, 1, 2, 3, 4).expect("cursor");
    assert_eq!((p.width, p.height, p.hot_x, p.hot_y), (1, 2, 3, 4));
    assert_eq!(p.data, vec![1, 2, 3, 4, 5, 6, 7, 8]);
    assert!(cursor_from_bitmap(&[], 0, 0, 1, 0, 0).is_none());
    assert!(cursor_from_bitmap(&[], 0, 257, 1, 0, 0).is_none());
    assert!(cursor_from_bitmap(&[], 0, 1, -1, 0, 0).is_none());
}

#[test]
fn unchanged_cursor_is_sent_once() {
    let mut c = CursorState::new();
    assert!(c.poll(None).is_none());
    assert!(c.poll(Some(pointer(1))).is_some());
    assert!(c.poll(Some(pointer(1))).is_none());
    assert!(c.poll(None).is_none());
    assert!(c.poll(Some(pointer(2))).is_some());
    assert!(c.poll(Some(pointer(1))).is_some());
    assert_ne!(c.last_hash, 0);
    // The same pixels with another hot spot or another size are another shape.
    assert!(c.poll(Some(RgbaPointer { hot_x: 1, ..pointer(1) })).is_some());
    assert!(c.poll(Some(RgbaPointer { hot_y: 1, ..pointer(1) })).is_some());
    assert!(c.poll(Some(RgbaPointer { width: 2, ..pointer(1) })).is_some());
    let sent = c.poll(Some(RgbaPointer { height: 2, ..pointer(1) })).expect("shape");
    assert_eq!((sent.width, sent.height, sent.data), (1, 2, vec![1, 0, 0, 255]));
    let mut h = CursorState::new();
    assert!(h.poll_shape(Some(pointer(1)), 5).is_some());
    assert!(h.poll_shape(Some(pointer(9)), 5).is_none());
    assert!(h.poll_shape(Some(pointer(1)), 6).is_some());
}

#[test]
fn keyframes_by_the_whole_history() {
    // Percentages of change: a frame fires if it is large and none fired before, or
    // a quiet one came since the last that did.
    let history = [20u64, 90, 15, 19, 20, 9, 10, 19, 20, 50, 0, 100, 100, 12, 30];
    let mut t = KeyframeTrigger::new();
    let mut fired: Vec<bool> = Vec::new();
    for (i, &pct) in history.iter().enumerate() {
        let expected = pct >= 20
            && match fired.iter().rposition(|&f| f) {
                None => true,
                Some(last) => history[last + 1..i].iter().any(|&p| p < 10),
            };
        let fires = t.observe(100, pct, false);
        assert_eq!(fires, expected, "frame {i}");
        fired.push(fires);
    }
    assert_eq!(fired.iter().filter(|&&f| f).count(), 3);
}

fn captured(changed_px: u64) -> UpdateEvent<'static> {
    let sample = Sample { has_content: Some(true), has_image: true, width: 10, height: 10 };
    UpdateEvent::Captured { sample, changed_px, clicked: false }
}

#[test]
fn updates_of_a_session() {
    let mut s = ScreenCaptureUpdates::new(false, true, true);
    let cursor = vec![DisplayUpdate::Pointer(pointer(1))];
    assert!(matches!(
        s.next_update(UpdateEvent::Look(cursor)),
        UpdateStep::Send(DisplayUpdate::Pointer(_))
    ));
    assert!(matches!(s.next_update(UpdateEvent::Look(Vec::new())), UpdateStep::Await));
    // One keyframe for a large change that lasts, and another once it has subsided.
    let mut keyframes = Vec::new();
    for pct in [50, 60, 15, 90, 5, 20, 20] {
        match s.next_update(captured(pct)) {
            UpdateStep::Submit { width: 10, height: 10, force_keyframe } => {
                keyframes.push(force_keyframe)
            }
            _ => panic!("no frame for the encoder"),
        }
        assert!(matches!(s.next_update(UpdateEvent::Submitted(true)), UpdateStep::Again));
    }
    assert_eq!(keyframes, vec![true, false, false, false, false, true, false]);
    // What the encoder does not show is sent as bitmaps.
    assert!(matches!(s.next_update(UpdateEvent::Submitted(false)), UpdateStep::DrawSubmitted));
    let src = vec![7u8; 400];
    let dirty = [DirtyRect { x: 0, y: 0, w: 1, h: 1 }];
    let frame =
        UpdateEvent::Frame { src: &src, stride: 40, dirty: Some(&dirty), width: 10, height: 10 };
    assert!(matches!(s.next_update(frame), UpdateStep::Again));
    match s.next_update(UpdateEvent::Look(Vec::new())) {
        UpdateStep::Send(DisplayUpdate::Bitmap(u)) => assert_eq!((u.width, u.height), (1, 1)),
        _ => panic!("no bitmap"),
    }
    assert!(matches!(s.next_update(UpdateEvent::Ended), UpdateStep::End));
    // Keyframes on change are off, and then there is no encoder.
    let mut off = ScreenCaptureUpdates::new(false, true, false);
    assert!(matches!(
        off.next_update(captured(100)),
        UpdateStep::Submit { force_keyframe: false, .. }
    ));
    let mut plain = ScreenCaptureUpdates::new(false, false, true);
    assert!(matches!(
        plain.next_update(captured(100)),
        UpdateStep::Draw { width: 10, height: 10 }
    ));
    let wide = Sample { has_content: None, has_image: true, width: 65536, height: 1 };
    assert!(matches!(
        plain.next_update(UpdateEvent::Captured { sample: wide, changed_px: 0, clicked: false }),
        UpdateStep::Fail(CaptureError::WidthTooLarge)
    ));
    let idle = Sample { has_content: Some(false), ..wide };
    assert!(matches!(
        plain.next_update(UpdateEvent::Captured { sample: idle, changed_px: 0, clicked: false }),
        UpdateStep::Again
    ));
}
