use macrdp::runloop_thread::JobQueue;
use macrdp::switcher_hud::{
    advance, encode, hide_switcher, port, send, set_display_id, show, Hud, HudMsg, Worker,
    WorkerStep, QUEUE_LIMIT,
};

#[test]
fn commands_on_the_wire() {
    let apps = vec![(258, "ab".to_string()), (-1, "\u{e9}".to_string())];
    assert_eq!(
        encode(&HudMsg::Show { display_id: 0x0102_0304, cursor: 1, apps }),
        vec![
            1, 1, 2, 3, 4, 0, 1, 0, 2, 0, 0, 1, 2, 0, 2, b'a', b'b', 0xff, 0xff, 0xff, 0xff, 0, 2,
            0xc3, 0xa9
        ]
    );
    assert_eq!(encode(&HudMsg::Advance { cursor: 0x0203 }), vec![2, 2, 3]);
    assert_eq!(encode(&HudMsg::Hide), vec![3]);
}

#[test]
fn long_lists_and_names_are_cut() {
    let apps = vec![(0, String::new()); 70_000];
    let frame = encode(&HudMsg::Show { display_id: 0, cursor: 0, apps });
    assert_eq!(&frame[7..9], &[0xff, 0xff]);
    assert_eq!(frame.len(), 9 + 65_535 * 6);
    let apps = vec![(0, "x".repeat(70_000))];
    let frame = encode(&HudMsg::Show { display_id: 0, cursor: 0, apps });
    assert_eq!(&frame[13..15], &[0xff, 0xff]);
    assert_eq!(frame.len(), 15 + 65_535);
}

#[test]
fn commands_are_queued() {
    let mut hud = Hud::new();
    set_display_id(&mut hud, 9);
    show(&mut hud, vec![(1, "x".to_string())], 70_000);
    advance(&mut hud, 3);
    hide_switcher(&mut hud);
    assert!(matches!(
        hud.next(),
        Some(HudMsg::Show { display_id: 9, cursor: 0, ref apps }) if apps.len() == 1
    ));
    assert!(matches!(hud.next(), Some(HudMsg::Advance { cursor: 3 })));
    assert!(matches!(hud.next(), Some(HudMsg::Hide)));
    assert!(hud.next().is_none());
}

#[test]
fn a_full_queue_drops_commands() {
    let mut hud = Hud::new();
    for _ in 0..QUEUE_LIMIT {
        send(&mut hud, HudMsg::Hide);
    }
    advance(&mut hud, 1);
    assert_eq!(hud.queue.len(), 64);
    assert!(hud.queue.iter().all(|m| matches!(m, HudMsg::Hide)));
}

#[test]
fn the_helper_is_dialled_again() {
    let mut w = Worker::new();
    assert!(matches!(w.on_message(&HudMsg::Hide), WorkerStep::Connect));
    assert!(matches!(w.on_connect(false, &HudMsg::Hide), WorkerStep::Drop));
    assert!(matches!(w.on_connect(true, &HudMsg::Hide), WorkerStep::Write(ref b) if b == &vec![3]));
    w.on_written(true);
    assert!(matches!(w.on_message(&HudMsg::Hide), WorkerStep::Write(_)));
    w.on_written(false);
    assert!(matches!(w.on_message(&HudMsg::Hide), WorkerStep::Connect));
    assert_eq!(port(None), 40243);
    assert_eq!(port(Some("1")), 1);
}

#[test]
fn jobs_run_in_order() {
    let mut q = JobQueue::new();
    let mut ran = Vec::new();
    for i in 0..20 {
        q.submit(i);
        if i % 7 == 3 {
            ran.extend(q.perform());
        }
    }
    ran.extend(q.perform());
    assert_eq!(ran, (0..20).collect::<Vec<i32>>());
    assert!(q.perform().is_empty());
}
