use macrdp::camera::{
    camera_dump_enabled, find_camera, grayscale, inspect_luma, sink_stream, AnnexBNals,
    CallbackState, CameraFeed, CameraSink, DecodeStep, DumpStep, FeedError, H264Decoder,
    DUMP_CAP_BYTES, FORMAT_H264,
};

fn units(b: &[u8]) -> Vec<Vec<u8>> {
    let mut walk = AnnexBNals::new(b);
    let mut out = Vec::new();
    while let Some(nal) = walk.next() {
        out.push(nal.to_vec());
    }
    out
}

#[test]
fn units_are_found_between_start_codes() {
    assert_eq!(
        units(&[0, 0, 0, 1, 0x67, 1, 0, 0, 1, 0x68, 0, 0, 0, 1, 0x65]),
        vec![vec![0x67, 1], vec![0x68], vec![0x65]]
    );
    assert_eq!(units(&[9, 9, 0, 0, 1, 5]), vec![vec![5]]);
    assert_eq!(units(&[0, 0, 1, 0, 0, 1]), vec![Vec::<u8>::new(), Vec::new()]);
    assert!(units(&[1, 2, 3]).is_empty());
    assert!(units(&[]).is_empty());
    let walk = AnnexBNals::new(&[7, 0, 0, 0, 1]);
    assert_eq!(walk.next_start_code(0), Some((1, 4)));
    assert_eq!(walk.next_start_code(2), Some((2, 3)));
    assert_eq!(walk.next_start_code(3), None);
}

#[test]
fn slices_wait_for_parameter_sets() {
    let mut d = H264Decoder::new(640, 480);
    assert!(matches!(d.decode(&[0, 0, 1, 0x65, 1]), DecodeStep::Wait));
    assert!(matches!(d.decode(&[0, 0, 1, 0x67, 2]), DecodeStep::Wait));
    let stream = [0, 0, 1, 0x09, 0, 0, 1, 0x68, 3, 0, 0, 1, 0x65, 4, 5, 0, 0, 1, 0x41];
    let avcc = match d.decode(&stream) {
        DecodeStep::BuildSession(avcc) => avcc,
        _ => panic!("both sets are known"),
    };
    assert_eq!(avcc, vec![0, 0, 0, 3, 0x65, 4, 5, 0, 0, 0, 1, 0x41]);
    assert_eq!(d.sps, Some(vec![0x67, 2]));
    assert_eq!(d.pps, Some(vec![0x68, 3]));
    assert!(matches!(d.session_built(false, avcc.clone()), DecodeStep::Failed { warn: true }));
    assert!(matches!(d.session_built(false, avcc.clone()), DecodeStep::Failed { warn: false }));
    assert!(matches!(d.session_built(true, avcc), DecodeStep::Decode(_)));
    assert!(matches!(d.session_built(true, Vec::new()), DecodeStep::Nothing));
    assert!(matches!(d.decode(&[0, 0, 1, 0x09]), DecodeStep::Nothing));
    assert!(matches!(d.decode(&[0, 0, 1, 0x41]), DecodeStep::Decode(ref b) if b == &vec![0, 0, 0, 1, 0x41]));
}

#[test]
fn brightness_on_a_grid() {
    assert_eq!(inspect_luma(&[1, 2, 9, 3, 4, 9], 2, 2, 3), Some((10, 4)));
    assert_eq!(inspect_luma(&[], 0, 2, 3), None);
    assert_eq!(inspect_luma(&[1, 2], 2, 1, 1), None);
    let big = vec![3u8; 128 * 128];
    assert_eq!(inspect_luma(&big, 128, 128, 128), Some((3 * 64 * 64, 64 * 64)));
    assert_eq!(grayscale(&[1, 2, 9, 3, 4], 2, 2, 3), vec![1, 2, 3, 4]);
}

#[test]
fn decoded_frames_are_logged_once_a_second() {
    let mut s = CallbackState::new();
    let r = s.decode_output(true, 0, true);
    assert!(r.present && r.log && r.inspect);
    assert_eq!(r.dump, Some(1));
    let r = s.decode_output(true, 999, true);
    assert!(r.present && !r.log && !r.inspect);
    assert_eq!(s.decode_output(true, 1000, true).dump, Some(2));
    assert_eq!(s.decode_output(true, 2000, false).dump, None);
    assert_eq!(s.decode_output(true, 3000, true).dump, Some(3));
    assert_eq!(s.decode_output(true, 4000, true).dump, None);
    assert!(!s.decode_output(false, 9000, true).present);
    assert_eq!((s.decoded, s.errors), (6, 1));
}

#[test]
fn the_virtual_camera_is_found() {
    let id = |s: &str| Some(s.to_string());
    let uids = [None, id("x"), id("6f1b2c3d-4e5a-6b7c-8d9e-a0b1c2d3e4f0")];
    assert_eq!(find_camera(&uids), Ok(2));
    assert_eq!(find_camera(&uids[..2]), Err(FeedError::NoDevice));
    assert_eq!(sink_stream(&[4, 5]), Ok(5));
    assert_eq!(sink_stream(&[4]), Err(FeedError::NoSink(1)));
}

#[test]
fn full_queues_drop_frames() {
    let mut f = CameraFeed::new(1, 2);
    assert!(f.has_room(0, 1));
    f.enqueue(0);
    f.enqueue(-1);
    assert!(!f.has_room(1, 1));
    assert_eq!((f.enqueued, f.dropped_full), (1, 1));
}

#[test]
fn raw_streams_are_dumped_up_to_a_cap() {
    assert!(camera_dump_enabled(Some("1")) && camera_dump_enabled(Some("true")));
    assert!(!camera_dump_enabled(Some("yes")) && !camera_dump_enabled(None));
    let mut s = CameraSink::new();
    let m = s.on_media_type(FORMAT_H264, 640, 480, true);
    assert!(m.open_dump && m.start_decoder && !m.note_skipped);
    let m = s.on_media_type(2, 640, 480, true);
    assert!(!m.open_dump && !m.start_decoder && m.note_skipped);
    assert_eq!(s.on_sample(), DumpStep::Skip);
    s.dump = true;
    assert_eq!(s.on_sample(), DumpStep::Write);
    assert!(!s.dumped(true, 10));
    assert!(s.dumped(true, DUMP_CAP_BYTES as usize));
    assert_eq!(s.on_sample(), DumpStep::Skip);
    assert_eq!(s.frames, 3);
    let mut t = CameraSink::new();
    t.dump = true;
    assert!(!t.dumped(false, 10));
    assert!(!t.dump);
}

#[test]
fn units_and_start_codes_make_up_the_stream() {
    let stream = [9, 9, 0, 0, 1, 5, 6, 0, 0, 0, 0, 1, 7, 0, 0, 1, 0, 0, 1, 8];
    let found = units(&stream);
    assert_eq!(found, vec![vec![5, 6, 0], vec![7], vec![], vec![8]]);
    let mut whole: Vec<u8> = vec![9, 9];
    let codes: [&[u8]; 4] = [&[0, 0, 1], &[0, 0, 0, 1], &[0, 0, 1], &[0, 0, 1]];
    for (code, unit) in codes.iter().zip(&found) {
        whole.extend_from_slice(code);
        whole.extend_from_slice(unit);
    }
    assert_eq!(whole, stream);
    assert!(units(&[0, 0, 0]).is_empty());
}
