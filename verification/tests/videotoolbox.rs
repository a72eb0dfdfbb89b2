use macrdp::videotoolbox::{
    complete_all, extract_frame, is_keyframe, EncodedFrame, Encoder, EncoderError, FrameEvent,
    FrameStep, ParameterSets, Property, SessionSetup, SetupStep, PIXEL_FORMAT_32_BGRA,
};

/// Stands in for the system's encoder.
struct System {
    properties: Vec<Property>,
    pending: Vec<(i64, bool, Vec<u8>)>,
    since_key: u32,
    interval: u32,
}

fn start(w: u16, h: u16, fps: u32, bitrate: u32) -> Result<(Encoder, System), EncoderError> {
    let mut setup = SessionSetup::new(fps, bitrate);
    let mut system = System { properties: Vec::new(), pending: Vec::new(), since_key: 0, interval: 0 };
    let mut step = setup.created(0, true)?;
    loop {
        match step {
            SetupStep::Apply(p) => {
                if let Property::MaxKeyFrameInterval(n) = p {
                    system.interval = n as u32;
                }
                system.properties.push(p);
                step = setup.property_set(true, 0)?;
            }
            SetupStep::Prepare => step = setup.prepared(0)?,
            SetupStep::Ready => return Ok((Encoder::new(w, h, fps), system)),
        }
    }
}

fn encode(
    enc: &mut Encoder,
    system: &mut System,
    bgra: &[u8],
    stride: usize,
    force: bool,
) -> Result<(), EncoderError> {
    let request = enc.encode_bgra(bgra, stride, force)?;
    let mut padded = 0;
    let mut buffer = Vec::new();
    let mut event = FrameEvent::Begin;
    loop {
        event = match enc.encode_frame(request, event) {
            FrameStep::CreateBuffer { width, height, pixel_format } => {
                assert_eq!(pixel_format, PIXEL_FORMAT_32_BGRA);
                padded = width * 4 + 64;
                buffer = vec![0u8; padded * height];
                FrameEvent::BufferCreated { status: 0, given: true }
            }
            FrameStep::Fill => {
                enc.fill(&mut buffer, padded, bgra, stride);
                FrameEvent::Filled
            }
            FrameStep::Submit(r) => {
                system.pending.push((r.presentation.value, r.force_keyframe, buffer.clone()));
                FrameEvent::Submitted { status: 0 }
            }
            FrameStep::Release(done) => return done,
            FrameStep::Fail(e) => return Err(e),
        };
    }
}

fn complete(enc: &mut Encoder, system: &mut System) -> Result<Vec<EncodedFrame>, EncoderError> {
    for (pts, force, buffer) in system.pending.drain(..) {
        let key = force || system.since_key == 0;
        system.since_key = if key { 1 } else { system.since_key + 1 } % system.interval;
        let mut sets = ParameterSets::new();
        let bank = [vec![0x67, 1], vec![0x68, 2]];
        let mut index = 0;
        while sets.take(0, bank.get(index).cloned(), bank.len()) {
            index += 1;
        }
        let frame = extract_frame(Some(buffer[..8].to_vec()), 0, Some(!key), sets, pts);
        enc.output_callback(0, frame);
    }
    enc.flush(0)
}

#[test]
fn encodes_a_keyframe() -> Result<(), EncoderError> {
    let w: u16 = 320;
    let h: u16 = 240;
    let stride = usize::from(w) * 4;
    let mut frame = vec![0u8; stride * usize::from(h)];
    for px in frame.chunks_exact_mut(4) {
        px[0] = 0x33;
        px[1] = 0x77;
        px[2] = 0xcc;
        px[3] = 0xff;
    }

    let (mut enc, mut system) = start(w, h, 30, 4_000_000)?;
    encode(&mut enc, &mut system, &frame, stride, false)?;
    let frames = complete(&mut enc, &mut system)?;
    assert!(!frames.is_empty(), "expected at least one encoded frame");
    let first = &frames[0];
    assert!(first.is_keyframe, "first frame should be a keyframe");
    assert!(!first.data.is_empty(), "encoded payload should be non-empty");
    assert!(
        !first.parameter_sets.is_empty(),
        "keyframe should carry SPS/PPS parameter sets"
    );
    assert_eq!(first.parameter_sets, vec![vec![0x67, 1], vec![0x68, 2]]);
    assert_eq!(first.data, vec![0x33, 0x77, 0xcc, 0xff, 0x33, 0x77, 0xcc, 0xff]);
    assert_eq!(
        system.properties,
        vec![
            Property::RealTime(true),
            Property::AllowFrameReordering(false),
            Property::BaselineAutoLevel,
            Property::AverageBitRate(4_000_000),
            Property::MaxKeyFrameInterval(60),
        ]
    );
    Ok(())
}

#[test]
fn only_keyframes_carry_parameter_sets() -> Result<(), EncoderError> {
    let (mut enc, mut system) = start(2, 1, 30, 1)?;
    for force in [false, false, true] {
        encode(&mut enc, &mut system, &[1, 2, 3, 4, 5, 6, 7, 8], 8, force)?;
    }
    let frames = complete(&mut enc, &mut system)?;
    let keys: Vec<bool> = frames.iter().map(|f| f.is_keyframe).collect();
    assert_eq!(keys, vec![true, false, true]);
    let sets: Vec<usize> = frames.iter().map(|f| f.parameter_sets.len()).collect();
    assert_eq!(sets, vec![2, 0, 2]);
    let pts: Vec<i64> = frames.iter().map(|f| f.pts).collect();
    assert_eq!(pts, vec![0, 1, 2]);
    assert!(enc.drain().is_empty());
    Ok(())
}

#[test]
fn pictures_that_are_too_small() {
    let mut enc = Encoder::new(2, 3, 25);
    assert_eq!(
        enc.encode_bgra(&[0; 10], 8, false),
        Err(EncoderError::BufferTooSmall { have: 10, need: 24, stride: 8, height: 3 })
    );
    assert_eq!(enc.encode_bgra(&[0; 10], usize::MAX, false), Err(EncoderError::StrideOverflow));
    assert_eq!(enc.next_pts, 0);
    let request = enc.encode_bgra(&[0; 24], 8, true).expect("request");
    assert_eq!(request.presentation.value, 0);
    assert_eq!(request.presentation.timescale, 25);
    assert_eq!(request.duration.value, 1);
    assert!(request.force_keyframe);
    assert_eq!(enc.next_pts, 1);
    assert_eq!(
        enc.encode_frame(request, FrameEvent::BufferCreated { status: -4, given: false }),
        FrameStep::Fail(EncoderError::CreateBuffer { status: -4 })
    );
    assert_eq!(
        enc.encode_frame(request, FrameEvent::BufferCreated { status: 0, given: false }),
        FrameStep::Fail(EncoderError::CreateBuffer { status: 0 })
    );
    assert_eq!(
        enc.encode_frame(request, FrameEvent::Submitted { status: -6 }),
        FrameStep::Release(Err(EncoderError::EncodeFrame { status: -6 }))
    );
    let mut fast = Encoder::new(1, 1, u32::MAX);
    assert_eq!(fast.encode_bgra(&[0; 4], 4, false).expect("request").duration.timescale, 30);
}

#[test]
fn sessions_that_cannot_be_made() {
    let setup = SessionSetup::new(30, 1);
    assert_eq!(setup.created(-1, true), Err(EncoderError::CreateSession { status: -1 }));
    assert_eq!(setup.created(0, false), Err(EncoderError::CreateSession { status: 0 }));
    let mut setup = SessionSetup::new(30, 1);
    assert_eq!(
        setup.property_set(false, 0),
        Err(EncoderError::NoValue { property: Property::RealTime(true) })
    );
    assert_eq!(
        setup.property_set(true, -5),
        Err(EncoderError::SetProperty { property: Property::RealTime(true), status: -5 })
    );
    assert_eq!(setup.prepared(-7), Err(EncoderError::Prepare { status: -7 }));
}

#[test]
fn samples_that_bring_nothing() {
    let none = extract_frame(None, 0, None, ParameterSets::new(), 0);
    assert!(matches!(none, Err(EncoderError::NoData)));
    let torn = extract_frame(Some(vec![1]), -3, None, ParameterSets::new(), 0);
    assert!(matches!(torn, Err(EncoderError::CopyData { status: -3 })));
    let mut enc = Encoder::new(1, 1, 1);
    enc.output_callback(0, torn);
    enc.output_callback(-1, extract_frame(Some(vec![1]), 0, None, ParameterSets::new(), 0));
    assert!(enc.drain().is_empty());
    assert!(matches!(enc.flush(-9), Err(EncoderError::CompleteFrames { status: -9 })));
    assert_eq!(complete_all().flags, 0);
}

#[test]
fn marks_and_parameter_sets() {
    assert!(is_keyframe(None));
    assert!(is_keyframe(Some(false)));
    assert!(!is_keyframe(Some(true)));
    let mut sets = ParameterSets::new();
    assert!(sets.take(0, Some(vec![1]), 0));
    assert!(sets.take(0, Some(vec![2]), 3));
    assert!(!sets.take(0, Some(vec![3]), 3));
    assert!(!sets.take(-1, Some(vec![4]), 0));
    assert!(!sets.take(0, None, 0));
    assert!(!sets.take(0, Some(Vec::new()), 0));
    assert_eq!(sets.sets, vec![vec![1], vec![2], vec![3]]);
}

#[test]
fn padding_keeps_the_rows() {
    let enc = Encoder::new(1, 2, 30);
    let mut buffer = vec![9u8; 12];
    enc.fill(&mut buffer, 8, &[1, 2, 3, 4, 0, 5, 6, 7, 8], 5);
    assert_eq!(buffer, vec![1, 2, 3, 4, 9, 9, 9, 9, 5, 6, 7, 8]);
}
