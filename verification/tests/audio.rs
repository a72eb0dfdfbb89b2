use macrdp::audio::{
    bytes_to_samples, deinterleave_first_two_channels, float_list_to_planar_stereo, goes_on,
    negotiate, pcm_format, planar_to_interleaved_i16, wave_route, AudioBuffer, AudioFormat,
    CaptureLoop, Generation, LoopEvent, LoopStep, MacRdpsndBackend, SendOutcome, WaveRoute,
    RESAMPLE_CHUNK, WAVE_FORMAT_PCM,
};

#[test]
fn the_offered_format() {
    let f = pcm_format();
    assert_eq!(f.format, WAVE_FORMAT_PCM);
    assert_eq!((f.n_channels, f.n_samples_per_sec, f.bits_per_sample), (2, 44_100, 16));
    assert_eq!((f.n_avg_bytes_per_sec, f.n_block_align), (176_400, 4));
    assert_eq!(f.data, None);
    let pcm = ironrdp_rdpsnd::pdu::WaveFormat::PCM;
    assert_eq!(format!("{pcm:?}"), WAVE_FORMAT_PCM.to_string());
}

fn other() -> AudioFormat {
    AudioFormat { n_samples_per_sec: 22_050, ..pcm_format() }
}

#[test]
fn formats_are_negotiated_by_the_own_list() {
    assert_eq!(negotiate(&[pcm_format()], &[other(), pcm_format()]), Some(0));
    assert_eq!(negotiate(&[other(), pcm_format()], &[pcm_format()]), Some(1));
    assert_eq!(negotiate(&[pcm_format()], &[other()]), None);
    let tagged = AudioFormat { data: Some(vec![1]), n_block_align: 9, ..pcm_format() };
    assert_eq!(negotiate(&[pcm_format()], &[tagged]), Some(0));
}

#[test]
fn one_capture_loop_at_a_time() {
    let mut generation = Generation { current: 0 };
    let mut a = MacRdpsndBackend::new();
    let mut b = MacRdpsndBackend::new();
    assert_eq!(a.start(&mut generation, &[pcm_format()]), Some(0));
    let mut first = CaptureLoop::new(a.my_gen);
    assert!(matches!(first.step(LoopEvent::Tick(generation.current)), LoopStep::Wait));
    assert_eq!(b.start(&mut generation, &[pcm_format()]), Some(0));
    assert!(matches!(first.step(LoopEvent::Tick(generation.current)), LoopStep::Exit));
    a.stop(&mut generation);
    let mut second = CaptureLoop::new(b.my_gen);
    assert!(matches!(second.step(LoopEvent::Tick(generation.current)), LoopStep::Wait));
    b.stop(&mut generation);
    assert!(matches!(second.step(LoopEvent::Tick(generation.current)), LoopStep::Exit));
    assert_eq!(a.start(&mut generation, &[other()]), None);
}

fn bytes(samples: &[u32]) -> Vec<u8> {
    samples.iter().flat_map(|s| s.to_le_bytes()).collect()
}

#[test]
fn captured_buffers_become_two_channels() {
    assert_eq!(bytes_to_samples(&bytes(&[1, 0x0102_0304])), vec![1, 0x0102_0304]);
    assert_eq!(bytes_to_samples(&[1, 0, 0, 0, 9]), vec![1]);
    let (l, r) = deinterleave_first_two_channels(&bytes(&[1, 2, 3, 4, 5, 6, 7]), 3);
    assert_eq!((l, r), (vec![1, 4], vec![2, 5]));
    let mono = AudioBuffer { channels: 1, data: bytes(&[7, 8]) };
    assert_eq!(float_list_to_planar_stereo(&[mono]), (vec![7, 8], vec![7, 8]));
    let left = AudioBuffer { channels: 1, data: bytes(&[1, 2, 3]) };
    let right = AudioBuffer { channels: 1, data: bytes(&[4, 5]) };
    assert_eq!(float_list_to_planar_stereo(&[left, right]), (vec![1, 2], vec![4, 5]));
    assert_eq!(float_list_to_planar_stereo(&[]), (vec![], vec![]));
}

#[test]
fn waves_are_interleaved() {
    let pcm = planar_to_interleaved_i16(&[vec![1, -2], vec![0x0102, 4, 5]]);
    assert_eq!(pcm, vec![1, 0, 2, 1, 0xfe, 0xff, 4, 0]);
    assert!(planar_to_interleaved_i16(&[vec![1]]).is_empty());
}

#[test]
fn the_loop_conserves_audio() {
    let mut run = CaptureLoop::new(1);
    let all: Vec<u32> = (0..(RESAMPLE_CHUNK as u32 * 2 + 7)).collect();
    let half = AudioBuffer { channels: 1, data: bytes(&all[..10]) };
    assert!(matches!(run.step(LoopEvent::Captured(Some(vec![half]))), LoopStep::Wait));
    let rest = AudioBuffer { channels: 1, data: bytes(&all[10..]) };
    let mut got = Vec::new();
    let mut step = run.step(LoopEvent::Captured(Some(vec![rest])));
    loop {
        match step {
            LoopStep::Resample(l, r) => {
                assert_eq!(l, r);
                got.extend(l);
                step = run.step(LoopEvent::Resampled(vec![vec![1], vec![2]]));
            }
            LoopStep::Emit(pcm) => {
                assert_eq!(pcm, vec![1, 0, 2, 0]);
                step = run.step(LoopEvent::Delivered(SendOutcome::Full));
            }
            LoopStep::Wait => break,
            LoopStep::Exit => panic!("no reason to end"),
        }
    }
    got.extend(run.queue.left.iter().copied());
    assert_eq!(got, all);
    assert!(matches!(run.step(LoopEvent::Captured(None)), LoopStep::Wait));
    assert!(matches!(run.step(LoopEvent::Resampled(vec![])), LoopStep::Wait));
    assert!(matches!(run.step(LoopEvent::Delivered(SendOutcome::Closed)), LoopStep::Exit));
    assert!(matches!(run.step(LoopEvent::StreamEnded), LoopStep::Exit));
}

#[test]
fn waves_take_the_audio_channel() {
    assert_eq!(wave_route(true, true), WaveRoute::Audio);
    assert_eq!(wave_route(false, true), WaveRoute::Event);
    assert_eq!(wave_route(false, false), WaveRoute::Drop);
    assert!(goes_on(SendOutcome::Sent) && goes_on(SendOutcome::Full));
    assert!(!goes_on(SendOutcome::Closed));
}
