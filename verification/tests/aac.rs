use macrdp::aac::{
    AacEncoder, AacError, AudioStreamPacketDescription, EncodeBatch, InputCtx, PullStep,
    FRAMES_PER_PACKET, INPUT_EXHAUSTED, PACKET_BUFFER,
};

/// Stands in for the system's converter: it pulls PCM through the callback and
/// hands out one access unit for every 1024 frames.
struct Converter {
    buffered: usize,
    made: u8,
}

impl Converter {
    fn fill(&mut self, input: &mut InputCtx, pcm: &[u8], out: &mut [u8]) -> (i32, u32, u32) {
        while self.buffered < FRAMES_PER_PACKET {
            let reply = input.input_data_proc(512);
            if reply.status != 0 {
                return (reply.status, 0, 0);
            }
            let end = reply.from + reply.byte_size as usize;
            assert!(end <= pcm.len());
            assert_eq!(reply.byte_size, reply.frames * 4);
            self.buffered += reply.frames as usize;
        }
        self.buffered -= FRAMES_PER_PACKET;
        self.made = self.made.wrapping_add(1);
        for b in out.iter_mut().take(300) {
            *b = self.made;
        }
        (0, 1, 300)
    }
}

fn encode(enc: &AacEncoder, converter: &mut Converter, pcm: &[u8]) -> Result<Vec<Vec<u8>>, AacError> {
    let mut batch: EncodeBatch = match enc.encode(pcm.len()) {
        Some(b) => b,
        None => return Ok(Vec::new()),
    };
    let mut out = vec![0u8; PACKET_BUFFER];
    loop {
        let mut input = batch.input;
        let (status, num, size) = converter.fill(&mut input, pcm, &mut out);
        batch.input = input;
        let described = AudioStreamPacketDescription {
            start_offset: 0,
            variable_frames_in_packet: 0,
            data_byte_size: size,
        };
        match batch.pulled(status, num, described, PACKET_BUFFER as u32, &out) {
            PullStep::Again => {}
            PullStep::Done => return Ok(batch.packets),
            PullStep::Failed(e) => return Err(e),
        }
    }
}

#[test]
fn encodes_sine_to_aac_access_units() {
    let sample_rate = 44_100u32;
    let enc = AacEncoder::new(sample_rate, 2, 0, true).expect("AAC encoder");
    let mut converter = Converter { buffered: 0, made: 0 };

    let total_frames = sample_rate as usize;
    let mut pcm = Vec::with_capacity(total_frames * 4);
    for n in 0..total_frames {
        let t = n as f32 / sample_rate as f32;
        let s = (2.0 * std::f32::consts::PI * 440.0 * t).sin();
        let v = (s * 16_000.0) as i16;
        pcm.extend_from_slice(&v.to_le_bytes());
        pcm.extend_from_slice(&v.to_le_bytes());
    }

    let mut packets = Vec::new();
    for chunk in pcm.chunks(941 * 4) {
        packets.extend(encode(&enc, &mut converter, chunk).expect("encode"));
    }

    assert!(!packets.is_empty(), "expected AAC access units, got none");
    assert!(
        packets.iter().all(|p| !p.is_empty()),
        "empty AAC packet emitted"
    );
    let expected = total_frames / FRAMES_PER_PACKET;
    assert!(
        packets.len() + 5 >= expected,
        "too few packets: got {}, expected ~{expected}",
        packets.len()
    );
    assert_eq!(packets.len(), 43);
    assert_eq!(packets[0], vec![1u8; 300]);
}

#[test]
fn converter_that_cannot_be_made() {
    assert!(matches!(AacEncoder::new(44_100, 2, -50, true), Err(AacError::Create(-50))));
    assert!(matches!(AacEncoder::new(44_100, 2, 0, false), Err(AacError::Create(0))));
    let enc = AacEncoder::new(48_000, 2, 0, true).expect("encoder");
    assert_eq!(enc.sample_rate(), 48_000);
}

#[test]
fn descriptions_of_both_sides() {
    let (src, dst) = AacEncoder::descriptions(44_100, 2);
    assert_eq!(src.format_id, u32::from_be_bytes(*b"lpcm"));
    assert_eq!(src.format_flags, 0x4 | 0x8);
    assert_eq!(src.bytes_per_frame, 4);
    assert_eq!(src.bits_per_channel, 16);
    assert_eq!(dst.format_id, u32::from_be_bytes(*b"aac "));
    assert_eq!(dst.frames_per_packet, 1024);
    assert_eq!(dst.bytes_per_frame, 0);
    assert_eq!(INPUT_EXHAUSTED, i32::from_be_bytes(*b"NoDt"));
}

#[test]
fn partial_frames_are_dropped() {
    let enc = AacEncoder::new(44_100, 2, 0, true).expect("encoder");
    assert!(enc.encode(3).is_none());
    assert_eq!(enc.encode(11).expect("batch").input.len, 8);
    assert_eq!(enc.encode(11).expect("batch").input, enc.encode(8).expect("batch").input);
    let silent = AacEncoder::new(44_100, 0, 0, true).expect("encoder");
    assert!(silent.encode(100).is_none());
}

#[test]
fn long_batches_are_read_in_parts() {
    let enc = AacEncoder::new(44_100, 2, 0, true).expect("encoder");
    let mut input = enc.encode(0x1_0000_0010).expect("batch").input;
    assert_eq!(input.len, 0x1_0000_0010);
    let first = input.input_data_proc(0x3fff_ffff);
    assert_eq!((first.status, first.frames, first.byte_size), (0, 0x3fff_ffff, 0xffff_fffc));
    let second = input.input_data_proc(1024);
    assert_eq!((second.status, second.frames, second.from), (0, 5, 0xffff_fffc));
}

#[test]
fn reader_is_told_when_a_batch_is_used_up() {
    let enc = AacEncoder::new(44_100, 2, 0, true).expect("encoder");
    let mut input = enc.encode(40).expect("batch").input;
    let first = input.input_data_proc(6);
    assert_eq!((first.status, first.frames, first.from, first.byte_size), (0, 6, 0, 24));
    let second = input.input_data_proc(6);
    assert_eq!((second.status, second.frames, second.from, second.byte_size), (0, 4, 24, 16));
    let third = input.input_data_proc(6);
    assert_eq!((third.status, third.frames, third.byte_size), (INPUT_EXHAUSTED, 0, 0));
    assert_eq!(input.pos, input.len);
}

#[test]
fn pulls_end_or_fail() {
    let enc = AacEncoder::new(44_100, 2, 0, true).expect("encoder");
    let none = AudioStreamPacketDescription {
        start_offset: 0,
        variable_frames_in_packet: 0,
        data_byte_size: 0,
    };
    let mut batch = enc.encode(40).expect("batch");
    assert_eq!(batch.pulled(0, 1, none, 3, &[7, 8, 9, 10]), PullStep::Again);
    assert_eq!(batch.packets, vec![vec![7, 8, 9]]);
    assert_eq!(batch.pulled(0, 0, none, 3, &[]), PullStep::Done);
    assert_eq!(batch.pulled(INPUT_EXHAUSTED, 1, none, 3, &[]), PullStep::Done);
    assert_eq!(batch.pulled(-1, 1, none, 3, &[]), PullStep::Failed(AacError::Fill(-1)));
    assert_eq!(batch.packets.len(), 1);
}
