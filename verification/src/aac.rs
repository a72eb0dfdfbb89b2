//! Feeding an AAC-LC encoder.
//!
//! The system's audio converter pulls PCM through a callback and hands out one
//! access unit at a time. What it is configured with, what each callback gets,
//! and what each pull means is decided here; the conversion itself is the
//! system's.

use crate::wire;
use vstd::prelude::*;

verus! {

/// Status by which the input callback says that this batch is used up ("NoDt").
/// With a zero status and no frames the converter would take the stream for
/// ended.
pub const INPUT_EXHAUSTED: i32 = 0x4e6f_4474;

/// Frames in an access unit.
pub const FRAMES_PER_PACKET: usize = 1024;

/// Room for one access unit, in bytes.
pub const PACKET_BUFFER: usize = 4096;

/// Format tag of uncompressed samples ("lpcm").
pub const K_AUDIO_FORMAT_LINEAR_PCM: u32 = 0x6c70_636d;

/// Format tag of AAC ("aac ").
pub const K_AUDIO_FORMAT_MPEG4_AAC: u32 = 0x6161_6320;

/// Flags of signed, packed samples.
pub const LINEAR_PCM_SIGNED_PACKED: u32 = 0xc;

/// What the converter is told of one side of the stream.
#[derive(Debug, Clone, Copy, PartialEq, Eq, Structural)]
pub struct AudioStreamBasicDescription {
    pub sample_rate: u32,
    pub format_id: u32,
    pub format_flags: u32,
    pub bytes_per_packet: u32,
    pub frames_per_packet: u32,
    pub bytes_per_frame: u32,
    pub channels_per_frame: u32,
    pub bits_per_channel: u32,
}

/// What the converter says of an access unit.
#[derive(Debug, Clone, Copy, PartialEq, Eq, Structural)]
pub struct AudioStreamPacketDescription {
    pub start_offset: i64,
    pub variable_frames_in_packet: u32,
    pub data_byte_size: u32,
}

/// How far the converter has read into a batch.
#[derive(Debug, Clone, Copy, PartialEq, Eq, Structural)]
pub struct InputCtx {
    pub len: usize,
    pub pos: usize,
    pub bytes_per_frame: usize,
    pub channels: u32,
}

/// What the input callback answers: frames, and where in the batch they are.
#[derive(Debug, Clone, Copy, PartialEq, Eq, Structural)]
pub struct InputReply {
    pub status: i32,
    pub frames: u32,
    pub channels: u32,
    pub from: usize,
    pub byte_size: u32,
}

impl InputCtx {
    /// The batch is made of whole frames and the reader stands between two.
    pub open spec fn wf(self) -> bool {
        &&& self.bytes_per_frame > 0
        &&& self.pos <= self.len
        &&& self.len % self.bytes_per_frame == 0
        &&& self.pos % self.bytes_per_frame == 0
    }

    /// Frames that are left.
    pub open spec fn frames_left(self) -> int {
        (self.len - self.pos) / (self.bytes_per_frame as int)
    }

    /// Frames that a request for `requested` frames gets.
    pub open spec fn frames_given(self, requested: u32) -> int {
        if requested < self.frames_left() {
            requested as int
        } else {
            self.frames_left()
        }
    }

    /// The reader after a request for `requested` frames, and what is answered.
    pub open spec fn fed(self, requested: u32) -> (InputCtx, InputReply) {
        let give = self.frames_given(requested);
        let bytes = give * self.bytes_per_frame;
        if give == 0 {
            (
                self,
                InputReply {
                    status: INPUT_EXHAUSTED,
                    frames: 0,
                    channels: self.channels,
                    from: self.pos,
                    byte_size: 0,
                },
            )
        } else {
            (
                InputCtx { pos: (self.pos + bytes) as usize, ..self },
                InputReply {
                    status: 0,
                    frames: give as u32,
                    channels: self.channels,
                    from: self.pos,
                    byte_size: bytes as u32,
                },
            )
        }
    }

    /// The converter asks for up to `requested` frames: it gets the next ones, as
    /// many as there are, or is told that the batch is used up. The size of what it
    /// gets has to fit the field that it is reported in.
    pub fn input_data_proc(&mut self, requested: u32) -> (r: InputReply)
        requires
            old(self).wf(),
            old(self).frames_given(requested) * old(self).bytes_per_frame <= u32::MAX,
        ensures
            final(self).wf(),
            (*final(self), r) == old(self).fed(requested),
            r.from + r.byte_size <= old(self).len,
    {
        let left: usize = (self.len - self.pos) / self.bytes_per_frame;
        let give: usize = if (requested as u64) < left as u64 {
            requested as usize
        } else {
            left
        };
        if give == 0 {
            return InputReply {
                status: INPUT_EXHAUSTED,
                frames: 0,
                channels: self.channels,
                from: self.pos,
                byte_size: 0,
            };
        }
        let from: usize = self.pos;
        let ghost bpf = self.bytes_per_frame as int;
        assert(0 <= give * bpf && give * bpf <= self.len - from) by (nonlinear_arith)
            requires
                0 <= give <= left,
                left == (self.len - from) / bpf,
                bpf > 0,
                self.len >= from,
        ;
        let bytes: usize = give * self.bytes_per_frame;
        self.pos = from + bytes;
        proof {
            vstd::arithmetic::div_mod::lemma_mod_multiples_vanish(give as int, from as int, bpf);
            assert(bpf * give == give * bpf) by (nonlinear_arith);
        }
        assert(give <= bytes) by (nonlinear_arith)
            requires
                bytes == give * bpf,
                bpf >= 1,
                give >= 0,
        ;
        InputReply {
            status: 0,
            frames: give as u32,
            channels: self.channels,
            from,
            byte_size: bytes as u32,
        }
    }
}

/// The batch is handed out whole and in order: a reader that asks for anything at
/// all gets nothing exactly when it stands at the end.
pub proof fn law_exhausted_means_all_read(ctx: InputCtx, requested: u32)
    requires
        ctx.wf(),
        requested > 0,
    ensures
        ctx.frames_given(requested) == 0 <==> ctx.pos == ctx.len,
{
    let (len, pos, bpf) = (ctx.len as int, ctx.pos as int, ctx.bytes_per_frame as int);
    vstd::arithmetic::div_mod::lemma_sub_mod_noop(len, pos, bpf);
    vstd::arithmetic::div_mod::lemma_fundamental_div_mod(len - pos, bpf);
    let q = (len - pos) / bpf;
    assert(bpf * q == 0 ==> q == 0) by (nonlinear_arith)
        requires
            bpf > 0,
    ;
    assert(q == 0 ==> bpf * q == 0) by (nonlinear_arith);
}

/// Why a batch was not encoded.
#[derive(Debug, Clone, Copy, PartialEq, Eq, Structural)]
pub enum AacError {
    /// The converter could not be made.
    Create(i32),
    /// A pull failed.
    Fill(i32),
}

/// What follows a pull.
#[derive(Debug, Clone, Copy, PartialEq, Eq, Structural)]
pub enum PullStep {
    /// There may be more: pull again.
    Again,
    /// The batch is done.
    Done,
    /// The converter failed.
    Failed(AacError),
}

/// The size of an access unit: what its description says, or, where that says
/// nothing, what the buffer does.
pub open spec fn packet_size(described: u32, buffered: u32) -> u32 {
    if described == 0 {
        buffered
    } else {
        described
    }
}

/// A batch that is being encoded.
pub struct EncodeBatch {
    pub input: InputCtx,
    pub packets: Vec<Vec<u8>>,
}

/// The access units as values.
pub open spec fn units(packets: Seq<Vec<u8>>) -> Seq<Seq<u8>> {
    Seq::new(packets.len(), |i: int| packets[i]@)
}

/// Whether a batch continues after a pull with this outcome.
pub open spec fn pull_step(status: i32, num_packets: u32) -> PullStep {
    if status == INPUT_EXHAUSTED {
        PullStep::Done
    } else if status != 0 {
        PullStep::Failed(AacError::Fill(status))
    } else if num_packets == 0 {
        PullStep::Done
    } else {
        PullStep::Again
    }
}

/// The access units after a pull with this outcome.
pub open spec fn collected(
    before: Seq<Seq<u8>>,
    status: i32,
    num_packets: u32,
    size: u32,
    out: Seq<u8>,
) -> Seq<Seq<u8>> {
    if pull_step(status, num_packets) is Again {
        before.push(out.subrange(0, size as int))
    } else {
        before
    }
}

impl EncodeBatch {
    /// The converter returned from a pull. Only a pull that goes on has produced
    /// an access unit, which stands at the start of `out`.
    pub fn pulled(
        &mut self,
        status: i32,
        num_packets: u32,
        described: AudioStreamPacketDescription,
        buffered: u32,
        out: &[u8],
    ) -> (r: PullStep)
        requires
            pull_step(status, num_packets) is Again ==> packet_size(
                described.data_byte_size,
                buffered,
            ) <= out@.len(),
        ensures
            r == pull_step(status, num_packets),
            final(self).input == old(self).input,
            units(final(self).packets@) == collected(
                units(old(self).packets@),
                status,
                num_packets,
                packet_size(described.data_byte_size, buffered),
                out@,
            ),
    {
        if status == INPUT_EXHAUSTED {
            return PullStep::Done;
        }
        if status != 0 {
            return PullStep::Failed(AacError::Fill(status));
        }
        if num_packets == 0 {
            return PullStep::Done;
        }
        let size: u32 = if described.data_byte_size == 0 {
            buffered
        } else {
            described.data_byte_size
        };
        let packet = wire::copy_range(out, 0, size as usize);
        self.packets.push(packet);
        assert(units(self.packets@) =~= units(old(self).packets@).push(
            out@.subrange(0, size as int),
        ));
        PullStep::Again
    }
}

/// An AAC-LC encoder for interleaved 16-bit samples.
pub struct AacEncoder {
    pub channels: u16,
    pub sample_rate: u32,
}

/// Bytes of PCM that make whole frames.
pub open spec fn usable_bytes(len: int, channels: u16) -> int {
    if channels == 0 {
        0
    } else {
        len - len % (2 * channels)
    }
}

/// The reader of a batch of `len` bytes of PCM, at its start; none where there is no
/// whole frame.
pub open spec fn batch_input(len: int, channels: u16) -> Option<InputCtx> {
    if usable_bytes(len, channels) == 0 {
        None
    } else {
        Some(
            (InputCtx {
                len: usable_bytes(len, channels) as usize,
                pos: 0,
                bytes_per_frame: (2 * channels) as usize,
                channels: channels as u32,
            }),
        )
    }
}

/// A part of a frame at the end of a batch is dropped: the batch without it is read
/// in the same way, and less than one frame is not read at all.
pub proof fn law_partial_frame_is_dropped(len: int, channels: u16)
    requires
        0 <= len,
    ensures
        0 <= usable_bytes(len, channels) <= len,
        batch_input(len, channels) == batch_input(usable_bytes(len, channels), channels),
        len < 2 * channels ==> batch_input(len, channels) is None,
        channels > 0 ==> len - usable_bytes(len, channels) < 2 * channels,
{
    if channels > 0 {
        let frame = 2 * channels as int;
        vstd::arithmetic::div_mod::lemma_fundamental_div_mod(len, frame);
        vstd::arithmetic::div_mod::lemma_mod_multiples_vanish(len / frame, 0, frame);
        vstd::arithmetic::div_mod::lemma_mod_bound(len, frame);
        vstd::arithmetic::div_mod::lemma_mod_decreases(len as nat, frame as nat);
        if len < frame {
            vstd::arithmetic::div_mod::lemma_small_mod(len as nat, frame as nat);
        }
    }
}

/// Signed packed 16-bit samples, a packet of them a frame.
pub open spec fn pcm_description(sample_rate: u32, channels: u16) -> AudioStreamBasicDescription {
    AudioStreamBasicDescription {
        sample_rate,
        format_id: K_AUDIO_FORMAT_LINEAR_PCM,
        format_flags: LINEAR_PCM_SIGNED_PACKED,
        bytes_per_packet: (2 * channels) as u32,
        frames_per_packet: 1,
        bytes_per_frame: (2 * channels) as u32,
        channels_per_frame: channels as u32,
        bits_per_channel: 16,
    }
}

/// AAC, a packet of it an access unit.
pub open spec fn aac_description(sample_rate: u32, channels: u16) -> AudioStreamBasicDescription {
    AudioStreamBasicDescription {
        sample_rate,
        format_id: K_AUDIO_FORMAT_MPEG4_AAC,
        format_flags: 0,
        bytes_per_packet: 0,
        frames_per_packet: 1024,
        bytes_per_frame: 0,
        channels_per_frame: channels as u32,
        bits_per_channel: 0,
    }
}

/// The encoder that a converter makes, if there is one.
pub open spec fn encoder_of(sample_rate: u32, channels: u16, status: i32, made: bool) -> Result<
    AacEncoder,
    AacError,
> {
    if status == 0 && made {
        Ok(AacEncoder { channels, sample_rate })
    } else {
        Err(AacError::Create(status))
    }
}

impl AacEncoder {
    /// What the converter is made with: signed packed 16-bit samples in, AAC of
    /// 1024 frames per unit out. Fields that AAC does not use are zero.
    pub fn descriptions(sample_rate: u32, channels: u16) -> (r: (
        AudioStreamBasicDescription,
        AudioStreamBasicDescription,
    ))
        ensures
            r == (pcm_description(sample_rate, channels), aac_description(sample_rate, channels)),
    {
        let bytes_per_frame: u32 = channels as u32 * 2;
        (
            AudioStreamBasicDescription {
                sample_rate,
                format_id: K_AUDIO_FORMAT_LINEAR_PCM,
                format_flags: LINEAR_PCM_SIGNED_PACKED,
                bytes_per_packet: bytes_per_frame,
                frames_per_packet: 1,
                bytes_per_frame,
                channels_per_frame: channels as u32,
                bits_per_channel: 16,
            },
            AudioStreamBasicDescription {
                sample_rate,
                format_id: K_AUDIO_FORMAT_MPEG4_AAC,
                format_flags: 0,
                bytes_per_packet: 0,
                frames_per_packet: FRAMES_PER_PACKET as u32,
                bytes_per_frame: 0,
                channels_per_frame: channels as u32,
                bits_per_channel: 0,
            },
        )
    }

    /// The system made a converter, or did not. A bit rate that it turns down is
    /// no failure.
    pub fn new(sample_rate: u32, channels: u16, status: i32, made: bool) -> (r: Result<
        Self,
        AacError,
    >)
        ensures
            r == encoder_of(sample_rate, channels, status, made),
    {
        if status != 0 || !made {
            Err(AacError::Create(status))
        } else {
            Ok(AacEncoder { channels, sample_rate })
        }
    }

    /// Starts a batch of `len` bytes of PCM. A trailing part of a frame is left
    /// out; without a whole frame there is nothing to do.
    pub fn encode(&self, len: usize) -> (r: Option<EncodeBatch>)
        ensures
            match r {
                Some(b) => {
                    &&& batch_input(len as int, self.channels) == Some(b.input)
                    &&& b.input.wf()
                    &&& b.packets@.len() == 0
                },
                None => batch_input(len as int, self.channels) is None,
            },
    {
        let bytes_per_frame: usize = self.channels as usize * 2;
        if bytes_per_frame == 0 {
            return None;
        }
        let ghost bpf = bytes_per_frame as int;
        proof {
            vstd::arithmetic::div_mod::lemma_mod_decreases(len as nat, bpf as nat);
            vstd::arithmetic::div_mod::lemma_fundamental_div_mod(len as int, bpf);
            vstd::arithmetic::div_mod::lemma_mod_multiples_vanish(len as int / bpf, 0, bpf);
        }
        let usable: usize = len - len % bytes_per_frame;
        if usable == 0 {
            return None;
        }
        Some(
            EncodeBatch {
                input: InputCtx {
                    len: usable,
                    pos: 0,
                    bytes_per_frame,
                    channels: self.channels as u32,
                },
                packets: Vec::new(),
            },
        )
    }

    /// The rate at which the encoder works.
    pub fn sample_rate(&self) -> (r: u32)
        ensures
            r == self.sample_rate,
    {
        self.sample_rate
    }
}

/// A request gets as many whole frames as it asks for, or all that are left if they
/// are fewer, and the next one goes on behind them. Where there are none the answer
/// is the status that spells `NoDt`, and nothing moves.
pub proof fn law_requests_get_what_is_next(ctx: InputCtx, requested: u32)
    requires
        ctx.wf(),
        ctx.frames_given(requested) * ctx.bytes_per_frame <= u32::MAX,
    ensures
        ({
            let (after, reply) = ctx.fed(requested);
            let frame = ctx.bytes_per_frame as int;
            &&& reply.frames <= requested
            &&& reply.frames * frame <= ctx.len - ctx.pos
            &&& reply.frames == requested || (reply.frames + 1) * frame > ctx.len - ctx.pos
            &&& reply.byte_size == reply.frames * frame
            &&& reply.from == ctx.pos
            &&& after.pos == ctx.pos + reply.byte_size
            &&& after.len == ctx.len && after.bytes_per_frame == ctx.bytes_per_frame
            &&& after.channels == ctx.channels && reply.channels == ctx.channels
            &&& reply.status == (if reply.frames == 0 {
                0x4e6f_4474i32
            } else {
                0i32
            })
        }),
{
    let frame = ctx.bytes_per_frame as int;
    let rest = ctx.len - ctx.pos;
    let left = rest / frame;
    let give = ctx.frames_given(requested);
    vstd::arithmetic::div_mod::lemma_fundamental_div_mod(rest, frame);
    vstd::arithmetic::div_mod::lemma_mod_bound(rest, frame);
    vstd::arithmetic::div_mod::lemma_div_pos_is_pos(rest, frame);
    assert(frame * left == left * frame) by (nonlinear_arith);
    assert((left + 1) * frame == left * frame + frame) by (nonlinear_arith);
    assert(0 <= give * frame <= left * frame) by (nonlinear_arith)
        requires
            0 <= give <= left,
            frame > 0,
    ;
    assert(give <= give * frame) by (nonlinear_arith)
        requires
            0 <= give,
            frame >= 1,
    ;
    assert(0 * frame == 0);
}

/// A batch is read from its start, in frames of one 16-bit sample for each channel,
/// and all of it is read that makes whole frames.
pub proof fn law_how_a_batch_is_read(len: int, channels: u16)
    requires
        0 <= len <= usize::MAX,
        0 < channels,
    ensures
        usable_bytes(len, channels) % (2 * channels as int) == 0,
        0 <= len - usable_bytes(len, channels) < 2 * channels,
        batch_input(len, channels) is Some <==> len >= 2 * channels,
        batch_input(len, channels) matches Some(ctx) ==> {
            &&& ctx.len == usable_bytes(len, channels)
            &&& ctx.pos == 0
            &&& ctx.bytes_per_frame == 2 * channels
            &&& ctx.channels == channels
            &&& ctx.wf()
        },
        batch_input(len, 0) is None,
{
    let frame = 2 * channels as int;
    law_partial_frame_is_dropped(len, channels);
    vstd::arithmetic::div_mod::lemma_fundamental_div_mod(len, frame);
    vstd::arithmetic::div_mod::lemma_mod_multiples_vanish(len / frame, 0, frame);
    vstd::arithmetic::div_mod::lemma_small_mod(0, frame as nat);
}

/// A pull that hands a unit out is followed by another, and the unit is the start of
/// the buffer, as long as its description says, or the buffer if that says nothing.
/// The batch is done when its input is used up or nothing is handed out; any other
/// status is the failure that is told.
pub proof fn law_what_a_pull_brings(
    before: Seq<Seq<u8>>,
    status: i32,
    packets: u32,
    described: u32,
    buffered: u32,
    out: Seq<u8>,
)
    ensures
        pull_step(0x4e6f_4474, packets) == PullStep::Done,
        pull_step(0, 0) == PullStep::Done,
        packets > 0 ==> pull_step(0, packets) == PullStep::Again,
        status != 0 && status != 0x4e6f_4474 ==> pull_step(status, packets) == PullStep::Failed(
            AacError::Fill(status),
        ),
        packets > 0 ==> collected(before, 0, packets, buffered, out) == before.push(
            out.subrange(0, buffered as int),
        ),
        status != 0 || packets == 0 ==> collected(before, status, packets, buffered, out) == before,
        described > 0 ==> packet_size(described, buffered) == described,
        packet_size(0, buffered) == buffered,
{
}

/// Both sides of the converter have the rate and the channels of the stream. Samples
/// are 16 bits, signed and packed, a frame at a time; a unit is 1024 frames.
pub proof fn law_what_the_converter_is_told(rate: u32, channels: u16)
    ensures
        ({
            let d = pcm_description(rate, channels);
            &&& d.sample_rate == rate && d.channels_per_frame == channels
            &&& d.format_id == 0x6c70_636d && d.format_flags == 12
            &&& d.bits_per_channel == 16 && d.frames_per_packet == 1
            &&& d.bytes_per_frame == 2 * channels && d.bytes_per_packet == d.bytes_per_frame
        }),
        ({
            let d = aac_description(rate, channels);
            &&& d.sample_rate == rate && d.channels_per_frame == channels
            &&& d.format_id == 0x6161_6320 && d.format_flags == 0
            &&& d.bits_per_channel == 0 && d.frames_per_packet == 1024
            &&& d.bytes_per_frame == 0 && d.bytes_per_packet == 0
        }),
{
}

/// There is an encoder exactly where the system made a converter and says so, and it
/// is for the rate and the channels that were asked for.
pub proof fn law_when_there_is_an_encoder(rate: u32, channels: u16, status: i32, made: bool)
    ensures
        encoder_of(rate, channels, status, made) is Ok <==> status == 0 && made,
        encoder_of(rate, channels, status, made) matches Ok(e) ==> e.sample_rate == rate
            && e.channels == channels,
        encoder_of(rate, channels, status, made) matches Err(e) ==> e == AacError::Create(status),
{
}

} // verus!
