//! System audio for the client: negotiating the format, keeping one capture loop
//! alive, and turning captured buffers into waves.
//!
//! Samples are 32-bit floats; here they are carried as their bit patterns. The
//! resampler and the rounding to 16 bits work on the numbers themselves and stand
//! outside; what goes into them, and what becomes of what comes out, is decided
//! here.

use crate::wire;
use vstd::prelude::*;

verus! {

/// The rate at which the system delivers audio.
pub const SCK_SAMPLE_RATE: u32 = 48000;

/// The rate at which the client plays it.
pub const SAMPLE_RATE: u32 = 44100;

pub const CHANNELS: u16 = 2;

pub const BITS_PER_SAMPLE: u16 = 16;

/// Frames that are resampled at a time.
pub const RESAMPLE_CHUNK: usize = 1024;

/// Format tag of uncompressed samples.
pub const WAVE_FORMAT_PCM: u16 = 1;

/// An audio format as the two sides announce it.
pub struct AudioFormat {
    pub format: u16,
    pub n_channels: u16,
    pub n_samples_per_sec: u32,
    pub n_avg_bytes_per_sec: u32,
    pub n_block_align: u16,
    pub bits_per_sample: u16,
    pub data: Option<Vec<u8>>,
}

/// Whether two formats are the same to a decoder.
pub open spec fn same_format(a: AudioFormat, b: AudioFormat) -> bool {
    &&& a.format == b.format
    &&& a.n_channels == b.n_channels
    &&& a.n_samples_per_sec == b.n_samples_per_sec
    &&& a.bits_per_sample == b.bits_per_sample
}

/// Whether a format is the one that is offered.
pub open spec fn stereo_pcm(f: AudioFormat) -> bool {
    &&& f.format == WAVE_FORMAT_PCM
    &&& f.n_channels == 2
    &&& f.n_samples_per_sec == 44100
    &&& f.n_avg_bytes_per_sec == 176400
    &&& f.n_block_align == 4
    &&& f.bits_per_sample == 16
    &&& f.data is None
}

/// The format that is offered: 16-bit stereo at 44.1 kHz.
pub fn pcm_format() -> (f: AudioFormat)
    ensures
        stereo_pcm(f),
{
    let block_align: u32 = CHANNELS as u32 * (BITS_PER_SAMPLE as u32 / 8);
    AudioFormat {
        format: WAVE_FORMAT_PCM,
        n_channels: CHANNELS,
        n_samples_per_sec: SAMPLE_RATE,
        n_avg_bytes_per_sec: SAMPLE_RATE * block_align,
        n_block_align: block_align as u16,
        bits_per_sample: BITS_PER_SAMPLE,
        data: None,
    }
}

/// Whether the client accepts a format.
pub open spec fn accepted(f: AudioFormat, client: Seq<AudioFormat>) -> bool {
    exists|j: int| 0 <= j < client.len() && same_format(#[trigger] client[j], f)
}

/// Whether `i` is the first of the server's formats that the client accepts.
pub open spec fn first_accepted(
    server: Seq<AudioFormat>,
    client: Seq<AudioFormat>,
    i: int,
) -> bool {
    &&& 0 <= i < server.len()
    &&& accepted(server[i], client)
    &&& forall|k: int| 0 <= k < i ==> !accepted(#[trigger] server[k], client)
}

fn accepts(f: &AudioFormat, client: &[AudioFormat]) -> (r: bool)
    ensures
        r == accepted(*f, client@),
{
    let mut j: usize = 0;
    while j < client.len()
        invariant
            j <= client@.len(),
            forall|k: int| 0 <= k < j ==> !same_format(#[trigger] client@[k], *f),
        decreases client@.len() - j,
    {
        let c = &client[j];
        if c.format == f.format && c.n_channels == f.n_channels && c.n_samples_per_sec
            == f.n_samples_per_sec && c.bits_per_sample == f.bits_per_sample {
            assert(same_format(client@[j as int], *f));
            return true;
        }
        j = j + 1;
    }
    false
}

/// The number to tag waves with: the position, in the server's own list, of the
/// first format that the client accepts. A position in the client's list would
/// name another format to the client.
pub fn negotiate(server: &[AudioFormat], client: &[AudioFormat]) -> (r: Option<usize>)
    ensures
        match r {
            Some(i) => first_accepted(server@, client@, i as int),
            None => forall|k: int|
                0 <= k < server@.len() ==> !accepted(#[trigger] server@[k], client@),
        },
{
    let mut i: usize = 0;
    while i < server.len()
        invariant
            i <= server@.len(),
            forall|k: int| 0 <= k < i ==> !accepted(#[trigger] server@[k], client@),
        decreases server@.len() - i,
    {
        if accepts(&server[i], client) {
            return Some(i);
        }
        i = i + 1;
    }
    None
}

/// Which capture loop may run. Every backend of a server shares one.
pub struct Generation {
    pub current: u64,
}

/// Whether the loop that claimed `my_gen` may go on.
pub open spec fn is_active(current: u64, my_gen: u64) -> bool {
    current == my_gen
}

/// The generation after a new loop has claimed it.
pub open spec fn after_start(current: u64) -> u64 {
    current.wrapping_add(1)
}

/// The generation after the backend that claimed `my_gen` has stopped: unless a
/// newer loop has taken over, nobody's.
pub open spec fn after_stop(current: u64, my_gen: u64) -> u64 {
    if current == my_gen {
        my_gen.wrapping_add(1)
    } else {
        current
    }
}

/// One client's side of the audio channel.
pub struct MacRdpsndBackend {
    /// The generation that this backend's loop claimed; 0 before it started.
    pub my_gen: u64,
    pub formats: Vec<AudioFormat>,
}

impl MacRdpsndBackend {
    /// Offers the one format, and has not started.
    pub fn new() -> (r: Self)
        ensures
            r.my_gen == 0,
            r.formats@.len() == 1,
            stereo_pcm(r.formats@[0]),
    {
        let mut formats: Vec<AudioFormat> = Vec::new();
        formats.push(pcm_format());
        MacRdpsndBackend { my_gen: 0, formats }
    }

    /// The client answered with the formats it accepts. Where one is offered too,
    /// a new capture loop starts under a generation of its own, which retires the
    /// loop before it.
    pub fn start(&mut self, generation: &mut Generation, client: &[AudioFormat]) -> (r: Option<
        u16,
    >)
        requires
            old(self).formats@.len() <= 0x1_0000,
        ensures
            final(self).formats == old(self).formats,
            match r {
                Some(i) => {
                    &&& first_accepted(old(self).formats@, client@, i as int)
                    &&& final(generation).current == after_start(old(generation).current)
                    &&& final(self).my_gen == final(generation).current
                },
                None => {
                    &&& forall|k: int|
                        0 <= k < old(self).formats@.len() ==> !accepted(
                            #[trigger] old(self).formats@[k],
                            client@,
                        )
                    &&& final(generation).current == old(generation).current
                    &&& final(self).my_gen == old(self).my_gen
                },
            },
    {
        match negotiate(self.formats.as_slice(), client) {
            None => None,
            Some(i) => {
                generation.current = generation.current.wrapping_add(1);
                self.my_gen = generation.current;
                Some(i as u16)
            },
        }
    }

    /// The client's channel closed: retires this backend's loop, unless a newer
    /// one has taken over.
    pub fn stop(&self, generation: &mut Generation)
        ensures
            final(generation).current == after_stop(old(generation).current, self.my_gen),
    {
        if generation.current == self.my_gen {
            generation.current = self.my_gen.wrapping_add(1);
        }
    }
}

/// One capture loop runs at most: a new claim retires the loop before it, and no
/// two claims are active at once.
pub proof fn law_one_capture_loop(current: u64, older: u64, a: u64, b: u64)
    ensures
        is_active(current, older) ==> !is_active(after_start(current), older),
        is_active(current, a) && is_active(current, b) ==> a == b,
{
}

/// Stopping ends the own loop and never a newer one.
pub proof fn law_stop_retires_the_own_loop(current: u64, my_gen: u64, newer: u64)
    ensures
        !is_active(after_stop(current, my_gen), my_gen),
        newer != my_gen && is_active(current, newer) ==> is_active(
            after_stop(current, my_gen),
            newer,
        ),
{
}

/// One buffer of captured samples: `channels` of them interleaved.
pub struct AudioBuffer {
    pub channels: u32,
    pub data: Vec<u8>,
}

/// The samples in a run of bytes. Bytes that do not fill a sample are left out.
pub open spec fn samples(bytes: Seq<u8>) -> Seq<u32> {
    Seq::new(bytes.len() / 4, |i: int| wire::le32_at(bytes, 4 * i))
}

/// One channel of interleaved frames.
pub open spec fn channel_samples(bytes: Seq<u8>, channels: int, channel: int) -> Seq<u32> {
    Seq::new(
        (bytes.len() / (4 * channels) as nat) as nat,
        |f: int| wire::le32_at(bytes, f * (4 * channels) + 4 * channel),
    )
}

pub open spec fn shorter(a: int, b: int) -> int {
    if a < b {
        a
    } else {
        b
    }
}

/// Captured buffers as two channels: one buffer each where there are several, a
/// single one taken apart, a single channel taken twice.
pub open spec fn stereo(list: Seq<AudioBuffer>) -> (Seq<u32>, Seq<u32>) {
    if list.len() == 0 {
        (Seq::empty(), Seq::empty())
    } else if list.len() >= 2 {
        let left = samples(list[0].data@);
        let right = samples(list[1].data@);
        let n = shorter(left.len() as int, right.len() as int);
        (left.subrange(0, n), right.subrange(0, n))
    } else if list[0].channels <= 1 {
        (samples(list[0].data@), samples(list[0].data@))
    } else {
        (
            channel_samples(list[0].data@, list[0].channels as int, 0),
            channel_samples(list[0].data@, list[0].channels as int, 1),
        )
    }
}

/// The samples in a run of bytes.
pub fn bytes_to_samples(bytes: &[u8]) -> (out: Vec<u32>)
    ensures
        out@ == samples(bytes@),
{
    let len: usize = bytes.len();
    let n: usize = len / 4;
    let mut out: Vec<u32> = Vec::new();
    let mut i: usize = 0;
    while i < n
        invariant
            i <= n,
            len == bytes@.len(),
            n == len / 4,
            out@ == samples(bytes@).subrange(0, i as int),
        decreases n - i,
    {
        out.push(wire::read_le32(bytes, 4 * i));
        i = i + 1;
        assert(out@ =~= samples(bytes@).subrange(0, i as int));
    }
    assert(samples(bytes@).subrange(0, i as int) =~= samples(bytes@));
    out
}

/// The first two channels of interleaved frames; of no channels there are none.
pub fn deinterleave_first_two_channels(bytes: &[u8], channels: u32) -> (r: (Vec<u32>, Vec<u32>))
    requires
        channels == 1 ==> bytes@.len() < 4,
    ensures
        channels == 0 ==> r.0@.len() == 0 && r.1@.len() == 0,
        channels > 0 ==> r.0@ == channel_samples(bytes@, channels as int, 0),
        channels > 0 ==> r.1@ == channel_samples(bytes@, channels as int, 1),
{
    if channels == 0 {
        return (Vec::new(), Vec::new());
    }
    let len: usize = bytes.len();
    let frame: u64 = 4 * channels as u64;
    let frames: u64 = len as u64 / frame;
    assert(channels == 1 ==> frames == 0) by (nonlinear_arith)
        requires
            frames == len as u64 / frame,
            frame == 4 * channels,
            channels == 1 ==> len < 4,
    ;
    let ghost l = channel_samples(bytes@, channels as int, 0);
    let ghost r = channel_samples(bytes@, channels as int, 1);
    let mut left: Vec<u32> = Vec::new();
    let mut right: Vec<u32> = Vec::new();
    let mut f: u64 = 0;
    while f < frames
        invariant
            f <= frames,
            channels >= 1,
            channels == 1 ==> frames == 0,
            len == bytes@.len(),
            frame == 4 * channels,
            frames == len as u64 / frame,
            l == channel_samples(bytes@, channels as int, 0),
            r == channel_samples(bytes@, channels as int, 1),
            l.len() == frames,
            r.len() == frames,
            left@ == l.subrange(0, f as int),
            right@ == r.subrange(0, f as int),
        decreases frames - f,
    {
        assert(0 <= f * frame && f * frame + frame <= len) by (nonlinear_arith)
            requires
                f < frames,
                frames == len as u64 / frame,
                frame > 0,
        ;
        let base: usize = (f * frame) as usize;
        left.push(wire::read_le32(bytes, base));
        right.push(wire::read_le32(bytes, base + 4));
        f = f + 1;
        assert(left@ =~= l.subrange(0, f as int));
        assert(right@ =~= r.subrange(0, f as int));
    }
    assert(l.subrange(0, f as int) =~= l);
    assert(r.subrange(0, f as int) =~= r);
    (left, right)
}

/// Captured buffers as two channels of samples.
pub fn float_list_to_planar_stereo(list: &[AudioBuffer]) -> (r: (Vec<u32>, Vec<u32>))
    ensures
        (r.0@, r.1@) == stereo(list@),
{
    if list.len() == 0 {
        let r = (Vec::new(), Vec::new());
        assert(r.0@ =~= Seq::<u32>::empty() && r.1@ =~= Seq::<u32>::empty());
        return r;
    }
    if list.len() >= 2 {
        let mut left = bytes_to_samples(list[0].data.as_slice());
        let mut right = bytes_to_samples(list[1].data.as_slice());
        let n: usize = if left.len() < right.len() {
            left.len()
        } else {
            right.len()
        };
        left.truncate(n);
        right.truncate(n);
        return (left, right);
    }
    if list[0].channels <= 1 {
        (bytes_to_samples(list[0].data.as_slice()), bytes_to_samples(list[0].data.as_slice()))
    } else {
        deinterleave_first_two_channels(list[0].data.as_slice(), list[0].channels)
    }
}

/// The two channels always have the same length, whatever was captured.
pub proof fn law_channels_stay_level(list: Seq<AudioBuffer>)
    ensures
        stereo(list).0.len() == stereo(list).1.len(),
{
}

/// Samples that wait for a chunk to fill.
pub struct ResampleQueue {
    pub left: Vec<u32>,
    pub right: Vec<u32>,
}

/// Whether a chunk was taken off the front of two channels that wait, or none was
/// because one of them is too short.
pub open spec fn chunk_taken(
    chunk: Option<(Vec<u32>, Vec<u32>)>,
    left: Seq<u32>,
    right: Seq<u32>,
    left_after: Seq<u32>,
    right_after: Seq<u32>,
) -> bool {
    match chunk {
        Some((l, r)) => {
            &&& l@.len() == RESAMPLE_CHUNK && r@.len() == RESAMPLE_CHUNK
            &&& l@ + left_after == left
            &&& r@ + right_after == right
        },
        None => {
            &&& left.len() < RESAMPLE_CHUNK || right.len() < RESAMPLE_CHUNK
            &&& left_after == left
            &&& right_after == right
        },
    }
}

impl ResampleQueue {
    /// Nothing waits.
    pub fn new() -> (r: Self)
        ensures
            r.left@.len() == 0,
            r.right@.len() == 0,
    {
        ResampleQueue { left: Vec::new(), right: Vec::new() }
    }

    /// Takes new samples in, behind those that wait.
    pub fn push(&mut self, left: &[u32], right: &[u32])
        ensures
            final(self).left@ == old(self).left@ + left@,
            final(self).right@ == old(self).right@ + right@,
    {
        self.left.extend_from_slice(left);
        self.right.extend_from_slice(right);
        assert(self.left@ =~= old(self).left@ + left@);
        assert(self.right@ =~= old(self).right@ + right@);
    }

    /// The next chunk of each channel, once both have one.
    pub fn take_chunk(&mut self) -> (r: Option<(Vec<u32>, Vec<u32>)>)
        ensures
            chunk_taken(
                r,
                old(self).left@,
                old(self).right@,
                final(self).left@,
                final(self).right@,
            ),
    {
        if self.left.len() < RESAMPLE_CHUNK || self.right.len() < RESAMPLE_CHUNK {
            return None;
        }
        let l = drain_front(&mut self.left, RESAMPLE_CHUNK);
        let r = drain_front(&mut self.right, RESAMPLE_CHUNK);
        Some((l, r))
    }
}

fn drain_front(v: &mut Vec<u32>, n: usize) -> (front: Vec<u32>)
    requires
        n <= old(v)@.len(),
    ensures
        front@ == old(v)@.subrange(0, n as int),
        front@ + final(v)@ == old(v)@,
{
    let mut rest = v.split_off(n);
    core::mem::swap(v, &mut rest);
    assert(rest@ + v@ =~= old(v)@);
    rest
}

/// The chunks that are taken, in order, one behind the other.
pub open spec fn joined(chunks: Seq<Seq<u32>>) -> Seq<u32>
    decreases chunks.len(),
{
    if chunks.len() == 0 {
        Seq::empty()
    } else {
        joined(chunks.drop_last()) + chunks.last()
    }
}

/// A queue's history: `queue` holds what is left of `fed` after `chunks` were
/// taken.
pub open spec fn accounts_for(fed: Seq<u32>, chunks: Seq<Seq<u32>>, queue: Seq<u32>) -> bool {
    joined(chunks) + queue == fed
}

/// No sample is lost, doubled or moved on its way to the resampler: feeding and
/// taking chunks, in any order, keeps the chunks and the rest equal to what was
/// fed.
pub proof fn law_audio_is_conserved(
    fed: Seq<u32>,
    chunks: Seq<Seq<u32>>,
    queue: Seq<u32>,
    more: Seq<u32>,
    chunk: Seq<u32>,
    rest: Seq<u32>,
)
    requires
        accounts_for(fed, chunks, queue),
    ensures
        accounts_for(fed + more, chunks, queue + more),
        chunk + rest == queue ==> accounts_for(fed, chunks.push(chunk), rest),
{
    assert(joined(chunks) + (queue + more) =~= fed + more);
    if chunk + rest == queue {
        let after = chunks.push(chunk);
        assert(after.drop_last() =~= chunks);
        assert((joined(chunks) + chunk) + rest =~= joined(chunks) + (chunk + rest));
    }
}

/// The 16-bit pattern of a sample, least significant byte first.
pub open spec fn sample_bytes(v: i16) -> Seq<u8> {
    wire::le16(
        if v < 0 {
            (v + 0x1_0000) as u16
        } else {
            v as u16
        },
    )
}

/// Two channels interleaved, as far as both go.
pub open spec fn interleaved(left: Seq<i16>, right: Seq<i16>, frames: int) -> Seq<u8>
    decreases frames,
{
    if frames <= 0 {
        Seq::empty()
    } else {
        interleaved(left, right, frames - 1) + sample_bytes(left[frames - 1]) + sample_bytes(
            right[frames - 1],
        )
    }
}

fn push_sample(out: &mut Vec<u8>, v: i16)
    ensures
        final(out)@ == old(out)@ + sample_bytes(v),
{
    let bits: u16 = if v < 0 {
        (v as i32 + 0x1_0000) as u16
    } else {
        v as u16
    };
    wire::push_le16(out, bits);
}

/// The payload that resampled channels make: the first two, interleaved as far as
/// both go. With fewer than two channels there is none.
pub open spec fn payload_of(planar: Seq<Vec<i16>>) -> Seq<u8> {
    if planar.len() < 2 {
        Seq::empty()
    } else {
        interleaved(
            planar[0]@,
            planar[1]@,
            shorter(planar[0]@.len() as int, planar[1]@.len() as int),
        )
    }
}

/// A wave's payload: the first two channels as interleaved 16-bit stereo. With
/// fewer than two channels there is none.
pub fn planar_to_interleaved_i16(planar: &[Vec<i16>]) -> (out: Vec<u8>)
    ensures
        out@ == payload_of(planar@),
{
    let mut out: Vec<u8> = Vec::new();
    if planar.len() < 2 {
        assert(out@ =~= Seq::<u8>::empty());
        return out;
    }
    let frames: usize = if planar[0].len() < planar[1].len() {
        planar[0].len()
    } else {
        planar[1].len()
    };
    let mut i: usize = 0;
    assert(out@ =~= interleaved(planar@[0]@, planar@[1]@, 0));
    while i < frames
        invariant
            planar@.len() >= 2,
            i <= frames,
            frames <= planar@[0]@.len(),
            frames <= planar@[1]@.len(),
            out@ == interleaved(planar@[0]@, planar@[1]@, i as int),
        decreases frames - i,
    {
        push_sample(&mut out, planar[0][i]);
        push_sample(&mut out, planar[1][i]);
        i = i + 1;
    }
    out
}

/// Every frame of a wave takes four bytes.
pub proof fn law_wave_length(left: Seq<i16>, right: Seq<i16>, frames: int)
    requires
        0 <= frames,
    ensures
        interleaved(left, right, frames).len() == 4 * frames,
    decreases frames,
{
    if frames > 0 {
        law_wave_length(left, right, frames - 1);
    }
}

/// Where a wave goes.
#[derive(Debug, Clone, Copy, PartialEq, Eq, Structural)]
pub enum WaveRoute {
    /// The channel for audio alone.
    Audio,
    /// The channel for every event.
    Event,
    /// Neither is there yet: the wave is dropped.
    Drop,
}

/// What became of a wave that was sent.
#[derive(Debug, Clone, Copy, PartialEq, Eq, Structural)]
pub enum SendOutcome {
    Sent,
    /// There was no room, and the sender does not wait.
    Full,
    /// The receiver is gone.
    Closed,
}

/// Where waves go, given which channels are there.
pub open spec fn route_of_waves(audio_ready: bool, event_ready: bool) -> WaveRoute {
    if audio_ready {
        WaveRoute::Audio
    } else if event_ready {
        WaveRoute::Event
    } else {
        WaveRoute::Drop
    }
}

/// The audio channel is preferred, so that other traffic does not hold waves up.
pub fn wave_route(audio_ready: bool, event_ready: bool) -> (r: WaveRoute)
    ensures
        r == route_of_waves(audio_ready, event_ready),
{
    if audio_ready {
        WaveRoute::Audio
    } else if event_ready {
        WaveRoute::Event
    } else {
        WaveRoute::Drop
    }
}

/// Whether the capture loop outlasts what became of a wave.
pub open spec fn outlasts(outcome: SendOutcome) -> bool {
    outcome != SendOutcome::Closed
}

/// Whether the capture loop goes on after a wave: a full channel costs the wave,
/// a closed one ends the loop.
pub fn goes_on(outcome: SendOutcome) -> (r: bool)
    ensures
        r == outlasts(outcome),
{
    match outcome {
        SendOutcome::Sent => true,
        SendOutcome::Full => true,
        SendOutcome::Closed => false,
    }
}

/// What the capture loop does next.
pub enum LoopStep {
    /// A newer loop has taken over, or the stream or the channel ended.
    Exit,
    /// Wait for the next captured buffers.
    Wait,
    /// Resample these chunks.
    Resample(Vec<u32>, Vec<u32>),
    /// Send this payload.
    Emit(Vec<u8>),
}

/// What happens to the capture loop.
pub enum LoopEvent {
    /// The top of the loop; the shared generation now.
    Tick(u64),
    /// The stream delivered buffers, possibly none.
    Captured(Option<Vec<AudioBuffer>>),
    /// The stream ended.
    StreamEnded,
    /// The resampler's output, rounded.
    Resampled(Vec<Vec<i16>>),
    /// A payload was sent, or dropped for want of a channel.
    Delivered(SendOutcome),
}

/// The capture loop between two events.
pub struct CaptureLoop {
    pub my_gen: u64,
    pub queue: ResampleQueue,
}

impl CaptureLoop {
    /// Runs under a generation that was just claimed.
    pub fn new(my_gen: u64) -> (r: Self)
        ensures
            r.my_gen == my_gen,
            r.queue.left@.len() == 0,
            r.queue.right@.len() == 0,
    {
        CaptureLoop { my_gen, queue: ResampleQueue::new() }
    }

    fn next_chunk(&mut self) -> (r: LoopStep)
        ensures
            final(self).my_gen == old(self).my_gen,
            chunk_step(
                r,
                old(self).queue.left@,
                old(self).queue.right@,
                final(self).queue.left@,
                final(self).queue.right@,
            ),
    {
        match self.queue.take_chunk() {
            Some((l, r)) => LoopStep::Resample(l, r),
            None => LoopStep::Wait,
        }
    }

    /// One event in the life of the loop.
    pub fn step(&mut self, event: LoopEvent) -> (r: LoopStep)
        ensures
            final(self).my_gen == old(self).my_gen,
            follows_event(r, event, *old(self), *final(self)),
    {
        match event {
            LoopEvent::Tick(current) => if current != self.my_gen {
                LoopStep::Exit
            } else {
                LoopStep::Wait
            },
            LoopEvent::StreamEnded => LoopStep::Exit,
            LoopEvent::Captured(captured) => match captured {
                None => LoopStep::Wait,
                Some(list) => {
                    let (left, right) = float_list_to_planar_stereo(list.as_slice());
                    if left.len() == 0 {
                        return LoopStep::Wait;
                    }
                    self.queue.push(left.as_slice(), right.as_slice());
                    self.next_chunk()
                },
            },
            LoopEvent::Resampled(planar) => {
                let pcm = planar_to_interleaved_i16(planar.as_slice());
                if pcm.len() == 0 {
                    self.next_chunk()
                } else {
                    LoopStep::Emit(pcm)
                }
            },
            LoopEvent::Delivered(outcome) => if goes_on(outcome) {
                self.next_chunk()
            } else {
                LoopStep::Exit
            },
        }
    }
}

/// Whether a step is what follows an event, and the loop goes from `before` to
/// `after` in it.
pub open spec fn follows_event(
    r: LoopStep,
    event: LoopEvent,
    before: CaptureLoop,
    after: CaptureLoop,
) -> bool {
    let (left, right) = (before.queue.left@, before.queue.right@);
    let (left_after, right_after) = (after.queue.left@, after.queue.right@);
    match event {
        LoopEvent::Tick(current) => {
            &&& after.queue == before.queue
            &&& if is_active(current, before.my_gen) {
                r is Wait
            } else {
                r is Exit
            }
        },
        LoopEvent::StreamEnded => r is Exit && after.queue == before.queue,
        LoopEvent::Captured(None) => r is Wait && after.queue == before.queue,
        LoopEvent::Captured(Some(list)) => if stereo(list@).0.len() == 0 {
            r is Wait && after.queue == before.queue
        } else {
            chunk_step(
                r,
                left + stereo(list@).0,
                right + stereo(list@).1,
                left_after,
                right_after,
            )
        },
        LoopEvent::Resampled(planar) => if payload_of(planar@).len() == 0 {
            chunk_step(r, left, right, left_after, right_after)
        } else {
            &&& after.queue == before.queue
            &&& r matches LoopStep::Emit(pcm)
            &&& pcm@ == payload_of(planar@)
        },
        LoopEvent::Delivered(outcome) => if !outlasts(outcome) {
            r is Exit && after.queue == before.queue
        } else {
            chunk_step(r, left, right, left_after, right_after)
        },
    }
}

/// Whether a step takes the next chunk out of waiting samples, or waits where
/// there is none.
pub open spec fn chunk_step(
    r: LoopStep,
    left: Seq<u32>,
    right: Seq<u32>,
    left_after: Seq<u32>,
    right_after: Seq<u32>,
) -> bool {
    if left.len() >= RESAMPLE_CHUNK && right.len() >= RESAMPLE_CHUNK {
        &&& r matches LoopStep::Resample(l, rr)
        &&& l@.len() == RESAMPLE_CHUNK && rr@.len() == RESAMPLE_CHUNK
        &&& l@ + left_after == left
        &&& rr@ + right_after == right
    } else {
        r is Wait && left_after == left && right_after == right
    }
}

/// A run of bytes holds one sample in every four bytes, least significant first: laying
/// samples out and taking the run apart gives them back. A part of a sample at the end is
/// left out.
pub proof fn law_samples_are_read_in_order(bytes: Seq<u8>, s: Seq<u32>)
    requires
        4 * s.len() <= bytes.len() < 4 * s.len() + 4,
        forall|i: int|
            0 <= i < s.len() ==> bytes.subrange(4 * i, 4 * i + 4) == wire::le32(#[trigger] s[i]),
    ensures
        samples(bytes) == s,
{
    assert forall|i: int| 0 <= i < s.len() implies samples(bytes)[i] == s[i] by {
        wire::law_read_undoes_write(bytes, 4 * i, 0, s[i]);
    }
    assert(samples(bytes) =~= s);
}

/// Taking a captured buffer apart undoes interleaving: of two channels whose samples
/// stand in turn, left first, the first result is the left channel and the second the
/// right one.
pub proof fn law_deinterleaving_undoes_interleaving(buffer: AudioBuffer, l: Seq<u32>, r: Seq<u32>)
    requires
        buffer.channels == 2,
        l.len() == r.len(),
        buffer.data@.len() == 8 * l.len(),
        forall|f: int|
            0 <= f < l.len() ==> buffer.data@.subrange(8 * f, 8 * f + 4) == wire::le32(
                #[trigger] l[f],
            ),
        forall|f: int|
            0 <= f < r.len() ==> buffer.data@.subrange(8 * f + 4, 8 * f + 8) == wire::le32(
                #[trigger] r[f],
            ),
    ensures
        stereo(seq![buffer]) == (l, r),
{
    let b = buffer.data@;
    let (x, y) = stereo(seq![buffer]);
    let n = l.len() as int;
    assert(x.len() == b.len() as int / (4 * buffer.channels as int));
    assert(x.len() == n && y.len() == n);
    assert forall|f: int| 0 <= f < n implies x[f] == l[f] && y[f] == r[f] by {
        law_first_two_channels_are_taken(buffer, n, f);
        wire::law_read_undoes_write(b, 8 * f, 0, l[f]);
        wire::law_read_undoes_write(b, 8 * f + 4, 0, r[f]);
    }
    assert(x =~= l);
    assert(y =~= r);
}

/// Of any number of interleaved channels from two on, the first two are taken, one
/// sample of each for every whole frame.
pub proof fn law_first_two_channels_are_taken(buffer: AudioBuffer, frames: int, f: int)
    requires
        buffer.channels >= 2,
        frames * (4 * buffer.channels) <= buffer.data@.len() < (frames + 1) * (4
            * buffer.channels),
        0 <= f < frames,
    ensures
        stereo(seq![buffer]).0.len() == frames,
        stereo(seq![buffer]).1.len() == frames,
        stereo(seq![buffer]).0[f] == wire::le32_at(buffer.data@, 4 * buffer.channels * f),
        stereo(seq![buffer]).1[f] == wire::le32_at(buffer.data@, 4 * buffer.channels * f + 4),
{
    let (n, size) = (buffer.data@.len() as int, 4 * buffer.channels as int);
    assert((frames + 1) * size == frames * size + size) by (nonlinear_arith);
    assert(n == size * frames + (n - frames * size)) by (nonlinear_arith);
    vstd::arithmetic::div_mod::lemma_fundamental_div_mod_converse(
        n,
        size,
        frames,
        n - frames * size,
    );
    assert(f * size == size * f) by (nonlinear_arith);
}

/// One channel alone plays on both sides, and where each channel has a buffer of its own
/// the first two are left and right, as far as both go.
pub proof fn law_channels_of_their_own(
    one: AudioBuffer,
    list: Seq<AudioBuffer>,
    n: int,
    i: int,
)
    requires
        one.channels <= 1,
        list.len() >= 2,
        samples(list[0].data@).len() == n || samples(list[1].data@).len() == n,
        samples(list[0].data@).len() >= n,
        samples(list[1].data@).len() >= n,
        0 <= i < n,
    ensures
        stereo(seq![one]) == (samples(one.data@), samples(one.data@)),
        stereo(list).0.len() == n && stereo(list).1.len() == n,
        stereo(list).0[i] == samples(list[0].data@)[i],
        stereo(list).1[i] == samples(list[1].data@)[i],
        stereo(Seq::empty()).0.len() == 0 && stereo(Seq::empty()).1.len() == 0,
{
}

/// A wave's payload carries the frames of both channels in order: each takes four bytes,
/// the left sample first, both as two's complement with the low byte first. It is as
/// long as the shorter channel.
pub proof fn law_waves_carry_both_channels(planar: Seq<Vec<i16>>, n: int, f: int)
    requires
        planar.len() >= 2,
        planar[0]@.len() == n || planar[1]@.len() == n,
        planar[0]@.len() >= n,
        planar[1]@.len() >= n,
        0 <= f < n,
    ensures
        payload_of(planar).len() == 4 * n,
        wire::le16_at(payload_of(planar), 4 * f) == planar[0]@[f] || wire::le16_at(
            payload_of(planar),
            4 * f,
        ) == planar[0]@[f] + 0x1_0000,
        wire::le16_at(payload_of(planar), 4 * f + 2) == planar[1]@[f] || wire::le16_at(
            payload_of(planar),
            4 * f + 2,
        ) == planar[1]@[f] + 0x1_0000,
{
    lemma_interleaved_frame(planar[0]@, planar[1]@, n, f);
}

proof fn lemma_interleaved_frame(left: Seq<i16>, right: Seq<i16>, n: int, f: int)
    requires
        0 <= f < n,
    ensures
        interleaved(left, right, n).len() == 4 * n,
        interleaved(left, right, n).subrange(4 * f, 4 * f + 2) == sample_bytes(left[f]),
        interleaved(left, right, n).subrange(4 * f + 2, 4 * f + 4) == sample_bytes(right[f]),
        ({
            let (w, l, r) = (interleaved(left, right, n), left[f], right[f]);
            &&& wire::le16_at(w, 4 * f) == l || wire::le16_at(w, 4 * f) == l + 0x1_0000
            &&& wire::le16_at(w, 4 * f + 2) == r || wire::le16_at(w, 4 * f + 2) == r + 0x1_0000
        }),
    decreases n,
{
    law_wave_length(left, right, n);
    law_wave_length(left, right, n - 1);
    let w = interleaved(left, right, n);
    if f < n - 1 {
        lemma_interleaved_frame(left, right, n - 1, f);
        let before = interleaved(left, right, n - 1);
        assert(w.subrange(4 * f, 4 * f + 2) =~= before.subrange(4 * f, 4 * f + 2));
        assert(w.subrange(4 * f + 2, 4 * f + 4) =~= before.subrange(4 * f + 2, 4 * f + 4));
        assert(w[4 * f] == before[4 * f] && w[4 * f + 1] == before[4 * f + 1]);
        assert(w[4 * f + 2] == before[4 * f + 2] && w[4 * f + 3] == before[4 * f + 3]);
    } else {
        assert(w.subrange(4 * f, 4 * f + 2) =~= sample_bytes(left[f]));
        assert(w.subrange(4 * f + 2, 4 * f + 4) =~= sample_bytes(right[f]));
        assert(w[4 * f] == sample_bytes(left[f])[0] && w[4 * f + 1] == sample_bytes(left[f])[1]);
        assert(w[4 * f + 2] == sample_bytes(right[f])[0] && w[4 * f + 3] == sample_bytes(
            right[f],
        )[1]);
    }
}

/// Samples leave the queue in chunks of 1024, as soon as both channels have that many
/// and not before, and nothing that waits is lost, doubled or moved.
pub proof fn law_chunks_are_taken_from_the_front(
    r: LoopStep,
    left: Seq<u32>,
    right: Seq<u32>,
    left_after: Seq<u32>,
    right_after: Seq<u32>,
)
    requires
        chunk_step(r, left, right, left_after, right_after),
    ensures
        left.len() >= 1024 && right.len() >= 1024 ==> (r matches LoopStep::Resample(l, q) && l@
            == left.subrange(0, 1024) && q@ == right.subrange(0, 1024) && left_after
            == left.subrange(1024, left.len() as int) && right_after == right.subrange(
            1024,
            right.len() as int,
        )),
        left.len() < 1024 || right.len() < 1024 ==> r is Wait && left_after == left && right_after
            == right,
{
    if left.len() >= 1024 && right.len() >= 1024 {
        if let LoopStep::Resample(l, q) = r {
            assert(l@ =~= left.subrange(0, 1024));
            assert(q@ =~= right.subrange(0, 1024));
            assert(left_after =~= left.subrange(1024, left.len() as int));
            assert(right_after =~= right.subrange(1024, right.len() as int));
        }
    }
}

/// A client that lists the very format that is offered is served with it, and one that
/// lists only other rates, depths, channel counts or codecs is not.
pub proof fn law_which_formats_agree(f: AudioFormat, client: Seq<AudioFormat>, i: int)
    ensures
        0 <= i < client.len() && client[i].format == f.format && client[i].n_channels
            == f.n_channels && client[i].n_samples_per_sec == f.n_samples_per_sec
            && client[i].bits_per_sample == f.bits_per_sample ==> accepted(f, client),
        (forall|j: int|
            0 <= j < client.len() ==> (#[trigger] client[j]).format != f.format
                || client[j].n_channels != f.n_channels || client[j].n_samples_per_sec
                != f.n_samples_per_sec || client[j].bits_per_sample != f.bits_per_sample)
            ==> !accepted(f, client),
{
    if 0 <= i < client.len() && same_format(client[i], f) {
        assert(accepted(f, client));
    }
}

/// The one format that is offered is uncompressed stereo at 44.1 kHz, and its numbers
/// agree: a block is a sample for each channel, and a second as many blocks as the
/// rate says.
pub proof fn law_what_is_offered(f: AudioFormat)
    requires
        stereo_pcm(f),
    ensures
        f.format == WAVE_FORMAT_PCM,
        f.n_channels == 2 && f.bits_per_sample == 16 && f.n_samples_per_sec == 44100,
        f.n_block_align == f.n_channels * f.bits_per_sample / 8,
        f.n_avg_bytes_per_sec == f.n_samples_per_sec * f.n_block_align,
        f.data is None,
{
}

/// Of several formats that a client accepts, the first in the server's own order is
/// used, and its place there is what waves are tagged with.
pub proof fn law_which_format_is_used(
    server: Seq<AudioFormat>,
    client: Seq<AudioFormat>,
    i: int,
    k: int,
)
    requires
        first_accepted(server, client, i),
    ensures
        0 <= i < server.len(),
        accepted(server[i], client),
        0 <= k < server.len() && accepted(server[k], client) ==> i <= k,
{
}

/// A loop that has just claimed its generation runs, and its own backend can stop it.
pub proof fn law_a_new_loop_runs(current: u64)
    ensures
        is_active(after_start(current), after_start(current)),
        after_start(current) != current,
        !is_active(after_stop(after_start(current), after_start(current)), after_start(current)),
{
}

/// One channel of interleaved frames has a sample for each whole frame, each read from
/// its own place in its own frame.
pub proof fn law_one_channel_of_many(
    bytes: Seq<u8>,
    channels: int,
    channel: int,
    frames: int,
    f: int,
)
    requires
        0 <= channel < channels,
        frames * (4 * channels) <= bytes.len() < (frames + 1) * (4 * channels),
        0 <= f < frames,
    ensures
        channel_samples(bytes, channels, channel).len() == frames,
        channel_samples(bytes, channels, channel)[f] == wire::le32_at(
            bytes,
            4 * (f * channels + channel),
        ),
{
    let (n, size) = (bytes.len() as int, 4 * channels);
    assert((frames + 1) * size == frames * size + size) by (nonlinear_arith);
    assert(n == size * frames + (n - frames * size)) by (nonlinear_arith);
    vstd::arithmetic::div_mod::lemma_fundamental_div_mod_converse(
        n,
        size,
        frames,
        n - frames * size,
    );
    assert(f * (4 * channels) + 4 * channel == 4 * (f * channels + channel)) by (nonlinear_arith);
}

/// A chunk is the first 1024 samples of each channel, and what follows them stays; one
/// is taken exactly where both channels have as many.
pub proof fn law_what_a_chunk_is(
    chunk: Option<(Vec<u32>, Vec<u32>)>,
    left: Seq<u32>,
    right: Seq<u32>,
    left_after: Seq<u32>,
    right_after: Seq<u32>,
)
    requires
        chunk_taken(chunk, left, right, left_after, right_after),
    ensures
        chunk is Some <==> left.len() >= 1024 && right.len() >= 1024,
        chunk matches Some((l, r)) ==> {
            &&& l@ == left.subrange(0, 1024) && r@ == right.subrange(0, 1024)
            &&& left_after == left.subrange(1024, left.len() as int)
            &&& right_after == right.subrange(1024, right.len() as int)
        },
        chunk is None ==> left_after == left && right_after == right,
{
    if let Some((l, r)) = chunk {
        assert(l@ =~= left.subrange(0, 1024));
        assert(r@ =~= right.subrange(0, 1024));
        assert(left_after =~= left.subrange(1024, left.len() as int));
        assert(right_after =~= right.subrange(1024, right.len() as int));
    }
}

/// Waves go over the channel for audio where it is there, else over the one for
/// events. Only a channel that is closed ends the loop; a full one does not.
pub proof fn law_where_waves_go(event_ready: bool)
    ensures
        route_of_waves(true, event_ready) == WaveRoute::Audio,
        route_of_waves(false, true) == WaveRoute::Event,
        route_of_waves(false, false) == WaveRoute::Drop,
        outlasts(SendOutcome::Sent),
        outlasts(SendOutcome::Full),
        !outlasts(SendOutcome::Closed),
{
}

/// The loop ends where another one has taken over, where the stream has ended and
/// where the channel is closed, and nowhere else.
pub proof fn law_when_the_loop_ends(
    r: LoopStep,
    event: LoopEvent,
    before: CaptureLoop,
    after: CaptureLoop,
)
    requires
        follows_event(r, event, before, after),
    ensures
        r is Exit <==> (match event {
            LoopEvent::Tick(current) => current != before.my_gen,
            LoopEvent::StreamEnded => true,
            LoopEvent::Delivered(outcome) => outcome is Closed,
            _ => false,
        }),
{
}

/// What is captured waits behind what waited before, the channels apart, and what has
/// been resampled is sent as one payload. Nothing that waits is lost on the way.
pub proof fn law_what_the_loop_does_with_samples(
    r: LoopStep,
    list: Vec<AudioBuffer>,
    planar: Vec<Vec<i16>>,
    before: CaptureLoop,
    after: CaptureLoop,
)
    ensures
        follows_event(r, LoopEvent::Captured(Some(list)), before, after) && stereo(list@).0.len()
            > 0 ==> {
            let left = before.queue.left@ + stereo(list@).0;
            let right = before.queue.right@ + stereo(list@).1;
            match r {
                LoopStep::Resample(l, q) => l@ + after.queue.left@ == left && q@
                    + after.queue.right@ == right && l@.len() == 1024 && q@.len() == 1024,
                _ => r is Wait && after.queue.left@ == left && after.queue.right@ == right,
            }
        },
        follows_event(r, LoopEvent::Resampled(planar), before, after) && payload_of(
            planar@,
        ).len() > 0 ==> (r matches LoopStep::Emit(pcm) && pcm@ == payload_of(planar@)
            && after.queue == before.queue),
{
}

} // verus!
