//! H.264 encoding by the system's encoder.
//!
//! [`Encoder`] checks each picture, numbers it and says when it is shown; the
//! program around it hands the picture to the system. What comes back is put
//! together as an [`EncodedFrame`] and waits until it is drained.

use vstd::prelude::*;

use crate::pixels;
use crate::wire;

verus! {

/// The pixel format of the pictures, as a four-character code.
pub const PIXEL_FORMAT_32_BGRA: u32 = 0x4247_5241;

/// The codec, as a four-character code.
pub const VIDEO_CODEC_TYPE_H264: u32 = 0x6176_6331;

/// The mark of a time that means something.
pub const TIME_FLAGS_VALID: u32 = 1;

/// One encoded picture: units with their lengths in front. A key frame brings the
/// parameter sets that it takes to decode it.
pub struct EncodedFrame {
    pub data: Vec<u8>,
    pub is_keyframe: bool,
    pub pts: i64,
    pub parameter_sets: Vec<Vec<u8>>,
}

/// Why something was not encoded.
#[derive(Debug, Clone, Copy, PartialEq, Eq, Structural)]
pub enum EncoderError {
    /// The session could not be made.
    CreateSession { status: i32 },
    /// The value of a property could not be made.
    NoValue { property: Property },
    /// The session turned a property down.
    SetProperty { property: Property, status: i32 },
    /// The session could not be prepared.
    Prepare { status: i32 },
    /// The size of a picture is not a number of bytes.
    StrideOverflow,
    /// A picture is smaller than its rows.
    BufferTooSmall { have: usize, need: usize, stride: usize, height: u16 },
    /// There is no buffer for a picture.
    CreateBuffer { status: i32 },
    /// The session turned a picture down.
    EncodeFrame { status: i32 },
    /// Pending pictures could not be completed.
    CompleteFrames { status: i32 },
    /// A sample has no data.
    NoData,
    /// The data of a sample could not be copied.
    CopyData { status: i32 },
}

/// A property of the session.
#[derive(Debug, Clone, Copy, PartialEq, Eq, Structural)]
pub enum Property {
    RealTime(bool),
    AllowFrameReordering(bool),
    /// Baseline profile, whatever level it takes.
    BaselineAutoLevel,
    AverageBitRate(i32),
    MaxKeyFrameInterval(i32),
}

/// The properties of a session, in the order they are set: in real time, every
/// picture decodable as it comes, and a key frame every two seconds at the latest.
pub open spec fn properties(fps: u32, bitrate_bps: u32) -> Seq<Property> {
    seq![
        Property::RealTime(true),
        Property::AllowFrameReordering(false),
        Property::BaselineAutoLevel,
        Property::AverageBitRate(wire::i32_of_bits(bitrate_bps)),
        Property::MaxKeyFrameInterval(wire::i32_of_bits((fps * 2) as u32)),
    ]
}

/// What the making of a session does next.
#[derive(Debug, Clone, Copy, PartialEq, Eq, Structural)]
pub enum SetupStep {
    Apply(Property),
    Prepare,
    Ready,
}

/// A session in the making.
pub struct SessionSetup {
    pub fps: u32,
    pub bitrate_bps: u32,
    /// How many properties are set.
    pub done: usize,
}

/// What is to be done when `done` properties are set.
pub open spec fn setup_step(fps: u32, bitrate_bps: u32, done: int) -> SetupStep {
    if 0 <= done < 5 {
        SetupStep::Apply(properties(fps, bitrate_bps)[done])
    } else {
        SetupStep::Prepare
    }
}

/// What follows the attempt to make a session.
pub open spec fn after_created(s: SessionSetup, status: i32, session_given: bool) -> Result<
    SetupStep,
    EncoderError,
> {
    if status == 0 && session_given {
        Ok(setup_step(s.fps, s.bitrate_bps, s.done as int))
    } else {
        Err(EncoderError::CreateSession { status })
    }
}

/// The session after the attempt to set its next property, and what follows.
pub open spec fn after_property(s: SessionSetup, value_made: bool, status: i32) -> (
    SessionSetup,
    Result<SetupStep, EncoderError>,
) {
    let property = properties(s.fps, s.bitrate_bps)[s.done as int];
    if !value_made {
        (s, Err(EncoderError::NoValue { property }))
    } else if status != 0 {
        (s, Err(EncoderError::SetProperty { property, status }))
    } else {
        (
            SessionSetup { done: (s.done + 1) as usize, ..s },
            Ok(setup_step(s.fps, s.bitrate_bps, s.done + 1)),
        )
    }
}

/// What follows the attempt to prepare a session.
pub open spec fn after_prepared(status: i32) -> Result<SetupStep, EncoderError> {
    if status == 0 {
        Ok(SetupStep::Ready)
    } else {
        Err(EncoderError::Prepare { status })
    }
}

impl SessionSetup {
    /// A session that is yet to be made.
    pub fn new(fps: u32, bitrate_bps: u32) -> (r: Self)
        ensures
            r == (SessionSetup { fps, bitrate_bps, done: 0 }),
    {
        SessionSetup { fps, bitrate_bps, done: 0 }
    }

    fn step(&self) -> (r: SetupStep)
        requires
            self.fps * 2 <= u32::MAX,
        ensures
            r == setup_step(self.fps, self.bitrate_bps, self.done as int),
    {
        if self.done == 0 {
            SetupStep::Apply(Property::RealTime(true))
        } else if self.done == 1 {
            SetupStep::Apply(Property::AllowFrameReordering(false))
        } else if self.done == 2 {
            SetupStep::Apply(Property::BaselineAutoLevel)
        } else if self.done == 3 {
            SetupStep::Apply(Property::AverageBitRate(wire::i32_from_bits(self.bitrate_bps)))
        } else if self.done == 4 {
            SetupStep::Apply(Property::MaxKeyFrameInterval(wire::i32_from_bits(self.fps * 2)))
        } else {
            SetupStep::Prepare
        }
    }

    /// The session was made, or was not.
    pub fn created(&self, status: i32, session_given: bool) -> (r: Result<SetupStep, EncoderError>)
        requires
            self.fps * 2 <= u32::MAX,
        ensures
            r == after_created(*self, status, session_given),
    {
        if status != 0 || !session_given {
            return Err(EncoderError::CreateSession { status });
        }
        Ok(self.step())
    }

    /// A property was set, or was turned down; before that its value had to be made.
    pub fn property_set(&mut self, value_made: bool, status: i32) -> (r: Result<
        SetupStep,
        EncoderError,
    >)
        requires
            old(self).fps * 2 <= u32::MAX,
            old(self).done < 5,
        ensures
            (*final(self), r) == after_property(*old(self), value_made, status),
    {
        if !value_made || status != 0 {
            return match self.step() {
                SetupStep::Apply(property) => if value_made {
                    Err(EncoderError::SetProperty { property, status })
                } else {
                    Err(EncoderError::NoValue { property })
                },
                _ => Err(EncoderError::Prepare { status }),
            };
        }
        self.done = self.done + 1;
        Ok(self.step())
    }

    /// The session was prepared, or was not.
    pub fn prepared(&self, status: i32) -> (r: Result<SetupStep, EncoderError>)
        ensures
            r == after_prepared(status),
    {
        if status != 0 {
            Err(EncoderError::Prepare { status })
        } else {
            Ok(SetupStep::Ready)
        }
    }
}

/// A point in time, or a length of time, as a fraction.
#[derive(Debug, Clone, Copy, PartialEq, Eq, Structural)]
pub struct MediaTime {
    pub value: i64,
    pub timescale: i32,
    pub flags: u32,
    pub epoch: i64,
}

/// How a picture is handed to the system.
#[derive(Debug, Clone, Copy, PartialEq, Eq, Structural)]
pub struct FrameRequest {
    pub presentation: MediaTime,
    pub duration: MediaTime,
    pub force_keyframe: bool,
}

/// How many ticks a second has.
pub open spec fn timescale(fps: u32) -> i32 {
    if fps <= i32::MAX {
        fps as i32
    } else {
        30
    }
}

/// The request for the picture of number `pts`.
pub open spec fn frame_request(pts: i64, fps: u32, force_keyframe: bool) -> FrameRequest {
    FrameRequest {
        presentation: MediaTime {
            value: pts,
            timescale: timescale(fps),
            flags: TIME_FLAGS_VALID,
            epoch: 0,
        },
        duration: MediaTime {
            value: 1,
            timescale: timescale(fps),
            flags: TIME_FLAGS_VALID,
            epoch: 0,
        },
        force_keyframe,
    }
}

/// What becomes of a picture of `len` bytes that `request` would be made for.
pub open spec fn taken_in(len: int, stride: usize, height: u16, request: FrameRequest) -> Result<
    FrameRequest,
    EncoderError,
> {
    let need = stride * height;
    if need > usize::MAX {
        Err(EncoderError::StrideOverflow)
    } else if len < need {
        Err(
            EncoderError::BufferTooSmall {
                have: len as usize,
                need: need as usize,
                stride,
                height,
            },
        )
    } else {
        Ok(request)
    }
}

/// What a picture that was numbered leads to.
#[derive(Debug, Clone, Copy, PartialEq, Eq)]
pub enum FrameStep {
    /// Make a buffer of this size and pixel format.
    CreateBuffer { width: usize, height: usize, pixel_format: u32 },
    /// Lock the buffer, copy the picture into it, and unlock it.
    Fill,
    /// Hand the buffer to the session.
    Submit(FrameRequest),
    /// Let the buffer go, and report this.
    Release(Result<(), EncoderError>),
    /// There is no buffer to let go: report this.
    Fail(EncoderError),
}

/// What became of the last step.
#[derive(Debug, Clone, Copy, PartialEq, Eq, Structural)]
pub enum FrameEvent {
    Begin,
    BufferCreated { status: i32, given: bool },
    Filled,
    Submitted { status: i32 },
}

/// What follows an event on a picture's way to the session. The session keeps the
/// buffer for as long as it needs it, so it is let go whether or not it was taken.
pub open spec fn frame_step(
    width: u16,
    height: u16,
    request: FrameRequest,
    event: FrameEvent,
) -> FrameStep {
    match event {
        FrameEvent::Begin => FrameStep::CreateBuffer {
            width: width as usize,
            height: height as usize,
            pixel_format: PIXEL_FORMAT_32_BGRA,
        },
        FrameEvent::BufferCreated { status, given } => if status != 0 || !given {
            FrameStep::Fail(EncoderError::CreateBuffer { status })
        } else {
            FrameStep::Fill
        },
        FrameEvent::Filled => FrameStep::Submit(request),
        FrameEvent::Submitted { status } => FrameStep::Release(
            if status != 0 {
                Err(EncoderError::EncodeFrame { status })
            } else {
                Ok(())
            },
        ),
    }
}

/// The encoded pictures after the system answered for one.
pub open spec fn ready_after(
    ready: Seq<EncodedFrame>,
    status: i32,
    frame: Result<EncodedFrame, EncoderError>,
) -> Seq<EncodedFrame> {
    match frame {
        Ok(f) => if status == 0 {
            ready.push(f)
        } else {
            ready
        },
        Err(_) => ready,
    }
}

/// Whether a result is that of completing everything that was handed in.
pub open spec fn flushed(
    r: Result<Vec<EncodedFrame>, EncoderError>,
    complete_status: i32,
    before: Vec<EncodedFrame>,
    after: Vec<EncodedFrame>,
) -> bool {
    if complete_status == 0 {
        &&& r matches Ok(frames)
        &&& frames@ == before@
        &&& after@ == Seq::<EncodedFrame>::empty()
    } else {
        &&& r matches Err(e)
        &&& e == EncoderError::CompleteFrames { status: complete_status }
        &&& after == before
    }
}

/// An encoder for pictures of one size.
pub struct Encoder {
    pub width: u16,
    pub height: u16,
    pub next_pts: i64,
    pub fps: u32,
    /// The encoded pictures that have not been drained.
    pub ready: Vec<EncodedFrame>,
}

impl Encoder {
    /// An encoder whose session is ready.
    pub fn new(width: u16, height: u16, fps: u32) -> (r: Self)
        ensures
            r.width == width,
            r.height == height,
            r.fps == fps,
            r.next_pts == 0,
            r.ready@ == Seq::<EncodedFrame>::empty(),
    {
        Encoder { width, height, next_pts: 0, fps, ready: Vec::new() }
    }

    /// Takes a picture of four bytes a pixel, with rows of `stride` bytes, and gives
    /// it the next number. One that is too small gets none.
    pub fn encode_bgra(&mut self, bgra: &[u8], stride: usize, force_keyframe: bool) -> (r: Result<
        FrameRequest,
        EncoderError,
    >)
        ensures
            final(self).width == old(self).width,
            final(self).height == old(self).height,
            final(self).fps == old(self).fps,
            final(self).ready == old(self).ready,
            r == taken_in(
                bgra@.len() as int,
                stride,
                old(self).height,
                frame_request(old(self).next_pts, old(self).fps, force_keyframe),
            ),
            final(self).next_pts == (if r is Ok {
                old(self).next_pts.wrapping_add(1)
            } else {
                old(self).next_pts
            }),
    {
        let need: usize = match stride.checked_mul(self.height as usize) {
            Some(n) => n,
            None => return Err(EncoderError::StrideOverflow),
        };
        if bgra.len() < need {
            return Err(
                EncoderError::BufferTooSmall {
                    have: bgra.len(),
                    need,
                    stride,
                    height: self.height,
                },
            );
        }
        let pts: i64 = self.next_pts;
        self.next_pts = self.next_pts.wrapping_add(1);
        let timescale: i32 = if self.fps <= 0x7fff_ffff {
            self.fps as i32
        } else {
            30
        };
        Ok(
            FrameRequest {
                presentation: MediaTime {
                    value: pts,
                    timescale,
                    flags: TIME_FLAGS_VALID,
                    epoch: 0,
                },
                duration: MediaTime { value: 1, timescale, flags: TIME_FLAGS_VALID, epoch: 0 },
                force_keyframe,
            },
        )
    }

    /// What follows an event on a picture's way to the session.
    pub fn encode_frame(&self, request: FrameRequest, event: FrameEvent) -> (r: FrameStep)
        ensures
            r == frame_step(self.width, self.height, request, event),
    {
        match event {
            FrameEvent::Begin => FrameStep::CreateBuffer {
                width: self.width as usize,
                height: self.height as usize,
                pixel_format: PIXEL_FORMAT_32_BGRA,
            },
            FrameEvent::BufferCreated { status, given } => if status != 0 || !given {
                FrameStep::Fail(EncoderError::CreateBuffer { status })
            } else {
                FrameStep::Fill
            },
            FrameEvent::Filled => FrameStep::Submit(request),
            FrameEvent::Submitted { status } => if status != 0 {
                FrameStep::Release(Err(EncoderError::EncodeFrame { status }))
            } else {
                FrameStep::Release(Ok(()))
            },
        }
    }

    /// Copies a picture into the system's buffer, whose rows may be padded
    /// differently.
    pub fn fill(&self, dst: &mut Vec<u8>, dst_stride: usize, bgra: &[u8], stride: usize)
        requires
            pixels::rows_fit(
                old(dst)@.len() as int,
                0,
                dst_stride as int,
                4 * self.width,
                self.height as int,
            ),
            pixels::rows_fit(
                bgra@.len() as int,
                0,
                stride as int,
                4 * self.width,
                self.height as int,
            ),
        ensures
            final(dst)@ == pixels::blitted(
                old(dst)@,
                dst_stride as int,
                bgra@,
                stride as int,
                4 * self.width,
                self.height as int,
            ),
    {
        pixels::blit_rows(
            dst,
            dst_stride,
            bgra,
            stride,
            self.width as usize * 4,
            self.height as usize,
        );
    }

    /// The system encoded a picture, or failed to: a failure brings nothing.
    pub fn output_callback(&mut self, status: i32, frame: Result<EncodedFrame, EncoderError>)
        ensures
            final(self).width == old(self).width,
            final(self).height == old(self).height,
            final(self).fps == old(self).fps,
            final(self).next_pts == old(self).next_pts,
            final(self).ready@ == ready_after(old(self).ready@, status, frame),
    {
        if status == 0 {
            match frame {
                Ok(f) => {
                    self.ready.push(f);
                },
                Err(_) => {},
            }
        }
    }

    /// Everything that is encoded so far, in order.
    pub fn drain(&mut self) -> (r: Vec<EncodedFrame>)
        ensures
            r@ == old(self).ready@,
            final(self).ready@ == Seq::<EncodedFrame>::empty(),
            final(self).width == old(self).width,
            final(self).height == old(self).height,
            final(self).fps == old(self).fps,
            final(self).next_pts == old(self).next_pts,
    {
        let mut out: Vec<EncodedFrame> = Vec::new();
        core::mem::swap(&mut out, &mut self.ready);
        out
    }

    /// Everything that was handed in, once the system has completed it.
    pub fn flush(&mut self, complete_status: i32) -> (r: Result<Vec<EncodedFrame>, EncoderError>)
        ensures
            flushed(r, complete_status, old(self).ready, final(self).ready),
            final(self).width == old(self).width,
            final(self).height == old(self).height,
            final(self).fps == old(self).fps,
            final(self).next_pts == old(self).next_pts,
    {
        if complete_status != 0 {
            return Err(EncoderError::CompleteFrames { status: complete_status });
        }
        Ok(self.drain())
    }
}

/// A time that stands for the end of all that is pending.
pub fn complete_all() -> (r: MediaTime)
    ensures
        r == (MediaTime { value: 0, timescale: 0, flags: 0, epoch: 0 }),
{
    MediaTime { value: 0, timescale: 0, flags: 0, epoch: 0 }
}

/// Whether a sample is a key frame. Only a mark that it is none, and that holds,
/// makes it none.
pub open spec fn keyframe(not_sync: Option<bool>) -> bool {
    not_sync != Some(true)
}

/// Whether a sample is a key frame, by its mark.
pub fn is_keyframe(not_sync: Option<bool>) -> (r: bool)
    ensures
        r == keyframe(not_sync),
{
    match not_sync {
        Some(b) => !b,
        None => true,
    }
}

/// The parameter sets of a key frame, as they are asked for one by one.
pub struct ParameterSets {
    pub sets: Vec<Vec<u8>>,
}

/// Whether an answer brings a parameter set.
pub open spec fn brings_set(status: i32, bytes: Option<Seq<u8>>) -> bool {
    status == 0 && (bytes matches Some(b) && b.len() > 0)
}

/// The parameter sets after an answer, and whether to ask for another.
pub open spec fn sets_after(
    sets: Seq<Vec<u8>>,
    status: i32,
    bytes: Option<Vec<u8>>,
    count: usize,
) -> (Seq<Vec<u8>>, bool) {
    match bytes {
        Some(b) => if brings_set(status, Some(b@)) {
            (sets.push(b), !(count > 0 && sets.len() + 1 >= count))
        } else {
            (sets, false)
        },
        None => (sets, false),
    }
}

impl ParameterSets {
    /// None so far.
    pub fn new() -> (r: Self)
        ensures
            r.sets@ == Seq::<Vec<u8>>::empty(),
    {
        ParameterSets { sets: Vec::new() }
    }

    /// The system was asked for the next set and answered: the status, the set if it
    /// gave one, and how many there are, or zero. Says whether to ask for another.
    pub fn take(&mut self, status: i32, bytes: Option<Vec<u8>>, count: usize) -> (more: bool)
        requires
            old(self).sets@.len() < usize::MAX,
        ensures
            (final(self).sets@, more) == sets_after(old(self).sets@, status, bytes, count),
    {
        if status != 0 {
            return false;
        }
        match bytes {
            None => false,
            Some(b) => {
                if b.len() == 0 {
                    return false;
                }
                self.sets.push(b);
                !(count > 0 && self.sets.len() >= count)
            },
        }
    }
}

/// Whether a result is what a sample is put together as.
pub open spec fn put_together(
    r: Result<EncodedFrame, EncoderError>,
    data: Option<Vec<u8>>,
    copy_status: i32,
    not_sync: Option<bool>,
    sets: Seq<Vec<u8>>,
    pts: i64,
) -> bool {
    match data {
        None => r matches Err(e) && e == EncoderError::NoData,
        Some(d) => if copy_status != 0 {
            r matches Err(e) && e == (EncoderError::CopyData { status: copy_status })
        } else {
            &&& r matches Ok(f)
            &&& f.data == d
            &&& f.pts == pts
            &&& f.is_keyframe == keyframe(not_sync)
            &&& f.parameter_sets@ == (if keyframe(not_sync) {
                sets
            } else {
                Seq::<Vec<u8>>::empty()
            })
        },
    }
}

/// Puts an encoded picture together out of a sample: its data, if it has any; the
/// status of copying it; its mark; the parameter sets that were found; its number.
pub fn extract_frame(
    data: Option<Vec<u8>>,
    copy_status: i32,
    not_sync: Option<bool>,
    sets: ParameterSets,
    pts: i64,
) -> (r: Result<EncodedFrame, EncoderError>)
    ensures
        put_together(r, data, copy_status, not_sync, sets.sets@, pts),
{
    match data {
        None => Err(EncoderError::NoData),
        Some(d) => {
            if copy_status != 0 {
                return Err(EncoderError::CopyData { status: copy_status });
            }
            let keyframe = is_keyframe(not_sync);
            let parameter_sets: Vec<Vec<u8>> = if keyframe {
                sets.sets
            } else {
                Vec::new()
            };
            Ok(EncodedFrame { data: d, is_keyframe: keyframe, pts, parameter_sets })
        },
    }
}

/// Every session is set up the same way: after each of its properties, in order,
/// it is prepared, and nothing else is set.
pub proof fn law_setup_runs_through(fps: u32, bitrate_bps: u32, done: int)
    requires
        0 <= done,
    ensures
        done < properties(fps, bitrate_bps).len() ==> setup_step(fps, bitrate_bps, done)
            == SetupStep::Apply(properties(fps, bitrate_bps)[done]),
        done >= properties(fps, bitrate_bps).len() ==> setup_step(fps, bitrate_bps, done)
            == SetupStep::Prepare,
{
}

/// Successive pictures are shown one after another without a gap: each starts when
/// the one before it ends.
pub proof fn law_pictures_follow_each_other(pts: i64, fps: u32, force_a: bool, force_b: bool)
    requires
        pts < i64::MAX,
    ensures
        ({
            let a = frame_request(pts, fps, force_a);
            let b = frame_request(pts.wrapping_add(1), fps, force_b);
            &&& b.presentation.value == a.presentation.value + a.duration.value
            &&& b.presentation.timescale == a.presentation.timescale == a.duration.timescale
        }),
{
}

/// A session works in real time, keeps its pictures in order, uses the baseline
/// profile, keeps to the bit rate that was asked for and makes a key frame every two
/// seconds.
pub proof fn law_how_a_session_is_set_up(fps: u32, bitrate_bps: u32)
    requires
        fps <= 0x3fff_ffff,
        bitrate_bps <= i32::MAX,
    ensures
        properties(fps, bitrate_bps).len() == 5,
        setup_step(fps, bitrate_bps, 0) == SetupStep::Apply(Property::RealTime(true)),
        setup_step(fps, bitrate_bps, 1) == SetupStep::Apply(Property::AllowFrameReordering(false)),
        setup_step(fps, bitrate_bps, 2) == SetupStep::Apply(Property::BaselineAutoLevel),
        setup_step(fps, bitrate_bps, 3) matches SetupStep::Apply(Property::AverageBitRate(rate))
            && rate == bitrate_bps,
        setup_step(fps, bitrate_bps, 4) matches SetupStep::Apply(Property::MaxKeyFrameInterval(n))
            && n == 2 * fps,
        setup_step(fps, bitrate_bps, 5) == SetupStep::Prepare,
{
    wire::law_bits_are_twos_complement(0, bitrate_bps);
    wire::law_bits_are_twos_complement(0, (fps * 2) as u32);
}

/// A session that is made has its first property set next, and each property that is
/// set the one after it. Whatever goes wrong is told, with the property it went wrong
/// for, and nothing is skipped.
pub proof fn law_setups_go_on_or_are_told(s: SessionSetup, status: i32)
    requires
        s.done < 5,
    ensures
        after_created(s, 0, true) == Ok::<SetupStep, EncoderError>(
            setup_step(s.fps, s.bitrate_bps, s.done as int),
        ),
        after_created(s, status, false) == Err::<SetupStep, EncoderError>(
            EncoderError::CreateSession { status },
        ),
        status != 0 ==> after_created(s, status, true) == Err::<SetupStep, EncoderError>(
            EncoderError::CreateSession { status },
        ),
        ({
            let (t, step) = after_property(s, true, 0);
            &&& t.done == s.done + 1 && t.fps == s.fps && t.bitrate_bps == s.bitrate_bps
            &&& step == Ok::<SetupStep, EncoderError>(
                setup_step(s.fps, s.bitrate_bps, s.done + 1),
            )
        }),
        setup_step(s.fps, s.bitrate_bps, s.done as int) matches SetupStep::Apply(property) && {
            &&& after_property(s, false, status) == (
                s,
                Err::<SetupStep, EncoderError>(EncoderError::NoValue { property }),
            )
            &&& status != 0 ==> after_property(s, true, status) == (
                s,
                Err::<SetupStep, EncoderError>(EncoderError::SetProperty { property, status }),
            )
        },
        after_prepared(0) == Ok::<SetupStep, EncoderError>(SetupStep::Ready),
        status != 0 ==> after_prepared(status) == Err::<SetupStep, EncoderError>(
            EncoderError::Prepare { status },
        ),
{
}

/// A picture is shown at its number and for one tick, where a second has as many
/// ticks as pictures, and as a key frame exactly where that is asked for. A rate that
/// no clock has counts as 30.
pub proof fn law_when_a_picture_is_shown(pts: i64, fps: u32, force: bool)
    ensures
        ({
            let q = frame_request(pts, fps, force);
            let ticks = if fps < 0x8000_0000 {
                fps as int
            } else {
                30int
            };
            &&& q.presentation.value == pts && q.presentation.timescale == ticks
            &&& q.duration.value == 1 && q.duration.timescale == ticks
            &&& q.presentation.flags == 1 && q.duration.flags == 1
            &&& q.presentation.epoch == 0 && q.duration.epoch == 0
            &&& q.force_keyframe == force
        }),
{
}

/// A picture is taken exactly where it holds all of its rows, padding and all; one
/// that does not is told by how much it should hold.
pub proof fn law_which_pictures_are_taken(
    len: int,
    stride: usize,
    height: u16,
    request: FrameRequest,
)
    requires
        0 <= len <= usize::MAX,
    ensures
        taken_in(len, stride, height, request) is Ok <==> height as int * stride as int <= len,
        taken_in(len, stride, height, request) matches Ok(q) ==> q == request,
        taken_in(len, stride, height, request) matches Err(EncoderError::BufferTooSmall {
            have,
            need,
            stride: s,
            height: h,
        }) ==> have == len && need == height as int * stride as int && s == stride && h == height,
        taken_in(len, stride, height, request) matches Err(e) ==> (e is StrideOverflow <==> height
            as int * stride as int > usize::MAX) && (e is StrideOverflow || e is BufferTooSmall),
{
    assert(stride * height == height as int * stride as int) by (nonlinear_arith);
}

/// A picture goes into a buffer of its own size and of four-byte pixels, then to the
/// session as it was requested, and the buffer is let go whatever the session says.
pub proof fn law_how_a_picture_is_handed_over(
    width: u16,
    height: u16,
    request: FrameRequest,
    status: i32,
)
    ensures
        frame_step(width, height, request, FrameEvent::Begin) == (FrameStep::CreateBuffer {
            width: width as usize,
            height: height as usize,
            pixel_format: 0x4247_5241,
        }),
        frame_step(
            width,
            height,
            request,
            FrameEvent::BufferCreated { status: 0, given: true },
        ) == FrameStep::Fill,
        frame_step(
            width,
            height,
            request,
            FrameEvent::BufferCreated { status, given: false },
        ) == FrameStep::Fail(EncoderError::CreateBuffer { status }),
        status != 0 ==> frame_step(
            width,
            height,
            request,
            FrameEvent::BufferCreated { status, given: true },
        ) == FrameStep::Fail(EncoderError::CreateBuffer { status }),
        frame_step(width, height, request, FrameEvent::Filled) == FrameStep::Submit(request),
        frame_step(width, height, request, FrameEvent::Submitted { status: 0 })
            == FrameStep::Release(Ok(())),
        status != 0 ==> frame_step(width, height, request, FrameEvent::Submitted { status })
            == FrameStep::Release(Err(EncoderError::EncodeFrame { status })),
{
}

/// Each encoded picture waits behind those before it; one that failed does not.
pub proof fn law_encoded_pictures_wait_in_line(
    ready: Seq<EncodedFrame>,
    status: i32,
    frame: EncodedFrame,
    e: EncoderError,
)
    ensures
        ready_after(ready, 0, Ok(frame)) == ready.push(frame),
        status != 0 ==> ready_after(ready, status, Ok(frame)) == ready,
        ready_after(ready, status, Err(e)) == ready,
{
}

/// A sample is a key frame unless it is marked as none. It keeps its data and its
/// number, and a key frame all of its parameter sets; other frames have none.
pub proof fn law_what_a_sample_becomes(
    r: Result<EncodedFrame, EncoderError>,
    data: Vec<u8>,
    not_sync: Option<bool>,
    sets: Seq<Vec<u8>>,
    pts: i64,
)
    requires
        put_together(r, Some(data), 0, not_sync, sets, pts),
    ensures
        r matches Ok(f) && {
            &&& f.data == data && f.pts == pts
            &&& f.is_keyframe <==> not_sync is None || not_sync == Some(false)
            &&& f.is_keyframe ==> f.parameter_sets@ == sets
            &&& !f.is_keyframe ==> f.parameter_sets@.len() == 0
        },
        forall|s: Result<EncodedFrame, EncoderError>, status: i32| #[trigger]
            put_together(s, Some(data), status, not_sync, sets, pts) && status != 0 ==> s
                == Err::<EncodedFrame, EncoderError>(EncoderError::CopyData { status }),
        forall|s: Result<EncodedFrame, EncoderError>, status: i32| #[trigger]
            put_together(s, None, status, not_sync, sets, pts) ==> s == Err::<
                EncodedFrame,
                EncoderError,
            >(EncoderError::NoData),
{
    match not_sync {
        Some(b) => {
            assert(keyframe(not_sync) == !b);
            if b {
                assert(r->Ok_0.parameter_sets@ =~= Seq::<Vec<u8>>::empty());
            } else {
                assert(not_sync == Some(false));
            }
        },
        None => {},
    }
}

/// Parameter sets are asked for until as many are there as the system has, or until
/// it gives none. Each that it gives is kept, behind those before it.
pub proof fn law_parameter_sets_are_collected(
    sets: Seq<Vec<u8>>,
    set: Vec<u8>,
    status: i32,
    count: usize,
)
    ensures
        set@.len() > 0 ==> sets_after(sets, 0, Some(set), count).0 == sets.push(set),
        set@.len() > 0 ==> (sets_after(sets, 0, Some(set), count).1 <==> count == 0 || sets.len()
            + 1 < count),
        set@.len() == 0 ==> sets_after(sets, 0, Some(set), count) == (sets, false),
        status != 0 ==> sets_after(sets, status, Some(set), count) == (sets, false),
        sets_after(sets, status, None, count) == (sets, false),
{
}

/// Completing hands out every encoded picture, in order, and leaves none; where it
/// fails, none is lost.
pub proof fn law_completing_loses_nothing(
    r: Result<Vec<EncodedFrame>, EncoderError>,
    status: i32,
    before: Vec<EncodedFrame>,
    after: Vec<EncodedFrame>,
)
    requires
        flushed(r, status, before, after),
    ensures
        r is Ok <==> status == 0,
        r matches Ok(frames) ==> frames@ + after@ == before@ && after@.len() == 0,
        r matches Err(e) ==> after@ == before@ && e == (EncoderError::CompleteFrames { status }),
{
    if let Ok(frames) = r {
        assert(frames@ + after@ =~= before@);
    }
}

} // verus!
