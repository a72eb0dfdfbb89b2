//! Camera redirection: the client's H.264 stream becomes frames of a virtual
//! camera.
//!
//! The stream arrives in Annex-B framing with its parameter sets in band. The
//! decoder wants length-prefixed units and the parameter sets apart, so each
//! access unit is split and framed anew here.

use crate::pixels;
use crate::text;
use crate::wire;
use vstd::prelude::*;

verus! {

/// Media format of H.264.
pub const FORMAT_H264: u8 = 0x01;

/// Where the dump of a raw stream stops, in bytes.
pub const DUMP_CAP_BYTES: u64 = 10_485_760;

/// How many decoded frames are dumped as pictures.
pub const MAX_DUMPED_FRAMES: u64 = 3;

/// Decoded frames are logged no more often than this, in milliseconds.
pub const LOG_INTERVAL_MS: u64 = 1000;

/// The virtual camera's id, which its system extension registers.
pub open spec fn camera_uid() -> Seq<char> {
    "6F1B2C3D-4E5A-6B7C-8D9E-A0B1C2D3E4F0"@
}

/// The length of the start code at `i`, or 0 where there is none.
pub open spec fn start_code_len(b: Seq<u8>, i: int) -> int {
    if i + 3 <= b.len() && b[i] == 0 && b[i + 1] == 0 && b[i + 2] == 1 {
        3
    } else if i + 4 <= b.len() && b[i] == 0 && b[i + 1] == 0 && b[i + 2] == 0 && b[i + 3] == 1 {
        4
    } else {
        0
    }
}

/// Whether `at` is the first start code from `from` on.
pub open spec fn is_next_start(b: Seq<u8>, from: int, at: int) -> bool {
    &&& from <= at <= b.len()
    &&& start_code_len(b, at) > 0
    &&& forall|k: int| from <= k < at ==> start_code_len(b, k) == 0
}

/// Whether there is no start code from `from` on.
pub open spec fn no_start_from(b: Seq<u8>, from: int) -> bool {
    forall|k: int| from <= k <= b.len() ==> start_code_len(b, k) == 0
}

/// The first start code from `from` on, if there is one.
pub open spec fn next_start(b: Seq<u8>, from: int) -> Option<int>
    decreases b.len() + 1 - from,
{
    if from < 0 || from > b.len() {
        None
    } else if start_code_len(b, from) > 0 {
        Some(from)
    } else {
        next_start(b, from + 1)
    }
}

/// The search finds the first start code, or that there is none.
proof fn lemma_next_start(b: Seq<u8>, from: int)
    requires
        0 <= from,
    ensures
        match next_start(b, from) {
            Some(at) => is_next_start(b, from, at) && at + start_code_len(b, at) <= b.len(),
            None => no_start_from(b, from),
        },
    decreases b.len() + 1 - from,
{
    if from <= b.len() && start_code_len(b, from) == 0 {
        lemma_next_start(b, from + 1);
        match next_start(b, from + 1) {
            Some(at) => {
                assert forall|k: int| from <= k < at implies start_code_len(b, k) == 0 by {
                    if k > from {
                        assert(from + 1 <= k < at);
                    }
                }
            },
            None => {
                assert forall|k: int| from <= k <= b.len() implies start_code_len(b, k) == 0 by {
                    if k > from {
                        assert(from + 1 <= k <= b.len());
                    }
                }
            },
        }
    }
}

/// The only first start code is the one that the search finds.
proof fn lemma_next_start_unique(b: Seq<u8>, from: int, at: int)
    requires
        0 <= from,
        is_next_start(b, from, at),
    ensures
        next_start(b, from) == Some(at),
{
    lemma_next_start(b, from);
    match next_start(b, from) {
        Some(other) => {
            if other < at {
                assert(start_code_len(b, other) == 0);
            }
            if at < other {
                assert(start_code_len(b, at) == 0);
            }
        },
        None => {
            assert(start_code_len(b, at) == 0);
        },
    }
}

/// Where the unit that starts at `start` ends.
pub open spec fn nal_end(b: Seq<u8>, start: int) -> int {
    match next_start(b, start) {
        Some(at) => at,
        None => b.len() as int,
    }
}

/// The units of a stream from `pos` on, without their start codes.
pub open spec fn nals_from(b: Seq<u8>, pos: int) -> Seq<Seq<u8>>
    decreases b.len() - pos,
    when 0 <= pos
    via nals_from_decreases
{
    match next_start(b, pos) {
        None => Seq::empty(),
        Some(at) => {
            let start = at + start_code_len(b, at);
            let end = nal_end(b, start);
            seq![b.subrange(start, end)] + nals_from(b, end)
        },
    }
}

#[via_fn]
proof fn nals_from_decreases(b: Seq<u8>, pos: int) {
    lemma_next_start(b, pos);
    match next_start(b, pos) {
        None => {},
        Some(at) => {
            lemma_next_start(b, at + start_code_len(b, at));
        },
    }
}

/// The units of an Annex-B stream.
pub open spec fn nals(b: Seq<u8>) -> Seq<Seq<u8>> {
    nals_from(b, 0)
}

/// Walks the units of an Annex-B stream.
pub struct AnnexBNals<'a> {
    pub buf: &'a [u8],
    pub pos: usize,
}

impl<'a> AnnexBNals<'a> {
    /// Starts at the beginning.
    pub fn new(buf: &'a [u8]) -> (r: Self)
        ensures
            r.buf@ == buf@,
            r.pos == 0,
    {
        AnnexBNals { buf, pos: 0 }
    }

    /// The position and length of the first start code from `from` on.
    pub fn next_start_code(&self, from: usize) -> (r: Option<(usize, usize)>)
        requires
            from <= self.buf@.len(),
        ensures
            match r {
                Some((at, len)) => {
                    &&& next_start(self.buf@, from as int) == Some(at as int)
                    &&& len == start_code_len(self.buf@, at as int)
                    &&& len == 3 || len == 4
                    &&& from <= at && at + len <= self.buf@.len()
                },
                None => next_start(self.buf@, from as int) is None,
            },
    {
        let n: usize = self.buf.len();
        let mut i: usize = from;
        while n >= 3 && i <= n - 3
            invariant
                from <= i <= n,
                n == self.buf@.len(),
                next_start(self.buf@, from as int) == next_start(self.buf@, i as int),
            decreases n - i,
        {
            let b = self.buf;
            if b[i] == 0 && b[i + 1] == 0 {
                if b[i + 2] == 1 {
                    return Some((i, 3));
                }
                if n - i >= 4 && b[i + 2] == 0 && b[i + 3] == 1 {
                    return Some((i, 4));
                }
            }
            assert(start_code_len(self.buf@, i as int) == 0);
            i = i + 1;
        }
        proof {
            lemma_next_start(self.buf@, i as int);
        }
        None
    }

    /// The next unit, without its start code. It runs to the next start code or
    /// to the end.
    pub fn next(&mut self) -> (r: Option<&'a [u8]>)
        requires
            old(self).pos <= old(self).buf@.len(),
        ensures
            final(self).buf == old(self).buf,
            final(self).pos <= final(self).buf@.len(),
            match r {
                Some(nal) => {
                    &&& nals_from(old(self).buf@, old(self).pos as int) == seq![nal@] + nals_from(
                        final(self).buf@,
                        final(self).pos as int,
                    )
                    &&& final(self).pos > old(self).pos
                },
                None => {
                    &&& nals_from(old(self).buf@, old(self).pos as int).len() == 0
                    &&& final(self).pos == old(self).pos
                },
            },
    {
        let n: usize = self.buf.len();
        match self.next_start_code(self.pos) {
            None => None,
            Some((at, len)) => {
                assert(at + len <= n);
                let start: usize = at + len;
                let end: usize = match self.next_start_code(start) {
                    Some((next, _)) => next,
                    None => n,
                };
                self.pos = end;
                Some(vstd::slice::slice_subrange(self.buf, start, end))
            },
        }
    }
}

/// What an access unit leaves behind: the latest parameter sets, and its slices
/// framed by their lengths.
pub struct Parsed {
    pub sps: Option<Seq<u8>>,
    pub pps: Option<Seq<u8>>,
    pub avcc: Seq<u8>,
}

/// The kind of a unit, in the low five bits of its first byte.
pub open spec fn nal_type(nal: Seq<u8>) -> u8 {
    nal[0] % 32
}

/// Whether a unit is passed on as a slice: not empty, neither a parameter set nor
/// a delimiter.
pub open spec fn is_slice(nal: Seq<u8>) -> bool {
    nal.len() > 0 && nal_type(nal) != 7 && nal_type(nal) != 8 && nal_type(nal) != 9
}

/// A unit behind its length in four bytes, most significant first.
pub open spec fn length_prefixed(nal: Seq<u8>) -> Seq<u8> {
    wire::be32((nal.len() % 0x1_0000_0000) as u32) + nal
}

/// Takes in one more unit.
pub open spec fn parse_nal(p: Parsed, nal: Seq<u8>) -> Parsed {
    if nal.len() == 0 || nal_type(nal) == 9 {
        p
    } else if nal_type(nal) == 7 {
        Parsed { sps: Some(nal), ..p }
    } else if nal_type(nal) == 8 {
        Parsed { pps: Some(nal), ..p }
    } else {
        Parsed { avcc: p.avcc + length_prefixed(nal), ..p }
    }
}

/// Takes in all of some units, in order.
pub open spec fn parse_nals(p: Parsed, units: Seq<Seq<u8>>) -> Parsed
    decreases units.len(),
{
    if units.len() == 0 {
        p
    } else {
        parse_nals(parse_nal(p, units[0]), units.subrange(1, units.len() as int))
    }
}

/// What follows an access unit.
pub enum DecodeStep {
    /// No parameter sets yet: wait for them.
    Wait,
    /// Make a decoder from the parameter sets, then decode this.
    BuildSession(Vec<u8>),
    /// Decode this.
    Decode(Vec<u8>),
    /// Nothing to decode.
    Nothing,
    /// The decoder could not be made: say so, the first time only.
    Failed { warn: bool },
}

/// Whether a step is what follows an access unit that left this behind.
pub open spec fn follows_unit(r: DecodeStep, session: bool, p: Parsed) -> bool {
    if !session {
        if p.sps is Some && p.pps is Some {
            r matches DecodeStep::BuildSession(avcc) && avcc@ == p.avcc
        } else {
            r is Wait
        }
    } else if p.avcc.len() == 0 {
        r is Nothing
    } else {
        r matches DecodeStep::Decode(avcc) && avcc@ == p.avcc
    }
}

/// What follows the attempt to make a decoder.
pub open spec fn follows_attempt(warned: bool, made: bool, avcc: Vec<u8>) -> DecodeStep {
    if !made {
        DecodeStep::Failed { warn: !warned }
    } else if avcc@.len() == 0 {
        DecodeStep::Nothing
    } else {
        DecodeStep::Decode(avcc)
    }
}

/// What is known of the stream.
pub struct H264Decoder {
    pub width: u32,
    pub height: u32,
    pub sps: Option<Vec<u8>>,
    pub pps: Option<Vec<u8>>,
    /// Whether there is a decoder.
    pub session: bool,
    /// Whether a failure was reported.
    pub warned: bool,
}

pub open spec fn bytes_of(v: Option<Vec<u8>>) -> Option<Seq<u8>> {
    match v {
        Some(b) => Some(b@),
        None => None,
    }
}

impl H264Decoder {
    /// Nothing seen yet.
    pub fn new(width: u32, height: u32) -> (r: Self)
        ensures
            r.width == width,
            r.height == height,
            r.sps is None,
            r.pps is None,
            !r.session,
            !r.warned,
    {
        H264Decoder { width, height, sps: None, pps: None, session: false, warned: false }
    }

    /// The state that the next access unit is parsed into.
    pub open spec fn parsed(self) -> Parsed {
        Parsed { sps: bytes_of(self.sps), pps: bytes_of(self.pps), avcc: Seq::empty() }
    }

    /// One access unit. Parameter sets are remembered; a decoder is made once both
    /// are known; slices are decoded once there is one.
    pub fn decode(&mut self, annexb: &[u8]) -> (r: DecodeStep)
        ensures
            ({
                let p = parse_nals(old(self).parsed(), nals(annexb@));
                &&& bytes_of(final(self).sps) == p.sps
                &&& bytes_of(final(self).pps) == p.pps
                &&& follows_unit(r, old(self).session, p)
            }),
            final(self).session == old(self).session,
            final(self).warned == old(self).warned,
            final(self).width == old(self).width,
            final(self).height == old(self).height,
    {
        let mut avcc: Vec<u8> = Vec::new();
        let mut walk = AnnexBNals::new(annexb);
        let ghost start = self.parsed();
        let ghost all = nals(annexb@);
        assert(avcc@ =~= Seq::<u8>::empty());
        let mut more = true;
        while more
            invariant
                walk.buf@ == annexb@,
                walk.pos <= annexb@.len(),
                parse_nals(
                    Parsed { sps: bytes_of(self.sps), pps: bytes_of(self.pps), avcc: avcc@ },
                    nals_from(annexb@, walk.pos as int),
                ) == parse_nals(start, all),
                !more ==> nals_from(annexb@, walk.pos as int).len() == 0,
                self.session == old(self).session,
                self.warned == old(self).warned,
                self.width == old(self).width,
                self.height == old(self).height,
            decreases (if more { 1int } else { 0int }), annexb@.len() - walk.pos,
        {
            let ghost before = nals_from(annexb@, walk.pos as int);
            match walk.next() {
                None => {
                    more = false;
                },
                Some(nal) => {
                    proof {
                        let rest = nals_from(annexb@, walk.pos as int);
                        assert(before[0] == nal@);
                        assert(before.subrange(1, before.len() as int) =~= rest);
                    }
                    if nal.len() > 0 {
                        let kind: u8 = nal[0] % 32;
                        if kind == 7 {
                            self.sps = Some(vstd::slice::slice_to_vec(nal));
                        } else if kind == 8 {
                            self.pps = Some(vstd::slice::slice_to_vec(nal));
                        } else if kind != 9 {
                            let len: u32 = (nal.len() as u64 % 0x1_0000_0000) as u32;
                            let ghost had = avcc@;
                            wire::push_be32(&mut avcc, len);
                            wire::push_all(&mut avcc, nal);
                            assert(avcc@ =~= had + length_prefixed(nal@));
                        }
                    }
                },
            }
        }
        if !self.session {
            if self.sps.is_some() && self.pps.is_some() {
                DecodeStep::BuildSession(avcc)
            } else {
                DecodeStep::Wait
            }
        } else if avcc.len() == 0 {
            DecodeStep::Nothing
        } else {
            DecodeStep::Decode(avcc)
        }
    }

    /// A decoder was made, or could not be; `avcc` is what waited for it.
    pub fn session_built(&mut self, made: bool, avcc: Vec<u8>) -> (r: DecodeStep)
        ensures
            final(self).session == (old(self).session || made),
            final(self).warned == (old(self).warned || !made),
            final(self).sps == old(self).sps,
            final(self).pps == old(self).pps,
            final(self).width == old(self).width,
            final(self).height == old(self).height,
            r == follows_attempt(old(self).warned, made, avcc),
    {
        if !made {
            let warn = !self.warned;
            self.warned = true;
            return DecodeStep::Failed { warn };
        }
        self.session = true;
        if avcc.len() == 0 {
            DecodeStep::Nothing
        } else {
            DecodeStep::Decode(avcc)
        }
    }
}

/// Units in Annex-B framing, each behind a four-byte start code.
pub open spec fn annexb(units: Seq<Seq<u8>>) -> Seq<u8>
    decreases units.len(),
{
    if units.len() == 0 {
        Seq::empty()
    } else {
        seq![0u8, 0, 0, 1] + units[0] + annexb(units.subrange(1, units.len() as int))
    }
}

/// Whether a unit holds no start code, as emulation prevention makes sure.
pub open spec fn clean(nal: Seq<u8>) -> bool {
    forall|k: int| 0 <= k <= nal.len() ==> start_code_len(nal, k) == 0
}

/// No start code begins inside a unit, not even one that reaches into the start
/// code that follows it.
proof fn lemma_no_start_inside(b: Seq<u8>, u: Seq<u8>, start: int)
    requires
        0 <= start,
        start + u.len() <= b.len(),
        clean(u),
        forall|j: int| start <= j < start + u.len() ==> #[trigger] b[j] == u[j - start],
        start + u.len() == b.len() || ({
            let end = start + u.len();
            end + 4 <= b.len() && b[end] == 0 && b[end + 1] == 0 && b[end + 2] == 0 && b[end + 3]
                == 1
        }),
    ensures
        forall|k: int| start <= k < start + u.len() ==> start_code_len(b, k) == 0,
{
    let end = start + u.len();
    assert forall|k: int| start <= k < end implies start_code_len(b, k) == 0 by {
        assert(start_code_len(u, k - start) == 0);
        assert(b[k] == u[k - start]);
        if k + 1 < end {
            assert(b[k + 1] == u[k + 1 - start]);
        }
        if k + 2 < end {
            assert(b[k + 2] == u[k + 2 - start]);
        }
        if k + 3 < end {
            assert(b[k + 3] == u[k + 3 - start]);
        }
    }
}

/// In a stream that ends with framed units, the walk from the first of them on
/// gives exactly those units.
#[verifier::rlimit(40)]
#[verifier::spinoff_prover]
proof fn lemma_framed_units_from(b: Seq<u8>, pos: int, units: Seq<Seq<u8>>)
    requires
        0 <= pos <= b.len(),
        b.subrange(pos, b.len() as int) == annexb(units),
        forall|i: int| 0 <= i < units.len() ==> clean(#[trigger] units[i]),
    ensures
        nals_from(b, pos) == units,
    decreases units.len(),
{
    let tail = b.subrange(pos, b.len() as int);
    assert(tail.len() == b.len() - pos);
    if units.len() == 0 {
        assert(tail.len() == 0);
        lemma_next_start(b, pos);
        assert(nals_from(b, pos) =~= units);
    } else {
        let u = units[0];
        let rest = units.subrange(1, units.len() as int);
        let body = annexb(rest);
        assert(tail == seq![0u8, 0, 0, 1] + u + body);
        assert(tail.len() == 4 + u.len() + body.len());
        let start = pos + 4;
        let end = start + u.len();
        assert(b.len() == end + body.len());
        assert forall|j: int| pos <= j < b.len() implies #[trigger] b[j] == tail[j - pos] by {}
        assert(b[pos] == 0 && b[pos + 1] == 0 && b[pos + 2] == 0 && b[pos + 3] == 1);
        assert(start_code_len(b, pos) == 4);
        lemma_next_start_unique(b, pos, pos);
        assert forall|j: int| start <= j < end implies #[trigger] b[j] == u[j - start] by {
            assert(b[j] == tail[j - pos]);
        }
        assert forall|j: int| end <= j < b.len() implies #[trigger] b[j] == body[j - end] by {
            assert(b[j] == tail[j - pos]);
        }
        if rest.len() > 0 {
            assert(body[0] == 0 && body[1] == 0 && body[2] == 0 && body[3] == 1);
            assert(b[end] == 0 && b[end + 1] == 0 && b[end + 2] == 0 && b[end + 3] == 1);
        }
        lemma_no_start_inside(b, u, start);
        if rest.len() == 0 {
            assert(body.len() == 0);
            assert(no_start_from(b, start)) by {
                assert forall|k: int| start <= k <= b.len() implies start_code_len(b, k) == 0 by {}
            }
            lemma_next_start(b, start);
            if next_start(b, start) is Some {
                assert(start_code_len(b, next_start(b, start)->0) == 0);
            }
        } else {
            assert(is_next_start(b, start, end));
            lemma_next_start_unique(b, start, end);
        }
        assert(nal_end(b, start) == end);
        assert forall|i: int| 0 <= i < u.len() implies b.subrange(start, end)[i] == u[i] by {
            assert(b[start + i] == u[start + i - start]);
        }
        assert(b.subrange(start, end) =~= u);
        assert forall|i: int| 0 <= i < body.len() implies b.subrange(end, b.len() as int)[i]
            == body[i] by {
            assert(b[end + i] == body[end + i - end]);
        }
        assert(b.subrange(end, b.len() as int) =~= body);
        assert forall|i: int| 0 <= i < rest.len() implies clean(#[trigger] rest[i]) by {
            assert(rest[i] == units[i + 1]);
        }
        lemma_framed_units_from(b, end, rest);
        assert(seq![u] + rest =~= units);
    }
}

/// Splitting undoes framing: units in Annex-B framing, none of which holds a
/// start code itself, are found again, all of them, in order, byte for byte.
pub proof fn law_split_undoes_framing(units: Seq<Seq<u8>>)
    requires
        forall|i: int| 0 <= i < units.len() ==> clean(#[trigger] units[i]),
    ensures
        nals(annexb(units)) == units,
{
    let b = annexb(units);
    assert(b.subrange(0, b.len() as int) =~= b);
    lemma_framed_units_from(b, 0, units);
}

/// Where the first start code of a stream is, or the stream's end.
pub open spec fn first_start(b: Seq<u8>) -> int {
    nal_end(b, 0)
}

/// The start codes of a stream from `pos` on, one for each unit.
pub open spec fn codes_from(b: Seq<u8>, pos: int) -> Seq<Seq<u8>>
    decreases b.len() - pos,
    when 0 <= pos
    via codes_from_decreases
{
    match next_start(b, pos) {
        None => Seq::empty(),
        Some(at) => {
            let start = at + start_code_len(b, at);
            seq![b.subrange(at, start)] + codes_from(b, nal_end(b, start))
        },
    }
}

#[via_fn]
proof fn codes_from_decreases(b: Seq<u8>, pos: int) {
    lemma_next_start(b, pos);
    match next_start(b, pos) {
        None => {},
        Some(at) => {
            lemma_next_start(b, at + start_code_len(b, at));
        },
    }
}

/// Start codes and units in turn.
pub open spec fn in_turn(codes: Seq<Seq<u8>>, units: Seq<Seq<u8>>) -> Seq<u8>
    decreases units.len(),
{
    if units.len() == 0 || codes.len() == 0 {
        Seq::empty()
    } else {
        codes[0] + units[0] + in_turn(
            codes.subrange(1, codes.len() as int),
            units.subrange(1, units.len() as int),
        )
    }
}

/// Whether some bytes are a start code, of either length.
pub open spec fn is_start_code(c: Seq<u8>) -> bool {
    c == seq![0u8, 0, 1] || c == seq![0u8, 0, 0, 1]
}

/// A unit holds no start code.
proof fn lemma_unit_is_clean(b: Seq<u8>, start: int)
    requires
        0 <= start <= b.len(),
    ensures
        start <= nal_end(b, start) <= b.len(),
        clean(b.subrange(start, nal_end(b, start))),
{
    lemma_next_start(b, start);
    let end = nal_end(b, start);
    let u = b.subrange(start, end);
    assert forall|k: int| 0 <= k <= u.len() implies start_code_len(u, k) == 0 by {
        if start_code_len(u, k) > 0 {
            assert(k + 3 <= u.len());
            assert(u[k] == b[start + k] && u[k + 1] == b[start + k + 1] && u[k + 2] == b[start + k
                + 2]);
            if k + 4 <= u.len() {
                assert(u[k + 3] == b[start + k + 3]);
            }
            assert(start_code_len(b, start + k) > 0);
        }
    }
}

proof fn lemma_stream_from(b: Seq<u8>, pos: int)
    requires
        0 <= pos <= b.len(),
    ensures
        codes_from(b, pos).len() == nals_from(b, pos).len(),
        forall|i: int|
            0 <= i < codes_from(b, pos).len() ==> is_start_code(#[trigger] codes_from(b, pos)[i]),
        forall|i: int| 0 <= i < nals_from(b, pos).len() ==> clean(#[trigger] nals_from(b, pos)[i]),
        b.subrange(nal_end(b, pos), b.len() as int) == in_turn(
            codes_from(b, pos),
            nals_from(b, pos),
        ),
    decreases b.len() - pos,
{
    lemma_next_start(b, pos);
    match next_start(b, pos) {
        None => {
            assert(b.subrange(b.len() as int, b.len() as int) =~= Seq::<u8>::empty());
        },
        Some(at) => {
            let start = at + start_code_len(b, at);
            lemma_unit_is_clean(b, start);
            lemma_next_start(b, start);
            let end = nal_end(b, start);
            lemma_stream_from(b, end);
            lemma_next_start(b, end);
            assert(nal_end(b, end) == end) by {
                if next_start(b, start) is Some {
                    lemma_next_start_unique(b, end, end);
                }
            }
            let (codes, units) = (codes_from(b, pos), nals_from(b, pos));
            let (code, unit) = (b.subrange(at, start), b.subrange(start, end));
            if start_code_len(b, at) == 3 {
                assert(code =~= seq![0u8, 0, 1]);
            } else {
                assert(code =~= seq![0u8, 0, 0, 1]);
            }
            assert(codes.subrange(1, codes.len() as int) =~= codes_from(b, end));
            assert(units.subrange(1, units.len() as int) =~= nals_from(b, end));
            assert forall|i: int| 0 <= i < codes.len() implies is_start_code(
                #[trigger] codes[i],
            ) by {
                if i > 0 {
                    assert(codes[i] == codes_from(b, end)[i - 1]);
                }
            }
            assert forall|i: int| 0 <= i < units.len() implies clean(#[trigger] units[i]) by {
                if i > 0 {
                    assert(units[i] == nals_from(b, end)[i - 1]);
                }
            }
            assert(b.subrange(at, b.len() as int) =~= code + unit + b.subrange(
                end,
                b.len() as int,
            ));
        },
    }
}

/// Splitting loses nothing: what stands before the first start code, and then the
/// start codes and the units in turn, make up the whole stream. No start code begins
/// before the first, and no unit holds one.
pub proof fn law_units_make_up_the_stream(b: Seq<u8>)
    ensures
        codes_from(b, 0).len() == nals(b).len(),
        forall|i: int|
            0 <= i < codes_from(b, 0).len() ==> is_start_code(#[trigger] codes_from(b, 0)[i]),
        forall|i: int| 0 <= i < nals(b).len() ==> clean(#[trigger] nals(b)[i]),
        0 <= first_start(b) <= b.len(),
        forall|k: int| 0 <= k < first_start(b) ==> start_code_len(b, k) == 0,
        b == b.subrange(0, first_start(b)) + in_turn(codes_from(b, 0), nals(b)),
{
    lemma_stream_from(b, 0);
    lemma_next_start(b, 0);
    assert(b =~= b.subrange(0, first_start(b)) + b.subrange(first_start(b), b.len() as int));
}

/// The slices among some units.
pub open spec fn slices(units: Seq<Seq<u8>>) -> Seq<Seq<u8>>
    decreases units.len(),
{
    if units.len() == 0 {
        Seq::empty()
    } else {
        let rest = slices(units.subrange(1, units.len() as int));
        if is_slice(units[0]) {
            seq![units[0]] + rest
        } else {
            rest
        }
    }
}

/// Units behind their lengths, one after the other.
pub open spec fn avcc(units: Seq<Seq<u8>>) -> Seq<u8>
    decreases units.len(),
{
    if units.len() == 0 {
        Seq::empty()
    } else {
        length_prefixed(units[0]) + avcc(units.subrange(1, units.len() as int))
    }
}

/// What a decoder reads out of length-prefixed units: each length, then as many
/// bytes.
pub open spec fn avcc_units(b: Seq<u8>) -> Seq<Seq<u8>>
    decreases b.len(),
{
    if b.len() < 4 || 4 + wire::be32_at(b, 0) > b.len() {
        Seq::empty()
    } else {
        let n = wire::be32_at(b, 0) as int;
        seq![b.subrange(4, 4 + n)] + avcc_units(b.subrange(4 + n, b.len() as int))
    }
}

/// The decoder gets the slices of an access unit and nothing else, in order,
/// whole.
pub proof fn law_decoder_gets_the_slices(p: Parsed, units: Seq<Seq<u8>>)
    requires
        p.avcc.len() == 0,
        forall|i: int| 0 <= i < units.len() ==> (#[trigger] units[i]).len() < 0x1_0000_0000,
    ensures
        parse_nals(p, units).avcc == avcc(slices(units)),
        avcc_units(parse_nals(p, units).avcc) == slices(units),
{
    lemma_parse_collects_slices(p, units);
    assert(parse_nals(p, units).avcc =~= avcc(slices(units)));
    lemma_slices_short(units);
    lemma_avcc_read_back(slices(units));
}

proof fn lemma_parse_collects_slices(p: Parsed, units: Seq<Seq<u8>>)
    ensures
        parse_nals(p, units).avcc == p.avcc + avcc(slices(units)),
    decreases units.len(),
{
    if units.len() == 0 {
        assert(p.avcc + avcc(slices(units)) =~= p.avcc);
    } else {
        let rest = units.subrange(1, units.len() as int);
        let q = parse_nal(p, units[0]);
        lemma_parse_collects_slices(q, rest);
        if is_slice(units[0]) {
            let s = slices(units);
            assert(s.subrange(1, s.len() as int) =~= slices(rest));
            assert(s[0] == units[0]);
            assert(q.avcc + avcc(slices(rest)) =~= p.avcc + avcc(s));
        }
    }
}

proof fn lemma_slices_short(units: Seq<Seq<u8>>)
    requires
        forall|i: int| 0 <= i < units.len() ==> (#[trigger] units[i]).len() < 0x1_0000_0000,
    ensures
        forall|i: int|
            0 <= i < slices(units).len() ==> (#[trigger] slices(units)[i]).len() < 0x1_0000_0000,
    decreases units.len(),
{
    if units.len() > 0 {
        let rest = units.subrange(1, units.len() as int);
        assert forall|i: int| 0 <= i < rest.len() implies (#[trigger] rest[i]).len()
            < 0x1_0000_0000 by {
            assert(rest[i] == units[i + 1]);
        }
        lemma_slices_short(rest);
        let s = slices(units);
        assert forall|i: int| 0 <= i < s.len() implies (#[trigger] s[i]).len() < 0x1_0000_0000 by {
            if is_slice(units[0]) {
                if i > 0 {
                    assert(s[i] == slices(rest)[i - 1]);
                }
            } else {
                assert(s[i] == slices(rest)[i]);
            }
        }
    }
}

#[verifier::spinoff_prover]
#[verifier::rlimit(60)]
proof fn lemma_avcc_read_back(units: Seq<Seq<u8>>)
    requires
        forall|i: int| 0 <= i < units.len() ==> (#[trigger] units[i]).len() < 0x1_0000_0000,
    ensures
        avcc_units(avcc(units)) == units,
    decreases units.len(),
{
    let b = avcc(units);
    if units.len() == 0 {
        assert(avcc_units(b) =~= units);
    } else {
        let u = units[0];
        let rest = units.subrange(1, units.len() as int);
        assert forall|i: int| 0 <= i < rest.len() implies (#[trigger] rest[i]).len()
            < 0x1_0000_0000 by {
            assert(rest[i] == units[i + 1]);
        }
        lemma_avcc_read_back(rest);
        let len = (u.len() % 0x1_0000_0000) as u32;
        assert(b.subrange(0, 4) =~= wire::be32(len));
        wire::law_read_undoes_write(b, 0, 0, len);
        let n = u.len() as int;
        assert(b.subrange(4, 4 + n) =~= u);
        assert(b.subrange(4 + n, b.len() as int) =~= avcc(rest));
        assert(seq![u] + rest =~= units);
    }
}

/// The step of a coarse grid along an edge.
pub open spec fn grid_step(edge: int) -> int {
    if edge / 64 < 1 {
        1
    } else {
        edge / 64
    }
}

/// Brightness along a row from column `x` on: the sum, and how many points.
pub open spec fn row_luma(plane: Seq<u8>, row: int, x: int, width: int, step: int) -> (int, int)
    decreases (if x < width { width - x } else { 0 }),
{
    if step <= 0 || x >= width {
        (0, 0)
    } else {
        let (s, n) = row_luma(plane, row, x + step, width, step);
        (s + plane[row + x], n + 1)
    }
}

/// Brightness over the grid from row `y` on: the sum, and how many points.
pub open spec fn grid_luma(plane: Seq<u8>, stride: int, y: int, width: int, height: int) -> (
    int,
    int,
)
    decreases (if y < height { height - y } else { 0 }),
{
    if y >= height {
        (0, 0)
    } else {
        let (rs, rn) = row_luma(plane, y * stride, 0, width, grid_step(width));
        let (s, n) = grid_luma(plane, stride, y + grid_step(height), width, height);
        (rs + s, rn + n)
    }
}

/// What the brightness of a decoded frame's luma plane is worth: the sum over a
/// coarse grid and the number of its points. A plane without pixels, or with rows
/// shorter than the picture, has none.
pub fn inspect_luma(plane: &[u8], width: usize, height: usize, stride: usize) -> (r: Option<
    (u64, u64),
>)
    requires
        width > 0 && height > 0 && stride >= width ==> pixels::rows_fit(
            plane@.len() as int,
            0,
            stride as int,
            width as int,
            height as int,
        ),
        plane@.len() <= 0x00ff_ffff_ffff_ffff,
    ensures
        match r {
            Some((sum, n)) => {
                &&& width > 0 && height > 0 && stride >= width
                &&& (sum as int, n as int) == grid_luma(
                    plane@,
                    stride as int,
                    0,
                    width as int,
                    height as int,
                )
            },
            None => width == 0 || height == 0 || stride < width,
        },
{
    if width == 0 || height == 0 || stride < width {
        return None;
    }
    let step_y: usize = if height / 64 < 1 {
        1
    } else {
        height / 64
    };
    let step_x: usize = if width / 64 < 1 {
        1
    } else {
        width / 64
    };
    let len: usize = plane.len();
    let ghost whole = grid_luma(plane@, stride as int, 0, width as int, height as int);
    let mut sum: u64 = 0;
    let mut n: u64 = 0;
    let mut y: usize = 0;
    let mut row: usize = 0;
    let mut seen: u64 = 0;
    assert(0 * stride == 0) by (nonlinear_arith);
    while y < height
        invariant
            len == plane@.len(),
            len <= 0x00ff_ffff_ffff_ffff,
            width > 0,
            stride >= width,
            step_x == grid_step(width as int),
            step_y == grid_step(height as int),
            pixels::rows_fit(len as int, 0, stride as int, width as int, height as int),
            y < height ==> row == y * stride,
            y < height ==> seen <= row,
            seen <= len,
            n <= seen,
            sum <= 255 * seen,
            ({
                let (s, k) = grid_luma(
                    plane@,
                    stride as int,
                    y as int,
                    width as int,
                    height as int,
                );
                sum + s == whole.0 && n + k == whole.1
            }),
        decreases height - y,
    {
        proof {
            lemma_grid_row(len as int, stride as int, width as int, height as int, y as int);
        }
        let ghost (rs, rn) = row_luma(
            plane@,
            y * stride,
            0,
            width as int,
            grid_step(width as int),
        );
        let ghost before_sum = sum as int;
        let ghost before_n = n as int;
        let mut x: usize = 0;
        while x < width
            invariant
                len == plane@.len(),
                len <= 0x00ff_ffff_ffff_ffff,
                step_x == grid_step(width as int),
                row + width <= len,
                row == y * stride,
                x <= width,
                step_x > 0,
                seen <= row,
                n <= seen + x,
                sum <= 255 * (seen + x),
                ({
                    let (s, k) = row_luma(
                        plane@,
                        y * stride,
                        x as int,
                        width as int,
                        grid_step(width as int),
                    );
                    sum + s == before_sum + rs && n + k == before_n + rn
                }),
            decreases width - x,
        {
            sum = sum + plane[row + x] as u64;
            n = n + 1;
            if step_x < width - x {
                x = x + step_x;
            } else {
                assert(row_luma(
                    plane@,
                    y * stride,
                    x + step_x,
                    width as int,
                    grid_step(width as int),
                ) == (0int, 0int));
                x = width;
            }
        }
        seen = (row + width) as u64;
        proof {
            lemma_row_luma_bounds(
                plane@,
                y * stride,
                0,
                width as int,
                grid_step(width as int),
            );
        }
        if step_y < height - y {
            y = y + step_y;
            proof {
                lemma_grid_row(len as int, stride as int, width as int, height as int, y as int);
                lemma_next_row(stride as int, width as int, y - step_y, step_y as int);
            }
            row = y * stride;
        } else {
            assert(grid_luma(
                plane@,
                stride as int,
                y + grid_step(height as int),
                width as int,
                height as int,
            ) == (0int, 0int));
            y = height;
        }
    }
    Some((sum, n))
}

/// A row of the grid lies within the plane.
proof fn lemma_grid_row(len: int, stride: int, width: int, height: int, y: int)
    requires
        0 <= y < height,
        0 <= stride,
        pixels::rows_fit(len, 0, stride, width, height),
    ensures
        0 <= y * stride,
        y * stride + width <= len,
{
    assert(0 <= y * stride <= (height - 1) * stride) by (nonlinear_arith)
        requires
            0 <= y < height,
            0 <= stride,
    ;
}

/// The next row of the grid starts behind the end of this one.
proof fn lemma_next_row(stride: int, width: int, y: int, step: int)
    requires
        0 <= y,
        1 <= step,
        width <= stride,
        0 <= width,
    ensures
        y * stride + width <= (y + step) * stride,
{
    assert((y + step) * stride == y * stride + step * stride) by (nonlinear_arith);
    assert(step * stride >= stride) by (nonlinear_arith)
        requires
            1 <= step,
            0 <= stride,
    ;
}

/// A row has no more points than pixels, and none brighter than white.
proof fn lemma_row_luma_bounds(plane: Seq<u8>, row: int, x: int, width: int, step: int)
    requires
        0 <= x,
    ensures
        0 <= row_luma(plane, row, x, width, step).1,
        x < width ==> row_luma(plane, row, x, width, step).1 <= width - x,
        x >= width ==> row_luma(plane, row, x, width, step).1 == 0,
        0 <= row_luma(plane, row, x, width, step).0 <= 255 * row_luma(
            plane,
            row,
            x,
            width,
            step,
        ).1,
    decreases (if x < width { width - x } else { 0 }),
{
    if step > 0 && x < width {
        lemma_row_luma_bounds(plane, row, x + step, width, step);
    }
}

/// The luma plane as a tight grayscale picture.
pub fn grayscale(plane: &[u8], width: usize, height: usize, stride: usize) -> (out: Vec<u8>)
    requires
        pixels::rows_fit(plane@.len() as int, 0, stride as int, width as int, height as int),
    ensures
        out@ == pixels::packed_rows(plane@, 0, stride as int, width as int, height as int),
{
    pixels::copy_rows(plane, 0, stride, width, height)
}

/// What a decoded frame leads to.
#[derive(Debug, Clone, Copy, PartialEq, Eq, Structural)]
pub struct OutputStep {
    /// Hand the frame to the virtual camera.
    pub present: bool,
    /// Say that frames are being decoded.
    pub log: bool,
    /// Look at the frame's brightness.
    pub inspect: bool,
    /// Write the frame out as the picture with this number.
    pub dump: Option<u64>,
}

/// The decoder's output so far.
pub struct CallbackState {
    pub decoded: u64,
    pub errors: u64,
    pub last_log_ms: Option<u64>,
    pub dumped_pngs: u64,
}

impl CallbackState {
    /// No output yet.
    pub fn new() -> (r: Self)
        ensures
            r.decoded == 0,
            r.errors == 0,
            r.last_log_ms is None,
            r.dumped_pngs == 0,
    {
        CallbackState { decoded: 0, errors: 0, last_log_ms: None, dumped_pngs: 0 }
    }

    /// Whether a second has passed since the last log line.
    pub open spec fn log_is_due(self, now_ms: u64) -> bool {
        self.last_log_ms is None || now_ms - self.last_log_ms->0 >= LOG_INTERVAL_MS
    }

    /// The state after a frame or an error, and what it leads to.
    pub open spec fn after_output(self, ok: bool, now_ms: u64, dump_enabled: bool) -> (
        CallbackState,
        OutputStep,
    ) {
        if !ok {
            (
                CallbackState { errors: (self.errors + 1) as u64, ..self },
                OutputStep { present: false, log: false, inspect: false, dump: None },
            )
        } else {
            let log = self.log_is_due(now_ms);
            let inspect = log && dump_enabled;
            let dump = inspect && self.dumped_pngs < MAX_DUMPED_FRAMES;
            let dumped_pngs = if dump {
                (self.dumped_pngs + 1) as u64
            } else {
                self.dumped_pngs
            };
            (
                CallbackState {
                    decoded: (self.decoded + 1) as u64,
                    errors: self.errors,
                    last_log_ms: if log {
                        Some(now_ms)
                    } else {
                        self.last_log_ms
                    },
                    dumped_pngs,
                },
                OutputStep {
                    present: true,
                    log,
                    inspect,
                    dump: if dump {
                        Some(dumped_pngs)
                    } else {
                        None
                    },
                },
            )
        }
    }

    /// The decoder delivered a frame, or an error. Frames are presented; once a
    /// second one is logged, and, where dumps are enabled, inspected, the first
    /// few as pictures too.
    pub fn decode_output(&mut self, ok: bool, now_ms: u64, dump_enabled: bool) -> (r: OutputStep)
        requires
            old(self).decoded < u64::MAX,
            old(self).errors < u64::MAX,
        ensures
            (*final(self), r) == old(self).after_output(ok, now_ms, dump_enabled),
    {
        if !ok {
            self.errors = self.errors + 1;
            return OutputStep { present: false, log: false, inspect: false, dump: None };
        }
        self.decoded = self.decoded + 1;
        let due = match self.last_log_ms {
            Some(t) => now_ms.saturating_sub(t) >= LOG_INTERVAL_MS,
            None => true,
        };
        if !due {
            return OutputStep { present: true, log: false, inspect: false, dump: None };
        }
        self.last_log_ms = Some(now_ms);
        let dump: Option<u64> = if dump_enabled && self.dumped_pngs < MAX_DUMPED_FRAMES {
            self.dumped_pngs = self.dumped_pngs + 1;
            Some(self.dumped_pngs)
        } else {
            None
        };
        OutputStep { present: true, log: true, inspect: dump_enabled, dump }
    }
}

/// A letter in lower case, if it is an ASCII capital.
pub open spec fn ascii_lower(c: char) -> char {
    if 'A' <= c && c <= 'Z' {
        (c as u32 + 32) as char
    } else {
        c
    }
}

/// Whether two texts differ at most in the case of ASCII letters.
pub open spec fn same_ignoring_case(a: Seq<char>, b: Seq<char>) -> bool {
    a.len() == b.len() && forall|i: int|
        0 <= i < a.len() ==> ascii_lower(#[trigger] a[i]) == ascii_lower(b[i])
}

fn to_ascii_lower(c: char) -> (r: char)
    ensures
        r == ascii_lower(c),
{
    if 'A' <= c && c <= 'Z' {
        let v: u8 = c as u8;
        (v + 32) as char
    } else {
        c
    }
}

fn eq_ignoring_case(a: &str, b: &str) -> (r: bool)
    ensures
        r == same_ignoring_case(a@, b@),
{
    let x = text::chars_of(a);
    let y = text::chars_of(b);
    if x.len() != y.len() {
        return false;
    }
    let mut i: usize = 0;
    while i < x.len()
        invariant
            x@ == a@,
            y@ == b@,
            x@.len() == y@.len(),
            i <= x@.len(),
            forall|j: int| 0 <= j < i ==> ascii_lower(#[trigger] a@[j]) == ascii_lower(b@[j]),
        decreases x@.len() - i,
    {
        if to_ascii_lower(x[i]) != to_ascii_lower(y[i]) {
            assert(ascii_lower(a@[i as int]) != ascii_lower(b@[i as int]));
            return false;
        }
        i = i + 1;
    }
    true
}

/// Why the virtual camera cannot be fed.
#[derive(Debug, Clone, Copy, PartialEq, Eq, Structural)]
pub enum FeedError {
    /// Its device is not there: the extension is not active.
    NoDevice,
    /// The device has this many streams, not a source and a sink.
    NoSink(usize),
}

/// Whether a device is the virtual camera. A device whose id cannot be read is
/// not.
pub open spec fn is_camera(uid: Option<String>) -> bool {
    uid matches Some(u) && same_ignoring_case(u@, camera_uid())
}

/// The position of the first device that is the virtual camera.
pub fn find_camera(uids: &[Option<String>]) -> (r: Result<usize, FeedError>)
    ensures
        match r {
            Ok(i) => {
                &&& i < uids@.len()
                &&& is_camera(uids@[i as int])
                &&& forall|j: int| 0 <= j < i ==> !is_camera(#[trigger] uids@[j])
            },
            Err(e) => e == FeedError::NoDevice && forall|j: int|
                0 <= j < uids@.len() ==> !is_camera(#[trigger] uids@[j]),
        },
{
    let mut i: usize = 0;
    while i < uids.len()
        invariant
            i <= uids@.len(),
            forall|j: int| 0 <= j < i ==> !is_camera(#[trigger] uids@[j]),
        decreases uids@.len() - i,
    {
        let hit = match &uids[i] {
            Some(u) => eq_ignoring_case(u.as_str(), "6F1B2C3D-4E5A-6B7C-8D9E-A0B1C2D3E4F0"),
            None => false,
        };
        if hit {
            return Ok(i);
        }
        i = i + 1;
    }
    Err(FeedError::NoDevice)
}

/// The stream to feed, if there is one.
pub open spec fn stream_to_feed(streams: Seq<u32>) -> Result<u32, FeedError> {
    if streams.len() < 2 {
        Err(FeedError::NoSink(streams.len() as usize))
    } else {
        Ok(streams[1])
    }
}

/// The stream to feed: the camera registers its source first and its sink second.
pub fn sink_stream(streams: &[u32]) -> (r: Result<u32, FeedError>)
    ensures
        r == stream_to_feed(streams@),
{
    if streams.len() < 2 {
        Err(FeedError::NoSink(streams.len()))
    } else {
        Ok(streams[1])
    }
}

/// An open feed to the virtual camera.
pub struct CameraFeed {
    pub device_id: u32,
    pub sink_stream_id: u32,
    pub enqueued: u64,
    pub dropped_full: u64,
}

impl CameraFeed {
    /// Nothing fed yet.
    pub fn new(device_id: u32, sink_stream_id: u32) -> (r: Self)
        ensures
            r.device_id == device_id,
            r.sink_stream_id == sink_stream_id,
            r.enqueued == 0,
            r.dropped_full == 0,
    {
        CameraFeed { device_id, sink_stream_id, enqueued: 0, dropped_full: 0 }
    }

    /// The feed after it was asked whether there is room, and whether there is.
    pub open spec fn asked_for_room(self, count: i32, capacity: i32) -> (CameraFeed, bool) {
        if count < capacity {
            (self, true)
        } else {
            (CameraFeed { dropped_full: (self.dropped_full + 1) as u64, ..self }, false)
        }
    }

    /// The feed after the queue took a frame, or turned it down.
    pub open spec fn after_enqueue(self, status: i32) -> CameraFeed {
        if status == 0 {
            CameraFeed { enqueued: (self.enqueued + 1) as u64, ..self }
        } else {
            self
        }
    }

    /// Whether the camera's queue has room for a frame. A frame that finds it full
    /// is dropped rather than waited with.
    pub fn has_room(&mut self, count: i32, capacity: i32) -> (r: bool)
        requires
            old(self).dropped_full < u64::MAX,
        ensures
            (*final(self), r) == old(self).asked_for_room(count, capacity),
    {
        if count >= capacity {
            self.dropped_full = self.dropped_full + 1;
            false
        } else {
            true
        }
    }

    /// A frame was put on the queue, or the queue turned it down.
    pub fn enqueue(&mut self, status: i32)
        requires
            old(self).enqueued < u64::MAX,
        ensures
            *final(self) == old(self).after_enqueue(status),
    {
        if status == 0 {
            self.enqueued = self.enqueued + 1;
        }
    }
}

/// Whether diagnostic dumps are asked for, by the value of their variable.
pub open spec fn asks_for_dumps(value: Option<Seq<char>>) -> bool {
    match value {
        Some(v) => v == "1"@ || v == "true"@,
        None => false,
    }
}

/// Whether diagnostic dumps are asked for, by the value of their variable.
pub fn camera_dump_enabled(value: Option<&str>) -> (r: bool)
    ensures
        r == asks_for_dumps(text::optional(value)),
{
    match value {
        Some(v) => {
            let v = v.to_owned();
            v == "1".to_owned() || v == "true".to_owned()
        },
        None => false,
    }
}

/// What a media type leads to.
#[derive(Debug, Clone, Copy, PartialEq, Eq, Structural)]
pub struct MediaStep {
    /// Open a file for the raw stream.
    pub open_dump: bool,
    /// Say that there will be no such file.
    pub note_skipped: bool,
    /// Start decoding.
    pub start_decoder: bool,
}

/// What to do with a sample's bytes.
#[derive(Debug, Clone, Copy, PartialEq, Eq, Structural)]
pub enum DumpStep {
    /// Write nothing.
    Skip,
    /// Append them to the dump.
    Write,
}

/// One redirected camera's stream.
pub struct CameraSink {
    pub format: u8,
    pub width: u32,
    pub height: u32,
    /// Whether the dump is open.
    pub dump: bool,
    pub dumped_bytes: u64,
    pub frames: u64,
}

/// What a media type leads to.
pub open spec fn media_step(format: u8, dump_enabled: bool) -> MediaStep {
    MediaStep {
        open_dump: format == FORMAT_H264 && dump_enabled,
        note_skipped: format != FORMAT_H264 && dump_enabled,
        start_decoder: format == FORMAT_H264,
    }
}

/// What to do with a sample, by whether the dump is open and how much it holds.
pub open spec fn dump_step(open: bool, dumped_bytes: u64) -> DumpStep {
    if open && dumped_bytes < DUMP_CAP_BYTES {
        DumpStep::Write
    } else {
        DumpStep::Skip
    }
}

/// A stream after an attempt to dump `len` bytes, and whether the dump just reached
/// its cap.
pub open spec fn after_dump(s: CameraSink, ok: bool, len: usize) -> (CameraSink, bool) {
    if !ok {
        (CameraSink { dump: false, ..s }, false)
    } else {
        let capped = s.dumped_bytes + len >= DUMP_CAP_BYTES;
        (
            CameraSink {
                dumped_bytes: (s.dumped_bytes + len) as u64,
                dump: s.dump && !capped,
                ..s
            },
            capped,
        )
    }
}

impl CameraSink {
    /// No stream yet.
    pub fn new() -> (r: Self)
        ensures
            r.format == 0 && r.width == 0 && r.height == 0,
            !r.dump && r.dumped_bytes == 0 && r.frames == 0,
    {
        CameraSink { format: 0, width: 0, height: 0, dump: false, dumped_bytes: 0, frames: 0 }
    }

    /// The stream's format is known. Only H.264 is decoded, and only it is dumped.
    pub fn on_media_type(&mut self, format: u8, width: u32, height: u32, dump_enabled: bool) -> (r:
        MediaStep)
        ensures
            *final(self) == (CameraSink { format, width, height, ..*old(self) }),
            r == media_step(format, dump_enabled),
    {
        self.format = format;
        self.width = width;
        self.height = height;
        MediaStep {
            open_dump: format == FORMAT_H264 && dump_enabled,
            note_skipped: format != FORMAT_H264 && dump_enabled,
            start_decoder: format == FORMAT_H264,
        }
    }

    /// A sample arrived: whether it is dumped. The dump stops at its cap.
    pub fn on_sample(&mut self) -> (r: DumpStep)
        requires
            old(self).frames < u64::MAX,
        ensures
            *final(self) == (CameraSink { frames: (old(self).frames + 1) as u64, ..*old(self) }),
            r == dump_step(old(self).dump, old(self).dumped_bytes),
    {
        self.frames = self.frames + 1;
        if self.dump && self.dumped_bytes < DUMP_CAP_BYTES {
            DumpStep::Write
        } else {
            DumpStep::Skip
        }
    }

    /// `len` bytes were dumped, or writing them failed: whether the dump just
    /// reached its cap. At the cap, and after a failure, it is closed.
    pub fn dumped(&mut self, ok: bool, len: usize) -> (capped: bool)
        requires
            old(self).dumped_bytes < DUMP_CAP_BYTES,
            len <= u64::MAX - DUMP_CAP_BYTES,
        ensures
            (*final(self), capped) == after_dump(*old(self), ok, len),
    {
        if !ok {
            self.dump = false;
            return false;
        }
        self.dumped_bytes = self.dumped_bytes + len as u64;
        if self.dumped_bytes >= DUMP_CAP_BYTES {
            self.dump = false;
            true
        } else {
            false
        }
    }
}

/// A start code is three bytes, 0 0 1, or four, 0 0 0 1, and nothing else is one. So
/// a unit holds a start code exactly where it holds the shorter one.
pub proof fn law_what_a_start_code_is(b: Seq<u8>, i: int)
    requires
        0 <= i <= b.len(),
    ensures
        start_code_len(b, i) == 3 <==> i + 3 <= b.len() && b.subrange(i, i + 3) == seq![0u8, 0, 1],
        start_code_len(b, i) == 4 <==> i + 4 <= b.len() && b.subrange(i, i + 4)
            == seq![0u8, 0, 0, 1],
        start_code_len(b, i) == 0 || start_code_len(b, i) == 3 || start_code_len(b, i) == 4,
        clean(b) <==> forall|k: int|
            #![trigger b.subrange(k, k + 3)]
            0 <= k && k + 3 <= b.len() ==> b.subrange(k, k + 3) != seq![0u8, 0, 1],
{
    lemma_short_code(b, i);
    lemma_long_code(b, i);
    if clean(b) {
        assert forall|k: int|
            #![trigger b.subrange(k, k + 3)]
            0 <= k && k + 3 <= b.len() implies b.subrange(k, k + 3) != seq![0u8, 0, 1] by {
            lemma_short_code(b, k);
            assert(start_code_len(b, k) == 0);
        }
    }
    if forall|k: int|
        #![trigger b.subrange(k, k + 3)]
        0 <= k && k + 3 <= b.len() ==> b.subrange(k, k + 3) != seq![0u8, 0, 1] {
        assert forall|k: int| 0 <= k <= b.len() implies start_code_len(b, k) == 0 by {
            lemma_short_code(b, k);
            if k + 3 <= b.len() {
                assert(b.subrange(k, k + 3) != seq![0u8, 0, 1]);
            }
            if start_code_len(b, k) == 4 {
                lemma_short_code(b, k + 1);
                assert(b.subrange(k + 1, k + 1 + 3) != seq![0u8, 0, 1]);
            }
        }
    }
}

proof fn lemma_short_code(b: Seq<u8>, i: int)
    requires
        0 <= i,
    ensures
        i + 3 <= b.len() && b[i] == 0 && b[i + 1] == 0 && b[i + 2] == 1 <==> i + 3 <= b.len()
            && b.subrange(i, i + 3) == seq![0u8, 0, 1],
{
    if i + 3 <= b.len() {
        let s = b.subrange(i, i + 3);
        assert(s[0] == b[i] && s[1] == b[i + 1] && s[2] == b[i + 2]);
        if b[i] == 0 && b[i + 1] == 0 && b[i + 2] == 1 {
            assert(s =~= seq![0u8, 0, 1]);
        }
    }
}

proof fn lemma_long_code(b: Seq<u8>, i: int)
    requires
        0 <= i,
    ensures
        i + 4 <= b.len() && b[i] == 0 && b[i + 1] == 0 && b[i + 2] == 0 && b[i + 3] == 1 <==> i + 4
            <= b.len() && b.subrange(i, i + 4) == seq![0u8, 0, 0, 1],
{
    if i + 4 <= b.len() {
        let s = b.subrange(i, i + 4);
        assert(s[0] == b[i] && s[1] == b[i + 1] && s[2] == b[i + 2] && s[3] == b[i + 3]);
        if b[i] == 0 && b[i + 1] == 0 && b[i + 2] == 0 && b[i + 3] == 1 {
            assert(s =~= seq![0u8, 0, 0, 1]);
        }
    }
}

/// The low five bits of a unit's first byte say what it is: 7 and 8 are the two
/// parameter sets, which are kept as they came, 9 is left out, and all else goes to
/// the decoder behind its length in four bytes, most significant first.
pub proof fn law_what_becomes_of_a_unit(p: Parsed, nal: Seq<u8>, high: int, kind: int)
    requires
        0 < nal.len(),
        0 <= high < 8,
        0 <= kind < 32,
        nal[0] == 32 * high + kind,
    ensures
        parse_nal(p, Seq::empty()) == p,
        kind == 7 ==> parse_nal(p, nal) == (Parsed { sps: Some(nal), ..p }),
        kind == 8 ==> parse_nal(p, nal) == (Parsed { pps: Some(nal), ..p }),
        kind == 9 ==> parse_nal(p, nal) == p,
        kind != 7 && kind != 8 && kind != 9 ==> {
            let q = parse_nal(p, nal);
            let n = p.avcc.len() as int;
            &&& q.sps == p.sps && q.pps == p.pps
            &&& q.avcc.len() == n + 4 + nal.len()
            &&& q.avcc.subrange(0, n) == p.avcc
            &&& 0x100_0000 * q.avcc[n] + 0x1_0000 * q.avcc[n + 1] + 0x100 * q.avcc[n + 2]
                + q.avcc[n + 3] == nal.len() % 0x1_0000_0000
            &&& q.avcc.subrange(n + 4, q.avcc.len() as int) == nal
        },
{
    assert(nal_type(nal) == kind);
    if kind != 7 && kind != 8 && kind != 9 {
        let q = parse_nal(p, nal);
        let n = p.avcc.len() as int;
        wire::law_bytes_are_digits(0, (nal.len() % 0x1_0000_0000) as u32);
        assert(q.avcc.subrange(0, n) =~= p.avcc);
        assert(q.avcc.subrange(n + 4, q.avcc.len() as int) =~= nal);
    }
}

/// Units are taken in one after the other, the first first.
pub proof fn law_units_are_taken_in_order(p: Parsed, units: Seq<Seq<u8>>, last: Seq<u8>)
    ensures
        parse_nals(p, Seq::empty()) == p,
        parse_nals(p, units.push(last)) == parse_nal(parse_nals(p, units), last),
    decreases units.len(),
{
    let all = units.push(last);
    if units.len() == 0 {
        assert(all.subrange(1, 1) =~= Seq::<Seq<u8>>::empty());
        assert(parse_nals(parse_nal(p, last), all.subrange(1, 1)) == parse_nal(p, last));
    } else {
        let rest = units.subrange(1, units.len() as int);
        assert(all.subrange(1, all.len() as int) =~= rest.push(last));
        law_units_are_taken_in_order(parse_nal(p, units[0]), rest, last);
    }
}

/// A decoder is made once both parameter sets are known, and nothing is decoded
/// before; from then on every access unit that holds a slice is. What is decoded is
/// what the unit left.
pub proof fn law_when_units_are_decoded(r: DecodeStep, session: bool, p: Parsed)
    requires
        follows_unit(r, session, p),
    ensures
        r is Wait <==> !session && (p.sps is None || p.pps is None),
        r is BuildSession <==> !session && p.sps is Some && p.pps is Some,
        r is Decode <==> session && p.avcc.len() > 0,
        r is Nothing <==> session && p.avcc.len() == 0,
        r matches DecodeStep::BuildSession(a) ==> a@ == p.avcc,
        r matches DecodeStep::Decode(a) ==> a@ == p.avcc,
{
}

/// What waited for the decoder is decoded once it is made; that it could not be is
/// said once.
pub proof fn law_what_follows_the_attempt(warned: bool, avcc: Vec<u8>)
    ensures
        avcc@.len() > 0 ==> follows_attempt(warned, true, avcc) == DecodeStep::Decode(avcc),
        avcc@.len() == 0 ==> follows_attempt(warned, true, avcc) is Nothing,
        follows_attempt(false, false, avcc) == (DecodeStep::Failed { warn: true }),
        follows_attempt(true, false, avcc) == (DecodeStep::Failed { warn: false }),
{
}

/// Every frame is presented and no error is. What is logged is logged at most once a
/// second, and the first frame is; where dumps are enabled, what is logged is looked
/// at, and the first three of those are written out, numbered from 1.
pub proof fn law_what_the_decoder_delivers(s: CallbackState, now_ms: u64, dump: bool)
    requires
        s.decoded < u64::MAX,
        s.errors < u64::MAX,
    ensures
        ({
            let (t, step) = s.after_output(false, now_ms, dump);
            &&& t.errors == s.errors + 1
            &&& t.decoded == s.decoded && t.last_log_ms == s.last_log_ms && t.dumped_pngs
                == s.dumped_pngs
            &&& !step.present && !step.log && !step.inspect && step.dump is None
        }),
        ({
            let (t, step) = s.after_output(true, now_ms, dump);
            &&& t.decoded == s.decoded + 1 && t.errors == s.errors
            &&& step.present
            &&& step.log <==> (s.last_log_ms matches Some(before) ==> now_ms >= before + 1000)
            &&& step.inspect <==> step.log && dump
            &&& step.dump is Some <==> step.inspect && s.dumped_pngs < 3
            &&& step.dump matches Some(n) ==> n == s.dumped_pngs + 1 && t.dumped_pngs == n
            &&& step.dump is None ==> t.dumped_pngs == s.dumped_pngs
            &&& t.last_log_ms == (if step.log {
                Some(now_ms)
            } else {
                s.last_log_ms
            })
        }),
{
}

/// The camera is found by its id in capitals or in small letters, and by nothing of
/// another length.
pub proof fn law_how_the_camera_is_known(u: String)
    ensures
        u@ == "6F1B2C3D-4E5A-6B7C-8D9E-A0B1C2D3E4F0"@ ==> is_camera(Some(u)),
        u@ == "6f1b2c3d-4e5a-6b7c-8d9e-a0b1c2d3e4f0"@ ==> is_camera(Some(u)),
        u@.len() != 36 ==> !is_camera(Some(u)),
        !is_camera(None),
{
    reveal_strlit("6F1B2C3D-4E5A-6B7C-8D9E-A0B1C2D3E4F0");
    reveal_strlit("6f1b2c3d-4e5a-6b7c-8d9e-a0b1c2d3e4f0");
}

/// Case is ignored in the 26 ASCII letters and in nothing else: two characters count
/// as one exactly where they are the same, or a letter of the alphabet and its capital.
pub proof fn law_what_ignoring_case_means(c: char, d: char)
    ensures
        ascii_lower(c) == ascii_lower(d) <==> {
            ||| c == d
            ||| exists|k: int|
                0 <= k < 26 && c == #[trigger] "ABCDEFGHIJKLMNOPQRSTUVWXYZ"@[k] && d
                    == "abcdefghijklmnopqrstuvwxyz"@[k]
            ||| exists|k: int|
                0 <= k < 26 && d == #[trigger] "ABCDEFGHIJKLMNOPQRSTUVWXYZ"@[k] && c
                    == "abcdefghijklmnopqrstuvwxyz"@[k]
        },
        same_ignoring_case(seq![c], seq![d]) <==> ascii_lower(c) == ascii_lower(d),
{
    reveal_strlit("ABCDEFGHIJKLMNOPQRSTUVWXYZ");
    reveal_strlit("abcdefghijklmnopqrstuvwxyz");
    let upper = "ABCDEFGHIJKLMNOPQRSTUVWXYZ"@;
    let lower = "abcdefghijklmnopqrstuvwxyz"@;
    if 'A' <= c <= 'Z' {
        assert(c == upper[c as int - 65]);
        assert(ascii_lower(c) == lower[c as int - 65]);
    }
    if 'A' <= d <= 'Z' {
        assert(d == upper[d as int - 65]);
        assert(ascii_lower(d) == lower[d as int - 65]);
    }
    let (s, t) = (seq![c], seq![d]);
    assert(s[0] == c && t[0] == d);
}

/// The second stream is fed, and there is none where there are fewer than two.
pub proof fn law_which_stream_is_fed(streams: Seq<u32>, source: u32, sink: u32)
    ensures
        stream_to_feed(seq![source, sink] + streams) == Ok::<u32, FeedError>(sink),
        stream_to_feed(Seq::empty()) == Err::<u32, FeedError>(FeedError::NoSink(0)),
        stream_to_feed(seq![source]) == Err::<u32, FeedError>(FeedError::NoSink(1)),
{
}

/// Dumps are on where the variable says 1 or true, and nowhere else.
pub proof fn law_when_dumps_are_on(v: Seq<char>)
    ensures
        asks_for_dumps(Some(v)) <==> v == seq!['1'] || v == seq!['t', 'r', 'u', 'e'],
        !asks_for_dumps(None),
{
    reveal_strlit("1");
    reveal_strlit("true");
    assert("1"@ =~= seq!['1']);
    assert("true"@ =~= seq!['t', 'r', 'u', 'e']);
}

/// Only the format with the number 1 is decoded, and only it is dumped, where dumps
/// are on; that another one is not is said.
pub proof fn law_which_streams_are_decoded(format: u8, dumps: bool)
    ensures
        media_step(format, dumps).start_decoder <==> format == 1,
        media_step(format, dumps).open_dump <==> format == 1 && dumps,
        media_step(format, dumps).note_skipped <==> format != 1 && dumps,
{
}

/// A dump takes whole samples until it holds ten mebibytes, and is then closed for
/// good; a failure closes it too. What is counted is what was written.
pub proof fn law_dumps_stop_at_their_cap(s: CameraSink, len: usize)
    requires
        s.dumped_bytes < DUMP_CAP_BYTES,
        len <= u64::MAX - DUMP_CAP_BYTES,
    ensures
        dump_step(s.dump, s.dumped_bytes) == (if s.dump {
            DumpStep::Write
        } else {
            DumpStep::Skip
        }),
        forall|open: bool, held: u64|
            held >= 10 * 1024 * 1024 ==> #[trigger] dump_step(open, held) == DumpStep::Skip,
        after_dump(s, false, len) == (CameraSink { dump: false, ..s }, false),
        ({
            let (t, capped) = after_dump(s, true, len);
            &&& t.dumped_bytes == s.dumped_bytes + len
            &&& capped <==> s.dumped_bytes + len >= 10 * 1024 * 1024
            &&& t.dump <==> s.dump && !capped
            &&& t.frames == s.frames && t.format == s.format && t.width == s.width && t.height
                == s.height
        }),
{
}

/// The grid has a point every 64th part of an edge, and one for every pixel of an
/// edge that is shorter than 128. Brightness is summed over its points: changing one
/// pixel changes the sum by as much where the pixel is a point, and not otherwise.
pub proof fn law_brightness_sums_the_grid(
    plane: Seq<u8>,
    stride: int,
    width: int,
    height: int,
    x: int,
    y: int,
    v: u8,
)
    requires
        0 < width <= stride,
        0 < height,
        pixels::rows_fit(plane.len() as int, 0, stride, width, height),
        0 <= x < width,
        0 <= y < height,
    ensures
        grid_step(width) >= 1,
        width < 128 ==> grid_step(width) == 1,
        width >= 64 ==> 64 * grid_step(width) <= width < 64 * grid_step(width) + 64,
        ({
            let before = grid_luma(plane, stride, 0, width, height);
            let after = grid_luma(plane.update(y * stride + x, v), stride, 0, width, height);
            let on = x % grid_step(width) == 0 && y % grid_step(height) == 0;
            &&& after.1 == before.1
            &&& after.0 - before.0 == (if on {
                v - plane[y * stride + x]
            } else {
                0
            })
        }),
{
    lemma_grid_row(plane.len() as int, stride, width, height, y);
    lemma_grid_update(plane, stride, 0, width, height, x, y, v);
}

proof fn lemma_row_update(
    plane: Seq<u8>,
    row: int,
    from: int,
    width: int,
    step: int,
    k: int,
    v: u8,
)
    requires
        0 <= row,
        0 <= from,
        1 <= step,
        row + width <= plane.len(),
        0 <= k < plane.len(),
    ensures
        ({
            let before = row_luma(plane, row, from, width, step);
            let after = row_luma(plane.update(k, v), row, from, width, step);
            let on = row + from <= k < row + width && (k - row - from) % step == 0;
            &&& after.1 == before.1
            &&& after.0 - before.0 == (if on {
                v - plane[k]
            } else {
                0
            })
        }),
    decreases (if from < width { width - from } else { 0 }),
{
    if from < width {
        lemma_row_update(plane, row, from + step, width, step, k, v);
        let d = k - row - from;
        if 0 <= d < step {
            vstd::arithmetic::div_mod::lemma_small_mod(d as nat, step as nat);
        } else {
            vstd::arithmetic::div_mod::lemma_mod_sub_multiples_vanish(d, step);
            assert((-step + d) % step == d % step);
        }
    }
}

proof fn lemma_grid_update(
    plane: Seq<u8>,
    stride: int,
    from: int,
    width: int,
    height: int,
    x: int,
    y: int,
    v: u8,
)
    requires
        0 < width <= stride,
        0 < height,
        0 <= from,
        pixels::rows_fit(plane.len() as int, 0, stride, width, height),
        0 <= x < width,
        0 <= y < height,
        0 <= y * stride + x < plane.len(),
    ensures
        ({
            let k = y * stride + x;
            let before = grid_luma(plane, stride, from, width, height);
            let after = grid_luma(plane.update(k, v), stride, from, width, height);
            let on = from <= y && x % grid_step(width) == 0 && (y - from) % grid_step(height) == 0;
            &&& after.1 == before.1
            &&& after.0 - before.0 == (if on {
                v - plane[k]
            } else {
                0
            })
        }),
    decreases (if from < height { height - from } else { 0 }),
{
    if from < height {
        let k = y * stride + x;
        let step = grid_step(height);
        lemma_grid_row(plane.len() as int, stride, width, height, from);
        lemma_row_update(plane, from * stride, 0, width, grid_step(width), k, v);
        lemma_grid_update(plane, stride, from + step, width, height, x, y, v);
        if from < y {
            lemma_next_row(stride, width, from, y - from);
        } else if y < from {
            lemma_next_row(stride, width, y, from - y);
        }
        let d = y - from;
        if 0 <= d < step {
            vstd::arithmetic::div_mod::lemma_small_mod(d as nat, step as nat);
        } else {
            vstd::arithmetic::div_mod::lemma_mod_sub_multiples_vanish(d, step);
            assert((-step + d) % step == d % step);
        }
    }
}

/// The grid has as many points as it has columns times rows, the first of each at the
/// edge, and darkness adds up to nothing.
pub proof fn law_points_of_the_grid(
    plane: Seq<u8>,
    stride: int,
    width: int,
    height: int,
    columns: int,
    rows: int,
)
    requires
        0 < width <= stride,
        0 < height,
        pixels::rows_fit(plane.len() as int, 0, stride, width, height),
        (columns - 1) * grid_step(width) < width <= columns * grid_step(width),
        (rows - 1) * grid_step(height) < height <= rows * grid_step(height),
    ensures
        grid_luma(plane, stride, 0, width, height).1 == columns * rows,
        (forall|i: int| 0 <= i < plane.len() ==> plane[i] == 0) ==> grid_luma(
            plane,
            stride,
            0,
            width,
            height,
        ).0 == 0,
{
    lemma_grid_points(plane, stride, 0, width, height, columns, rows);
    if forall|i: int| 0 <= i < plane.len() ==> plane[i] == 0 {
        lemma_dark_grid(plane, stride, 0, width, height);
    }
}

proof fn lemma_row_points(plane: Seq<u8>, row: int, x: int, width: int, step: int, n: int)
    requires
        0 <= x < width,
        1 <= step,
        (n - 1) * step < width - x <= n * step,
    ensures
        row_luma(plane, row, x, width, step).1 == n,
    decreases width - x,
{
    assert((n - 1) * step == n * step - step) by (nonlinear_arith);
    assert(((n - 1) - 1) * step == n * step - 2 * step) by (nonlinear_arith);
    if x + step < width {
        lemma_row_points(plane, row, x + step, width, step, n - 1);
    } else {
        assert(n == 1) by (nonlinear_arith)
            requires
                1 <= step,
                (n - 1) * step < step,
                n * step > 0,
        ;
        assert(row_luma(plane, row, x + step, width, step) == (0int, 0int));
    }
}

proof fn lemma_grid_points(
    plane: Seq<u8>,
    stride: int,
    y: int,
    width: int,
    height: int,
    columns: int,
    rows: int,
)
    requires
        0 < width,
        0 <= y < height,
        (columns - 1) * grid_step(width) < width <= columns * grid_step(width),
        (rows - 1) * grid_step(height) < height - y <= rows * grid_step(height),
    ensures
        grid_luma(plane, stride, y, width, height).1 == columns * rows,
    decreases height - y,
{
    let step = grid_step(height);
    lemma_row_points(plane, y * stride, 0, width, grid_step(width), columns);
    assert((rows - 1) * step == rows * step - step) by (nonlinear_arith);
    assert(((rows - 1) - 1) * step == rows * step - 2 * step) by (nonlinear_arith);
    if y + step < height {
        lemma_grid_points(plane, stride, y + step, width, height, columns, rows - 1);
        assert(columns * (rows - 1) == columns * rows - columns) by (nonlinear_arith);
    } else {
        assert(rows == 1) by (nonlinear_arith)
            requires
                1 <= step,
                (rows - 1) * step < step,
                rows * step > 0,
        ;
        assert(grid_luma(plane, stride, y + step, width, height) == (0int, 0int));
    }
}

proof fn lemma_dark_row(plane: Seq<u8>, row: int, x: int, width: int, step: int)
    requires
        0 <= row,
        0 <= x,
        row + width <= plane.len(),
        forall|i: int| 0 <= i < plane.len() ==> plane[i] == 0,
    ensures
        row_luma(plane, row, x, width, step).0 == 0,
    decreases (if x < width { width - x } else { 0 }),
{
    if step > 0 && x < width {
        lemma_dark_row(plane, row, x + step, width, step);
    }
}

proof fn lemma_dark_grid(plane: Seq<u8>, stride: int, y: int, width: int, height: int)
    requires
        0 <= y,
        0 < width <= stride,
        pixels::rows_fit(plane.len() as int, 0, stride, width, height),
        forall|i: int| 0 <= i < plane.len() ==> plane[i] == 0,
    ensures
        grid_luma(plane, stride, y, width, height).0 == 0,
    decreases (if y < height { height - y } else { 0 }),
{
    if y < height {
        lemma_grid_row(plane.len() as int, stride, width, height, y);
        lemma_dark_row(plane, y * stride, 0, width, grid_step(width));
        lemma_dark_grid(plane, stride, y + grid_step(height), width, height);
    }
}

/// A frame finds room exactly while fewer wait than may. Frames that are dropped for
/// want of room and frames that are taken are counted, each once, and no others.
pub proof fn law_frames_are_counted(feed: CameraFeed, count: i32, capacity: i32, status: i32)
    requires
        feed.dropped_full < u64::MAX,
        feed.enqueued < u64::MAX,
    ensures
        feed.asked_for_room(count, capacity).1 <==> count < capacity,
        count < capacity ==> feed.asked_for_room(count, capacity).0 == feed,
        count >= capacity ==> feed.asked_for_room(count, capacity).0.dropped_full
            == feed.dropped_full + 1 && feed.asked_for_room(count, capacity).0.enqueued
            == feed.enqueued,
        feed.after_enqueue(0).enqueued == feed.enqueued + 1,
        feed.after_enqueue(0).dropped_full == feed.dropped_full,
        status != 0 ==> feed.after_enqueue(status) == feed,
{
}

/// An access unit is parsed on top of the parameter sets that are known, and starts
/// without slices.
pub proof fn law_parameter_sets_carry_over(d: H264Decoder)
    ensures
        d.sps matches Some(b) ==> d.parsed().sps == Some(b@),
        d.pps matches Some(b) ==> d.parsed().pps == Some(b@),
        d.sps is None ==> d.parsed().sps is None,
        d.pps is None ==> d.parsed().pps is None,
        d.parsed().avcc.len() == 0,
{
}

} // verus!
