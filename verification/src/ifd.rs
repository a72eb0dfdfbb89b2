//! The reader driver that the Mac's smart-card service loads.
//!
//! The service calls the `IFDH*` entry points; each is forwarded to the bridge
//! over a connection that is dialled on demand and dropped after any failure.
//! The entry points here take the outcome of that exchange and say what the
//! service is told and what the driver remembers.

#![allow(non_snake_case)]

use crate::smartcard;
use crate::wire;
use vstd::prelude::*;

verus! {

pub const IFD_SUCCESS: i32 = 0;

pub const IFD_ERROR_TAG: i32 = 600;

pub const IFD_ERROR_POWER_ACTION: i32 = 608;

pub const IFD_COMMUNICATION_ERROR: i32 = 612;

pub const IFD_NOT_SUPPORTED: i32 = 614;

pub const IFD_ICC_PRESENT: i32 = 615;

pub const IFD_ICC_NOT_PRESENT: i32 = 616;

pub const IFD_POWER_UP: u32 = 500;

pub const IFD_POWER_DOWN: u32 = 501;

pub const IFD_RESET: u32 = 502;

pub const TAG_IFD_ATR: u32 = 0x0303;

pub const TAG_IFD_SLOT_THREAD_SAFE: u32 = 0x0FAC;

pub const TAG_IFD_THREAD_SAFE: u32 = 0x0FAD;

pub const TAG_IFD_SLOTS_NUMBER: u32 = 0x0FAE;

pub const TAG_IFD_SIMULTANEOUS_ACCESS: u32 = 0x0FAF;

/// The size of the buffer that an ATR is handed over in.
pub const MAX_ATR: usize = 33;

/// The header that goes with a transmission.
#[derive(Debug, Clone, Copy, PartialEq, Eq, Structural)]
pub struct ScardIoHeader {
    pub protocol: u32,
    pub length: u32,
}

/// What the driver keeps between calls.
pub struct State {
    /// Whether the connection to the bridge is up.
    pub connected: bool,
    /// The ATR of the card that is powered.
    pub atr: Vec<u8>,
}

/// How an exchange with the bridge went.
pub enum Outcome {
    /// Nobody listens: there is no client, or it redirected no reader.
    Unreachable,
    /// The connection failed on the way.
    Broken,
    /// The bridge answered with a failure status.
    Refused,
    /// The bridge answered with these bytes.
    Body(Vec<u8>),
}

/// Whether the connection is up after an exchange.
pub open spec fn connected_after(o: Outcome) -> bool {
    o is Refused || o is Body
}

/// The ATR that is remembered after an exchange, before its answer is looked at.
pub open spec fn atr_after(atr: Seq<u8>, o: Outcome) -> Seq<u8> {
    if o is Broken {
        Seq::empty()
    } else {
        atr
    }
}

impl State {
    /// A driver that has just been loaded.
    pub fn new() -> (r: Self)
        ensures
            !r.connected,
            r.atr@ == Seq::<u8>::empty(),
    {
        State { connected: false, atr: Vec::new() }
    }

    /// Forgets the connection, so that the next exchange dials again, and the ATR.
    pub fn reset(&mut self)
        ensures
            !final(self).connected,
            final(self).atr@ == Seq::<u8>::empty(),
    {
        self.connected = false;
        self.atr = Vec::new();
    }

    /// Takes note of how an exchange went.
    pub fn with_conn(&mut self, outcome: &Outcome)
        ensures
            final(self).connected == connected_after(*outcome),
            final(self).atr@ == atr_after(old(self).atr@, *outcome),
    {
        match outcome {
            Outcome::Unreachable => {
                self.connected = false;
            },
            Outcome::Broken => {
                self.reset();
            },
            Outcome::Refused => {
                self.connected = true;
            },
            Outcome::Body(_) => {
                self.connected = true;
            },
        }
    }
}

/// What the bytes of a reply amount to.
pub enum ReplyParse {
    /// The reply is not complete until this many bytes are there.
    NeedMore(usize),
    /// A failure status.
    Refused,
    /// What follows a status of success.
    Body(Vec<u8>),
}

/// Whether a parse is what the bytes of a reply amount to, where the status is
/// followed by a length of `width` bytes with the value `len`.
pub open spec fn reply_parses(buf: Seq<u8>, width: int, len: int, r: ReplyParse) -> bool {
    if buf.len() == 0 {
        r == ReplyParse::NeedMore(1)
    } else if buf[0] != 0 {
        r is Refused
    } else if buf.len() < 1 + width {
        r matches ReplyParse::NeedMore(n) && n == 1 + width
    } else if buf.len() < 1 + width + len {
        r matches ReplyParse::NeedMore(n) && n == 1 + width + len
    } else {
        r matches ReplyParse::Body(b) && b@ == buf.subrange(1 + width, 1 + width + len)
    }
}

/// Whether a parse is what the reply to a request for power amounts to.
pub open spec fn power_on_parses(buf: Seq<u8>, r: ReplyParse) -> bool {
    reply_parses(buf, 1, buf[1] as int, r)
}

/// Whether a parse is what the reply to a transmission amounts to.
pub open spec fn transmit_parses(buf: Seq<u8>, r: ReplyParse) -> bool {
    reply_parses(buf, 2, wire::be16_at(buf, 1) as int, r)
}

/// Reads the reply to a request for power.
pub fn read_power_on(buf: &[u8]) -> (r: ReplyParse)
    ensures
        power_on_parses(buf@, r),
{
    if buf.len() == 0 {
        return ReplyParse::NeedMore(1);
    }
    if buf[0] != 0 {
        return ReplyParse::Refused;
    }
    if buf.len() < 2 {
        return ReplyParse::NeedMore(2);
    }
    let len: usize = buf[1] as usize;
    if buf.len() - 2 < len {
        return ReplyParse::NeedMore(2 + len);
    }
    ReplyParse::Body(wire::copy_range(buf, 2, 2 + len))
}

/// Reads the reply to a transmission.
pub fn read_transmit(buf: &[u8]) -> (r: ReplyParse)
    ensures
        transmit_parses(buf@, r),
{
    if buf.len() == 0 {
        return ReplyParse::NeedMore(1);
    }
    if buf[0] != 0 {
        return ReplyParse::Refused;
    }
    if buf.len() < 3 {
        return ReplyParse::NeedMore(3);
    }
    let len: usize = wire::read_be16(buf, 1) as usize;
    if buf.len() - 3 < len {
        return ReplyParse::NeedMore(3 + len);
    }
    ReplyParse::Body(wire::copy_range(buf, 3, 3 + len))
}

/// Opens the reader: whatever was there before is stale.
pub fn IFDHCreateChannelByName(state: &mut State) -> (code: i32)
    ensures
        code == IFD_SUCCESS,
        !final(state).connected,
        final(state).atr@ == Seq::<u8>::empty(),
{
    state.reset();
    IFD_SUCCESS
}

/// Opens the reader by number.
pub fn IFDHCreateChannel(state: &mut State) -> (code: i32)
    ensures
        code == IFD_SUCCESS,
        !final(state).connected,
        final(state).atr@ == Seq::<u8>::empty(),
{
    state.reset();
    IFD_SUCCESS
}

/// Closes the reader, after a request to power the card off, however that went.
pub fn IFDHCloseChannel(state: &mut State, outcome: &Outcome) -> (code: i32)
    ensures
        code == IFD_SUCCESS,
        !final(state).connected,
        final(state).atr@ == Seq::<u8>::empty(),
{
    state.with_conn(outcome);
    state.reset();
    IFD_SUCCESS
}

/// The value of a capability, where there is one.
pub open spec fn capability(atr: Seq<u8>, tag: u32) -> Option<Seq<u8>> {
    if tag == TAG_IFD_SLOTS_NUMBER || tag == TAG_IFD_SIMULTANEOUS_ACCESS {
        Some(seq![1u8])
    } else if tag == TAG_IFD_THREAD_SAFE || tag == TAG_IFD_SLOT_THREAD_SAFE {
        Some(seq![0u8])
    } else if tag == TAG_IFD_ATR {
        Some(atr)
    } else {
        None
    }
}

/// Whether a capability is reported to a caller with room for `capacity` bytes.
pub open spec fn reports(
    r: (i32, Option<Vec<u8>>),
    value: Option<Seq<u8>>,
    capacity: Option<u32>,
    value_given: bool,
) -> bool {
    match (capacity, value) {
        (None, _) => r.0 == IFD_COMMUNICATION_ERROR && r.1 is None,
        (Some(cap), Some(value)) => if value_given && value.len() <= cap {
            &&& r.0 == IFD_SUCCESS
            &&& r.1 matches Some(v)
            &&& v@ == value
        } else {
            r.0 == IFD_ERROR_TAG && r.1 is None
        },
        (Some(_), None) => r.0 == IFD_ERROR_TAG && r.1 is None,
    }
}

/// Reports a capability. `capacity` is the size of the caller's buffer, where it
/// gave one, and `value_given` whether there is a buffer. What is returned beside
/// the code goes into the buffer, and its length is reported.
pub fn IFDHGetCapabilities(
    state: &State,
    tag: u32,
    capacity: Option<u32>,
    value_given: bool,
) -> (r: (i32, Option<Vec<u8>>))
    ensures
        reports(r, capability(state.atr@, tag), capacity, value_given),
{
    let cap: u32 = match capacity {
        None => return (IFD_COMMUNICATION_ERROR, None),
        Some(c) => c,
    };
    let mut value: Vec<u8> = Vec::new();
    if tag == TAG_IFD_SLOTS_NUMBER || tag == TAG_IFD_SIMULTANEOUS_ACCESS {
        value.push(1);
        assert(value@ =~= seq![1u8]);
    } else if tag == TAG_IFD_THREAD_SAFE || tag == TAG_IFD_SLOT_THREAD_SAFE {
        value.push(0);
        assert(value@ =~= seq![0u8]);
    } else if tag == TAG_IFD_ATR {
        value = wire::copy_range(state.atr.as_slice(), 0, state.atr.len());
        assert(value@ =~= state.atr@);
    } else {
        return (IFD_ERROR_TAG, None);
    }
    if !value_given || (cap as u64) < value.len() as u64 {
        (IFD_ERROR_TAG, None)
    } else {
        (IFD_SUCCESS, Some(value))
    }
}

/// There is nothing to set: accepted without effect.
pub fn IFDHSetCapabilities() -> (code: i32)
    ensures
        code == IFD_SUCCESS,
{
    IFD_SUCCESS
}

/// The client's own reader agrees on the protocol: whatever is asked is accepted.
pub fn IFDHSetProtocolParameters() -> (code: i32)
    ensures
        code == IFD_SUCCESS,
{
    IFD_SUCCESS
}

/// What a call to switch the power tells the service.
pub struct PowerResult {
    pub code: i32,
    /// What goes into the caller's ATR buffer.
    pub atr: Option<Vec<u8>>,
    /// What the caller's length is set to.
    pub length: Option<u32>,
}

/// The ATR that an exchange brought, if it is one that can be handed on.
pub open spec fn usable_atr(o: Outcome) -> Option<Seq<u8>> {
    match o {
        Outcome::Body(b) => if 0 < b@.len() <= MAX_ATR {
            Some(b@)
        } else {
            None
        },
        _ => None,
    }
}

/// Whether an action asks for power, or for a reset, which comes to the same.
pub open spec fn powers_up(action: u32) -> bool {
    action == IFD_POWER_UP || action == IFD_RESET
}

/// The request that an action makes of the bridge; an unknown action makes none.
pub fn power_request(action: u32) -> (r: Option<smartcard::Request>)
    ensures
        match r {
            Some(smartcard::Request::PowerOn) => powers_up(action),
            Some(smartcard::Request::PowerOff) => action == IFD_POWER_DOWN,
            Some(_) => false,
            None => !powers_up(action) && action != IFD_POWER_DOWN,
        },
{
    if action == IFD_POWER_UP || action == IFD_RESET {
        Some(smartcard::Request::PowerOn)
    } else if action == IFD_POWER_DOWN {
        Some(smartcard::Request::PowerOff)
    } else {
        None
    }
}

/// Whether an action on the card's power takes the driver from `before` to `after`
/// and is told as `r`.
pub open spec fn switches(
    r: PowerResult,
    before: State,
    after: State,
    action: u32,
    outcome: Outcome,
    atr_given: bool,
    length_given: bool,
) -> bool {
    if powers_up(action) {
        &&& after.connected == connected_after(outcome)
        &&& match usable_atr(outcome) {
            Some(atr) => {
                &&& after.atr@ == atr
                &&& if atr_given && length_given {
                    &&& r.code == IFD_SUCCESS
                    &&& r.atr matches Some(a)
                    &&& a@ == atr
                    &&& r.length == Some(atr.len() as u32)
                } else {
                    r.code == IFD_COMMUNICATION_ERROR && r.atr is None && r.length is None
                }
            },
            None => {
                &&& after.atr@ == Seq::<u8>::empty()
                &&& r.code == IFD_ERROR_POWER_ACTION
                &&& r.atr is None
                &&& r.length == (if length_given {
                    Some(0u32)
                } else {
                    None
                })
            },
        }
    } else if action == IFD_POWER_DOWN {
        &&& after.connected == connected_after(outcome)
        &&& after.atr@ == Seq::<u8>::empty()
        &&& r.code == IFD_SUCCESS
        &&& r.atr is None
        &&& r.length == (if length_given {
            Some(0u32)
        } else {
            None
        })
    } else {
        &&& after == before
        &&& r.code == IFD_NOT_SUPPORTED
        &&& r.atr is None
        &&& r.length is None
    }
}

/// Switches the card's power: up or reset fetches the ATR, down forgets it.
/// `atr_given` and `length_given` say which of the two results the caller has
/// room for. The length is a result only, whatever the caller left in it.
pub fn IFDHPowerICC(
    state: &mut State,
    action: u32,
    outcome: Outcome,
    atr_given: bool,
    length_given: bool,
) -> (r: PowerResult)
    ensures
        switches(r, *old(state), *final(state), action, outcome, atr_given, length_given),
{
    let cleared: Option<u32> = if length_given {
        Some(0)
    } else {
        None
    };
    if action == IFD_POWER_UP || action == IFD_RESET {
        state.with_conn(&outcome);
        match outcome {
            Outcome::Body(b) => {
                if b.len() > 0 && b.len() <= MAX_ATR {
                    let length: u32 = b.len() as u32;
                    state.atr = wire::copy_range(b.as_slice(), 0, b.len());
                    assert(state.atr@ =~= b@);
                    if !atr_given || !length_given {
                        return PowerResult {
                            code: IFD_COMMUNICATION_ERROR,
                            atr: None,
                            length: None,
                        };
                    }
                    return PowerResult { code: IFD_SUCCESS, atr: Some(b), length: Some(length) };
                }
            },
            _ => {},
        }
        state.atr = Vec::new();
        PowerResult { code: IFD_ERROR_POWER_ACTION, atr: None, length: cleared }
    } else if action == IFD_POWER_DOWN {
        state.with_conn(&outcome);
        state.atr = Vec::new();
        PowerResult { code: IFD_SUCCESS, atr: None, length: cleared }
    } else {
        PowerResult { code: IFD_NOT_SUPPORTED, atr: None, length: None }
    }
}

/// What a transmission tells the service.
pub struct TransmitResult {
    pub code: i32,
    /// What goes into the caller's buffer, and how long it is.
    pub response: Option<Vec<u8>>,
    /// What the caller's receive header is set to.
    pub recv_protocol: Option<u32>,
}

/// What a transmission with this outcome tells a caller with room for `capacity`
/// bytes.
pub open spec fn answered(
    protocol: u32,
    outcome: Outcome,
    capacity: Option<u32>,
    buffer_given: bool,
    recv_pci_given: bool,
) -> TransmitResult {
    match (capacity, outcome) {
        (Some(cap), Outcome::Body(b)) => if buffer_given && b@.len() <= cap {
            TransmitResult {
                code: IFD_SUCCESS,
                response: Some(b),
                recv_protocol: if recv_pci_given {
                    Some(protocol)
                } else {
                    None
                },
            }
        } else {
            TransmitResult {
                code: IFD_COMMUNICATION_ERROR,
                response: None,
                recv_protocol: None,
            }
        },
        _ => TransmitResult {
            code: IFD_COMMUNICATION_ERROR,
            response: None,
            recv_protocol: None,
        },
    }
}

/// Hands a command to the card and its answer back. `capacity` is the size of
/// the caller's buffer, where it gave one; without it there is no exchange.
pub fn IFDHTransmitToICC(
    state: &mut State,
    send_pci: ScardIoHeader,
    outcome: Outcome,
    capacity: Option<u32>,
    buffer_given: bool,
    recv_pci_given: bool,
) -> (r: TransmitResult)
    ensures
        capacity is None ==> *final(state) == *old(state),
        capacity is Some ==> {
            &&& final(state).connected == connected_after(outcome)
            &&& final(state).atr@ == atr_after(old(state).atr@, outcome)
        },
        r == answered(send_pci.protocol, outcome, capacity, buffer_given, recv_pci_given),
{
    let failure = TransmitResult {
        code: IFD_COMMUNICATION_ERROR,
        response: None,
        recv_protocol: None,
    };
    let cap: u32 = match capacity {
        None => return failure,
        Some(c) => c,
    };
    state.with_conn(&outcome);
    match outcome {
        Outcome::Body(b) => {
            if !buffer_given || (cap as u64) < b.len() as u64 {
                return failure;
            }
            let recv_protocol: Option<u32> = if recv_pci_given {
                Some(send_pci.protocol)
            } else {
                None
            };
            TransmitResult { code: IFD_SUCCESS, response: Some(b), recv_protocol }
        },
        _ => failure,
    }
}

/// No control code is supported. What is returned beside the code is the number
/// of bytes that came back.
pub fn IFDHControl() -> (r: (i32, u32))
    ensures
        r.0 == IFD_NOT_SUPPORTED,
        r.1 == 0,
{
    (IFD_NOT_SUPPORTED, 0)
}

/// What the service is told of a card's presence.
pub open spec fn presence_code(outcome: Outcome) -> i32 {
    if outcome matches Outcome::Body(b) && b@ == seq![1u8] {
        IFD_ICC_PRESENT
    } else {
        IFD_ICC_NOT_PRESENT
    }
}

/// Whether a card is present. No bridge, no card.
pub fn IFDHICCPresence(state: &mut State, outcome: &Outcome) -> (code: i32)
    ensures
        final(state).connected == connected_after(*outcome),
        final(state).atr@ == atr_after(old(state).atr@, *outcome),
        code == presence_code(*outcome),
{
    state.with_conn(outcome);
    match outcome {
        Outcome::Body(b) => {
            if b.len() == 1 && b[0] == 1 {
                assert(b@ =~= seq![1u8]);
                IFD_ICC_PRESENT
            } else {
                assert(b@.len() == 1 ==> b@[0] != 1);
                IFD_ICC_NOT_PRESENT
            }
        },
        _ => IFD_ICC_NOT_PRESENT,
    }
}

/// What the bridge answers is what the driver reads, whatever follows it on the
/// wire: an ATR that fits its length byte arrives whole, and a failure arrives
/// as one.
pub proof fn law_power_replies_arrive(atr: Option<Seq<u8>>, more: Seq<u8>, r: ReplyParse)
    requires
        power_on_parses(smartcard::power_on_reply(atr) + more, r),
        atr matches Some(a) ==> a.len() <= 255,
    ensures
        match atr {
            Some(a) => r matches ReplyParse::Body(b) && b@ == a,
            None => r is Refused,
        },
{
    let buf = smartcard::power_on_reply(atr) + more;
    match atr {
        Some(a) => {
            assert(buf[0] == 0);
            assert(buf[1] == a.len());
            assert(buf.subrange(2, 2 + a.len() as int) =~= a);
        },
        None => {
            assert(buf[0] == 1);
        },
    }
}

/// The card's answer arrives whole if it fits its length bytes; one that does not
/// arrives as a failure, and so does a failure.
pub proof fn law_transmit_replies_arrive(answer: Option<Seq<u8>>, more: Seq<u8>, r: ReplyParse)
    requires
        transmit_parses(smartcard::transmit_reply(answer) + more, r),
    ensures
        match answer {
            Some(a) => if a.len() <= 0xffff {
                r matches ReplyParse::Body(b) && b@ == a
            } else {
                r is Refused
            },
            None => r is Refused,
        },
{
    let buf = smartcard::transmit_reply(answer) + more;
    match answer {
        Some(a) => {
            if a.len() <= 0xffff {
                let len = a.len() as u16;
                assert(buf[0] == 0);
                assert(buf.subrange(1, 3) =~= wire::be16(len));
                wire::law_read_undoes_write(buf, 1, len, 0);
                assert(buf.subrange(3, 3 + len) =~= a);
            } else {
                assert(buf[0] == 1);
            }
        },
        None => {
            assert(buf[0] == 1);
        },
    }
}

/// A reply is refused exactly where it starts with anything but 0, and is complete
/// exactly where as many bytes follow its length as that says, in one byte for an
/// ATR and in two for an answer, the more significant first. The bytes are handed on
/// as they are, and what is still missing is counted right.
pub proof fn law_what_a_reply_says(buf: Seq<u8>, p: ReplyParse, t: ReplyParse)
    requires
        power_on_parses(buf, p),
        transmit_parses(buf, t),
    ensures
        p is Refused <==> buf.len() > 0 && buf[0] != 0,
        t is Refused <==> buf.len() > 0 && buf[0] != 0,
        p is Body <==> buf.len() >= 2 && buf[0] == 0 && buf.len() >= 2 + buf[1],
        t is Body <==> buf.len() >= 3 && buf[0] == 0 && buf.len() >= 3 + 0x100 * buf[1] + buf[2],
        p matches ReplyParse::Body(b) ==> b@ == buf.subrange(2, 2 + buf[1]),
        t matches ReplyParse::Body(b) ==> b@ == buf.subrange(3, 3 + 0x100 * buf[1] + buf[2]),
        p matches ReplyParse::NeedMore(n) ==> n == (if buf.len() == 0 {
            1
        } else if buf.len() == 1 {
            2
        } else {
            2 + buf[1]
        }),
        t matches ReplyParse::NeedMore(n) ==> n == (if buf.len() == 0 {
            1
        } else if buf.len() < 3 {
            3
        } else {
            3 + 0x100 * buf[1] + buf[2]
        }),
{
    wire::law_reading_sums_digits(buf, 1);
}

/// There is one slot, which one caller at a time may use, and no call is safe beside
/// another. The ATR is the one of the powered card. Nothing else is known.
pub proof fn law_which_capabilities_there_are(atr: Seq<u8>, tag: u32)
    ensures
        capability(atr, 0x0303) == Some(atr),
        capability(atr, 0x0FAC) == Some(seq![0u8]),
        capability(atr, 0x0FAD) == Some(seq![0u8]),
        capability(atr, 0x0FAE) == Some(seq![1u8]),
        capability(atr, 0x0FAF) == Some(seq![1u8]),
        capability(atr, tag) is Some <==> tag == 0x0303 || 0x0FAC <= tag <= 0x0FAF,
{
}

/// An ATR is handed on if it has one to 33 bytes, and then as it came.
pub proof fn law_which_atrs_are_handed_on(o: Outcome)
    ensures
        usable_atr(o) is Some <==> (o matches Outcome::Body(b) && 1 <= b@.len() <= 33),
        usable_atr(o) matches Some(a) ==> (o matches Outcome::Body(b) && a == b@),
{
}

/// The connection is up exactly where the bridge answered, and only a connection
/// that broke on the way makes the driver forget the ATR.
pub proof fn law_what_an_exchange_leaves(o: Outcome, atr: Seq<u8>)
    ensures
        match o {
            Outcome::Unreachable => !connected_after(o) && atr_after(atr, o) == atr,
            Outcome::Broken => !connected_after(o) && atr_after(atr, o).len() == 0,
            Outcome::Refused => connected_after(o) && atr_after(atr, o) == atr,
            Outcome::Body(_) => connected_after(o) && atr_after(atr, o) == atr,
        },
        forall|action: u32| #[trigger] powers_up(action) <==> action == 500 || action == 502,
{
}

/// A capability is reported whole, or not at all where the caller's buffer is missing
/// or too small; one that is not known is an error of its own.
pub proof fn law_capabilities_are_reported_whole(
    r: (i32, Option<Vec<u8>>),
    value: Seq<u8>,
    room: u32,
    value_given: bool,
)
    ensures
        reports(r, Some(value), Some(room), value_given) ==> (r.0 == 0 <==> value_given
            && value.len() <= room),
        reports(r, Some(value), Some(room), value_given) && r.0 == 0 ==> (r.1 matches Some(v)
            && v@ == value),
        reports(r, Some(value), Some(room), value_given) && r.0 != 0 ==> r.0 == 600 && r.1 is None,
        reports(r, None, Some(room), value_given) ==> r.0 == 600 && r.1 is None,
        reports(r, Some(value), None, value_given) ==> r.0 == 612 && r.1 is None,
{
}

/// Power up or a reset with a usable ATR succeeds, hands that ATR out with its length,
/// and keeps it; without one it fails, and no ATR is kept. Power down always succeeds
/// and forgets the ATR. Any other action is not supported and changes nothing.
pub proof fn law_what_switching_power_does(
    r: PowerResult,
    before: State,
    after: State,
    action: u32,
    outcome: Outcome,
    atr: Vec<u8>,
)
    ensures
        switches(r, before, after, action, Outcome::Body(atr), true, true) && (action == 500
            || action == 502) && 1 <= atr@.len() <= 33 ==> {
            &&& r.code == 0
            &&& r.atr matches Some(a) && a@ == atr@
            &&& r.length matches Some(n) && n == atr@.len()
            &&& after.atr@ == atr@ && after.connected
        },
        switches(r, before, after, action, outcome, true, true) && (action == 500 || action == 502)
            && !(outcome matches Outcome::Body(b) && 1 <= b@.len() <= 33) ==> r.code == 608
            && r.atr is None && r.length == Some(0u32) && after.atr@.len() == 0,
        switches(r, before, after, 501, outcome, true, true) ==> r.code == 0 && r.atr is None
            && r.length == Some(0u32) && after.atr@.len() == 0,
        switches(r, before, after, action, outcome, true, true) && action != 500 && action != 501
            && action != 502 ==> r.code == 614 && after == before,
{
}

/// The card's answer is handed on whole, with the protocol that was asked for, where
/// there is room for it. Anything else is a failure without an answer.
pub proof fn law_answers_are_handed_on_whole(
    protocol: u32,
    outcome: Outcome,
    answer: Vec<u8>,
    room: u32,
    buffer_given: bool,
)
    ensures
        ({
            let r = answered(protocol, Outcome::Body(answer), Some(room), buffer_given, true);
            &&& r.code == 0 <==> buffer_given && answer@.len() <= room
            &&& r.code == 0 ==> r.response == Some(answer) && r.recv_protocol == Some(protocol)
            &&& r.code != 0 ==> r.code == 612 && r.response is None && r.recv_protocol is None
        }),
        !(outcome is Body) ==> answered(protocol, outcome, Some(room), buffer_given, true).code
            == 612,
        answered(protocol, outcome, None, buffer_given, true).code == 612,
        answered(protocol, Outcome::Body(answer), Some(room), buffer_given, false).recv_protocol
            is None,
{
}

/// A card is there where the bridge answers with the one byte 1, and nowhere else.
pub proof fn law_when_the_service_sees_a_card(outcome: Outcome)
    ensures
        presence_code(outcome) == 615 <==> (outcome matches Outcome::Body(b) && b@.len() == 1
            && b@[0] == 1),
        presence_code(outcome) == 615 || presence_code(outcome) == 616,
{
    if let Outcome::Body(b) = outcome {
        if b@.len() == 1 && b@[0] == 1 {
            assert(b@ =~= seq![1u8]);
        }
    }
}

} // verus!
