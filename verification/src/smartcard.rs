//! Smart-card redirection: the bridge between the Mac's reader driver and the
//! client's card.
//!
//! The driver dials in over loopback and speaks a small request/reply protocol,
//! whose two sides are both laid down here. Each request becomes calls to the
//! client's reader; [`Session`] decides which call comes next and what the driver
//! is told in the end.
//!
//! Requests and replies (16-bit lengths most significant byte first):
//!
//! * `POWER_ON` (1): `[status]`, and where that is 0 `[atr_len][atr..]`
//! * `POWER_OFF` (2): `[status]`
//! * `TRANSMIT` (3) `[len:2][apdu..]`: `[status]`, and where that is 0
//!   `[len:2][response..]`
//! * `PRESENCE` (4): `[present]`

use crate::text;
use crate::wire;
use vstd::prelude::*;

verus! {

/// The port that the driver dials where nothing else is configured.
pub const DEFAULT_PORT: u16 = 40242;

pub const CMD_POWER_ON: u8 = 1;

pub const CMD_POWER_OFF: u8 = 2;

pub const CMD_TRANSMIT: u8 = 3;

pub const CMD_PRESENCE: u8 = 4;

/// The bit of a reader's state that says that a card is in it.
pub const SCARD_STATE_PRESENT: u32 = 0x20;

/// Connect alongside other users of the card.
pub const SCARD_SHARE_SHARED: u32 = 2;

/// Leave the card as it is when disconnecting.
pub const SCARD_LEAVE_CARD: u32 = 0;

/// Either of the two transmission protocols.
pub const SCARD_PROTOCOL_T0_OR_T1: u32 = 3;

/// The port in use, by the value of its variable.
pub fn port(value: Option<&str>) -> (r: u16)
    ensures
        r == text::port_or(
            match value {
                Some(v) => Some(v@),
                None => None,
            },
            DEFAULT_PORT,
        ),
{
    text::parse_port(value, DEFAULT_PORT)
}

/// A request of the driver.
pub enum Request {
    PowerOn,
    PowerOff,
    Transmit(Vec<u8>),
    Presence,
}

/// A request as it travels.
pub open spec fn request_bytes(r: Request) -> Seq<u8> {
    match r {
        Request::PowerOn => seq![CMD_POWER_ON],
        Request::PowerOff => seq![CMD_POWER_OFF],
        Request::Transmit(apdu) => seq![CMD_TRANSMIT] + wire::be16((apdu@.len() % 0x1_0000) as u16)
            + apdu@,
        Request::Presence => seq![CMD_PRESENCE],
    }
}

/// Lays a request out.
pub fn encode_request(r: &Request) -> (out: Vec<u8>)
    ensures
        out@ == request_bytes(*r),
{
    let mut out: Vec<u8> = Vec::new();
    match r {
        Request::PowerOn => {
            out.push(CMD_POWER_ON);
        },
        Request::PowerOff => {
            out.push(CMD_POWER_OFF);
        },
        Request::Transmit(apdu) => {
            out.push(CMD_TRANSMIT);
            wire::push_be16(&mut out, (apdu.len() as u64 % 0x1_0000) as u16);
            wire::push_all(&mut out, apdu.as_slice());
        },
        Request::Presence => {
            out.push(CMD_PRESENCE);
        },
    }
    assert(out@ =~= request_bytes(*r));
    out
}

/// What the bytes received so far amount to.
pub enum RequestParse {
    /// The request is not complete.
    NeedMore,
    /// A request, which takes this many bytes.
    Got(Request, usize),
    /// No request starts like this: the connection is closed.
    Unknown(u8),
}

/// Whether a parse is what the bytes amount to.
pub open spec fn parses_as(buf: Seq<u8>, r: RequestParse) -> bool {
    if buf.len() == 0 {
        r is NeedMore
    } else if buf[0] == CMD_POWER_ON {
        r matches RequestParse::Got(q, n) && q is PowerOn && n == 1
    } else if buf[0] == CMD_POWER_OFF {
        r matches RequestParse::Got(q, n) && q is PowerOff && n == 1
    } else if buf[0] == CMD_PRESENCE {
        r matches RequestParse::Got(q, n) && q is Presence && n == 1
    } else if buf[0] == CMD_TRANSMIT {
        if buf.len() < 3 || buf.len() < 3 + wire::be16_at(buf, 1) {
            r is NeedMore
        } else {
            let len = wire::be16_at(buf, 1) as int;
            &&& r matches RequestParse::Got(q, n)
            &&& n == 3 + len
            &&& q matches Request::Transmit(apdu)
            &&& apdu@ == buf.subrange(3, 3 + len)
        }
    } else {
        r == RequestParse::Unknown(buf[0])
    }
}

/// Reads a request off the front of what was received.
pub fn parse_request(buf: &[u8]) -> (r: RequestParse)
    ensures
        parses_as(buf@, r),
{
    if buf.len() == 0 {
        return RequestParse::NeedMore;
    }
    let op: u8 = buf[0];
    if op == CMD_POWER_ON {
        RequestParse::Got(Request::PowerOn, 1)
    } else if op == CMD_POWER_OFF {
        RequestParse::Got(Request::PowerOff, 1)
    } else if op == CMD_PRESENCE {
        RequestParse::Got(Request::Presence, 1)
    } else if op == CMD_TRANSMIT {
        if buf.len() < 3 {
            return RequestParse::NeedMore;
        }
        let len: usize = wire::read_be16(buf, 1) as usize;
        if buf.len() - 3 < len {
            return RequestParse::NeedMore;
        }
        RequestParse::Got(Request::Transmit(wire::copy_range(buf, 3, 3 + len)), 3 + len)
    } else {
        RequestParse::Unknown(op)
    }
}

/// The reply to a request to power the card on: its ATR, or that there is none.
/// An ATR that is too long for its length byte is sent as an empty one.
pub open spec fn power_on_reply(atr: Option<Seq<u8>>) -> Seq<u8> {
    match atr {
        Some(a) => if a.len() <= 255 {
            seq![0u8, a.len() as u8] + a
        } else {
            seq![0u8, 0u8]
        },
        None => seq![1u8],
    }
}

/// The reply to a transmission: the card's answer, or that it failed. An answer
/// too long for its length bytes is a failure.
pub open spec fn transmit_reply(answer: Option<Seq<u8>>) -> Seq<u8> {
    match answer {
        Some(a) => if a.len() <= 0xffff {
            seq![0u8] + wire::be16(a.len() as u16) + a
        } else {
            seq![1u8]
        },
        None => seq![1u8],
    }
}

/// The reply to a question for a card.
pub open spec fn presence_reply(present: bool) -> Seq<u8> {
    if present {
        seq![1u8]
    } else {
        seq![0u8]
    }
}

/// The reply to a request to power the card off.
pub open spec fn power_off_reply() -> Seq<u8> {
    seq![0u8]
}

fn encode_power_on(atr: &[u8]) -> (out: Vec<u8>)
    ensures
        out@ == power_on_reply(Some(atr@)),
{
    let mut out: Vec<u8> = Vec::new();
    out.push(0);
    if atr.len() <= 255 {
        out.push(atr.len() as u8);
        wire::push_all(&mut out, atr);
    } else {
        out.push(0);
    }
    assert(out@ =~= power_on_reply(Some(atr@)));
    out
}

fn encode_transmit(answer: &[u8]) -> (out: Vec<u8>)
    ensures
        out@ == transmit_reply(Some(answer@)),
{
    let mut out: Vec<u8> = Vec::new();
    if answer.len() <= 0xffff {
        out.push(0);
        wire::push_be16(&mut out, answer.len() as u16);
        wire::push_all(&mut out, answer);
    } else {
        out.push(1);
    }
    assert(out@ =~= transmit_reply(Some(answer@)));
    out
}

fn one_byte(b: u8) -> (out: Vec<u8>)
    ensures
        out@ == seq![b],
{
    let mut out: Vec<u8> = Vec::new();
    out.push(b);
    assert(out@ =~= seq![b]);
    out
}

/// A call to the client's reader.
pub enum ScardCall {
    EstablishContext,
    ListReaders { context: u64 },
    GetStatusChange { context: u64, reader: String, timeout: u32 },
    Connect { context: u64, reader: String, share_mode: u32, protocols: u32 },
    Status { card: u64 },
    Transmit { card: u64, protocol: u32, apdu: Vec<u8> },
    Disconnect { card: u64, disposition: u32 },
    ReleaseContext { context: u64 },
}

/// What to do next.
pub enum BridgeStep {
    /// Call the client's reader.
    Call(ScardCall),
    /// Send this to the driver.
    Reply(Vec<u8>),
    /// Nothing is left to release.
    Ended,
}

/// What a step amounts to.
pub enum Plan {
    Call(ScardCall),
    Reply(Seq<u8>),
    Ended,
}

/// Whether a step is the one that is planned.
pub open spec fn carries_out(r: BridgeStep, p: Plan) -> bool {
    match p {
        Plan::Call(c) => r == BridgeStep::Call(c),
        Plan::Reply(b) => r matches BridgeStep::Reply(v) && v@ == b,
        Plan::Ended => r is Ended,
    }
}

/// What the calls under way are for.
#[derive(Debug, Clone, Copy, PartialEq, Eq, Structural)]
pub enum Goal {
    Idle,
    Presence,
    PowerOn,
    Transmit,
    PowerOff,
    Teardown,
}

/// What came back from a call. `None` is a call that failed.
pub enum BridgeEvent {
    Context(Option<u64>),
    Readers(Option<Vec<String>>),
    /// The states of the reader that was asked about.
    States(Option<Vec<u32>>),
    /// The card and the protocol that was agreed on.
    Connected(Option<(u64, u32)>),
    /// The length of the card's ATR and the bytes it came in.
    Status(Option<(u32, Vec<u8>)>),
    Transmitted(Option<Vec<u8>>),
    Disconnected,
    Released,
}

/// One connection of the driver.
pub struct Session {
    /// The announced device that every call goes to.
    pub device_id: u32,
    pub context: Option<u64>,
    /// The first reader that the client lists.
    pub reader: Option<String>,
    pub card: Option<(u64, u32)>,
    pub goal: Goal,
}

/// The reply that ends a request when a call for it fails.
pub open spec fn failure_reply(goal: Goal) -> Seq<u8> {
    match goal {
        Goal::Presence => presence_reply(false),
        Goal::PowerOn => power_on_reply(None),
        Goal::Transmit => transmit_reply(None),
        _ => power_off_reply(),
    }
}

/// The next call toward finding or powering the card: a context, a reader, then
/// the card itself, each only once.
pub open spec fn toward_card(s: Session) -> Plan {
    match (s.context, s.reader) {
        (None, _) => Plan::Call(ScardCall::EstablishContext),
        (Some(context), None) => Plan::Call(ScardCall::ListReaders { context }),
        (Some(context), Some(reader)) => if s.goal == Goal::PowerOn {
            match s.card {
                None => Plan::Call(
                    ScardCall::Connect {
                        context,
                        reader,
                        share_mode: SCARD_SHARE_SHARED,
                        protocols: SCARD_PROTOCOL_T0_OR_T1,
                    },
                ),
                Some((card, _)) => Plan::Call(ScardCall::Status { card }),
            }
        } else {
            Plan::Call(ScardCall::GetStatusChange { context, reader, timeout: 0 })
        },
    }
}

/// The next call toward releasing everything.
pub open spec fn toward_end(s: Session) -> (Session, Plan) {
    match s.card {
        Some((card, _)) => (
            Session { card: None, goal: Goal::Teardown, ..s },
            Plan::Call(ScardCall::Disconnect { card, disposition: SCARD_LEAVE_CARD }),
        ),
        None => match s.context {
            Some(context) => (
                Session { context: None, goal: Goal::Teardown, ..s },
                Plan::Call(ScardCall::ReleaseContext { context }),
            ),
            None => (Session { goal: Goal::Idle, ..s }, Plan::Ended),
        },
    }
}

/// What a request leads to.
pub open spec fn begun(s: Session, q: Request) -> (Session, Plan) {
    match q {
        Request::Presence => {
            let t = Session { goal: Goal::Presence, ..s };
            (t, toward_card(t))
        },
        Request::PowerOn => {
            let t = Session { goal: Goal::PowerOn, ..s };
            (t, toward_card(t))
        },
        Request::Transmit(apdu) => match s.card {
            None => (Session { goal: Goal::Idle, ..s }, Plan::Reply(transmit_reply(None))),
            Some((card, protocol)) => (
                Session { goal: Goal::Transmit, ..s },
                Plan::Call(ScardCall::Transmit { card, protocol, apdu }),
            ),
        },
        Request::PowerOff => match s.card {
            None => (Session { goal: Goal::Idle, ..s }, Plan::Reply(power_off_reply())),
            Some((card, _)) => (
                Session { card: None, goal: Goal::PowerOff, ..s },
                Plan::Call(ScardCall::Disconnect { card, disposition: SCARD_LEAVE_CARD }),
            ),
        },
    }
}

/// A request that ends because a call for it failed.
pub open spec fn failed(s: Session) -> (Session, Plan) {
    (Session { goal: Goal::Idle, ..s }, Plan::Reply(failure_reply(s.goal)))
}

/// Whether one of some reader states has a card.
pub open spec fn any_present(states: Seq<u32>) -> bool {
    exists|i: int| 0 <= i < states.len() && has_card(#[trigger] states[i])
}

/// Whether a reader state has a card.
pub open spec fn has_card(state: u32) -> bool {
    state / SCARD_STATE_PRESENT % 2 == 1
}

/// The ATR within the bytes it came in.
pub open spec fn atr_of(length: u32, bytes: Seq<u8>) -> Seq<u8> {
    if length <= bytes.len() {
        bytes.subrange(0, length as int)
    } else {
        bytes
    }
}

/// What the outcome of a call leads to.
pub open spec fn continued(s: Session, e: BridgeEvent) -> (Session, Plan) {
    match e {
        BridgeEvent::Context(None) => failed(s),
        BridgeEvent::Context(Some(c)) => {
            let t = Session { context: Some(c), ..s };
            (t, toward_card(t))
        },
        BridgeEvent::Readers(None) => failed(s),
        BridgeEvent::Readers(Some(list)) => if list@.len() == 0 {
            failed(s)
        } else {
            let t = Session { reader: Some(list@[0]), ..s };
            (t, toward_card(t))
        },
        BridgeEvent::States(None) => failed(s),
        BridgeEvent::States(Some(states)) => (
            Session { goal: Goal::Idle, ..s },
            Plan::Reply(presence_reply(any_present(states@))),
        ),
        BridgeEvent::Connected(None) => failed(s),
        BridgeEvent::Connected(Some((card, protocol))) => {
            let t = Session { card: Some((card, protocol)), ..s };
            (t, Plan::Call(ScardCall::Status { card }))
        },
        BridgeEvent::Status(None) => failed(s),
        BridgeEvent::Status(Some((length, bytes))) => (
            Session { goal: Goal::Idle, ..s },
            Plan::Reply(power_on_reply(Some(atr_of(length, bytes@)))),
        ),
        BridgeEvent::Transmitted(None) => failed(s),
        BridgeEvent::Transmitted(Some(answer)) => (
            Session { goal: Goal::Idle, ..s },
            Plan::Reply(transmit_reply(Some(answer@))),
        ),
        BridgeEvent::Disconnected => if s.goal == Goal::Teardown {
            toward_end(s)
        } else {
            (Session { goal: Goal::Idle, ..s }, Plan::Reply(power_off_reply()))
        },
        BridgeEvent::Released => (Session { goal: Goal::Idle, ..s }, Plan::Ended),
    }
}

impl Session {
    /// A driver that just dialled in.
    pub fn new(device_id: u32) -> (r: Self)
        ensures
            r.device_id == device_id,
            r.context is None,
            r.reader is None,
            r.card is None,
            r.goal == Goal::Idle,
    {
        Session { device_id, context: None, reader: None, card: None, goal: Goal::Idle }
    }

    fn advance(&self) -> (r: BridgeStep)
        ensures
            carries_out(r, toward_card(*self)),
    {
        match self.context {
            None => BridgeStep::Call(ScardCall::EstablishContext),
            Some(context) => match &self.reader {
                None => BridgeStep::Call(ScardCall::ListReaders { context }),
                Some(reader) => {
                    let reader = reader.clone();
                    if self.goal == Goal::PowerOn {
                        match self.card {
                            None => BridgeStep::Call(
                                ScardCall::Connect {
                                    context,
                                    reader,
                                    share_mode: SCARD_SHARE_SHARED,
                                    protocols: SCARD_PROTOCOL_T0_OR_T1,
                                },
                            ),
                            Some((card, _)) => BridgeStep::Call(ScardCall::Status { card }),
                        }
                    } else {
                        BridgeStep::Call(ScardCall::GetStatusChange { context, reader, timeout: 0 })
                    }
                },
            },
        }
    }

    fn fail(&mut self) -> (r: BridgeStep)
        ensures
            *final(self) == failed(*old(self)).0,
            carries_out(r, failed(*old(self)).1),
    {
        let code: u8 = match self.goal {
            Goal::Presence => 0,
            Goal::PowerOn => 1,
            Goal::Transmit => 1,
            _ => 0,
        };
        self.goal = Goal::Idle;
        BridgeStep::Reply(one_byte(code))
    }

    /// The driver sent a request.
    pub fn begin(&mut self, request: Request) -> (r: BridgeStep)
        ensures
            *final(self) == begun(*old(self), request).0,
            carries_out(r, begun(*old(self), request).1),
    {
        match request {
            Request::Presence => {
                self.goal = Goal::Presence;
                self.advance()
            },
            Request::PowerOn => {
                self.goal = Goal::PowerOn;
                self.advance()
            },
            Request::Transmit(apdu) => match self.card {
                None => {
                    self.goal = Goal::Idle;
                    BridgeStep::Reply(one_byte(1))
                },
                Some((card, protocol)) => {
                    self.goal = Goal::Transmit;
                    BridgeStep::Call(ScardCall::Transmit { card, protocol, apdu })
                },
            },
            Request::PowerOff => match self.card {
                None => {
                    self.goal = Goal::Idle;
                    BridgeStep::Reply(one_byte(0))
                },
                Some((card, _)) => {
                    self.card = None;
                    self.goal = Goal::PowerOff;
                    BridgeStep::Call(
                        ScardCall::Disconnect { card, disposition: SCARD_LEAVE_CARD },
                    )
                },
            },
        }
    }

    /// A call to the client's reader returned.
    pub fn on_event(&mut self, event: BridgeEvent) -> (r: BridgeStep)
        ensures
            *final(self) == continued(*old(self), event).0,
            carries_out(r, continued(*old(self), event).1),
    {
        match event {
            BridgeEvent::Context(c) => match c {
                None => self.fail(),
                Some(c) => {
                    self.context = Some(c);
                    self.advance()
                },
            },
            BridgeEvent::Readers(list) => match list {
                None => self.fail(),
                Some(list) => {
                    if list.len() == 0 {
                        self.fail()
                    } else {
                        self.reader = Some(list[0].clone());
                        self.advance()
                    }
                },
            },
            BridgeEvent::States(states) => match states {
                None => self.fail(),
                Some(states) => {
                    self.goal = Goal::Idle;
                    if present_in(states.as_slice()) {
                        BridgeStep::Reply(one_byte(1))
                    } else {
                        BridgeStep::Reply(one_byte(0))
                    }
                },
            },
            BridgeEvent::Connected(c) => match c {
                None => self.fail(),
                Some((card, protocol)) => {
                    self.card = Some((card, protocol));
                    BridgeStep::Call(ScardCall::Status { card })
                },
            },
            BridgeEvent::Status(s) => match s {
                None => self.fail(),
                Some((length, bytes)) => {
                    self.goal = Goal::Idle;
                    let n: usize = if length as u64 <= bytes.len() as u64 {
                        length as usize
                    } else {
                        bytes.len()
                    };
                    let atr = wire::copy_range(bytes.as_slice(), 0, n);
                    assert(atr@ =~= atr_of(length, bytes@));
                    BridgeStep::Reply(encode_power_on(atr.as_slice()))
                },
            },
            BridgeEvent::Transmitted(a) => match a {
                None => self.fail(),
                Some(answer) => {
                    self.goal = Goal::Idle;
                    BridgeStep::Reply(encode_transmit(answer.as_slice()))
                },
            },
            BridgeEvent::Disconnected => {
                if self.goal == Goal::Teardown {
                    self.teardown()
                } else {
                    self.goal = Goal::Idle;
                    BridgeStep::Reply(one_byte(0))
                }
            },
            BridgeEvent::Released => {
                self.goal = Goal::Idle;
                BridgeStep::Ended
            },
        }
    }

    /// The driver hung up: releases the card, then the context.
    pub fn teardown(&mut self) -> (r: BridgeStep)
        ensures
            *final(self) == toward_end(*old(self)).0,
            carries_out(r, toward_end(*old(self)).1),
    {
        match self.card {
            Some((card, _)) => {
                self.card = None;
                self.goal = Goal::Teardown;
                BridgeStep::Call(ScardCall::Disconnect { card, disposition: SCARD_LEAVE_CARD })
            },
            None => match self.context {
                Some(context) => {
                    self.context = None;
                    self.goal = Goal::Teardown;
                    BridgeStep::Call(ScardCall::ReleaseContext { context })
                },
                None => {
                    self.goal = Goal::Idle;
                    BridgeStep::Ended
                },
            },
        }
    }
}

fn present_in(states: &[u32]) -> (r: bool)
    ensures
        r == any_present(states@),
{
    let mut i: usize = 0;
    while i < states.len()
        invariant
            i <= states@.len(),
            forall|j: int| 0 <= j < i ==> !has_card(#[trigger] states@[j]),
        decreases states@.len() - i,
    {
        if states[i] / SCARD_STATE_PRESENT % 2 == 1 {
            assert(has_card(states@[i as int]));
            return true;
        }
        i = i + 1;
    }
    false
}

/// What the driver writes is what the bridge reads, whatever follows it on the
/// wire. Only a command too long for its length bytes is not.
pub proof fn law_requests_arrive(q: Request, more: Seq<u8>, r: RequestParse)
    requires
        q matches Request::Transmit(apdu) ==> apdu@.len() <= 0xffff,
        parses_as(request_bytes(q) + more, r),
    ensures
        r matches RequestParse::Got(got, n) && n == request_bytes(q).len() && (match q {
            Request::Transmit(apdu) => got matches Request::Transmit(a) && a@ == apdu@,
            _ => got == q,
        }),
{
    let buf = request_bytes(q) + more;
    match q {
        Request::Transmit(apdu) => {
            let len = apdu@.len() as u16;
            assert(buf.subrange(1, 3) =~= wire::be16(len));
            wire::law_read_undoes_write(buf, 1, len, 0);
            assert(buf.subrange(3, 3 + len) =~= apdu@);
        },
        _ => {
            assert(buf[0] == request_bytes(q)[0]);
        },
    }
}

/// A request that is cut short is waited for, never misread: no proper part of a
/// request is taken for a request.
pub proof fn law_partial_requests_wait(q: Request, n: int, r: RequestParse)
    requires
        q matches Request::Transmit(apdu) ==> apdu@.len() <= 0xffff,
        0 <= n < request_bytes(q).len(),
        parses_as(request_bytes(q).subrange(0, n), r),
    ensures
        r is NeedMore,
{
    let whole = request_bytes(q);
    let buf = whole.subrange(0, n);
    match q {
        Request::Transmit(apdu) => {
            let len = apdu@.len() as u16;
            if n >= 3 {
                assert(buf.subrange(1, 3) =~= wire::be16(len));
                wire::law_read_undoes_write(buf, 1, len, 0);
            }
        },
        _ => {},
    }
}

/// Once the card is powered off the driver gets no answer from it, until it is
/// powered on again.
pub proof fn law_no_answer_without_power(s: Session, apdu: Vec<u8>)
    ensures
        begun(begun(s, Request::PowerOff).0, Request::Transmit(apdu)).1 == Plan::Reply(
            transmit_reply(None),
        ),
{
}

/// The end of a connection releases the card and the context, each once, and
/// then nothing is left.
pub proof fn law_teardown_releases_everything(s: Session)
    ensures
        ({
            let (s1, p1) = toward_end(s);
            let (s2, p2) = continued(s1, BridgeEvent::Disconnected);
            match (s.card, s.context) {
                (Some((card, _)), Some(context)) => {
                    &&& p1 == Plan::Call(
                        ScardCall::Disconnect { card, disposition: SCARD_LEAVE_CARD },
                    )
                    &&& p2 == Plan::Call(ScardCall::ReleaseContext { context })
                    &&& s2.card is None && s2.context is None
                    &&& continued(s2, BridgeEvent::Released).1 is Ended
                },
                (Some((card, _)), None) => {
                    &&& p1 == Plan::Call(
                        ScardCall::Disconnect { card, disposition: SCARD_LEAVE_CARD },
                    )
                    &&& p2 is Ended
                    &&& s2.card is None && s2.context is None
                },
                (None, Some(context)) => {
                    &&& p1 == Plan::Call(ScardCall::ReleaseContext { context })
                    &&& s1.card is None && s1.context is None
                    &&& continued(s1, BridgeEvent::Released).1 is Ended
                },
                (None, None) => p1 is Ended,
            }
        }),
{
}

/// A request starts with its number: 1 for power, 2 for no power, 3 for a command,
/// 4 for the question whether a card is there. Only a command goes on: with as much of
/// its length as fits two bytes, the more significant first, and its bytes as they are.
pub proof fn law_how_requests_travel(q: Request)
    ensures
        request_bytes(q)[0] == (match q {
            Request::PowerOn => 1u8,
            Request::PowerOff => 2u8,
            Request::Transmit(_) => 3u8,
            Request::Presence => 4u8,
        }),
        match q {
            Request::Transmit(apdu) => {
                let b = request_bytes(q);
                &&& b.len() == 3 + apdu@.len()
                &&& 0x100 * b[1] + b[2] == apdu@.len() % 0x1_0000
                &&& forall|i: int| 0 <= i < apdu@.len() ==> #[trigger] b[3 + i] == apdu@[i]
            },
            _ => request_bytes(q).len() == 1,
        },
{
    match q {
        Request::Transmit(apdu) => {
            let len = (apdu@.len() % 0x1_0000) as u16;
            wire::law_bytes_are_digits(len, 0);
        },
        _ => {},
    }
}

/// What starts with none of the four numbers is no request, and what starts with
/// nothing is not one yet. A command is complete when as many bytes follow as its
/// length says, and no sooner.
pub proof fn law_when_a_request_is_there(buf: Seq<u8>, r: RequestParse)
    requires
        parses_as(buf, r),
    ensures
        r is NeedMore <==> buf.len() == 0 || (buf[0] == 3 && (buf.len() < 3 || buf.len() < 3 + 0x100
            * buf[1] + buf[2])),
        r is Unknown <==> buf.len() > 0 && (buf[0] == 0 || buf[0] > 4),
        r matches RequestParse::Unknown(b) ==> b == buf[0],
        r matches RequestParse::Got(q, n) ==> match q {
            Request::PowerOn => buf[0] == 1 && n == 1,
            Request::PowerOff => buf[0] == 2 && n == 1,
            Request::Transmit(apdu) => buf[0] == 3 && n == 3 + apdu@.len() && apdu@
                == buf.subrange(3, n as int) && apdu@.len() == 0x100 * buf[1] + buf[2],
            Request::Presence => buf[0] == 4 && n == 1,
        },
{
    wire::law_reading_sums_digits(buf, 1);
}

/// A reply starts with 0 for success and 1 for failure, but for the question for a
/// card, where 1 is yes and 0 is no. An ATR follows its length in one byte, an
/// answer its length in two, the more significant first; both as the card gave them.
pub proof fn law_how_replies_travel(a: Seq<u8>)
    ensures
        power_on_reply(None) == seq![1u8],
        transmit_reply(None) == seq![1u8],
        power_off_reply() == seq![0u8],
        presence_reply(true) == seq![1u8],
        presence_reply(false) == seq![0u8],
        a.len() <= 255 ==> {
            let b = power_on_reply(Some(a));
            &&& b.len() == 2 + a.len()
            &&& b[0] == 0 && b[1] == a.len()
            &&& b.subrange(2, b.len() as int) == a
        },
        a.len() > 255 ==> power_on_reply(Some(a)) == seq![0u8, 0u8],
        a.len() <= 0xffff ==> {
            let b = transmit_reply(Some(a));
            &&& b.len() == 3 + a.len()
            &&& b[0] == 0 && 0x100 * b[1] + b[2] == a.len()
            &&& b.subrange(3, b.len() as int) == a
        },
        a.len() > 0xffff ==> transmit_reply(Some(a)) == seq![1u8],
{
    if a.len() <= 255 {
        let b = power_on_reply(Some(a));
        assert(b.subrange(2, b.len() as int) =~= a);
    }
    if a.len() <= 0xffff {
        let b = transmit_reply(Some(a));
        wire::law_bytes_are_digits(a.len() as u16, 0);
        assert(b.subrange(3, b.len() as int) =~= a);
    }
}

/// A card is there exactly where one of the reader's states has the bit worth 32.
pub proof fn law_when_a_card_is_there(states: Seq<u32>)
    ensures
        any_present(states) <==> exists|i: int|
            0 <= i < states.len() && (#[trigger] states[i] / 32) % 2 == 1,
{
    if any_present(states) {
        let i = choose|i: int| 0 <= i < states.len() && has_card(#[trigger] states[i]);
        assert((states[i] / 32) % 2 == 1);
    }
    if exists|i: int| 0 <= i < states.len() && (#[trigger] states[i] / 32) % 2 == 1 {
        let i = choose|i: int| 0 <= i < states.len() && (#[trigger] states[i] / 32) % 2 == 1;
        assert(has_card(states[i]));
    }
}

/// Powering the card on goes from a context to the first reader, to the card in it,
/// shared and over either protocol, to its ATR, of which the driver gets as much as
/// its length says. The card and its protocol are kept.
pub proof fn law_powering_on_runs_through(
    s: Session,
    context: u64,
    readers: Vec<String>,
    card: u64,
    protocol: u32,
    length: u32,
    atr: Vec<u8>,
)
    requires
        s.context is None,
        s.reader is None,
        s.card is None,
        readers@.len() > 0,
        length <= atr@.len(),
    ensures
        ({
            let (s1, p1) = begun(s, Request::PowerOn);
            let (s2, p2) = continued(s1, BridgeEvent::Context(Some(context)));
            let (s3, p3) = continued(s2, BridgeEvent::Readers(Some(readers)));
            let (s4, p4) = continued(s3, BridgeEvent::Connected(Some((card, protocol))));
            let (s5, p5) = continued(s4, BridgeEvent::Status(Some((length, atr))));
            &&& p1 == Plan::Call(ScardCall::EstablishContext)
            &&& p2 == Plan::Call(ScardCall::ListReaders { context })
            &&& p3 == Plan::Call(
                ScardCall::Connect { context, reader: readers@[0], share_mode: 2, protocols: 3 },
            )
            &&& p4 == Plan::Call(ScardCall::Status { card })
            &&& p5 == Plan::Reply(power_on_reply(Some(atr@.subrange(0, length as int))))
            &&& s5.card == Some((card, protocol))
            &&& s5.context == Some(context)
            &&& s5.reader == Some(readers@[0])
            &&& s5.goal == Goal::Idle
            &&& s5.device_id == s.device_id
        }),
{
}

/// The question for a card is put to the first reader, without waiting, and what its
/// states say is what the driver hears; the card itself is left alone.
pub proof fn law_asking_for_a_card(
    s: Session,
    context: u64,
    readers: Vec<String>,
    states: Vec<u32>,
)
    requires
        s.context is None,
        s.reader is None,
        readers@.len() > 0,
    ensures
        ({
            let (s1, p1) = begun(s, Request::Presence);
            let (s2, p2) = continued(s1, BridgeEvent::Context(Some(context)));
            let (s3, p3) = continued(s2, BridgeEvent::Readers(Some(readers)));
            let (s4, p4) = continued(s3, BridgeEvent::States(Some(states)));
            &&& p1 == Plan::Call(ScardCall::EstablishContext)
            &&& p2 == Plan::Call(ScardCall::ListReaders { context })
            &&& p3 == Plan::Call(
                ScardCall::GetStatusChange { context, reader: readers@[0], timeout: 0 },
            )
            &&& p4 == Plan::Reply(seq![if any_present(states@) { 1u8 } else { 0u8 }])
            &&& s4.card == s.card
            &&& s4.context == Some(context)
            &&& s4.reader == Some(readers@[0])
            &&& begun(s4, Request::Presence).1 == p3
        }),
{
}

/// A command goes to the card that is powered, over its protocol and unaltered, and
/// what the card answers goes to the driver unaltered. Nothing else changes.
pub proof fn law_commands_reach_the_card(
    s: Session,
    card: u64,
    protocol: u32,
    apdu: Vec<u8>,
    answer: Vec<u8>,
)
    requires
        s.card == Some((card, protocol)),
        s.goal == Goal::Idle,
    ensures
        ({
            let (s1, p1) = begun(s, Request::Transmit(apdu));
            let (s2, p2) = continued(s1, BridgeEvent::Transmitted(Some(answer)));
            &&& p1 == Plan::Call(ScardCall::Transmit { card, protocol, apdu })
            &&& p2 == Plan::Reply(transmit_reply(Some(answer@)))
            &&& s2 == s
        }),
{
}

/// A call that fails ends the request that it was made for: no card is there, or
/// the request has failed. What was established before stays.
pub proof fn law_failed_calls_are_told(s: Session, e: BridgeEvent)
    requires
        match e {
            BridgeEvent::Context(None) => true,
            BridgeEvent::Readers(None) => true,
            BridgeEvent::Readers(Some(list)) => list@.len() == 0,
            BridgeEvent::States(None) => true,
            BridgeEvent::Connected(None) => true,
            BridgeEvent::Status(None) => true,
            BridgeEvent::Transmitted(None) => true,
            _ => false,
        },
        s.goal == Goal::Presence || s.goal == Goal::PowerOn || s.goal == Goal::Transmit,
    ensures
        continued(s, e) == (
            Session { goal: Goal::Idle, ..s },
            Plan::Reply(seq![if s.goal == Goal::Presence { 0u8 } else { 1u8 }]),
        ),
{
    assert(presence_reply(false) =~= seq![0u8]);
}

/// Powering off lets go of the card and leaves it as it is; without a card there is
/// nothing to do. Either way it succeeds.
pub proof fn law_powering_off(s: Session)
    ensures
        match s.card {
            Some((card, _)) => {
                let (s1, p1) = begun(s, Request::PowerOff);
                let (s2, p2) = continued(s1, BridgeEvent::Disconnected);
                &&& p1 == Plan::Call(ScardCall::Disconnect { card, disposition: 0 })
                &&& p2 == Plan::Reply(seq![0u8])
                &&& s2 == (Session { card: None, goal: Goal::Idle, ..s })
            },
            None => begun(s, Request::PowerOff) == (
                Session { goal: Goal::Idle, ..s },
                Plan::Reply(seq![0u8]),
            ),
        },
{
}

/// A step does what is planned and nothing else: the same call, or a reply of the same
/// bytes.
pub proof fn law_steps_do_what_is_planned(r: BridgeStep, call: ScardCall, reply: Seq<u8>)
    ensures
        carries_out(r, Plan::Call(call)) <==> r == BridgeStep::Call(call),
        carries_out(r, Plan::Reply(reply)) <==> (r matches BridgeStep::Reply(b) && b@ == reply),
        carries_out(r, Plan::Ended) <==> r is Ended,
{
}

} // verus!
