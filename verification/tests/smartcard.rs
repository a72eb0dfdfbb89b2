use macrdp::ifd::{
    power_request, read_power_on, read_transmit, IFDHCloseChannel, IFDHControl, IFDHCreateChannel,
    IFDHCreateChannelByName, IFDHGetCapabilities, IFDHICCPresence, IFDHPowerICC,
    IFDHSetCapabilities, IFDHSetProtocolParameters, IFDHTransmitToICC, Outcome, ReplyParse,
    ScardIoHeader, State, IFD_COMMUNICATION_ERROR, IFD_ERROR_POWER_ACTION, IFD_ERROR_TAG,
    IFD_ICC_NOT_PRESENT, IFD_ICC_PRESENT, IFD_NOT_SUPPORTED, IFD_POWER_DOWN, IFD_POWER_UP,
    IFD_RESET, IFD_SUCCESS, TAG_IFD_ATR, TAG_IFD_SIMULTANEOUS_ACCESS, TAG_IFD_SLOTS_NUMBER,
    TAG_IFD_SLOT_THREAD_SAFE, TAG_IFD_THREAD_SAFE,
};
use macrdp::smartcard::{
    encode_request, parse_request, port, BridgeEvent, BridgeStep, Goal, Request, RequestParse,
    ScardCall, Session,
};

#[test]
fn requests_arrive() {
    assert_eq!(encode_request(&Request::PowerOn), vec![1]);
    assert_eq!(encode_request(&Request::PowerOff), vec![2]);
    assert_eq!(encode_request(&Request::Presence), vec![4]);
    let mut wire = encode_request(&Request::Transmit(vec![0, 0xa4, 4, 0]));
    assert_eq!(wire, vec![3, 0, 4, 0, 0xa4, 4, 0]);
    wire.push(4);
    match parse_request(&wire) {
        RequestParse::Got(Request::Transmit(apdu), used) => {
            assert_eq!(apdu, vec![0, 0xa4, 4, 0]);
            assert_eq!(used, 7);
            assert!(matches!(parse_request(&wire[used..]), RequestParse::Got(Request::Presence, 1)));
        }
        _ => panic!("a command"),
    }
    assert!(matches!(parse_request(&[1]), RequestParse::Got(Request::PowerOn, 1)));
    assert!(matches!(parse_request(&[2]), RequestParse::Got(Request::PowerOff, 1)));
    assert!(matches!(parse_request(&[9]), RequestParse::Unknown(9)));
    for n in 0..7 {
        assert!(matches!(parse_request(&wire[..n]), RequestParse::NeedMore));
    }
    let big = vec![7u8; 0xffff];
    let wire = encode_request(&Request::Transmit(big.clone()));
    assert!(matches!(parse_request(&wire), RequestParse::Got(Request::Transmit(ref b), _) if *b == big));
}

fn reply(step: BridgeStep) -> Vec<u8> {
    match step {
        BridgeStep::Reply(b) => b,
        _ => panic!("a reply"),
    }
}

fn powered() -> (Session, Vec<u8>) {
    let mut s = Session::new(3);
    assert!(matches!(s.begin(Request::PowerOn), BridgeStep::Call(ScardCall::EstablishContext)));
    assert!(matches!(
        s.on_event(BridgeEvent::Context(Some(5))),
        BridgeStep::Call(ScardCall::ListReaders { context: 5 })
    ));
    let readers = vec!["first".to_string(), "second".to_string()];
    match s.on_event(BridgeEvent::Readers(Some(readers))) {
        BridgeStep::Call(ScardCall::Connect { context: 5, reader, share_mode: 2, protocols: 3 }) => {
            assert_eq!(reader, "first")
        }
        _ => panic!("a connection"),
    }
    assert!(matches!(
        s.on_event(BridgeEvent::Connected(Some((8, 1)))),
        BridgeStep::Call(ScardCall::Status { card: 8 })
    ));
    let atr = reply(s.on_event(BridgeEvent::Status(Some((2, vec![0x3b, 0x80, 0, 0])))));
    (s, atr)
}

#[test]
fn a_card_is_powered_and_used() {
    let (mut s, atr) = powered();
    assert_eq!(s.device_id, 3);
    assert_eq!(atr, vec![0, 2, 0x3b, 0x80]);
    match s.begin(Request::Transmit(vec![1, 2])) {
        BridgeStep::Call(ScardCall::Transmit { card: 8, protocol: 1, apdu }) => {
            assert_eq!(apdu, vec![1, 2])
        }
        _ => panic!("a transmission"),
    }
    let answer = reply(s.on_event(BridgeEvent::Transmitted(Some(vec![0x90, 0]))));
    assert_eq!(answer, vec![0, 0, 2, 0x90, 0]);
    assert!(matches!(s.begin(Request::PowerOn), BridgeStep::Call(ScardCall::Status { card: 8 })));
    assert_eq!(reply(s.on_event(BridgeEvent::Status(Some((300, vec![7; 300]))))), vec![0, 0]);
    assert!(matches!(
        s.begin(Request::PowerOff),
        BridgeStep::Call(ScardCall::Disconnect { card: 8, disposition: 0 })
    ));
    assert_eq!(reply(s.on_event(BridgeEvent::Disconnected)), vec![0]);
    assert_eq!(reply(s.begin(Request::Transmit(vec![1]))), vec![1]);
    assert_eq!(reply(s.begin(Request::PowerOff)), vec![0]);
}

#[test]
fn presence_is_asked_of_the_reader() {
    let (mut s, _) = powered();
    match s.begin(Request::Presence) {
        BridgeStep::Call(ScardCall::GetStatusChange { context: 5, reader, timeout: 0 }) => {
            assert_eq!(reader, "first")
        }
        _ => panic!("a question"),
    }
    assert_eq!(reply(s.on_event(BridgeEvent::States(Some(vec![0x10, 0x22])))), vec![1]);
    s.begin(Request::Presence);
    assert_eq!(reply(s.on_event(BridgeEvent::States(Some(vec![0x10])))), vec![0]);
}

#[test]
fn calls_that_fail() {
    let mut s = Session::new(0);
    s.begin(Request::Presence);
    assert_eq!(reply(s.on_event(BridgeEvent::Context(None))), vec![0]);
    assert_eq!(s.goal, Goal::Idle);
    s.begin(Request::PowerOn);
    s.on_event(BridgeEvent::Context(Some(1)));
    assert_eq!(reply(s.on_event(BridgeEvent::Readers(Some(Vec::new())))), vec![1]);
    assert_eq!(s.context, Some(1));
    s.begin(Request::PowerOn);
    assert_eq!(reply(s.on_event(BridgeEvent::Readers(None))), vec![1]);
    s.begin(Request::PowerOn);
    s.on_event(BridgeEvent::Readers(Some(vec!["r".to_string()])));
    assert_eq!(reply(s.on_event(BridgeEvent::Connected(None))), vec![1]);
    s.begin(Request::Presence);
    assert_eq!(reply(s.on_event(BridgeEvent::States(None))), vec![0]);
    let (mut s, _) = powered();
    s.begin(Request::Transmit(vec![1]));
    assert_eq!(reply(s.on_event(BridgeEvent::Transmitted(None))), vec![1]);
    s.begin(Request::Transmit(vec![1]));
    assert_eq!(reply(s.on_event(BridgeEvent::Transmitted(Some(vec![0; 65_536])))), vec![1]);
    s.begin(Request::PowerOn);
    assert_eq!(reply(s.on_event(BridgeEvent::Status(None))), vec![1]);
}

#[test]
fn the_end_releases_everything() {
    let (mut s, _) = powered();
    assert!(matches!(
        s.teardown(),
        BridgeStep::Call(ScardCall::Disconnect { card: 8, disposition: 0 })
    ));
    assert!(matches!(
        s.on_event(BridgeEvent::Disconnected),
        BridgeStep::Call(ScardCall::ReleaseContext { context: 5 })
    ));
    assert!(matches!(s.on_event(BridgeEvent::Released), BridgeStep::Ended));
    assert!(s.card.is_none() && s.context.is_none());
    assert!(matches!(Session::new(0).teardown(), BridgeStep::Ended));
}

#[test]
fn ports_from_variables() {
    assert_eq!(port(None), 40242);
    assert_eq!(port(Some("40000")), 40000);
    assert_eq!(port(Some("65536")), 40242);
    assert_eq!(port(Some("x")), 40242);
}

fn body(r: ReplyParse) -> Vec<u8> {
    match r {
        ReplyParse::Body(b) => b,
        _ => panic!("a body"),
    }
}

#[test]
fn replies_arrive() {
    let (_, atr) = powered();
    assert_eq!(body(read_power_on(&atr)), vec![0x3b, 0x80]);
    assert!(matches!(read_power_on(&[]), ReplyParse::NeedMore(1)));
    assert!(matches!(read_power_on(&[0]), ReplyParse::NeedMore(2)));
    assert!(matches!(read_power_on(&[0, 3, 1]), ReplyParse::NeedMore(5)));
    assert!(matches!(read_power_on(&[1]), ReplyParse::Refused));
    assert_eq!(body(read_transmit(&[0, 0, 2, 0x90, 0, 99])), vec![0x90, 0]);
    assert!(matches!(read_transmit(&[]), ReplyParse::NeedMore(1)));
    assert!(matches!(read_transmit(&[0, 1]), ReplyParse::NeedMore(3)));
    assert!(matches!(read_transmit(&[0, 1, 0]), ReplyParse::NeedMore(259)));
    assert!(matches!(read_transmit(&[1]), ReplyParse::Refused));
}

#[test]
fn the_driver_remembers_the_atr() {
    let mut s = State::new();
    assert!(matches!(power_request(IFD_POWER_UP), Some(Request::PowerOn)));
    let r = IFDHPowerICC(&mut s, IFD_POWER_UP, Outcome::Body(vec![0x3b, 1]), true, true);
    assert_eq!((r.code, r.atr, r.length), (IFD_SUCCESS, Some(vec![0x3b, 1]), Some(2)));
    assert!(s.connected);
    assert_eq!(
        IFDHGetCapabilities(&s, TAG_IFD_ATR, Some(33), true),
        (IFD_SUCCESS, Some(vec![0x3b, 1]))
    );
    assert_eq!(IFDHGetCapabilities(&s, TAG_IFD_ATR, Some(1), true), (IFD_ERROR_TAG, None));
    assert_eq!(IFDHGetCapabilities(&s, TAG_IFD_ATR, Some(33), false), (IFD_ERROR_TAG, None));
    assert_eq!(IFDHGetCapabilities(&s, TAG_IFD_ATR, None, true), (IFD_COMMUNICATION_ERROR, None));
    assert!(matches!(power_request(IFD_POWER_DOWN), Some(Request::PowerOff)));
    let r = IFDHPowerICC(&mut s, IFD_POWER_DOWN, Outcome::Refused, true, true);
    assert_eq!((r.code, r.atr, r.length), (IFD_SUCCESS, None, Some(0)));
    assert!(s.atr.is_empty());
}

#[test]
fn power_that_fails() {
    let mut s = State::new();
    for o in [
        Outcome::Unreachable,
        Outcome::Broken,
        Outcome::Refused,
        Outcome::Body(Vec::new()),
        Outcome::Body(vec![0; 34]),
    ] {
        s.atr = vec![1];
        let r = IFDHPowerICC(&mut s, IFD_RESET, o, true, true);
        assert_eq!((r.code, r.atr, r.length), (IFD_ERROR_POWER_ACTION, None, Some(0)));
        assert!(s.atr.is_empty());
    }
    let r = IFDHPowerICC(&mut s, IFD_POWER_UP, Outcome::Body(vec![1]), true, false);
    assert_eq!((r.code, r.length), (IFD_COMMUNICATION_ERROR, None));
    assert_eq!(s.atr, vec![1]);
    assert!(power_request(503).is_none());
    let r = IFDHPowerICC(&mut s, 503, Outcome::Broken, true, true);
    assert_eq!(r.code, IFD_NOT_SUPPORTED);
    assert_eq!(s.atr, vec![1]);
}

#[test]
fn fixed_capabilities() {
    let s = State::new();
    for tag in [TAG_IFD_SLOTS_NUMBER, TAG_IFD_SIMULTANEOUS_ACCESS] {
        assert_eq!(IFDHGetCapabilities(&s, tag, Some(1), true), (IFD_SUCCESS, Some(vec![1])));
    }
    for tag in [TAG_IFD_THREAD_SAFE, TAG_IFD_SLOT_THREAD_SAFE] {
        assert_eq!(IFDHGetCapabilities(&s, tag, Some(1), true), (IFD_SUCCESS, Some(vec![0])));
    }
    assert_eq!(IFDHGetCapabilities(&s, 1, Some(9), true), (IFD_ERROR_TAG, None));
    assert_eq!(IFDHSetCapabilities(), IFD_SUCCESS);
    assert_eq!(IFDHSetProtocolParameters(), IFD_SUCCESS);
    assert_eq!(IFDHControl(), (IFD_NOT_SUPPORTED, 0));
}

#[test]
fn transmissions_through_the_driver() {
    let pci = ScardIoHeader { protocol: 2, length: 8 };
    let mut s = State { connected: true, atr: vec![1] };
    let r = IFDHTransmitToICC(&mut s, pci, Outcome::Body(vec![0x90, 0]), Some(2), true, true);
    assert_eq!(
        (r.code, r.response, r.recv_protocol),
        (IFD_SUCCESS, Some(vec![0x90, 0]), Some(2))
    );
    let r = IFDHTransmitToICC(&mut s, pci, Outcome::Body(vec![0x90, 0]), Some(1), true, true);
    assert_eq!((r.code, r.response), (IFD_COMMUNICATION_ERROR, None));
    let r = IFDHTransmitToICC(&mut s, pci, Outcome::Refused, Some(9), true, false);
    assert_eq!(r.code, IFD_COMMUNICATION_ERROR);
    assert_eq!(s.atr, vec![1]);
    let r = IFDHTransmitToICC(&mut s, pci, Outcome::Unreachable, None, true, true);
    assert_eq!(r.code, IFD_COMMUNICATION_ERROR);
    assert!(s.connected);
    let r = IFDHTransmitToICC(&mut s, pci, Outcome::Broken, Some(9), true, true);
    assert_eq!(r.code, IFD_COMMUNICATION_ERROR);
    assert!(!s.connected && s.atr.is_empty());
}

#[test]
fn presence_through_the_driver() {
    let mut s = State::new();
    assert_eq!(IFDHICCPresence(&mut s, &Outcome::Body(vec![1])), IFD_ICC_PRESENT);
    assert_eq!(IFDHICCPresence(&mut s, &Outcome::Body(vec![0])), IFD_ICC_NOT_PRESENT);
    assert!(s.connected);
    assert_eq!(IFDHICCPresence(&mut s, &Outcome::Unreachable), IFD_ICC_NOT_PRESENT);
    assert!(!s.connected);
}

#[test]
fn channels_start_and_end_clean() {
    let mut s = State { connected: true, atr: vec![1] };
    assert_eq!(IFDHCreateChannel(&mut s), IFD_SUCCESS);
    assert!(!s.connected && s.atr.is_empty());
    s = State { connected: true, atr: vec![1] };
    assert_eq!(IFDHCreateChannelByName(&mut s), IFD_SUCCESS);
    assert!(!s.connected && s.atr.is_empty());
    s = State { connected: true, atr: vec![1] };
    assert_eq!(IFDHCloseChannel(&mut s, &Outcome::Body(vec![0])), IFD_SUCCESS);
    assert!(!s.connected && s.atr.is_empty());
}
