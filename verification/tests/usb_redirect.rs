use macrdp::usb_redirect::{
    bulk_request, claim_device, config_full, config_header, config_selected, config_start,
    drive_device, finish, hardware_key, present_device, release_device, ClientCall, Completion,
    ConfigError, ConfigStep, DriveStep, DriverAction, DriverEvent, Pending, Presentation,
    PresentedDevices, Stage, TransferReq, UsbPipe, STATUS_OK, STATUS_STALL,
};

#[test]
fn claims_once_then_releases() {
    let mut presented = PresentedDevices::new();
    let id = "2174:2100:0100-claims-once";
    assert!(claim_device(&mut presented, id), "first claim wins");
    assert!(
        !claim_device(&mut presented, id),
        "second announce of the same hardware is skipped"
    );
    release_device(&mut presented, id);
    assert!(
        claim_device(&mut presented, id),
        "claimable again after its controller released (genuine reset re-add)"
    );
    release_device(&mut presented, id);
}

#[test]
fn distinct_devices_are_independent() {
    let mut presented = PresentedDevices::new();
    let a = "2174:2100:0100-distinct-a";
    let b = "0781:5583:0010-distinct-b";
    assert!(claim_device(&mut presented, a));
    assert!(
        claim_device(&mut presented, b),
        "a different device presents independently"
    );
    release_device(&mut presented, a);
    release_device(&mut presented, b);
}

#[test]
fn identity_is_vendor_product_release() {
    assert_eq!(hardware_key(0x2174, 0x2100, 0x0100), "2174:2100:0100");
    assert_eq!(hardware_key(0xabcd, 0x000f, 0xffff), "abcd:000f:ffff");
    assert_ne!(hardware_key(1, 2, 3), hardware_key(1, 3, 2));
}

#[test]
fn announcements_of_one_device() {
    let mut presented = PresentedDevices::new();
    let first = drive_device(&mut presented, Some((0x0781, 0x5583, 0x0010)));
    assert!(matches!(first, DriveStep::Present(ref k) if k == "0781:5583:0010"));
    let second = drive_device(&mut presented, Some((0x0781, 0x5583, 0x0010)));
    assert!(matches!(second, DriveStep::Duplicate(ref k) if k == "0781:5583:0010"));
    assert!(matches!(drive_device(&mut presented, None), DriveStep::NoDescriptor));
}

/// A device with three open pipes.
fn served() -> Presentation {
    let mut d = Presentation::new();
    assert!(matches!(
        present_device(&mut d, DriverEvent::Created(true)),
        DriverAction::Configure(ConfigStep::GetDescriptor { max_len: 9, .. })
    ));
    assert!(matches!(
        present_device(&mut d, DriverEvent::Described(Some(vec![9, 2, 5, 0, 1]))),
        DriverAction::Configure(ConfigStep::GetDescriptor { max_len: 5, .. })
    ));
    assert!(matches!(
        present_device(&mut d, DriverEvent::Described(Some(vec![9, 2, 5, 0, 7]))),
        DriverAction::Configure(ConfigStep::Select(ref c)) if c == &vec![9, 2, 5, 0, 7]
    ));
    let pipes = vec![
        UsbPipe { endpoint_address: 0x81, pipe_handle: 11, is_bulk: true },
        UsbPipe { endpoint_address: 0x02, pipe_handle: 12, is_bulk: true },
        UsbPipe { endpoint_address: 0x83, pipe_handle: 13, is_bulk: false },
    ];
    assert!(matches!(
        present_device(&mut d, DriverEvent::Selected(Some(Some(pipes)))),
        DriverAction::Configure(ConfigStep::Opened(ref p)) if p.len() == 3
    ));
    assert_eq!(d.stage, Stage::Serving);
    d
}

#[test]
fn descriptor_reads_take_the_dedicated_call() {
    let mut d = served();
    let setup = [0x80, 0x06, 3, 2, 0x09, 0x04, 0xff, 0];
    let action = present_device(
        &mut d,
        DriverEvent::Raised(TransferReq::ControlIn { token: 5, setup, max_len: 255 }),
    );
    assert!(matches!(
        action,
        DriverAction::Call(
            ClientCall::GetDescriptor { descriptor_type: 2, index: 3, lang_id: 0x0409, max_len: 255 },
            Pending::ControlIn { token: 5 }
        )
    ));
    let setup = [0xa1, 0x06, 3, 2, 0, 0, 8, 0];
    let action = present_device(
        &mut d,
        DriverEvent::Raised(TransferReq::ControlIn { token: 6, setup, max_len: 8 }),
    );
    assert!(matches!(
        action,
        DriverAction::Call(ClientCall::ControlIn { setup: [0xa1, 6, 3, 2, 0, 0, 8, 0], max_len: 8 }, _)
    ));
    let action = present_device(
        &mut d,
        DriverEvent::Raised(TransferReq::ControlOut { token: 7, setup, data: vec![1] }),
    );
    assert!(matches!(
        action,
        DriverAction::Call(ClientCall::ControlOut { .. }, Pending::ControlOut { token: 7 })
    ));
}

#[test]
fn bulk_transfers_go_to_their_pipe() {
    let mut d = served();
    let read = bulk_request(1, 0x181, 1, Some(&[9]), 64);
    assert!(matches!(
        present_device(&mut d, DriverEvent::Raised(read)),
        DriverAction::Call(
            ClientCall::BulkIn { pipe: 11, length: 64 },
            Pending::BulkIn { token: 1, interrupt: false }
        )
    ));
    let poll = bulk_request(2, 0x83, 1, None, 8);
    assert!(matches!(
        present_device(&mut d, DriverEvent::Raised(poll)),
        DriverAction::Call(
            ClientCall::BulkIn { pipe: 13, length: 8 },
            Pending::BulkIn { token: 2, interrupt: true }
        )
    ));
    let write = bulk_request(3, 0x02, 0, Some(&[1, 2, 3]), 3);
    match present_device(&mut d, DriverEvent::Raised(write)) {
        DriverAction::Call(ClientCall::BulkOut { pipe, data }, pending) => {
            assert_eq!(pipe, 12);
            assert_eq!(data, vec![1, 2, 3]);
            assert_eq!(pending, Pending::BulkOut { token: 3, moved: 3 });
        }
        _ => panic!("a write is a call"),
    }
    let stray = bulk_request(4, 0x05, 0, Some(&[1]), 1);
    assert!(matches!(
        present_device(&mut d, DriverEvent::Raised(stray)),
        DriverAction::Complete(Completion::Out { token: 4, moved: 0, status: STATUS_STALL })
    ));
}

#[test]
fn outcomes_of_calls() {
    let gone = || Err("channel closed".to_string());
    let passing = || Err("device busy".to_string());
    let interrupt = Pending::BulkIn { token: 9, interrupt: true };
    assert!(matches!(
        finish(interrupt, passing()),
        Completion::In { token: 9, ref bytes, status: STATUS_OK } if bytes.is_empty()
    ));
    assert!(matches!(
        finish(interrupt, gone()),
        Completion::In { token: 9, status: STATUS_STALL, .. }
    ));
    let bulk = Pending::BulkIn { token: 8, interrupt: false };
    assert!(matches!(
        finish(bulk, passing()),
        Completion::In { token: 8, status: STATUS_STALL, .. }
    ));
    assert!(matches!(
        finish(bulk, Ok(vec![1, 2])),
        Completion::In { token: 8, ref bytes, status: STATUS_OK } if bytes == &vec![1, 2]
    ));
    let out = Pending::BulkOut { token: 7, moved: 5 };
    assert!(matches!(
        finish(out, Ok(Vec::new())),
        Completion::Out { token: 7, moved: 5, status: STATUS_OK }
    ));
    assert!(matches!(
        finish(out, passing()),
        Completion::Out { token: 7, moved: 0, status: STATUS_STALL }
    ));
    assert!(matches!(
        finish(Pending::ControlOut { token: 6 }, passing()),
        Completion::Out { token: 6, moved: 0, status: STATUS_STALL }
    ));
    assert!(matches!(
        finish(Pending::ControlIn { token: 5 }, Ok(vec![3])),
        Completion::In { token: 5, ref bytes, status: STATUS_OK } if bytes == &vec![3]
    ));
    let mut d = served();
    assert!(matches!(present_device(&mut d, DriverEvent::Closed), DriverAction::Teardown));
    assert!(matches!(present_device(&mut d, DriverEvent::Closed), DriverAction::Wait));
    assert!(matches!(
        present_device(&mut d, DriverEvent::Returned(out, Ok(Vec::new()))),
        DriverAction::Complete(Completion::Out { token: 7, moved: 5, status: STATUS_OK })
    ));
    let mut d = served();
    assert!(matches!(present_device(&mut d, DriverEvent::QueueEnded), DriverAction::Teardown));
}

#[test]
fn a_device_without_a_controller() {
    let mut d = Presentation::new();
    assert!(matches!(present_device(&mut d, DriverEvent::Created(false)), DriverAction::GiveUp));
    assert!(matches!(present_device(&mut d, DriverEvent::Created(true)), DriverAction::Wait));
}

#[test]
fn a_device_that_cannot_be_configured() {
    let mut d = Presentation::new();
    present_device(&mut d, DriverEvent::Created(true));
    assert!(matches!(
        present_device(&mut d, DriverEvent::Described(None)),
        DriverAction::Configure(ConfigStep::Failed(ConfigError::Fetch))
    ));
    assert!(matches!(
        present_device(&mut d, DriverEvent::Raised(bulk_request(1, 0x81, 1, None, 8))),
        DriverAction::Complete(Completion::Out { token: 1, moved: 0, status: STATUS_STALL })
    ));
    let setup = [0x80, 6, 0, 1, 0, 0, 18, 0];
    assert!(matches!(
        present_device(
            &mut d,
            DriverEvent::Raised(TransferReq::ControlIn { token: 2, setup, max_len: 18 })
        ),
        DriverAction::Call(ClientCall::GetDescriptor { descriptor_type: 1, .. }, _)
    ));
}

#[test]
fn configuring_a_device() {
    assert!(matches!(
        config_start(),
        ConfigStep::GetDescriptor { descriptor_type: 2, index: 0, lang_id: 0, max_len: 9 }
    ));
    assert!(matches!(
        config_header(Some(&[9, 2, 0x20, 0x01, 1])),
        ConfigStep::GetDescriptor { max_len: 0x120, .. }
    ));
    assert!(matches!(config_header(None), ConfigStep::Failed(ConfigError::Fetch)));
    assert!(matches!(
        config_header(Some(&[9, 2])),
        ConfigStep::Failed(ConfigError::ShortHeader(2))
    ));
    assert!(matches!(config_full(Some(vec![9, 2])), ConfigStep::Select(ref v) if v == &vec![9, 2]));
    assert!(matches!(config_full(None), ConfigStep::Failed(ConfigError::Fetch)));
    assert!(matches!(config_selected(None), ConfigStep::Failed(ConfigError::TimedOut)));
    assert!(matches!(config_selected(Some(None)), ConfigStep::Failed(ConfigError::Refused)));
    let pipe = UsbPipe { endpoint_address: 0x81, pipe_handle: 4, is_bulk: true };
    assert!(matches!(
        config_selected(Some(Some(vec![pipe]))),
        ConfigStep::Opened(ref p) if p == &vec![pipe]
    ));
}
