use macrdp::file_promise::{
    write_promises_to_pasteboard, ContentsFlags, ContentsRequest, DownloadRouter, Fetch,
    FetchError, FetchStep, Response, CHUNK_SIZE,
};

/// Downloads a file from a client that answers as `serve` says.
fn download(
    size: Option<u64>,
    serve: &mut dyn FnMut(ContentsRequest) -> Response,
) -> Result<Vec<u8>, FetchError> {
    let mut router = DownloadRouter::new();
    let mut fetch = Fetch::new(4, size);
    let mut file = Vec::new();
    let mut step = fetch.start(&mut router, 77);
    loop {
        match step {
            FetchStep::Request(r) => {
                assert_eq!(r.index, 4);
                assert_eq!(router.deliver(r.stream_id), Some(77));
                let response = serve(r);
                step = match r.flags {
                    ContentsFlags::Size => fetch.on_size(response),
                    ContentsFlags::Range => fetch.on_range(response),
                };
            }
            FetchStep::Create => step = fetch.next(&mut router, 77),
            FetchStep::Write(b) => {
                file.extend_from_slice(&b);
                step = fetch.next(&mut router, 77);
            }
            FetchStep::Flush => return Ok(file),
            FetchStep::Fail(e) => return Err(e),
        }
    }
}

fn content(n: usize) -> Vec<u8> {
    (0..n).map(|i| (i * 7 % 251) as u8).collect()
}

fn slice(c: &[u8], r: ContentsRequest) -> Response {
    let from = r.position as usize;
    let to = (from + r.requested_size as usize).min(c.len());
    Response::Data(c[from..to].to_vec())
}

#[test]
fn a_pasted_file_is_the_clients_file() {
    let c = content(CHUNK_SIZE as usize * 2 + 5);
    let mut asked = Vec::new();
    let got = download(Some(c.len() as u64), &mut |r| {
        asked.push((r.flags, r.position, r.requested_size));
        slice(&c, r)
    });
    assert_eq!(got, Ok(c.clone()));
    assert_eq!(
        asked,
        vec![
            (ContentsFlags::Range, 0, CHUNK_SIZE),
            (ContentsFlags::Range, CHUNK_SIZE as u64, CHUNK_SIZE),
            (ContentsFlags::Range, CHUNK_SIZE as u64 * 2, 5),
        ]
    );
    assert_eq!(CHUNK_SIZE, 1024 * 1024);
}

#[test]
fn an_unknown_size_is_asked_for() {
    let c = content(300);
    let got = download(None, &mut |r| {
        if r.flags == ContentsFlags::Size {
            assert_eq!((r.position, r.requested_size), (0, 8));
            Response::Data(300u64.to_le_bytes().to_vec())
        } else {
            slice(&c, r)
        }
    });
    assert_eq!(got, Ok(c));
}

#[test]
fn sizes_are_little_endian() {
    let mut f = Fetch::new(0, None);
    let bytes = vec![8, 7, 6, 5, 4, 3, 2, 1];
    assert!(matches!(f.on_size(Response::Data(bytes)), FetchStep::Create));
    assert_eq!(f.total, Some(0x0102_0304_0506_0708));
}

#[test]
fn short_answers_are_resumed() {
    let c = content(10);
    let got = download(Some(10), &mut |r| {
        let from = r.position as usize;
        Response::Data(c[from..from + 1].to_vec())
    });
    assert_eq!(got, Ok(c));
    assert_eq!(download(Some(0), &mut |_| Response::Closed), Ok(Vec::new()));
}

#[test]
fn every_way_a_download_fails() {
    assert_eq!(download(None, &mut |_| Response::Closed), Err(FetchError::SizeChannelClosed));
    assert_eq!(download(None, &mut |_| Response::Failed), Err(FetchError::SizeFailed));
    assert_eq!(
        download(None, &mut |_| Response::Data(vec![0; 7])),
        Err(FetchError::SizeDecode)
    );
    assert_eq!(download(Some(5), &mut |_| Response::Closed), Err(FetchError::RangeChannelClosed));
    assert_eq!(
        download(Some(5), &mut |_| Response::Failed),
        Err(FetchError::RangeFailed { position: 0 })
    );
    assert_eq!(
        download(Some(5), &mut |r| Response::Data(vec![1; if r.position == 0 { 2 } else { 0 }])),
        Err(FetchError::ShortRead { position: 2, expected: 3 })
    );
}

#[test]
fn streams_are_told_apart() {
    let mut r = DownloadRouter::new();
    let (a, none) = r.register(1);
    let (b, _) = r.register(2);
    assert_eq!((a, b, none), (1, 2, None));
    assert_eq!(r.deliver(b), Some(2));
    assert_eq!(r.deliver(b), None);
    assert_eq!(r.deliver(a), Some(1));
    r.next_stream_id = u32::MAX;
    assert_eq!(r.register(3).0, u32::MAX);
    assert_eq!(r.register(4).0, 1);
    r.next_stream_id = 1;
    assert_eq!(r.register(5), (1, Some(4)));
}

#[test]
fn offers_replace_each_other() {
    let p = write_promises_to_pasteboard(3);
    assert!(p.write);
    assert_eq!(p.kept, 3);
    let p = write_promises_to_pasteboard(0);
    assert!(!p.write);
    assert_eq!(p.kept, 0);
}
