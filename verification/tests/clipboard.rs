use ironrdp_cliprdr::pdu::ClipboardFormatId;
use macrdp::clipboard::{
    advertised_formats, change_count, encode_text, has_image, has_string, read_image_bytes,
    read_string, write_png, write_string, ClipboardPoller, ImageEncoding, Incoming,
    MacCliprdrBackend, Pasteboard, CF_DIB, CF_DIBV5, CF_UNICODETEXT, MAX_INCOMING_PAYLOAD,
};
use macrdp::dib::{
    dib_to_png, dib_to_rgba, normalize_to_png, png_or_tiff_to_dib, rgba_to_dib, DibError,
};
use macrdp::utf16;

fn empty() -> Pasteboard {
    Pasteboard { change_count: 0, text: None, png: None, tiff: None }
}

#[test]
fn format_ids_are_those_of_the_protocol() {
    assert_eq!(ClipboardFormatId::CF_DIB.value(), CF_DIB);
    assert_eq!(ClipboardFormatId::CF_DIBV5.value(), CF_DIBV5);
    assert_eq!(ClipboardFormatId::CF_UNICODETEXT.value(), CF_UNICODETEXT);
}

#[test]
fn pasteboard_holds_what_was_written() {
    let mut pb = empty();
    assert!(!has_string(&pb) && !has_image(&pb));
    write_string(&mut pb, "hello");
    assert_eq!(change_count(&pb), 1);
    assert_eq!(read_string(&pb).as_deref(), Some("hello"));
    write_png(&mut pb, &[1, 2]);
    assert_eq!(change_count(&pb), 2);
    assert_eq!(read_string(&pb), None);
    assert!(has_image(&pb));
    assert_eq!(read_image_bytes(&pb), Some((ImageEncoding::Png, vec![1, 2])));
}

#[test]
fn pictures_are_read_as_png() {
    let img = image::RgbaImage::from_raw(2, 2, RGBA.to_vec()).expect("image");
    let mut tiff = std::io::Cursor::new(Vec::new());
    img.write_to(&mut tiff, image::ImageFormat::Tiff).expect("tiff");
    let tiff = tiff.into_inner();
    let pb = Pasteboard { change_count: 5, text: None, png: None, tiff: Some(tiff.clone()) };
    let (found, png) = read_image_bytes(&pb).expect("picture");
    assert_eq!(found, ImageEncoding::Tiff);
    assert_ne!(png, tiff);
    assert_eq!(image::guess_format(&png).expect("format"), image::ImageFormat::Png);
    let back = image::load_from_memory(&png).expect("decoded").to_rgba8();
    assert_eq!((back.dimensions(), back.into_raw()), ((2, 2), RGBA.to_vec()));
    assert_eq!(normalize_to_png(&tiff), Some(png));
    assert_eq!(
        MacCliprdrBackend::new().on_format_data_request(CF_DIB, &pb),
        Some(rgba_to_dib(2, 2, &RGBA))
    );
    // A PNG comes first, and as it is.
    let both = Pasteboard { change_count: 5, text: None, png: Some(vec![1, 2]), tiff: Some(tiff) };
    assert_eq!(read_image_bytes(&both), Some((ImageEncoding::Png, vec![1, 2])));
    // What is no picture is none.
    let junk = Pasteboard { change_count: 5, text: None, png: None, tiff: Some(vec![3]) };
    assert!(has_image(&junk));
    assert_eq!(read_image_bytes(&junk), None);
    assert_eq!(MacCliprdrBackend::new().on_format_data_request(CF_DIB, &junk), None);
}

#[test]
fn formats_are_offered_best_first() {
    let mut pb = empty();
    assert!(advertised_formats(&pb).is_empty());
    pb.text = Some("x".to_string());
    assert_eq!(advertised_formats(&pb), vec![CF_UNICODETEXT]);
    pb.tiff = Some(vec![0]);
    assert_eq!(advertised_formats(&pb), vec![CF_DIB, CF_UNICODETEXT]);
    assert_eq!(MacCliprdrBackend::new().on_ready(&pb), Some(vec![CF_DIB, CF_UNICODETEXT]));
    assert_eq!(MacCliprdrBackend::new().on_ready(&empty()), None);
}

#[test]
fn poller_announces_changes_once() {
    let mut pb = empty();
    pb.text = Some("before".to_string());
    let mut poller = ClipboardPoller::new(&pb);
    assert_eq!(poller.poll(&pb), None);
    write_string(&mut pb, "after");
    assert_eq!(poller.poll(&pb), Some(vec![CF_UNICODETEXT]));
    assert_eq!(poller.poll(&pb), None);
    pb.change_count += 1;
    pb.text = None;
    assert_eq!(poller.poll(&pb), None);
}

#[test]
fn utf16_units_are_those_of_the_standard() {
    for s in ["", "abc", "\u{e9}", "\u{ffff}", "\u{10000}", "a\u{1f600}b", "\u{10ffff}"] {
        assert_eq!(utf16::encode(s), s.encode_utf16().collect::<Vec<u16>>());
    }
}

#[test]
fn text_payload_is_terminated_little_endian() {
    assert_eq!(encode_text("A\u{1f600}"), vec![0x41, 0, 0x3d, 0xd8, 0, 0xde, 0, 0]);
    assert_eq!(encode_text(""), vec![0, 0]);
}

#[test]
fn text_survives_the_clipboard() {
    for s in ["", "plain", "gr\u{fc}\u{df}e \u{1f600}", "nul\0inside", "ends\0"] {
        let mut from = empty();
        write_string(&mut from, s);
        let sent = MacCliprdrBackend::new()
            .on_format_data_request(CF_UNICODETEXT, &from)
            .expect("text payload");
        let mut to = empty();
        let mut backend = MacCliprdrBackend::new();
        assert_eq!(backend.on_remote_copy(&[CF_UNICODETEXT]), Some(CF_UNICODETEXT));
        assert_eq!(backend.on_format_data_response(Some(&sent), &mut to), Incoming::Text);
        assert_eq!(read_string(&to).as_deref(), Some(s));
        assert_eq!(backend.last_requested, None);
    }
}

#[test]
fn client_formats_by_preference() {
    let mut b = MacCliprdrBackend::new();
    assert_eq!(b.on_remote_copy(&[CF_UNICODETEXT, CF_DIB, CF_DIBV5]), Some(CF_DIBV5));
    assert_eq!(b.on_remote_copy(&[CF_UNICODETEXT, CF_DIB]), Some(CF_DIB));
    assert_eq!(b.on_remote_copy(&[1, 2]), None);
    assert_eq!(b.last_requested, Some(CF_DIB));
}

#[test]
fn replies_that_are_turned_down() {
    let mut pb = empty();
    let mut b = MacCliprdrBackend::new();
    assert_eq!(b.on_format_data_response(None, &mut pb), Incoming::RemoteError);
    assert_eq!(b.on_format_data_response(Some(&[1, 2, 3]), &mut pb), Incoming::OddLength(3));
    assert_eq!(b.on_format_data_response(Some(&[0x00, 0xd8]), &mut pb), Incoming::BadText);
    b.last_requested = Some(CF_DIB);
    assert_eq!(
        b.on_format_data_response(Some(&[0; 10]), &mut pb),
        Incoming::BadImage(DibError::ShortHeader)
    );
    b.last_requested = Some(7);
    assert_eq!(b.on_format_data_response(Some(&[0, 0]), &mut pb), Incoming::UnexpectedFormat(7));
    let huge = vec![0u8; MAX_INCOMING_PAYLOAD + 1];
    assert_eq!(
        b.on_format_data_response(Some(&huge), &mut pb),
        Incoming::TooLarge(MAX_INCOMING_PAYLOAD + 1)
    );
    assert_eq!(change_count(&pb), 0);
}

#[test]
fn requests_that_cannot_be_answered() {
    let pb = empty();
    let b = MacCliprdrBackend::new();
    assert_eq!(b.on_format_data_request(CF_UNICODETEXT, &pb), None);
    assert_eq!(b.on_format_data_request(CF_DIB, &pb), None);
    assert_eq!(b.on_format_data_request(CF_DIBV5, &pb), None);
    let junk = Pasteboard { change_count: 0, text: None, png: Some(vec![1, 2, 3]), tiff: None };
    assert_eq!(b.on_format_data_request(CF_DIB, &junk), None);
    assert_eq!(png_or_tiff_to_dib(&[1, 2, 3]), Err(DibError::Codec));
}

const RGBA: [u8; 16] = [
    0x11, 0x22, 0x33, 0xff, 0x44, 0x55, 0x66, 0x80, 0x77, 0x88, 0x99, 0x00, 0xaa, 0xbb, 0xcc, 0x01,
];

fn png() -> Vec<u8> {
    dib_to_png(&rgba_to_dib(2, 2, &RGBA)).expect("png")
}

#[test]
fn bitmap_layout() {
    let dib = rgba_to_dib(2, 2, &RGBA);
    assert_eq!(dib.len(), 56);
    assert_eq!(&dib[0..4], &40u32.to_le_bytes());
    assert_eq!(&dib[4..8], &2i32.to_le_bytes());
    assert_eq!(&dib[8..12], &(-2i32).to_le_bytes());
    assert_eq!(&dib[12..14], &1u16.to_le_bytes());
    assert_eq!(&dib[14..16], &32u16.to_le_bytes());
    assert_eq!(&dib[20..24], &16u32.to_le_bytes());
    assert_eq!(&dib[40..44], &[0x33, 0x22, 0x11, 0xff]);
    let px = dib_to_rgba(&dib).expect("pixels");
    assert_eq!((px.width, px.height), (2, 2));
    assert_eq!(px.rgba, RGBA.to_vec());
}

#[test]
fn picture_survives_the_clipboard() {
    let from = Pasteboard { change_count: 0, text: None, png: Some(png()), tiff: None };
    let sent = MacCliprdrBackend::new().on_format_data_request(CF_DIB, &from).expect("bitmap");
    assert_eq!(sent, rgba_to_dib(2, 2, &RGBA));
    for format in [CF_DIB, CF_DIBV5] {
        let mut to = empty();
        let mut b = MacCliprdrBackend { last_requested: Some(format) };
        assert_eq!(b.on_format_data_response(Some(&sent), &mut to), Incoming::Image);
        let (encoding, bytes) = read_image_bytes(&to).expect("picture");
        assert_eq!(encoding, ImageEncoding::Png);
        let img = image::load_from_memory(&bytes).expect("decoded").to_rgba8();
        assert_eq!(img.dimensions(), (2, 2));
        assert_eq!(img.into_raw(), RGBA.to_vec());
    }
}

#[test]
fn codecs_really_run() {
    let png = png();
    assert_eq!(&png[..8], &[0x89, b'P', b'N', b'G', 13, 10, 26, 10]);
    assert_eq!(png_or_tiff_to_dib(&png).expect("bitmap"), rgba_to_dib(2, 2, &RGBA));
    let img = image::RgbaImage::from_raw(2, 2, RGBA.to_vec()).expect("image");
    let mut tiff = std::io::Cursor::new(Vec::new());
    img.write_to(&mut tiff, image::ImageFormat::Tiff).expect("tiff");
    assert_eq!(png_or_tiff_to_dib(tiff.get_ref()).expect("bitmap"), rgba_to_dib(2, 2, &RGBA));
}

fn header(size: u32, w: i32, h: i32, bits: u16, compression: u32) -> Vec<u8> {
    let mut d = Vec::new();
    d.extend_from_slice(&size.to_le_bytes());
    d.extend_from_slice(&w.to_le_bytes());
    d.extend_from_slice(&h.to_le_bytes());
    d.extend_from_slice(&1u16.to_le_bytes());
    d.extend_from_slice(&bits.to_le_bytes());
    d.extend_from_slice(&compression.to_le_bytes());
    d.resize(40, 0);
    d
}

fn error(dib: &[u8]) -> DibError {
    match dib_to_rgba(dib) {
        Ok(_) => panic!("accepted"),
        Err(e) => e,
    }
}

#[test]
fn bitmaps_that_are_turned_down() {
    assert_eq!(error(&[0; 39]), DibError::ShortHeader);
    assert_eq!(error(&header(39, 1, 1, 32, 0)), DibError::BogusHeaderSize(39));
    assert_eq!(error(&header(41, 1, 1, 32, 0)), DibError::BogusHeaderSize(41));
    assert_eq!(error(&header(40, 0, 1, 32, 0)), DibError::InvalidWidth(0));
    assert_eq!(error(&header(40, -3, 1, 32, 0)), DibError::InvalidWidth(-3));
    assert_eq!(error(&header(40, 1, 0, 32, 0)), DibError::InvalidHeight);
    assert_eq!(error(&header(40, 1, 1, 32, 1)), DibError::UnsupportedCompression(1));
    assert_eq!(error(&header(40, 1, 1, 16, 0)), DibError::UnsupportedBitCount(16));
    assert_eq!(error(&header(40, 1, 1, 24, 3)), DibError::BitfieldsDepth(24));
    assert_eq!(error(&header(40, 1, 1, 32, 0)), DibError::Truncated(40, 44));
    assert_eq!(error(&header(40, 1, 1, 32, 3)), DibError::Truncated(40, 56));
    assert_eq!(error(&header(40, 1, 1, 32, 6)), DibError::Truncated(40, 60));
}

#[test]
fn bottom_up_rows_of_three_bytes() {
    let mut d = header(40, 1, 2, 24, 0);
    d.extend_from_slice(&[1, 2, 3, 0, 4, 5, 6, 0]);
    let px = dib_to_rgba(&d).expect("pixels");
    assert_eq!(px.rgba, vec![6, 5, 4, 0xff, 3, 2, 1, 0xff]);
}

#[test]
fn masks_stand_before_the_pixels() {
    let mut d = header(40, 1, 1, 32, 3);
    d.extend_from_slice(&[0; 12]);
    d.extend_from_slice(&[1, 2, 3, 4]);
    assert_eq!(dib_to_rgba(&d).expect("pixels").rgba, vec![3, 2, 1, 4]);
    let mut d = header(44, 1, 1, 32, 3);
    d.extend_from_slice(&[0; 4]);
    d.extend_from_slice(&[1, 2, 3, 4]);
    assert_eq!(dib_to_rgba(&d).expect("pixels").rgba, vec![3, 2, 1, 4]);
}
