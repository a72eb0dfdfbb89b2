//! Clipboard sync between the Mac pasteboard and the RDP client: text as
//! `CF_UNICODETEXT`, pictures as `CF_DIB` / `CF_DIBV5`.
//!
//! [`Pasteboard`] is what the general pasteboard holds, as far as the sync looks
//! at it. [`MacCliprdrBackend`] answers the protocol's callbacks; each answer is
//! a value that the caller sends or stores.

use crate::dib;
use crate::dib::DibError;
use crate::utf16;
use crate::wire;
use vstd::prelude::*;

verus! {

/// Format id of a bitmap with a `BITMAPINFOHEADER`.
pub const CF_DIB: u32 = 8;

/// Format id of zero-terminated UTF-16LE text.
pub const CF_UNICODETEXT: u32 = 13;

/// Format id of a bitmap with a `BITMAPV5HEADER`.
pub const CF_DIBV5: u32 = 17;

/// The largest payload accepted from the client, in bytes.
pub const MAX_INCOMING_PAYLOAD: usize = 52_428_800;

/// How a picture on the pasteboard is encoded.
#[derive(Debug, Clone, Copy, PartialEq, Eq, Structural)]
pub enum ImageEncoding {
    Png,
    Tiff,
}

/// The contents of the general pasteboard.
pub struct Pasteboard {
    /// Goes up each time that anyone replaces the contents.
    pub change_count: i64,
    pub text: Option<String>,
    pub png: Option<Vec<u8>>,
    pub tiff: Option<Vec<u8>>,
}

/// The contents of the pasteboard as values.
pub struct PasteboardView {
    pub change_count: i64,
    pub text: Option<Seq<char>>,
    pub png: Option<Seq<u8>>,
    pub tiff: Option<Seq<u8>>,
}

impl View for Pasteboard {
    type V = PasteboardView;

    open spec fn view(&self) -> PasteboardView {
        PasteboardView {
            change_count: self.change_count,
            text: match self.text {
                Some(s) => Some(s@),
                None => None,
            },
            png: match self.png {
                Some(b) => Some(b@),
                None => None,
            },
            tiff: match self.tiff {
                Some(b) => Some(b@),
                None => None,
            },
        }
    }
}

impl PasteboardView {
    /// The picture on the pasteboard: the PNG where there is one, else the TIFF.
    pub open spec fn image(self) -> Option<(ImageEncoding, Seq<u8>)> {
        match (self.png, self.tiff) {
            (Some(b), _) => Some((ImageEncoding::Png, b)),
            (None, Some(b)) => Some((ImageEncoding::Tiff, b)),
            (None, None) => None,
        }
    }

    /// The picture on the pasteboard as a PNG: the one there is, or the TIFF encoded
    /// again. There is none where the TIFF cannot be.
    pub open spec fn image_png(self) -> Option<Seq<u8>> {
        match self.image() {
            Some((ImageEncoding::Png, b)) => Some(b),
            Some((ImageEncoding::Tiff, b)) => dib::png_of_decoded(dib::decoded_image(b)),
            None => None,
        }
    }

    /// The pasteboard after its contents were replaced by a text.
    pub open spec fn with_text(self, s: Seq<char>) -> PasteboardView {
        PasteboardView {
            change_count: self.change_count.wrapping_add(1),
            text: Some(s),
            png: None,
            tiff: None,
        }
    }

    /// The pasteboard after its contents were replaced by a PNG.
    pub open spec fn with_png(self, png: Seq<u8>) -> PasteboardView {
        PasteboardView {
            change_count: self.change_count.wrapping_add(1),
            text: None,
            png: Some(png),
            tiff: None,
        }
    }
}

/// The pasteboard's change count.
pub fn change_count(pb: &Pasteboard) -> (r: i64)
    ensures
        r == pb@.change_count,
{
    pb.change_count
}

/// Whether there is text on the pasteboard.
pub fn has_string(pb: &Pasteboard) -> (r: bool)
    ensures
        r == (pb@.text is Some),
{
    pb.text.is_some()
}

/// Whether there is a picture on the pasteboard, in either encoding.
pub fn has_image(pb: &Pasteboard) -> (r: bool)
    ensures
        r == (pb@.image() is Some),
{
    pb.png.is_some() || pb.tiff.is_some()
}

/// The text on the pasteboard.
pub fn read_string(pb: &Pasteboard) -> (r: Option<String>)
    ensures
        match r {
            Some(s) => pb@.text == Some(s@),
            None => pb@.text is None,
        },
{
    match &pb.text {
        Some(s) => Some(s.clone()),
        None => None,
    }
}

/// Replaces the contents of the pasteboard by a text.
pub fn write_string(pb: &mut Pasteboard, s: &str)
    ensures
        final(pb)@ == old(pb)@.with_text(s@),
{
    pb.change_count = pb.change_count.wrapping_add(1);
    pb.text = Some(s.to_owned());
    pb.png = None;
    pb.tiff = None;
}

/// The picture on the pasteboard as PNG bytes, with the encoding that it was found
/// in: a PNG as it is, else a TIFF encoded again. A TIFF that cannot be decoded, or
/// that has no pixels, counts as no picture.
pub fn read_image_bytes(pb: &Pasteboard) -> (r: Option<(ImageEncoding, Vec<u8>)>)
    ensures
        match r {
            Some((enc, bytes)) => {
                &&& pb@.image() matches Some((found, _)) && found == enc
                &&& pb@.image_png() == Some(bytes@)
            },
            None => pb@.image_png() is None,
        },
        r is None <==> (match pb@.image() {
            Some((ImageEncoding::Png, _)) => false,
            Some((ImageEncoding::Tiff, tiff)) => !dib::has_pixels(dib::decoded_image(tiff)),
            None => true,
        }),
        r matches Some((ImageEncoding::Tiff, png)) ==> (pb@.tiff matches Some(tiff)
            && (dib::within_limit(dib::decoded_image(tiff)) ==> dib::decoded_image(png@)
            == dib::decoded_image(tiff))),
{
    match &pb.png {
        Some(b) => Some((ImageEncoding::Png, copy(b))),
        None => match &pb.tiff {
            Some(b) => match dib::normalize_to_png(b.as_slice()) {
                Some(png) => Some((ImageEncoding::Tiff, png)),
                None => None,
            },
            None => None,
        },
    }
}

/// Replaces the contents of the pasteboard by a PNG.
pub fn write_png(pb: &mut Pasteboard, bytes: &[u8])
    ensures
        final(pb)@ == old(pb)@.with_png(bytes@),
{
    pb.change_count = pb.change_count.wrapping_add(1);
    pb.text = None;
    pb.png = Some(vstd::slice::slice_to_vec(bytes));
    pb.tiff = None;
}

fn copy(b: &Vec<u8>) -> (r: Vec<u8>)
    ensures
        r@ == b@,
{
    vstd::slice::slice_to_vec(b.as_slice())
}

/// The formats that the pasteboard can be offered in, best first.
pub open spec fn offered(pb: PasteboardView) -> Seq<u32> {
    (if pb.image() is Some {
        seq![CF_DIB]
    } else {
        seq![]
    }) + (if pb.text is Some {
        seq![CF_UNICODETEXT]
    } else {
        seq![]
    })
}

/// The format list to advertise for what is on the pasteboard, best first.
pub fn advertised_formats(pb: &Pasteboard) -> (out: Vec<u32>)
    ensures
        out@ == offered(pb@),
{
    let mut out: Vec<u32> = Vec::new();
    if has_image(pb) {
        out.push(CF_DIB);
    }
    if has_string(pb) {
        out.push(CF_UNICODETEXT);
    }
    assert(out@ =~= offered(pb@));
    out
}

/// The formats to announce for the pasteboard, if its contents are not the ones seen
/// before and there is anything to offer.
pub open spec fn announced(last_seen: i64, pb: PasteboardView) -> Option<Seq<u32>> {
    if pb.change_count != last_seen && offered(pb).len() > 0 {
        Some(offered(pb))
    } else {
        None
    }
}

/// Notices copies made on the Mac.
pub struct ClipboardPoller {
    pub last_seen: i64,
}

impl ClipboardPoller {
    /// Starts from the current count, so that what was on the pasteboard before
    /// is not announced.
    pub fn new(pb: &Pasteboard) -> (r: Self)
        ensures
            r.last_seen == pb@.change_count,
    {
        ClipboardPoller { last_seen: change_count(pb) }
    }

    /// One look at the pasteboard: the formats to announce, if the contents
    /// changed since the last look and there is anything to offer.
    pub fn poll(&mut self, pb: &Pasteboard) -> (r: Option<Vec<u32>>)
        ensures
            final(self).last_seen == pb@.change_count,
            match r {
                Some(formats) => announced(old(self).last_seen, pb@) == Some(formats@),
                None => announced(old(self).last_seen, pb@) is None,
            },
    {
        let current: i64 = change_count(pb);
        if current == self.last_seen {
            return None;
        }
        self.last_seen = current;
        let formats = advertised_formats(pb);
        if formats.len() == 0 {
            None
        } else {
            Some(formats)
        }
    }
}

/// The format to ask the client for: the better bitmap, the plain bitmap, text.
pub open spec fn preferred(available: Seq<u32>) -> Option<u32> {
    if available.contains(CF_DIBV5) {
        Some(CF_DIBV5)
    } else if available.contains(CF_DIB) {
        Some(CF_DIB)
    } else if available.contains(CF_UNICODETEXT) {
        Some(CF_UNICODETEXT)
    } else {
        None
    }
}

fn holds(available: &[u32], id: u32) -> (r: bool)
    ensures
        r == available@.contains(id),
{
    let mut i: usize = 0;
    while i < available.len()
        invariant
            i <= available@.len(),
            forall|j: int| 0 <= j < i ==> available@[j] != id,
        decreases available@.len() - i,
    {
        if available[i] == id {
            assert(available@[i as int] == id);
            return true;
        }
        i = i + 1;
    }
    false
}

/// The bytes of code units, least significant byte of each first.
pub open spec fn unit_bytes(units: Seq<u16>) -> Seq<u8> {
    Seq::new(
        2 * units.len(),
        |i: int|
            if i % 2 == 0 {
                (units[i / 2] % 256) as u8
            } else {
                (units[i / 2] / 256) as u8
            },
    )
}

/// The code units in a payload of even length.
pub open spec fn payload_units(data: Seq<u8>) -> Seq<u16> {
    Seq::new(data.len() / 2, |i: int| wire::le16_at(data, 2 * i))
}

/// A `CF_UNICODETEXT` payload: UTF-16LE with one zero at the end.
pub open spec fn text_payload(s: Seq<char>) -> Seq<u8> {
    unit_bytes(utf16::utf16(s).push(0))
}

/// Code units without one zero at their end.
pub open spec fn without_terminator(units: Seq<u16>) -> Seq<u16> {
    if units.len() > 0 && units.last() == 0 {
        units.drop_last()
    } else {
        units
    }
}

/// The text with the given code units, if there is one.
pub open spec fn text_of_units(units: Seq<u16>) -> Option<Seq<char>> {
    if exists|s: Seq<char>| #[trigger] utf16::utf16(s) == units {
        Some(choose|s: Seq<char>| #[trigger] utf16::utf16(s) == units)
    } else {
        None
    }
}

/// Lays a text out as a `CF_UNICODETEXT` payload.
pub fn encode_text(s: &str) -> (out: Vec<u8>)
    ensures
        out@ == text_payload(s@),
{
    let mut units = utf16::encode(s);
    units.push(0);
    let mut out: Vec<u8> = Vec::new();
    let mut i: usize = 0;
    while i < units.len()
        invariant
            i <= units@.len(),
            out@ == unit_bytes(units@).subrange(0, 2 * i),
        decreases units@.len() - i,
    {
        wire::push_le16(&mut out, units[i]);
        i = i + 1;
        assert(out@ =~= unit_bytes(units@).subrange(0, 2 * i));
    }
    assert(unit_bytes(units@).subrange(0, 2 * i) =~= unit_bytes(units@));
    out
}

/// What became of a payload from the client.
#[derive(Debug, Clone, Copy, PartialEq, Eq)]
pub enum Incoming {
    /// The text went to the pasteboard.
    Text,
    /// The picture went to the pasteboard.
    Image,
    /// The client reported an error.
    RemoteError,
    /// The payload is longer than what is accepted.
    TooLarge(usize),
    /// UTF-16 with half a unit at its end.
    OddLength(usize),
    /// Not well-formed UTF-16.
    BadText,
    /// Not a bitmap that is understood.
    BadImage(DibError),
    /// A format that was never asked for.
    UnexpectedFormat(u32),
}

/// What a reply to a request for `requested` does: how it is classed, and the
/// pasteboard afterwards. A reply to no known request is taken for text.
pub open spec fn received(requested: Option<u32>, reply: Option<Seq<u8>>, pb: PasteboardView) -> (
    Incoming,
    PasteboardView,
) {
    match reply {
        None => (Incoming::RemoteError, pb),
        Some(data) => if data.len() > MAX_INCOMING_PAYLOAD {
            (Incoming::TooLarge(data.len() as usize), pb)
        } else if requested is None || requested == Some(CF_UNICODETEXT) {
            if data.len() % 2 != 0 {
                (Incoming::OddLength(data.len() as usize), pb)
            } else {
                match text_of_units(without_terminator(payload_units(data))) {
                    Some(s) => (Incoming::Text, pb.with_text(s)),
                    None => (Incoming::BadText, pb),
                }
            }
        } else if requested == Some(CF_DIB) || requested == Some(CF_DIBV5) {
            match dib::png_of_dib(data) {
                Ok(png) => (Incoming::Image, pb.with_png(png)),
                Err(e) => (Incoming::BadImage(e), pb),
            }
        } else {
            (Incoming::UnexpectedFormat(requested->0), pb)
        },
    }
}

/// What to answer a request for `format` with; `None` is the error reply.
pub open spec fn answer(format: u32, pb: PasteboardView) -> Option<Seq<u8>> {
    if format == CF_UNICODETEXT {
        match pb.text {
            Some(s) => Some(text_payload(s)),
            None => None,
        }
    } else if format == CF_DIB {
        match pb.image_png() {
            Some(png) => match dib::dib_of_decoded(dib::decoded_image(png)) {
                Ok(d) => Some(d),
                Err(_) => None,
            },
            None => None,
        }
    } else {
        None
    }
}

/// The server's side of the clipboard channel.
pub struct MacCliprdrBackend {
    /// The format last asked of the client. A reply does not say which format it
    /// holds.
    pub last_requested: Option<u32>,
}

impl MacCliprdrBackend {
    /// Nothing asked for yet.
    pub fn new() -> (r: Self)
        ensures
            r.last_requested is None,
    {
        MacCliprdrBackend { last_requested: None }
    }

    /// The channel is up, or the client asks for the list again: the formats to
    /// announce, if there are any.
    pub fn on_ready(&self, pb: &Pasteboard) -> (r: Option<Vec<u32>>)
        ensures
            match r {
                Some(formats) => formats@ == offered(pb@) && formats@.len() > 0,
                None => offered(pb@).len() == 0,
            },
    {
        let formats = advertised_formats(pb);
        if formats.len() == 0 {
            None
        } else {
            Some(formats)
        }
    }

    /// The client copied something: the format to ask it for. Where it offers
    /// none that is understood, the earlier request stands.
    pub fn on_remote_copy(&mut self, available: &[u32]) -> (r: Option<u32>)
        ensures
            r == preferred(available@),
            final(self).last_requested == (if preferred(available@) is Some {
                preferred(available@)
            } else {
                old(self).last_requested
            }),
    {
        let pick: Option<u32> = if holds(available, CF_DIBV5) {
            Some(CF_DIBV5)
        } else if holds(available, CF_DIB) {
            Some(CF_DIB)
        } else if holds(available, CF_UNICODETEXT) {
            Some(CF_UNICODETEXT)
        } else {
            None
        };
        if pick.is_some() {
            self.last_requested = pick;
        }
        pick
    }

    /// The client asks for the contents in one format; `None` is the error reply.
    /// A picture is answered with its own bitmap whichever encoding it was found in,
    /// up to the decoder's allocation limit.
    pub fn on_format_data_request(&self, format: u32, pb: &Pasteboard) -> (r: Option<Vec<u8>>)
        ensures
            match r {
                Some(data) => answer(format, pb@) == Some(data@),
                None => answer(format, pb@) is None,
            },
            format == CF_DIB ==> (pb@.image() matches Some((_, found)) ==> dib::has_pixels(
                dib::decoded_image(found),
            ) && dib::within_limit(dib::decoded_image(found)) ==> (r matches Some(data)
                && dib::dib_of_decoded(dib::decoded_image(found)) == Ok::<Seq<u8>, DibError>(
                data@,
            ))),
    {
        if format == CF_UNICODETEXT {
            match &pb.text {
                Some(s) => Some(encode_text(s.as_str())),
                None => None,
            }
        } else if format == CF_DIB {
            match read_image_bytes(pb) {
                Some((_, bytes)) => match dib::png_or_tiff_to_dib(bytes.as_slice()) {
                    Ok(d) => Some(d),
                    Err(_) => None,
                },
                None => None,
            }
        } else {
            None
        }
    }

    /// The client's reply to the last request; `None` is the error reply. The
    /// request is used up whatever the reply says.
    pub fn on_format_data_response(&mut self, reply: Option<&[u8]>, pb: &mut Pasteboard) -> (r:
        Incoming)
        ensures
            final(self).last_requested is None,
            (r, final(pb)@) == received(
                old(self).last_requested,
                match reply {
                    Some(d) => Some(d@),
                    None => None,
                },
                old(pb)@,
            ),
            (old(self).last_requested == Some(CF_DIB) || old(self).last_requested == Some(
                CF_DIBV5,
            )) ==> (reply matches Some(d) ==> d@.len() <= MAX_INCOMING_PAYLOAD ==> {
                &&& r == Incoming::Image <==> dib::dib_picture(d@) is Ok
                &&& r == Incoming::Image ==> (final(pb)@.png matches Some(png) && dib::shows(
                    png,
                    d@,
                ))
            }),
    {
        let requested: Option<u32> = self.last_requested.take();
        let data = match reply {
            None => {
                return Incoming::RemoteError;
            },
            Some(d) => d,
        };
        if data.len() > MAX_INCOMING_PAYLOAD {
            return Incoming::TooLarge(data.len());
        }
        let id: u32 = match requested {
            Some(id) => id,
            None => CF_UNICODETEXT,
        };
        if id == CF_UNICODETEXT {
            if data.len() % 2 != 0 {
                return Incoming::OddLength(data.len());
            }
            let mut units: Vec<u16> = Vec::new();
            let total: usize = data.len();
            let n: usize = total / 2;
            let mut i: usize = 0;
            while i < n
                invariant
                    i <= n,
                    n == total / 2,
                    total == data@.len(),
                    units@ == payload_units(data@).subrange(0, i as int),
                decreases n - i,
            {
                units.push(wire::read_le16(data, 2 * i));
                i = i + 1;
                assert(units@ =~= payload_units(data@).subrange(0, i as int));
            }
            assert(payload_units(data@).subrange(0, i as int) =~= payload_units(data@));
            if units.len() > 0 && units[units.len() - 1] == 0 {
                units.pop();
            }
            assert(units@ =~= without_terminator(payload_units(data@)));
            match utf16::decode(units.as_slice()) {
                Some(s) => {
                    proof {
                        utf16::law_utf16_is_injective(s@, text_of_units(units@)->0);
                    }
                    write_string(pb, s.as_str());
                    Incoming::Text
                },
                None => Incoming::BadText,
            }
        } else if id == CF_DIB || id == CF_DIBV5 {
            match dib::dib_to_png(data) {
                Ok(png) => {
                    write_png(pb, png.as_slice());
                    Incoming::Image
                },
                Err(e) => Incoming::BadImage(e),
            }
        } else {
            Incoming::UnexpectedFormat(id)
        }
    }
}

/// Text that one side copies is the text that the other side pastes: the payload
/// sent for a text, received as the reply to a request for text, puts that same
/// text on the pasteboard, whatever characters it holds.
pub proof fn law_text_survives_the_clipboard(s: Seq<char>, pb: PasteboardView)
    requires
        text_payload(s).len() <= MAX_INCOMING_PAYLOAD,
    ensures
        received(Some(CF_UNICODETEXT), Some(text_payload(s)), pb) == (
            Incoming::Text,
            pb.with_text(s),
        ),
{
    let data = text_payload(s);
    let units = utf16::utf16(s).push(0);
    assert forall|i: int| 0 <= i < units.len() implies payload_units(data)[i] == units[i] by {
        assert((2 * i) / 2 == i && (2 * i + 1) / 2 == i);
        assert(data[2 * i] == (units[i] % 256) as u8);
        assert(data[2 * i + 1] == (units[i] / 256) as u8);
    }
    assert(payload_units(data) =~= units);
    assert(without_terminator(units) =~= utf16::utf16(s));
    let t = text_of_units(utf16::utf16(s))->0;
    utf16::law_utf16_is_injective(s, t);
}

/// A picture that one side copies is the picture that the other side pastes: the
/// bitmap made from a decoded picture is received as exactly that picture, and
/// what goes to the pasteboard is the PNG of its pixels.
pub proof fn law_picture_survives_the_clipboard(
    format: u32,
    width: u32,
    height: u32,
    rgba: Seq<u8>,
    pb: PasteboardView,
)
    requires
        format == CF_DIB || format == CF_DIBV5,
        rgba.len() == 4 * width * height,
        0 < width <= i32::MAX,
        0 < height <= 0x8000_0000,
        40 + rgba.len() <= MAX_INCOMING_PAYLOAD,
    ensures
        received(Some(format), Some(dib::dib_bytes(width, height, rgba)), pb) == (
            match dib::png_encoding(rgba, width, height) {
                Some(png) => (Incoming::Image, pb.with_png(png)),
                None => (Incoming::BadImage(DibError::Codec), pb),
            }
        ),
{
    assert(dib::dib_header(width, height, rgba.len() as int).len() == 40);
    dib::law_dib_round_trip(width, height, rgba);
}

/// A text travels as its code units, two bytes each and the less significant first,
/// and one zero unit after them.
pub proof fn law_bytes_of_a_text(s: Seq<char>, i: int)
    ensures
        text_payload(s).len() == 2 * utf16::utf16(s).len() + 2,
        0 <= i < utf16::utf16(s).len() ==> text_payload(s)[2 * i] + 0x100 * text_payload(s)[2 * i
            + 1] == utf16::utf16(s)[i],
        text_payload(s)[2 * utf16::utf16(s).len() as int] == 0,
        text_payload(s)[2 * utf16::utf16(s).len() as int + 1] == 0,
{
    let n = utf16::utf16(s).len() as int;
    assert((2 * i) / 2 == i && (2 * i + 1) / 2 == i);
    assert((2 * n) / 2 == n && (2 * n + 1) / 2 == n);
}

/// A text arrives with or without the zero at its end, and only one zero is taken
/// off: any before it is a character of the text.
pub proof fn law_one_terminator_is_taken_off(units: Seq<u16>)
    ensures
        without_terminator(units.push(0)) == units,
        units.len() > 0 && units[units.len() - 1] != 0 ==> without_terminator(units) == units,
        without_terminator(Seq::empty()) == Seq::<u16>::empty(),
{
    assert(units.push(0).drop_last() =~= units);
}

/// Of what a client offers, a bitmap with the larger header comes before one with
/// the plain header, and that before text. Nothing else is asked for.
pub proof fn law_what_is_asked_for(available: Seq<u32>)
    ensures
        available.contains(17) ==> preferred(available) == Some(17u32),
        !available.contains(17) && available.contains(8) ==> preferred(available) == Some(8u32),
        !available.contains(17) && !available.contains(8) && available.contains(13) ==> preferred(
            available,
        ) == Some(13u32),
        !available.contains(17) && !available.contains(8) && !available.contains(13)
            ==> preferred(available) is None,
{
}

/// A picture on the pasteboard is offered as a bitmap and a text as text, the picture
/// first, and nothing else is offered.
pub proof fn law_what_is_offered(pb: PasteboardView)
    ensures
        offered(pb).contains(8) <==> pb.png is Some || pb.tiff is Some,
        offered(pb).contains(13) <==> pb.text is Some,
        forall|id: u32| #[trigger] offered(pb).contains(id) ==> id == 8 || id == 13,
        offered(pb).len() <= 2,
        offered(pb).len() == 2 ==> offered(pb) == seq![8u32, 13u32],
{
    let o = offered(pb);
    if pb.png is Some || pb.tiff is Some {
        assert(o[0] == 8);
    }
    if pb.text is Some {
        assert(o[o.len() - 1] == 13);
    }
    assert forall|id: u32| #[trigger] o.contains(id) implies id == 8 || id == 13 by {
        let k = choose|k: int| 0 <= k < o.len() && o[k] == id;
    }
    if o.len() == 2 {
        assert(o =~= seq![8u32, 13u32]);
    }
}

/// A copy is announced once: where the count is the one seen before nothing is, and
/// where it is another, all that is offered is, if there is anything.
pub proof fn law_copies_are_announced_once(last_seen: i64, pb: PasteboardView)
    ensures
        announced(pb.change_count, pb) is None,
        last_seen != pb.change_count ==> (announced(last_seen, pb) is Some <==> pb.png is Some
            || pb.tiff is Some || pb.text is Some),
        announced(last_seen, pb) matches Some(f) ==> f == offered(pb),
{
    if pb.png is Some || pb.tiff is Some {
        assert(offered(pb)[0] == 8);
    }
    if pb.text is Some {
        assert(offered(pb)[offered(pb).len() - 1] == 13);
    }
}

/// A PNG on the pasteboard goes before a TIFF, and as it is.
pub proof fn law_which_picture_is_taken(pb: PasteboardView)
    ensures
        pb.png matches Some(b) ==> pb.image() == Some((ImageEncoding::Png, b)) && pb.image_png()
            == Some(b),
        pb.png is None ==> (pb.tiff matches Some(b) ==> pb.image() == Some(
            (ImageEncoding::Tiff, b),
        )),
        pb.png is None && pb.tiff is None ==> pb.image() is None && pb.image_png() is None,
{
}

/// What is put on the pasteboard is all that is on it afterwards, and its count has
/// gone up by one, so that the change is seen.
pub proof fn law_contents_are_replaced(pb: PasteboardView, s: Seq<char>, png: Seq<u8>)
    ensures
        pb.with_text(s).text == Some(s),
        pb.with_text(s).image() is None,
        pb.with_png(png).text is None,
        pb.with_png(png).image() == Some((ImageEncoding::Png, png)),
        pb.change_count < i64::MAX ==> pb.with_text(s).change_count == pb.change_count + 1,
        pb.change_count < i64::MAX ==> pb.with_png(png).change_count == pb.change_count + 1,
        pb.with_text(s).change_count != pb.change_count,
        pb.with_png(png).change_count != pb.change_count,
{
}

/// What a reply leaves the pasteboard as it was: an error, more than 50 MiB, half a
/// code unit, what is no text and no bitmap, and what was never asked for. It says
/// which. Nothing that is taken is put on it under another name.
pub proof fn law_what_a_reply_does(
    requested: Option<u32>,
    data: Seq<u8>,
    pb: PasteboardView,
)
    requires
        data.len() <= usize::MAX,
    ensures
        received(requested, None, pb) == (Incoming::RemoteError, pb),
        data.len() > 50 * 1024 * 1024 <==> received(requested, Some(data), pb).0 is TooLarge,
        data.len() > 50 * 1024 * 1024 ==> received(requested, Some(data), pb) == (
            Incoming::TooLarge(data.len() as usize),
            pb,
        ),
        data.len() <= 50 * 1024 * 1024 ==> match requested {
            None => received(None, Some(data), pb) == received(Some(13), Some(data), pb),
            Some(id) => if id == 13 {
                &&& data.len() % 2 == 1 <==> received(requested, Some(data), pb).0 is OddLength
                &&& received(requested, Some(data), pb).0 is BadText ==> received(
                    requested,
                    Some(data),
                    pb,
                ).1 == pb
                &&& received(requested, Some(data), pb).0 matches Incoming::OddLength(n) ==> n
                    == data.len() && received(requested, Some(data), pb).1 == pb
            } else if id == 8 || id == 17 {
                &&& received(requested, Some(data), pb).0 is Image || received(
                    requested,
                    Some(data),
                    pb,
                ) == (received(requested, Some(data), pb).0, pb)
                &&& received(Some(8), Some(data), pb) == received(Some(17), Some(data), pb)
            } else {
                received(requested, Some(data), pb) == (Incoming::UnexpectedFormat(id), pb)
            },
        },
{
}

/// A request for text is answered with the text and one for a plain bitmap with the
/// picture, where they are there; no other request is answered.
pub proof fn law_which_requests_are_answered(format: u32, pb: PasteboardView)
    ensures
        answer(13, pb) == (match pb.text {
            Some(s) => Some(text_payload(s)),
            None => None,
        }),
        pb.png is None && pb.tiff is None ==> answer(8, pb) is None,
        pb.png matches Some(png) ==> (dib::dib_of_decoded(dib::decoded_image(png)) matches Ok(d)
            ==> answer(8, pb) == Some(d)),
        format != 8 && format != 13 ==> answer(format, pb) is None,
{
}

/// The contents of the pasteboard are what it holds: its count, its text and its
/// pictures, each as it is and each only where it is there.
pub proof fn law_what_the_pasteboard_holds(pb: Pasteboard)
    ensures
        pb@.change_count == pb.change_count,
        pb.text matches Some(s) ==> pb@.text == Some(s@),
        pb.png matches Some(b) ==> pb@.png == Some(b@),
        pb.tiff matches Some(b) ==> pb@.tiff == Some(b@),
        pb.text is None <==> pb@.text is None,
        pb.png is None <==> pb@.png is None,
        pb.tiff is None <==> pb@.tiff is None,
{
}

} // verus!
