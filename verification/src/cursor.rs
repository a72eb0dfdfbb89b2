//! Forwarding the Mac's cursor shape to the client.
//!
//! A shape is sent when its hash differs from that of the last shape sent. The
//! position is not forwarded: clients predict it from the user's own movements,
//! and a late update would make the pointer jump back.

use crate::pixels;
use crate::wire;
use std::collections::hash_map::DefaultHasher;
use std::hash::Hasher;
use vstd::prelude::*;
use vstd::std_specs::hash::DefaultHasherAdditionalSpecFns;

verus! {

/// The largest cursor that is forwarded, in pixels along each edge.
pub const MAX_CURSOR_EDGE: i64 = 256;

/// A cursor shape: RGBA pixels in tight rows, and the pixel that points.
pub struct RgbaPointer {
    pub width: u16,
    pub height: u16,
    pub hot_x: u16,
    pub hot_y: u16,
    pub data: Vec<u8>,
}

/// Whether a cursor image has a size that is forwarded.
pub open spec fn forwardable(width: i64, height: i64) -> bool {
    1 <= width <= MAX_CURSOR_EDGE && 1 <= height <= MAX_CURSOR_EDGE
}

/// Whether a bitmap of this size and stride holds all of its pixels.
pub open spec fn bitmap_complete(len: int, stride: int, width: i64, height: i64) -> bool {
    forwardable(width, height) ==> pixels::rows_fit(len, 0, stride, 4 * width, height as int)
}

/// Packs the drawn image of a cursor, whose rows may be padded. An image without
/// pixels, or one that is too large, is not forwarded.
pub fn cursor_from_bitmap(
    bitmap: &[u8],
    stride: usize,
    width: i64,
    height: i64,
    hot_x: u16,
    hot_y: u16,
) -> (r: Option<RgbaPointer>)
    requires
        bitmap_complete(bitmap@.len() as int, stride as int, width, height),
    ensures
        match r {
            Some(p) => {
                &&& forwardable(width, height)
                &&& p.width == width && p.height == height
                &&& p.hot_x == hot_x && p.hot_y == hot_y
                &&& p.data@ == pixels::packed_rows(
                    bitmap@,
                    0,
                    stride as int,
                    4 * width,
                    height as int,
                )
                &&& p.data@.len() == 4 * width * height
            },
            None => !forwardable(width, height),
        },
{
    if width < 1 || width > MAX_CURSOR_EDGE || height < 1 || height > MAX_CURSOR_EDGE {
        return None;
    }
    let row_bytes: usize = width as usize * 4;
    let data = pixels::copy_rows(bitmap, 0, stride, row_bytes, height as usize);
    proof {
        pixels::lemma_packed_len(bitmap@, 0, stride as int, row_bytes as int, height as int);
    }
    Some(RgbaPointer { width: width as u16, height: height as u16, hot_x, hot_y, data })
}

/// The size and the hot spot of a shape, as bytes.
pub open spec fn geometry(s: RgbaPointer) -> Seq<u8> {
    wire::le16(s.width) + wire::le16(s.height) + wire::le16(s.hot_x) + wire::le16(s.hot_y)
}

/// What a shape is told apart by: the standard hash of its pixels, then its size and
/// its hot spot, so that the same pixels in another size are another shape.
pub open spec fn shape_key(s: RgbaPointer) -> u64 {
    DefaultHasher::spec_finish(Seq::<Seq<u8>>::empty().push(s.data@).push(geometry(s)))
}

fn shape_hash(s: &RgbaPointer) -> (h: u64)
    ensures
        h == shape_key(*s),
{
    let mut tail: Vec<u8> = Vec::new();
    wire::push_le16(&mut tail, s.width);
    wire::push_le16(&mut tail, s.height);
    wire::push_le16(&mut tail, s.hot_x);
    wire::push_le16(&mut tail, s.hot_y);
    assert(tail@ =~= geometry(*s));
    let mut hasher = DefaultHasher::new();
    hasher.write(s.data.as_slice());
    hasher.write(tail.as_slice());
    hasher.finish()
}

/// The cursor as the client last saw it.
pub struct CursorState {
    /// The hash of the last shape sent; 0 before the first.
    pub last_hash: u64,
}

impl CursorState {
    /// No shape sent yet.
    pub fn new() -> (r: Self)
        ensures
            r.last_hash == 0,
    {
        CursorState { last_hash: 0 }
    }

    /// The shape to send, given its hash: none where the hash is that of the last
    /// one.
    pub fn poll_shape(&mut self, shape: Option<RgbaPointer>, hash: u64) -> (r: Option<RgbaPointer>)
        ensures
            r == shape_to_send(old(self).last_hash, shape, hash),
            final(self).last_hash == hash_after(old(self).last_hash, shape, hash),
    {
        match shape {
            None => None,
            Some(s) => {
                if hash == self.last_hash {
                    None
                } else {
                    self.last_hash = hash;
                    Some(s)
                }
            },
        }
    }

    /// One look at the cursor: the update to send, if its shape changed. `shape`
    /// is the current cursor, where it could be read.
    pub fn poll(&mut self, shape: Option<RgbaPointer>) -> (r: Option<RgbaPointer>)
        ensures
            match shape {
                Some(s) => {
                    &&& r == shape_to_send(old(self).last_hash, shape, shape_key(s))
                    &&& final(self).last_hash == shape_key(s)
                },
                None => r is None && final(self).last_hash == old(self).last_hash,
            },
    {
        let hash: u64 = match &shape {
            Some(s) => shape_hash(s),
            None => self.last_hash,
        };
        self.poll_shape(shape, hash)
    }
}

/// The shape to send for one look at the cursor.
pub open spec fn shape_to_send(last_hash: u64, shape: Option<RgbaPointer>, hash: u64) -> Option<
    RgbaPointer,
> {
    if shape is Some && hash != last_hash {
        shape
    } else {
        None
    }
}

/// The hash that is remembered after one look at the cursor.
pub open spec fn hash_after(last_hash: u64, shape: Option<RgbaPointer>, hash: u64) -> u64 {
    if shape is Some {
        hash
    } else {
        last_hash
    }
}

/// Whether two cursors look alike: the same pixels, size and hot spot.
pub open spec fn same_shape(a: RgbaPointer, b: RgbaPointer) -> bool {
    &&& a.data@ == b.data@
    &&& a.width == b.width && a.height == b.height
    &&& a.hot_x == b.hot_x && a.hot_y == b.hot_y
}

/// A shape is sent once: after a look at one cursor, a look at one that is alike
/// sends nothing, however often, and a look at one with another key sends it.
pub proof fn law_unchanged_shape_is_sent_once(
    last_hash: u64,
    first: RgbaPointer,
    again: RgbaPointer,
)
    ensures
        ({
            let seen = hash_after(last_hash, Some(first), shape_key(first));
            let sent = shape_to_send(seen, Some(again), shape_key(again));
            &&& same_shape(first, again) ==> sent is None && hash_after(
                seen,
                Some(again),
                shape_key(again),
            ) == seen
            &&& shape_key(again) != shape_key(first) ==> sent == Some(again)
        }),
{
}

/// A cursor is forwarded if it has between 1 and 256 pixels along each edge.
pub proof fn law_which_cursors_are_forwarded(width: i64, height: i64)
    ensures
        forwardable(width, height) <==> 0 < width < 257 && 0 < height < 257,
{
}

/// Each pixel of a forwarded cursor is the pixel of the drawn image at the same
/// place, all four channels, whatever the padding of the image's rows.
pub proof fn law_pixels_of_a_cursor(
    bitmap: Seq<u8>,
    stride: int,
    width: i64,
    height: i64,
    x: int,
    y: int,
    channel: int,
)
    requires
        0 <= stride,
        bitmap_complete(bitmap.len() as int, stride, width, height),
        0 < width <= 256,
        0 < height <= 256,
        0 <= x < width,
        0 <= y < height,
        0 <= channel < 4,
    ensures
        pixels::packed_rows(bitmap, 0, stride, 4 * width, height as int)[y * (4 * width) + 4 * x
            + channel] == bitmap[y * stride + 4 * x + channel],
{
    pixels::law_packed_bytes(bitmap, 0, stride, 4 * width, height as int, y, 4 * x + channel);
}

/// Size and hot spot can be read off the bytes that stand for them, so that cursors
/// which differ in either are told apart by what is hashed.
pub proof fn law_geometry_tells_shapes_apart(a: RgbaPointer, b: RgbaPointer)
    ensures
        geometry(a).len() == 8,
        geometry(a)[0] + 0x100 * geometry(a)[1] == a.width,
        geometry(a)[2] + 0x100 * geometry(a)[3] == a.height,
        geometry(a)[4] + 0x100 * geometry(a)[5] == a.hot_x,
        geometry(a)[6] + 0x100 * geometry(a)[7] == a.hot_y,
        geometry(a) == geometry(b) && a.data@ == b.data@ ==> same_shape(a, b),
{
    wire::law_bytes_are_digits(a.width, 0);
    wire::law_bytes_are_digits(a.height, 0);
    wire::law_bytes_are_digits(a.hot_x, 0);
    wire::law_bytes_are_digits(a.hot_y, 0);
    wire::law_bytes_are_digits(b.width, 0);
    wire::law_bytes_are_digits(b.height, 0);
    wire::law_bytes_are_digits(b.hot_x, 0);
    wire::law_bytes_are_digits(b.hot_y, 0);
    let (g, h) = (geometry(a), geometry(b));
    assert(g[0] == wire::le16(a.width)[0] && g[1] == wire::le16(a.width)[1]);
    assert(g[2] == wire::le16(a.height)[0] && g[3] == wire::le16(a.height)[1]);
    assert(g[4] == wire::le16(a.hot_x)[0] && g[5] == wire::le16(a.hot_x)[1]);
    assert(g[6] == wire::le16(a.hot_y)[0] && g[7] == wire::le16(a.hot_y)[1]);
    assert(h[0] == wire::le16(b.width)[0] && h[1] == wire::le16(b.width)[1]);
    assert(h[2] == wire::le16(b.height)[0] && h[3] == wire::le16(b.height)[1]);
    assert(h[4] == wire::le16(b.hot_x)[0] && h[5] == wire::le16(b.hot_x)[1]);
    assert(h[6] == wire::le16(b.hot_y)[0] && h[7] == wire::le16(b.hot_y)[1]);
}

/// Nothing is sent where the cursor cannot be read, and then nothing is forgotten.
/// What is sent is the cursor that was looked at, and it is remembered.
pub proof fn law_what_a_look_sends(last_hash: u64, shape: RgbaPointer, hash: u64)
    ensures
        shape_to_send(last_hash, None, hash) is None,
        hash_after(last_hash, None, hash) == last_hash,
        shape_to_send(last_hash, Some(shape), last_hash) is None,
        hash != last_hash ==> shape_to_send(last_hash, Some(shape), hash) == Some(shape),
        hash_after(last_hash, Some(shape), hash) == hash,
{
}

} // verus!
