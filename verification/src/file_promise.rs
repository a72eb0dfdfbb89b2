//! Pasting the client's files on the Mac.
//!
//! A file that the client offers is a promise until Finder pastes it; only then
//! is it fetched, a range at a time. [`DownloadRouter`] hands each response to
//! the download that asked for it; [`Fetch`] decides what a download asks for
//! next and what it writes.

use std::collections::HashMap;

use ironrdp_cliprdr::pdu::FileContentsResponse;
use vstd::prelude::*;

use crate::wire;

verus! {

broadcast use vstd::std_specs::hash::group_hash_axioms;

/// How much of a file is asked for at a time.
pub const CHUNK_SIZE: u32 = 0x10_0000;

/// The type that promised files are offered under.
pub const PROMISED_FILE_TYPE: &'static str = "public.data";

/// Which download waits for which response.
pub struct DownloadRouter {
    /// The waiting downloads, by the id of the stream they wait for.
    pub pending: HashMap<u32, u64>,
    pub next_stream_id: u32,
}

/// The id that is given out next: zero means no stream, and is passed over.
pub open spec fn given_id(next: u32) -> u32 {
    if next == 0 {
        1
    } else {
        next
    }
}

/// The id after an id.
pub open spec fn following_id(id: u32) -> u32 {
    if id == u32::MAX {
        1
    } else {
        (id + 1) as u32
    }
}

/// The id that is given out `n` ids after `id`.
pub open spec fn later_id(id: u32, n: nat) -> u32
    decreases n,
{
    if n == 0 {
        id
    } else {
        following_id(later_id(id, (n - 1) as nat))
    }
}

/// The download that a response is for, if any waits for it, and those that wait
/// afterwards.
pub open spec fn delivered(pending: Map<u32, u64>, stream_id: u32) -> (
    Option<u64>,
    Map<u32, u64>,
) {
    (
        if pending.contains_key(stream_id) {
            Some(pending[stream_id])
        } else {
            None
        },
        pending.remove(stream_id),
    )
}

impl DownloadRouter {
    /// Nobody waits for anything.
    pub fn new() -> (r: Self)
        ensures
            r.pending@ == Map::<u32, u64>::empty(),
            r.next_stream_id == 0,
    {
        DownloadRouter { pending: HashMap::new(), next_stream_id: 0 }
    }

    /// Gives a download a stream to wait for. What is returned beside the id is
    /// the download that waited for that id and now never gets its response.
    pub fn register(&mut self, waiter: u64) -> (r: (u32, Option<u64>))
        ensures
            r.0 == given_id(old(self).next_stream_id),
            given_id(final(self).next_stream_id) == following_id(r.0),
            final(self).pending@ == old(self).pending@.insert(r.0, waiter),
            r.1 == (if old(self).pending@.contains_key(r.0) {
                Some(old(self).pending@[r.0])
            } else {
                None
            }),
    {
        let mut id: u32 = self.next_stream_id;
        self.next_stream_id = self.next_stream_id.wrapping_add(1);
        if id == 0 {
            id = self.next_stream_id;
            self.next_stream_id = self.next_stream_id.wrapping_add(1);
        }
        let displaced = self.pending.insert(id, waiter);
        (id, displaced)
    }

    /// The download that a response is for. Nobody may wait for it any more.
    pub fn deliver(&mut self, stream_id: u32) -> (r: Option<u64>)
        ensures
            (r, final(self).pending@) == delivered(old(self).pending@, stream_id),
            final(self).next_stream_id == old(self).next_stream_id,
    {
        let r = self.pending.remove(&stream_id);
        assert(self.pending@ =~= old(self).pending@.remove(stream_id));
        r
    }
}

/// What a request asks of a file.
#[derive(Debug, Clone, Copy, PartialEq, Eq, Structural)]
pub enum ContentsFlags {
    Size,
    Range,
}

/// A request for a part of a file.
#[derive(Debug, Clone, Copy, PartialEq, Eq, Structural)]
pub struct ContentsRequest {
    pub stream_id: u32,
    /// The file's place in the client's list.
    pub index: i32,
    pub flags: ContentsFlags,
    pub position: u64,
    pub requested_size: u32,
}

/// What came back for a request.
pub enum Response {
    /// The wait ended without a response.
    Closed,
    /// The client refused.
    Failed,
    Data(Vec<u8>),
}

/// Why a download failed.
#[derive(Debug, Clone, Copy, PartialEq, Eq, Structural)]
pub enum FetchError {
    SizeChannelClosed,
    SizeFailed,
    /// The size was not eight bytes.
    SizeDecode,
    RangeChannelClosed,
    RangeFailed { position: u64 },
    /// No bytes came back although the file goes on.
    ShortRead { position: u64, expected: u32 },
}

/// What a download does next.
pub enum FetchStep {
    /// Send this request and wait for its response.
    Request(ContentsRequest),
    /// Create the file.
    Create,
    /// Append this to the file.
    Write(Vec<u8>),
    /// Everything is written: flush.
    Flush,
    /// Give up, and remove what was written.
    Fail(FetchError),
}

/// The eight bytes of a number, least significant first, as that number.
pub open spec fn le64(b: Seq<u8>) -> int {
    wire::le32_at(b, 0) + wire::le32_at(b, 4) * 0x1_0000_0000
}

/// The size in the data of a response, by
/// `ironrdp_cliprdr::pdu::FileContentsResponse::data_as_size`: there is one
/// exactly when the data is eight bytes long, and it is the number that they are,
/// least significant byte first.
#[verifier::external_body]
fn data_as_size(data: &[u8]) -> (r: Option<u64>)
    ensures
        r is Some <==> data@.len() == 8,
        r matches Some(size) ==> size == le64(data@),
{
    FileContentsResponse::new_data_response(0, data).data_as_size().ok()
}

/// The download of one file.
pub struct Fetch {
    /// The file's place in the client's list.
    pub file_index: i32,
    /// The file's size, once it is known.
    pub total: Option<u64>,
    /// How much has been written.
    pub position: u64,
}

/// How much is asked for at a position.
pub open spec fn range_size(total: u64, position: u64) -> u32 {
    if total - position < CHUNK_SIZE {
        (total - position) as u32
    } else {
        CHUNK_SIZE
    }
}

/// What a download asks for first: the size, unless the offer gave it.
pub open spec fn first_request(f: Fetch, stream_id: u32) -> Option<ContentsRequest> {
    match f.total {
        Some(_) => None,
        None => Some(
            ContentsRequest {
                stream_id,
                index: f.file_index,
                flags: ContentsFlags::Size,
                position: 0,
                requested_size: 8,
            },
        ),
    }
}

/// What a download asks for next, while anything is missing.
pub open spec fn next_request(f: Fetch, stream_id: u32) -> Option<ContentsRequest> {
    if f.position < f.total->0 {
        Some(
            ContentsRequest {
                stream_id,
                index: f.file_index,
                flags: ContentsFlags::Range,
                position: f.position,
                requested_size: range_size(f.total->0, f.position),
            },
        )
    } else {
        None
    }
}

/// What the response to the request for the size leads to.
pub open spec fn sized(f: Fetch, response: Response) -> (Fetch, FetchStep) {
    match response {
        Response::Closed => (f, FetchStep::Fail(FetchError::SizeChannelClosed)),
        Response::Failed => (f, FetchStep::Fail(FetchError::SizeFailed)),
        Response::Data(data) => if data@.len() == 8 {
            (Fetch { total: Some(le64(data@) as u64), ..f }, FetchStep::Create)
        } else {
            (f, FetchStep::Fail(FetchError::SizeDecode))
        },
    }
}

/// What the response to a request for a range leads to.
pub open spec fn ranged(f: Fetch, response: Response) -> (Fetch, FetchStep) {
    match response {
        Response::Closed => (f, FetchStep::Fail(FetchError::RangeChannelClosed)),
        Response::Failed => (
            f,
            FetchStep::Fail(FetchError::RangeFailed { position: f.position }),
        ),
        Response::Data(data) => if data@.len() == 0 {
            (
                f,
                FetchStep::Fail(
                    FetchError::ShortRead {
                        position: f.position,
                        expected: range_size(f.total->0, f.position),
                    },
                ),
            )
        } else {
            (
                Fetch { position: (f.position + data@.len()) as u64, ..f },
                FetchStep::Write(data),
            )
        },
    }
}

impl Fetch {
    /// A file that Finder pastes. Its size may have come with the offer.
    pub fn new(file_index: i32, file_size: Option<u64>) -> (r: Self)
        ensures
            r == (Fetch { file_index, total: file_size, position: 0 }),
    {
        Fetch { file_index, total: file_size, position: 0 }
    }

    /// Starts the download: the size is asked for unless the offer gave it.
    pub fn start(&self, router: &mut DownloadRouter, waiter: u64) -> (r: FetchStep)
        ensures
            match first_request(*self, given_id(old(router).next_stream_id)) {
                None => r is Create && *final(router) == *old(router),
                Some(request) => {
                    &&& r == FetchStep::Request(request)
                    &&& final(router).pending@ == old(router).pending@.insert(
                        given_id(old(router).next_stream_id),
                        waiter,
                    )
                    &&& given_id(final(router).next_stream_id) == following_id(
                        given_id(old(router).next_stream_id),
                    )
                },
            },
    {
        match self.total {
            Some(_) => FetchStep::Create,
            None => {
                let (stream_id, _) = router.register(waiter);
                FetchStep::Request(
                    ContentsRequest {
                        stream_id,
                        index: self.file_index,
                        flags: ContentsFlags::Size,
                        position: 0,
                        requested_size: 8,
                    },
                )
            },
        }
    }

    /// The response to the request for the size came.
    pub fn on_size(&mut self, response: Response) -> (r: FetchStep)
        ensures
            (*final(self), r) == sized(*old(self), response),
    {
        match response {
            Response::Closed => FetchStep::Fail(FetchError::SizeChannelClosed),
            Response::Failed => FetchStep::Fail(FetchError::SizeFailed),
            Response::Data(data) => match data_as_size(data.as_slice()) {
                Some(size) => {
                    self.total = Some(size);
                    FetchStep::Create
                },
                None => FetchStep::Fail(FetchError::SizeDecode),
            },
        }
    }

    /// The file is created, or the last write done: asks for the next range.
    pub fn next(&self, router: &mut DownloadRouter, waiter: u64) -> (r: FetchStep)
        requires
            self.total is Some,
        ensures
            match next_request(*self, given_id(old(router).next_stream_id)) {
                Some(request) => {
                    &&& r == FetchStep::Request(request)
                    &&& final(router).pending@ == old(router).pending@.insert(
                        given_id(old(router).next_stream_id),
                        waiter,
                    )
                    &&& given_id(final(router).next_stream_id) == following_id(
                        given_id(old(router).next_stream_id),
                    )
                },
                None => r is Flush && *final(router) == *old(router),
            },
    {
        let total: u64 = self.total.unwrap();
        if self.position < total {
            let requested_size: u32 = if total - self.position < CHUNK_SIZE as u64 {
                (total - self.position) as u32
            } else {
                CHUNK_SIZE
            };
            let (stream_id, _) = router.register(waiter);
            FetchStep::Request(
                ContentsRequest {
                    stream_id,
                    index: self.file_index,
                    flags: ContentsFlags::Range,
                    position: self.position,
                    requested_size,
                },
            )
        } else {
            FetchStep::Flush
        }
    }

    /// The response to a request for a range came.
    pub fn on_range(&mut self, response: Response) -> (r: FetchStep)
        requires
            old(self).total matches Some(total) && old(self).position < total,
            response matches Response::Data(data) ==> old(self).position + data@.len() <= u64::MAX,
        ensures
            (*final(self), r) == ranged(*old(self), response),
    {
        match response {
            Response::Closed => FetchStep::Fail(FetchError::RangeChannelClosed),
            Response::Failed => FetchStep::Fail(
                FetchError::RangeFailed { position: self.position },
            ),
            Response::Data(data) => {
                if data.len() == 0 {
                    let total: u64 = self.total.unwrap();
                    let expected: u32 = if total - self.position < CHUNK_SIZE as u64 {
                        (total - self.position) as u32
                    } else {
                        CHUNK_SIZE
                    };
                    return FetchStep::Fail(
                        FetchError::ShortRead { position: self.position, expected },
                    );
                }
                self.position = self.position + data.len() as u64;
                FetchStep::Write(data)
            },
        }
    }
}

/// What offering a list of files does with the promises that are kept alive.
pub struct PromisePlan {
    /// Whether the pasteboard is cleared and the new promises put on it.
    pub write: bool,
    /// How many promises are kept alive from here on.
    pub kept: usize,
}

/// What offering as many files as this does.
pub open spec fn promise_plan(files: usize) -> PromisePlan {
    PromisePlan { write: files > 0, kept: files }
}

/// Offers a list of files, which replaces the promises kept before. An empty list
/// leaves the pasteboard as it is.
pub fn write_promises_to_pasteboard(files: usize) -> (r: PromisePlan)
    ensures
        r == promise_plan(files),
{
    PromisePlan { write: files > 0, kept: files }
}

proof fn lemma_later_id(id: u32, n: nat)
    requires
        id != 0,
    ensures
        later_id(id, n) != 0,
        later_id(id, n) == (id - 1 + n) % (u32::MAX as int) + 1,
    decreases n,
{
    if n == 0 {
        vstd::arithmetic::div_mod::lemma_small_mod((id - 1) as nat, u32::MAX as nat);
    } else {
        let m = (n - 1) as nat;
        lemma_later_id(id, m);
        let before = id - 1 + m;
        let d = u32::MAX as int;
        vstd::arithmetic::div_mod::lemma_add_mod_noop(before, 1, d);
        vstd::arithmetic::div_mod::lemma_small_mod(1, u32::MAX as nat);
        let step = before % d + 1;
        if before % d == d - 1 {
            vstd::arithmetic::div_mod::lemma_mod_self_0(d);
        } else {
            vstd::arithmetic::div_mod::lemma_small_mod(step as nat, d as nat);
        }
    }
}

/// No stream gets the id zero, and an id comes again only after every other one
/// has been given out.
pub proof fn law_ids_come_round_last(id: u32, n: nat)
    requires
        id != 0,
        0 < n < u32::MAX,
    ensures
        later_id(id, n) != 0,
        later_id(id, n) != id,
        later_id(id, u32::MAX as nat) == id,
{
    lemma_later_id(id, n);
    lemma_later_id(id, u32::MAX as nat);
    let d = u32::MAX as int;
    let a = id - 1;
    assert((a + d) % d == a % d) by {
        vstd::arithmetic::div_mod::lemma_mod_multiples_vanish(1, a, d);
    }
    vstd::arithmetic::div_mod::lemma_small_mod(a as nat, d as nat);
    if a + n < d {
        vstd::arithmetic::div_mod::lemma_small_mod((a + n) as nat, d as nat);
    } else {
        vstd::arithmetic::div_mod::lemma_mod_multiples_vanish(1, a + n - d, d);
        vstd::arithmetic::div_mod::lemma_small_mod((a + n - d) as nat, d as nat);
    }
}

/// A response reaches the download that waits for it, whatever else is asked for
/// in the meantime under other ids, and reaches it once.
pub proof fn law_responses_are_routed(
    pending: Map<u32, u64>,
    id: u32,
    waiter: u64,
    other: u32,
    other_waiter: u64,
)
    requires
        other != id,
    ensures
        ({
            let registered = pending.insert(id, waiter);
            let meanwhile = registered.insert(other, other_waiter);
            &&& meanwhile.contains_key(id) && meanwhile[id] == waiter
            &&& registered.remove(other).contains_key(id) && registered.remove(other)[id] == waiter
            &&& !meanwhile.remove(id).contains_key(id)
        }),
{
}

/// What a download writes from a position on, when the client serves the file.
pub open spec fn served(content: Seq<u8>, position: int) -> Seq<u8>
    decreases content.len() - position,
{
    if 0 <= position < content.len() && content.len() <= u64::MAX {
        let n = range_size(content.len() as u64, position as u64) as int;
        content.subrange(position, position + n) + served(content, position + n)
    } else {
        Seq::empty()
    }
}

proof fn lemma_served(content: Seq<u8>, position: int)
    requires
        0 <= position <= content.len(),
        content.len() <= u64::MAX,
    ensures
        served(content, position) == content.subrange(position, content.len() as int),
    decreases content.len() - position,
{
    if position < content.len() {
        let n = range_size(content.len() as u64, position as u64) as int;
        lemma_served(content, position + n);
    }
    assert(served(content, position) =~= content.subrange(position, content.len() as int));
}

/// A file pasted on the Mac is the client's file, byte for byte.
pub proof fn law_download_is_the_file(content: Seq<u8>)
    requires
        content.len() <= u64::MAX,
    ensures
        served(content, 0) == content,
{
    lemma_served(content, 0);
    assert(content.subrange(0, content.len() as int) =~= content);
}

/// A client that answers with less than it was asked for does no harm: as long
/// as each answer is the next piece of the file, what is written stays the
/// beginning of the file, up to the position that is asked for next.
pub proof fn law_short_answers_are_resumed(content: Seq<u8>, position: int, n: int)
    requires
        0 <= position,
        0 < n,
        position + n <= content.len(),
    ensures
        content.subrange(0, position) + content.subrange(position, position + n)
            == content.subrange(0, position + n),
{
    assert(content.subrange(0, position) + content.subrange(position, position + n)
        =~= content.subrange(0, position + n));
}

/// A piece is a mebibyte, or what is left of the file if that is less: never more
/// than is there, and never nothing while anything is missing.
pub proof fn law_how_much_is_asked_for(total: u64, position: u64)
    requires
        position < total,
    ensures
        range_size(total, position) <= total - position,
        range_size(total, position) <= 1024 * 1024,
        range_size(total, position) == total - position || range_size(total, position) == 1024
            * 1024,
{
}

/// The size is asked for once, as eight bytes, and only where it is not known; then
/// the file is asked for from where the last piece ended, until nothing is missing.
/// Every request is for the file itself and under the stream that is waited for.
pub proof fn law_what_a_download_asks_for(f: Fetch, stream_id: u32)
    ensures
        first_request(f, stream_id) is Some <==> f.total is None,
        first_request(f, stream_id) matches Some(q) ==> {
            &&& q.stream_id == stream_id && q.index == f.file_index
            &&& q.flags == ContentsFlags::Size && q.position == 0 && q.requested_size == 8
        },
        f.total matches Some(total) ==> {
            &&& next_request(f, stream_id) is Some <==> f.position < total
            &&& next_request(f, stream_id) matches Some(q) ==> {
                &&& q.stream_id == stream_id && q.index == f.file_index
                &&& q.flags == ContentsFlags::Range && q.position == f.position
                &&& q.requested_size == range_size(total, f.position)
            }
        },
{
}

/// Eight bytes are a size, least significant first; anything else is none. A file is
/// created only once its size is known, and a response that fails changes nothing.
pub proof fn law_what_a_size_leads_to(f: Fetch, data: Vec<u8>)
    ensures
        sized(f, Response::Closed) == (f, FetchStep::Fail(FetchError::SizeChannelClosed)),
        sized(f, Response::Failed) == (f, FetchStep::Fail(FetchError::SizeFailed)),
        data@.len() != 8 ==> sized(f, Response::Data(data)) == (
            f,
            FetchStep::Fail(FetchError::SizeDecode),
        ),
        data@.len() == 8 ==> {
            let (g, step) = sized(f, Response::Data(data));
            &&& step is Create
            &&& g.position == f.position && g.file_index == f.file_index
            &&& g.total matches Some(size) && size == data@[0] + 0x100 * data@[1] + 0x1_0000
                * data@[2] + 0x100_0000 * data@[3] + 0x1_0000_0000 * (data@[4] + 0x100 * data@[5]
                + 0x1_0000 * data@[6] + 0x100_0000 * data@[7])
        },
{
    wire::law_reading_sums_digits(data@, 0);
    wire::law_reading_sums_digits(data@, 4);
}

/// The bytes of a piece are written as they came and the download goes on behind
/// them. No bytes, a refusal and the end of the wait each end the download where it
/// stands, and say where that is.
pub proof fn law_what_a_piece_leads_to(f: Fetch, data: Vec<u8>)
    requires
        f.total matches Some(total) && f.position < total,
        f.position + data@.len() <= u64::MAX,
    ensures
        ranged(f, Response::Closed) == (f, FetchStep::Fail(FetchError::RangeChannelClosed)),
        ranged(f, Response::Failed) == (
            f,
            FetchStep::Fail(FetchError::RangeFailed { position: f.position }),
        ),
        data@.len() == 0 ==> ranged(f, Response::Data(data)).0 == f && (ranged(
            f,
            Response::Data(data),
        ).1 matches FetchStep::Fail(FetchError::ShortRead { position, expected }) && position
            == f.position && expected == range_size(f.total->0, f.position)),
        data@.len() > 0 ==> {
            let (g, step) = ranged(f, Response::Data(data));
            &&& step == FetchStep::Write(data)
            &&& g.position == f.position + data@.len()
            &&& g.total == f.total && g.file_index == f.file_index
        },
{
}

/// Ids count up from 1, and 1 follows the largest.
pub proof fn law_ids_count_up(id: u32)
    ensures
        given_id(0) == 1,
        id > 0 ==> given_id(id) == id,
        id < 0xffff_ffff ==> following_id(id) == id + 1,
        following_id(0xffff_ffff) == 1,
{
}

/// A promise is kept alive for each file that is offered, and for no other; the
/// pasteboard is written only where there is one.
pub proof fn law_promises_are_kept(files: usize)
    ensures
        promise_plan(files).kept == files,
        promise_plan(files).write <==> files != 0,
{
}

/// A response goes to the download that was registered for its stream, once; to
/// others, and for streams that nobody waits for, it makes no difference.
pub proof fn law_each_response_is_delivered_once(
    pending: Map<u32, u64>,
    id: u32,
    waiter: u64,
    other: u32,
)
    ensures
        delivered(pending.insert(id, waiter), id).0 == Some(waiter),
        delivered(delivered(pending, id).1, id).0 is None,
        !pending.contains_key(id) ==> delivered(pending, id).0 is None,
        other != id ==> delivered(delivered(pending, id).1, other).0 == delivered(pending, other).0,
{
}

} // verus!
