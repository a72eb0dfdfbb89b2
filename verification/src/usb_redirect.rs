//! USB redirection: presents a USB device of the client on the Mac.
//!
//! The kernel raises transfers on a virtual host controller; each becomes one
//! call to the client, and each call's outcome becomes one completion. A device
//! that the client announces more than once is presented once.

use crate::text;
use crate::wire;
use std::collections::HashMap;
use std::collections::HashSet;
use vstd::prelude::*;

verus! {

/// Standard request code of GET_DESCRIPTOR.
pub const USB_REQ_GET_DESCRIPTOR: u8 = 0x06;

/// Descriptor type of a configuration.
pub const USB_DESCRIPTOR_TYPE_CONFIGURATION: u8 = 2;

/// Request type of a standard, device-directed read.
pub const USB_BMREQ_STANDARD_DEVICE_IN: u8 = 0x80;

/// The transfer went through.
pub const STATUS_OK: i32 = 0;

/// The endpoint stalls.
pub const STATUS_STALL: i32 = 1;

/// Bytes of a configuration descriptor's own header.
pub const CONFIGURATION_HEADER_LENGTH: u32 = 9;

/// The devices that have a controller now, by hardware identity.
pub struct PresentedDevices {
    pub keys: Vec<String>,
}

impl View for PresentedDevices {
    type V = Set<Seq<char>>;

    open spec fn view(&self) -> Set<Seq<char>> {
        Set::new(|k: Seq<char>| exists|i: int| 0 <= i < self.keys@.len() && self.keys@[i]@ == k)
    }
}

impl PresentedDevices {
    /// No identity is held twice.
    pub open spec fn wf(self) -> bool {
        forall|i: int, j: int|
            0 <= i < j < self.keys@.len() ==> self.keys@[i]@ != self.keys@[j]@
    }

    /// No device yet.
    pub fn new() -> (r: Self)
        ensures
            r.wf(),
            r@ == Set::<Seq<char>>::empty(),
    {
        let r = PresentedDevices { keys: Vec::new() };
        assert(r@ =~= Set::<Seq<char>>::empty());
        r
    }

    fn find(&self, key: &str) -> (r: Option<usize>)
        ensures
            match r {
                Some(i) => i < self.keys@.len() && self.keys@[i as int]@ == key@,
                None => !self@.contains(key@),
            },
    {
        let mut i: usize = 0;
        while i < self.keys.len()
            invariant
                i <= self.keys@.len(),
                forall|j: int| 0 <= j < i ==> self.keys@[j]@ != key@,
            decreases self.keys@.len() - i,
        {
            let wanted = key.to_owned();
            if self.keys[i] == wanted {
                return Some(i);
            }
            i = i + 1;
        }
        None
    }
}

/// Claims the slot for hardware identity `key`: `true` if this call won it,
/// `false` if another announcement holds it.
pub fn claim_device(presented: &mut PresentedDevices, key: &str) -> (won: bool)
    requires
        old(presented).wf(),
    ensures
        final(presented).wf(),
        won == !old(presented)@.contains(key@),
        final(presented)@ == old(presented)@.insert(key@),
{
    match presented.find(key) {
        Some(i) => {
            assert(presented@ =~= old(presented)@.insert(key@));
            false
        },
        None => {
            presented.keys.push(key.to_owned());
            proof {
                let before = old(presented).keys@;
                let after = presented.keys@;
                assert forall|k: Seq<char>| presented@.contains(k) == old(presented)@.insert(
                    key@,
                ).contains(k) by {
                    if old(presented)@.contains(k) {
                        let i = choose|i: int| 0 <= i < before.len() && before[i]@ == k;
                        assert(after[i]@ == k);
                    }
                    if k == key@ {
                        assert(after[before.len() as int]@ == k);
                    }
                    if presented@.contains(k) {
                        let i = choose|i: int| 0 <= i < after.len() && after[i]@ == k;
                        if i < before.len() {
                            assert(before[i]@ == k);
                        }
                    }
                }
                assert(presented@ =~= old(presented)@.insert(key@));
                assert forall|i: int, j: int| 0 <= i < j < after.len() implies after[i]@
                    != after[j]@ by {
                    if j == before.len() {
                        assert(before[i]@ != key@) by {
                            if before[i]@ == key@ {
                                assert(old(presented)@.contains(key@));
                            }
                        }
                    }
                }
            }
            true
        },
    }
}

/// Gives up the slot for `key`: its controller is gone.
pub fn release_device(presented: &mut PresentedDevices, key: &str)
    requires
        old(presented).wf(),
    ensures
        final(presented).wf(),
        final(presented)@ == old(presented)@.remove(key@),
{
    match presented.find(key) {
        Some(at) => {
            let _ = presented.keys.remove(at);
            proof {
                let before = old(presented).keys@;
                let after = presented.keys@;
                assert(after =~= before.remove(at as int));
                assert forall|k: Seq<char>| presented@.contains(k) == old(presented)@.remove(
                    key@,
                ).contains(k) by {
                    if presented@.contains(k) {
                        let i = choose|i: int| 0 <= i < after.len() && after[i]@ == k;
                        let j = if i < at {
                            i
                        } else {
                            i + 1
                        };
                        assert(before[j]@ == k);
                        if j < at {
                            assert(before[j]@ != before[at as int]@);
                        } else {
                            assert(before[at as int]@ != before[j]@);
                        }
                    }
                    if old(presented)@.contains(k) && k != key@ {
                        let j = choose|j: int| 0 <= j < before.len() && before[j]@ == k;
                        if j < at {
                            assert(after[j]@ == k);
                        } else {
                            assert(after[j - 1]@ == k);
                        }
                    }
                }
                assert(presented@ =~= old(presented)@.remove(key@));
                assert forall|i: int, j: int| 0 <= i < j < after.len() implies after[i]@
                    != after[j]@ by {
                    let bi = if i < at {
                        i
                    } else {
                        i + 1
                    };
                    let bj = if j < at {
                        j
                    } else {
                        j + 1
                    };
                    assert(before[bi]@ != before[bj]@);
                }
            }
        },
        None => {
            assert(presented@ =~= old(presented)@.remove(key@));
        },
    }
}

/// A device's identity as text: vendor, product and release, four hexadecimal
/// digits each. The client's own instance ids differ between announcements of
/// one device; these numbers do not.
pub open spec fn identity(vendor: u16, product: u16, release: u16) -> Seq<char> {
    text::hex4(vendor) + seq![':'] + text::hex4(product) + seq![':'] + text::hex4(release)
}

/// A device's identity as text.
pub fn hardware_key(vendor: u16, product: u16, release: u16) -> (key: String)
    ensures
        key@ == identity(vendor, product, release),
{
    let mut key = String::new();
    text::push_hex4(&mut key, vendor);
    key.push(':');
    text::push_hex4(&mut key, product);
    key.push(':');
    text::push_hex4(&mut key, release);
    assert(key@ =~= identity(vendor, product, release));
    key
}

/// A digit tells its value.
proof fn lemma_digit_tells(u: int, v: int)
    requires
        0 <= u < 16,
        0 <= v < 16,
        text::digit(u) == text::digit(v),
    ensures
        u == v,
{
}

/// The digits of a number tell the number.
proof fn lemma_hex4_tells(x: u16, y: u16)
    requires
        text::hex4(x) == text::hex4(y),
    ensures
        x == y,
{
    let (a, b) = (text::hex4(x), text::hex4(y));
    assert(a[0] == b[0] && a[1] == b[1] && a[2] == b[2] && a[3] == b[3]);
    lemma_digit_tells((x / 0x1000) as int, (y / 0x1000) as int);
    lemma_digit_tells((x / 0x100 % 16) as int, (y / 0x100 % 16) as int);
    lemma_digit_tells((x / 0x10 % 16) as int, (y / 0x10 % 16) as int);
    lemma_digit_tells((x % 16) as int, (y % 16) as int);
    let (x3, x2, x1, x0) = (x / 0x1000, x / 0x100 % 16, x / 0x10 % 16, x % 16);
    let (y3, y2, y1, y0) = (y / 0x1000, y / 0x100 % 16, y / 0x10 % 16, y % 16);
    assert(x == x3 * 0x1000 + x2 * 0x100 + x1 * 0x10 + x0) by (bit_vector)
        requires
            x3 == x / 0x1000,
            x2 == x / 0x100 % 16,
            x1 == x / 0x10 % 16,
            x0 == x % 16,
    ;
    assert(y == y3 * 0x1000 + y2 * 0x100 + y1 * 0x10 + y0) by (bit_vector)
        requires
            y3 == y / 0x1000,
            y2 == y / 0x100 % 16,
            y1 == y / 0x10 % 16,
            y0 == y % 16,
    ;
}

/// Devices that differ in vendor, product or release have different identities:
/// neither keeps the other from being presented.
pub proof fn law_identity_is_injective(v1: u16, p1: u16, r1: u16, v2: u16, p2: u16, r2: u16)
    requires
        identity(v1, p1, r1) == identity(v2, p2, r2),
    ensures
        v1 == v2 && p1 == p2 && r1 == r2,
{
    let (a, b) = (identity(v1, p1, r1), identity(v2, p2, r2));
    assert(a.subrange(0, 4) =~= text::hex4(v1) && b.subrange(0, 4) =~= text::hex4(v2));
    assert(a.subrange(5, 9) =~= text::hex4(p1) && b.subrange(5, 9) =~= text::hex4(p2));
    assert(a.subrange(10, 14) =~= text::hex4(r1) && b.subrange(10, 14) =~= text::hex4(r2));
    lemma_hex4_tells(v1, v2);
    lemma_hex4_tells(p1, p2);
    lemma_hex4_tells(r1, r2);
}

/// A device is presented once at a time: while its slot is held every other
/// claim loses, the claims of other devices are not affected, and once released
/// it can be claimed again.
pub proof fn law_one_controller_per_device(
    presented: Set<Seq<char>>,
    key: Seq<char>,
    other: Seq<char>,
)
    ensures
        presented.insert(key).contains(key),
        !presented.insert(key).remove(key).contains(key),
        other != key ==> presented.insert(key).contains(other) == presented.contains(other),
        other != key ==> presented.remove(key).contains(other) == presented.contains(other),
{
}

/// What a fetched device descriptor leads to.
pub enum DriveStep {
    /// The slot was won: present the device under this identity.
    Present(String),
    /// Another announcement of the same hardware is presented already.
    Duplicate(String),
    /// The descriptor could not be fetched.
    NoDescriptor,
}

/// Whether a step is what an announcement leads to, with these devices presented
/// before and after it.
pub open spec fn announced(
    r: DriveStep,
    descriptor: Option<(u16, u16, u16)>,
    before: Set<Seq<char>>,
    after: Set<Seq<char>>,
) -> bool {
    match descriptor {
        None => r is NoDescriptor && after == before,
        Some((v, p, rel)) => {
            &&& after == before.insert(identity(v, p, rel))
            &&& before.contains(identity(v, p, rel)) ==> (r matches DriveStep::Duplicate(k) && k@
                == identity(v, p, rel))
            &&& !before.contains(identity(v, p, rel)) ==> (r matches DriveStep::Present(k) && k@
                == identity(v, p, rel))
        },
    }
}

/// The client announced a device; `descriptor` is its vendor, product and
/// release, if they could be fetched.
pub fn drive_device(presented: &mut PresentedDevices, descriptor: Option<(u16, u16, u16)>) -> (r:
    DriveStep)
    requires
        old(presented).wf(),
    ensures
        final(presented).wf(),
        announced(r, descriptor, old(presented)@, final(presented)@),
{
    match descriptor {
        None => DriveStep::NoDescriptor,
        Some((v, p, rel)) => {
            let key = hardware_key(v, p, rel);
            if claim_device(presented, key.as_str()) {
                DriveStep::Present(key)
            } else {
                DriveStep::Duplicate(key)
            }
        },
    }
}

/// A pipe that the client opened for an endpoint.
#[derive(Debug, Clone, Copy, PartialEq, Eq, Structural)]
pub struct UsbPipe {
    pub endpoint_address: u8,
    pub pipe_handle: u32,
    pub is_bulk: bool,
}

/// The pipe handle of each endpoint. Where an endpoint is listed twice the later
/// pipe counts.
pub open spec fn pipe_handles(pipes: Seq<UsbPipe>) -> Map<u8, u32>
    decreases pipes.len(),
{
    if pipes.len() == 0 {
        Map::empty()
    } else {
        pipe_handles(pipes.drop_last()).insert(
            pipes.last().endpoint_address,
            pipes.last().pipe_handle,
        )
    }
}

/// The endpoints that are not bulk.
pub open spec fn interrupt_endpoints(pipes: Seq<UsbPipe>) -> Set<u8>
    decreases pipes.len(),
{
    if pipes.len() == 0 {
        Set::empty()
    } else if pipes.last().is_bulk {
        interrupt_endpoints(pipes.drop_last())
    } else {
        interrupt_endpoints(pipes.drop_last()).insert(pipes.last().endpoint_address)
    }
}

/// A transfer that the kernel raised.
pub enum TransferReq {
    /// A read on the control endpoint.
    ControlIn { token: u64, setup: [u8; 8], max_len: u32 },
    /// A write on the control endpoint.
    ControlOut { token: u64, setup: [u8; 8], data: Vec<u8> },
    /// A bulk or interrupt transfer. For a write `data` is the payload.
    Bulk { token: u64, endpoint_address: u8, is_in: bool, length: u32, data: Vec<u8> },
}

impl TransferReq {
    /// The token by which the kernel knows the transfer.
    pub open spec fn id(self) -> u64 {
        match self {
            TransferReq::ControlIn { token, .. } => token,
            TransferReq::ControlOut { token, .. } => token,
            TransferReq::Bulk { token, .. } => token,
        }
    }
}

/// Whether a request is the bulk transfer that the controller raises with these
/// values.
pub open spec fn raises_bulk(
    r: TransferReq,
    token: u64,
    endpoint_address: u32,
    is_in: i32,
    out_data: Option<Seq<u8>>,
    out_len: u32,
) -> bool {
    r matches TransferReq::Bulk { token: t, endpoint_address: e, is_in: i, length: l, data: d }
        && t == token && e == endpoint_address % 256 && i == (is_in != 0) && l == out_len && d@ == (
    match out_data {
        Some(b) => if is_in == 0 && out_len > 0 {
            b
        } else {
            Seq::<u8>::empty()
        },
        None => Seq::<u8>::empty(),
    })
}

/// A bulk transfer as the controller raises it: the endpoint is the low byte of
/// the address, a nonzero direction is a read, and only a write has a payload.
pub fn bulk_request(
    token: u64,
    endpoint_address: u32,
    is_in: i32,
    out_data: Option<&[u8]>,
    out_len: u32,
) -> (r: TransferReq)
    ensures
        raises_bulk(
            r,
            token,
            endpoint_address,
            is_in,
            match out_data {
                Some(b) => Some(b@),
                None => None,
            },
            out_len,
        ),
{
    let data: Vec<u8> = match out_data {
        Some(b) => if is_in == 0 && out_len > 0 {
            vstd::slice::slice_to_vec(b)
        } else {
            Vec::new()
        },
        None => Vec::new(),
    };
    TransferReq::Bulk {
        token,
        endpoint_address: (endpoint_address % 256) as u8,
        is_in: is_in != 0,
        length: out_len,
        data,
    }
}

/// A call to make on the client's device.
pub enum ClientCall {
    /// The dedicated descriptor read.
    GetDescriptor { descriptor_type: u8, index: u8, lang_id: u16, max_len: u32 },
    /// Any other control read, with its setup packet as it is.
    ControlIn { setup: [u8; 8], max_len: u32 },
    ControlOut { setup: [u8; 8], data: Vec<u8> },
    BulkIn { pipe: u32, length: u32 },
    BulkOut { pipe: u32, data: Vec<u8> },
}

/// What is remembered of a transfer while the client works on it.
#[derive(Debug, Clone, Copy, PartialEq, Eq, Structural)]
pub enum Pending {
    ControlIn { token: u64 },
    ControlOut { token: u64 },
    BulkIn { token: u64, interrupt: bool },
    BulkOut { token: u64, moved: u32 },
}

impl Pending {
    /// The token by which the kernel knows the transfer.
    pub open spec fn id(self) -> u64 {
        match self {
            Pending::ControlIn { token } => token,
            Pending::ControlOut { token } => token,
            Pending::BulkIn { token, .. } => token,
            Pending::BulkOut { token, .. } => token,
        }
    }
}

/// The answer that the kernel gets for a transfer.
pub enum Completion {
    /// A read: the bytes for the transfer's buffer.
    In { token: u64, bytes: Vec<u8>, status: i32 },
    /// A write: how many bytes the device took.
    Out { token: u64, moved: u32, status: i32 },
}

impl Completion {
    /// The token by which the kernel knows the transfer.
    pub open spec fn id(self) -> u64 {
        match self {
            Completion::In { token, .. } => token,
            Completion::Out { token, .. } => token,
        }
    }

    /// Whether the transfer stalls its endpoint.
    pub open spec fn stalls(self) -> bool {
        match self {
            Completion::In { status, .. } => status == STATUS_STALL,
            Completion::Out { status, .. } => status == STATUS_STALL,
        }
    }
}

/// What a raised transfer leads to.
pub enum ServiceStep {
    /// A call to the client, and what to remember until it returns.
    Call(ClientCall, Pending),
    /// The transfer is answered at once.
    Complete(Completion),
}

/// What a raised transfer leads to, with these pipe handles and these interrupt
/// endpoints.
pub open spec fn serviced(
    pipe_map: Map<u8, u32>,
    interrupt_eps: Set<u8>,
    req: TransferReq,
) -> ServiceStep {
    match req {
        TransferReq::ControlIn { token, setup, max_len } => ServiceStep::Call(
            if setup@[0] == USB_BMREQ_STANDARD_DEVICE_IN && setup@[1] == USB_REQ_GET_DESCRIPTOR {
                ClientCall::GetDescriptor {
                    descriptor_type: setup@[3],
                    index: setup@[2],
                    lang_id: wire::le16_at(setup@, 4),
                    max_len,
                }
            } else {
                ClientCall::ControlIn { setup, max_len }
            },
            Pending::ControlIn { token },
        ),
        TransferReq::ControlOut { token, setup, data } => ServiceStep::Call(
            ClientCall::ControlOut { setup, data },
            Pending::ControlOut { token },
        ),
        TransferReq::Bulk { token, endpoint_address, is_in, length, data } => {
            if !pipe_map.contains_key(endpoint_address) {
                ServiceStep::Complete(Completion::Out { token, moved: 0, status: STATUS_STALL })
            } else if is_in {
                ServiceStep::Call(
                    ClientCall::BulkIn { pipe: pipe_map[endpoint_address], length },
                    Pending::BulkIn { token, interrupt: interrupt_eps.contains(endpoint_address) },
                )
            } else {
                ServiceStep::Call(
                    ClientCall::BulkOut { pipe: pipe_map[endpoint_address], data },
                    Pending::BulkOut { token, moved: (data@.len() % 0x1_0000_0000) as u32 },
                )
            }
        },
    }
}

/// The open endpoints of a presented device.
pub struct Endpoints {
    pub pipe_map: HashMap<u8, u32>,
    pub interrupt_eps: HashSet<u8>,
}

impl Endpoints {
    /// Takes over the pipes that selecting a configuration opened.
    pub fn open(pipes: &[UsbPipe]) -> (r: Self)
        ensures
            r.pipe_map@ == pipe_handles(pipes@),
            r.interrupt_eps@ == interrupt_endpoints(pipes@),
    {
        broadcast use vstd::std_specs::hash::group_hash_axioms;

        let mut pipe_map: HashMap<u8, u32> = HashMap::new();
        let mut interrupt_eps: HashSet<u8> = HashSet::new();
        let mut i: usize = 0;
        assert(pipe_map@ =~= pipe_handles(pipes@.subrange(0, 0)));
        assert(interrupt_eps@ =~= interrupt_endpoints(pipes@.subrange(0, 0)));
        while i < pipes.len()
            invariant
                i <= pipes@.len(),
                pipe_map@ == pipe_handles(pipes@.subrange(0, i as int)),
                interrupt_eps@ == interrupt_endpoints(pipes@.subrange(0, i as int)),
            decreases pipes@.len() - i,
        {
            let p = pipes[i];
            proof {
                let next = pipes@.subrange(0, i + 1);
                assert(next.drop_last() =~= pipes@.subrange(0, i as int));
                assert(next.last() == p);
            }
            pipe_map.insert(p.endpoint_address, p.pipe_handle);
            if !p.is_bulk {
                interrupt_eps.insert(p.endpoint_address);
            }
            i = i + 1;
        }
        assert(pipes@.subrange(0, i as int) =~= pipes@);
        Endpoints { pipe_map, interrupt_eps }
    }

    /// What a raised transfer leads to.
    ///
    /// A standard descriptor read of the device takes the dedicated call; every
    /// other control request goes out with its setup packet unchanged. A bulk
    /// transfer goes to the pipe of its endpoint, and stalls where there is none.
    pub fn service(&self, req: TransferReq) -> (r: ServiceStep)
        ensures
            r == serviced(self.pipe_map@, self.interrupt_eps@, req),
    {
        broadcast use vstd::std_specs::hash::group_hash_axioms;

        match req {
            TransferReq::ControlIn { token, setup, max_len } => {
                if setup[0] == USB_BMREQ_STANDARD_DEVICE_IN && setup[1] == USB_REQ_GET_DESCRIPTOR {
                    let lang_id: u16 = wire::read_le16(setup.as_slice(), 4);
                    ServiceStep::Call(
                        ClientCall::GetDescriptor {
                            descriptor_type: setup[3],
                            index: setup[2],
                            lang_id,
                            max_len,
                        },
                        Pending::ControlIn { token },
                    )
                } else {
                    ServiceStep::Call(
                        ClientCall::ControlIn { setup, max_len },
                        Pending::ControlIn { token },
                    )
                }
            },
            TransferReq::ControlOut { token, setup, data } => ServiceStep::Call(
                ClientCall::ControlOut { setup, data },
                Pending::ControlOut { token },
            ),
            TransferReq::Bulk { token, endpoint_address, is_in, length, data } => {
                match self.pipe_map.get(&endpoint_address) {
                    None => ServiceStep::Complete(
                        Completion::Out { token, moved: 0, status: STATUS_STALL },
                    ),
                    Some(pipe) => {
                        let pipe: u32 = *pipe;
                        if is_in {
                            let interrupt = self.interrupt_eps.contains(&endpoint_address);
                            ServiceStep::Call(
                                ClientCall::BulkIn { pipe, length },
                                Pending::BulkIn { token, interrupt },
                            )
                        } else {
                            let moved: u32 = (data.len() as u64 % 0x1_0000_0000) as u32;
                            ServiceStep::Call(
                                ClientCall::BulkOut { pipe, data },
                                Pending::BulkOut { token, moved },
                            )
                        }
                    },
                }
            },
        }
    }
}

/// Whether a failed call means that the device's channel is gone.
pub open spec fn link_is_dead(error: Seq<char>) -> bool {
    text::occurs(error, "channel closed"@)
}

/// Whether a completion is the answer to a transfer whose call to the client had
/// this outcome.
pub open spec fn answers(c: Completion, pending: Pending, reply: Result<Vec<u8>, String>) -> bool {
    match pending {
        Pending::ControlIn { token: t } => c matches Completion::In { token, bytes, status } && token
            == t && (match reply {
            Ok(b) => bytes@ == b@ && status == STATUS_OK,
            Err(_) => bytes@.len() == 0 && status == STATUS_STALL,
        }),
        Pending::ControlOut { token } => c == (Completion::Out {
            token,
            moved: 0,
            status: if reply is Ok {
                STATUS_OK
            } else {
                STATUS_STALL
            },
        }),
        Pending::BulkIn { token: t, interrupt } => c matches Completion::In { token, bytes, status }
            && token == t && (match reply {
            Ok(b) => bytes@ == b@ && status == STATUS_OK,
            Err(e) => bytes@.len() == 0 && status == (if interrupt && !link_is_dead(e@) {
                STATUS_OK
            } else {
                STATUS_STALL
            }),
        }),
        Pending::BulkOut { token, moved } => c == (if reply is Ok {
            Completion::Out { token, moved, status: STATUS_OK }
        } else {
            Completion::Out { token, moved: 0, status: STATUS_STALL }
        }),
    }
}

/// What the outcome of a client's call tells the kernel.
///
/// A failure stalls the transfer, with one exception: a read on an interrupt
/// endpoint that failed for a passing reason is answered as a poll without data,
/// so that the class driver goes on polling.
pub fn finish(pending: Pending, reply: Result<Vec<u8>, String>) -> (c: Completion)
    ensures
        answers(c, pending, reply),
{
    match pending {
        Pending::ControlIn { token } => match reply {
            Ok(bytes) => Completion::In { token, bytes, status: STATUS_OK },
            Err(_) => Completion::In { token, bytes: Vec::new(), status: STATUS_STALL },
        },
        Pending::ControlOut { token } => match reply {
            Ok(_) => Completion::Out { token, moved: 0, status: STATUS_OK },
            Err(_) => Completion::Out { token, moved: 0, status: STATUS_STALL },
        },
        Pending::BulkIn { token, interrupt } => match reply {
            Ok(bytes) => Completion::In { token, bytes, status: STATUS_OK },
            Err(e) => {
                let fatal = text::contains(e.as_str(), "channel closed");
                if interrupt && !fatal {
                    Completion::In { token, bytes: Vec::new(), status: STATUS_OK }
                } else {
                    Completion::In { token, bytes: Vec::new(), status: STATUS_STALL }
                }
            },
        },
        Pending::BulkOut { token, moved } => match reply {
            Ok(_) => Completion::Out { token, moved, status: STATUS_OK },
            Err(_) => Completion::Out { token, moved: 0, status: STATUS_STALL },
        },
    }
}

/// The next step of configuring the client's device.
pub enum ConfigStep {
    /// Read this much of the configuration descriptor.
    GetDescriptor { descriptor_type: u8, index: u8, lang_id: u16, max_len: u32 },
    /// Select this configuration, waiting at most five seconds.
    Select(Vec<u8>),
    /// The pipes are open.
    Opened(Vec<UsbPipe>),
    /// Bulk transfers will not be available.
    Failed(ConfigError),
}

/// Why a configuration could not be selected.
#[derive(Debug, Clone, Copy, PartialEq, Eq, Structural)]
pub enum ConfigError {
    /// The client did not give the descriptor.
    Fetch,
    /// The descriptor's header came with this many bytes only.
    ShortHeader(usize),
    /// The client refused the configuration.
    Refused,
    /// The client did not answer in time.
    TimedOut,
}

/// A read of the configuration descriptor's first bytes.
pub open spec fn descriptor_read(max_len: u32) -> ConfigStep {
    ConfigStep::GetDescriptor {
        descriptor_type: USB_DESCRIPTOR_TYPE_CONFIGURATION,
        index: 0,
        lang_id: 0,
        max_len,
    }
}

/// What follows the header, which holds the length of the whole descriptor.
pub open spec fn after_header(header: Option<Seq<u8>>) -> ConfigStep {
    match header {
        None => ConfigStep::Failed(ConfigError::Fetch),
        Some(h) => if h.len() < 4 {
            ConfigStep::Failed(ConfigError::ShortHeader(h.len() as usize))
        } else {
            descriptor_read(wire::le16_at(h, 2) as u32)
        },
    }
}

/// What follows the whole descriptor, which is what is selected.
pub open spec fn after_descriptor(full: Option<Vec<u8>>) -> ConfigStep {
    match full {
        None => ConfigStep::Failed(ConfigError::Fetch),
        Some(f) => ConfigStep::Select(f),
    }
}

/// What follows the selection: `None` is no answer in time, `Some(None)` a refusal.
pub open spec fn after_selection(answer: Option<Option<Vec<UsbPipe>>>) -> ConfigStep {
    match answer {
        None => ConfigStep::Failed(ConfigError::TimedOut),
        Some(None) => ConfigStep::Failed(ConfigError::Refused),
        Some(Some(pipes)) => ConfigStep::Opened(pipes),
    }
}

/// Configuring starts with the descriptor's header.
pub fn config_start() -> (r: ConfigStep)
    ensures
        r == descriptor_read(CONFIGURATION_HEADER_LENGTH),
{
    ConfigStep::GetDescriptor {
        descriptor_type: USB_DESCRIPTOR_TYPE_CONFIGURATION,
        index: 0,
        lang_id: 0,
        max_len: CONFIGURATION_HEADER_LENGTH,
    }
}

/// The header holds the length of the whole descriptor, which is read next.
pub fn config_header(header: Option<&[u8]>) -> (r: ConfigStep)
    ensures
        r == after_header(
            match header {
                Some(h) => Some(h@),
                None => None,
            },
        ),
{
    match header {
        None => ConfigStep::Failed(ConfigError::Fetch),
        Some(h) => if h.len() < 4 {
            ConfigStep::Failed(ConfigError::ShortHeader(h.len()))
        } else {
            let total: u16 = wire::read_le16(h, 2);
            ConfigStep::GetDescriptor {
                descriptor_type: USB_DESCRIPTOR_TYPE_CONFIGURATION,
                index: 0,
                lang_id: 0,
                max_len: total as u32,
            }
        },
    }
}

/// The whole descriptor is what the client is asked to select.
pub fn config_full(full: Option<Vec<u8>>) -> (r: ConfigStep)
    ensures
        r == after_descriptor(full),
{
    match full {
        None => ConfigStep::Failed(ConfigError::Fetch),
        Some(f) => ConfigStep::Select(f),
    }
}

/// What became of the selection: `None` is no answer in time, `Some(None)` a
/// refusal.
pub fn config_selected(answer: Option<Option<Vec<UsbPipe>>>) -> (r: ConfigStep)
    ensures
        r == after_selection(answer),
{
    match answer {
        None => ConfigStep::Failed(ConfigError::TimedOut),
        Some(None) => ConfigStep::Failed(ConfigError::Refused),
        Some(Some(pipes)) => ConfigStep::Opened(pipes),
    }
}

/// How far a device is.
#[derive(Debug, Clone, Copy, PartialEq, Eq, Structural)]
pub enum Stage {
    /// The controller is being created.
    Creating,
    /// The header of the configuration descriptor is being read.
    ReadingHeader,
    /// The whole configuration descriptor is being read.
    ReadingDescriptor,
    /// The configuration is being selected.
    Selecting,
    /// Transfers are taken.
    Serving,
    Over,
}

/// A device of the client that is presented on the Mac.
pub struct Presentation {
    pub stage: Stage,
    pub endpoints: Endpoints,
}

/// A presented device as a value.
pub struct PresentationView {
    pub stage: Stage,
    pub pipe_map: Map<u8, u32>,
    pub interrupt_eps: Set<u8>,
}

impl View for Presentation {
    type V = PresentationView;

    open spec fn view(&self) -> PresentationView {
        PresentationView {
            stage: self.stage,
            pipe_map: self.endpoints.pipe_map@,
            interrupt_eps: self.endpoints.interrupt_eps@,
        }
    }
}

/// What happens while a device is presented.
pub enum DriverEvent {
    /// The controller was created, or could not be.
    Created(bool),
    /// A read of the configuration descriptor returned; `None` is a failure.
    Described(Option<Vec<u8>>),
    /// The selection returned: `None` is no answer in time, `Some(None)` a refusal.
    Selected(Option<Option<Vec<UsbPipe>>>),
    /// The kernel raised a transfer.
    Raised(TransferReq),
    /// The client's call for a transfer returned.
    Returned(Pending, Result<Vec<u8>, String>),
    /// The client's channel for the device closed.
    Closed,
    /// The controller will raise no more transfers.
    QueueEnded,
}

/// What to do next.
pub enum DriverAction {
    /// Go on configuring; when that has an end, take what the kernel raises.
    Configure(ConfigStep),
    /// Make this call in a task of its own.
    Call(ClientCall, Pending),
    /// Hand this to the controller.
    Complete(Completion),
    /// Destroy the controller and give the device's slot up.
    Teardown,
    /// There is no controller: give the device's slot up.
    GiveUp,
    /// Nothing.
    Wait,
}

/// A device that gets no further without its next event.
pub open spec fn waits(s: PresentationView, next: PresentationView, r: DriverAction) -> bool {
    next == s && r is Wait
}

/// A device after a step of configuring: served with the pipes that were opened,
/// and served without pipes where configuring failed.
pub open spec fn configured(s: PresentationView, step: ConfigStep) -> PresentationView {
    match step {
        ConfigStep::GetDescriptor { .. } => PresentationView {
            stage: if s.stage == Stage::Creating {
                Stage::ReadingHeader
            } else {
                Stage::ReadingDescriptor
            },
            ..s
        },
        ConfigStep::Select(_) => PresentationView { stage: Stage::Selecting, ..s },
        ConfigStep::Opened(pipes) => PresentationView {
            stage: Stage::Serving,
            pipe_map: pipe_handles(pipes@),
            interrupt_eps: interrupt_endpoints(pipes@),
        },
        ConfigStep::Failed(_) => PresentationView { stage: Stage::Serving, ..s },
    }
}

/// Whether an event takes a device to `next` and leads to `r`.
///
/// The controller comes first, then the configuration, then the transfers. Only the
/// end of the channel or of the queue ends the presentation; a failed transfer does
/// not, and a call that was under way is answered even after the end.
pub open spec fn leads_to(
    s: PresentationView,
    event: DriverEvent,
    next: PresentationView,
    r: DriverAction,
) -> bool {
    match event {
        DriverEvent::Created(done) => if s.stage != Stage::Creating {
            waits(s, next, r)
        } else if done {
            let step = descriptor_read(CONFIGURATION_HEADER_LENGTH);
            next == configured(s, step) && r == DriverAction::Configure(step)
        } else {
            next == PresentationView { stage: Stage::Over, ..s } && r is GiveUp
        },
        DriverEvent::Described(bytes) => if s.stage == Stage::ReadingHeader {
            let step = after_header(
                match bytes {
                    Some(h) => Some(h@),
                    None => None,
                },
            );
            next == configured(s, step) && r == DriverAction::Configure(step)
        } else if s.stage == Stage::ReadingDescriptor {
            let step = after_descriptor(bytes);
            next == configured(s, step) && r == DriverAction::Configure(step)
        } else {
            waits(s, next, r)
        },
        DriverEvent::Selected(answer) => if s.stage == Stage::Selecting {
            let step = after_selection(answer);
            next == configured(s, step) && r == DriverAction::Configure(step)
        } else {
            waits(s, next, r)
        },
        DriverEvent::Raised(req) => if s.stage == Stage::Serving {
            next == s && r == (match serviced(s.pipe_map, s.interrupt_eps, req) {
                ServiceStep::Call(call, pending) => DriverAction::Call(call, pending),
                ServiceStep::Complete(c) => DriverAction::Complete(c),
            })
        } else {
            waits(s, next, r)
        },
        DriverEvent::Returned(pending, reply) => next == s && (r matches DriverAction::Complete(c)
            && answers(c, pending, reply)),
        DriverEvent::Closed => ends(s, next, r),
        DriverEvent::QueueEnded => ends(s, next, r),
    }
}

/// A device that is served comes to its end.
pub open spec fn ends(s: PresentationView, next: PresentationView, r: DriverAction) -> bool {
    if s.stage == Stage::Serving {
        next == PresentationView { stage: Stage::Over, ..s } && r is Teardown
    } else {
        waits(s, next, r)
    }
}

impl Presentation {
    /// The controller is about to be created.
    pub fn new() -> (r: Self)
        ensures
            r@ == (PresentationView {
                stage: Stage::Creating,
                pipe_map: Map::empty(),
                interrupt_eps: Set::empty(),
            }),
    {
        broadcast use vstd::std_specs::hash::group_hash_axioms;

        Presentation {
            stage: Stage::Creating,
            endpoints: Endpoints { pipe_map: HashMap::new(), interrupt_eps: HashSet::new() },
        }
    }

    fn configure(&mut self, step: ConfigStep) -> (r: DriverAction)
        ensures
            final(self)@ == configured(old(self)@, step),
            r == DriverAction::Configure(step),
    {
        match &step {
            ConfigStep::GetDescriptor { .. } => {
                self.stage = if self.stage == Stage::Creating {
                    Stage::ReadingHeader
                } else {
                    Stage::ReadingDescriptor
                };
            },
            ConfigStep::Select(_) => {
                self.stage = Stage::Selecting;
            },
            ConfigStep::Opened(pipes) => {
                self.stage = Stage::Serving;
                self.endpoints = Endpoints::open(pipes.as_slice());
            },
            ConfigStep::Failed(_) => {
                self.stage = Stage::Serving;
            },
        }
        DriverAction::Configure(step)
    }

    fn end(&mut self) -> (r: DriverAction)
        ensures
            ends(old(self)@, final(self)@, r),
    {
        if self.stage == Stage::Serving {
            self.stage = Stage::Over;
            DriverAction::Teardown
        } else {
            DriverAction::Wait
        }
    }
}

/// Decides what an event leads to while a device is presented.
pub fn present_device(device: &mut Presentation, event: DriverEvent) -> (r: DriverAction)
    ensures
        leads_to(old(device)@, event, final(device)@, r),
{
    match event {
        DriverEvent::Created(done) => {
            if device.stage != Stage::Creating {
                DriverAction::Wait
            } else if done {
                device.configure(config_start())
            } else {
                device.stage = Stage::Over;
                DriverAction::GiveUp
            }
        },
        DriverEvent::Described(bytes) => {
            if device.stage == Stage::ReadingHeader {
                let step = match &bytes {
                    Some(h) => config_header(Some(h.as_slice())),
                    None => config_header(None),
                };
                device.configure(step)
            } else if device.stage == Stage::ReadingDescriptor {
                device.configure(config_full(bytes))
            } else {
                DriverAction::Wait
            }
        },
        DriverEvent::Selected(answer) => {
            if device.stage == Stage::Selecting {
                device.configure(config_selected(answer))
            } else {
                DriverAction::Wait
            }
        },
        DriverEvent::Raised(req) => {
            if device.stage == Stage::Serving {
                match device.endpoints.service(req) {
                    ServiceStep::Call(call, pending) => DriverAction::Call(call, pending),
                    ServiceStep::Complete(c) => DriverAction::Complete(c),
                }
            } else {
                DriverAction::Wait
            }
        },
        DriverEvent::Returned(pending, reply) => DriverAction::Complete(finish(pending, reply)),
        DriverEvent::Closed => device.end(),
        DriverEvent::QueueEnded => device.end(),
    }
}

/// The controller of a device is destroyed once, and only where there is one: after
/// the end nothing is destroyed or called any more.
pub proof fn law_controller_is_destroyed_once(
    s: PresentationView,
    event: DriverEvent,
    next: PresentationView,
    r: DriverAction,
)
    requires
        leads_to(s, event, next, r),
    ensures
        r is Teardown ==> s.stage == Stage::Serving && next.stage == Stage::Over,
        r is GiveUp ==> s.stage == Stage::Creating && next.stage == Stage::Over,
        s.stage == Stage::Over ==> next == s && !(r is Teardown) && !(r is GiveUp) && !(r is Call),
        next.stage == Stage::Over ==> s.stage == Stage::Over || r is Teardown || r is GiveUp,
{
}

/// A device that could not be configured is still answered for: its control requests
/// go to the client, and every bulk transfer stalls.
pub proof fn law_unconfigured_device_is_still_answered_for(
    s: PresentationView,
    why: ConfigError,
    req: TransferReq,
    next: PresentationView,
    r: DriverAction,
)
    requires
        s.pipe_map == Map::<u8, u32>::empty(),
        leads_to(configured(s, ConfigStep::Failed(why)), DriverEvent::Raised(req), next, r),
    ensures
        req is Bulk ==> (r matches DriverAction::Complete(c) && c.stalls() && c.id() == req.id()),
        !(req is Bulk) ==> (r matches DriverAction::Call(_, pending) && pending.id() == req.id()),
{
}

/// Each transfer is answered under its own token, whichever way it goes: at once,
/// or after the call that it led to.
pub proof fn law_completions_keep_their_token(
    pipe_map: Map<u8, u32>,
    interrupt_eps: Set<u8>,
    req: TransferReq,
    reply: Result<Vec<u8>, String>,
    c: Completion,
)
    ensures
        match serviced(pipe_map, interrupt_eps, req) {
            ServiceStep::Complete(now) => now.id() == req.id(),
            ServiceStep::Call(_, pending) => pending.id() == req.id() && (answers(c, pending, reply)
                ==> c.id() == req.id()),
        },
{
}

/// A stall always has a cause, and a cause stalls: a transfer whose call
/// succeeded never stalls, a failed one stalls unless it read an interrupt
/// endpoint over a live link, and a bulk endpoint's failure always shows.
pub proof fn law_when_a_transfer_stalls(
    pending: Pending,
    reply: Result<Vec<u8>, String>,
    c: Completion,
)
    requires
        answers(c, pending, reply),
    ensures
        c.stalls() <==> (reply matches Err(e) && !(pending matches Pending::BulkIn {
            interrupt,
            ..
        } && interrupt && !link_is_dead(e@))),
{
}

/// A transfer reaches the client unaltered. A read or write on an endpoint with a pipe
/// goes to that pipe's handle, a read with the length that was raised and a write with
/// the data that was raised; a control request keeps its setup packet, its data and its
/// maximum length.
pub proof fn law_transfers_reach_the_client_unaltered(
    pipe_map: Map<u8, u32>,
    interrupt_eps: Set<u8>,
    token: u64,
    endpoint: u8,
    length: u32,
    max_len: u32,
    setup: [u8; 8],
    data: Vec<u8>,
)
    ensures
        pipe_map.contains_key(endpoint) ==> (serviced(
            pipe_map,
            interrupt_eps,
            TransferReq::Bulk { token, endpoint_address: endpoint, is_in: true, length, data },
        ) matches ServiceStep::Call(ClientCall::BulkIn { pipe, length: asked }, pending) && pipe
            == pipe_map[endpoint] && asked == length && pending == (Pending::BulkIn {
            token,
            interrupt: interrupt_eps.contains(endpoint),
        })),
        pipe_map.contains_key(endpoint) ==> (serviced(
            pipe_map,
            interrupt_eps,
            TransferReq::Bulk { token, endpoint_address: endpoint, is_in: false, length, data },
        ) matches ServiceStep::Call(ClientCall::BulkOut { pipe, data: sent }, pending) && pipe
            == pipe_map[endpoint] && sent@ == data@ && (data@.len() < 0x1_0000_0000 ==> pending == (
        Pending::BulkOut { token, moved: data@.len() as u32 }))),
        !pipe_map.contains_key(endpoint) ==> (forall|is_in: bool|
            #[trigger] serviced(
                pipe_map,
                interrupt_eps,
                TransferReq::Bulk { token, endpoint_address: endpoint, is_in, length, data },
            ) matches ServiceStep::Complete(c) && c.stalls() && c.id() == token),
        serviced(
            pipe_map,
            interrupt_eps,
            TransferReq::ControlOut { token, setup, data },
        ) matches ServiceStep::Call(ClientCall::ControlOut { setup: packet, data: sent }, pending)
            && packet@ == setup@ && sent@ == data@ && pending == (Pending::ControlOut { token }),
        !(setup@[0] == 0x80 && setup@[1] == 6) ==> (serviced(
            pipe_map,
            interrupt_eps,
            TransferReq::ControlIn { token, setup, max_len },
        ) matches ServiceStep::Call(ClientCall::ControlIn { setup: packet, max_len: most }, pending)
            && packet@ == setup@ && most == max_len && pending == (Pending::ControlIn { token })),
        setup@[0] == 0x80 && setup@[1] == 6 ==> (serviced(
            pipe_map,
            interrupt_eps,
            TransferReq::ControlIn { token, setup, max_len },
        ) matches ServiceStep::Call(
            ClientCall::GetDescriptor { descriptor_type, index, lang_id, max_len: most },
            pending,
        ) && 0x100 * descriptor_type + index == wire::le16_at(setup@, 2) && lang_id
            == wire::le16_at(setup@, 4) && most == max_len && pending == (Pending::ControlIn {
            token,
        })),
{
}

/// What the client answers reaches the kernel unaltered: all the bytes of a read, under
/// its token and without a stall, and for a write the count of bytes that went out.
pub proof fn law_replies_reach_the_kernel_unaltered(
    c: Completion,
    pending: Pending,
    bytes: Vec<u8>,
)
    requires
        answers(c, pending, Ok(bytes)),
    ensures
        match pending {
            Pending::ControlIn { token } => c matches Completion::In { token: t, bytes: b, status }
                && t == token && b@ == bytes@ && status == 0,
            Pending::BulkIn { token, .. } => c matches Completion::In { token: t, bytes: b, status }
                && t == token && b@ == bytes@ && status == 0,
            Pending::ControlOut { token } => c == (Completion::Out { token, moved: 0, status: 0 }),
            Pending::BulkOut { token, moved } => c == (Completion::Out { token, moved, status: 0 }),
        },
{
}

/// Each endpoint goes to the pipe that was opened for it last, and no other endpoint has
/// a pipe.
pub proof fn law_pipes_of_the_endpoints(pipes: Seq<UsbPipe>, i: int)
    ensures
        0 <= i < pipes.len() && (forall|j: int|
            i < j < pipes.len() ==> (#[trigger] pipes[j]).endpoint_address
                != pipes[i].endpoint_address) ==> pipe_handles(pipes).contains_key(
            pipes[i].endpoint_address,
        ) && pipe_handles(pipes)[pipes[i].endpoint_address] == pipes[i].pipe_handle,
        forall|e: u8|
            #[trigger] pipe_handles(pipes).contains_key(e) ==> exists|j: int|
                0 <= j < pipes.len() && (#[trigger] pipes[j]).endpoint_address == e,
    decreases pipes.len(),
{
    if pipes.len() > 0 {
        let head = pipes.drop_last();
        law_pipes_of_the_endpoints(head, i);
        assert forall|j: int| 0 <= j < head.len() implies head[j] == #[trigger] pipes[j] by {}
        assert forall|e: u8| #[trigger] pipe_handles(pipes).contains_key(e) implies exists|j: int|
            0 <= j < pipes.len() && (#[trigger] pipes[j]).endpoint_address == e by {
            if pipe_handles(head).contains_key(e) {
                let j = choose|j: int|
                    0 <= j < head.len() && (#[trigger] head[j]).endpoint_address == e;
                assert(pipes[j].endpoint_address == e);
            } else {
                assert(pipes[pipes.len() - 1].endpoint_address == e);
            }
        }
        if 0 <= i < head.len() && (forall|j: int|
            i < j < pipes.len() ==> (#[trigger] pipes[j]).endpoint_address
                != pipes[i].endpoint_address) {
            assert(pipes[pipes.len() - 1].endpoint_address != pipes[i].endpoint_address);
            assert forall|j: int| i < j < head.len() implies (#[trigger] head[j]).endpoint_address
                != head[i].endpoint_address by {
                assert(pipes[j].endpoint_address != pipes[i].endpoint_address);
            }
        }
    }
}

/// An endpoint counts as one for interrupts exactly where a pipe that is not bulk was
/// opened for it.
pub proof fn law_interrupt_endpoints(pipes: Seq<UsbPipe>, e: u8)
    ensures
        interrupt_endpoints(pipes).contains(e) <==> exists|j: int|
            0 <= j < pipes.len() && (#[trigger] pipes[j]).endpoint_address == e
                && !pipes[j].is_bulk,
    decreases pipes.len(),
{
    if pipes.len() > 0 {
        let head = pipes.drop_last();
        law_interrupt_endpoints(head, e);
        assert forall|j: int| 0 <= j < head.len() implies head[j] == #[trigger] pipes[j] by {}
        if interrupt_endpoints(head).contains(e) {
            let j = choose|j: int|
                0 <= j < head.len() && (#[trigger] head[j]).endpoint_address == e
                    && !head[j].is_bulk;
            assert(pipes[j].endpoint_address == e && !pipes[j].is_bulk);
        }
        if exists|j: int|
            0 <= j < pipes.len() && (#[trigger] pipes[j]).endpoint_address == e
                && !pipes[j].is_bulk {
            let j = choose|j: int|
                0 <= j < pipes.len() && (#[trigger] pipes[j]).endpoint_address == e
                    && !pipes[j].is_bulk;
            if j < head.len() {
                assert(head[j].endpoint_address == e && !head[j].is_bulk);
            }
        }
        let last = pipes[pipes.len() - 1];
        if last.endpoint_address == e && !last.is_bulk {
            assert(pipes.last() == last);
        }
    }
}

/// Configuring asks for nine bytes of the configuration descriptor, then for as many as
/// those say in their third and fourth byte, and then selects exactly what came; the
/// device is served with the pipes that the client then opened, and served all the same
/// where a step failed.
pub proof fn law_configuring_runs_through(
    s: PresentationView,
    header: Vec<u8>,
    full: Vec<u8>,
    pipes: Vec<UsbPipe>,
    next: PresentationView,
    r: DriverAction,
)
    ensures
        s.stage == Stage::Creating && leads_to(s, DriverEvent::Created(true), next, r)
            ==> next.stage == Stage::ReadingHeader && r == DriverAction::Configure(
            ConfigStep::GetDescriptor { descriptor_type: 2, index: 0, lang_id: 0, max_len: 9 },
        ),
        s.stage == Stage::ReadingHeader && header@.len() >= 4 && leads_to(
            s,
            DriverEvent::Described(Some(header)),
            next,
            r,
        ) ==> next.stage == Stage::ReadingDescriptor && r == DriverAction::Configure(
            ConfigStep::GetDescriptor {
                descriptor_type: 2,
                index: 0,
                lang_id: 0,
                max_len: (header@[2] + 0x100 * header@[3]) as u32,
            },
        ),
        s.stage == Stage::ReadingDescriptor && leads_to(
            s,
            DriverEvent::Described(Some(full)),
            next,
            r,
        ) ==> next.stage == Stage::Selecting && (r matches DriverAction::Configure(
            ConfigStep::Select(asked),
        ) && asked@ == full@),
        s.stage == Stage::Selecting && leads_to(
            s,
            DriverEvent::Selected(Some(Some(pipes))),
            next,
            r,
        ) ==> next.stage == Stage::Serving && next.pipe_map == pipe_handles(pipes@)
            && next.interrupt_eps == interrupt_endpoints(pipes@),
        s.stage == Stage::Selecting && (leads_to(s, DriverEvent::Selected(None), next, r)
            || leads_to(s, DriverEvent::Selected(Some(None)), next, r)) ==> next.stage
            == Stage::Serving && next.pipe_map == s.pipe_map,
        (s.stage == Stage::ReadingHeader || s.stage == Stage::ReadingDescriptor) && leads_to(
            s,
            DriverEvent::Described(None),
            next,
            r,
        ) ==> next.stage == Stage::Serving && next.pipe_map == s.pipe_map,
{
}

/// While a device is served every transfer that the kernel raises is acted on as
/// `serviced` says, and every call that returns is answered, at any time.
pub proof fn law_nothing_raised_is_passed_over(
    s: PresentationView,
    req: TransferReq,
    pending: Pending,
    reply: Result<Vec<u8>, String>,
    next: PresentationView,
    r: DriverAction,
)
    ensures
        s.stage == Stage::Serving && leads_to(s, DriverEvent::Raised(req), next, r) ==> next == s
            && (match serviced(s.pipe_map, s.interrupt_eps, req) {
            ServiceStep::Call(call, p) => r == DriverAction::Call(call, p),
            ServiceStep::Complete(c) => r == DriverAction::Complete(c),
        }),
        leads_to(s, DriverEvent::Returned(pending, reply), next, r) ==> next == s && (
        r matches DriverAction::Complete(c) && answers(c, pending, reply) && c.id() == pending.id()),
{
}

/// A bulk transfer keeps its token and its length. It is for the endpoint in the low
/// byte of the address, and is a read unless its direction is zero; a write has all of
/// its data, and a read has none.
pub proof fn law_how_bulk_transfers_are_raised(
    r: TransferReq,
    token: u64,
    high: int,
    endpoint: u8,
    address: u32,
    is_in: i32,
    data: Seq<u8>,
    len: u32,
)
    requires
        raises_bulk(r, token, address, is_in, Some(data), len),
        0 <= high,
        address == 0x100 * high + endpoint,
    ensures
        r matches TransferReq::Bulk { token: t, endpoint_address, is_in: reads, length, data: d }
            && {
            &&& t == token && endpoint_address == endpoint && length == len
            &&& reads <==> is_in != 0
            &&& is_in == 0 && len > 0 ==> d@ == data
            &&& is_in != 0 || len == 0 ==> d@.len() == 0
        },
{
}

/// A device is presented under its identity unless one with the same identity is; then
/// it is told apart as a duplicate, and what is presented stays. Without a descriptor
/// nothing is.
pub proof fn law_what_an_announcement_leads_to(
    r: DriveStep,
    ids: (u16, u16, u16),
    before: Set<Seq<char>>,
    after: Set<Seq<char>>,
)
    ensures
        ({
            let key = text::hex4(ids.0) + seq![':'] + text::hex4(ids.1) + seq![':'] + text::hex4(
                ids.2,
            );
            announced(r, Some(ids), before, after) ==> {
                &&& r is Present <==> !before.contains(key)
                &&& r is Duplicate <==> before.contains(key)
                &&& r matches DriveStep::Present(k) ==> k@ == key
                &&& r matches DriveStep::Duplicate(k) ==> k@ == key && after == before
                &&& forall|other: Seq<char>| #[trigger]
                    after.contains(other) <==> other == key || before.contains(other)
            }
        }),
        announced(r, None, before, after) ==> r is NoDescriptor && after == before,
{
    let key = identity(ids.0, ids.1, ids.2);
    if announced(r, Some(ids), before, after) && before.contains(key) {
        assert(before.insert(key) =~= before);
    }
}

/// A transfer whose call failed moves nothing. It stalls, but for a read of an
/// interrupt endpoint, which stalls only where the error says that the channel is
/// closed.
pub proof fn law_failed_calls_move_nothing(
    c: Completion,
    pending: Pending,
    e: String,
    front: Seq<char>,
    back: Seq<char>,
)
    requires
        answers(c, pending, Err(e)),
    ensures
        match pending {
            Pending::ControlIn { token } => c matches Completion::In { token: t, bytes, status }
                && t == token && bytes@.len() == 0 && status == 1,
            Pending::BulkIn { token, interrupt } => c matches Completion::In {
                token: t,
                bytes,
                status,
            } && t == token && bytes@.len() == 0 && (!interrupt ==> status == 1) && (interrupt
                && e@ == front + "channel closed"@ + back ==> status == 1) && (interrupt
                && e@.len() < "channel closed"@.len() ==> status == 0),
            Pending::ControlOut { token } => c == (Completion::Out { token, moved: 0, status: 1 }),
            Pending::BulkOut { token, .. } => c == (Completion::Out { token, moved: 0, status: 1 }),
        },
{
    if e@ == front + "channel closed"@ + back {
        text::law_where_texts_occur(front, "channel closed"@, back);
    }
    text::law_where_texts_occur(e@, "channel closed"@, back);
}

/// Configuring that fails says where: the descriptor did not come, its header was too
/// short to hold a length, the client refused, or did not answer.
pub proof fn law_why_configuring_fails(header: Seq<u8>, pipes: Vec<UsbPipe>)
    requires
        header.len() <= usize::MAX,
    ensures
        after_header(None) == ConfigStep::Failed(ConfigError::Fetch),
        header.len() < 4 ==> (after_header(Some(header)) matches ConfigStep::Failed(
            ConfigError::ShortHeader(n),
        ) && n == header.len()),
        header.len() >= 4 ==> after_header(Some(header)) is GetDescriptor,
        after_descriptor(None) == ConfigStep::Failed(ConfigError::Fetch),
        after_selection(None) == ConfigStep::Failed(ConfigError::TimedOut),
        after_selection(Some(None)) == ConfigStep::Failed(ConfigError::Refused),
        after_selection(Some(Some(pipes))) == ConfigStep::Opened(pipes),
{
}

/// A device counts as presented exactly where its identity is held, and a presented
/// device is told by its stage and its open endpoints.
pub proof fn law_what_is_presented(presented: PresentedDevices, key: Seq<char>, d: Presentation)
    ensures
        presented@.contains(key) <==> exists|i: int|
            0 <= i < presented.keys@.len() && (#[trigger] presented.keys@[i])@ == key,
        d@.stage == d.stage,
        d@.pipe_map == d.endpoints.pipe_map@,
        d@.interrupt_eps == d.endpoints.interrupt_eps@,
{
    if presented@.contains(key) {
        let i = choose|i: int| 0 <= i < presented.keys@.len() && presented.keys@[i]@ == key;
        assert((presented.keys@[i])@ == key);
    }
    if exists|i: int| 0 <= i < presented.keys@.len() && (#[trigger] presented.keys@[i])@ == key {
        let i = choose|i: int|
            0 <= i < presented.keys@.len() && (#[trigger] presented.keys@[i])@ == key;
        assert(presented.keys@[i]@ == key);
    }
}

} // verus!
