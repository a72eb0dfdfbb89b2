//! The application switcher's overlay: commands for the helper that draws it.
//!
//! Commands are queued without ever holding up their sender, and dropped when the
//! queue is full or the helper is not there: the overlay is cosmetic. Numbers
//! travel most significant byte first:
//!
//! * show (1): `[display:4][cursor:2][count:2]`, then for each application
//!   `[pid:4][name length:2][name..]`
//! * advance (2): `[cursor:2]`
//! * hide (3)

use std::collections::VecDeque;

use vstd::prelude::*;

use crate::text;
use crate::wire;

verus! {

/// The port that the helper listens on where nothing else is configured.
pub const DEFAULT_PORT: u16 = 40243;

/// How many commands may wait.
pub const QUEUE_LIMIT: usize = 64;

/// The port in use, by the value of its variable.
pub fn port(value: Option<&str>) -> (r: u16)
    ensures
        r == text::port_or(
            match value {
                Some(v) => Some(v@),
                None => None,
            },
            DEFAULT_PORT,
        ),
{
    text::parse_port(value, DEFAULT_PORT)
}

/// A command for the helper.
pub enum HudMsg {
    /// Show these applications, by process and name, with one selected.
    Show { display_id: u32, cursor: u16, apps: Vec<(i32, String)> },
    /// Select another.
    Advance { cursor: u16 },
    Hide,
}

/// A command as a value: names are taken by their bytes.
pub enum HudCommand {
    Show { display_id: u32, cursor: u16, apps: Seq<(i32, Seq<u8>)> },
    Advance { cursor: u16 },
    Hide,
}

/// The applications of a list, their names by their bytes.
pub open spec fn app_values(apps: Seq<(i32, String)>) -> Seq<(i32, Seq<u8>)> {
    apps.map_values(|a: (i32, String)| (a.0, vstd::utf8::encode_utf8(a.1@)))
}

impl View for HudMsg {
    type V = HudCommand;

    open spec fn view(&self) -> HudCommand {
        match self {
            HudMsg::Show { display_id, cursor, apps } => HudCommand::Show {
                display_id: *display_id,
                cursor: *cursor,
                apps: app_values(apps@),
            },
            HudMsg::Advance { cursor } => HudCommand::Advance { cursor: *cursor },
            HudMsg::Hide => HudCommand::Hide,
        }
    }
}

/// A length that fits in two bytes.
pub open spec fn capped(n: nat) -> u16 {
    if n <= 0xffff {
        n as u16
    } else {
        0xffff
    }
}

/// One application on the wire; of a name that is too long, its beginning.
pub open spec fn app_bytes(app: (i32, Seq<u8>)) -> Seq<u8> {
    let n = capped(app.1.len());
    wire::be32(wire::bits_of_i32(app.0)) + wire::be16(n) + app.1.subrange(0, n as int)
}

/// A series of applications on the wire.
pub open spec fn apps_bytes(apps: Seq<(i32, Seq<u8>)>) -> Seq<u8>
    decreases apps.len(),
{
    if apps.len() == 0 {
        Seq::empty()
    } else {
        app_bytes(apps[0]) + apps_bytes(apps.drop_first())
    }
}

/// A command on the wire; of applications that are too many, the first.
pub open spec fn frame(c: HudCommand) -> Seq<u8> {
    match c {
        HudCommand::Show { display_id, cursor, apps } => {
            let n = capped(apps.len());
            seq![1u8] + wire::be32(display_id) + wire::be16(cursor) + wire::be16(n) + apps_bytes(
                apps.subrange(0, n as int),
            )
        },
        HudCommand::Advance { cursor } => seq![2u8] + wire::be16(cursor),
        HudCommand::Hide => seq![3u8],
    }
}

fn encode_app(out: &mut Vec<u8>, pid: i32, name: &str)
    ensures
        final(out)@ == old(out)@ + app_bytes((pid, vstd::utf8::encode_utf8(name@))),
{
    let bytes = name.as_bytes();
    let n: u16 = if bytes.len() <= 0xffff {
        bytes.len() as u16
    } else {
        0xffff
    };
    wire::push_be32(out, wire::i32_to_bits(pid));
    wire::push_be16(out, n);
    let part = wire::copy_range(bytes, 0, n as usize);
    wire::push_all(out, part.as_slice());
    assert(out@ =~= old(out)@ + app_bytes((pid, vstd::utf8::encode_utf8(name@))));
}

/// Lays a command out.
pub fn encode(msg: &HudMsg) -> (out: Vec<u8>)
    ensures
        out@ == frame(msg@),
{
    let mut out: Vec<u8> = Vec::new();
    match msg {
        HudMsg::Show { display_id, cursor, apps } => {
            let count: u16 = if apps.len() <= 0xffff {
                apps.len() as u16
            } else {
                0xffff
            };
            out.push(1);
            wire::push_be32(&mut out, *display_id);
            wire::push_be16(&mut out, *cursor);
            wire::push_be16(&mut out, count);
            let ghost head = out@;
            let ghost all = app_values(apps@).subrange(0, count as int);
            assert(head =~= seq![1u8] + wire::be32(*display_id) + wire::be16(*cursor) + wire::be16(
                count,
            ));
            let mut i: usize = 0;
            assert(all.subrange(0, all.len() as int) =~= all);
            while i < count as usize
                invariant
                    i <= count,
                    count <= apps@.len(),
                    all == app_values(apps@).subrange(0, count as int),
                    out@ + apps_bytes(all.subrange(i as int, count as int)) == head + apps_bytes(
                        all,
                    ),
                decreases count - i,
            {
                let ghost before = out@;
                let ghost rest = all.subrange(i as int, count as int);
                assert(rest.drop_first() =~= all.subrange(i + 1, count as int));
                assert(rest[0] == (apps@[i as int].0, vstd::utf8::encode_utf8(
                    apps@[i as int].1@,
                )));
                encode_app(&mut out, apps[i].0, apps[i].1.as_str());
                assert(out@ + apps_bytes(rest.drop_first()) =~= before + apps_bytes(rest));
                i = i + 1;
            }
            assert(all.subrange(count as int, count as int) =~= Seq::<(i32, Seq<u8>)>::empty());
            assert(out@ =~= head + apps_bytes(all));
        },
        HudMsg::Advance { cursor } => {
            out.push(2);
            wire::push_be16(&mut out, *cursor);
            assert(out@ =~= frame(msg@));
        },
        HudMsg::Hide => {
            out.push(3);
            assert(out@ =~= frame(msg@));
        },
    }
    out
}

/// The commands that wait for the helper, and the display it draws on.
pub struct Hud {
    /// Zero leaves the choice to the helper.
    pub display_id: u32,
    pub queue: VecDeque<HudMsg>,
}

/// The queue after a command: one that finds the queue full is dropped.
pub open spec fn queued(queue: Seq<HudMsg>, msg: HudMsg) -> Seq<HudMsg> {
    if queue.len() < QUEUE_LIMIT {
        queue.push(msg)
    } else {
        queue
    }
}

/// A selection as it travels; one that is out of range counts as the first.
pub open spec fn cursor_value(cursor: usize) -> u16 {
    if cursor <= 0xffff {
        cursor as u16
    } else {
        0
    }
}

fn to_cursor(cursor: usize) -> (r: u16)
    ensures
        r == cursor_value(cursor),
{
    if cursor <= 0xffff {
        cursor as u16
    } else {
        0
    }
}

impl Hud {
    /// Nothing waits.
    pub fn new() -> (r: Self)
        ensures
            r.display_id == 0,
            r.queue@ == Seq::<HudMsg>::empty(),
    {
        Hud { display_id: 0, queue: VecDeque::new() }
    }

    /// The command that has waited longest.
    pub fn next(&mut self) -> (r: Option<HudMsg>)
        ensures
            final(self).display_id == old(self).display_id,
            old(self).queue@.len() == 0 ==> r is None && final(self).queue@ == old(self).queue@,
            old(self).queue@.len() > 0 ==> r == Some(old(self).queue@[0]) && final(self).queue@
                == old(self).queue@.drop_first(),
    {
        let r = self.queue.pop_front();
        proof {
            if old(self).queue@.len() > 0 {
                assert(self.queue@ =~= old(self).queue@.drop_first());
            }
        }
        r
    }
}

/// Queues a command, unless the queue is full.
pub fn send(hud: &mut Hud, msg: HudMsg)
    ensures
        final(hud).display_id == old(hud).display_id,
        final(hud).queue@ == queued(old(hud).queue@, msg),
{
    if hud.queue.len() < QUEUE_LIMIT {
        hud.queue.push_back(msg);
    }
}

/// Says which display the overlay belongs on.
pub fn set_display_id(hud: &mut Hud, id: u32)
    ensures
        final(hud).display_id == id,
        final(hud).queue == old(hud).queue,
{
    hud.display_id = id;
}

/// Shows the switcher with these applications, one of them selected.
pub fn show(hud: &mut Hud, apps: Vec<(i32, String)>, cursor: usize)
    ensures
        final(hud).display_id == old(hud).display_id,
        final(hud).queue@ == queued(
            old(hud).queue@,
            HudMsg::Show {
                display_id: old(hud).display_id,
                cursor: cursor_value(cursor),
                apps,
            },
        ),
{
    let msg = HudMsg::Show { display_id: hud.display_id, cursor: to_cursor(cursor), apps };
    send(hud, msg);
}

/// Selects another application; the list stays as it was shown.
pub fn advance(hud: &mut Hud, cursor: usize)
    ensures
        final(hud).display_id == old(hud).display_id,
        final(hud).queue@ == queued(
            old(hud).queue@,
            HudMsg::Advance { cursor: cursor_value(cursor) },
        ),
{
    send(hud, HudMsg::Advance { cursor: to_cursor(cursor) });
}

/// Hides the switcher.
pub fn hide_switcher(hud: &mut Hud)
    ensures
        final(hud).display_id == old(hud).display_id,
        final(hud).queue@ == queued(old(hud).queue@, HudMsg::Hide),
{
    send(hud, HudMsg::Hide);
}

/// The side that talks to the helper.
pub struct Worker {
    pub connected: bool,
}

/// What the worker does with a command.
pub enum WorkerStep {
    /// Dial the helper first.
    Connect,
    /// Write this.
    Write(Vec<u8>),
    /// Nothing: the command is dropped.
    Drop,
}

/// Whether the helper is connected after a write that worked or did not.
pub open spec fn connected_after(connected: bool, success: bool) -> bool {
    connected && success
}

impl Worker {
    /// The helper has not been dialled.
    pub fn new() -> (r: Self)
        ensures
            !r.connected,
    {
        Worker { connected: false }
    }

    /// A command is taken from the queue.
    pub fn on_message(&self, msg: &HudMsg) -> (r: WorkerStep)
        ensures
            self.connected ==> (r matches WorkerStep::Write(b) && b@ == frame(msg@)),
            !self.connected ==> r is Connect,
    {
        if self.connected {
            WorkerStep::Write(encode(msg))
        } else {
            WorkerStep::Connect
        }
    }

    /// Dialling worked or did not. If not, the command is dropped, and the helper is
    /// dialled again for the next.
    pub fn on_connect(&mut self, success: bool, msg: &HudMsg) -> (r: WorkerStep)
        ensures
            final(self).connected == success,
            success ==> (r matches WorkerStep::Write(b) && b@ == frame(msg@)),
            !success ==> r is Drop,
    {
        self.connected = success;
        if success {
            WorkerStep::Write(encode(msg))
        } else {
            WorkerStep::Drop
        }
    }

    /// A write worked or did not. If not, the helper is dialled again for the next
    /// command.
    pub fn on_written(&mut self, success: bool)
        ensures
            final(self).connected == connected_after(old(self).connected, success),
    {
        if !success {
            self.connected = false;
        }
    }
}

/// Reads `n` applications from a place in some bytes: they, and where they end.
pub open spec fn read_apps(b: Seq<u8>, at: int, n: nat) -> Option<(Seq<(i32, Seq<u8>)>, int)>
    decreases n,
{
    if n == 0 {
        Some((Seq::empty(), at))
    } else if at + 6 > b.len() || at + 6 + wire::be16_at(b, at + 4) > b.len() {
        None
    } else {
        let len = wire::be16_at(b, at + 4) as int;
        let app = (wire::i32_of_bits(wire::be32_at(b, at)), b.subrange(at + 6, at + 6 + len));
        match read_apps(b, at + 6 + len, (n - 1) as nat) {
            None => None,
            Some((rest, end)) => Some((seq![app] + rest, end)),
        }
    }
}

/// Reads a command off the front of some bytes: it, and where it ends.
pub open spec fn read_frame(b: Seq<u8>) -> Option<(HudCommand, int)> {
    if b.len() == 0 {
        None
    } else if b[0] == 1 {
        if b.len() < 9 {
            None
        } else {
            match read_apps(b, 9, wire::be16_at(b, 7) as nat) {
                None => None,
                Some((apps, end)) => Some(
                    (
                        HudCommand::Show {
                            display_id: wire::be32_at(b, 1),
                            cursor: wire::be16_at(b, 5),
                            apps,
                        },
                        end,
                    ),
                ),
            }
        }
    } else if b[0] == 2 {
        if b.len() < 3 {
            None
        } else {
            Some((HudCommand::Advance { cursor: wire::be16_at(b, 1) }, 3))
        }
    } else if b[0] == 3 {
        Some((HudCommand::Hide, 1))
    } else {
        None
    }
}

proof fn lemma_read_apps(before: Seq<u8>, apps: Seq<(i32, Seq<u8>)>, after: Seq<u8>)
    requires
        forall|i: int| 0 <= i < apps.len() ==> (#[trigger] apps[i]).1.len() <= 0xffff,
    ensures
        read_apps(before + apps_bytes(apps) + after, before.len() as int, apps.len()) == Some(
            (apps, (before + apps_bytes(apps)).len() as int),
        ),
    decreases apps.len(),
{
    let b = before + apps_bytes(apps) + after;
    let at = before.len() as int;
    if apps.len() == 0 {
        assert(apps =~= Seq::empty());
    } else {
        let app = apps[0];
        let one = app_bytes(app);
        let rest = apps.drop_first();
        let len = app.1.len() as u16;
        assert(app.1.subrange(0, len as int) =~= app.1);
        assert(b.subrange(at, at + 4) =~= wire::be32(wire::bits_of_i32(app.0)));
        assert(b.subrange(at + 4, at + 6) =~= wire::be16(len));
        wire::law_read_undoes_write(b, at, 0, wire::bits_of_i32(app.0));
        wire::law_read_undoes_write(b, at + 4, len, 0);
        wire::law_i32_bits_round_trip(app.0);
        assert(b.subrange(at + 6, at + 6 + len) =~= app.1);
        assert forall|i: int| 0 <= i < rest.len() implies (#[trigger] rest[i]).1.len() <= 0xffff by {
            assert(rest[i] == apps[i + 1]);
        }
        lemma_read_apps(before + one, rest, after);
        assert(before + one + apps_bytes(rest) + after =~= b);
        assert(before + one + apps_bytes(rest) =~= before + apps_bytes(apps));
        assert(seq![app] + rest =~= apps);
    }
}

/// The helper reads every command that was sent, exactly, whatever follows it on
/// the wire, as long as its lists and names fit their length bytes.
pub proof fn law_commands_arrive(c: HudCommand, more: Seq<u8>)
    requires
        c matches HudCommand::Show { apps, .. } ==> apps.len() <= 0xffff && forall|i: int|
            0 <= i < apps.len() ==> (#[trigger] apps[i]).1.len() <= 0xffff,
    ensures
        read_frame(frame(c) + more) == Some((c, frame(c).len() as int)),
{
    let b = frame(c) + more;
    match c {
        HudCommand::Show { display_id, cursor, apps } => {
            let n = apps.len() as u16;
            let head = seq![1u8] + wire::be32(display_id) + wire::be16(cursor) + wire::be16(n);
            assert(apps.subrange(0, n as int) =~= apps);
            assert(b.subrange(1, 5) =~= wire::be32(display_id));
            assert(b.subrange(5, 7) =~= wire::be16(cursor));
            assert(b.subrange(7, 9) =~= wire::be16(n));
            wire::law_read_undoes_write(b, 1, 0, display_id);
            wire::law_read_undoes_write(b, 5, cursor, 0);
            wire::law_read_undoes_write(b, 7, n, 0);
            lemma_read_apps(head, apps, more);
            assert(b =~= head + apps_bytes(apps) + more);
        },
        HudCommand::Advance { cursor } => {
            assert(b.subrange(1, 3) =~= wire::be16(cursor));
            wire::law_read_undoes_write(b, 1, cursor, 0);
        },
        HudCommand::Hide => {},
    }
}

/// A command starts with its number: 1 to show, 2 to select, 3 to hide. A selection
/// follows in two bytes, the more significant first. To show, the display follows in
/// four bytes, then the selection and the number of applications in two each, and
/// then the applications, in their order.
pub proof fn law_how_commands_travel(
    display_id: u32,
    cursor: u16,
    apps: Seq<(i32, Seq<u8>)>,
    app: (i32, Seq<u8>),
)
    requires
        apps.len() < 0xffff,
    ensures
        frame(HudCommand::Hide) == seq![3u8],
        ({
            let b = frame(HudCommand::Advance { cursor });
            b.len() == 3 && b[0] == 2 && 0x100 * b[1] + b[2] == cursor
        }),
        ({
            let b = frame(HudCommand::Show { display_id, cursor, apps });
            &&& b.len() >= 9
            &&& b[0] == 1
            &&& 0x100_0000 * b[1] + 0x1_0000 * b[2] + 0x100 * b[3] + b[4] == display_id
            &&& 0x100 * b[5] + b[6] == cursor
            &&& 0x100 * b[7] + b[8] == apps.len()
            &&& apps.len() == 0 ==> b.len() == 9
        }),
        ({
            let before = frame(HudCommand::Show { display_id, cursor, apps });
            let after = frame(HudCommand::Show { display_id, cursor, apps: apps.push(app) });
            after.subrange(9, after.len() as int) == before.subrange(9, before.len() as int)
                + app_bytes(app)
        }),
{
    wire::law_bytes_are_digits(cursor, display_id);
    wire::law_bytes_are_digits(apps.len() as u16, 0);
    let before = frame(HudCommand::Show { display_id, cursor, apps });
    let after = frame(HudCommand::Show { display_id, cursor, apps: apps.push(app) });
    assert(apps.subrange(0, apps.len() as int) =~= apps);
    assert(apps.push(app).subrange(0, apps.len() as int + 1) =~= apps.push(app));
    lemma_apps_bytes_push(apps, app);
    assert(before.subrange(9, before.len() as int) =~= apps_bytes(apps));
    assert(after.subrange(9, after.len() as int) =~= apps_bytes(apps.push(app)));
}

proof fn lemma_apps_bytes_push(apps: Seq<(i32, Seq<u8>)>, app: (i32, Seq<u8>))
    ensures
        apps_bytes(apps.push(app)) == apps_bytes(apps) + app_bytes(app),
    decreases apps.len(),
{
    let more = apps.push(app);
    if apps.len() == 0 {
        assert(more.drop_first() =~= apps);
        assert(apps_bytes(more) =~= apps_bytes(apps) + app_bytes(app));
    } else {
        assert(more.drop_first() =~= apps.drop_first().push(app));
        lemma_apps_bytes_push(apps.drop_first(), app);
        assert(apps_bytes(more) =~= apps_bytes(apps) + app_bytes(app));
    }
}

/// An application is its process number in four bytes and the length of its name in
/// two, the most significant byte first, and the name as it is. A name that is too
/// long is cut to the longest that has a length.
pub proof fn law_how_applications_travel(pid: i32, name: Seq<u8>)
    ensures
        ({
            let b = app_bytes((pid, name));
            let n = b.len() - 6;
            &&& n == name.len() || (n == 0xffff && name.len() > 0xffff)
            &&& (0x100_0000 * b[0] + 0x1_0000 * b[1] + 0x100 * b[2] + b[3] - pid)
                % 0x1_0000_0000 == 0
            &&& 0x100 * b[4] + b[5] == n
            &&& forall|i: int| 0 <= i < n ==> #[trigger] b[6 + i] == name[i]
        }),
{
    let n = capped(name.len());
    wire::law_bytes_are_digits(n, wire::bits_of_i32(pid));
    wire::law_bits_are_twos_complement(pid, wire::bits_of_i32(pid));
}

/// Commands come out in the order they went in. A command is dropped where as many
/// wait as may, and never otherwise.
pub proof fn law_commands_wait_in_line(queue: Seq<HudMsg>, msg: HudMsg)
    ensures
        queue.len() < 64 ==> queued(queue, msg).len() == queue.len() + 1 && queued(queue, msg)[queue.len() as int]
            == msg,
        queue.len() >= 64 ==> queued(queue, msg).len() == queue.len(),
        forall|i: int| 0 <= i < queue.len() ==> #[trigger] queued(queue, msg)[i] == queue[i],
{
}

/// A selection is sent as it is if it fits two bytes, else as the first.
pub proof fn law_selections(cursor: usize)
    ensures
        cursor < 0x1_0000 ==> cursor_value(cursor) == cursor,
        cursor >= 0x1_0000 ==> cursor_value(cursor) == 0,
{
}

/// The applications of a command are those that were given, each by its process and
/// the bytes of its name, in their order.
pub proof fn law_commands_name_the_applications(apps: Seq<(i32, String)>, i: int)
    requires
        0 <= i < apps.len(),
    ensures
        app_values(apps).len() == apps.len(),
        app_values(apps)[i] == (apps[i].0, vstd::utf8::encode_utf8(apps[i].1@)),
{
}

/// A connection lasts as long as writing to it works, and a write makes none.
pub proof fn law_connections_last_while_writes_work(connected: bool)
    ensures
        connected_after(connected, true) == connected,
        !connected_after(connected, false),
{
}

/// A command says what was asked for: to show, with the display, the selection and the
/// applications; to select; or to hide.
pub proof fn law_commands_say_what_was_asked(
    display_id: u32,
    cursor: u16,
    apps: Vec<(i32, String)>,
)
    ensures
        (HudMsg::Show { display_id, cursor, apps })@ == (HudCommand::Show {
            display_id,
            cursor,
            apps: app_values(apps@),
        }),
        (HudMsg::Advance { cursor })@ == (HudCommand::Advance { cursor }),
        HudMsg::Hide@ == HudCommand::Hide,
{
}

} // verus!
