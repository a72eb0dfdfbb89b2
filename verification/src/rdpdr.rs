//! Drive redirection: which of the client's drives appear in Finder, and how a
//! drive is mirrored.
//!
//! A drive's root is mirrored into a folder: subdirectories as empty folders,
//! files as placeholders of the right size, each watched by a file presenter that
//! fetches the contents when the file is first read.

use std::collections::{HashMap, HashSet};

use vstd::prelude::*;

use crate::paths;
use crate::text;

verus! {

broadcast use vstd::std_specs::hash::group_hash_axioms;

/// What kind of device a client announces.
#[derive(Debug, Clone, Copy, PartialEq, Eq, Structural)]
pub enum DeviceType {
    Serial,
    Parallel,
    Print,
    Filesystem,
    Smartcard,
}

/// A device that the client offers.
pub struct AnnouncedDevice {
    pub device_id: u32,
    pub device_type: DeviceType,
    pub name: String,
}

/// Makes the handler of a connection's devices.
#[derive(Debug, Clone, Copy, PartialEq, Eq, Structural)]
pub struct MacRdpdr;

impl MacRdpdr {
    /// The factory holds nothing.
    pub fn new() -> (r: Self)
        ensures
            r == MacRdpdr,
    {
        MacRdpdr
    }

    /// A handler for a new connection.
    pub fn build_backend(&self) -> (r: MacRdpdrHandler)
        ensures
            !r.ready,
            r.mounted@ == Seq::<u32>::empty(),
    {
        MacRdpdrHandler { ready: false, mounted: Vec::new() }
    }
}

/// The devices of one connection.
pub struct MacRdpdrHandler {
    /// Whether the client's devices can be reached yet.
    pub ready: bool,
    /// The drives that appear in Finder, in the order they came.
    pub mounted: Vec<u32>,
}

/// The drives that are mounted once a list of devices has been announced.
pub open spec fn mounted_after(mounted: Seq<u32>, devices: Seq<AnnouncedDevice>) -> Seq<u32>
    decreases devices.len(),
{
    if devices.len() == 0 {
        mounted
    } else {
        let before = mounted_after(mounted, devices.drop_last());
        let d = devices.last();
        if d.device_type == DeviceType::Filesystem && !before.contains(d.device_id) {
            before.push(d.device_id)
        } else {
            before
        }
    }
}

/// The places in a list of devices of the drives that it brings.
pub open spec fn new_drives(mounted: Seq<u32>, devices: Seq<AnnouncedDevice>) -> Seq<int>
    decreases devices.len(),
{
    if devices.len() == 0 {
        Seq::empty()
    } else {
        let before = new_drives(mounted, devices.drop_last());
        let d = devices.last();
        if d.device_type == DeviceType::Filesystem && !mounted_after(
            mounted,
            devices.drop_last(),
        ).contains(d.device_id) {
            before.push(devices.len() - 1)
        } else {
            before
        }
    }
}

fn holds(ids: &Vec<u32>, id: u32) -> (r: bool)
    ensures
        r == ids@.contains(id),
{
    let mut i: usize = 0;
    while i < ids.len()
        invariant
            i <= ids@.len(),
            forall|j: int| 0 <= j < i ==> ids@[j] != id,
        decreases ids@.len() - i,
    {
        if ids[i] == id {
            return true;
        }
        i = i + 1;
    }
    false
}

impl MacRdpdrHandler {
    /// The client's devices can be reached from now on.
    pub fn set_handle(&mut self)
        ensures
            final(self).ready,
            final(self).mounted == old(self).mounted,
    {
        self.ready = true;
    }

    /// The client announced devices: says which of them are drives to mount, by
    /// their place in the list. A drive that is announced again is not mounted
    /// again.
    pub fn on_devices_announced(&mut self, devices: &Vec<AnnouncedDevice>) -> (r: Vec<usize>)
        ensures
            final(self).ready == old(self).ready,
            old(self).ready ==> {
                &&& final(self).mounted@ == mounted_after(old(self).mounted@, devices@)
                &&& r@.map_values(|i: usize| i as int) == new_drives(old(self).mounted@, devices@)
            },
            !old(self).ready ==> r@.len() == 0 && final(self).mounted == old(self).mounted,
    {
        let mut r: Vec<usize> = Vec::new();
        if !self.ready {
            return r;
        }
        let ghost before = self.mounted@;
        let mut i: usize = 0;
        assert(devices@.subrange(0, 0) =~= Seq::<AnnouncedDevice>::empty());
        assert(r@.map_values(|i: usize| i as int) =~= Seq::<int>::empty());
        while i < devices.len()
            invariant
                i <= devices@.len(),
                self.ready,
                self.mounted@ == mounted_after(before, devices@.subrange(0, i as int)),
                r@.map_values(|i: usize| i as int) == new_drives(
                    before,
                    devices@.subrange(0, i as int),
                ),
            decreases devices@.len() - i,
        {
            let ghost next = devices@.subrange(0, i + 1);
            assert(next.drop_last() =~= devices@.subrange(0, i as int));
            assert(next.last() == devices@[i as int]);
            let id: u32 = devices[i].device_id;
            if devices[i].device_type == DeviceType::Filesystem && !holds(&self.mounted, id) {
                let ghost places = r@.map_values(|i: usize| i as int);
                self.mounted.push(id);
                r.push(i);
                assert(r@.map_values(|i: usize| i as int) =~= places.push(i as int));
            }
            i = i + 1;
        }
        assert(devices@.subrange(0, devices@.len() as int) =~= devices@);
        r
    }
}

/// Unmounts what is still mounted when the program ends: says which drives.
pub fn shutdown_cleanup(handler: &mut MacRdpdrHandler) -> (r: Vec<u32>)
    ensures
        r@ == old(handler).mounted@,
        final(handler).mounted@ == Seq::<u32>::empty(),
        final(handler).ready == old(handler).ready,
{
    let mut r: Vec<u32> = Vec::new();
    core::mem::swap(&mut r, &mut handler.mounted);
    r
}

/// The name of this machine, out of what `gethostname` wrote: up to its end mark.
pub open spec fn host_name(rc: i32, buf: Seq<u8>) -> Seq<char> {
    accepted_name(rc, text::lossy_text(buf.subrange(0, end_mark(buf, 0))))
}

/// The name that is used, given the one that was found.
pub open spec fn accepted_name(rc: i32, name: Seq<char>) -> Seq<char> {
    if rc == 0 && name.len() > 0 {
        name
    } else {
        "macrdp"@
    }
}

/// The place of the first zero byte from `from` on, or the end.
pub open spec fn end_mark(buf: Seq<u8>, from: int) -> int
    decreases buf.len() - from,
{
    if from >= buf.len() || buf[from] == 0 {
        from
    } else {
        end_mark(buf, from + 1)
    }
}

/// Takes the text of a host name, where there is one.
pub fn accept_hostname(rc: i32, name: String) -> (r: String)
    ensures
        r@ == accepted_name(rc, name@),
{
    if rc == 0 && !name.as_str().is_empty() {
        name
    } else {
        "macrdp".to_owned()
    }
}

/// The name that the client shows its drives' host by.
pub fn hostname(rc: i32, buf: &[u8]) -> (r: String)
    ensures
        r@ == host_name(rc, buf@),
{
    let mut end: usize = 0;
    while end < buf.len() && buf[end] != 0
        invariant
            end <= buf@.len(),
            end_mark(buf@, 0) == end_mark(buf@, end as int),
        decreases buf@.len() - end,
    {
        end = end + 1;
    }
    let bytes = crate::wire::copy_range(buf, 0, end);
    accept_hostname(rc, text::from_utf8_lossy(bytes.as_slice()))
}

/// Where the text in `s` starts, after white space.
pub open spec fn text_start(s: Seq<char>, from: int) -> int
    decreases s.len() - from,
{
    if from >= s.len() || !text::white_space(s[from]) {
        from
    } else {
        text_start(s, from + 1)
    }
}

/// Where the text in `s[from..to]` ends, before white space.
pub open spec fn text_end(s: Seq<char>, from: int, to: int) -> int
    decreases to - from,
{
    if to <= from || !text::white_space(s[to - 1]) {
        to
    } else {
        text_end(s, from, to - 1)
    }
}

/// Where the text in `s[from..to]` ends, before colons.
pub open spec fn colon_end(s: Seq<char>, from: int, to: int) -> int
    decreases to - from,
{
    if to <= from || s[to - 1] != ':' {
        to
    } else {
        colon_end(s, from, to - 1)
    }
}

/// A drive's label without the white space around it and the colons at its end.
pub open spec fn trimmed_label(s: Seq<char>) -> Seq<char> {
    let from = text_start(s, 0);
    let to = text_end(s, from, s.len() as int);
    s.subrange(from, colon_end(s, from, to))
}

/// Whether a character may stand in a name: no separator and no control character.
pub open spec fn fit(c: char) -> bool {
    c != '/' && c != '\\' && c != ':' && !text::control(c)
}

/// A character of a label, or what stands in for it.
pub open spec fn cleaned_char(c: char) -> char {
    if fit(c) {
        c
    } else {
        '_'
    }
}

/// Whether a label names nothing: it is empty, or stands for a directory itself or
/// for the one above.
pub open spec fn nameless(t: Seq<char>) -> bool {
    t.len() == 0 || t == seq!['.'] || t == seq!['.', '.']
}

/// A drive's label as a name.
pub open spec fn label_name(s: Seq<char>) -> Seq<char> {
    let t = trimmed_label(s);
    if nameless(t) {
        "drive"@
    } else {
        t.map_values(|c: char| cleaned_char(c))
    }
}

proof fn lemma_trim_bounds(s: Seq<char>, from: int, to: int)
    requires
        0 <= from <= to <= s.len(),
    ensures
        from <= text_start(s, from) <= s.len(),
        from <= text_end(s, from, to) <= to,
        from <= colon_end(s, from, to) <= to,
{
    lemma_start_bounds(s, from);
    lemma_end_bounds(s, from, to);
    lemma_colon_bounds(s, from, to);
}

proof fn lemma_start_bounds(s: Seq<char>, from: int)
    requires
        0 <= from <= s.len(),
    ensures
        from <= text_start(s, from) <= s.len(),
    decreases s.len() - from,
{
    if from < s.len() && text::white_space(s[from]) {
        lemma_start_bounds(s, from + 1);
    }
}

proof fn lemma_end_bounds(s: Seq<char>, from: int, to: int)
    requires
        0 <= from <= to <= s.len(),
    ensures
        from <= text_end(s, from, to) <= to,
    decreases to - from,
{
    if to > from && text::white_space(s[to - 1]) {
        lemma_end_bounds(s, from, to - 1);
    }
}

proof fn lemma_colon_bounds(s: Seq<char>, from: int, to: int)
    requires
        0 <= from <= to <= s.len(),
    ensures
        from <= colon_end(s, from, to) <= to,
    decreases to - from,
{
    if to > from && s[to - 1] == ':' {
        lemma_colon_bounds(s, from, to - 1);
    }
}

/// Makes a drive's label a single component of a path.
pub fn sanitize_label(label: &str) -> (r: String)
    ensures
        r@ == label_name(label@),
{
    let s = text::chars_of(label);
    let mut from: usize = 0;
    while from < s.len() && text::is_white_space(s[from])
        invariant
            from <= s@.len(),
            text_start(s@, 0) == text_start(s@, from as int),
        decreases s@.len() - from,
    {
        from = from + 1;
    }
    let mut to: usize = s.len();
    while to > from && text::is_white_space(s[to - 1])
        invariant
            from <= to <= s@.len(),
            text_end(s@, from as int, s@.len() as int) == text_end(s@, from as int, to as int),
        decreases to,
    {
        to = to - 1;
    }
    let ghost end = to;
    while to > from && s[to - 1] == ':'
        invariant
            from <= to <= end <= s@.len(),
            colon_end(s@, from as int, end as int) == colon_end(s@, from as int, to as int),
        decreases to,
    {
        to = to - 1;
    }
    let ghost t = s@.subrange(from as int, to as int);
    assert(t == trimmed_label(label@));
    let n: usize = to - from;
    if n == 0 || (n == 1 && s[from] == '.') || (n == 2 && s[from] == '.' && s[from + 1] == '.') {
        proof {
            if n == 1 {
                assert(t =~= seq!['.']);
            } else if n == 2 {
                assert(t =~= seq!['.', '.']);
            }
        }
        return "drive".to_owned();
    }
    assert(!nameless(t)) by {
        if t == seq!['.'] {
            assert(t.len() == 1 && t[0] == '.');
        } else if t == seq!['.', '.'] {
            assert(t.len() == 2 && t[0] == '.' && t[1] == '.');
        }
    }
    let mut r = String::new();
    let mut i: usize = from;
    assert(r@ =~= t.subrange(0, 0).map_values(|c: char| cleaned_char(c)));
    while i < to
        invariant
            from <= i <= to <= s@.len(),
            t == s@.subrange(from as int, to as int),
            r@ == t.subrange(0, i - from).map_values(|c: char| cleaned_char(c)),
        decreases to - i,
    {
        let c: char = s[i];
        assert(t[i - from] == c);
        if c == '/' || c == '\\' || c == ':' || text::is_control(c) {
            r.push('_');
        } else {
            r.push(c);
        }
        i = i + 1;
        assert(r@ =~= t.subrange(0, i - from).map_values(|c: char| cleaned_char(c)));
    }
    assert(t.subrange(0, to - from) =~= t);
    r
}

/// A label becomes exactly one component of a path: it is not empty, nothing in it
/// separates, and it names neither a directory itself nor the one above. So the
/// folder of a drive is always a child of the folder that it is put in.
pub proof fn law_label_is_one_component(root: Seq<char>, s: Seq<char>)
    ensures
        label_name(s).len() > 0,
        forall|i: int| 0 <= i < label_name(s).len() ==> fit(#[trigger] label_name(s)[i]),
        label_name(s) != seq!['.'],
        label_name(s) != seq!['.', '.'],
        paths::file_name(paths::placed(root, label_name(s))) == Some(label_name(s)),
        paths::parent(paths::placed(root, label_name(s))) == Some(paths::plain(root)),
{
    reveal_strlit("drive");
    lemma_trim_bounds(s, 0, s.len() as int);
    let t = trimmed_label(s);
    let name = label_name(s);
    if name == seq!['.'] {
        assert(name.len() == 1 && name[0] == '.');
        assert(t =~= seq!['.']);
    }
    if name == seq!['.', '.'] {
        assert(name.len() == 2 && name[0] == '.' && name[1] == '.');
        assert(t =~= seq!['.', '.']);
    }
    paths::law_join_then_split(root, name);
}

/// Announcing the same devices again brings nothing, and no drive is mounted twice.
pub proof fn law_drives_are_mounted_once(mounted: Seq<u32>, devices: Seq<AnnouncedDevice>)
    requires
        mounted.no_duplicates(),
    ensures
        mounted_after(mounted, devices).no_duplicates(),
        mounted_after(mounted_after(mounted, devices), devices) == mounted_after(mounted, devices),
        new_drives(mounted_after(mounted, devices), devices).len() == 0,
{
    lemma_mounted(mounted, devices);
    lemma_nothing_new(mounted_after(mounted, devices), devices);
}

proof fn lemma_mounted(mounted: Seq<u32>, devices: Seq<AnnouncedDevice>)
    requires
        mounted.no_duplicates(),
    ensures
        mounted_after(mounted, devices).no_duplicates(),
        forall|i: int|
            0 <= i < devices.len() && (#[trigger] devices[i]).device_type == DeviceType::Filesystem
                ==> mounted_after(mounted, devices).contains(devices[i].device_id),
    decreases devices.len(),
{
    if devices.len() > 0 {
        let head = devices.drop_last();
        lemma_mounted(mounted, head);
        let before = mounted_after(mounted, head);
        let all = mounted_after(mounted, devices);
        let d = devices.last();
        assert forall|i: int|
            0 <= i < devices.len() && (#[trigger] devices[i]).device_type
                == DeviceType::Filesystem implies all.contains(devices[i].device_id) by {
            if i < devices.len() - 1 {
                assert(head[i] == devices[i]);
                assert(before.contains(devices[i].device_id));
                let k = choose|k: int| 0 <= k < before.len() && before[k] == devices[i].device_id;
                assert(all[k] == devices[i].device_id);
            } else if !before.contains(d.device_id) {
                assert(all[before.len() as int] == d.device_id);
            }
        }
    }
}

proof fn lemma_nothing_new(mounted: Seq<u32>, devices: Seq<AnnouncedDevice>)
    requires
        forall|i: int|
            0 <= i < devices.len() && (#[trigger] devices[i]).device_type == DeviceType::Filesystem
                ==> mounted.contains(devices[i].device_id),
    ensures
        mounted_after(mounted, devices) == mounted,
        new_drives(mounted, devices).len() == 0,
    decreases devices.len(),
{
    if devices.len() > 0 {
        let head = devices.drop_last();
        assert forall|i: int|
            0 <= i < head.len() && (#[trigger] head[i]).device_type
                == DeviceType::Filesystem implies mounted.contains(head[i].device_id) by {
            assert(head[i] == devices[i]);
        }
        lemma_nothing_new(mounted, head);
        assert(devices.last() == devices[devices.len() - 1]);
    }
}

/// The presenters of all mirrored files.
pub struct Presenters {
    pub next_id: u64,
    /// Whether a file's contents have been fetched, by its presenter.
    pub registry: HashMap<u64, bool>,
    /// The presenters that are added to the coordinator.
    pub live: HashSet<u64>,
}

/// What a read of a mirrored file leads to.
#[derive(Debug, Clone, Copy, PartialEq, Eq, Structural)]
pub enum ReadStep {
    /// The reader goes on at once.
    Pass,
    /// The contents are fetched first.
    Fetch,
}

/// What a read of the file with this presenter leads to.
pub open spec fn read_step(registry: Map<u64, bool>, id: u64) -> ReadStep {
    if registry.contains_key(id) && !registry[id] {
        ReadStep::Fetch
    } else {
        ReadStep::Pass
    }
}

/// The files after the contents of one came, or did not.
pub open spec fn after_fetch(registry: Map<u64, bool>, id: u64, success: bool) -> Map<u64, bool> {
    if !success {
        registry.remove(id)
    } else if registry.contains_key(id) {
        registry.insert(id, true)
    } else {
        registry
    }
}

impl Presenters {
    /// No file is mirrored.
    pub fn new() -> (r: Self)
        ensures
            r.next_id == 1,
            r.registry@ == Map::<u64, bool>::empty(),
            r.live@ == Set::<u64>::empty(),
    {
        Presenters { next_id: 1, registry: HashMap::new(), live: HashSet::new() }
    }

    /// A file is mirrored, and not fetched yet.
    pub fn allocate(&mut self) -> (id: u64)
        ensures
            id == old(self).next_id,
            final(self).next_id == old(self).next_id.wrapping_add(1),
            final(self).registry@ == old(self).registry@.insert(id, false),
            final(self).live == old(self).live,
    {
        let id: u64 = self.next_id;
        self.next_id = self.next_id.wrapping_add(1);
        self.registry.insert(id, false);
        id
    }

    /// A presenter has been added to the coordinator.
    pub fn added(&mut self, id: u64)
        ensures
            final(self).live@ == old(self).live@.insert(id),
            final(self).registry == old(self).registry,
            final(self).next_id == old(self).next_id,
    {
        self.live.insert(id);
    }

    /// A file is about to be read.
    pub fn relinquish_to_reader(&self, id: u64) -> (r: ReadStep)
        ensures
            r == read_step(self.registry@, id),
    {
        match self.registry.get(&id) {
            None => ReadStep::Pass,
            Some(fetched) => if *fetched {
                ReadStep::Pass
            } else {
                ReadStep::Fetch
            },
        }
    }

    /// The contents of a file came, or did not, and the placeholder is removed.
    pub fn fetched(&mut self, id: u64, success: bool)
        ensures
            final(self).next_id == old(self).next_id,
            final(self).live == old(self).live,
            final(self).registry@ == after_fetch(old(self).registry@, id, success),
    {
        if !success {
            self.registry.remove(&id);
            assert(self.registry@ =~= old(self).registry@.remove(id));
        } else if self.registry.contains_key(&id) {
            self.registry.insert(id, true);
        }
    }

    /// Forgets presenters: says which of them the coordinator has to forget too.
    pub fn release(&mut self, ids: &Vec<u64>) -> (r: Vec<u64>)
        ensures
            final(self).next_id == old(self).next_id,
            r@ == live_among(old(self).live@, ids@),
            final(self).registry@ == old(self).registry@.remove_keys(ids@.to_set()),
            final(self).live@ == old(self).live@.difference(ids@.to_set()),
    {
        let mut r: Vec<u64> = Vec::new();
        let ghost live0 = self.live@;
        let ghost reg0 = self.registry@;
        let mut i: usize = 0;
        assert(ids@.subrange(0, 0).to_set() =~= Set::<u64>::empty());
        assert(reg0.remove_keys(Set::<u64>::empty()) =~= reg0);
        assert(live0.difference(Set::<u64>::empty()) =~= live0);
        assert(ids@.subrange(0, 0) =~= Seq::<u64>::empty());
        while i < ids.len()
            invariant
                i <= ids@.len(),
                self.next_id == old(self).next_id,
                r@ == live_among(live0, ids@.subrange(0, i as int)),
                self.registry@ == reg0.remove_keys(ids@.subrange(0, i as int).to_set()),
                self.live@ == live0.difference(ids@.subrange(0, i as int).to_set()),
            decreases ids@.len() - i,
        {
            let id: u64 = ids[i];
            let ghost done = ids@.subrange(0, i as int);
            let ghost next = ids@.subrange(0, i + 1);
            assert(next.drop_last() =~= done);
            assert(next.last() == id);
            assert(next =~= done.push(id));
            assert(next.to_set() =~= done.to_set().insert(id)) by {
                assert forall|x: u64| next.to_set().contains(x) <==> done.to_set().insert(
                    id,
                ).contains(x) by {
                    if done.contains(x) {
                        let k = choose|k: int| 0 <= k < done.len() && done[k] == x;
                        assert(next[k] == x);
                    }
                    if next.contains(x) {
                        let k = choose|k: int| 0 <= k < next.len() && next[k] == x;
                        if k < done.len() {
                            assert(done[k] == x);
                        }
                    }
                    if x == id {
                        assert(next[i as int] == x);
                    }
                }
            }
            self.registry.remove(&id);
            let was_live = self.live.remove(&id);
            assert(self.registry@ =~= reg0.remove_keys(next.to_set()));
            assert(self.live@ =~= live0.difference(next.to_set()));
            if was_live {
                r.push(id);
            }
            i = i + 1;
        }
        assert(ids@.subrange(0, ids@.len() as int) =~= ids@);
        r
    }
}

/// The ids that are live, each where it first stands.
pub open spec fn live_among(live: Set<u64>, ids: Seq<u64>) -> Seq<u64>
    decreases ids.len(),
{
    if ids.len() == 0 {
        Seq::empty()
    } else {
        let before = live_among(live, ids.drop_last());
        if live.contains(ids.last()) && !ids.drop_last().to_set().contains(ids.last()) {
            before.push(ids.last())
        } else {
            before
        }
    }
}

/// An entry of a drive's root.
pub struct DirEntry {
    pub name: String,
    pub is_dir: bool,
    pub size: u64,
}

/// What an entry becomes in the mirror.
pub enum MirrorOp {
    MakeDir { path: String },
    Placeholder { path: String, size: u64 },
}

/// Whether an operation mirrors an entry into a directory.
pub open spec fn mirrors(op: MirrorOp, e: DirEntry, dir: Seq<char>) -> bool {
    match op {
        MirrorOp::MakeDir { path } => e.is_dir && path@ == paths::placed(dir, e.name@),
        MirrorOp::Placeholder { path, size } => !e.is_dir && path@ == paths::placed(dir, e.name@)
            && size == e.size,
    }
}

/// A file that waits to be read.
pub struct Presenter {
    pub id: u64,
    /// Where its placeholder is.
    pub dst: String,
    pub device_id: u32,
    /// Where its contents are, on the client's drive.
    pub remote_path: String,
}

/// The mirror of one drive.
pub struct Surface {
    pub temp_dir: Option<String>,
    pub presenter_ids: Vec<u64>,
}

/// The folder of all mirrors of one run of the program.
pub open spec fn mirror_root(temp: Seq<char>, pid: u32) -> Seq<char> {
    paths::joined(temp, "macrdp-rdpdr-"@ + text::decimal(pid as nat))
}

/// The folder of all mirrors, and the folder of the mirror of one drive in it.
pub fn mirror_dirs(temp: &str, pid: u32, label: &str) -> (r: (String, String))
    ensures
        r.0@ == mirror_root(temp@, pid),
        r.1@ == paths::placed(mirror_root(temp@, pid), label@),
{
    let mut name = "macrdp-rdpdr-".to_owned();
    text::push_decimal(&mut name, pid as u64);
    let root = paths::join(temp, name.as_str());
    let drive = paths::place(root.as_str(), label);
    (root, drive)
}

/// What makes the mirror of a drive's root, entry by entry.
pub fn mirror_ops(entries: &Vec<DirEntry>, drive_dir: &str) -> (ops: Vec<MirrorOp>)
    ensures
        ops@.len() == entries@.len(),
        forall|i: int|
            0 <= i < ops@.len() ==> mirrors(#[trigger] ops@[i], entries@[i], drive_dir@),
{
    let mut ops: Vec<MirrorOp> = Vec::new();
    let mut i: usize = 0;
    while i < entries.len()
        invariant
            i <= entries@.len(),
            ops@.len() == i,
            forall|j: int|
                0 <= j < ops@.len() ==> mirrors(#[trigger] ops@[j], entries@[j], drive_dir@),
        decreases entries@.len() - i,
    {
        let path = paths::place(drive_dir, entries[i].name.as_str());
        if entries[i].is_dir {
            ops.push(MirrorOp::MakeDir { path });
        } else {
            ops.push(MirrorOp::Placeholder { path, size: entries[i].size });
        }
        i = i + 1;
    }
    ops
}

/// Whether an entry gets a presenter: a file whose placeholder could be made.
pub open spec fn presented(entries: Seq<DirEntry>, made: Seq<bool>, i: int) -> bool {
    !entries[i].is_dir && made[i]
}

/// The places of the entries that get a presenter, among the first `n`.
pub open spec fn presented_entries(entries: Seq<DirEntry>, made: Seq<bool>, n: nat) -> Seq<int>
    decreases n,
{
    if n == 0 {
        Seq::empty()
    } else {
        let before = presented_entries(entries, made, (n - 1) as nat);
        if presented(entries, made, n - 1) {
            before.push(n - 1)
        } else {
            before
        }
    }
}

/// Whether a presenter is that of an entry.
pub open spec fn presents(
    p: Presenter,
    e: DirEntry,
    dir: Seq<char>,
    device_id: u32,
    id: int,
) -> bool {
    &&& p.id == id
    &&& p.dst@ == paths::placed(dir, e.name@)
    &&& p.device_id == device_id
    &&& p.remote_path@ == seq!['\\'] + e.name@
}

impl Surface {
    /// A drive whose mirror is yet to be made.
    pub fn start() -> (r: Self)
        ensures
            r.temp_dir is None,
            r.presenter_ids@ == Seq::<u64>::empty(),
    {
        Surface { temp_dir: None, presenter_ids: Vec::new() }
    }

    /// The mirror goes away: says what is to be deleted, and whose presenters are
    /// to be forgotten.
    pub fn take(&mut self) -> (r: (Option<String>, Vec<u64>))
        ensures
            r.0 == old(self).temp_dir,
            r.1@ == old(self).presenter_ids@,
            final(self).temp_dir is None,
            final(self).presenter_ids@ == Seq::<u64>::empty(),
    {
        let mut dir: Option<String> = None;
        core::mem::swap(&mut dir, &mut self.temp_dir);
        let mut ids: Vec<u64> = Vec::new();
        core::mem::swap(&mut ids, &mut self.presenter_ids);
        (dir, ids)
    }
}

/// The ids of presenters.
pub open spec fn ids_of(list: Seq<Presenter>) -> Seq<u64> {
    list.map_values(|p: Presenter| p.id)
}

/// Whether the files registered from `first` up to `next` are new and wait to be
/// read, and no other file is new.
pub open spec fn wait_from(
    before: Map<u64, bool>,
    after: Map<u64, bool>,
    first: int,
    next: int,
) -> bool {
    &&& forall|id: u64|
        #[trigger] after.contains_key(id) <==> before.contains_key(id) || first <= id < next
    &&& forall|id: u64| first <= id < next ==> !(#[trigger] after[id])
    &&& forall|id: u64|
        before.contains_key(id) && !(first <= id < next) ==> #[trigger] after[id] == before[id]
}

/// Gives every mirrored file its presenter. `made` says of each entry whether its
/// placeholder could be made.
pub fn build_surface(
    surface: &mut Surface,
    presenters: &mut Presenters,
    root: String,
    drive_dir: &str,
    device_id: u32,
    entries: &Vec<DirEntry>,
    made: &Vec<bool>,
) -> (r: Vec<Presenter>)
    requires
        made@.len() == entries@.len(),
        old(presenters).next_id + entries@.len() <= u64::MAX,
    ensures
        ({
            let places = presented_entries(entries@, made@, entries@.len());
            &&& r@.len() == places.len()
            &&& forall|k: int|
                0 <= k < r@.len() ==> presents(
                    #[trigger] r@[k],
                    entries@[places[k]],
                    drive_dir@,
                    device_id,
                    old(presenters).next_id + k,
                )
        }),
        final(surface).temp_dir == Some(root),
        final(surface).presenter_ids@ == ids_of(r@),
        final(presenters).next_id == old(presenters).next_id + r@.len(),
        final(presenters).live == old(presenters).live,
        wait_from(
            old(presenters).registry@,
            final(presenters).registry@,
            old(presenters).next_id as int,
            final(presenters).next_id as int,
        ),
{
    surface.temp_dir = Some(root);
    let mut r: Vec<Presenter> = Vec::new();
    let mut ids: Vec<u64> = Vec::new();
    let ghost first = presenters.next_id;
    let ghost reg0 = presenters.registry@;
    let mut i: usize = 0;
    while i < entries.len()
        invariant
            i <= entries@.len(),
            made@.len() == entries@.len(),
            first + entries@.len() <= u64::MAX,
            presenters.next_id == first + r@.len(),
            presenters.live == old(presenters).live,
            r@.len() <= i,
            r@.len() == presented_entries(entries@, made@, i as nat).len(),
            forall|k: int|
                0 <= k < r@.len() ==> 0 <= #[trigger] presented_entries(
                    entries@,
                    made@,
                    i as nat,
                )[k] < i,
            forall|k: int|
                0 <= k < r@.len() ==> presents(
                    #[trigger] r@[k],
                    entries@[presented_entries(entries@, made@, i as nat)[k]],
                    drive_dir@,
                    device_id,
                    first + k,
                ),
            ids@ == ids_of(r@),
            wait_from(reg0, presenters.registry@, first as int, first + r@.len()),
        decreases entries@.len() - i,
    {
        if !entries[i].is_dir && made[i] {
            let ghost before = r@;
            let id: u64 = presenters.allocate();
            let dst = paths::place(drive_dir, entries[i].name.as_str());
            let mut remote_path = String::new();
            remote_path.push('\\');
            text::append(&mut remote_path, entries[i].name.as_str());
            assert(remote_path@ =~= seq!['\\'] + entries@[i as int].name@);
            r.push(Presenter { id, dst, device_id, remote_path });
            ids.push(id);
            assert(ids@ =~= ids_of(r@));
        }
        i = i + 1;
    }
    surface.presenter_ids = ids;
    r
}

/// Taking a mirror away forgets exactly the files that making it registered.
pub proof fn law_release_undoes_build(
    before: Map<u64, bool>,
    after: Map<u64, bool>,
    first: int,
    ids: Seq<u64>,
)
    requires
        wait_from(before, after, first, first + ids.len()),
        forall|k: int| 0 <= k < ids.len() ==> #[trigger] ids[k] == first + k,
        forall|id: u64| first <= id < first + ids.len() ==> !(#[trigger] before.contains_key(id)),
    ensures
        after.remove_keys(ids.to_set()) == before,
{
    let left = after.remove_keys(ids.to_set());
    assert forall|id: u64| ids.to_set().contains(id) <==> first <= id < first + ids.len() by {
        if first <= id < first + ids.len() {
            assert(ids[id - first] == id);
        }
    }
    assert forall|id: u64| left.contains_key(id) <==> before.contains_key(id) by {
        assert(after.contains_key(id) <==> before.contains_key(id) || first <= id < first
            + ids.len());
    }
    assert forall|id: u64| left.contains_key(id) implies left[id] == before[id] by {
        assert(after[id] == before[id]);
    }
    assert(left =~= before);
}

/// A label that names something, has no white space around it and no colon at its
/// end keeps its length and its characters, each in its place, but for separators,
/// colons and control characters, which become an underscore.
pub proof fn law_labels_are_kept(s: Seq<char>, i: int)
    requires
        0 <= i < s.len(),
        !text::white_space(s[0]),
        !text::white_space(s[s.len() - 1]),
        s[s.len() - 1] != ':',
        s != seq!['.'],
        s != seq!['.', '.'],
    ensures
        label_name(s).len() == s.len(),
        label_name(s)[i] == (if s[i] == '/' || s[i] == '\\' || s[i] == ':' || s[i] < ' '
            || '\u{7f}' <= s[i] <= '\u{9f}' {
            '_'
        } else {
            s[i]
        }),
{
    assert(text_start(s, 0) == 0);
    assert(text_end(s, 0, s.len() as int) == s.len());
    assert(colon_end(s, 0, s.len() as int) == s.len());
    assert(trimmed_label(s) =~= s);
    assert(label_name(s)[i] == cleaned_char(s[i]));
    text::law_what_white_space_is(s[i]);
}

/// White space around a label does not count, and neither do colons at its end. A
/// label with nothing else in it, or that stands for a directory, is called `drive`.
pub proof fn law_what_surrounds_a_label(s: Seq<char>, w: char)
    requires
        text::white_space(w),
    ensures
        label_name(seq![w] + s) == label_name(s),
        label_name(s.push(w)) == label_name(s),
        s.len() > 0 && !text::white_space(s[s.len() - 1]) ==> label_name(s.push(':'))
            == label_name(s),
        label_name(Seq::empty()) == "drive"@,
        label_name(seq!['.']) == "drive"@,
        label_name(seq!['.', '.']) == "drive"@,
{
    lemma_trim_front(s, w);
    lemma_trim_back(s, w);
    if s.len() > 0 && !text::white_space(s[s.len() - 1]) {
        lemma_trim_colon(s);
    }
    assert(trimmed_label(Seq::empty()) =~= Seq::<char>::empty());
    assert(trimmed_label(seq!['.']) =~= seq!['.']) by {
        let t = seq!['.'];
        assert(t.len() == 1 && t[0] == '.');
        assert(text_start(t, 0) == 0 && text_end(t, 0, 1) == 1 && colon_end(t, 0, 1) == 1);
    }
    assert(trimmed_label(seq!['.', '.']) =~= seq!['.', '.']) by {
        let t = seq!['.', '.'];
        assert(t.len() == 2 && t[0] == '.' && t[1] == '.');
        assert(text_start(t, 0) == 0 && text_end(t, 0, 2) == 2 && colon_end(t, 0, 2) == 2);
    }
}

proof fn lemma_start_moves(s: Seq<char>, t: Seq<char>, from: int, by: int)
    requires
        0 <= from <= s.len(),
        t.len() == s.len() + by,
        forall|i: int| 0 <= i < s.len() ==> t[i + by] == s[i],
    ensures
        text_start(t, from + by) == text_start(s, from) + by,
    decreases s.len() - from,
{
    if from < s.len() {
        assert(t[from + by] == s[from]);
        if text::white_space(s[from]) {
            lemma_start_moves(s, t, from + 1, by);
        }
    }
}

proof fn lemma_ends_move(s: Seq<char>, t: Seq<char>, from: int, to: int, by: int)
    requires
        0 <= from <= to <= s.len(),
        forall|i: int| 0 <= i < s.len() ==> t[i + by] == s[i],
    ensures
        text_end(t, from + by, to + by) == text_end(s, from, to) + by,
        colon_end(t, from + by, to + by) == colon_end(s, from, to) + by,
    decreases to - from,
{
    if to > from {
        assert(t[(to - 1) + by] == s[to - 1]);
        lemma_ends_move(s, t, from, to - 1, by);
    }
}

proof fn lemma_trim_front(s: Seq<char>, w: char)
    requires
        text::white_space(w),
    ensures
        trimmed_label(seq![w] + s) == trimmed_label(s),
{
    let t = seq![w] + s;
    assert forall|i: int| 0 <= i < s.len() implies t[i + 1] == s[i] by {}
    assert(t[0] == w);
    assert(text_start(t, 0) == text_start(t, 1));
    lemma_start_moves(s, t, 0, 1);
    let from = text_start(s, 0);
    lemma_start_bounds(s, 0);
    lemma_ends_move(s, t, from, s.len() as int, 1);
    lemma_end_bounds(s, from, s.len() as int);
    let to = text_end(s, from, s.len() as int);
    lemma_ends_move(s, t, from, to, 1);
    lemma_colon_bounds(s, from, to);
    assert(trimmed_label(t) =~= trimmed_label(s));
}

proof fn lemma_trim_back(s: Seq<char>, w: char)
    requires
        text::white_space(w),
    ensures
        trimmed_label(s.push(w)) == trimmed_label(s),
{
    let t = s.push(w);
    let n = s.len() as int;
    lemma_start_bounds(s, 0);
    let from = text_start(s, 0);
    lemma_start_after_push(s, w, 0);
    if from == n {
        assert(text_start(t, n) == text_start(t, n + 1));
        assert(text_start(t, n + 1) == n + 1);
        assert(trimmed_label(t) =~= trimmed_label(s));
    } else {
        assert(text_start(t, 0) == from);
        assert(t[n] == w);
        assert(text_end(t, from, n + 1) == text_end(t, from, n));
        lemma_ends_move(s, t, from, n, 0);
        lemma_end_bounds(s, from, n);
        let to = text_end(s, from, n);
        lemma_ends_move(s, t, from, to, 0);
        lemma_colon_bounds(s, from, to);
        assert(trimmed_label(t) =~= trimmed_label(s));
    }
}

proof fn lemma_start_after_push(s: Seq<char>, c: char, from: int)
    requires
        0 <= from <= s.len(),
    ensures
        text_start(s, from) < s.len() ==> text_start(s.push(c), from) == text_start(s, from),
        text_start(s, from) == s.len() ==> text_start(s.push(c), from) == text_start(
            s.push(c),
            s.len() as int,
        ),
    decreases s.len() - from,
{
    lemma_start_bounds(s, from);
    if from < s.len() {
        assert(s.push(c)[from] == s[from]);
        if text::white_space(s[from]) {
            lemma_start_after_push(s, c, from + 1);
        }
    }
}

proof fn lemma_trim_colon(s: Seq<char>)
    requires
        s.len() > 0,
        !text::white_space(s[s.len() - 1]),
    ensures
        trimmed_label(s.push(':')) == trimmed_label(s),
{
    let t = s.push(':');
    let n = s.len() as int;
    lemma_start_bounds(s, 0);
    let from = text_start(s, 0);
    lemma_start_stops(s, 0);
    lemma_start_after_push(s, ':', 0);
    assert(text_end(s, from, n) == n);
    assert(t[n] == ':');
    assert(!text::white_space(':'));
    assert(text_end(t, from, n + 1) == n + 1);
    assert(colon_end(t, from, n + 1) == colon_end(t, from, n));
    lemma_ends_move(s, t, from, n, 0);
    lemma_colon_bounds(s, from, n);
    assert(trimmed_label(t) =~= trimmed_label(s));
}

proof fn lemma_start_stops(s: Seq<char>, from: int)
    requires
        0 <= from < s.len(),
        !text::white_space(s[s.len() - 1]),
    ensures
        text_start(s, from) < s.len(),
    decreases s.len() - from,
{
    if text::white_space(s[from]) {
        lemma_start_stops(s, from + 1);
    }
}

/// Every drive that is announced is mounted and nothing else is: devices of another
/// kind are not. What was mounted stays, in its order.
pub proof fn law_every_drive_is_mounted(mounted: Seq<u32>, devices: Seq<AnnouncedDevice>)
    ensures
        mounted.len() <= mounted_after(mounted, devices).len(),
        mounted_after(mounted, devices).subrange(0, mounted.len() as int) == mounted,
        forall|i: int|
            0 <= i < devices.len() && (#[trigger] devices[i]).device_type is Filesystem
                ==> mounted_after(mounted, devices).contains(devices[i].device_id),
        forall|id: u32| #[trigger]
            mounted_after(mounted, devices).contains(id) ==> mounted.contains(id) || exists|i: int|
                0 <= i < devices.len() && (#[trigger] devices[i]).device_type is Filesystem
                    && devices[i].device_id == id,
    decreases devices.len(),
{
    if devices.len() == 0 {
        assert(mounted.subrange(0, mounted.len() as int) =~= mounted);
    } else {
        let head = devices.drop_last();
        law_every_drive_is_mounted(mounted, head);
        let before = mounted_after(mounted, head);
        let all = mounted_after(mounted, devices);
        let d = devices.last();
        assert(d == devices[devices.len() - 1]);
        assert(all.subrange(0, mounted.len() as int) =~= before.subrange(0, mounted.len() as int));
        assert forall|i: int|
            0 <= i < devices.len() && (#[trigger] devices[i]).device_type
                is Filesystem implies all.contains(devices[i].device_id) by {
            if i < devices.len() - 1 {
                assert(head[i] == devices[i]);
                let k = choose|k: int| 0 <= k < before.len() && before[k] == devices[i].device_id;
                assert(all[k] == devices[i].device_id);
            } else if !before.contains(d.device_id) {
                assert(all[before.len() as int] == d.device_id);
            }
        }
        assert forall|id: u32| #[trigger] all.contains(id) implies mounted.contains(id) || exists|
            i: int,
        |
            0 <= i < devices.len() && (#[trigger] devices[i]).device_type is Filesystem
                && devices[i].device_id == id by {
            let k = choose|k: int| 0 <= k < all.len() && all[k] == id;
            if k < before.len() {
                assert(before[k] == id);
                assert(before.contains(id));
                if !mounted.contains(id) {
                    let i = choose|i: int|
                        0 <= i < head.len() && (#[trigger] head[i]).device_type is Filesystem
                            && head[i].device_id == id;
                    assert(devices[i] == head[i]);
                }
            } else {
                assert(devices[devices.len() - 1].device_id == id);
            }
        }
    }
}

/// The drives that an announcement brings are told in order and one by one: they are
/// what is mounted beyond what was.
pub proof fn law_new_drives_are_told(mounted: Seq<u32>, devices: Seq<AnnouncedDevice>)
    ensures
        new_drives(mounted, devices).len() == mounted_after(mounted, devices).len() - mounted.len(),
        forall|k: int|
            0 <= k < new_drives(mounted, devices).len() ==> {
                let place = #[trigger] new_drives(mounted, devices)[k];
                &&& 0 <= place < devices.len()
                &&& devices[place].device_type is Filesystem
                &&& devices[place].device_id == mounted_after(mounted, devices)[mounted.len() + k]
            },
        forall|j: int, k: int|
            0 <= j < k < new_drives(mounted, devices).len() ==> #[trigger] new_drives(
                mounted,
                devices,
            )[j] < #[trigger] new_drives(mounted, devices)[k],
    decreases devices.len(),
{
    if devices.len() > 0 {
        let head = devices.drop_last();
        law_new_drives_are_told(mounted, head);
        law_every_drive_is_mounted(mounted, head);
        let places = new_drives(mounted, devices);
        let before = new_drives(mounted, head);
        assert forall|k: int| 0 <= k < places.len() implies {
            let place = #[trigger] places[k];
            &&& 0 <= place < devices.len()
            &&& devices[place].device_type is Filesystem
            &&& devices[place].device_id == mounted_after(mounted, devices)[mounted.len() + k]
        } by {
            if k < before.len() {
                assert(places[k] == before[k]);
                assert(head[before[k]] == devices[before[k]]);
            }
        }
        assert forall|j: int, k: int| 0 <= j < k < places.len() implies #[trigger] places[j]
            < #[trigger] places[k] by {
            assert(places[j] == before[j]);
            if k < before.len() {
                assert(places[k] == before[k]);
            }
        }
    }
}

/// The host's name is what stands before the first zero byte. Where the call failed,
/// or there is nothing before it, it is `macrdp`.
pub proof fn law_what_the_host_is_called(rc: i32, name: Seq<u8>, rest: Seq<u8>)
    requires
        forall|i: int| 0 <= i < name.len() ==> name[i] != 0,
    ensures
        ({
            let found = text::lossy_text(name);
            &&& found.len() > 0 ==> host_name(0, name + seq![0u8] + rest) == found
            &&& found.len() > 0 ==> host_name(0, name) == found
            &&& found.len() == 0 ==> host_name(0, name) == "macrdp"@
            &&& rc != 0 ==> host_name(rc, name) == "macrdp"@
        }),
{
    let buf = name + seq![0u8] + rest;
    assert(buf[name.len() as int] == 0);
    lemma_end_mark(buf, 0, name.len() as int);
    assert(buf.subrange(0, name.len() as int) =~= name);
    lemma_end_mark(name, 0, name.len() as int);
    assert(name.subrange(0, name.len() as int) =~= name);
}

proof fn lemma_end_mark(buf: Seq<u8>, from: int, at: int)
    requires
        0 <= from <= at <= buf.len(),
        at == buf.len() || buf[at] == 0,
        forall|i: int| from <= i < at ==> buf[i] != 0,
    ensures
        end_mark(buf, from) == at,
    decreases at - from,
{
    if from < at {
        lemma_end_mark(buf, from + 1, at);
    }
}

/// A file is fetched by its first reader, and only while it is mirrored. Once its
/// contents have come they are not fetched again; if they did not come, the file is
/// forgotten. Other files are left as they were.
pub proof fn law_files_are_fetched_once(registry: Map<u64, bool>, id: u64, other: u64)
    ensures
        read_step(registry.insert(id, false), id) == ReadStep::Fetch,
        read_step(after_fetch(registry.insert(id, false), id, true), id) == ReadStep::Pass,
        after_fetch(registry.insert(id, false), id, true).contains_key(id),
        !after_fetch(registry, id, false).contains_key(id),
        !registry.contains_key(id) ==> read_step(registry, id) == ReadStep::Pass && after_fetch(
            registry,
            id,
            true,
        ) == registry,
        other != id ==> forall|success: bool|
            {
                let after = #[trigger] after_fetch(registry, id, success);
                &&& after.contains_key(other) == registry.contains_key(other)
                &&& registry.contains_key(other) ==> after[other] == registry[other]
            },
{
}

/// The coordinator is told to forget each presenter that it was told of, once, and
/// no other.
pub proof fn law_presenters_are_forgotten_once(live: Set<u64>, ids: Seq<u64>)
    ensures
        live_among(live, ids).no_duplicates(),
        forall|id: u64| #[trigger]
            live_among(live, ids).contains(id) <==> live.contains(id) && ids.contains(id),
    decreases ids.len(),
{
    if ids.len() > 0 {
        let head = ids.drop_last();
        law_presenters_are_forgotten_once(live, head);
        let before = live_among(live, head);
        let all = live_among(live, ids);
        let last = ids.last();
        assert(ids[ids.len() - 1] == last);
        assert forall|id: u64| #[trigger] all.contains(id) <==> live.contains(id) && ids.contains(
            id,
        ) by {
            if ids.contains(id) && live.contains(id) {
                let k = choose|k: int| 0 <= k < ids.len() && ids[k] == id;
                if k < head.len() {
                    assert(head[k] == id);
                    assert(head.contains(id));
                    assert(before.contains(id));
                    let j = choose|j: int| 0 <= j < before.len() && before[j] == id;
                    assert(all[j] == id);
                } else if head.contains(last) {
                    assert(before.contains(id));
                    let j = choose|j: int| 0 <= j < before.len() && before[j] == id;
                    assert(all[j] == id);
                } else {
                    assert(all[before.len() as int] == id);
                }
            }
            if all.contains(id) {
                let j = choose|j: int| 0 <= j < all.len() && all[j] == id;
                if j < before.len() {
                    assert(before[j] == id);
                    assert(before.contains(id));
                    let k = choose|k: int| 0 <= k < head.len() && head[k] == id;
                    assert(ids[k] == id);
                }
            }
        }
        if live.contains(last) && !head.contains(last) {
            assert(!before.contains(last));
        }
    }
}

/// The mirrors of a run are in a folder of the temporary directory that its process
/// is told by.
pub proof fn law_where_mirrors_are(temp: Seq<char>, pid: u32)
    requires
        temp.len() > 0,
        temp[temp.len() - 1] != '/',
    ensures
        mirror_root(temp, pid) == temp + "/macrdp-rdpdr-"@ + text::decimal(pid as nat),
{
    reveal_strlit("macrdp-rdpdr-");
    reveal_strlit("/macrdp-rdpdr-");
    assert(mirror_root(temp, pid) =~= temp + "/macrdp-rdpdr-"@ + text::decimal(pid as nat));
}

/// A directory becomes a folder and a file a placeholder of its size, each under its
/// own name in the drive's folder.
pub proof fn law_what_entries_become(op: MirrorOp, e: DirEntry, dir: Seq<char>)
    requires
        mirrors(op, e, dir),
        e.name@.len() > 0,
        e.name@[0] != '/',
    ensures
        op is MakeDir <==> e.is_dir,
        match op {
            MirrorOp::MakeDir { path } => path@ == paths::joined(dir, e.name@),
            MirrorOp::Placeholder { path, size } => path@ == paths::joined(dir, e.name@) && size
                == e.size,
        },
{
}

/// Every file whose placeholder was made gets a presenter, in the order of the list,
/// and nothing else does.
pub proof fn law_which_entries_are_presented(entries: Seq<DirEntry>, made: Seq<bool>, n: nat)
    requires
        n <= entries.len(),
        n <= made.len(),
    ensures
        forall|i: int|
            0 <= i < n ==> (#[trigger] presented_entries(entries, made, n).contains(i)
                <==> !entries[i].is_dir && made[i]),
        forall|k: int|
            0 <= k < presented_entries(entries, made, n).len() ==> 0
                <= #[trigger] presented_entries(entries, made, n)[k] < n,
        forall|j: int, k: int|
            0 <= j < k < presented_entries(entries, made, n).len()
                ==> #[trigger] presented_entries(entries, made, n)[j]
                < #[trigger] presented_entries(entries, made, n)[k],
    decreases n,
{
    if n > 0 {
        let m = (n - 1) as nat;
        law_which_entries_are_presented(entries, made, m);
        let before = presented_entries(entries, made, m);
        let all = presented_entries(entries, made, n);
        assert forall|k: int| 0 <= k < all.len() implies 0 <= #[trigger] all[k] < n by {
            if k < before.len() {
                assert(all[k] == before[k]);
            }
        }
        assert forall|j: int, k: int| 0 <= j < k < all.len() implies #[trigger] all[j]
            < #[trigger] all[k] by {
            assert(all[j] == before[j]);
            if k < before.len() {
                assert(all[k] == before[k]);
            }
        }
        assert forall|i: int| 0 <= i < n implies (#[trigger] all.contains(i)
            <==> !entries[i].is_dir && made[i]) by {
            if i < m {
                if before.contains(i) {
                    let k = choose|k: int| 0 <= k < before.len() && before[k] == i;
                    assert(all[k] == i);
                }
                if all.contains(i) {
                    let k = choose|k: int| 0 <= k < all.len() && all[k] == i;
                    assert(k < before.len());
                    assert(before[k] == i);
                    assert(before.contains(i));
                }
            } else {
                if presented(entries, made, i) {
                    assert(all[before.len() as int] == i);
                } else if all.contains(i) {
                    let k = choose|k: int| 0 <= k < all.len() && all[k] == i;
                    assert(before[k] == i);
                }
            }
        }
    }
}

/// A presenter fetches the file of its own name from the root of its own drive, into
/// its own placeholder.
pub proof fn law_what_a_presenter_fetches(
    p: Presenter,
    e: DirEntry,
    dir: Seq<char>,
    device_id: u32,
    id: int,
)
    requires
        presents(p, e, dir, device_id, id),
    ensures
        p.id == id && p.device_id == device_id,
        p.remote_path@.len() == e.name@.len() + 1,
        p.remote_path@[0] == '\\',
        p.remote_path@.subrange(1, p.remote_path@.len() as int) == e.name@,
        e.name@.len() > 0 && e.name@[0] != '/' ==> p.dst@ == paths::joined(dir, e.name@),
{
    assert(p.remote_path@.subrange(1, p.remote_path@.len() as int) =~= e.name@);
}

/// A drive's presenters are remembered by their own numbers, in order.
pub proof fn law_presenters_are_remembered(list: Seq<Presenter>, i: int)
    requires
        0 <= i < list.len(),
    ensures
        ids_of(list).len() == list.len(),
        ids_of(list)[i] == list[i].id,
{
}

} // verus!
