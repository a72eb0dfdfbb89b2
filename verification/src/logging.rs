//! Where the log goes, and when and how its files are rotated.
//!
//! The live file keeps a stable name. When an event would push it over its limit
//! it becomes archive 1, archive 1 becomes archive 2, and so on; the oldest is
//! dropped. [`Rotator`] counts what was written and says what to do with the
//! files; the program around it does it.

use crate::paths;
use crate::text;
use vstd::prelude::*;

verus! {

/// The name of the live log file.
pub const BASE: &'static str = "macrdp.log";

/// The name of the audit file where only a directory is given for it.
pub const DEFAULT_AUDIT_BASE: &'static str = "macrdp-audit.log";

/// Where the log goes below the home directory.
pub const LOG_DIR: &'static str = "Library/Logs";

pub const DEFAULT_MAX_BYTES: u64 = 0xa0_0000;

pub const DEFAULT_MAX_FILES: usize = 5;

/// The value of an optional text.
pub open spec fn view_of(v: Option<&str>) -> Option<Seq<char>> {
    match v {
        Some(s) => Some(s@),
        None => None,
    }
}

/// A limit by the value of its variable.
pub open spec fn limit_or(value: Option<Seq<char>>, default: u64) -> u64 {
    match value {
        Some(v) => match text::number(v, u64::MAX as nat) {
            Some(n) => if n > 0 {
                n as u64
            } else {
                default
            },
            None => default,
        },
        None => default,
    }
}

/// A limit by the value of its variable: a positive number, else the default.
pub fn env_u64(value: Option<&str>, default: u64) -> (r: u64)
    ensures
        r == limit_or(view_of(value), default),
{
    match value {
        Some(v) => match text::parse_number(v, u64::MAX) {
            Some(n) => if n > 0 {
                n
            } else {
                default
            },
            None => default,
        },
        None => default,
    }
}

/// A count by the value of its variable.
pub open spec fn count_or(value: Option<Seq<char>>, default: usize) -> usize {
    match value {
        Some(v) => match text::number(v, usize::MAX as nat) {
            Some(n) => n as usize,
            None => default,
        },
        None => default,
    }
}

/// A count by the value of its variable: a number, zero too, else the default.
pub fn env_usize(value: Option<&str>, default: usize) -> (r: usize)
    ensures
        r == count_or(view_of(value), default),
{
    match value {
        Some(v) => match text::parse_number(v, usize::MAX as u64) {
            Some(n) => n as usize,
            None => default,
        },
        None => default,
    }
}

/// The directory of the main log, if it has one.
pub open spec fn main_dir(
    asked_for: Option<Seq<char>>,
    stdout_is_terminal: bool,
    home: Option<Seq<char>>,
) -> Option<Seq<char>> {
    match (asked_for, home) {
        (Some(d), _) => Some(d),
        (None, Some(h)) => if stdout_is_terminal {
            None
        } else {
            Some(paths::joined(h, LOG_DIR@))
        },
        (None, None) => None,
    }
}

/// The directory of the main log: the one that was asked for, none on a terminal,
/// else the usual place below the home directory.
pub fn resolve_main_dir(
    log_dir_override: Option<&str>,
    stdout_is_terminal: bool,
    home: Option<&str>,
) -> (r: Option<String>)
    ensures
        match main_dir(view_of(log_dir_override), stdout_is_terminal, view_of(home)) {
            Some(d) => r matches Some(dir) && dir@ == d,
            None => r is None,
        },
{
    match log_dir_override {
        Some(d) => Some(d.to_owned()),
        None => if stdout_is_terminal {
            None
        } else {
            match home {
                Some(h) => Some(paths::join(h, LOG_DIR)),
                None => None,
            }
        },
    }
}

/// Which sinks the log has.
#[derive(Debug, Clone, Copy, PartialEq, Eq, Structural)]
pub struct Sinks {
    /// The main log goes to its file, and else to standard output.
    pub main_is_file: bool,
    /// Security events are also written to the audit file.
    pub audit: bool,
    /// Panics are written to the log as well.
    pub panic_hook: bool,
}

/// Chooses the sinks. `main_opened` says whether the main log's directory could be
/// made and its file opened; `audit_opened` the same of the audit file. Nothing
/// that goes wrong with either keeps the program from starting.
pub fn init(main_dir: bool, main_opened: bool, audit_file: bool, audit_opened: bool) -> (r: Sinks)
    ensures
        r.main_is_file == (main_dir && main_opened),
        r.audit == (audit_file && audit_opened),
        r.panic_hook == r.main_is_file,
{
    let main_is_file = main_dir && main_opened;
    Sinks { main_is_file, audit: audit_file && audit_opened, panic_hook: main_is_file }
}

/// The directory and the file name of the audit file: of a directory, written as
/// one or found to be one, a default file inside it; of a bare name, that file
/// here.
pub open spec fn audit_place(path: Seq<char>, is_dir: bool) -> (Seq<char>, Seq<char>) {
    if is_dir || (path.len() > 0 && path.last() == '/') {
        (path, DEFAULT_AUDIT_BASE@)
    } else {
        (
            match paths::parent(path) {
                Some(d) => if d.len() > 0 {
                    d
                } else {
                    seq!['.']
                },
                None => seq!['.'],
            },
            match paths::file_name(path) {
                Some(n) => n,
                None => DEFAULT_AUDIT_BASE@,
            },
        )
    }
}

/// Splits the path of the audit file. `is_dir` says whether there is a directory
/// of that name.
pub fn split_audit_path(path: &str, is_dir: bool) -> (r: (String, String))
    ensures
        (r.0@, r.1@) == audit_place(path@, is_dir),
{
    let chars = text::chars_of(path);
    if is_dir || (chars.len() > 0 && chars[chars.len() - 1] == '/') {
        return (path.to_owned(), DEFAULT_AUDIT_BASE.to_owned());
    }
    let (parent, name) = paths::split(path);
    let dir = match parent {
        Some(d) => {
            let d_chars = text::chars_of(d.as_str());
            if d_chars.len() > 0 {
                d
            } else {
                here()
            }
        },
        None => here(),
    };
    let base = match name {
        Some(n) => n,
        None => DEFAULT_AUDIT_BASE.to_owned(),
    };
    (dir, base)
}

fn here() -> (r: String)
    ensures
        r@ == seq!['.'],
{
    let mut r = String::new();
    r.push('.');
    assert(r@ =~= seq!['.']);
    r
}

/// Something to do with the files of a log.
#[derive(Debug, Clone, Copy, PartialEq, Eq, Structural)]
pub enum FileOp {
    /// Rename archive `n` to archive `n + 1`, if it is there.
    Shift { n: usize },
    /// Rename the live file to archive 1.
    ArchiveLive,
    /// Remove the live file.
    RemoveLive,
    /// Open the live file anew, and empty.
    OpenFresh,
}

/// The shifts of the archives from `n` down to 1.
pub open spec fn shifts(n: nat) -> Seq<FileOp>
    decreases n,
{
    if n == 0 {
        Seq::empty()
    } else {
        seq![FileOp::Shift { n: n as usize }] + shifts((n - 1) as nat)
    }
}

/// What a rotation does, in order.
pub open spec fn rotation(max_files: usize) -> Seq<FileOp> {
    if max_files == 0 {
        seq![FileOp::RemoveLive, FileOp::OpenFresh]
    } else {
        shifts((max_files - 1) as nat) + seq![FileOp::ArchiveLive, FileOp::OpenFresh]
    }
}

/// A log file that is rotated by size.
pub struct Rotator {
    /// The name of the live file.
    pub base: String,
    /// How much the live file holds.
    pub written: u64,
    pub max_bytes: u64,
    /// How many archives are kept.
    pub max_files: usize,
}

impl Rotator {
    /// Opens the log: what its live file already holds counts.
    pub fn open(base: String, existing: u64, max_bytes: u64, max_files: usize) -> (r: Self)
        ensures
            r == (Rotator { base, written: existing, max_bytes, max_files }),
    {
        Rotator { base, written: existing, max_bytes, max_files }
    }

    /// The name of archive `n`.
    pub open spec fn archive(self, n: nat) -> Seq<char> {
        self.base@.push('.') + text::decimal(n)
    }

    /// The name of archive `n`.
    pub fn archive_name(&self, n: usize) -> (r: String)
        ensures
            r@ == self.archive(n as nat),
    {
        let mut r = self.base.clone();
        r.push('.');
        text::push_decimal(&mut r, n as u64);
        r
    }

    /// Whether an event of `len` bytes does not fit the live file any more. An
    /// empty file takes an event of any size.
    pub open spec fn overflows(self, len: nat) -> bool {
        self.written > 0 && self.written + len > self.max_bytes
    }

    /// Whether the log is rotated before an event of `len` bytes.
    pub fn needs_rotation(&self, len: usize) -> (r: bool)
        ensures
            r == self.overflows(len as nat),
    {
        self.written > 0 && self.written as u128 + len as u128 > self.max_bytes as u128
    }

    /// What a rotation does. If one step fails the rest is left, and the log goes
    /// on in the file that is open.
    pub fn rotate(&self) -> (ops: Vec<FileOp>)
        ensures
            ops@ == rotation(self.max_files),
    {
        let mut ops: Vec<FileOp> = Vec::new();
        if self.max_files >= 1 {
            let mut n: usize = self.max_files - 1;
            let ghost top = n as nat;
            assert(ops@ + shifts(top) =~= shifts(top));
            while n >= 1
                invariant
                    ops@ + shifts(n as nat) == shifts(top),
                decreases n,
            {
                let ghost before = ops@;
                ops.push(FileOp::Shift { n });
                assert(ops@ + shifts((n - 1) as nat) =~= before + shifts(n as nat));
                n = n - 1;
            }
            assert(ops@ =~= shifts(top));
            ops.push(FileOp::ArchiveLive);
        } else {
            ops.push(FileOp::RemoveLive);
        }
        ops.push(FileOp::OpenFresh);
        assert(ops@ =~= rotation(self.max_files));
        ops
    }

    /// Takes note of a rotation that went through.
    pub fn rotated(&mut self)
        ensures
            *final(self) == (Rotator { written: 0, ..*old(self) }),
    {
        self.written = 0;
    }

    /// Takes note of `n` bytes written.
    pub fn wrote(&mut self, n: usize)
        requires
            old(self).written + n <= u64::MAX,
        ensures
            *final(self) == (Rotator { written: (old(self).written + n) as u64, ..*old(self) }),
    {
        self.written = self.written + n as u64;
    }
}

/// The files of a log by number: 0 is the live file, the others are the archives.
pub open spec fn applied(files: Map<nat, Seq<u8>>, op: FileOp) -> Map<nat, Seq<u8>> {
    match op {
        FileOp::Shift { n } => if files.contains_key(n as nat) {
            files.remove(n as nat).insert(n as nat + 1, files[n as nat])
        } else {
            files
        },
        FileOp::ArchiveLive => files.remove(0).insert(1, files[0]),
        FileOp::RemoveLive => files.remove(0),
        FileOp::OpenFresh => files.insert(0, Seq::empty()),
    }
}

/// The files after some operations, in order.
pub open spec fn after(files: Map<nat, Seq<u8>>, ops: Seq<FileOp>) -> Map<nat, Seq<u8>>
    decreases ops.len(),
{
    if ops.len() == 0 {
        files
    } else {
        after(applied(files, ops[0]), ops.subrange(1, ops.len() as int))
    }
}

/// The files with the archives up to `top` moved one place on.
pub open spec fn moved_on(files: Map<nat, Seq<u8>>, top: nat) -> Map<nat, Seq<u8>> {
    Map::new(
        |n: nat|
            if n == 0 || n > top + 1 {
                files.contains_key(n)
            } else if n == top + 1 {
                files.contains_key(n) || (top > 0 && files.contains_key(top))
            } else {
                n > 1 && files.contains_key((n - 1) as nat)
            },
        |n: nat|
            if n == 0 || n > top + 1 {
                files[n]
            } else if n > 1 && files.contains_key((n - 1) as nat) {
                files[(n - 1) as nat]
            } else {
                files[n]
            },
    )
}

proof fn lemma_after_concat(files: Map<nat, Seq<u8>>, a: Seq<FileOp>, b: Seq<FileOp>)
    ensures
        after(files, a + b) == after(after(files, a), b),
    decreases a.len(),
{
    if a.len() == 0 {
        assert(a + b =~= b);
    } else {
        let whole = a + b;
        assert(whole[0] == a[0]);
        assert(whole.subrange(1, whole.len() as int) =~= a.subrange(1, a.len() as int) + b);
        lemma_after_concat(applied(files, a[0]), a.subrange(1, a.len() as int), b);
    }
}

proof fn lemma_shifts(files: Map<nat, Seq<u8>>, top: nat)
    requires
        top < usize::MAX,
    ensures
        after(files, shifts(top)) == moved_on(files, top),
    decreases top,
{
    if top == 0 {
        assert(after(files, shifts(top)) =~= moved_on(files, top));
    } else {
        let ops = shifts(top);
        let op = FileOp::Shift { n: top as usize };
        assert(ops[0] == op);
        assert(ops.subrange(1, ops.len() as int) =~= shifts((top - 1) as nat));
        let next = applied(files, op);
        lemma_shifts(next, (top - 1) as nat);
        assert(moved_on(next, (top - 1) as nat) =~= moved_on(files, top));
    }
}

/// A rotation loses nothing but the oldest archive: what was live is archive 1,
/// every archive has moved on by one, and the live file is empty. No archive
/// beyond the number kept is made, and none that was there is touched.
pub proof fn law_rotation_moves_everything_on(
    files: Map<nat, Seq<u8>>,
    max_files: usize,
    n: nat,
)
    requires
        files.contains_key(0),
    ensures
        ({
            let done = after(files, rotation(max_files));
            &&& done.contains_key(0) && done[0] == Seq::<u8>::empty()
            &&& max_files >= 1 ==> done.contains_key(1) && done[1] == files[0]
            &&& 1 <= n < max_files && files.contains_key(n) ==> done.contains_key(n + 1) && done[n
                + 1] == files[n]
            &&& n > max_files ==> done.contains_key(n) == files.contains_key(n)
            &&& n > max_files && files.contains_key(n) ==> done[n] == files[n]
        }),
{
    if max_files == 0 {
        reveal_with_fuel(after, 3);
        let ops = rotation(max_files);
        assert(ops.subrange(1, 2)[0] == FileOp::OpenFresh);
    } else {
        let tail = seq![FileOp::ArchiveLive, FileOp::OpenFresh];
        let top = (max_files - 1) as nat;
        lemma_after_concat(files, shifts(top), tail);
        lemma_shifts(files, top);
        reveal_with_fuel(after, 3);
        assert(tail.subrange(1, 2)[0] == FileOp::OpenFresh);
    }
}

/// The live file stays within its limit, except for one that holds a single event
/// which is itself larger.
pub proof fn law_live_file_is_bounded(r: Rotator, len: nat)
    ensures
        ({
            let size = if r.overflows(len) {
                len as int
            } else {
                r.written + len
            };
            size <= r.max_bytes || size == len
        }),
{
}

/// No two files of a log have the same name.
pub proof fn law_archive_names_differ(r: Rotator, a: nat, b: nat)
    requires
        a != b,
    ensures
        r.archive(a) != r.archive(b),
        r.archive(a) != r.base@,
{
    let base = r.base@.push('.');
    let k = base.len() as int;
    let max = if a < b {
        b
    } else {
        a
    };
    text::law_numbers_read_back(a, max);
    text::law_numbers_read_back(b, max);
    assert(r.archive(a).subrange(k, r.archive(a).len() as int) =~= text::decimal(a));
    assert(r.archive(b).subrange(k, r.archive(b).len() as int) =~= text::decimal(b));
    assert(r.archive(a).len() > r.base@.len());
}

/// A variable that holds a number in decimal sets the limit to it, unless it is zero,
/// and the count in any case. One that is not set, or holds something else, sets
/// nothing.
pub proof fn law_what_variables_set(
    n: nat,
    s: Seq<char>,
    i: int,
    limit: u64,
    count: usize,
)
    ensures
        limit_or(None, limit) == limit,
        count_or(None, count) == count,
        0 < n <= u64::MAX ==> limit_or(Some(text::decimal(n)), limit) == n,
        limit_or(Some(text::decimal(0)), limit) == limit,
        n <= usize::MAX ==> count_or(Some(text::decimal(n)), count) == n,
        0 <= i < s.len() && !('0' <= s[i] <= '9') && (i > 0 || s[i] != '+' || s.len() == 1) ==> {
            &&& limit_or(Some(s), limit) == limit
            &&& count_or(Some(s), count) == count
        },
{
    if n <= u64::MAX {
        text::law_numbers_read_back(n, u64::MAX as nat);
    }
    if n <= usize::MAX {
        text::law_numbers_read_back(n, usize::MAX as nat);
    }
    text::law_numbers_read_back(0, u64::MAX as nat);
    if 0 <= i < s.len() && !('0' <= s[i] <= '9') && (i > 0 || s[i] != '+' || s.len() == 1) {
        text::law_not_a_number(s, i, u64::MAX as nat);
        text::law_not_a_number(s, i, usize::MAX as nat);
    }
}

/// A directory that is asked for is used wherever the program runs. Otherwise the
/// log goes below the home directory, unless someone watches it on a terminal.
pub proof fn law_where_the_log_goes(dir: Seq<char>, home: Seq<char>, terminal: bool)
    requires
        home.len() > 0,
        home[home.len() - 1] != '/',
    ensures
        main_dir(Some(dir), terminal, Some(home)) == Some(dir),
        main_dir(Some(dir), terminal, None) == Some(dir),
        main_dir(None, true, Some(home)) is None,
        main_dir(None, terminal, None) is None,
        main_dir(None, false, Some(home)) == Some(home + "/Library/Logs"@),
{
    reveal_strlit("Library/Logs");
    reveal_strlit("/Library/Logs");
    assert(home.push('/') + "Library/Logs"@ =~= home + "/Library/Logs"@);
}

/// The audit file of a directory has the default name, whether the path is known to
/// be one or only ends like one. Any other path is split into the directory and the
/// name, where a name by itself is in the directory `.`.
pub proof fn law_where_the_audit_file_is(dir: Seq<char>, name: Seq<char>)
    requires
        name.len() > 0,
        forall|i: int| 0 <= i < name.len() ==> name[i] != '/',
        name != seq!['.'],
        name != seq!['.', '.'],
    ensures
        audit_place(dir, true) == (dir, "macrdp-audit.log"@),
        audit_place(dir.push('/'), false) == (dir.push('/'), "macrdp-audit.log"@),
        audit_place(name, false) == (seq!['.'], name),
        paths::plain(dir).len() > 0 ==> audit_place(paths::joined(dir, name), false) == (
            paths::plain(dir),
            name,
        ),
{
    let whole = paths::joined(dir, name);
    assert(whole[whole.len() - 1] == name[name.len() - 1]);
    paths::law_join_then_split(dir, name);
    paths::law_join_then_split(Seq::empty(), name);
    paths::law_names_end_plain_paths(Seq::empty(), name);
    assert(paths::joined(Seq::empty(), name) =~= name);
}

/// The log is rotated where an event would take a file that holds something beyond
/// its limit, and only there.
pub proof fn law_when_the_log_is_rotated(r: Rotator, len: nat)
    ensures
        r.written == 0 ==> !r.overflows(len),
        r.written + len <= r.max_bytes ==> !r.overflows(len),
        r.written > 0 && r.written + len > r.max_bytes ==> r.overflows(len),
{
}

/// An archive is named by the live file, a dot and its number in decimal.
pub proof fn law_how_archives_are_named(r: Rotator, n: nat)
    ensures
        r.archive(n) == r.base@ + seq!['.'] + text::decimal(n),
{
    assert(r.archive(n) =~= r.base@ + seq!['.'] + text::decimal(n));
}

} // verus!
