use std::collections::HashMap;

use macrdp::logging::{
    env_u64, env_usize, init, resolve_main_dir, split_audit_path, FileOp, Rotator, BASE,
    DEFAULT_MAX_BYTES, DEFAULT_MAX_FILES,
};
use macrdp::paths;

/// A directory in memory.
struct Dir {
    files: HashMap<String, Vec<u8>>,
}

impl Dir {
    fn new() -> Dir {
        Dir { files: HashMap::new() }
    }

    fn holds_file(&self, name: &str) -> bool {
        self.files.contains_key(name)
    }

    fn open(&mut self, base: &str, max_bytes: u64, max_files: usize) -> Rotator {
        let live = self.files.entry(base.to_string()).or_default();
        Rotator::open(base.to_string(), live.len() as u64, max_bytes, max_files)
    }

    fn rotate(&mut self, r: &mut Rotator) {
        for op in r.rotate() {
            match op {
                FileOp::Shift { n } => {
                    if let Some(b) = self.files.remove(&r.archive_name(n)) {
                        self.files.insert(r.archive_name(n + 1), b);
                    }
                }
                FileOp::ArchiveLive => {
                    let live = self.files.remove(&r.base).expect("live file");
                    self.files.insert(r.archive_name(1), live);
                }
                FileOp::RemoveLive => {
                    self.files.remove(&r.base);
                }
                FileOp::OpenFresh => {
                    self.files.insert(r.base.clone(), Vec::new());
                }
            }
        }
        r.rotated();
    }

    fn write_all(&mut self, r: &mut Rotator, buf: &[u8]) {
        if r.needs_rotation(buf.len()) {
            self.rotate(r);
        }
        self.files.get_mut(&r.base).expect("live file").extend_from_slice(buf);
        r.wrote(buf.len());
    }
}

#[test]
fn rotates_at_threshold() {
    let mut dir = Dir::new();
    let mut r = dir.open(BASE, 100, 5);
    dir.write_all(&mut r, &[b'a'; 80]);
    assert!(!dir.holds_file("macrdp.log.1"));
    dir.write_all(&mut r, &[b'b'; 80]);
    assert!(dir.holds_file("macrdp.log.1"), "archive should exist");
    let live = dir.files["macrdp.log"].clone();
    assert_eq!(live.len(), 80);
    assert_eq!(live[0], b'b');
}

#[test]
fn respects_max_files_cap() {
    let mut dir = Dir::new();
    let max_files = 2;
    let mut r = dir.open(BASE, 50, max_files);
    for _ in 0..6 {
        dir.write_all(&mut r, &[b'x'; 60]);
    }
    assert!(dir.holds_file("macrdp.log"));
    assert!(dir.holds_file("macrdp.log.1"));
    assert!(dir.holds_file("macrdp.log.2"));
    assert!(
        !dir.holds_file(&format!("macrdp.log.{}", max_files + 1)),
        "must not keep more than max_files archives"
    );
}

#[test]
fn appends_and_seeds_counter_on_open() {
    let mut dir = Dir::new();
    dir.files.insert("macrdp.log".to_string(), b"preexisting-content".to_vec());
    let r = dir.open(BASE, 1024, 5);
    assert_eq!(r.written, "preexisting-content".len() as u64);
}

#[test]
fn custom_base_rotates_under_its_own_name() {
    let mut dir = Dir::new();
    let mut r = dir.open("macrdp-audit.log", 100, 5);
    dir.write_all(&mut r, &[b'a'; 80]);
    dir.write_all(&mut r, &[b'b'; 80]);
    assert!(dir.holds_file("macrdp-audit.log.1"), "archives under base");
    assert!(!dir.holds_file("macrdp.log"), "must not touch the main-log name");
}

#[test]
fn env_parsing_falls_back_to_defaults() {
    assert_eq!(env_u64(None, DEFAULT_MAX_BYTES), DEFAULT_MAX_BYTES);
    assert_eq!(env_usize(None, DEFAULT_MAX_FILES), DEFAULT_MAX_FILES);
}

#[test]
fn split_audit_path_variants() {
    let (d, b) = split_audit_path("/var/log/macrdp-audit.log", false);
    assert_eq!(d, "/var/log");
    assert_eq!(b, "macrdp-audit.log");
    let (d, b) = split_audit_path("audit.log", false);
    assert_eq!(d, ".");
    assert_eq!(b, "audit.log");
    let (d, b) = split_audit_path("/var/log/", false);
    assert_eq!(d, "/var/log/");
    assert_eq!(b, "macrdp-audit.log");
}

#[test]
fn split_audit_path_like_std() {
    let samples = [
        "a", "a/b", "a//b", "a/./b", "./a", "../a", "/a", "//a", "a/.", "a/b/.", "a/..", "..",
        ".", "", "/.", "/..", "a/.b", ".b", "..b", "a/b/../c", "./.", "/a/b", "a/./.", "x/..//y",
    ];
    for s in samples {
        let p = std::path::Path::new(s);
        let (parent, name) = paths::split(s);
        assert_eq!(
            name,
            p.file_name().map(|n| n.to_string_lossy().into_owned()),
            "file name of {s:?}"
        );
        assert_eq!(
            parent.as_deref().map(std::path::Path::new),
            p.parent(),
            "parent of {s:?}"
        );
        assert_eq!(
            parent,
            p.parent().map(|n| n.to_string_lossy().into_owned()),
            "text of the parent of {s:?}"
        );
    }
}

#[test]
fn audit_file_in_a_directory_that_is_there() {
    let (d, b) = split_audit_path("/var/log", true);
    assert_eq!((d.as_str(), b.as_str()), ("/var/log", "macrdp-audit.log"));
    let (d, b) = split_audit_path("", false);
    assert_eq!((d.as_str(), b.as_str()), (".", "macrdp-audit.log"));
    let (d, b) = split_audit_path("logs/..", false);
    assert_eq!((d.as_str(), b.as_str()), ("logs", "macrdp-audit.log"));
}

#[test]
fn joining_paths() {
    assert_eq!(paths::join("/Users/me", "Library/Logs"), "/Users/me/Library/Logs");
    assert_eq!(paths::join("/Users/me/", "Library/Logs"), "/Users/me/Library/Logs");
    assert_eq!(paths::join("", "Library/Logs"), "Library/Logs");
    assert_eq!(paths::place("/tmp", "/etc"), "/etc");
    assert_eq!(paths::place("/tmp", "a"), "/tmp/a");
    let joined = paths::join("/tmp/x", "name");
    assert_eq!(
        paths::split(&joined),
        (Some("/tmp/x".to_string()), Some("name".to_string()))
    );
}

#[test]
fn limits_from_variables() {
    assert_eq!(env_u64(Some("2048"), 7), 2048);
    assert_eq!(env_u64(Some("+2048"), 7), 2048);
    assert_eq!(env_u64(Some("0"), 7), 7);
    assert_eq!(env_u64(Some(""), 7), 7);
    assert_eq!(env_u64(Some("-1"), 7), 7);
    assert_eq!(env_u64(Some("12x"), 7), 7);
    assert_eq!(env_u64(Some("18446744073709551615"), 7), u64::MAX);
    assert_eq!(env_u64(Some("18446744073709551616"), 7), 7);
    assert_eq!(env_usize(Some("0"), 7), 0);
    assert_eq!(env_usize(Some("3"), 7), 3);
    assert_eq!(env_usize(Some("three"), 7), 7);
    assert_eq!(DEFAULT_MAX_BYTES, 10 * 1024 * 1024);
}

#[test]
fn rotation_moves_everything_on() {
    let mut dir = Dir::new();
    let mut r = dir.open(BASE, 1, 3);
    for b in [b"a", b"b", b"c", b"d", b"e"] {
        dir.write_all(&mut r, b);
    }
    assert_eq!(dir.files["macrdp.log"], b"e");
    assert_eq!(dir.files["macrdp.log.1"], b"d");
    assert_eq!(dir.files["macrdp.log.2"], b"c");
    assert_eq!(dir.files["macrdp.log.3"], b"b");
    assert_eq!(dir.files.len(), 4);
}

#[test]
fn no_archives_at_all() {
    let mut dir = Dir::new();
    let mut r = dir.open(BASE, 1, 0);
    dir.write_all(&mut r, b"a");
    dir.write_all(&mut r, b"b");
    assert_eq!(dir.files.len(), 1);
    assert_eq!(dir.files["macrdp.log"], b"b");
    assert_eq!(r.rotate(), vec![FileOp::RemoveLive, FileOp::OpenFresh]);
}

#[test]
fn oversized_event_stays_whole() {
    let mut dir = Dir::new();
    let mut r = dir.open(BASE, 10, 2);
    dir.write_all(&mut r, &[1u8; 50]);
    assert_eq!(dir.files["macrdp.log"].len(), 50);
    assert!(!dir.holds_file("macrdp.log.1"));
    assert!(r.needs_rotation(1));
}

#[test]
fn archive_names() {
    let r = Rotator::open(BASE.to_string(), 0, 1, 1);
    assert_eq!(r.archive_name(1), "macrdp.log.1");
    assert_eq!(r.archive_name(10), "macrdp.log.10");
    assert_eq!(r.archive_name(907), "macrdp.log.907");
}

#[test]
fn where_the_log_goes() {
    assert_eq!(
        resolve_main_dir(Some("/logs"), true, Some("/Users/me")).as_deref(),
        Some("/logs")
    );
    assert_eq!(resolve_main_dir(None, true, Some("/Users/me")), None);
    assert_eq!(
        resolve_main_dir(None, false, Some("/Users/me")).as_deref(),
        Some("/Users/me/Library/Logs")
    );
    assert_eq!(resolve_main_dir(None, false, None), None);
}

#[test]
fn sinks_fall_back() {
    let s = init(true, true, true, true);
    assert!(s.main_is_file && s.audit && s.panic_hook);
    let s = init(true, false, true, false);
    assert!(!s.main_is_file && !s.audit && !s.panic_hook);
    let s = init(false, true, false, true);
    assert!(!s.main_is_file && !s.audit && !s.panic_hook);
}
