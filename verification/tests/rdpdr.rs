use macrdp::rdpdr::{
    accept_hostname, build_surface, hostname, mirror_dirs, mirror_ops, sanitize_label,
    shutdown_cleanup, AnnouncedDevice, DeviceType, DirEntry, MacRdpdr, MirrorOp, Presenters,
    ReadStep, Surface,
};

fn device(device_id: u32, device_type: DeviceType) -> AnnouncedDevice {
    AnnouncedDevice { device_id, device_type, name: format!("D{device_id}") }
}

#[test]
fn drives_are_mounted_once() {
    let mut h = MacRdpdr::new().build_backend();
    let list = vec![
        device(1, DeviceType::Filesystem),
        device(2, DeviceType::Smartcard),
        device(1, DeviceType::Filesystem),
        device(3, DeviceType::Filesystem),
        device(4, DeviceType::Print),
    ];
    assert!(h.on_devices_announced(&list).is_empty());
    h.set_handle();
    assert_eq!(h.on_devices_announced(&list), vec![0, 3]);
    assert!(h.on_devices_announced(&list).is_empty());
    assert_eq!(h.on_devices_announced(&vec![device(9, DeviceType::Filesystem)]), vec![0]);
    assert_eq!(shutdown_cleanup(&mut h), vec![1, 3, 9]);
    assert!(shutdown_cleanup(&mut h).is_empty());
}

#[test]
fn host_names() {
    let mut buf = [0u8; 256];
    buf[..4].copy_from_slice(b"mini");
    assert_eq!(hostname(0, &buf), "mini");
    assert_eq!(hostname(-1, &buf), "macrdp");
    assert_eq!(hostname(0, &[0; 4]), "macrdp");
    assert_eq!(hostname(0, b"full"), "full");
    assert_eq!(hostname(0, &[b'a', 0xff, 0]), "a\u{fffd}");
    assert_eq!(hostname(0, "b\u{fc}ro\0x".as_bytes()), "b\u{fc}ro");
    assert_eq!(accept_hostname(0, "x".to_string()), "x");
    assert_eq!(accept_hostname(1, "x".to_string()), "macrdp");
}

#[test]
fn labels_become_one_component() {
    assert_eq!(sanitize_label("C:"), "C");
    assert_eq!(sanitize_label("  Data (D:) "), "Data (D_)");
    assert_eq!(sanitize_label("a/b\\c:d\u{7}e"), "a_b_c_d_e");
    assert_eq!(sanitize_label(" :: "), "drive");
    assert_eq!(sanitize_label(""), "drive");
    assert_eq!(sanitize_label("."), "drive");
    assert_eq!(sanitize_label(".."), "drive");
    assert_eq!(sanitize_label(" ..: "), "drive");
    assert_eq!(sanitize_label("..."), "...");
    assert_eq!(sanitize_label("./"), "._");
    assert_eq!(sanitize_label("\u{a0}x\u{3000}"), "x");
    assert_eq!(sanitize_label("x :"), "x ");
    for s in ["", "C:", "a/b", ":::", "\u{1}\u{2}"] {
        let l = sanitize_label(s);
        assert!(!l.is_empty());
        assert!(l.chars().all(|c| c != '/' && c != '\\' && c != ':' && !c.is_control()));
    }
}

fn entries() -> Vec<DirEntry> {
    vec![
        DirEntry { name: "docs".to_string(), is_dir: true, size: 0 },
        DirEntry { name: "a.txt".to_string(), is_dir: false, size: 7 },
        DirEntry { name: "b.txt".to_string(), is_dir: false, size: 8 },
        DirEntry { name: "c.txt".to_string(), is_dir: false, size: 9 },
    ]
}

#[test]
fn a_drive_is_mirrored() {
    let (root, drive) = mirror_dirs("/tmp", 42, "C");
    assert_eq!((root.as_str(), drive.as_str()), ("/tmp/macrdp-rdpdr-42", "/tmp/macrdp-rdpdr-42/C"));
    let ops = mirror_ops(&entries(), &drive);
    assert!(matches!(&ops[0], MirrorOp::MakeDir { path } if path == "/tmp/macrdp-rdpdr-42/C/docs"));
    assert!(
        matches!(&ops[1], MirrorOp::Placeholder { path, size: 7 } if path == "/tmp/macrdp-rdpdr-42/C/a.txt")
    );
    assert_eq!(ops.len(), 4);

    let mut presenters = Presenters::new();
    let mut surface = Surface::start();
    let made = vec![true, true, false, true];
    let list =
        build_surface(&mut surface, &mut presenters, root, &drive, 5, &entries(), &made);
    let ids: Vec<u64> = list.iter().map(|p| p.id).collect();
    assert_eq!(ids, vec![1, 2]);
    assert_eq!(list[1].remote_path, "\\c.txt");
    assert_eq!(list[1].dst, "/tmp/macrdp-rdpdr-42/C/c.txt");
    assert_eq!(list[1].device_id, 5);
    assert_eq!(surface.presenter_ids, ids);

    assert_eq!(presenters.relinquish_to_reader(1), ReadStep::Fetch);
    presenters.fetched(1, true);
    assert_eq!(presenters.relinquish_to_reader(1), ReadStep::Pass);
    presenters.fetched(2, false);
    assert_eq!(presenters.relinquish_to_reader(2), ReadStep::Pass);
    assert_eq!(presenters.relinquish_to_reader(9), ReadStep::Pass);

    presenters.added(1);
    let (dir, ids) = surface.take();
    assert_eq!(dir.as_deref(), Some("/tmp/macrdp-rdpdr-42"));
    assert_eq!(presenters.release(&ids), vec![1]);
    assert!(presenters.registry.is_empty() && presenters.live.is_empty());
    assert_eq!(surface.take(), (None, Vec::new()));
}
