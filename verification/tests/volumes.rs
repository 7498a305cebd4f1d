use disktree::path::NativePath;
use disktree::volumes::{
    add_firmlink_aliases, finish_mounts, foreign_mounts, guard_path, mount_from_record,
    mounts_below, native_path, parse_mount_line, parse_mounts, Mount, MountProbe, ProbeStep,
};

fn path(text: &str) -> NativePath {
    NativePath::from_bytes(text.as_bytes())
}

fn mount(source: &str, point: &str) -> Mount {
    Mount {
        source: source.to_string(),
        point: path(point),
        fstype: "apfs".to_string(),
        options: "apfs, local".to_string(),
    }
}

#[test]
fn mount_names_with_spaces_and_parentheses_are_preserved() {
    let mounts = parse_mounts(
        "/dev/disk1 on / (apfs, local)\n\
/dev/disk2 on /Volumes/My Disk (backup) (apfs, local, journaled)\n\
map auto_home on /System/Volumes/Data/home (autofs, automounted)\n",
    );
    assert_eq!(mounts.len(), 3);
    assert_eq!(mounts[1].point, path("/Volumes/My Disk (backup)"));
    assert_eq!(mounts[2].source, "map auto_home");
}

#[test]
fn mounted_disks_are_excluded_through_both_firmlink_paths() {
    let mut mounts = parse_mounts(
        "nas:/share on /Users/me/NAS (nfs, local)\n\
/dev/disk2 on /System/Volumes/Data/Library/Simulator (apfs, local)\n",
    );
    add_firmlink_aliases(&mut mounts, "/Users\tUsers\n/Library\tLibrary\n");
    assert!(mounts
        .iter()
        .any(|m| m.point == path("/System/Volumes/Data/Users/me/NAS")));
    assert!(mounts.iter().any(|m| m.point == path("/Library/Simulator")));
}

#[test]
fn data_aliases_have_the_same_guard_path() {
    assert_eq!(
        guard_path(&path("/System/Volumes/Data/Users/Me")),
        guard_path(&path("/Users/me"))
    );
}

#[test]
fn mount_line_fields_are_split_where_the_format_says() {
    let m = parse_mount_line("//guest@nas/share on /Volumes/share (smbfs, nodev, nosuid)").unwrap();
    assert_eq!(m.source, "//guest@nas/share");
    assert_eq!(m.point, path("/Volumes/share"));
    assert_eq!(m.fstype, "smbfs");
    assert_eq!(m.options, "smbfs, nodev, nosuid");
    // The type is trimmed; the options are kept as written.
    let m = parse_mount_line("src on /x ( apfs ,local)").unwrap();
    assert_eq!(m.fstype, "apfs");
    assert_eq!(m.options, " apfs ,local");
    // Unicode white space is trimmed too.
    let m = parse_mount_line("src on /x (\u{a0}apfs\u{3000}\t,local)").unwrap();
    assert_eq!(m.fstype, "apfs");
    // A single flag without a comma is the type.
    let m = parse_mount_line("src on /x (devfs)").unwrap();
    assert_eq!(m.fstype, "devfs");
    assert_eq!(m.options, "devfs");
}

#[test]
fn malformed_mount_lines_are_skipped() {
    assert!(parse_mount_line("no flags here").is_none());
    assert!(parse_mount_line("/dev/disk1 / (apfs)").is_none());
    assert!(parse_mount_line("/dev/disk1 on / (apfs").is_none());
    assert!(parse_mount_line("").is_none());
    let mounts = parse_mounts("garbage\r\n/dev/disk1 on / (apfs, local)\r\n\nmore garbage");
    assert_eq!(mounts.len(), 1);
    assert_eq!(mounts[0].options, "apfs, local");
    assert_eq!(mounts[0].point, path("/"));
}

#[test]
fn firmlink_aliases_keep_the_listed_mounts_first() {
    let mut mounts = vec![
        mount("nas:/share", "/Users/me/NAS"),
        mount("/dev/disk3", "/Volumes/External"),
    ];
    add_firmlink_aliases(&mut mounts, "/Users\tUsers\nnot a firmlink\n");
    assert_eq!(mounts.len(), 3);
    assert_eq!(mounts[0].point, path("/Users/me/NAS"));
    assert_eq!(mounts[1].point, path("/Volumes/External"));
    assert_eq!(mounts[2].point, path("/System/Volumes/Data/Users/me/NAS"));
    assert_eq!(mounts[2].source, "nas:/share");
    assert_eq!(mounts[2].fstype, "apfs");
    assert_eq!(mounts[2].options, "apfs, local");
}

#[test]
fn foreign_mounts_are_strictly_below_and_from_elsewhere() {
    let root = path("/Users/me");
    let own = "/dev/disk3s5".to_string();
    let mounts = vec![
        mount("/dev/disk3s5", "/Users/me"),
        mount("nas:/share", "/Users/me/NAS"),
        mount("/dev/disk3s5", "/Users/me/same-volume"),
        mount("/dev/disk4", "/Users/other"),
        mount("/dev/disk5", "/Users/me/Simulator/"),
    ];
    let foreign = foreign_mounts(&root, &own, &mounts);
    assert_eq!(foreign, vec![path("/Users/me/NAS"), path("/Users/me/Simulator")]);
    assert!(mounts_below(&root, &mounts));
    assert!(!mounts_below(&path("/Users/other"), &mounts));
    assert!(!mounts_below(&path("/Users/meh"), &mounts));
    // A prefix of the bytes is not a prefix of the components.
    assert!(foreign_mounts(&path("/Users/m"), &own, &mounts).is_empty());
}

#[test]
fn guard_paths_fold_case_and_ignore_spelling() {
    assert_eq!(guard_path(&path("/Users/ME/Docs")), path("/users/me/docs"));
    assert_eq!(guard_path(&path("/Users//me/./Docs/")), path("/users/me/docs"));
    assert_eq!(guard_path(&path("/System/Volumes/Data")), path("/"));
    // The Data-volume alias is caught in whatever case it is written.
    assert_eq!(guard_path(&path("/system/volumes/data/Users/me")), path("/users/me"));
    assert_eq!(guard_path(&path("/SYSTEM/Volumes/DATA/Users/me")), guard_path(&path("/Users/ME")));
    assert_eq!(guard_path(&path("/System/Volumes/Other")), path("/system/volumes/other"));
}

#[test]
fn native_paths_end_at_the_first_nul() {
    let raw: Vec<i8> = b"/Volumes/X\0garbage".iter().map(|&b| b as i8).collect();
    assert_eq!(native_path(&raw), b"/Volumes/X".to_vec());
    let full: Vec<i8> = b"abc".iter().map(|&b| b as i8).collect();
    assert_eq!(native_path(&full), b"abc".to_vec());
    let high = [0xc3u8 as i8, 0xa9u8 as i8, 0];
    assert_eq!(native_path(&high), vec![0xc3, 0xa9]);
}

#[test]
fn kernel_mount_records_become_mounts() {
    let from: Vec<i8> = b"/dev/disk3s5\0\0\0".iter().map(|&b| b as i8).collect();
    let on: Vec<i8> = b"/System/Volumes/Data\0".iter().map(|&b| b as i8).collect();
    let kind: Vec<i8> = [b'a' as i8, 0xffu8 as i8, 0].to_vec();
    let m = mount_from_record(&from, &on, &kind);
    assert_eq!(m.source, "/dev/disk3s5");
    assert_eq!(m.point, path("/System/Volumes/Data"));
    assert_eq!(m.fstype, "a\u{fffd}");
    assert_eq!(m.options, "");
}

#[test]
fn an_empty_mount_table_is_none() {
    assert!(finish_mounts(Vec::new(), "/Users\tUsers\n").is_none());
    let all = finish_mounts(vec![mount("nas:/s", "/Users/me/NAS")], "/Users\tUsers\n").unwrap();
    assert_eq!(all.len(), 2);
}

#[test]
fn mount_table_reads_grow_then_give_up() {
    assert_eq!(MountProbe::start(-1), None);
    let probe = MountProbe::start(4).unwrap();
    assert_eq!(probe, MountProbe { capacity: 12, reads: 0 });
    assert_eq!(probe.buffer_bytes(100), Some(1200));
    assert_eq!(probe.buffer_bytes(usize::MAX), None);
    assert_eq!(probe.observe(-1), ProbeStep::GiveUp);
    assert_eq!(probe.observe(11), ProbeStep::Filled(11));
    let second = match probe.observe(12) {
        ProbeStep::Retry(p) => p,
        other => panic!("expected a retry, got {other:?}"),
    };
    assert_eq!(second, MountProbe { capacity: 24, reads: 1 });
    let third = match second.observe(30) {
        ProbeStep::Retry(p) => p,
        other => panic!("expected a retry, got {other:?}"),
    };
    assert_eq!(third, MountProbe { capacity: 48, reads: 2 });
    assert_eq!(third.observe(48), ProbeStep::GiveUp);
    assert_eq!(third.observe(47), ProbeStep::Filled(47));
}
