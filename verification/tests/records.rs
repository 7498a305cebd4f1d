use disktree::bulk::{
    after_read, bytes_at, invalid_record, next_record, parse, u32_at, u64_at, BatchRead,
    InvalidRecord, Metadata, Walk, WalkAction, WalkStep, ATTR_CMN_ERROR, ATTR_CMN_NAME, COMMON,
    EINVAL, ENOSYS, ENOTSUP, FILE, VDIR, VREG,
};

/// A record as the bulk call lays it out, with the name stored after the fixed fields.
fn record(kind: u32, name: &[u8], common: u32, file: u32, error: u32) -> Vec<u8> {
    let name_len = name.len() + 1;
    let length = (88 + name_len + 7) / 8 * 8;
    let mut r = vec![0u8; length];
    r[0..4].copy_from_slice(&(length as u32).to_ne_bytes());
    r[4..8].copy_from_slice(&common.to_ne_bytes());
    r[16..20].copy_from_slice(&file.to_ne_bytes());
    r[24..28].copy_from_slice(&error.to_ne_bytes());
    r[28..32].copy_from_slice(&(88i32 - 28).to_ne_bytes());
    r[32..36].copy_from_slice(&(name_len as u32).to_ne_bytes());
    r[36..40].copy_from_slice(&(-5i32).to_ne_bytes());
    r[40..44].copy_from_slice(&kind.to_ne_bytes());
    r[44..52].copy_from_slice(&1_700_000_000i64.to_ne_bytes());
    r[60..68].copy_from_slice(&42u64.to_ne_bytes());
    r[68..72].copy_from_slice(&2u32.to_ne_bytes());
    r[72..80].copy_from_slice(&8192u64.to_ne_bytes());
    r[80..88].copy_from_slice(&10u64.to_ne_bytes());
    r[88..88 + name.len()].copy_from_slice(name);
    r
}

#[test]
fn invalid_and_truncated_records_fail_without_panicking() {
    for length in 0..128 {
        assert!(parse(&vec![0; length]).is_err());
    }
    let mut record = vec![0; 96];
    record[4..8].copy_from_slice(&ATTR_CMN_NAME.to_ne_bytes());
    record[28..32].copy_from_slice(&i32::MAX.to_ne_bytes());
    record[32..36].copy_from_slice(&u32::MAX.to_ne_bytes());
    assert!(parse(&record).is_err());
}

#[test]
fn file_records_carry_their_metadata() {
    let r = record(VREG, b"notes.txt", COMMON, FILE, 0);
    let entry = parse(&r).unwrap();
    assert_eq!(entry.name, b"notes.txt");
    assert_eq!(
        entry.metadata,
        Some(Metadata {
            kind: VREG,
            device: (-5i64) as u64,
            inode: 42,
            links: 2,
            modified: 1_700_000_000,
            allocated: 8192,
            apparent: 10,
        })
    );
}

#[test]
fn directory_records_have_no_sizes() {
    let r = record(VDIR, b"src", COMMON, 0, 0);
    let entry = parse(&r).unwrap();
    assert_eq!(entry.name, b"src");
    let meta = entry.metadata.unwrap();
    assert_eq!((meta.kind, meta.links, meta.allocated, meta.apparent), (VDIR, 0, 0, 0));
    assert_eq!(meta.inode, 42);
}

#[test]
fn incomplete_records_keep_their_name_only() {
    // A per-entry error, a missing common attribute, or a missing file attribute.
    for r in [
        record(VREG, b"a", COMMON | ATTR_CMN_ERROR, FILE, 1),
        record(VREG, b"a", COMMON & !0x400, FILE, 0),
        record(VREG, b"a", COMMON, FILE & !0x4, 0),
    ] {
        let entry = parse(&r).unwrap();
        assert_eq!(entry.name, b"a");
        assert_eq!(entry.metadata, None);
    }
}

#[test]
fn names_that_cannot_be_entries_are_refused() {
    for name in [&b"."[..], b"..", b"a/b", b"", b"a\0b"] {
        assert_eq!(parse(&record(VREG, name, COMMON, FILE, 0)).err(), Some(InvalidRecord));
    }
    // The name must end with its NUL.
    let mut r = record(VREG, b"abc", COMMON, FILE, 0);
    r[32..36].copy_from_slice(&3u32.to_ne_bytes());
    assert!(parse(&r).is_err());
    // A name before the start of the record.
    let mut r = record(VREG, b"abc", COMMON, FILE, 0);
    r[28..32].copy_from_slice(&(-29i32).to_ne_bytes());
    assert!(parse(&r).is_err());
    // Without the name attribute nothing is read.
    assert!(parse(&record(VREG, b"abc", COMMON & !ATTR_CMN_NAME, FILE, 0)).is_err());
}

#[test]
fn negative_times_read_as_the_epoch() {
    let mut r = record(VREG, b"old", COMMON, FILE, 0);
    r[44..52].copy_from_slice(&(-100i64).to_ne_bytes());
    assert_eq!(parse(&r).unwrap().metadata.unwrap().modified, 0);
}

#[test]
fn records_are_read_one_after_another() {
    let mut batch = record(VREG, b"one", COMMON, FILE, 0);
    let first_len = batch.len();
    batch.extend(record(VDIR, b"two", COMMON, 0, 0));
    let (entry, used) = next_record(&batch).unwrap();
    assert_eq!((entry.name, used), (&b"one"[..], first_len));
    let (entry, used) = next_record(&batch[first_len..]).unwrap();
    assert_eq!(entry.name, b"two");
    assert_eq!(first_len + used, batch.len());
    // Lengths below the minimum, unaligned, or past the batch are refused.
    let mut bad = record(VREG, b"x", COMMON, FILE, 0);
    bad[0..4].copy_from_slice(&64u32.to_ne_bytes());
    assert!(next_record(&bad).is_err());
    bad[0..4].copy_from_slice(&100u32.to_ne_bytes());
    assert!(next_record(&bad).is_err());
    bad[0..4].copy_from_slice(&1000u32.to_ne_bytes());
    assert!(next_record(&bad).is_err());
    assert!(next_record(&[0u8; 3]).is_err());
}

#[test]
fn fields_are_read_in_the_machine_byte_order() {
    let mut r = vec![0u8; 16];
    r[4..8].copy_from_slice(&0x0102_0304u32.to_ne_bytes());
    r[8..16].copy_from_slice(&0x0102_0304_0506_0708u64.to_ne_bytes());
    assert_eq!(u32_at(&r, 4), Ok(0x0102_0304));
    assert_eq!(u64_at(&r, 8), Ok(0x0102_0304_0506_0708));
    assert_eq!(u32_at(&r, 13), Err(invalid_record()));
    assert_eq!(bytes_at::<2>(&r, 4).unwrap(), &r[4..6]);
    assert!(bytes_at::<2>(&r, 15).is_err());
}

#[test]
fn only_a_first_read_falls_back() {
    for e in [ENOTSUP, ENOSYS, EINVAL] {
        assert_eq!(after_read(true, BatchRead::Failed(e)), WalkStep::Unsupported);
        assert_eq!(after_read(false, BatchRead::Failed(e)), WalkStep::Fail(e));
    }
    assert_eq!(after_read(true, BatchRead::Failed(13)), WalkStep::Fail(13));
    assert_eq!(after_read(true, BatchRead::Records(0)), WalkStep::Done);
    assert_eq!(after_read(false, BatchRead::Records(7)), WalkStep::Visit(7));
}

#[test]
fn a_walk_reads_visits_and_honours_cancellation() {
    let mut walk = Walk::start();
    assert_eq!(walk.next(true), WalkAction::Stop);
    assert_eq!(walk.next(false), WalkAction::Read);
    assert_eq!(walk.read(BatchRead::Records(2)), WalkStep::Visit(2));
    assert_eq!(walk, Walk { first: false, left: 2 });
    assert_eq!(walk.next(false), WalkAction::Record);
    walk.visited();
    assert_eq!(walk.next(true), WalkAction::Stop);
    walk.visited();
    assert_eq!(walk.next(false), WalkAction::Read);
    // A later failure is an error, not a fallback: nothing is visited twice.
    assert_eq!(walk.read(BatchRead::Failed(ENOTSUP)), WalkStep::Fail(ENOTSUP));
    assert_eq!(walk, Walk { first: false, left: 0 });
    let mut fresh = Walk::start();
    assert_eq!(fresh.read(BatchRead::Failed(EINVAL)), WalkStep::Unsupported);
    assert_eq!(fresh.read(BatchRead::Records(0)), WalkStep::Done);
}
