//! Darwin's bulk directory metadata records, as `getattrlistbulk` packs them.
//!
//! A batch is a run of records. Each record starts with its own length and
//! the masks of the attributes that it carries, then holds a fixed-layout
//! block (name reference, device, vnode type, modification time, file id,
//! link count, allocated size, data length) followed by the name bytes. The
//! functions here read such records from bytes; nothing here touches the
//! filesystem.
use vstd::prelude::*;
use vstd::endian::{endianness, Endian};

verus! {

/// `ATTR_CMN_NAME` from `sys/attr.h`.
pub const ATTR_CMN_NAME: u32 = 0x0000_0001;
/// `ATTR_CMN_DEVID` from `sys/attr.h`.
pub const ATTR_CMN_DEVID: u32 = 0x0000_0002;
/// `ATTR_CMN_OBJTYPE` from `sys/attr.h`.
pub const ATTR_CMN_OBJTYPE: u32 = 0x0000_0008;
/// `ATTR_CMN_MODTIME` from `sys/attr.h`.
pub const ATTR_CMN_MODTIME: u32 = 0x0000_0400;
/// `ATTR_CMN_FILEID` from `sys/attr.h`.
pub const ATTR_CMN_FILEID: u32 = 0x0200_0000;
/// `ATTR_CMN_ERROR` from `sys/attr.h`.
pub const ATTR_CMN_ERROR: u32 = 0x2000_0000;
/// `ATTR_CMN_RETURNED_ATTRS` from `sys/attr.h`.
pub const ATTR_CMN_RETURNED_ATTRS: u32 = 0x8000_0000;
/// `ATTR_FILE_LINKCOUNT` from `sys/attr.h`.
pub const ATTR_FILE_LINKCOUNT: u32 = 0x0000_0001;
/// `ATTR_FILE_ALLOCSIZE` from `sys/attr.h`.
pub const ATTR_FILE_ALLOCSIZE: u32 = 0x0000_0004;
/// `ATTR_FILE_DATALENGTH` from `sys/attr.h`.
pub const ATTR_FILE_DATALENGTH: u32 = 0x0000_0200;

/// The common attributes that a record must carry for its metadata to be used.
pub const COMMON: u32 = ATTR_CMN_NAME | ATTR_CMN_DEVID | ATTR_CMN_OBJTYPE | ATTR_CMN_MODTIME
    | ATTR_CMN_FILEID;
/// The file attributes that a non-directory record must carry for its metadata to be used.
pub const FILE: u32 = ATTR_FILE_LINKCOUNT | ATTR_FILE_ALLOCSIZE | ATTR_FILE_DATALENGTH;

/// Darwin vnode type of a regular file.
pub const VREG: u32 = 1;
/// Darwin vnode type of a directory.
pub const VDIR: u32 = 2;
/// Darwin vnode type of a symbolic link.
pub const VLNK: u32 = 5;

/// The byte `.`.
pub const DOT: u8 = 46;
/// The byte `/`.
pub const SLASH: u8 = 47;

/// The smallest length a record of a batch may announce.
pub const MIN_RECORD: u32 = 72;

/// A record, or the batch around it, does not have the layout that was asked for.
#[derive(Debug, Clone, Copy, PartialEq, Eq)]
pub struct InvalidRecord;

/// The error every malformed record is reported with.
pub fn invalid_record() -> (e: InvalidRecord)
    ensures
        e == InvalidRecord,
{
    InvalidRecord
}

/// What the bulk call reported of one directory entry.
#[derive(Debug, Clone, Copy, PartialEq, Eq)]
pub struct Metadata {
    /// Darwin vnode types: VREG = 1, VDIR = 2, VLNK = 5.
    pub kind: u32,
    pub device: u64,
    pub inode: u64,
    pub links: u32,
    pub modified: i64,
    pub allocated: u64,
    pub apparent: u64,
}

/// One directory entry: its name, borrowed from the record, and its metadata when the record
/// carried all of it.
#[derive(Debug)]
pub struct Entry<'a> {
    pub name: &'a [u8],
    pub metadata: Option<Metadata>,
}

/// The value of an [`Entry`].
pub struct EntryView {
    pub name: Seq<u8>,
    pub metadata: Option<Metadata>,
}

impl<'a> View for Entry<'a> {
    type V = EntryView;

    open spec fn view(&self) -> EntryView {
        EntryView { name: self.name@, metadata: self.metadata }
    }
}

/// The unsigned number whose little-endian bytes are `s`.
pub open spec fn le_value(s: Seq<u8>) -> nat
    decreases s.len(),
{
    if s.len() == 0 {
        0
    } else {
        s[0] as nat + 256 * le_value(s.drop_first())
    }
}

/// The unsigned number whose bytes, in the byte order of the machine, are `s`.
pub open spec fn native_value(s: Seq<u8>) -> nat {
    match endianness() {
        Endian::Little => le_value(s),
        Endian::Big => le_value(s.reverse()),
    }
}

/// `n`, an unsigned number of `bits` bits, read as a two's complement number.
pub open spec fn as_signed(n: nat, bits: nat) -> int {
    if n >= vstd::arithmetic::power2::pow2((bits - 1) as nat) {
        n - vstd::arithmetic::power2::pow2(bits)
    } else {
        n as int
    }
}

/// Calls `u32::from_ne_bytes`, which reads four bytes in the machine's byte order.
#[verifier::external_body]
fn u32_from_native(bytes: &[u8]) -> (v: u32)
    requires
        bytes@.len() == 4,
    ensures
        v as nat == native_value(bytes@),
{
    u32::from_ne_bytes(bytes.try_into().unwrap())
}

/// Calls `u64::from_ne_bytes`, which reads eight bytes in the machine's byte order.
#[verifier::external_body]
fn u64_from_native(bytes: &[u8]) -> (v: u64)
    requires
        bytes@.len() == 8,
    ensures
        v as nat == native_value(bytes@),
{
    u64::from_ne_bytes(bytes.try_into().unwrap())
}

/// Calls `i32::from_ne_bytes`, which reads four bytes in the machine's byte order as a two's
/// complement number.
#[verifier::external_body]
fn i32_from_native(bytes: &[u8]) -> (v: i32)
    requires
        bytes@.len() == 4,
    ensures
        v as int == as_signed(native_value(bytes@), 32),
{
    i32::from_ne_bytes(bytes.try_into().unwrap())
}

/// Calls `i64::from_ne_bytes`, which reads eight bytes in the machine's byte order as a two's
/// complement number.
#[verifier::external_body]
fn i64_from_native(bytes: &[u8]) -> (v: i64)
    requires
        bytes@.len() == 8,
    ensures
        v as int == as_signed(native_value(bytes@), 64),
{
    i64::from_ne_bytes(bytes.try_into().unwrap())
}

/// The `width` bytes of `r` at `offset`.
pub open spec fn field(r: Seq<u8>, offset: int, width: int) -> Seq<u8> {
    r.subrange(offset, offset + width)
}

/// The unsigned 32-bit field of `r` at `offset`.
pub open spec fn field_u32(r: Seq<u8>, offset: int) -> nat {
    native_value(field(r, offset, 4))
}

/// The unsigned 64-bit field of `r` at `offset`.
pub open spec fn field_u64(r: Seq<u8>, offset: int) -> nat {
    native_value(field(r, offset, 8))
}

/// The signed 32-bit field of `r` at `offset`.
pub open spec fn field_i32(r: Seq<u8>, offset: int) -> int {
    as_signed(field_u32(r, offset), 32)
}

/// The signed 64-bit field of `r` at `offset`.
pub open spec fn field_i64(r: Seq<u8>, offset: int) -> int {
    as_signed(field_u64(r, offset), 64)
}

/// The `N` bytes of `record` at `offset`, if the record is that long.
pub fn bytes_at<const N: usize>(record: &[u8], offset: usize) -> (r: Result<&[u8], InvalidRecord>)
    requires
        offset + N <= usize::MAX,
    ensures
        r is Ok <==> offset + N <= record@.len(),
        r matches Ok(b) ==> b@ == field(record@, offset as int, N as int),
{
    if offset + N <= record.len() {
        Ok(&record[offset..offset + N])
    } else {
        Err(invalid_record())
    }
}

/// The unsigned 32-bit field of `record` at `offset`, if the record is that long.
pub fn u32_at(record: &[u8], offset: usize) -> (r: Result<u32, InvalidRecord>)
    requires
        offset + 4 <= usize::MAX,
    ensures
        r is Ok <==> offset + 4 <= record@.len(),
        r matches Ok(v) ==> v as nat == field_u32(record@, offset as int),
{
    let bytes = bytes_at::<4>(record, offset)?;
    Ok(u32_from_native(bytes))
}

/// The unsigned 64-bit field of `record` at `offset`, if the record is that long.
pub fn u64_at(record: &[u8], offset: usize) -> (r: Result<u64, InvalidRecord>)
    requires
        offset + 8 <= usize::MAX,
    ensures
        r is Ok <==> offset + 8 <= record@.len(),
        r matches Ok(v) ==> v as nat == field_u64(record@, offset as int),
{
    let bytes = bytes_at::<8>(record, offset)?;
    Ok(u64_from_native(bytes))
}

fn i32_at(record: &[u8], offset: usize) -> (r: Result<i32, InvalidRecord>)
    requires
        offset + 4 <= usize::MAX,
    ensures
        r is Ok <==> offset + 4 <= record@.len(),
        r matches Ok(v) ==> v as int == field_i32(record@, offset as int),
{
    let bytes = bytes_at::<4>(record, offset)?;
    Ok(i32_from_native(bytes))
}

fn i64_at(record: &[u8], offset: usize) -> (r: Result<i64, InvalidRecord>)
    requires
        offset + 8 <= usize::MAX,
    ensures
        r is Ok <==> offset + 8 <= record@.len(),
        r matches Ok(v) ==> v as int == field_i64(record@, offset as int),
{
    let bytes = bytes_at::<8>(record, offset)?;
    Ok(i64_from_native(bytes))
}

/// Whether `n` may name a directory entry: not empty, neither `.` nor `..`, and free of NUL
/// and `/` bytes.
pub open spec fn is_entry_name(n: Seq<u8>) -> bool {
    &&& n.len() > 0
    &&& n != seq![DOT]
    &&& n != seq![DOT, DOT]
    &&& !n.contains(0u8)
    &&& !n.contains(SLASH)
}

/// Where the name of record `r` starts: the attribute reference at byte 28 holds its offset,
/// counted from the reference itself.
pub open spec fn name_start(r: Seq<u8>) -> int {
    28 + field_i32(r, 28)
}

/// Where the name of record `r` ends, its terminating NUL included: the attribute reference
/// holds its length at byte 32.
pub open spec fn name_end(r: Seq<u8>) -> int {
    name_start(r) + field_u32(r, 32)
}

/// The name of record `r`, without its terminating NUL, if the reference points inside the
/// record at a NUL-terminated acceptable name.
pub open spec fn record_name(r: Seq<u8>) -> Option<Seq<u8>> {
    let start = name_start(r);
    let end = name_end(r);
    if 0 <= start < end <= r.len() && r[end - 1] == 0 && is_entry_name(r.subrange(start, end - 1)) {
        Some(r.subrange(start, end - 1))
    } else {
        None
    }
}

/// The vnode type of record `r`.
pub open spec fn record_kind(r: Seq<u8>) -> nat {
    field_u32(r, 40)
}

/// Whether record `r` carries everything its metadata is made of: no per-entry error, every
/// common attribute, and, unless it is a directory, every file attribute.
pub open spec fn has_metadata(r: Seq<u8>) -> bool {
    &&& field_u32(r, 24) == 0
    &&& (field_u32(r, 4) as u32) & COMMON == COMMON
    &&& (record_kind(r) == VDIR || (field_u32(r, 16) as u32) & FILE == FILE)
}

/// Whether record `r` is long enough for the fields its metadata is read from: a directory's
/// ends with the file id, anything else's with the data length.
pub open spec fn metadata_fits(r: Seq<u8>) -> bool {
    if record_kind(r) == VDIR {
        r.len() >= 68
    } else {
        r.len() >= 88
    }
}

/// The metadata of record `r`. Darwin's `dev_t` is signed, so the device is the sign-extended
/// 32-bit number; a modification time before the epoch reads as the epoch; a directory has no
/// link count or sizes of its own here.
pub open spec fn record_metadata(r: Seq<u8>) -> Metadata {
    let kind = record_kind(r);
    Metadata {
        kind: kind as u32,
        device: field_i32(r, 36) as u64,
        inode: field_u64(r, 60) as u64,
        links: if kind == VDIR { 0 } else { field_u32(r, 68) as u32 },
        modified: if field_i64(r, 44) < 0 { 0 } else { field_i64(r, 44) as i64 },
        allocated: if kind == VDIR { 0 } else { field_u64(r, 72) as u64 },
        apparent: if kind == VDIR { 0 } else { field_u64(r, 80) as u64 },
    }
}

/// What record `r` says of its entry, or `None` when the record is malformed: too short for the
/// fixed fields, without a name, with a name reference that does not point at an acceptable
/// NUL-terminated name inside the record, or, where the metadata is present, too short for it.
pub open spec fn spec_parse(r: Seq<u8>) -> Option<EntryView> {
    if r.len() < 44 || (field_u32(r, 4) as u32) & ATTR_CMN_NAME == 0 {
        None
    } else {
        match record_name(r) {
            None => None,
            Some(name) => {
                if has_metadata(r) && !metadata_fits(r) {
                    None
                } else {
                    Some(
                        EntryView {
                            name,
                            metadata: if has_metadata(r) {
                                Some(record_metadata(r))
                            } else {
                                None
                            },
                        },
                    )
                }
            },
        }
    }
}

/// `28 + offset`, if that is a valid index.
fn name_offset(offset: i32) -> (r: Option<usize>)
    ensures
        r is Some <==> 0 <= 28 + offset,
        r matches Some(v) ==> v == 28 + offset,
{
    if offset >= 0 {
        Some(28 + offset as usize)
    } else if offset >= -28 {
        Some((28 + offset) as usize)
    } else {
        None
    }
}

/// Whether `name` is acceptable as an entry name.
fn check_name(name: &[u8]) -> (ok: bool)
    ensures
        ok == is_entry_name(name@),
{
    if name.len() == 0 {
        return false;
    }
    if name.len() == 1 && name[0] == DOT {
        assert(name@ =~= seq![DOT]);
        return false;
    }
    if name.len() == 2 && name[0] == DOT && name[1] == DOT {
        assert(name@ =~= seq![DOT, DOT]);
        return false;
    }
    let mut i: usize = 0;
    while i < name.len()
        invariant
            i <= name@.len(),
            forall|j: int| 0 <= j < i ==> name@[j] != 0u8 && name@[j] != SLASH,
        decreases name@.len() - i,
    {
        if name[i] == 0 || name[i] == SLASH {
            assert(name@.contains(name@[i as int]));
            return false;
        }
        i = i + 1;
    }
    true
}

/// Reads one record of a bulk batch.
pub fn parse(record: &[u8]) -> (r: Result<Entry<'_>, InvalidRecord>)
    ensures
        r matches Ok(e) ==> spec_parse(record@) == Some(e@),
        r is Err ==> spec_parse(record@) is None,
{
    let common = u32_at(record, 4)?;
    let file = u32_at(record, 16)?;
    if common & ATTR_CMN_NAME == 0 {
        return Err(invalid_record());
    }
    let offset = i32_at(record, 28)?;
    let start = match name_offset(offset) {
        Some(start) => start,
        None => return Err(invalid_record()),
    };
    let length = u32_at(record, 32)? as usize;
    let record_len = record.len();
    assert(length == field_u32(record@, 32));
    let end = match start.checked_add(length) {
        Some(end) => end,
        None => {
            assert(name_end(record@) > record@.len());
            return Err(invalid_record());
        },
    };
    if end > record.len() || end == start || record[end - 1] != 0 {
        return Err(invalid_record());
    }
    let name = &record[start..end - 1];
    if !check_name(name) {
        return Err(invalid_record());
    }
    let kind = u32_at(record, 40)?;
    let error = u32_at(record, 24)?;
    let metadata = if error == 0 && common & COMMON == COMMON && (kind == VDIR || file & FILE
        == FILE) {
        let device = i32_at(record, 36)?;
        let modified = i64_at(record, 44)?;
        let inode = u64_at(record, 60)?;
        let links = if kind == VDIR {
            0
        } else {
            u32_at(record, 68)?
        };
        let allocated = if kind == VDIR {
            0
        } else {
            u64_at(record, 72)?
        };
        let apparent = if kind == VDIR {
            0
        } else {
            u64_at(record, 80)?
        };
        assert(((device as i64) as u64) == (device as u64)) by (bit_vector);
        let device = #[verifier::truncate] ((device as i64) as u64);
        Some(
            Metadata {
                kind,
                device,
                modified: if modified < 0 {
                    0
                } else {
                    modified
                },
                inode,
                links,
                allocated,
                apparent,
            },
        )
    } else {
        None
    };
    Ok(Entry { name, metadata })
}

/// The length that the record at the start of `remaining` announces, if that record is
/// well-framed: the length field is there, is at least [`MIN_RECORD`], is a multiple of eight
/// (records are eight-byte aligned) and does not run past the batch.
pub open spec fn record_length(remaining: Seq<u8>) -> Option<nat> {
    if remaining.len() < 4 {
        None
    } else {
        let length = field_u32(remaining, 0);
        if length < MIN_RECORD || length % 8 != 0 || length > remaining.len() {
            None
        } else {
            Some(length)
        }
    }
}

/// Reads the record at the start of `remaining`, the unread part of a batch, and says how many
/// bytes it takes: the entry, and where the next record starts.
pub fn next_record(remaining: &[u8]) -> (r: Result<(Entry<'_>, usize), InvalidRecord>)
    ensures
        r matches Ok((e, n)) ==> {
            &&& record_length(remaining@) == Some(n as nat)
            &&& spec_parse(remaining@.subrange(0, n as int)) == Some(e@)
        },
        r is Err ==> match record_length(remaining@) {
            None => true,
            Some(n) => spec_parse(remaining@.subrange(0, n as int)) is None,
        },
{
    let length = u32_at(remaining, 0)? as usize;
    if length < MIN_RECORD as usize || length % 8 != 0 {
        return Err(invalid_record());
    }
    if length > remaining.len() {
        return Err(invalid_record());
    }
    let record = &remaining[0..length];
    let entry = parse(record)?;
    Ok((entry, length))
}

/// `ENOTSUP` on Darwin: the filesystem does not support the bulk call.
pub const ENOTSUP: i32 = 45;
/// `ENOSYS` on Darwin: the system does not provide the bulk call.
pub const ENOSYS: i32 = 78;
/// `EINVAL` on Darwin: the filesystem rejects the attributes asked for.
pub const EINVAL: i32 = 22;

/// What one bulk read of a directory gave.
#[derive(Debug, Clone, Copy, PartialEq, Eq, Structural)]
pub enum BatchRead {
    /// This many records, zero at the end of the directory.
    Records(usize),
    /// The call failed with this error number.
    Failed(i32),
}

/// What a directory walk does after a read.
#[derive(Debug, Clone, Copy, PartialEq, Eq, Structural)]
pub enum WalkStep {
    /// The bulk call is not supported here: fall back to ordinary metadata, nothing having been
    /// visited.
    Unsupported,
    /// The walk fails with this error number.
    Fail(i32),
    /// The directory is exhausted.
    Done,
    /// Visit this many records of the batch.
    Visit(usize),
}

/// What the walk does after `read`, `first` telling whether it was the walk's first read. Only a
/// first read can say that the call is unsupported, and only with one of the three error numbers
/// that mean so; any other failure fails the walk, and a read of no records ends it.
pub open spec fn spec_after_read(first: bool, read: BatchRead) -> WalkStep {
    match read {
        BatchRead::Failed(e) => if first && (e == ENOTSUP || e == ENOSYS || e == EINVAL) {
            WalkStep::Unsupported
        } else {
            WalkStep::Fail(e)
        },
        BatchRead::Records(n) => if n == 0 {
            WalkStep::Done
        } else {
            WalkStep::Visit(n)
        },
    }
}

/// What the walk does after `read`.
pub fn after_read(first: bool, read: BatchRead) -> (s: WalkStep)
    ensures
        s == spec_after_read(first, read),
{
    match read {
        BatchRead::Failed(e) => if first && (e == ENOTSUP || e == ENOSYS || e == EINVAL) {
            WalkStep::Unsupported
        } else {
            WalkStep::Fail(e)
        },
        BatchRead::Records(n) => if n == 0 {
            WalkStep::Done
        } else {
            WalkStep::Visit(n)
        },
    }
}

/// Where a bulk walk of one directory stands: whether no read has returned records yet, and how
/// many records of the current batch are still to be visited.
#[derive(Debug, Clone, Copy, PartialEq, Eq, Structural)]
pub struct Walk {
    pub first: bool,
    pub left: usize,
}

/// What the walk asks for next.
#[derive(Debug, Clone, Copy, PartialEq, Eq, Structural)]
pub enum WalkAction {
    /// It was cancelled: stop, counting the walk as complete.
    Stop,
    /// Read the next batch.
    Read,
    /// Read and visit the next record of the batch.
    Record,
}

/// The walk after `read`: no longer at its first read once a read returned records, and with the
/// records that the step says to visit.
pub open spec fn spec_walk_after(w: Walk, read: BatchRead) -> Walk {
    Walk {
        first: w.first && read is Failed,
        left: match spec_after_read(w.first, read) {
            WalkStep::Visit(n) => n,
            _ => 0,
        },
    }
}

impl Walk {
    /// A walk that has read nothing.
    pub fn start() -> (w: Walk)
        ensures
            w.first,
            w.left == 0,
    {
        Walk { first: true, left: 0 }
    }

    /// What to do next: cancellation is honoured before every read and every record; a batch
    /// is read only once the last one has been visited.
    pub fn next(&self, cancelled: bool) -> (a: WalkAction)
        ensures
            a == (if cancelled {
                WalkAction::Stop
            } else if self.left == 0 {
                WalkAction::Read
            } else {
                WalkAction::Record
            }),
    {
        if cancelled {
            WalkAction::Stop
        } else if self.left == 0 {
            WalkAction::Read
        } else {
            WalkAction::Record
        }
    }

    /// Takes in a read and says what follows it.
    pub fn read(&mut self, read: BatchRead) -> (s: WalkStep)
        ensures
            s == spec_after_read(old(self).first, read),
            *final(self) == spec_walk_after(*old(self), read),
    {
        let s = after_read(self.first, read);
        self.first = self.first && match read {
            BatchRead::Failed(_) => true,
            BatchRead::Records(_) => false,
        };
        self.left = match s {
            WalkStep::Visit(n) => n,
            _ => 0,
        };
        s
    }

    /// Counts one record of the batch as visited.
    pub fn visited(&mut self)
        requires
            old(self).left > 0,
        ensures
            final(self).first == old(self).first,
            final(self).left == old(self).left - 1,
    {
        self.left = self.left - 1;
    }
}

/// Only the first read of a walk can say that the bulk call is unsupported: after any read,
/// failed or not, that is not the first, the answer is a failure, the end, or records.
pub proof fn unsupported_only_on_first_read(read: BatchRead)
    ensures
        spec_after_read(false, read) != WalkStep::Unsupported,
{
}

/// Once a read of a walk has returned records, no later read can send the walk back to the
/// fallback: the entries already visited are never visited again by another method.
pub proof fn no_fallback_after_records(w: Walk, n: usize, later: BatchRead, any: BatchRead)
    ensures
        spec_walk_after(w, any).first ==> w.first,
        spec_walk_after(w, BatchRead::Records(n)).first == false,
        spec_after_read(spec_walk_after(w, BatchRead::Records(n)).first, later)
            != WalkStep::Unsupported,
{
}

/// A record too short for its fixed fields is refused, whatever it holds.
pub proof fn short_records_are_refused(r: Seq<u8>)
    requires
        r.len() < 44,
    ensures
        spec_parse(r) is None,
{
}

proof fn lemma_zero_value(s: Seq<u8>)
    requires
        forall|i: int| 0 <= i < s.len() ==> s[i] == 0,
    ensures
        le_value(s) == 0,
        native_value(s) == 0,
    decreases s.len(),
{
    if s.len() > 0 {
        lemma_zero_value(s.drop_first());
    }
    let r = s.reverse();
    assert forall|i: int| 0 <= i < r.len() implies r[i] == 0 by {
        assert(r[i] == s[s.len() - 1 - i]);
    }
    lemma_zero_le_value(r);
}

proof fn lemma_zero_le_value(s: Seq<u8>)
    requires
        forall|i: int| 0 <= i < s.len() ==> s[i] == 0,
    ensures
        le_value(s) == 0,
    decreases s.len(),
{
    if s.len() > 0 {
        lemma_zero_le_value(s.drop_first());
    }
}

/// A record of zero bytes, of any length, is refused: it does not carry the name.
pub proof fn zero_records_are_refused(r: Seq<u8>)
    requires
        forall|i: int| 0 <= i < r.len() ==> r[i] == 0,
    ensures
        spec_parse(r) is None,
{
    if r.len() >= 44 {
        lemma_zero_value(field(r, 4, 4));
        assert(0u32 & ATTR_CMN_NAME == 0) by (bit_vector);
    }
}

/// `256` to the power `n`.
pub open spec fn pow256(n: nat) -> nat
    decreases n,
{
    if n == 0 {
        1
    } else {
        256 * pow256((n - 1) as nat)
    }
}

proof fn lemma_le_value_bound(s: Seq<u8>)
    ensures
        le_value(s) < pow256(s.len()),
    decreases s.len(),
{
    if s.len() > 0 {
        lemma_le_value_bound(s.drop_first());
    }
}

/// The bytes of a field spell a number that fits the field.
pub proof fn native_value_fits(s: Seq<u8>)
    ensures
        native_value(s) < pow256(s.len()),
{
    lemma_le_value_bound(s);
    lemma_le_value_bound(s.reverse());
}

/// What a record is read as always names an acceptable entry, and the name is the record's
/// own bytes in front of the NUL that the name reference points past; a directory's metadata
/// has no link count or sizes.
pub proof fn parsed_entries_are_well_named(r: Seq<u8>)
    requires
        spec_parse(r) is Some,
    ensures
        is_entry_name(spec_parse(r)->0.name),
        spec_parse(r)->0.name == r.subrange(name_start(r), name_end(r) - 1),
        r[name_end(r) - 1] == 0,
        spec_parse(r)->0.metadata matches Some(m) ==> (m.kind == VDIR ==> m.links == 0
            && m.allocated == 0 && m.apparent == 0),
{
    native_value_fits(field(r, 40, 4));
    assert(pow256(4) == 4294967296) by {
        reveal_with_fuel(pow256, 5);
    }
}

/// A record that a batch yields is at least [`MIN_RECORD`] bytes long, a multiple of eight,
/// and inside the batch, so that the next record starts inside or at the end of the batch and
/// reading a batch always moves forward.
pub proof fn records_advance(remaining: Seq<u8>)
    requires
        record_length(remaining) is Some,
    ensures
        MIN_RECORD <= record_length(remaining)->0 <= remaining.len(),
        record_length(remaining)->0 % 8 == 0,
{
}

/// Every record that is long enough for its fixed fields, carries the name attribute, has what
/// its metadata needs where the metadata is present, and whose name reference points inside it
/// at a NUL-terminated name that is not empty, `.` or `..` and holds no NUL or `/`, is read, with
/// exactly that name, whatever the name begins with; its metadata is there exactly when the
/// record carries all of it.
pub proof fn acceptable_records_are_read(r: Seq<u8>)
    requires
        r.len() >= 44,
        (field_u32(r, 4) as u32) & ATTR_CMN_NAME != 0,
        has_metadata(r) ==> metadata_fits(r),
        ({
            let start = 28 + field_i32(r, 28);
            let end = start + field_u32(r, 32);
            &&& 0 <= start < end <= r.len()
            &&& r[end - 1] == 0
            &&& end - 1 - start > 0
            &&& r.subrange(start, end - 1) != seq![DOT]
            &&& r.subrange(start, end - 1) != seq![DOT, DOT]
            &&& forall|i: int| start <= i < end - 1 ==> r[i] != 0 && r[i] != SLASH
        }),
    ensures
        spec_parse(r) is Some,
        spec_parse(r)->0.name == r.subrange(
            28 + field_i32(r, 28),
            28 + field_i32(r, 28) + field_u32(r, 32) - 1,
        ),
        (spec_parse(r)->0.metadata is Some) == has_metadata(r),
{
    let start = 28 + field_i32(r, 28);
    let end = start + field_u32(r, 32);
    let name = r.subrange(start, end - 1);
    assert(!name.contains(0u8)) by {
        if name.contains(0u8) {
            let i = choose|i: int| 0 <= i < name.len() && name[i] == 0u8;
            assert(r[start + i] == 0);
        }
    }
    assert(!name.contains(SLASH)) by {
        if name.contains(SLASH) {
            let i = choose|i: int| 0 <= i < name.len() && name[i] == SLASH;
            assert(r[start + i] == SLASH);
        }
    }
}

/// A read that returns no records ends the walk, whichever read of the walk it is; a read that
/// returns records leaves exactly those to visit, so that every record of a batch is visited
/// once and the next batch is read only after the last one.
pub proof fn empty_reads_end_walks(w: Walk, n: usize)
    ensures
        spec_after_read(w.first, BatchRead::Records(0)) == WalkStep::Done,
        spec_walk_after(w, BatchRead::Records(0)).left == 0,
        n > 0 ==> spec_after_read(w.first, BatchRead::Records(n)) == WalkStep::Visit(n),
        n > 0 ==> spec_walk_after(w, BatchRead::Records(n)).left == n,
        spec_after_read(w.first, BatchRead::Records(n)) != WalkStep::Visit(0),
{
}

} // verus!
