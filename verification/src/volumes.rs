//! Volumes and their mount points: reading a mount table, giving each mount
//! below a firmlink both of its spellings, finding the mounts that a scan
//! must not enter, and the spelling that the removal guards compare.
use vstd::prelude::*;
use crate::bulk::SLASH;
use crate::path::{components, is_absolute, join, root_comp, starts_with, NativePath};
use crate::text::{
    chars_of, find_first, find_last, first_match, last_match, lines, lines_of, lossy_text,
    lowercase, substring, to_lowercase, trim, trimmed, utf8_lossy,
};

verus! {

/// A mounted filesystem: where it comes from, where it is mounted, its type and its options.
#[derive(Debug, Clone, PartialEq, Eq)]
pub struct Mount {
    pub source: String,
    pub point: NativePath,
    pub fstype: String,
    pub options: String,
}

/// The value of a [`Mount`].
pub struct MountView {
    pub source: Seq<char>,
    pub point: Seq<Seq<u8>>,
    pub fstype: Seq<char>,
    pub options: Seq<char>,
}

impl View for Mount {
    type V = MountView;

    open spec fn view(&self) -> MountView {
        MountView {
            source: self.source@,
            point: self.point@,
            fstype: self.fstype@,
            options: self.options@,
        }
    }
}

/// The values of the mounts of `ms`.
pub open spec fn mount_views(ms: Seq<Mount>) -> Seq<MountView> {
    ms.map_values(|m: Mount| m@)
}

/// The path that the text `s` names.
pub open spec fn text_path(s: Seq<char>) -> Seq<Seq<u8>> {
    components(vstd::utf8::encode_utf8(s))
}

/// The path that the text `s` names.
fn path_of_text(s: &str) -> (p: NativePath)
    ensures
        p@ == text_path(s@),
{
    NativePath::from_bytes(s.as_bytes())
}

impl Mount {
    /// A copy of this mount.
    pub fn duplicate(&self) -> (m: Mount)
        ensures
            m@ == self@,
    {
        Mount {
            source: self.source.clone(),
            point: self.point.duplicate(),
            fstype: self.fstype.clone(),
            options: self.options.clone(),
        }
    }
}

/// What one line of `mount`'s output says: `SOURCE on POINT (TYPE, OPTION, ...)`. The flags are
/// the text after the last ` (`, so a mount point may hold parentheses; the source ends at the
/// first ` on `; the type is the first of the flags, trimmed; the options are all of them.
pub open spec fn mount_line(l: Seq<char>) -> Option<MountView> {
    match last_match(l, seq![' ', '(']) {
        None => None,
        Some(k) => {
            let location = l.take(k);
            let flags = l.skip(k + 2);
            match first_match(location, seq![' ', 'o', 'n', ' ']) {
                None => None,
                Some(m) => {
                    if flags.len() == 0 || flags.last() != ')' {
                        None
                    } else {
                        let options = flags.drop_last();
                        let first = match first_match(options, seq![',']) {
                            Some(c) => options.take(c),
                            None => options,
                        };
                        Some(
                            MountView {
                                source: location.take(m),
                                point: text_path(location.skip(m + 4)),
                                fstype: trimmed(first),
                                options,
                            },
                        )
                    }
                },
            }
        },
    }
}

/// The mounts that the lines `ls` describe, in order; lines that describe none are skipped.
pub open spec fn mount_lines(ls: Seq<Seq<char>>) -> Seq<MountView>
    decreases ls.len(),
{
    if ls.len() == 0 {
        seq![]
    } else {
        match mount_line(ls.last()) {
            Some(m) => mount_lines(ls.drop_last()).push(m),
            None => mount_lines(ls.drop_last()),
        }
    }
}

/// Reads one line of `mount`'s output.
pub fn parse_mount_line(line: &str) -> (r: Option<Mount>)
    ensures
        r matches Some(m) ==> mount_line(line@) == Some(m@),
        r is None ==> mount_line(line@) is None,
{
    let cs = chars_of(line);
    let n = cs.len();
    let open_paren = vec![' ', '('];
    assert(open_paren@ =~= seq![' ', '(']);
    let k = find_last(&cs, &open_paren)?;
    let location = substring(line, 0, k);
    assert(location@ =~= line@.take(k as int));
    let location_chars = chars_of(location.as_str());
    let on = vec![' ', 'o', 'n', ' '];
    assert(on@ =~= seq![' ', 'o', 'n', ' ']);
    let m = find_first(&location_chars, &on)?;
    if n - k < 3 || cs[n - 1] != ')' {
        assert(line@.skip(k + 2).len() == 0 || line@.skip(k + 2).last() != ')');
        return None;
    }
    let source = substring(location.as_str(), 0, m);
    let point_text = substring(location.as_str(), m + 4, k);
    let options = substring(line, k + 2, n - 1);
    assert(options@ =~= line@.skip(k + 2).drop_last());
    let option_chars = chars_of(options.as_str());
    let comma = vec![','];
    assert(comma@ =~= seq![',']);
    let first_end = match find_first(&option_chars, &comma) {
        Some(c) => c,
        None => option_chars.len(),
    };
    let first = substring(options.as_str(), 0, first_end);
    assert(first_end == option_chars@.len() ==> first@ =~= options@);
    let fstype = trim(first.as_str());
    assert(source@ =~= location@.take(m as int));
    assert(point_text@ =~= location@.skip(m + 4));
    let point = path_of_text(point_text.as_str());
    Some(Mount { source, point, fstype, options })
}

/// Reads the output of `mount`, one mount per line; lines that do not describe a mount are
/// skipped.
pub fn parse_mounts(table: &str) -> (r: Vec<Mount>)
    ensures
        mount_views(r@) == mount_lines(lines(table@)),
{
    let ls = lines_of(table);
    let ghost lv = ls@.map_values(|l: String| l@);
    let mut out: Vec<Mount> = Vec::new();
    let mut i: usize = 0;
    while i < ls.len()
        invariant
            lv == lines(table@),
            lv == ls@.map_values(|l: String| l@),
            i <= ls@.len(),
            mount_views(out@) == mount_lines(lv.take(i as int)),
        decreases ls@.len() - i,
    {
        assert(lv.take(i + 1).drop_last() =~= lv.take(i as int));
        assert(lv.take(i + 1).last() == ls@[i as int]@);
        match parse_mount_line(ls[i].as_str()) {
            Some(m) => {
                let ghost before = out@;
                out.push(m);
                assert(mount_views(out@) =~= mount_views(before).push(out@.last()@));
            },
            None => {},
        }
        i = i + 1;
    }
    assert(lv.take(ls@.len() as int) =~= lv);
    out
}

/// The mount point of the Data volume, `/System/Volumes/Data`, whose folders the firmlinks show
/// again at the top of the system volume.
pub open spec fn data_volume() -> Seq<Seq<u8>> {
    seq![
        root_comp(),
        seq![83u8, 121, 115, 116, 101, 109],
        seq![86u8, 111, 108, 117, 109, 101, 115],
        seq![68u8, 97, 116, 97],
    ]
}

/// The mount point of the Data volume.
pub fn data_volume_path() -> (p: NativePath)
    ensures
        p@ == data_volume(),
{
    let root = vec![SLASH];
    let system = vec![83u8, 121, 115, 116, 101, 109];
    let volumes = vec![86u8, 111, 108, 117, 109, 101, 115];
    let data = vec![68u8, 97, 116, 97];
    assert(root@ =~= root_comp());
    assert(system@ =~= seq![83u8, 121, 115, 116, 101, 109]);
    assert(volumes@ =~= seq![86u8, 111, 108, 117, 109, 101, 115]);
    assert(data@ =~= seq![68u8, 97, 116, 97]);
    let comps: Vec<Vec<u8>> = vec![root, system, volumes, data];
    let p = NativePath::of(comps);
    assert(p@ =~= data_volume());
    p
}

/// The root directory.
pub fn root_path() -> (p: NativePath)
    ensures
        p@ == seq![root_comp()],
{
    let root = vec![SLASH];
    assert(root@ =~= root_comp());
    let comps: Vec<Vec<u8>> = vec![root];
    let p = NativePath::of(comps);
    assert(p@ =~= seq![root_comp()]);
    p
}

/// What a line of `/usr/share/firmlinks` says: the visible path, a tab, and the path of the same
/// folder relative to the Data volume. The result is the visible path and the Data-volume path.
pub open spec fn firmlink(l: Seq<char>) -> Option<(Seq<Seq<u8>>, Seq<Seq<u8>>)> {
    match first_match(l, seq!['\t']) {
        None => None,
        Some(t) => Some((text_path(l.take(t)), join(data_volume(), text_path(l.skip(t + 1))))),
    }
}

/// The other spelling of the mount `m` through the firmlink from `visible` to `physical`: a
/// mount below the Data-volume path is also reached below the visible one, and a mount below
/// the visible path is also reached below the Data-volume one.
pub open spec fn alias_of(m: MountView, visible: Seq<Seq<u8>>, physical: Seq<Seq<u8>>) -> Option<
    MountView,
> {
    if starts_with(m.point, physical) {
        Some(MountView { point: join(visible, m.point.skip(physical.len() as int)), ..m })
    } else if starts_with(m.point, visible) {
        Some(MountView { point: join(physical, m.point.skip(visible.len() as int)), ..m })
    } else {
        None
    }
}

/// The aliases, in order, that one firmlink gives the mounts `ms`.
pub open spec fn link_aliases(ms: Seq<MountView>, visible: Seq<Seq<u8>>, physical: Seq<Seq<u8>>) -> Seq<
    MountView,
>
    decreases ms.len(),
{
    if ms.len() == 0 {
        seq![]
    } else {
        match alias_of(ms.last(), visible, physical) {
            Some(a) => link_aliases(ms.drop_last(), visible, physical).push(a),
            None => link_aliases(ms.drop_last(), visible, physical),
        }
    }
}

/// The aliases, in order, that the firmlink lines `ls` give the mounts `ms`.
pub open spec fn firmlink_aliases(ms: Seq<MountView>, ls: Seq<Seq<char>>) -> Seq<MountView>
    decreases ls.len(),
{
    if ls.len() == 0 {
        seq![]
    } else {
        match firmlink(ls.last()) {
            Some((visible, physical)) => firmlink_aliases(ms, ls.drop_last()) + link_aliases(
                ms,
                visible,
                physical,
            ),
            None => firmlink_aliases(ms, ls.drop_last()),
        }
    }
}

/// The aliases that one firmlink gives `mounts`.
fn aliases_through(mounts: &Vec<Mount>, visible: &NativePath, physical: &NativePath) -> (r: Vec<
    Mount,
>)
    ensures
        mount_views(r@) == link_aliases(mount_views(mounts@), visible@, physical@),
{
    let ghost ms = mount_views(mounts@);
    let mut out: Vec<Mount> = Vec::new();
    let mut i: usize = 0;
    while i < mounts.len()
        invariant
            ms == mount_views(mounts@),
            i <= mounts@.len(),
            mount_views(out@) == link_aliases(ms.take(i as int), visible@, physical@),
        decreases mounts@.len() - i,
    {
        assert(ms.take(i + 1).drop_last() =~= ms.take(i as int));
        assert(ms.take(i + 1).last() == mounts@[i as int]@);
        let mount = &mounts[i];
        let point = match mount.point.strip_prefix(physical) {
            Some(tail) => Some(visible.join(&tail)),
            None => match mount.point.strip_prefix(visible) {
                Some(tail) => Some(physical.join(&tail)),
                None => None,
            },
        };
        match point {
            Some(point) => {
                let ghost before = out@;
                let alias = Mount {
                    source: mount.source.clone(),
                    point,
                    fstype: mount.fstype.clone(),
                    options: mount.options.clone(),
                };
                out.push(alias);
                assert(mount_views(out@) =~= mount_views(before).push(alias@));
            },
            None => {},
        }
        i = i + 1;
    }
    assert(ms.take(mounts@.len() as int) =~= ms);
    out
}

/// Adds to `mounts`, after them, the other spelling of each mount that lies below either side
/// of a firmlink that `links`, the text of `/usr/share/firmlinks`, lists: a mount below
/// `/Users` is also reachable below `/System/Volumes/Data/Users`, and the other way round.
pub fn add_firmlink_aliases(mounts: &mut Vec<Mount>, links: &str)
    ensures
        mount_views(final(mounts)@) == mount_views(old(mounts)@) + firmlink_aliases(
            mount_views(old(mounts)@),
            lines(links@),
        ),
{
    let ls = lines_of(links);
    let ghost lv = ls@.map_values(|l: String| l@);
    let ghost ms = mount_views(mounts@);
    let data = data_volume_path();
    let tab = vec!['\t'];
    assert(tab@ =~= seq!['\t']);
    let mut aliases: Vec<Mount> = Vec::new();
    let mut i: usize = 0;
    while i < ls.len()
        invariant
            lv == lines(links@),
            lv == ls@.map_values(|l: String| l@),
            ms == mount_views(mounts@),
            data@ == data_volume(),
            tab@ == seq!['\t'],
            i <= ls@.len(),
            mount_views(aliases@) == firmlink_aliases(ms, lv.take(i as int)),
        decreases ls@.len() - i,
    {
        assert(lv.take(i + 1).drop_last() =~= lv.take(i as int));
        assert(lv.take(i + 1).last() == ls@[i as int]@);
        let line = ls[i].as_str();
        let chars = chars_of(line);
        match find_first(&chars, &tab) {
            Some(t) => {
                let n = chars.len();
                assert(tab@.len() == 1);
                let visible_text = substring(line, 0, t);
                let relative_text = substring(line, t + 1, n);
                assert(visible_text@ =~= line@.take(t as int));
                assert(relative_text@ =~= line@.skip(t + 1));
                let visible = path_of_text(visible_text.as_str());
                let relative = path_of_text(relative_text.as_str());
                let physical = data.join(&relative);
                let mut found = aliases_through(mounts, &visible, &physical);
                let ghost before = aliases@;
                aliases.append(&mut found);
                assert(mount_views(aliases@) =~= mount_views(before) + link_aliases(
                    ms,
                    visible@,
                    physical@,
                ));
            },
            None => {},
        }
        i = i + 1;
    }
    assert(lv.take(ls@.len() as int) =~= lv);
    let ghost before = mounts@;
    mounts.append(&mut aliases);
    assert(mount_views(mounts@) =~= mount_views(before) + firmlink_aliases(ms, lv));
}

/// Whether `point` lies strictly below `root`.
pub open spec fn strictly_below(point: Seq<Seq<u8>>, root: Seq<Seq<u8>>) -> bool {
    point != root && starts_with(point, root)
}

/// The mount points, in order, of the mounts of `ms` that lie strictly below `root` and come
/// from another source than `own`.
pub open spec fn foreign_points(root: Seq<Seq<u8>>, own: Seq<char>, ms: Seq<MountView>) -> Seq<
    Seq<Seq<u8>>,
>
    decreases ms.len(),
{
    if ms.len() == 0 {
        seq![]
    } else {
        let m = ms.last();
        if strictly_below(m.point, root) && m.source != own {
            foreign_points(root, own, ms.drop_last()).push(m.point)
        } else {
            foreign_points(root, own, ms.drop_last())
        }
    }
}

/// The mount points below `root` that belong to other volumes than `own`, the source of the
/// volume `root` lies on: the places a scan that stays on one volume must not enter.
pub fn foreign_mounts(root: &NativePath, own: &String, mounts: &Vec<Mount>) -> (r: Vec<
    NativePath,
>)
    ensures
        r@.map_values(|p: NativePath| p@) == foreign_points(root@, own@, mount_views(mounts@)),
{
    let ghost ms = mount_views(mounts@);
    let mut out: Vec<NativePath> = Vec::new();
    let mut i: usize = 0;
    while i < mounts.len()
        invariant
            ms == mount_views(mounts@),
            i <= mounts@.len(),
            out@.map_values(|p: NativePath| p@) == foreign_points(
                root@,
                own@,
                ms.take(i as int),
            ),
        decreases mounts@.len() - i,
    {
        assert(ms.take(i + 1).drop_last() =~= ms.take(i as int));
        assert(ms.take(i + 1).last() == mounts@[i as int]@);
        let mount = &mounts[i];
        if !mount.point.same(root) && mount.point.starts_with(root) && !(mount.source == *own) {
            let ghost before = out@;
            out.push(mount.point.duplicate());
            assert(out@.map_values(|p: NativePath| p@) =~= before.map_values(|p: NativePath| p@).push(
                mount.point@,
            ));
        }
        i = i + 1;
    }
    assert(ms.take(mounts@.len() as int) =~= ms);
    out
}

/// Whether any of the mounts `mounts` lies strictly below `root`: a directory holding a mounted
/// volume is not deleted permanently.
pub fn mounts_below(root: &NativePath, mounts: &Vec<Mount>) -> (r: bool)
    ensures
        r == exists|i: int| 0 <= i < mounts@.len() && strictly_below(#[trigger] mounts@[i]@.point, root@),
{
    let mut i: usize = 0;
    while i < mounts.len()
        invariant
            i <= mounts@.len(),
            forall|j: int| 0 <= j < i ==> !strictly_below(#[trigger] mounts@[j]@.point, root@),
        decreases mounts@.len() - i,
    {
        if !mounts[i].point.same(root) && mounts[i].point.starts_with(root) {
            assert(strictly_below(mounts@[i as int]@.point, root@));
            return true;
        }
        i = i + 1;
    }
    false
}

/// The mount point of the Data volume in lower case, `/system/volumes/data`: how it reads
/// once a path is case-folded.
pub open spec fn folded_data_volume() -> Seq<Seq<u8>> {
    seq![
        root_comp(),
        seq![115u8, 121, 115, 116, 101, 109],
        seq![118u8, 111, 108, 117, 109, 101, 115],
        seq![100u8, 97, 116, 97],
    ]
}

/// The mount point of the Data volume in lower case.
pub fn folded_data_volume_path() -> (p: NativePath)
    ensures
        p@ == folded_data_volume(),
{
    let root = vec![SLASH];
    let system = vec![115u8, 121, 115, 116, 101, 109];
    let volumes = vec![118u8, 111, 108, 117, 109, 101, 115];
    let data = vec![100u8, 97, 116, 97];
    assert(root@ =~= root_comp());
    assert(system@ =~= seq![115u8, 121, 115, 116, 101, 109]);
    assert(volumes@ =~= seq![118u8, 111, 108, 117, 109, 101, 115]);
    assert(data@ =~= seq![100u8, 97, 116, 97]);
    let comps: Vec<Vec<u8>> = vec![root, system, volumes, data];
    let p = NativePath::of(comps);
    assert(p@ =~= folded_data_volume());
    p
}

/// The path `p` case-folded: written out, read as UTF-8 with invalid sequences replaced,
/// lower-cased, and read back as a path.
pub open spec fn folded(p: Seq<Seq<u8>>) -> Seq<Seq<u8>> {
    components(vstd::utf8::encode_utf8(lowercase(utf8_lossy(crate::path::render(p)))))
}

/// The path `p` as the removal guards compare it: case-folded, so that a change of case on the
/// case-insensitive default filesystem does not get past a guard, and then, if it lies on the
/// Data volume, spelled through the firmlinks, so that an alias does not either, whatever the
/// case it was written in.
pub open spec fn guard(p: Seq<Seq<u8>>) -> Seq<Seq<u8>> {
    let f = folded(p);
    if starts_with(f, folded_data_volume()) {
        join(seq![root_comp()], f.skip(folded_data_volume().len() as int))
    } else {
        f
    }
}

/// The spelling of `path` that the removal guards compare.
pub fn guard_path(path: &NativePath) -> (r: NativePath)
    ensures
        r@ == guard(path@),
{
    let text = lossy_text(path.to_bytes().as_slice());
    let lower = to_lowercase(text.as_str());
    let folded = NativePath::from_bytes(lower.as_str().as_bytes());
    match folded.strip_prefix(&folded_data_volume_path()) {
        Some(tail) => root_path().join(&tail),
        None => folded,
    }
}

/// The bytes of the C string `b`: those before its first NUL, or all of them when it holds none.
pub open spec fn c_bytes(b: Seq<i8>) -> Seq<u8>
    decreases b.len(),
{
    if b.len() == 0 || b[0] == 0 {
        seq![]
    } else {
        seq![b[0] as u8] + c_bytes(b.drop_first())
    }
}

/// The bytes of a path that the kernel wrote into a fixed-size C string field.
pub fn native_path(bytes: &[i8]) -> (r: Vec<u8>)
    ensures
        r@ == c_bytes(bytes@),
{
    let mut out: Vec<u8> = Vec::new();
    let mut i: usize = 0;
    assert(bytes@.skip(0) =~= bytes@);
    while i < bytes.len()
        invariant
            i <= bytes@.len(),
            c_bytes(bytes@) == out@ + c_bytes(bytes@.skip(i as int)),
        decreases bytes@.len() - i,
    {
        if bytes[i] == 0 {
            assert(c_bytes(bytes@.skip(i as int)) =~= seq![]);
            assert(out@ + seq![] =~= out@);
            return out;
        }
        assert(bytes@.skip(i as int).drop_first() =~= bytes@.skip(i + 1));
        let ghost before = out@;
        out.push(bytes[i] as u8);
        assert(before + c_bytes(bytes@.skip(i as int)) =~= out@ + c_bytes(bytes@.skip(i + 1)));
        i = i + 1;
    }
    assert(c_bytes(bytes@.skip(i as int)) =~= seq![]);
    assert(out@ + seq![] =~= out@);
    out
}

/// The name of a volume's source that the kernel wrote into a fixed-size C string field, read
/// as UTF-8 with invalid sequences replaced: how a scan tells one volume from another.
pub fn device_name(field: &[i8]) -> (r: String)
    ensures
        r@ == utf8_lossy(c_bytes(field@)),
{
    lossy_text(native_path(field).as_slice())
}

/// The mount that a record of the kernel's mount table describes, from its source, mount point
/// and type fields. Source and type are read as UTF-8, invalid sequences replaced; the table
/// carries no options.
pub fn mount_from_record(from: &[i8], on: &[i8], fstype: &[i8]) -> (m: Mount)
    ensures
        m@ == (MountView {
            source: utf8_lossy(c_bytes(from@)),
            point: components(c_bytes(on@)),
            fstype: utf8_lossy(c_bytes(fstype@)),
            options: seq![],
        }),
{
    let source = device_name(from);
    let point = NativePath::from_bytes(native_path(on).as_slice());
    let kind = device_name(fstype);
    Mount { source, point, fstype: kind, options: String::new() }
}

/// The mount table that a scan works with: the mounts that the kernel listed followed by their
/// firmlink aliases (see [`add_firmlink_aliases`]); `None` when there are none at all.
pub fn finish_mounts(mounts: Vec<Mount>, links: &str) -> (r: Option<Vec<Mount>>)
    ensures
        r is None <==> mounts@.len() == 0,
        r matches Some(all) ==> mount_views(all@) == mount_views(mounts@) + firmlink_aliases(
            mount_views(mounts@),
            lines(links@),
        ),
{
    let mut mounts = mounts;
    let ghost listed = mounts@;
    add_firmlink_aliases(&mut mounts, links);
    if mounts.len() == 0 {
        assert(mount_views(listed).len() == 0);
        None
    } else {
        proof {
            if listed.len() == 0 {
                lemma_no_aliases_of_nothing(lines(links@));
                assert(mount_views(listed) =~= seq![]);
                assert(mount_views(mounts@).len() == 0);
            }
        }
        Some(mounts)
    }
}

proof fn lemma_no_aliases_of_nothing(ls: Seq<Seq<char>>)
    ensures
        firmlink_aliases(seq![], ls) == Seq::<MountView>::empty(),
    decreases ls.len(),
{
    if ls.len() > 0 {
        lemma_no_aliases_of_nothing(ls.drop_last());
        match firmlink(ls.last()) {
            Some((v, p)) => {
                assert(link_aliases(seq![], v, p) == Seq::<MountView>::empty());
                assert(Seq::<MountView>::empty() + Seq::<MountView>::empty() =~= Seq::<
                    MountView,
                >::empty());
            },
            None => {},
        }
    }
}

/// How many times the mount table is read before giving up: mounts may appear between the
/// sizing call and the read, and each read that fills its buffer doubles it.
pub const MOUNT_READS: usize = 3;

/// How far the reading of the kernel's mount table has come: the number of records the next
/// read has room for, and the reads made so far.
#[derive(Debug, Clone, Copy, PartialEq, Eq)]
pub struct MountProbe {
    pub capacity: usize,
    pub reads: usize,
}

/// What follows a read of the mount table.
#[derive(Debug, Clone, Copy, PartialEq, Eq)]
pub enum ProbeStep {
    /// The buffer was full: read again with this probe.
    Retry(MountProbe),
    /// The read returned this many records, fewer than the buffer holds.
    Filled(usize),
    /// The table cannot be read.
    GiveUp,
}

impl MountProbe {
    /// The first probe, after the sizing call reported `count` mounts: room for eight more, so
    /// that mounts appearing in between still fit.
    pub fn start(count: i32) -> (r: Option<MountProbe>)
        ensures
            r is Some <==> 0 <= count && count + 8 <= usize::MAX,
            r matches Some(p) ==> p.capacity == count + 8 && p.reads == 0,
    {
        if count < 0 {
            return None;
        }
        let count = count as usize;
        match count.checked_add(8) {
            Some(capacity) => Some(MountProbe { capacity, reads: 0 }),
            None => None,
        }
    }

    /// The size in bytes of the buffer for the next read, for records of `record_size` bytes,
    /// if it fits the `i32` that the call takes.
    pub fn buffer_bytes(&self, record_size: usize) -> (r: Option<i32>)
        ensures
            r is Some <==> self.capacity * record_size <= i32::MAX,
            r matches Some(b) ==> b == self.capacity * record_size,
    {
        match self.capacity.checked_mul(record_size) {
            Some(bytes) => {
                if bytes <= i32::MAX as usize {
                    Some(bytes as i32)
                } else {
                    None
                }
            },
            None => None,
        }
    }

    /// What to do after a read that returned `returned`: a negative result is an error; a full
    /// buffer means another read, with twice the room, unless this was the last read allowed.
    pub fn observe(&self, returned: i32) -> (r: ProbeStep)
        ensures
            returned < 0 ==> r == ProbeStep::GiveUp,
            0 <= returned < self.capacity ==> r == ProbeStep::Filled(returned as usize),
            returned >= 0 && returned >= self.capacity ==> r == if self.reads + 1 >= MOUNT_READS
                || self.capacity * 2 > usize::MAX {
                ProbeStep::GiveUp
            } else {
                ProbeStep::Retry(
                    MountProbe { capacity: (self.capacity * 2) as usize, reads: (self.reads + 1) as usize },
                )
            },
    {
        if returned < 0 {
            return ProbeStep::GiveUp;
        }
        let count = returned as usize;
        if count < self.capacity {
            return ProbeStep::Filled(count);
        }
        if self.reads >= MOUNT_READS - 1 {
            return ProbeStep::GiveUp;
        }
        match self.capacity.checked_mul(2) {
            Some(capacity) => ProbeStep::Retry(MountProbe { capacity, reads: self.reads + 1 }),
            None => ProbeStep::GiveUp,
        }
    }
}

proof fn lemma_link_aliases_contains(
    ms: Seq<MountView>,
    visible: Seq<Seq<u8>>,
    physical: Seq<Seq<u8>>,
    j: int,
)
    requires
        0 <= j < ms.len(),
        alias_of(ms[j], visible, physical) is Some,
    ensures
        link_aliases(ms, visible, physical).contains(alias_of(ms[j], visible, physical)->0),
    decreases ms.len(),
{
    let a = alias_of(ms[j], visible, physical)->0;
    let before = link_aliases(ms.drop_last(), visible, physical);
    if j == ms.len() - 1 {
        assert(link_aliases(ms, visible, physical) == before.push(a));
        assert(before.push(a)[before.len() as int] == a);
    } else {
        assert(ms.drop_last()[j] == ms[j]);
        lemma_link_aliases_contains(ms.drop_last(), visible, physical, j);
        let k = choose|k: int| 0 <= k < before.len() && before[k] == a;
        match alias_of(ms.last(), visible, physical) {
            Some(b) => assert(before.push(b)[k] == a),
            None => {},
        }
    }
}

proof fn lemma_firmlink_aliases_contains(ms: Seq<MountView>, ls: Seq<Seq<char>>, i: int, a: MountView)
    requires
        0 <= i < ls.len(),
        firmlink(ls[i]) is Some,
        link_aliases(ms, (firmlink(ls[i])->0).0, (firmlink(ls[i])->0).1).contains(a),
    ensures
        firmlink_aliases(ms, ls).contains(a),
    decreases ls.len(),
{
    let before = firmlink_aliases(ms, ls.drop_last());
    if i == ls.len() - 1 {
        let (v, p) = firmlink(ls.last())->0;
        let found = link_aliases(ms, v, p);
        let k = choose|k: int| 0 <= k < found.len() && found[k] == a;
        assert((before + found)[before.len() + k] == a);
    } else {
        assert(ls.drop_last()[i] == ls[i]);
        lemma_firmlink_aliases_contains(ms, ls.drop_last(), i, a);
        let k = choose|k: int| 0 <= k < before.len() && before[k] == a;
        match firmlink(ls.last()) {
            Some((v, p)) => assert((before + link_aliases(ms, v, p))[k] == a),
            None => {},
        }
    }
}

/// A mount below either side of a firmlink that the table lists is also reached below the
/// other side: the aliases hold the mount with its point moved there, with the same source,
/// type and options. A mount below the Data-volume side is moved to the visible side.
pub proof fn firmlink_aliases_cover_both_spellings(
    ms: Seq<MountView>,
    ls: Seq<Seq<char>>,
    i: int,
    j: int,
)
    requires
        0 <= i < ls.len(),
        0 <= j < ms.len(),
        firmlink(ls[i]) is Some,
    ensures
        ({
            let visible = (firmlink(ls[i])->0).0;
            let physical = (firmlink(ls[i])->0).1;
            let m = ms[j];
            &&& starts_with(m.point, physical) ==> firmlink_aliases(ms, ls).contains(
                MountView { point: join(visible, m.point.skip(physical.len() as int)), ..m },
            )
            &&& !starts_with(m.point, physical) && starts_with(m.point, visible)
                ==> firmlink_aliases(ms, ls).contains(
                MountView { point: join(physical, m.point.skip(visible.len() as int)), ..m },
            )
        }),
{
    let visible = (firmlink(ls[i])->0).0;
    let physical = (firmlink(ls[i])->0).1;
    if alias_of(ms[j], visible, physical) is Some {
        lemma_link_aliases_contains(ms, visible, physical, j);
        lemma_firmlink_aliases_contains(ms, ls, i, alias_of(ms[j], visible, physical)->0);
    }
}

/// Every foreign mount point lies strictly below the root, and belongs to a mount of the table
/// whose source is not the root's own.
pub proof fn foreign_points_lie_below(root: Seq<Seq<u8>>, own: Seq<char>, ms: Seq<MountView>, k: int)
    requires
        0 <= k < foreign_points(root, own, ms).len(),
    ensures
        strictly_below(foreign_points(root, own, ms)[k], root),
        exists|j: int|
            0 <= j < ms.len() && (#[trigger] ms[j]).point == foreign_points(root, own, ms)[k]
                && ms[j].source != own,
    decreases ms.len(),
{
    let m = ms.last();
    let rest = foreign_points(root, own, ms.drop_last());
    if strictly_below(m.point, root) && m.source != own && k == rest.len() {
        assert(ms[ms.len() - 1] == m);
    } else {
        foreign_points_lie_below(root, own, ms.drop_last(), k);
        let j = choose|j: int|
            0 <= j < ms.drop_last().len() && (#[trigger] ms.drop_last()[j]).point == rest[k]
                && ms.drop_last()[j].source != own;
        assert(ms[j] == ms.drop_last()[j]);
    }
}

/// Where some mount of the table is foreign below the root, some mount lies below the root:
/// what a scan excludes, permanent deletion refuses.
pub proof fn foreign_mounts_imply_mounts_below(root: Seq<Seq<u8>>, own: Seq<char>, ms: Seq<MountView>)
    requires
        foreign_points(root, own, ms).len() > 0,
    ensures
        exists|i: int| 0 <= i < ms.len() && strictly_below((#[trigger] ms[i]).point, root),
{
    foreign_points_lie_below(root, own, ms, 0);
    let j = choose|j: int|
        0 <= j < ms.len() && (#[trigger] ms[j]).point == foreign_points(root, own, ms)[0]
            && ms[j].source != own;
    assert(strictly_below(ms[j].point, root));
}

/// A path on the Data volume and the same path through the firmlinks are guarded alike, in
/// whatever case either is written: when `p` folds to `/system/volumes/data/tail` and `q` folds
/// to `/tail`, they have one guard path. The tail must not start with `.` or the root, and must
/// not itself lead into the Data volume (a path inside the Data volume's own `System/Volumes/Data`
/// is stripped once, not twice).
pub proof fn data_alias_guards_alike(p: Seq<Seq<u8>>, q: Seq<Seq<u8>>, tail: Seq<Seq<u8>>)
    requires
        folded(p) == folded_data_volume() + tail,
        folded(q) == seq![root_comp()] + tail,
        tail.len() > 0 ==> tail[0] != root_comp() && tail[0] != crate::path::cur_comp(),
        !starts_with(seq![root_comp()] + tail, folded_data_volume()),
    ensures
        guard(p) == guard(q),
        guard(q) == seq![root_comp()] + tail,
{
    let f = folded(p);
    assert(f.subrange(0, folded_data_volume().len() as int) =~= folded_data_volume());
    assert(f.skip(folded_data_volume().len() as int) =~= tail);
    assert(!is_absolute(tail));
    assert(crate::path::drop_cur(tail) == tail);
    assert(join(seq![root_comp()], tail) == seq![root_comp()] + tail);
}

/// Every mount strictly below the root that comes from another source than the root's own is
/// reported: no other property of the mount (its type or options) keeps it out.
pub proof fn foreign_points_complete(root: Seq<Seq<u8>>, own: Seq<char>, ms: Seq<MountView>, j: int)
    requires
        0 <= j < ms.len(),
        ms[j].point != root,
        root.len() <= ms[j].point.len(),
        ms[j].point.subrange(0, root.len() as int) == root,
        ms[j].source != own,
    ensures
        foreign_points(root, own, ms).contains(ms[j].point),
    decreases ms.len(),
{
    let rest = foreign_points(root, own, ms.drop_last());
    let m = ms.last();
    if j == ms.len() - 1 {
        assert(strictly_below(m.point, root));
        assert(rest.push(m.point)[rest.len() as int] == m.point);
    } else {
        assert(ms.drop_last()[j] == ms[j]);
        foreign_points_complete(root, own, ms.drop_last(), j);
        let k = choose|k: int| 0 <= k < rest.len() && rest[k] == ms[j].point;
        if strictly_below(m.point, root) && m.source != own {
            assert(rest.push(m.point)[k] == ms[j].point);
        }
    }
}

} // verus!
