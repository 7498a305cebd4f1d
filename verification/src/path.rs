//! Unix paths as the sequence of their components.
//!
//! Mount points and guard paths are compared component by component, as
//! `std::path::Path` compares them: repeated separators and a trailing
//! separator do not count, a `.` counts only at the start of a relative path,
//! and the root counts as a component of its own. A path is kept here as that
//! component sequence; the root is the component `/`, which no other
//! component can be.
use vstd::prelude::*;
use crate::bulk::{DOT, SLASH};

verus! {

/// The component that stands for the root directory.
pub open spec fn root_comp() -> Seq<u8> {
    seq![SLASH]
}

/// The component that stands for the current directory.
pub open spec fn cur_comp() -> Seq<u8> {
    seq![DOT]
}

/// Whether the segment `seg` between two separators is a component: it is not empty, and it
/// is not `.` unless it is the first segment (`first`) of a relative path.
pub open spec fn keeps_segment(seg: Seq<u8>, first: bool) -> bool {
    seg.len() > 0 && (seg != cur_comp() || first)
}

/// `comps` after the segment `seg` that follows the bytes `before` has ended.
pub open spec fn close_segment(comps: Seq<Seq<u8>>, seg: Seq<u8>, before: Seq<u8>) -> Seq<Seq<u8>> {
    if keeps_segment(seg, !before.contains(SLASH)) {
        comps.push(seg)
    } else {
        comps
    }
}

/// The components of the complete segments of `b`, and the bytes of its last, open segment.
pub open spec fn scan(b: Seq<u8>) -> (Seq<Seq<u8>>, Seq<u8>)
    decreases b.len(),
{
    if b.len() == 0 {
        (seq![], seq![])
    } else {
        let (comps, seg) = scan(b.drop_last());
        if b.last() == SLASH {
            if b.len() == 1 {
                (seq![root_comp()], seq![])
            } else {
                (close_segment(comps, seg, b.drop_last()), seq![])
            }
        } else {
            (comps, seg.push(b.last()))
        }
    }
}

/// The components of the path whose bytes are `b`.
pub open spec fn components(b: Seq<u8>) -> Seq<Seq<u8>> {
    let (comps, seg) = scan(b);
    close_segment(comps, seg, b)
}

/// Whether the path `p` starts at the root.
pub open spec fn is_absolute(p: Seq<Seq<u8>>) -> bool {
    p.len() > 0 && p[0] == root_comp()
}

/// Whether the path `base` is a prefix, component by component, of the path `p`.
pub open spec fn starts_with(p: Seq<Seq<u8>>, base: Seq<Seq<u8>>) -> bool {
    base.len() <= p.len() && p.subrange(0, base.len() as int) == base
}

/// `t` without a leading `.`.
pub open spec fn drop_cur(t: Seq<Seq<u8>>) -> Seq<Seq<u8>> {
    if t.len() > 0 && t[0] == cur_comp() {
        t.drop_first()
    } else {
        t
    }
}

/// The path `tail` adjoined to `base`: an absolute `tail` replaces `base`, as does any `tail`
/// when `base` is empty; otherwise the components of `tail` follow those of `base`.
pub open spec fn join(base: Seq<Seq<u8>>, tail: Seq<Seq<u8>>) -> Seq<Seq<u8>> {
    if is_absolute(tail) || base.len() == 0 {
        tail
    } else {
        base + drop_cur(tail)
    }
}

/// The components `comps` written out with one separator between each two.
pub open spec fn join_with_slashes(comps: Seq<Seq<u8>>) -> Seq<u8>
    decreases comps.len(),
{
    if comps.len() == 0 {
        seq![]
    } else if comps.len() == 1 {
        comps[0]
    } else {
        join_with_slashes(comps.drop_last()) + seq![SLASH] + comps.last()
    }
}

/// The bytes the path `p` is written with: its root, then its other components separated by
/// single slashes.
pub open spec fn render(p: Seq<Seq<u8>>) -> Seq<u8> {
    if is_absolute(p) {
        seq![SLASH] + join_with_slashes(p.drop_first())
    } else {
        join_with_slashes(p)
    }
}

/// Whether `c` can stand between two separators: it is not empty and holds no separator.
pub open spec fn is_plain(c: Seq<u8>) -> bool {
    c.len() > 0 && !c.contains(SLASH)
}

/// Whether `p` is a component sequence that some bytes have: the root, if there, comes first;
/// every other component is plain; and `.` can only be the first component of a relative path.
pub open spec fn well_formed(p: Seq<Seq<u8>>) -> bool {
    forall|i: int|
        0 <= i < p.len() ==> (i == 0 && #[trigger] p[i] == root_comp()) || (is_plain(p[i]) && (p[i]
            == cur_comp() ==> i == 0))
}

proof fn lemma_scan_plain(x: Seq<u8>, w: Seq<u8>)
    requires
        !w.contains(SLASH),
    ensures
        scan(x + w) == (scan(x).0, scan(x).1 + w),
    decreases w.len(),
{
    if w.len() == 0 {
        assert(x + w =~= x);
        assert(scan(x).1 + w =~= scan(x).1);
    } else {
        let v = w.drop_last();
        let c = w.last();
        assert(!v.contains(SLASH)) by {
            if v.contains(SLASH) {
                let i = choose|i: int| 0 <= i < v.len() && v[i] == SLASH;
                assert(w[i] == SLASH);
            }
        }
        assert(c != SLASH) by {
            assert(w[w.len() - 1] == c);
        }
        lemma_scan_plain(x, v);
        assert((x + w).drop_last() =~= x + v);
        assert((x + w).last() == c);
        assert(scan(x).1 + w =~= (scan(x).1 + v).push(c));
    }
}

proof fn lemma_contains_concat(a: Seq<u8>, b: Seq<u8>, x: u8)
    ensures
        (a + b).contains(x) == (a.contains(x) || b.contains(x)),
{
    if a.contains(x) {
        let i = choose|i: int| 0 <= i < a.len() && a[i] == x;
        assert((a + b)[i] == x);
    }
    if b.contains(x) {
        let i = choose|i: int| 0 <= i < b.len() && b[i] == x;
        assert((a + b)[a.len() + i] == x);
    }
    if (a + b).contains(x) {
        let i = choose|i: int| 0 <= i < (a + b).len() && (a + b)[i] == x;
        if i < a.len() {
            assert(a[i] == x);
        } else {
            assert(b[i - a.len()] == x);
        }
    }
}

/// Scanning `x` followed by the components `q.take(k)` written with separators between them:
/// all but the last are closed, the last is open.
proof fn lemma_scan_join(x: Seq<u8>, base: Seq<Seq<u8>>, q: Seq<Seq<u8>>, k: int)
    requires
        scan(x) == (base, Seq::<u8>::empty()),
        x.len() == 0 || x.contains(SLASH),
        1 <= k <= q.len(),
        forall|i: int| 0 <= i < q.len() ==> is_plain(#[trigger] q[i]),
        forall|i: int| 0 <= i < q.len() && (i > 0 || x.len() > 0) ==> #[trigger] q[i] != cur_comp(),
    ensures
        scan(x + join_with_slashes(q.take(k))) == (base + q.take(k - 1), q[k - 1]),
        (x + join_with_slashes(q.take(k))).contains(SLASH) == (x.len() > 0 || k >= 2),
    decreases k,
{
    let j = join_with_slashes(q.take(k));
    if k == 1 {
        assert(j == q.take(1)[0]);
        assert(q.take(1)[0] == q[0]);
        lemma_scan_plain(x, q[0]);
        assert(base + q.take(0) =~= base);
        assert(seq![] + q[0] =~= q[0]);
        lemma_contains_concat(x, q[0], SLASH);
    } else {
        lemma_scan_join(x, base, q, k - 1);
        let prev = x + join_with_slashes(q.take(k - 1));
        assert(q.take(k).drop_last() =~= q.take(k - 1));
        assert(q.take(k).last() == q[k - 1]);
        assert(j == join_with_slashes(q.take(k - 1)) + seq![SLASH] + q[k - 1]);
        assert(x + j =~= prev.push(SLASH) + q[k - 1]);
        // Closing the segment before the separator keeps it.
        assert(prev.push(SLASH).drop_last() =~= prev);
        assert(prev.push(SLASH).last() == SLASH);
        let closed = close_segment(base + q.take(k - 2), q[k - 2], prev);
        assert(closed =~= base + q.take(k - 1)) by {
            assert(keeps_segment(q[k - 2], !prev.contains(SLASH)));
            assert(q.take(k - 1) =~= q.take(k - 2).push(q[k - 2]));
        }
        assert(scan(prev.push(SLASH)) == (base + q.take(k - 1), Seq::<u8>::empty()));
        lemma_scan_plain(prev.push(SLASH), q[k - 1]);
        assert(Seq::<u8>::empty() + q[k - 1] =~= q[k - 1]);
        lemma_contains_concat(prev, seq![SLASH], SLASH);
        assert(seq![SLASH].contains(SLASH)) by {
            assert(seq![SLASH][0] == SLASH);
        }
        assert(prev + seq![SLASH] =~= prev.push(SLASH));
        lemma_contains_concat(prev.push(SLASH), q[k - 1], SLASH);
    }
}

/// A well-formed path, written out and read back, has the same components: the bytes a path
/// is handed on as name the path itself.
pub proof fn render_then_read_is_identity(p: Seq<Seq<u8>>)
    requires
        well_formed(p),
    ensures
        components(render(p)) == p,
{
    if is_absolute(p) {
        let q = p.drop_first();
        let x = seq![SLASH];
        assert(scan(x) == (seq![root_comp()], Seq::<u8>::empty())) by {
            assert(x.drop_last() =~= Seq::<u8>::empty());
        }
        assert(x.contains(SLASH)) by {
            assert(x[0] == SLASH);
        }
        if q.len() == 0 {
            assert(join_with_slashes(q) =~= Seq::<u8>::empty());
            assert(render(p) =~= x);
            assert(p =~= seq![root_comp()]);
        } else {
            assert forall|i: int| 0 <= i < q.len() implies is_plain(#[trigger] q[i]) && q[i]
                != cur_comp() by {
                assert(q[i] == p[i + 1]);
                if p[i + 1] == root_comp() {
                    assert(root_comp()[0] == SLASH);
                }
            }
            lemma_scan_join(x, seq![root_comp()], q, q.len() as int);
            assert(q.take(q.len() as int) =~= q);
            let b = x + join_with_slashes(q);
            assert(render(p) == b);
            assert(keeps_segment(q[q.len() - 1], !b.contains(SLASH)));
            assert(q.take(q.len() - 1).push(q[q.len() - 1]) =~= q);
            assert(seq![root_comp()] + q =~= p);
        }
    } else {
        let x = Seq::<u8>::empty();
        if p.len() == 0 {
            assert(render(p) =~= x);
        } else {
            assert forall|i: int| 0 <= i < p.len() implies is_plain(#[trigger] p[i]) && (i > 0
                ==> p[i] != cur_comp()) by {
                if i == 0 {
                    assert(p[0] != root_comp());
                }
            }
            lemma_scan_join(x, seq![], p, p.len() as int);
            assert(p.take(p.len() as int) =~= p);
            assert(x + join_with_slashes(p) =~= join_with_slashes(p));
            assert(keeps_segment(p[p.len() - 1], !join_with_slashes(p).contains(SLASH)));
            assert(seq![] + p.take(p.len() - 1) =~= p.take(p.len() - 1));
            assert(p.take(p.len() - 1).push(p[p.len() - 1]) =~= p);
        }
    }
}

proof fn lemma_close_well_formed(comps: Seq<Seq<u8>>, seg: Seq<u8>, before: Seq<u8>)
    requires
        well_formed(comps),
        !seg.contains(SLASH),
        !before.contains(SLASH) ==> comps.len() == 0,
    ensures
        well_formed(close_segment(comps, seg, before)),
{
    if keeps_segment(seg, !before.contains(SLASH)) {
        let r = comps.push(seg);
        assert forall|i: int| 0 <= i < r.len() implies (i == 0 && #[trigger] r[i] == root_comp())
            || (is_plain(r[i]) && (r[i] == cur_comp() ==> i == 0)) by {
            if i < comps.len() {
                assert(r[i] == comps[i]);
            }
        }
    }
}

proof fn lemma_scan_well_formed(b: Seq<u8>)
    ensures
        well_formed(scan(b).0),
        !scan(b).1.contains(SLASH),
        !b.contains(SLASH) ==> scan(b).0.len() == 0,
    decreases b.len(),
{
    if b.len() > 0 {
        let prev = b.drop_last();
        let c = b.last();
        lemma_scan_well_formed(prev);
        lemma_contains_push(prev, c, SLASH);
        assert(prev.push(c) =~= b);
        let (comps, seg) = scan(prev);
        if c == SLASH {
            if b.len() == 1 {
                let r = seq![root_comp()];
                assert(forall|i: int| 0 <= i < r.len() ==> i == 0 && #[trigger] r[i] == root_comp());
            } else {
                lemma_close_well_formed(comps, seg, prev);
            }
            assert(!Seq::<u8>::empty().contains(SLASH));
        } else {
            lemma_contains_push(seg, c, SLASH);
        }
    }
}

/// The components that any bytes are read as are well formed, so that writing them out and
/// reading them back gives them again.
pub proof fn components_are_well_formed(b: Seq<u8>)
    ensures
        well_formed(components(b)),
        components(render(components(b))) == components(b),
{
    lemma_scan_well_formed(b);
    lemma_close_well_formed(scan(b).0, scan(b).1, b);
    render_then_read_is_identity(components(b));
}

/// A path, as its components.
#[derive(Debug, Clone, PartialEq, Eq)]
pub struct NativePath {
    comps: Vec<Vec<u8>>,
}

impl View for NativePath {
    type V = Seq<Seq<u8>>;

    closed spec fn view(&self) -> Seq<Seq<u8>> {
        views(self.comps@)
    }
}

/// The byte sequences that the vectors of `v` hold.
pub open spec fn views(v: Seq<Vec<u8>>) -> Seq<Seq<u8>> {
    v.map_values(|x: Vec<u8>| x@)
}

proof fn lemma_contains_push(s: Seq<u8>, c: u8, x: u8)
    ensures
        s.push(c).contains(x) == (s.contains(x) || c == x),
{
    if s.contains(x) {
        let i = choose|i: int| 0 <= i < s.len() && s[i] == x;
        assert(s.push(c)[i] == x);
    }
    if c == x {
        assert(s.push(c)[s.len() as int] == x);
    }
    if s.push(c).contains(x) {
        let i = choose|i: int| 0 <= i < s.push(c).len() && s.push(c)[i] == x;
        if i < s.len() {
            assert(s[i] == x);
        }
    }
}

proof fn lemma_scan_step(before: Seq<u8>, c: u8)
    ensures
        scan(before.push(c)) == if c == SLASH {
            if before.len() == 0 {
                (seq![root_comp()], Seq::<u8>::empty())
            } else {
                (close_segment(scan(before).0, scan(before).1, before), Seq::<u8>::empty())
            }
        } else {
            (scan(before).0, scan(before).1.push(c))
        },
{
    assert(before.push(c).drop_last() =~= before);
    assert(before.push(c).last() == c);
}

/// Whether the segment `seg` becomes a component, given whether a separator came before it.
fn keeps(seg: &Vec<u8>, seen_slash: bool) -> (r: bool)
    ensures
        r == keeps_segment(seg@, !seen_slash),
{
    let dot = seg.len() == 1 && seg[0] == DOT;
    assert(dot == (seg@ == cur_comp())) by {
        if seg@ == cur_comp() {
            assert(seg@[0] == DOT);
        }
        if dot {
            assert(seg@ =~= cur_comp());
        }
    }
    seg.len() > 0 && (!dot || !seen_slash)
}

/// A copy of `b`.
pub fn copy_bytes(b: &[u8]) -> (r: Vec<u8>)
    ensures
        r@ == b@,
{
    vstd::slice::slice_to_vec(b)
}

/// Whether `a` and `b` hold the same bytes.
pub fn same_bytes(a: &[u8], b: &[u8]) -> (r: bool)
    ensures
        r == (a@ == b@),
{
    if a.len() != b.len() {
        return false;
    }
    let mut i: usize = 0;
    while i < a.len()
        invariant
            a@.len() == b@.len(),
            i <= a@.len(),
            forall|j: int| 0 <= j < i ==> a@[j] == b@[j],
        decreases a@.len() - i,
    {
        if a[i] != b[i] {
            return false;
        }
        i = i + 1;
    }
    assert(a@ =~= b@);
    true
}

impl NativePath {
    /// The path whose bytes are `bytes`.
    pub fn from_bytes(bytes: &[u8]) -> (p: NativePath)
        ensures
            p@ == components(bytes@),
    {
        let mut comps: Vec<Vec<u8>> = Vec::new();
        let mut seg: Vec<u8> = Vec::new();
        let mut seen_slash = false;
        let mut i: usize = 0;
        assert(bytes@.take(0) =~= seq![]);
        while i < bytes.len()
            invariant
                i <= bytes@.len(),
                (views(comps@), seg@) == scan(bytes@.take(i as int)),
                seen_slash == bytes@.take(i as int).contains(SLASH),
            decreases bytes@.len() - i,
        {
            let c = bytes[i];
            let ghost before = bytes@.take(i as int);
            proof {
                lemma_contains_push(before, c, SLASH);
                assert(bytes@.take(i + 1) =~= before.push(c));
                lemma_scan_step(before, c);
            }
            if c == SLASH {
                if i == 0 {
                    let root = vec![SLASH];
                    assert(root@ =~= root_comp());
                    comps.push(root);
                    assert(views(comps@) =~= seq![root_comp()]);
                } else {
                    let ghost old_comps = views(comps@);
                    if keeps(&seg, seen_slash) {
                        comps.push(seg);
                        assert(views(comps@) =~= old_comps.push(scan(before).1));
                    }
                }
                seg = Vec::new();
                seen_slash = true;
            } else {
                seg.push(c);
            }
            i = i + 1;
        }
        assert(bytes@.take(bytes@.len() as int) =~= bytes@);
        let ghost old_comps = views(comps@);
        if keeps(&seg, seen_slash) {
            comps.push(seg);
            assert(views(comps@) =~= old_comps.push(scan(bytes@).1));
        }
        NativePath { comps }
    }

    /// The path of `comps`, given as a whole.
    pub(crate) fn of(comps: Vec<Vec<u8>>) -> (p: NativePath)
        ensures
            p@ == views(comps@),
    {
        NativePath { comps }
    }

    /// A copy of this path.
    pub fn duplicate(&self) -> (p: NativePath)
        ensures
            p@ == self@,
    {
        NativePath { comps: copy_range(&self.comps, 0) }
    }

    /// Whether this path starts at the root.
    pub fn is_absolute(&self) -> (r: bool)
        ensures
            r == is_absolute(self@),
    {
        self.comps.len() > 0 && self.comps[0].len() == 1 && self.comps[0][0] == SLASH
            && {
            assert(self.comps@[0]@ =~= root_comp());
            true
        }
    }

    /// Whether `base` is a prefix of this path, component by component.
    pub fn starts_with(&self, base: &NativePath) -> (r: bool)
        ensures
            r == starts_with(self@, base@),
    {
        if base.comps.len() > self.comps.len() {
            return false;
        }
        let mut i: usize = 0;
        while i < base.comps.len()
            invariant
                base.comps@.len() <= self.comps@.len(),
                i <= base.comps@.len(),
                forall|j: int| 0 <= j < i ==> self.comps@[j]@ == base.comps@[j]@,
            decreases base.comps@.len() - i,
        {
            if !same_bytes(self.comps[i].as_slice(), base.comps[i].as_slice()) {
                assert(self@.subrange(0, base@.len() as int)[i as int] != base@[i as int]);
                return false;
            }
            i = i + 1;
        }
        assert(self@.subrange(0, base@.len() as int) =~= base@);
        true
    }

    /// Whether this path and `other` have the same components.
    pub fn same(&self, other: &NativePath) -> (r: bool)
        ensures
            r == (self@ == other@),
    {
        if self.comps.len() != other.comps.len() {
            assert(self@.len() != other@.len());
            return false;
        }
        let r = self.starts_with(other);
        assert(self@ == other@ ==> r) by {
            if self@ == other@ {
                assert(self@.subrange(0, other@.len() as int) =~= other@);
            }
        }
        assert(r ==> self@ =~= other@) by {
            if r {
                assert(self@.subrange(0, other@.len() as int) =~= self@);
            }
        }
        r
    }

    /// This path with `base` taken off its start, if it starts with `base`.
    pub fn strip_prefix(&self, base: &NativePath) -> (r: Option<NativePath>)
        ensures
            r is Some <==> starts_with(self@, base@),
            r matches Some(t) ==> t@ == self@.skip(base@.len() as int),
    {
        if self.starts_with(base) {
            let rest = copy_range(&self.comps, base.comps.len());
            Some(NativePath::of(rest))
        } else {
            None
        }
    }

    /// The path `tail` adjoined to this one.
    pub fn join(&self, tail: &NativePath) -> (r: NativePath)
        ensures
            r@ == join(self@, tail@),
    {
        if tail.is_absolute() || self.comps.len() == 0 {
            return tail.duplicate();
        }
        let mut comps = copy_range(&self.comps, 0);
        let mut i: usize = 0;
        if tail.comps.len() > 0 && tail.comps[0].len() == 1 && tail.comps[0][0] == DOT {
            assert(tail.comps@[0]@ =~= cur_comp());
            i = 1;
        } else {
            assert(tail@.len() > 0 && tail@[0] == cur_comp() ==> tail.comps@[0]@.len() == 1
                && tail.comps@[0]@[0] == DOT);
        }
        let ghost start = i;
        assert(drop_cur(tail@) =~= tail@.skip(start as int));
        while i < tail.comps.len()
            invariant
                start <= i <= tail.comps@.len(),
                views(comps@) =~= self@ + tail@.subrange(start as int, i as int),
            decreases tail.comps@.len() - i,
        {
            let part = copy_bytes(tail.comps[i].as_slice());
            let ghost old_comps = comps@;
            comps.push(part);
            assert(views(comps@) =~= views(old_comps).push(tail.comps@[i as int]@));
            i = i + 1;
        }
        assert(tail@.subrange(start as int, tail@.len() as int) =~= tail@.skip(start as int));
        NativePath::of(comps)
    }

    /// The bytes this path is written with.
    pub fn to_bytes(&self) -> (b: Vec<u8>)
        ensures
            b@ == render(self@),
    {
        let mut out: Vec<u8> = Vec::new();
        let mut i: usize = 0;
        if self.is_absolute() {
            out.push(SLASH);
            i = 1;
        }
        let start = i;
        let ghost rest = self@.skip(start as int);
        while i < self.comps.len()
            invariant
                start <= i <= self.comps@.len(),
                rest == self@.skip(start as int),
                out@ =~= (if start == 1 { seq![SLASH] } else { seq![] }) + join_with_slashes(
                    rest.take(i - start),
                ),
            decreases self.comps@.len() - i,
        {
            let ghost prev = rest.take(i - start);
            assert(rest.take(i - start + 1).drop_last() =~= prev);
            assert(rest.take(i - start + 1).last() == self.comps@[i as int]@);
            proof {
                lemma_join_take(rest, (i - start) as int);
            }
            if i > start {
                out.push(SLASH);
            }
            let part = self.comps[i].as_slice();
            let mut j: usize = 0;
            let ghost before = out@;
            while j < part.len()
                invariant
                    j <= part@.len(),
                    out@ =~= before + part@.take(j as int),
                decreases part@.len() - j,
            {
                out.push(part[j]);
                j = j + 1;
            }
            assert(part@.take(part@.len() as int) =~= part@);
            i = i + 1;
        }
        assert(rest.take(self@.len() - start) =~= rest);
        assert(self@.skip(0) =~= self@);
        assert(self@.skip(1) =~= self@.drop_first());
        out
    }
}

proof fn lemma_join_take(s: Seq<Seq<u8>>, k: int)
    requires
        0 <= k < s.len(),
    ensures
        join_with_slashes(s.take(k + 1)) == join_with_slashes(s.take(k)) + (if k > 0 {
            seq![SLASH]
        } else {
            seq![]
        }) + s[k],
{
    let t = s.take(k + 1);
    assert(t.drop_last() =~= s.take(k));
    if k == 0 {
        assert(join_with_slashes(s.take(0)) =~= seq![]);
        assert(join_with_slashes(t) == t[0]);
        assert(seq![] + seq![] + s[0] =~= s[0]);
    }
}

/// Copies of the vectors of `v` from index `from` on.
fn copy_range(v: &Vec<Vec<u8>>, from: usize) -> (r: Vec<Vec<u8>>)
    requires
        from <= v@.len(),
    ensures
        views(r@) == views(v@).skip(from as int),
{
    let mut r: Vec<Vec<u8>> = Vec::new();
    let mut i = from;
    while i < v.len()
        invariant
            from <= i <= v@.len(),
            views(r@) =~= views(v@).subrange(from as int, i as int),
        decreases v@.len() - i,
    {
        let ghost old_r = r@;
        r.push(copy_bytes(v[i].as_slice()));
        assert(views(r@) =~= views(old_r).push(v@[i as int]@));
        i = i + 1;
    }
    assert(views(v@).subrange(from as int, v@.len() as int) =~= views(v@).skip(from as int));
    r
}

} // verus!
