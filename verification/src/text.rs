//! Text: lines, pattern search, and the few `std` string conversions the
//! library needs.
use vstd::prelude::*;

verus! {

/// The lines read so far from `s`, and the line still open at its end. A line ends at a `\n`,
/// which is not part of it, and a `\r` just before that `\n` is dropped too.
pub open spec fn line_fold(s: Seq<char>) -> (Seq<Seq<char>>, Seq<char>)
    decreases s.len(),
{
    if s.len() == 0 {
        (seq![], seq![])
    } else {
        let (done, open) = line_fold(s.drop_last());
        if s.last() == '\n' {
            (done.push(strip_cr(open)), seq![])
        } else {
            (done, open.push(s.last()))
        }
    }
}

/// `l` without a final `\r`.
pub open spec fn strip_cr(l: Seq<char>) -> Seq<char> {
    if l.len() > 0 && l.last() == '\r' {
        l.drop_last()
    } else {
        l
    }
}

/// The lines of `s`, as `str::lines` yields them: the text between line endings, where a line
/// ending is `\n` or `\r\n`; a final line ending does not start another line, and a final line
/// without one is kept as it is.
pub open spec fn lines(s: Seq<char>) -> Seq<Seq<char>> {
    let (done, open) = line_fold(s);
    if open.len() > 0 {
        done.push(open)
    } else {
        done
    }
}

/// Whether `pat` occurs in `s` at index `i`.
pub open spec fn matches_at(s: Seq<char>, pat: Seq<char>, i: int) -> bool {
    0 <= i && i + pat.len() <= s.len() && s.subrange(i, i + pat.len()) == pat
}

/// The first index at or after `i` where `pat` occurs in `s`.
pub open spec fn first_match_from(s: Seq<char>, pat: Seq<char>, i: int) -> Option<int>
    decreases s.len() + 1 - i,
{
    if i < 0 || i + pat.len() > s.len() {
        None
    } else if matches_at(s, pat, i) {
        Some(i)
    } else {
        first_match_from(s, pat, i + 1)
    }
}

/// The first index where `pat` occurs in `s`.
pub open spec fn first_match(s: Seq<char>, pat: Seq<char>) -> Option<int> {
    first_match_from(s, pat, 0)
}

/// The last index at or before `i` where `pat` occurs in `s`.
pub open spec fn last_match_upto(s: Seq<char>, pat: Seq<char>, i: int) -> Option<int>
    decreases i + 1,
{
    if i < 0 {
        None
    } else if matches_at(s, pat, i) {
        Some(i)
    } else {
        last_match_upto(s, pat, i - 1)
    }
}

/// The last index where `pat` occurs in `s`.
pub open spec fn last_match(s: Seq<char>, pat: Seq<char>) -> Option<int> {
    last_match_upto(s, pat, s.len() - pat.len())
}

/// The characters of `s`.
pub fn chars_of(s: &str) -> (r: Vec<char>)
    ensures
        r@ == s@,
{
    let mut r: Vec<char> = Vec::new();
    for c in it: s.chars()
        invariant
            it.seq() == s@,
            r@ == it.seq().take(it.index() as int),
    {
        r.push(c);
    }
    r
}

/// Whether `pat` occurs in `s` at index `i`.
pub fn matches_at_exec(s: &Vec<char>, pat: &Vec<char>, i: usize) -> (r: bool)
    ensures
        r == matches_at(s@, pat@, i as int),
{
    if pat.len() > s.len() || i > s.len() - pat.len() {
        return false;
    }
    let mut j: usize = 0;
    while j < pat.len()
        invariant
            i + pat@.len() <= s@.len(),
            s@.len() <= usize::MAX,
            j <= pat@.len(),
            forall|k: int| 0 <= k < j ==> s@[i + k] == pat@[k],
        decreases pat@.len() - j,
    {
        if s[i + j] != pat[j] {
            assert(s@.subrange(i as int, i + pat@.len())[j as int] != pat@[j as int]);
            return false;
        }
        j = j + 1;
    }
    assert(s@.subrange(i as int, i + pat@.len()) =~= pat@);
    true
}

/// The first index where `pat` occurs in `s`.
pub fn find_first(s: &Vec<char>, pat: &Vec<char>) -> (r: Option<usize>)
    ensures
        r matches Some(i) ==> first_match(s@, pat@) == Some(i as int) && matches_at(
            s@,
            pat@,
            i as int,
        ),
        r is None ==> first_match(s@, pat@) is None,
{
    if pat.len() > s.len() {
        return None;
    }
    let last = s.len() - pat.len();
    let mut i: usize = 0;
    while i <= last
        invariant
            last + pat@.len() == s@.len(),
            i <= last + 1,
            first_match(s@, pat@) == first_match_from(s@, pat@, i as int),
        decreases last + 1 - i,
    {
        if matches_at_exec(s, pat, i) {
            return Some(i);
        }
        if i == last {
            assert(first_match_from(s@, pat@, i + 1) is None);
            return None;
        }
        i = i + 1;
    }
    None
}

/// The last index where `pat` occurs in `s`.
pub fn find_last(s: &Vec<char>, pat: &Vec<char>) -> (r: Option<usize>)
    ensures
        r matches Some(i) ==> last_match(s@, pat@) == Some(i as int) && matches_at(
            s@,
            pat@,
            i as int,
        ),
        r is None ==> last_match(s@, pat@) is None,
{
    if pat.len() > s.len() {
        return None;
    }
    let mut i: usize = s.len() - pat.len();
    loop
        invariant
            i + pat@.len() <= s@.len(),
            last_match(s@, pat@) == last_match_upto(s@, pat@, i as int),
        decreases i,
    {
        if matches_at_exec(s, pat, i) {
            return Some(i);
        }
        if i == 0 {
            assert(last_match_upto(s@, pat@, -1) is None);
            return None;
        }
        i = i - 1;
    }
}

/// The text of `s` from character `from` to character `to`.
pub fn substring(s: &str, from: usize, to: usize) -> (r: String)
    requires
        from <= to <= s@.len(),
    ensures
        r@ == s@.subrange(from as int, to as int),
{
    s.substring_char(from, to).to_owned()
}

/// The lines of `text`.
pub fn lines_of(text: &str) -> (r: Vec<String>)
    ensures
        r@.map_values(|l: String| l@) == lines(text@),
{
    let chars = chars_of(text);
    let mut done: Vec<String> = Vec::new();
    let mut start: usize = 0;
    let mut i: usize = 0;
    while i < chars.len()
        invariant
            chars@ == text@,
            start <= i <= chars@.len(),
            line_fold(text@.take(i as int)) == (
                done@.map_values(|l: String| l@),
                text@.subrange(start as int, i as int),
            ),
        decreases chars@.len() - i,
    {
        let ghost prefix = text@.take(i as int);
        assert(text@.take(i + 1).drop_last() =~= prefix);
        assert(text@.take(i + 1).last() == chars@[i as int]);
        if chars[i] == '\n' {
            let ghost open = text@.subrange(start as int, i as int);
            let end = if i > start && chars[i - 1] == '\r' {
                i - 1
            } else {
                i
            };
            assert(strip_cr(open) =~= text@.subrange(start as int, end as int));
            let line = substring(text, start, end);
            let ghost old_done = done@;
            done.push(line);
            assert(done@.map_values(|l: String| l@) =~= old_done.map_values(|l: String| l@).push(
                strip_cr(open),
            ));
            start = i + 1;
            assert(text@.subrange(start as int, i + 1) =~= seq![]);
        } else {
            assert(text@.subrange(start as int, i + 1) =~= text@.subrange(
                start as int,
                i as int,
            ).push(chars@[i as int]));
        }
        i = i + 1;
    }
    assert(text@.take(chars@.len() as int) =~= text@);
    if start < chars.len() {
        let line = substring(text, start, chars.len());
        let ghost old_done = done@;
        done.push(line);
        assert(done@.map_values(|l: String| l@) =~= old_done.map_values(|l: String| l@).push(
            text@.subrange(start as int, chars@.len() as int),
        ));
    }
    done
}

/// Whether `c` has the Unicode `White_Space` property, which `char::is_whitespace` tests and
/// `str::trim` removes.
pub open spec fn is_white_space(c: char) -> bool {
    ||| ('\u{9}' <= c && c <= '\u{d}')
    ||| c == ' '
    ||| c == '\u{85}'
    ||| c == '\u{a0}'
    ||| c == '\u{1680}'
    ||| ('\u{2000}' <= c && c <= '\u{200a}')
    ||| c == '\u{2028}'
    ||| c == '\u{2029}'
    ||| c == '\u{202f}'
    ||| c == '\u{205f}'
    ||| c == '\u{3000}'
}

/// `s` without its leading white space.
pub open spec fn trim_start(s: Seq<char>) -> Seq<char>
    decreases s.len(),
{
    if s.len() > 0 && is_white_space(s[0]) {
        trim_start(s.drop_first())
    } else {
        s
    }
}

/// `s` without its trailing white space.
pub open spec fn trim_end(s: Seq<char>) -> Seq<char>
    decreases s.len(),
{
    if s.len() > 0 && is_white_space(s.last()) {
        trim_end(s.drop_last())
    } else {
        s
    }
}

/// `s` without its leading and trailing white space, as `str::trim` leaves it.
pub open spec fn trimmed(s: Seq<char>) -> Seq<char> {
    trim_end(trim_start(s))
}

/// Whether `c` is white space.
pub fn white_space(c: char) -> (r: bool)
    ensures
        r == is_white_space(c),
{
    ('\u{9}' <= c && c <= '\u{d}') || c == ' ' || c == '\u{85}' || c == '\u{a0}' || c
        == '\u{1680}' || ('\u{2000}' <= c && c <= '\u{200a}') || c == '\u{2028}' || c
        == '\u{2029}' || c == '\u{202f}' || c == '\u{205f}' || c == '\u{3000}'
}

/// `s` without its leading and trailing white space.
pub fn trim(s: &str) -> (r: String)
    ensures
        r@ == trimmed(s@),
{
    let chars = chars_of(s);
    let n = chars.len();
    let mut i: usize = 0;
    assert(s@.skip(0) =~= s@);
    while i < n && white_space(chars[i])
        invariant
            chars@ == s@,
            n == s@.len(),
            i <= n,
            trim_start(s@) == trim_start(s@.skip(i as int)),
        decreases n - i,
    {
        assert(s@.skip(i as int).drop_first() =~= s@.skip(i + 1));
        i = i + 1;
    }
    if i == n {
        assert(s@.skip(i as int) =~= Seq::<char>::empty());
    }
    let mut j: usize = n;
    assert(s@.subrange(i as int, n as int) =~= s@.skip(i as int));
    while j > i && white_space(chars[j - 1])
        invariant
            chars@ == s@,
            n == s@.len(),
            i <= j <= n,
            trim_start(s@) == s@.skip(i as int),
            trimmed(s@) == trim_end(s@.subrange(i as int, j as int)),
        decreases j,
    {
        assert(s@.subrange(i as int, j as int).drop_last() =~= s@.subrange(i as int, j - 1));
        j = j - 1;
    }
    if j == i {
        assert(s@.subrange(i as int, j as int) =~= Seq::<char>::empty());
    }
    substring(s, i, j)
}

/// What `String::from_utf8_lossy` makes of `bytes`: `bytes` decoded as UTF-8, each invalid
/// sequence replaced by U+FFFD.
pub uninterp spec fn utf8_lossy(bytes: Seq<u8>) -> Seq<char>;

/// Calls `String::from_utf8_lossy`. Its documentation promises that valid UTF-8 is decoded as
/// it is; what an invalid sequence turns into is left to the name.
#[verifier::external_body]
pub fn lossy_text(bytes: &[u8]) -> (r: String)
    ensures
        r@ == utf8_lossy(bytes@),
        vstd::utf8::valid_utf8(bytes@) ==> r@ == vstd::utf8::decode_utf8(bytes@),
{
    String::from_utf8_lossy(bytes).into_owned()
}

/// What `str::to_lowercase` makes of `s`: each character replaced by its lowercase mapping under
/// the Unicode `Lowercase` property. The Unicode tables are not written out here.
pub uninterp spec fn lowercase(s: Seq<char>) -> Seq<char>;

/// Calls `str::to_lowercase`.
#[verifier::external_body]
pub fn to_lowercase(s: &str) -> (r: String)
    ensures
        r@ == lowercase(s@),
{
    s.to_lowercase()
}

proof fn lemma_fold_plain(s: Seq<char>)
    requires
        !s.contains('\n'),
    ensures
        line_fold(s) == (Seq::<Seq<char>>::empty(), s),
    decreases s.len(),
{
    if s.len() > 0 {
        assert(!s.drop_last().contains('\n')) by {
            if s.drop_last().contains('\n') {
                let i = choose|i: int| 0 <= i < s.drop_last().len() && s.drop_last()[i] == '\n';
                assert(s[i] == '\n');
            }
        }
        assert(s.last() != '\n') by {
            if s.last() == '\n' {
                assert(s[s.len() - 1] == '\n');
            }
        }
        lemma_fold_plain(s.drop_last());
        assert(s.drop_last().push(s.last()) =~= s);
    }
}

proof fn lemma_fold_concat(x: Seq<char>, y: Seq<char>)
    requires
        line_fold(x).1.len() == 0,
    ensures
        line_fold(x + y) == (line_fold(x).0 + line_fold(y).0, line_fold(y).1),
    decreases y.len(),
{
    if y.len() == 0 {
        assert(x + y =~= x);
        assert(line_fold(x).0 + Seq::<Seq<char>>::empty() =~= line_fold(x).0);
        assert(line_fold(x).1 =~= Seq::<char>::empty());
    } else {
        let v = y.drop_last();
        lemma_fold_concat(x, v);
        assert((x + y).drop_last() =~= x + v);
        assert((x + y).last() == y.last());
        let (d, o) = line_fold(v);
        if y.last() == '\n' {
            assert(line_fold(x).0 + d.push(strip_cr(o)) =~= (line_fold(x).0 + d).push(strip_cr(o)));
        }
    }
}

/// Text without a line ending is one line, when it is not empty, and no line when it is.
pub proof fn text_without_newline_is_one_line(s: Seq<char>)
    requires
        !s.contains('\n'),
    ensures
        s.len() > 0 ==> lines(s) == seq![s],
        s.len() == 0 ==> lines(s).len() == 0,
{
    lemma_fold_plain(s);
}

/// A line ended by `\n` is one line, without the `\n` and without a `\r` just before it.
pub proof fn terminated_text_is_one_line(s: Seq<char>)
    requires
        !s.contains('\n'),
    ensures
        lines(s.push('\n')) == seq![
            if s.len() > 0 && s.last() == '\r' {
                s.drop_last()
            } else {
                s
            },
        ],
{
    lemma_fold_plain(s);
    assert(s.push('\n').drop_last() =~= s);
}

/// Lines split at every line ending: the lines of text that continues after a `\n` are the lines
/// up to that `\n` followed by the lines of the rest, so no line is lost or merged, the last one
/// included when it has no line ending.
pub proof fn lines_split_at_newline(a: Seq<char>, b: Seq<char>)
    ensures
        lines(a.push('\n') + b) == lines(a.push('\n')) + lines(b),
{
    let x = a.push('\n');
    assert(x.drop_last() =~= a);
    assert(line_fold(x).1.len() == 0);
    lemma_fold_concat(x, b);
    let (d, o) = line_fold(b);
    assert(lines(x) == line_fold(x).0);
    if o.len() > 0 {
        assert((line_fold(x).0 + d).push(o) =~= line_fold(x).0 + d.push(o));
    }
}

} // verus!
