//! Line grammars of the announcements and commands. Each extractor matches
//! one exact shape and returns nothing on any other input; every captured
//! field comes back with its surrounding whitespace trimmed.

use vstd::prelude::*;
use vstd::string::*;
use crate::text::{is_ws, is_whitespace, trim, trim_bounds};

verus! {

/// The separator between the fields of an announcement line.
pub const BULLET: char = '\u{2022}';

/// The marker that a series lookup shows beside an item the user owns.
pub const HAS_ITEM_MARK: &'static str = "\u{2611}\u{FE0F}";

/// `s` cut at every `sep`, as `str::split` does: one more piece than there
/// are separators, empty pieces kept.
pub open spec fn split(s: Seq<char>, sep: char) -> Seq<Seq<char>>
    decreases s.len(),
{
    if s.len() == 0 {
        seq![Seq::empty()]
    } else {
        let f = split(s.drop_last(), sep);
        if s.last() == sep {
            f.push(Seq::empty())
        } else {
            f.update(f.len() - 1, f.last().push(s.last()))
        }
    }
}

/// Whether `lit` stands in `s` from index `i` on.
pub open spec fn occurs_at(s: Seq<char>, i: int, lit: Seq<char>) -> bool {
    0 <= i && i + lit.len() <= s.len() && s.subrange(i, i + lit.len()) == lit
}

/// The name of a bolded field ` **name** `: one whitespace character, two
/// asterisks, a name of at least one character, two asterisks, one
/// whitespace character.
pub open spec fn bold_name(f: Seq<char>) -> Option<Seq<char>> {
    if f.len() >= 7 && is_ws(f[0]) && is_ws(f.last()) && occurs_at(f, 1, "**"@) && occurs_at(
        f,
        f.len() - 3,
        "**"@,
    ) {
        Some(f.subrange(3, f.len() - 3))
    } else {
        None
    }
}

/// A drop line `f1 • f2 • **item** • series`: exactly four fields, the first
/// two non-empty. Gives (series, item).
pub open spec fn drop_line(s: Seq<char>) -> Option<(Seq<char>, Seq<char>)> {
    let f = split(s, BULLET);
    if f.len() == 4 && f[0].len() > 0 && f[1].len() > 0 && bold_name(f[2]) is Some {
        Some((trim(f[3]), trim(bold_name(f[2])->0)))
    } else {
        None
    }
}

/// An analysis line that names an item, `f1 • f2 • f3 • f4 • **item** •
/// series`: exactly six fields, the first four non-empty. Gives (series,
/// item).
pub open spec fn analysis_item_line(s: Seq<char>) -> Option<(Seq<char>, Seq<char>)> {
    let f = split(s, BULLET);
    if f.len() == 6 && f[0].len() > 0 && f[1].len() > 0 && f[2].len() > 0 && f[3].len() > 0
        && bold_name(f[4]) is Some {
        Some((trim(f[5]), trim(bold_name(f[4])->0)))
    } else {
        None
    }
}

pub open spec fn view_pair(r: Option<(&str, &str)>) -> Option<(Seq<char>, Seq<char>)> {
    match r {
        Some((a, b)) => Some((a@, b@)),
        None => None,
    }
}

pub open spec fn view_str(r: Option<&str>) -> Option<Seq<char>> {
    match r {
        Some(a) => Some(a@),
        None => None,
    }
}

proof fn lemma_split_nonempty(s: Seq<char>, sep: char)
    ensures
        split(s, sep).len() >= 1,
    decreases s.len(),
{
    if s.len() > 0 {
        lemma_split_nonempty(s.drop_last(), sep);
    }
}

/// The bounds in `s` of the pieces of `s[lo..hi]` cut at `sep`.
pub fn split_ranges(s: &str, lo: usize, hi: usize, sep: char) -> (r: Vec<(usize, usize)>)
    requires
        lo <= hi <= s@.len(),
    ensures
        r@.len() == split(s@.subrange(lo as int, hi as int), sep).len(),
        forall|k: int|
            0 <= k < r@.len() ==> lo <= (#[trigger] r@[k]).0 <= r@[k].1 <= hi && s@.subrange(
                r@[k].0 as int,
                r@[k].1 as int,
            ) == split(s@.subrange(lo as int, hi as int), sep)[k],
{
    let mut ranges: Vec<(usize, usize)> = Vec::new();
    let mut start: usize = lo;
    let mut i: usize = lo;
    proof {
        assert(s@.subrange(lo as int, lo as int) =~= Seq::<char>::empty());
    }
    while i < hi
        invariant
            lo <= start <= i <= hi,
            hi <= s@.len(),
            split(s@.subrange(lo as int, i as int), sep).len() == ranges@.len() + 1,
            split(s@.subrange(lo as int, i as int), sep).last() == s@.subrange(
                start as int,
                i as int,
            ),
            forall|k: int|
                0 <= k < ranges@.len() ==> lo <= (#[trigger] ranges@[k]).0 <= ranges@[k].1 <= i
                    && s@.subrange(ranges@[k].0 as int, ranges@[k].1 as int) == split(
                    s@.subrange(lo as int, i as int),
                    sep,
                )[k],
        decreases hi - i,
    {
        let c = s.get_char(i);
        let ghost pre = s@.subrange(lo as int, i as int);
        let ghost next = s@.subrange(lo as int, i + 1);
        proof {
            assert(next.drop_last() =~= pre);
            assert(next.last() == c);
            lemma_split_nonempty(pre, sep);
        }
        if c == sep {
            ranges.push((start, i));
            start = i + 1;
            proof {
                assert(s@.subrange(start as int, i + 1) =~= Seq::<char>::empty());
            }
        } else {
            proof {
                assert(s@.subrange(start as int, i + 1) =~= s@.subrange(start as int, i as int).push(
                    c,
                ));
            }
        }
        i = i + 1;
    }
    ranges.push((start, hi));
    ranges
}

/// Whether `lit` stands in `s` from index `i` on.
pub fn occurs_in_at(s: &str, i: usize, lit: &str) -> (r: bool)
    ensures
        r == occurs_at(s@, i as int, lit@),
{
    let n = s.unicode_len();
    let m = lit.unicode_len();
    if i > n || m > n - i {
        return false;
    }
    let mut j: usize = 0;
    while j < m
        invariant
            j <= m,
            m == lit@.len(),
            n == s@.len(),
            i + m <= n,
            forall|k: int| 0 <= k < j ==> s@[i + k] == lit@[k],
        decreases m - j,
    {
        if s.get_char(i + j) != lit.get_char(j) {
            proof {
                assert(s@.subrange(i as int, i + m)[j as int] != lit@[j as int]);
            }
            return false;
        }
        j = j + 1;
    }
    proof {
        assert(s@.subrange(i as int, i + m) =~= lit@);
    }
    true
}

/// The bounds of the name of the bolded field `s[lo..hi]`, if it is one.
fn bold_bounds(s: &str, lo: usize, hi: usize) -> (r: Option<(usize, usize)>)
    requires
        lo <= hi <= s@.len(),
    ensures
        match r {
            Some((a, b)) => lo <= a <= b <= hi && bold_name(s@.subrange(lo as int, hi as int))
                == Some(s@.subrange(a as int, b as int)),
            None => bold_name(s@.subrange(lo as int, hi as int)) is None,
        },
{
    let ghost f = s@.subrange(lo as int, hi as int);
    proof {
        reveal_strlit("**");
    }
    if hi - lo < 7 {
        return None;
    }
    let ok = is_whitespace(s.get_char(lo)) && is_whitespace(s.get_char(hi - 1)) && occurs_in_at(
        s,
        lo + 1,
        "**",
    ) && occurs_in_at(s, hi - 3, "**");
    proof {
        assert(f[0] == s@[lo as int]);
        assert(f.last() == s@[hi - 1]);
        assert(f.subrange(1, 3) =~= s@.subrange(lo + 1, lo + 3));
        assert(f.subrange(f.len() - 3, f.len() - 1) =~= s@.subrange(hi - 3, hi - 1));
        assert(f.subrange(3, f.len() - 3) =~= s@.subrange(lo + 3, hi - 3));
    }
    if ok {
        Some((lo + 3, hi - 3))
    } else {
        None
    }
}

/// Reads a drop line `f1 • f2 • **item** • series` into (series, item).
pub fn parse_card_from_drop(line: &str) -> (r: Option<(&str, &str)>)
    ensures
        view_pair(r) == drop_line(line@),
{
    let n = line.unicode_len();
    let f = split_ranges(line, 0, n, BULLET);
    proof {
        assert(line@.subrange(0, n as int) =~= line@);
    }
    if f.len() != 4 || f[0].0 == f[0].1 || f[1].0 == f[1].1 {
        return None;
    }
    match bold_bounds(line, f[2].0, f[2].1) {
        Some((a, b)) => {
            let (sa, sb) = trim_bounds(line, f[3].0, f[3].1);
            let (ia, ib) = trim_bounds(line, a, b);
            Some((line.substring_char(sa, sb), line.substring_char(ia, ib)))
        },
        None => None,
    }
}

/// Reads an analysis line `f1 • f2 • f3 • f4 • **item** • series` into
/// (series, item).
pub fn parse_series_card_from_analysis(line: &str) -> (r: Option<(&str, &str)>)
    ensures
        view_pair(r) == analysis_item_line(line@),
{
    let n = line.unicode_len();
    let f = split_ranges(line, 0, n, BULLET);
    proof {
        assert(line@.subrange(0, n as int) =~= line@);
    }
    if f.len() != 6 || f[0].0 == f[0].1 || f[1].0 == f[1].1 || f[2].0 == f[2].1 || f[3].0
        == f[3].1 {
        return None;
    }
    match bold_bounds(line, f[4].0, f[4].1) {
        Some((a, b)) => {
            let (sa, sb) = trim_bounds(line, f[5].0, f[5].1);
            let (ia, ib) = trim_bounds(line, a, b);
            Some((line.substring_char(sa, sb), line.substring_char(ia, ib)))
        },
        None => None,
    }
}


/// A character that may not stand in the series of a series line.
pub open spec fn is_mark(c: char) -> bool {
    c == '`' || c == '*'
}

/// An analysis line that names only a series, `f1 • f2 • series`: exactly
/// three fields, the first two non-empty; the third opens with whitespace,
/// holds something after it, and has no backtick or asterisk (so nothing
/// bolded).
pub open spec fn series_line(s: Seq<char>) -> Option<Seq<char>> {
    let f = split(s, BULLET);
    if f.len() == 3 && f[0].len() > 0 && f[1].len() > 0 && f[2].len() >= 2 && is_ws(f[2][0])
        && forall|k: int| 0 <= k < f[2].len() ==> !is_mark(#[trigger] f[2][k]) {
        Some(trim(f[2]))
    } else {
        None
    }
}

/// The marker of a field ` marker `: one whitespace character on each side
/// of at least one character.
pub open spec fn marker_of(f: Seq<char>) -> Option<Seq<char>> {
    if f.len() >= 3 && is_ws(f[0]) && is_ws(f.last()) {
        Some(f.subrange(1, f.len() - 1))
    } else {
        None
    }
}

/// The name of a closing bolded field ` **name**`.
pub open spec fn closing_bold_name(f: Seq<char>) -> Option<Seq<char>> {
    if f.len() >= 6 && is_ws(f[0]) && occurs_at(f, 1, "**"@) && occurs_at(f, f.len() - 2, "**"@) {
        Some(f.subrange(3, f.len() - 2))
    } else {
        None
    }
}

/// A series lookup line `f1 • f2 • marker • f4 • f5 • **item**`: exactly six
/// fields, f1, f2, f4 and f5 non-empty. Gives whether the marker is the
/// owned-item mark, and the item.
pub open spec fn lookup_line(s: Seq<char>) -> Option<(bool, Seq<char>)> {
    let f = split(s, BULLET);
    if f.len() == 6 && f[0].len() > 0 && f[1].len() > 0 && f[3].len() > 0 && f[4].len() > 0
        && marker_of(f[2]) is Some && closing_bold_name(f[5]) is Some {
        Some((trim(marker_of(f[2])->0) == HAS_ITEM_MARK@, trim(closing_bold_name(f[5])->0)))
    } else {
        None
    }
}

/// An embed description line `Name: **series**`: `Name:`, one whitespace
/// character, then a series of at least one character in bold, and nothing
/// else.
pub open spec fn embed_line(s: Seq<char>) -> Option<Seq<char>> {
    if s.len() >= 11 && occurs_at(s, 0, "Name:"@) && is_ws(s[5]) && occurs_at(s, 6, "**"@)
        && occurs_at(s, s.len() - 2, "**"@) {
        Some(trim(s.subrange(8, s.len() - 2)))
    } else {
        None
    }
}

/// The value of a line `label` + value + `**`, the value of at least one
/// character.
pub open spec fn labelled_value(line: Seq<char>, label: Seq<char>) -> Option<Seq<char>> {
    if line.len() >= label.len() + 3 && occurs_at(line, 0, label) && occurs_at(
        line,
        line.len() - 2,
        "**"@,
    ) {
        Some(line.subrange(label.len() as int, line.len() - 2))
    } else {
        None
    }
}

/// A give description: a first line `Name: **item**` and a second line
/// `Series: **series**`; later lines are not read. Gives (series, item).
pub open spec fn give_text(s: Seq<char>) -> Option<(Seq<char>, Seq<char>)> {
    let l = split(s, '\n');
    if l.len() >= 2 && labelled_value(l[0], "Name: **"@) is Some && labelled_value(
        l[1],
        "Series: **"@,
    ) is Some {
        Some((trim(labelled_value(l[1], "Series: **"@)->0), trim(labelled_value(l[0], "Name: **"@)->0)))
    } else {
        None
    }
}

pub open spec fn view_flag(r: Option<(bool, &str)>) -> Option<(bool, Seq<char>)> {
    match r {
        Some((a, b)) => Some((a, b@)),
        None => None,
    }
}

/// Reads a series-only analysis line `f1 • f2 • series` into the series.
pub fn parse_series_from_analysis(line: &str) -> (r: Option<&str>)
    ensures
        view_str(r) == series_line(line@),
{
    let n = line.unicode_len();
    let f = split_ranges(line, 0, n, BULLET);
    proof {
        assert(line@.subrange(0, n as int) =~= line@);
    }
    if f.len() != 3 || f[0].0 == f[0].1 || f[1].0 == f[1].1 {
        return None;
    }
    let lo = f[2].0;
    let hi = f[2].1;
    let ghost g = line@.subrange(lo as int, hi as int);
    assert(g == split(line@, BULLET)[2]);
    if hi - lo < 2 || !is_whitespace(line.get_char(lo)) {
        return None;
    }
    let mut k: usize = lo;
    while k < hi
        invariant
            lo <= k <= hi,
            hi <= line@.len(),
            g == line@.subrange(lo as int, hi as int),
            g == split(line@, BULLET)[2],
            forall|j: int| 0 <= j < k - lo ==> !is_mark(#[trigger] g[j]),
        decreases hi - k,
    {
        let c = line.get_char(k);
        if c == '`' || c == '*' {
            proof {
                assert(g[k - lo] == c);
                assert(is_mark(g[k - lo]));
            }
            return None;
        }
        k = k + 1;
    }
    let (a, b) = trim_bounds(line, lo, hi);
    Some(line.substring_char(a, b))
}

/// Whether `line` is a series-only analysis line.
pub fn is_series_analysis(line: &str) -> (r: bool)
    ensures
        r == series_line(line@) is Some,
{
    parse_series_from_analysis(line).is_some()
}

/// Whether `s[lo..hi]` is exactly `lit`.
fn range_is(s: &str, lo: usize, hi: usize, lit: &str) -> (r: bool)
    requires
        lo <= hi <= s@.len(),
    ensures
        r == (s@.subrange(lo as int, hi as int) == lit@),
{
    if hi - lo != lit.unicode_len() {
        return false;
    }
    occurs_in_at(s, lo, lit)
}

/// Reads a series lookup line `f1 • f2 • marker • f4 • f5 • **item**` into
/// (owned, item).
pub fn parse_card_from_series_lookup(line: &str) -> (r: Option<(bool, &str)>)
    ensures
        view_flag(r) == lookup_line(line@),
{
    proof {
        reveal_strlit("**");
    }
    let n = line.unicode_len();
    let f = split_ranges(line, 0, n, BULLET);
    proof {
        assert(line@.subrange(0, n as int) =~= line@);
    }
    if f.len() != 6 || f[0].0 == f[0].1 || f[1].0 == f[1].1 || f[3].0 == f[3].1 || f[4].0
        == f[4].1 {
        return None;
    }
    let (mlo, mhi) = f[2];
    let (ilo, ihi) = f[5];
    let ghost mf = line@.subrange(mlo as int, mhi as int);
    let ghost itf = line@.subrange(ilo as int, ihi as int);
    if mhi - mlo < 3 || !is_whitespace(line.get_char(mlo)) || !is_whitespace(
        line.get_char(mhi - 1),
    ) {
        proof {
            if mhi - mlo >= 3 {
                assert(mf[0] == line@[mlo as int]);
                assert(mf.last() == line@[mhi - 1]);
            }
        }
        return None;
    }
    proof {
        assert(mf[0] == line@[mlo as int]);
        assert(mf.last() == line@[mhi - 1]);
        assert(mf.subrange(1, mf.len() - 1) =~= line@.subrange(mlo + 1, mhi - 1));
    }
    if ihi - ilo < 6 {
        return None;
    }
    let ok = is_whitespace(line.get_char(ilo)) && occurs_in_at(line, ilo + 1, "**")
        && occurs_in_at(line, ihi - 2, "**");
    proof {
        assert(itf[0] == line@[ilo as int]);
        assert(itf.subrange(1, 3) =~= line@.subrange(ilo + 1, ilo + 3));
        assert(itf.subrange(itf.len() - 2, itf.len() as int) =~= line@.subrange(
            ihi - 2,
            ihi as int,
        ));
        assert(itf.subrange(3, itf.len() - 2) =~= line@.subrange(ilo + 3, ihi - 2));
    }
    if !ok {
        return None;
    }
    let (ma, mb) = trim_bounds(line, mlo + 1, mhi - 1);
    let (ia, ib) = trim_bounds(line, ilo + 3, ihi - 2);
    let owned = range_is(line, ma, mb, HAS_ITEM_MARK);
    Some((owned, line.substring_char(ia, ib)))
}

/// Reads an embed description line `Name: **series**` into the series.
pub fn parse_series_from_embed_description(description: &str) -> (r: Option<&str>)
    ensures
        view_str(r) == embed_line(description@),
{
    proof {
        reveal_strlit("**");
        reveal_strlit("Name:");
    }
    let n = description.unicode_len();
    if n < 11 {
        return None;
    }
    let ok = occurs_in_at(description, 0, "Name:") && is_whitespace(description.get_char(5))
        && occurs_in_at(description, 6, "**") && occurs_in_at(description, n - 2, "**");
    if !ok {
        return None;
    }
    let (a, b) = trim_bounds(description, 8, n - 2);
    Some(description.substring_char(a, b))
}

/// The bounds of the value of the line `s[lo..hi]` = `label` + value + `**`.
fn labelled_bounds(s: &str, lo: usize, hi: usize, label: &str) -> (r: Option<(usize, usize)>)
    requires
        lo <= hi <= s@.len(),
    ensures
        match r {
            Some((a, b)) => lo <= a <= b <= hi && labelled_value(
                s@.subrange(lo as int, hi as int),
                label@,
            ) == Some(s@.subrange(a as int, b as int)),
            None => labelled_value(s@.subrange(lo as int, hi as int), label@) is None,
        },
{
    proof {
        reveal_strlit("**");
    }
    let ghost l = s@.subrange(lo as int, hi as int);
    let m = label.unicode_len();
    if hi - lo < 3 || m > hi - lo - 3 {
        return None;
    }
    let ok = occurs_in_at(s, lo, label) && occurs_in_at(s, hi - 2, "**");
    proof {
        assert(l.subrange(0, m as int) =~= s@.subrange(lo as int, lo + m));
        assert(l.subrange(l.len() - 2, l.len() as int) =~= s@.subrange(hi - 2, hi as int));
        assert(l.subrange(m as int, l.len() - 2) =~= s@.subrange(lo + m, hi - 2));
    }
    if ok {
        Some((lo + m, hi - 2))
    } else {
        None
    }
}

/// Reads a give description `Name: **item**` / `Series: **series**`, on two
/// lines, into (series, item).
pub fn parse_series_from_give_command(description: &str) -> (r: Option<(&str, &str)>)
    ensures
        view_pair(r) == give_text(description@),
{
    let n = description.unicode_len();
    let l = split_ranges(description, 0, n, '\n');
    proof {
        assert(description@.subrange(0, n as int) =~= description@);
    }
    if l.len() < 2 {
        return None;
    }
    let name = labelled_bounds(description, l[0].0, l[0].1, "Name: **");
    let series = labelled_bounds(description, l[1].0, l[1].1, "Series: **");
    match (name, series) {
        (Some((na, nb)), Some((sa, sb))) => {
            let (ia, ib) = trim_bounds(description, na, nb);
            let (ta, tb) = trim_bounds(description, sa, sb);
            Some((description.substring_char(ta, tb), description.substring_char(ia, ib)))
        },
        _ => None,
    }
}


/// Whether a `||` starts at `k` in `t` with at least one character before it
/// and one after it.
pub open spec fn is_separator(t: Seq<char>, k: int) -> bool {
    1 <= k && k + 2 < t.len() && t[k] == '|' && t[k + 1] == '|'
}

/// The last separator of `t` that starts at or before `k`; -1 when there is
/// none.
pub open spec fn last_separator(t: Seq<char>, k: int) -> int
    decreases k,
{
    if k < 1 {
        -1
    } else if is_separator(t, k) {
        k
    } else {
        last_separator(t, k - 1)
    }
}

/// A wishlist command `series || item, item, ...`, read on the trimmed line
/// at its last separator: the series before it, and the text after it cut
/// at each comma, every piece trimmed. Items are neither checked nor
/// deduplicated.
pub open spec fn command_line(s: Seq<char>) -> Option<(Seq<char>, Seq<Seq<char>>)> {
    let t = trim(s);
    let k = last_separator(t, t.len() - 3);
    if k >= 1 {
        Some(
            (
                trim(t.subrange(0, k)),
                split(t.subrange(k + 2, t.len() as int), ',').map_values(|f: Seq<char>| trim(f)),
            ),
        )
    } else {
        None
    }
}

pub open spec fn view_command(r: Option<(&str, Vec<&str>)>) -> Option<(Seq<char>, Seq<Seq<char>>)> {
    match r {
        Some((a, v)) => Some((a@, v@.map_values(|x: &str| x@))),
        None => None,
    }
}

/// Reads a wishlist command `series || item, item, ...` into the series and
/// the list of items, in order.
pub fn parse_series_cards(line: &str) -> (r: Option<(&str, Vec<&str>)>)
    ensures
        view_command(r) == command_line(line@),
{
    let n = line.unicode_len();
    let (ta, tb) = trim_bounds(line, 0, n);
    let ghost t = line@.subrange(ta as int, tb as int);
    proof {
        assert(line@.subrange(0, n as int) =~= line@);
    }
    let len = tb - ta;
    if len < 4 {
        return None;
    }
    let mut k: usize = len - 3;
    while k >= 1 && !(line.get_char(ta + k) == '|' && line.get_char(ta + k + 1) == '|')
        invariant
            k <= len - 3,
            len == tb - ta,
            ta <= tb <= line@.len(),
            t == line@.subrange(ta as int, tb as int),
            last_separator(t, len - 3) == last_separator(t, k as int),
        decreases k,
    {
        proof {
            assert(t[k as int] == line@[ta + k]);
            assert(t[k + 1] == line@[ta + k + 1]);
        }
        k = k - 1;
    }
    if k == 0 {
        return None;
    }
    proof {
        assert(t[k as int] == line@[ta + k]);
        assert(t[k + 1] == line@[ta + k + 1]);
        assert(t.subrange(0, k as int) =~= line@.subrange(ta as int, ta + k));
        assert(t.subrange(k + 2, t.len() as int) =~= line@.subrange(ta + k + 2, tb as int));
    }
    let (sa, sb) = trim_bounds(line, ta, ta + k);
    let pieces = split_ranges(line, ta + k + 2, tb, ',');
    let ghost fs = split(line@.subrange(ta + k + 2, tb as int), ',');
    let mut items: Vec<&str> = Vec::new();
    let mut i: usize = 0;
    while i < pieces.len()
        invariant
            i <= pieces@.len(),
            pieces@.len() == fs.len(),
            items@.len() == i,
            forall|j: int|
                0 <= j < pieces@.len() ==> ta + k + 2 <= (#[trigger] pieces@[j]).0 <= pieces@[j].1
                    <= tb && line@.subrange(pieces@[j].0 as int, pieces@[j].1 as int) == fs[j],
            tb <= line@.len(),
            forall|j: int| 0 <= j < i ==> (#[trigger] items@[j])@ == trim(fs[j]),
        decreases pieces@.len() - i,
    {
        let (a, b) = trim_bounds(line, pieces[i].0, pieces[i].1);
        items.push(line.substring_char(a, b));
        i = i + 1;
    }
    proof {
        assert(items@.map_values(|x: &str| x@) =~= fs.map_values(|f: Seq<char>| trim(f)));
    }
    Some((line.substring_char(sa, sb), items))
}

} // verus!
