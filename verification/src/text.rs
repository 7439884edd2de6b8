//! Character-level text model: whitespace, trimming, line and word
//! splitting, searching, all over `Seq<char>`, with executable counterparts
//! that work on character vectors by index ranges.
use vstd::prelude::*;
use vstd::string::*;

verus! {

// ── Specifications ──────────────────────────────────────────────────────────

/// The Unicode `White_Space` property, which `char::is_whitespace` reports.
pub open spec fn is_ws(c: char) -> bool {
    ('\t' <= c && c <= '\r') || c == ' ' || c == '\u{85}' || c == '\u{a0}' || c == '\u{1680}'
        || ('\u{2000}' <= c && c <= '\u{200a}') || c == '\u{2028}' || c == '\u{2029}'
        || c == '\u{202f}' || c == '\u{205f}' || c == '\u{3000}'
}

/// `s` with its leading whitespace removed.
pub open spec fn trim_start(s: Seq<char>) -> Seq<char>
    decreases s.len(),
{
    if s.len() > 0 && is_ws(s[0]) {
        trim_start(s.drop_first())
    } else {
        s
    }
}

/// `s` with its trailing whitespace removed.
pub open spec fn trim_end(s: Seq<char>) -> Seq<char>
    decreases s.len(),
{
    if s.len() > 0 && is_ws(s.last()) {
        trim_end(s.drop_last())
    } else {
        s
    }
}

/// `s` with leading and trailing whitespace removed (`str::trim`).
pub open spec fn trim(s: Seq<char>) -> Seq<char> {
    trim_end(trim_start(s))
}

/// `pre` is a prefix of `s` (`str::starts_with`).
pub open spec fn has_prefix(s: Seq<char>, pre: Seq<char>) -> bool {
    pre.is_prefix_of(s)
}

/// A line without its terminating `'\r'`, if it has one.
pub open spec fn strip_cr(l: Seq<char>) -> Seq<char> {
    if l.len() > 0 && l.last() == '\r' {
        l.drop_last()
    } else {
        l
    }
}

/// The lines of `s`, where `cur` holds the characters of the line read so
/// far. A line ends at `'\n'`; a `'\r'` just before it is dropped; the last
/// line needs no terminator, and an empty remainder makes no line.
pub open spec fn lines_from(s: Seq<char>, cur: Seq<char>) -> Seq<Seq<char>>
    decreases s.len(),
{
    if s.len() == 0 {
        if cur.len() == 0 {
            seq![]
        } else {
            seq![cur]
        }
    } else if s[0] == '\n' {
        seq![strip_cr(cur)] + lines_from(s.drop_first(), seq![])
    } else {
        lines_from(s.drop_first(), cur.push(s[0]))
    }
}

/// The lines of `s` (`str::lines`).
pub open spec fn lines(s: Seq<char>) -> Seq<Seq<char>> {
    lines_from(s, seq![])
}

/// The maximal runs of non-whitespace characters of `s`, where `cur` holds
/// the run read so far.
pub open spec fn words_from(s: Seq<char>, cur: Seq<char>) -> Seq<Seq<char>>
    decreases s.len(),
{
    if s.len() == 0 {
        if cur.len() == 0 {
            seq![]
        } else {
            seq![cur]
        }
    } else if is_ws(s[0]) {
        (if cur.len() == 0 {
            seq![]
        } else {
            seq![cur]
        }) + words_from(s.drop_first(), seq![])
    } else {
        words_from(s.drop_first(), cur.push(s[0]))
    }
}

/// The whitespace-separated words of `s` (`str::split_whitespace`).
pub open spec fn words(s: Seq<char>) -> Seq<Seq<char>> {
    words_from(s, seq![])
}

/// The pieces of `s` between occurrences of `sep`, where `cur` holds the
/// piece read so far; there is always one piece more than separators.
pub open spec fn pieces_from(s: Seq<char>, sep: char, cur: Seq<char>) -> Seq<Seq<char>>
    decreases s.len(),
{
    if s.len() == 0 {
        seq![cur]
    } else if s[0] == sep {
        seq![cur] + pieces_from(s.drop_first(), sep, seq![])
    } else {
        pieces_from(s.drop_first(), sep, cur.push(s[0]))
    }
}

/// The pieces of `s` between occurrences of `sep` (`str::split`).
pub open spec fn pieces(s: Seq<char>, sep: char) -> Seq<Seq<char>> {
    pieces_from(s, sep, seq![])
}

/// Each piece trimmed, those that are then empty left out.
pub open spec fn nonempty_trimmed(ps: Seq<Seq<char>>) -> Seq<Seq<char>>
    decreases ps.len(),
{
    if ps.len() == 0 {
        seq![]
    } else {
        let prev = nonempty_trimmed(ps.drop_last());
        let t = trim(ps.last());
        if t.len() > 0 {
            prev.push(t)
        } else {
            prev
        }
    }
}

/// `pat` occurs in `s` at position `i`.
pub open spec fn occurs_at(s: Seq<char>, pat: Seq<char>, i: int) -> bool {
    0 <= i && i + pat.len() <= s.len() && s.subrange(i, i + pat.len()) == pat
}

/// The first position at or after `i` where `pat` occurs in `s` (`str::find`
/// from `i`).
pub open spec fn find_from(s: Seq<char>, pat: Seq<char>, i: nat) -> Option<int>
    decreases s.len() + 1 - i,
{
    if i + pat.len() > s.len() {
        None
    } else if occurs_at(s, pat, i as int) {
        Some(i as int)
    } else {
        find_from(s, pat, i + 1)
    }
}

/// The first position where `pat` occurs in `s` (`str::find`).
pub open spec fn find(s: Seq<char>, pat: Seq<char>) -> Option<int> {
    find_from(s, pat, 0)
}

/// The last position of `c` in `s` (`str::rfind` with a `char`).
pub open spec fn rfind(s: Seq<char>, c: char) -> Option<int>
    decreases s.len(),
{
    if s.len() == 0 {
        None
    } else if s.last() == c {
        Some(s.len() - 1)
    } else {
        rfind(s.drop_last(), c)
    }
}

/// The parts joined with a `'\n'` between each two (`join("\n")`).
pub open spec fn join_lines(parts: Seq<Seq<char>>) -> Seq<char>
    decreases parts.len(),
{
    if parts.len() == 0 {
        seq![]
    } else if parts.len() == 1 {
        parts[0]
    } else {
        join_lines(parts.drop_last()) + seq!['\n'] + parts.last()
    }
}

/// The texts that index ranges cut out of `s`.
pub open spec fn cut(s: Seq<char>, rs: Seq<(usize, usize)>) -> Seq<Seq<char>> {
    rs.map_values(|r: (usize, usize)| s.subrange(r.0 as int, r.1 as int))
}

/// Every range is an ordered pair of positions within a text of length `n`.
pub open spec fn ranges_within(rs: Seq<(usize, usize)>, n: nat) -> bool {
    forall|k: int| 0 <= k < rs.len() ==> #[trigger] rs[k].0 <= rs[k].1 && rs[k].1 <= n
}

// ── Lemmas ──────────────────────────────────────────────────────────────────

proof fn lemma_cut_push(s: Seq<char>, rs: Seq<(usize, usize)>, r: (usize, usize))
    ensures
        cut(s, rs.push(r)) == cut(s, rs).push(s.subrange(r.0 as int, r.1 as int)),
{
    assert(cut(s, rs.push(r)) =~= cut(s, rs).push(s.subrange(r.0 as int, r.1 as int)));
}

proof fn lemma_skip_step(s: Seq<char>, i: int)
    requires
        0 <= i < s.len(),
    ensures
        s.skip(i).len() > 0,
        s.skip(i)[0] == s[i],
        s.skip(i).drop_first() == s.skip(i + 1),
{
    assert(s.skip(i).drop_first() =~= s.skip(i + 1));
}

proof fn lemma_subrange_push(s: Seq<char>, a: int, i: int)
    requires
        0 <= a <= i < s.len(),
    ensures
        s.subrange(a, i).push(s[i]) == s.subrange(a, i + 1),
{
    assert(s.subrange(a, i).push(s[i]) =~= s.subrange(a, i + 1));
}

/// Leading whitespace stops at the first non-whitespace character.
proof fn lemma_trim_start_range(s: Seq<char>, a: int, b: int, c: int)
    requires
        0 <= a <= c <= b <= s.len(),
        forall|j: int| a <= j < c ==> is_ws(#[trigger] s[j]),
        c == b || !is_ws(s[c]),
    ensures
        trim_start(s.subrange(a, b)) == s.subrange(c, b),
    decreases c - a,
{
    if a < c {
        assert(s.subrange(a, b).drop_first() =~= s.subrange(a + 1, b));
        lemma_trim_start_range(s, a + 1, b, c);
    }
}

/// Trailing whitespace stops at the last non-whitespace character.
proof fn lemma_trim_end_range(s: Seq<char>, a: int, b: int, c: int)
    requires
        0 <= a <= c <= b <= s.len(),
        forall|j: int| c <= j < b ==> is_ws(#[trigger] s[j]),
        c == a || !is_ws(s[c - 1]),
    ensures
        trim_end(s.subrange(a, b)) == s.subrange(a, c),
    decreases b - c,
{
    if c < b {
        assert(s.subrange(a, b).drop_last() =~= s.subrange(a, b - 1));
        lemma_trim_end_range(s, a, b - 1, c);
    }
}

// ── Executable counterparts ─────────────────────────────────────────────────

/// The characters of `s`, in order.
pub fn chars_of(s: &str) -> (v: Vec<char>)
    ensures
        v@ == s@,
{
    let mut v: Vec<char> = Vec::new();
    for c in it: s.chars()
        invariant
            v@ == it.seq().take(it.index() as int),
    {
        v.push(c);
    }
    v
}

/// Whether `c` is whitespace (`char::is_whitespace`).
pub fn is_whitespace(c: char) -> (r: bool)
    ensures
        r == is_ws(c),
{
    ('\t' <= c && c <= '\r') || c == ' ' || c == '\u{85}' || c == '\u{a0}' || c == '\u{1680}'
        || ('\u{2000}' <= c && c <= '\u{200a}') || c == '\u{2028}' || c == '\u{2029}'
        || c == '\u{202f}' || c == '\u{205f}' || c == '\u{3000}'
}

/// The range of `v[lo..hi]` that `trim` leaves.
pub fn trim_range(v: &Vec<char>, lo: usize, hi: usize) -> (r: (usize, usize))
    requires
        lo <= hi <= v.len(),
    ensures
        lo <= r.0 <= r.1 <= hi,
        v@.subrange(r.0 as int, r.1 as int) == trim(v@.subrange(lo as int, hi as int)),
{
    let mut a = lo;
    while a < hi && is_whitespace(v[a])
        invariant
            lo <= a <= hi <= v.len(),
            forall|j: int| lo <= j < a ==> is_ws(#[trigger] v@[j]),
        decreases hi - a,
    {
        a = a + 1;
    }
    proof {
        lemma_trim_start_range(v@, lo as int, hi as int, a as int);
    }
    let mut b = hi;
    while b > a && is_whitespace(v[b - 1])
        invariant
            lo <= a <= b <= hi <= v.len(),
            forall|j: int| b <= j < hi ==> is_ws(#[trigger] v@[j]),
        decreases b - a,
    {
        b = b - 1;
    }
    proof {
        lemma_trim_end_range(v@, a as int, hi as int, b as int);
    }
    (a, b)
}

/// The ranges of the lines of `v` (`str::lines`).
pub fn line_ranges(v: &Vec<char>) -> (rs: Vec<(usize, usize)>)
    ensures
        ranges_within(rs@, v@.len()),
        cut(v@, rs@) == lines(v@),
{
    let mut rs: Vec<(usize, usize)> = Vec::new();
    let mut start: usize = 0;
    let mut i: usize = 0;
    proof {
        assert(v@.skip(0) =~= v@);
        assert(v@.subrange(0, 0) =~= Seq::<char>::empty());
        assert(cut(v@, rs@) =~= Seq::<Seq<char>>::empty());
    }
    while i < v.len()
        invariant
            start <= i <= v.len(),
            ranges_within(rs@, v@.len()),
            lines(v@) == cut(v@, rs@) + lines_from(
                v@.skip(i as int),
                v@.subrange(start as int, i as int),
            ),
        decreases v.len() - i,
    {
        proof {
            lemma_skip_step(v@, i as int);
        }
        if v[i] == '\n' {
            let end = if i > start && v[i - 1] == '\r' {
                i - 1
            } else {
                i
            };
            proof {
                let cur = v@.subrange(start as int, i as int);
                if i > start && v@[i - 1] == '\r' {
                    assert(cur.drop_last() =~= v@.subrange(start as int, end as int));
                }
                assert(strip_cr(cur) == v@.subrange(start as int, end as int));
                lemma_cut_push(v@, rs@, (start, end));
                assert(v@.subrange(i + 1, i + 1) =~= Seq::<char>::empty());
                let rest = lines_from(v@.skip(i + 1), seq![]);
                assert(cut(v@, rs@) + (seq![strip_cr(cur)] + rest) =~= cut(v@, rs@).push(
                    strip_cr(cur),
                ) + rest);
            }
            rs.push((start, end));
            start = i + 1;
        } else {
            proof {
                lemma_subrange_push(v@, start as int, i as int);
            }
        }
        i = i + 1;
    }
    proof {
        assert(v@.skip(i as int) =~= Seq::<char>::empty());
    }
    if start < i {
        proof {
            lemma_cut_push(v@, rs@, (start, i));
        }
        rs.push((start, i));
    } else {
        proof {
            assert(cut(v@, rs@) + Seq::<Seq<char>>::empty() =~= cut(v@, rs@));
        }
    }
    rs
}

/// The ranges of the whitespace-separated words of `v`
/// (`str::split_whitespace`).
pub fn word_ranges(v: &Vec<char>) -> (rs: Vec<(usize, usize)>)
    ensures
        ranges_within(rs@, v@.len()),
        cut(v@, rs@) == words(v@),
        forall|k: int| 0 <= k < rs@.len() ==> #[trigger] rs@[k].0 < rs@[k].1,
{
    let mut rs: Vec<(usize, usize)> = Vec::new();
    let mut start: usize = 0;
    let mut i: usize = 0;
    proof {
        assert(v@.skip(0) =~= v@);
        assert(v@.subrange(0, 0) =~= Seq::<char>::empty());
        assert(cut(v@, rs@) =~= Seq::<Seq<char>>::empty());
    }
    while i < v.len()
        invariant
            start <= i <= v.len(),
            ranges_within(rs@, v@.len()),
            forall|k: int| 0 <= k < rs@.len() ==> #[trigger] rs@[k].0 < rs@[k].1,
            words(v@) == cut(v@, rs@) + words_from(
                v@.skip(i as int),
                v@.subrange(start as int, i as int),
            ),
        decreases v.len() - i,
    {
        proof {
            lemma_skip_step(v@, i as int);
        }
        if is_whitespace(v[i]) {
            proof {
                let cur = v@.subrange(start as int, i as int);
                assert(v@.subrange(i + 1, i + 1) =~= Seq::<char>::empty());
                let rest = words_from(v@.skip(i + 1), seq![]);
                if start < i {
                    lemma_cut_push(v@, rs@, (start, i));
                    assert(cut(v@, rs@) + (seq![cur] + rest) =~= cut(v@, rs@).push(cur) + rest);
                } else {
                    assert(cur.len() == 0);
                    assert(cut(v@, rs@) + (Seq::<Seq<char>>::empty() + rest) =~= cut(v@, rs@)
                        + rest);
                }
            }
            if start < i {
                rs.push((start, i));
            }
            start = i + 1;
        } else {
            proof {
                lemma_subrange_push(v@, start as int, i as int);
            }
        }
        i = i + 1;
    }
    proof {
        assert(v@.skip(i as int) =~= Seq::<char>::empty());
    }
    if start < i {
        proof {
            lemma_cut_push(v@, rs@, (start, i));
        }
        rs.push((start, i));
    } else {
        proof {
            assert(cut(v@, rs@) + Seq::<Seq<char>>::empty() =~= cut(v@, rs@));
        }
    }
    rs
}

/// Whether `pre` is a prefix of `v` (`str::starts_with`).
pub fn starts_with(v: &Vec<char>, pre: &Vec<char>) -> (r: bool)
    ensures
        r == has_prefix(v@, pre@),
{
    if pre.len() > v.len() {
        return false;
    }
    let mut i: usize = 0;
    while i < pre.len()
        invariant
            i <= pre.len() <= v.len(),
            forall|j: int| 0 <= j < i ==> v@[j] == pre@[j],
        decreases pre.len() - i,
    {
        if v[i] != pre[i] {
            return false;
        }
        i = i + 1;
    }
    proof {
        assert(pre@ =~= v@.subrange(0, pre@.len() as int));
    }
    true
}

/// Whether `pat` occurs in `v` at position `i`.
fn occurs_at_exec(v: &Vec<char>, pat: &Vec<char>, i: usize) -> (r: bool)
    requires
        i + pat.len() <= v.len(),
    ensures
        r == occurs_at(v@, pat@, i as int),
{
    let mut j: usize = 0;
    while j < pat.len()
        invariant
            j <= pat.len(),
            i + pat.len() <= v.len(),
            forall|k: int| 0 <= k < j ==> v@[i + k] == pat@[k],
        decreases pat.len() - j,
    {
        if v[i + j] != pat[j] {
            proof {
                assert(v@.subrange(i as int, i + pat.len())[j as int] != pat@[j as int]);
            }
            return false;
        }
        j = j + 1;
    }
    proof {
        assert(v@.subrange(i as int, i + pat.len()) =~= pat@);
    }
    true
}

/// The first position where `pat` occurs in `v[lo..hi]`, counted from `lo`
/// (`str::find`).
pub fn find_in(v: &Vec<char>, lo: usize, hi: usize, pat: &Vec<char>) -> (r: Option<usize>)
    requires
        lo <= hi <= v.len(),
    ensures
        r matches Some(p) ==> find(v@.subrange(lo as int, hi as int), pat@) == Some(p as int),
        r is None ==> find(v@.subrange(lo as int, hi as int), pat@) is None,
        r matches Some(p) ==> lo + p + pat.len() <= hi,
{
    let ghost s = v@.subrange(lo as int, hi as int);
    if pat.len() > hi - lo {
        return None;
    }
    let limit = hi - lo - pat.len();
    let mut i: usize = 0;
    loop
        invariant
            lo <= hi <= v.len(),
            limit + pat.len() == hi - lo,
            i <= limit,
            s == v@.subrange(lo as int, hi as int),
            find(s, pat@) == find_from(s, pat@, i as nat),
        decreases limit - i,
    {
        let found = occurs_at_exec(v, pat, lo + i);
        proof {
            assert(s.subrange(i as int, i + pat.len()) =~= v@.subrange(lo + i, lo + i + pat.len()));
        }
        if found {
            return Some(i);
        }
        if i == limit {
            assert(find_from(s, pat@, (i + 1) as nat) is None);
            return None;
        }
        i = i + 1;
    }
}

/// The last position of `c` in `v[lo..hi]`, counted from `lo` (`str::rfind`).
pub fn rfind_in(v: &Vec<char>, lo: usize, hi: usize, c: char) -> (r: Option<usize>)
    requires
        lo <= hi <= v.len(),
    ensures
        r matches Some(p) ==> rfind(v@.subrange(lo as int, hi as int), c) == Some(p as int),
        r is None ==> rfind(v@.subrange(lo as int, hi as int), c) is None,
        r matches Some(p) ==> lo + p < hi,
{
    let mut j: usize = hi;
    while j > lo
        invariant
            lo <= j <= hi <= v.len(),
            rfind(v@.subrange(lo as int, hi as int), c) == rfind(v@.subrange(lo as int, j as int), c),
        decreases j - lo,
    {
        proof {
            assert(v@.subrange(lo as int, j as int).drop_last() =~= v@.subrange(lo as int, j - 1));
        }
        if v[j - 1] == c {
            return Some(j - 1 - lo);
        }
        j = j - 1;
    }
    None
}

/// The text of `s` between character positions `a` and `b`, as a `String`.
pub fn text_of(s: &str, v: &Vec<char>, a: usize, b: usize) -> (r: String)
    requires
        v@ == s@,
        a <= b <= v.len(),
    ensures
        r@ == v@.subrange(a as int, b as int),
{
    s.substring_char(a, b).to_owned()
}

} // verus!
