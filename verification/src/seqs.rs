use vstd::prelude::*;

verus! {

/// The pattern `p` occurs in `t` starting at index `i`.
pub open spec fn matches_at(t: Seq<char>, p: Seq<char>, i: int) -> bool {
    0 <= i && i + p.len() <= t.len() && t.subrange(i, i + p.len()) == p
}

/// The pattern `p` occurs somewhere in `t`.
pub open spec fn seq_contains(t: Seq<char>, p: Seq<char>) -> bool {
    exists|i: int| matches_at(t, p, i)
}

/// The first index at or after `i` where `p` occurs in `t`, or -1.
pub open spec fn first_match_from(t: Seq<char>, p: Seq<char>, i: int) -> int
    decreases t.len() + 1 - i,
{
    if i < 0 || i + p.len() > t.len() {
        -1
    } else if matches_at(t, p, i) {
        i
    } else {
        first_match_from(t, p, i + 1)
    }
}

pub proof fn lemma_first_match_from(t: Seq<char>, p: Seq<char>, i: int)
    requires
        i >= 0,
    ensures
        first_match_from(t, p, i) == -1 || first_match_from(t, p, i) >= 0,
        first_match_from(t, p, i) == -1 ==> forall|j: int| j >= i ==> !matches_at(t, p, j),
        first_match_from(t, p, i) >= 0 ==> matches_at(t, p, first_match_from(t, p, i))
            && first_match_from(t, p, i) >= i && (forall|j: int|
            i <= j < first_match_from(t, p, i) ==> !matches_at(t, p, j)),
    decreases t.len() + 1 - i,
{
    if i + p.len() > t.len() {
        assert(forall|j: int| j >= i ==> !matches_at(t, p, j));
    } else if !matches_at(t, p, i) {
        lemma_first_match_from(t, p, i + 1);
    }
}

/// Whether `t` contains `p`, together with where it first does.
pub open spec fn spec_find(t: Seq<char>, p: Seq<char>) -> int {
    first_match_from(t, p, 0)
}

pub proof fn lemma_spec_find(t: Seq<char>, p: Seq<char>)
    ensures
        spec_find(t, p) >= 0 <==> seq_contains(t, p),
        spec_find(t, p) >= 0 ==> matches_at(t, p, spec_find(t, p)) && (forall|j: int|
            0 <= j < spec_find(t, p) ==> !matches_at(t, p, j)),
{
    lemma_first_match_from(t, p, 0);
    let f = spec_find(t, p);
    if f >= 0 {
        assert(matches_at(t, p, f));
        assert(seq_contains(t, p));
    } else {
        assert forall|w: int| !matches_at(t, p, w) by {
            if w >= 0 {
                assert(!matches_at(t, p, w));
            }
        }
        assert(!seq_contains(t, p));
    }
}

/// Whether `p` occurs in `t` starting exactly at `i`.
fn matches_here(t: &Vec<char>, p: &Vec<char>, i: usize) -> (r: bool)
    requires
        i + p@.len() <= t@.len(),
    ensures
        r == matches_at(t@, p@, i as int),
{
    let pl = p.len();
    let tl = t.len();
    let mut j: usize = 0;
    while j < pl
        invariant
            pl == p@.len(),
            tl == t@.len(),
            i + pl <= tl,
            j <= pl,
            forall|k: int| 0 <= k < j ==> t@[i + k] == p@[k],
        decreases pl - j,
    {
        if t[i + j] != p[j] {
            proof {
                assert(t@.subrange(i as int, i + p@.len())[j as int] == t@[i + j]);
            }
            return false;
        }
        j += 1;
    }
    proof {
        assert(t@.subrange(i as int, i + p@.len()) =~= p@);
    }
    true
}

/// The position of the first occurrence of `p` in `t`, if any.
pub fn find_sub(t: &Vec<char>, p: &Vec<char>) -> (r: Option<usize>)
    ensures
        match r {
            Some(i) => spec_find(t@, p@) == i,
            None => spec_find(t@, p@) == -1,
        },
{
    let pl = p.len();
    let tl = t.len();
    if pl > tl {
        return None;
    }
    if pl == 0 {
        proof {
            assert(t@.subrange(0, 0) =~= p@);
            assert(matches_at(t@, p@, 0));
        }
        return Some(0);
    }
    let mut i: usize = 0;
    while i <= tl - pl
        invariant
            pl == p@.len(),
            tl == t@.len(),
            1 <= pl <= tl,
            i <= tl - pl + 1,
            forall|j: int| 0 <= j < i ==> first_match_from(t@, p@, j) == first_match_from(
                t@,
                p@,
                i as int,
            ),
        decreases tl - pl + 1 - i,
    {
        if matches_here(t, p, i) {
            return Some(i);
        }
        i += 1;
    }
    proof {
        assert(first_match_from(t@, p@, 0) == first_match_from(t@, p@, i as int));
    }
    None
}

/// Whether `t` contains `p` anywhere.
pub fn contains_sub(t: &Vec<char>, p: &Vec<char>) -> (r: bool)
    ensures
        r == seq_contains(t@, p@),
{
    let r = find_sub(t, p);
    proof {
        lemma_spec_find(t@, p@);
    }
    r.is_some()
}

/// Appends the characters of a literal to a character buffer.
pub fn push_str_chars(out: &mut Vec<char>, s: &str)
    ensures
        final(out)@ == old(out)@ + s@,
{
    let mut v = crate::strutil::chars_of(s);
    out.append(&mut v);
}


/// Index of the first occurrence of `c` at or after `i`, or -1.
pub open spec fn find_char_from(t: Seq<char>, c: char, i: int) -> int
    decreases t.len() + 1 - i,
{
    if i < 0 || i >= t.len() {
        -1
    } else if t[i] == c {
        i
    } else {
        find_char_from(t, c, i + 1)
    }
}

pub proof fn lemma_find_char_from(t: Seq<char>, c: char, i: int)
    requires
        0 <= i,
    ensures
        find_char_from(t, c, i) == -1 || i <= find_char_from(t, c, i) < t.len(),
        find_char_from(t, c, i) >= 0 ==> t[find_char_from(t, c, i)] == c && (forall|j: int|
            i <= j < find_char_from(t, c, i) ==> t[j] != c),
        find_char_from(t, c, i) == -1 ==> forall|j: int| i <= j < t.len() ==> t[j] != c,
    decreases t.len() + 1 - i,
{
    if 0 <= i < t.len() && t[i] != c {
        lemma_find_char_from(t, c, i + 1);
    }
}

/// One line, with a single carriage return trimmed from its end.
pub open spec fn rtrim_cr(l: Seq<char>) -> Seq<char> {
    if l.len() > 0 && l.last() == '\r' {
        l.drop_last()
    } else {
        l
    }
}

/// The lines of `t` from position `start` on: pieces delimited by
/// newlines, each with one trailing carriage return trimmed; a final
/// newline closes the last line rather than opening an empty one.
pub open spec fn lines_from(t: Seq<char>, start: int) -> Seq<Seq<char>>
    decreases t.len() - start,
    via lines_from_decreases
{
    if start < 0 || start >= t.len() {
        Seq::empty()
    } else {
        let e = find_char_from(t, '\n', start);
        if e < 0 {
            seq![rtrim_cr(t.subrange(start, t.len() as int))]
        } else {
            seq![rtrim_cr(t.subrange(start, e))] + lines_from(t, e + 1)
        }
    }
}

#[via_fn]
proof fn lines_from_decreases(t: Seq<char>, start: int) {
    if 0 <= start < t.len() {
        lemma_find_char_from(t, '\n', start);
    }
}

/// The lines of a transcript.
pub open spec fn spec_lines(t: Seq<char>) -> Seq<Seq<char>> {
    lines_from(t, 0)
}

/// ASCII whitespace, the kind a transcript line may carry: space, tab
/// and carriage return. Rarer Unicode whitespace does not separate
/// tokens here; a report line carrying one tokenizes as if it were
/// printable.
pub open spec fn is_wsp(c: char) -> bool {
    c == ' ' || c == '\t' || c == '\r'
}

/// The text with leading and trailing ASCII whitespace removed.
pub open spec fn spec_trim(t: Seq<char>) -> Seq<char>
    decreases t.len(),
{
    if t.len() == 0 {
        t
    } else if is_wsp(t[0]) {
        spec_trim(t.drop_first())
    } else if is_wsp(t.last()) {
        spec_trim(t.drop_last())
    } else {
        t
    }
}

/// Three-way lexicographic comparison of character sequences by scalar
/// value: -1, 0 or 1.
pub open spec fn lex_cmp(a: Seq<char>, b: Seq<char>) -> int
    decreases a.len(),
{
    if a.len() == 0 && b.len() == 0 {
        0
    } else if a.len() == 0 {
        -1
    } else if b.len() == 0 {
        1
    } else if (a[0] as u32) < (b[0] as u32) {
        -1
    } else if (a[0] as u32) > (b[0] as u32) {
        1
    } else {
        lex_cmp(a.drop_first(), b.drop_first())
    }
}

/// The piece of `t` after the first occurrence of `pat` and before its
/// second occurrence, if `pat` occurs at all: how a split on `pat` reads
/// its second element.
pub open spec fn piece_after(t: Seq<char>, pat: Seq<char>) -> Option<Seq<char>> {
    let f = spec_find(t, pat);
    if f < 0 {
        None
    } else {
        let rest = t.skip(f + pat.len());
        let f2 = spec_find(rest, pat);
        if f2 < 0 {
            Some(rest)
        } else {
            Some(rest.take(f2))
        }
    }
}

/// Whether the character sequences are equal.
pub fn chars_eq(a: &Vec<char>, b: &Vec<char>) -> (r: bool)
    ensures
        r == (a@ == b@),
{
    if a.len() != b.len() {
        return false;
    }
    let n = a.len();
    let mut i: usize = 0;
    while i < n
        invariant
            n == a@.len(),
            n == b@.len(),
            i <= n,
            forall|j: int| 0 <= j < i ==> a@[j] == b@[j],
        decreases n - i,
    {
        if a[i] != b[i] {
            return false;
        }
        i += 1;
    }
    proof {
        assert(a@ =~= b@);
    }
    true
}

/// Three-way lexicographic comparison, executable form.
pub fn cmp_chars(a: &Vec<char>, b: &Vec<char>) -> (r: i8)
    ensures
        r as int == lex_cmp(a@, b@),
{
    let na = a.len();
    let nb = b.len();
    let mut i: usize = 0;
    proof {
        assert(a@.skip(0) =~= a@);
        assert(b@.skip(0) =~= b@);
    }
    while i < na && i < nb
        invariant
            na == a@.len(),
            nb == b@.len(),
            i <= na,
            i <= nb,
            lex_cmp(a@, b@) == lex_cmp(a@.skip(i as int), b@.skip(i as int)),
        decreases na - i,
    {
        let ca = a[i] as u32;
        let cb = b[i] as u32;
        proof {
            assert(a@.skip(i as int)[0] == a@[i as int]);
            assert(b@.skip(i as int)[0] == b@[i as int]);
            assert(a@.skip(i as int).drop_first() =~= a@.skip(i as int + 1));
            assert(b@.skip(i as int).drop_first() =~= b@.skip(i as int + 1));
        }
        if ca < cb {
            return -1;
        }
        if ca > cb {
            return 1;
        }
        i += 1;
    }
    proof {
        assert(a@.skip(i as int).len() == na - i);
        assert(b@.skip(i as int).len() == nb - i);
    }
    if na == nb {
        0
    } else if na < nb {
        proof {
            assert(a@.skip(i as int).len() == 0);
        }
        -1
    } else {
        proof {
            assert(b@.skip(i as int).len() == 0);
        }
        1
    }
}

/// The text with leading and trailing ASCII whitespace removed,
/// executable form.
pub fn trim_chars(t: &Vec<char>) -> (r: Vec<char>)
    ensures
        r@ == spec_trim(t@),
{
    let mut lo: usize = 0;
    let mut hi: usize = t.len();
    proof {
        assert(t@.subrange(0, t@.len() as int) =~= t@);
    }
    while lo < hi && is_wsp_char(t[lo])
        invariant
            lo <= hi <= t@.len(),
            spec_trim(t@) == spec_trim(t@.subrange(lo as int, hi as int)),
        decreases hi - lo,
    {
        proof {
            assert(t@.subrange(lo as int, hi as int).drop_first() =~= t@.subrange(
                lo as int + 1,
                hi as int,
            ));
        }
        lo += 1;
    }
    while lo < hi && is_wsp_char(t[hi - 1])
        invariant
            lo <= hi <= t@.len(),
            spec_trim(t@) == spec_trim(t@.subrange(lo as int, hi as int)),
            lo < hi ==> !is_wsp(t@[lo as int]),
        decreases hi - lo,
    {
        proof {
            assert(t@.subrange(lo as int, hi as int).drop_last() =~= t@.subrange(
                lo as int,
                hi as int - 1,
            ));
        }
        hi -= 1;
    }
    let mut out: Vec<char> = Vec::new();
    let mut i: usize = lo;
    while i < hi
        invariant
            lo <= i <= hi <= t@.len(),
            out@ =~= t@.subrange(lo as int, i as int),
        decreases hi - i,
    {
        out.push(t[i]);
        i += 1;
    }
    proof {
        assert(out@ =~= t@.subrange(lo as int, hi as int));
        if lo < hi {
            assert(!is_wsp(t@.subrange(lo as int, hi as int)[0]));
            assert(!is_wsp(t@.subrange(lo as int, hi as int).last()));
        } else {
            assert(t@.subrange(lo as int, hi as int).len() == 0);
        }
    }
    out
}

fn is_wsp_char(c: char) -> (r: bool)
    ensures
        r == is_wsp(c),
{
    c == ' ' || c == '\t' || c == '\r'
}

/// Splits a transcript into its lines, executable form.
pub fn split_lines(t: &Vec<char>) -> (r: Vec<Vec<char>>)
    ensures
        r@.len() == spec_lines(t@).len(),
        forall|i: int| 0 <= i < r@.len() ==> r@[i]@ == spec_lines(t@)[i],
{
    let n = t.len();
    let mut out: Vec<Vec<char>> = Vec::new();
    let mut start: usize = 0;
    proof {
        assert(spec_lines(t@).skip(0) =~= spec_lines(t@));
    }
    while start < n
        invariant
            n == t@.len(),
            start <= n,
            out@.len() <= spec_lines(t@).len(),
            forall|q: int| 0 <= q < out@.len() ==> out@[q]@ == spec_lines(t@)[q],
            lines_from(t@, start as int) =~= spec_lines(t@).skip(out@.len() as int),
        decreases n - start,
    {
        let mut j: usize = start;
        while j < n && t[j] != '\n'
            invariant
                n == t@.len(),
                start <= j <= n,
                find_char_from(t@, '\n', start as int) == find_char_from(t@, '\n', j as int),
            decreases n - j,
        {
            j += 1;
        }
        proof {
            lemma_find_char_from(t@, '\n', j as int);
        }
        let stop: usize = if j > start && t[j - 1] == '\r' {
            j - 1
        } else {
            j
        };
        let mut line: Vec<char> = Vec::new();
        let mut k: usize = start;
        while k < stop
            invariant
                start <= k <= stop <= t@.len(),
                line@ =~= t@.subrange(start as int, k as int),
            decreases stop - k,
        {
            line.push(t[k]);
            k += 1;
        }
        proof {
            let piece = t@.subrange(start as int, j as int);
            assert(line@ =~= t@.subrange(start as int, stop as int));
            if stop < j {
                assert(piece.last() == t@[j - 1]);
                assert(piece.drop_last() =~= t@.subrange(start as int, stop as int));
            }
            assert(line@ == rtrim_cr(piece));
            let k0 = out@.len() as int;
            if j < n {
                assert(lines_from(t@, start as int) == seq![rtrim_cr(piece)] + lines_from(
                    t@,
                    j + 1,
                ));
            } else {
                assert(t@.subrange(start as int, t@.len() as int) == piece);
                assert(lines_from(t@, start as int) == seq![rtrim_cr(piece)]);
            }
            assert(spec_lines(t@).skip(k0)[0] == rtrim_cr(piece));
            assert(spec_lines(t@).skip(k0).len() >= 1);
            assert(spec_lines(t@)[k0] == rtrim_cr(piece)) by {
                vstd::seq_lib::lemma_seq_skip_index::<Seq<char>>(spec_lines(t@), k0, 0);
            }
            assert(spec_lines(t@).skip(k0).drop_first() =~= spec_lines(t@).skip(k0 + 1));
        }
        out.push(line);
        if j < n {
            start = j + 1;
        } else {
            start = n;
            proof {
                assert(lines_from(t@, n as int) =~= Seq::<Seq<char>>::empty());
                assert(spec_lines(t@).skip(out@.len() as int) =~= Seq::<Seq<char>>::empty());
            }
        }
    }
    proof {
        assert(lines_from(t@, start as int) =~= Seq::<Seq<char>>::empty());
        assert(out@.len() == spec_lines(t@).len());
    }
    out
}


/// The views of a vector of character vectors.
pub open spec fn views_of(lines: Seq<Vec<char>>) -> Seq<Seq<char>> {
    Seq::new(lines.len(), |i: int| lines[i]@)
}

/// First index at or after `j` whose line is blank after trimming, or -1.
pub open spec fn first_blank_from(lines: Seq<Seq<char>>, j: int) -> int
    decreases lines.len() + 1 - j,
{
    if j < 0 || j >= lines.len() {
        -1
    } else if spec_trim(lines[j]).len() == 0 {
        j
    } else {
        first_blank_from(lines, j + 1)
    }
}

pub proof fn lemma_first_blank_from(lines: Seq<Seq<char>>, j: int)
    requires
        0 <= j,
    ensures
        first_blank_from(lines, j) == -1 || j <= first_blank_from(lines, j) < lines.len(),
    decreases lines.len() + 1 - j,
{
    if 0 <= j < lines.len() && spec_trim(lines[j]).len() != 0 {
        lemma_first_blank_from(lines, j + 1);
    }
}

/// Where the report block opened at line `l` ends: the next blank line,
/// or just the line itself.
pub open spec fn block_end(lines: Seq<Seq<char>>, l: int) -> int {
    let e = first_blank_from(lines, l);
    if e < 0 {
        l + 1
    } else {
        e
    }
}

/// First index at or after `i` that is not ASCII whitespace.
pub open spec fn skip_ws_from(t: Seq<char>, i: int) -> int
    decreases t.len() + 1 - i,
{
    if i < 0 || i >= t.len() {
        i
    } else if is_wsp(t[i]) {
        skip_ws_from(t, i + 1)
    } else {
        i
    }
}

pub proof fn lemma_skip_ws_from(t: Seq<char>, i: int)
    requires
        0 <= i <= t.len(),
    ensures
        i <= skip_ws_from(t, i) <= t.len(),
        skip_ws_from(t, i) < t.len() ==> !is_wsp(t[skip_ws_from(t, i)]),
    decreases t.len() + 1 - i,
{
    if i < t.len() && is_wsp(t[i]) {
        lemma_skip_ws_from(t, i + 1);
    }
}

/// First index at or after `i` that is ASCII whitespace, or the end.
pub open spec fn token_end_from(t: Seq<char>, i: int) -> int
    decreases t.len() + 1 - i,
{
    if i < 0 || i >= t.len() {
        i
    } else if !is_wsp(t[i]) {
        token_end_from(t, i + 1)
    } else {
        i
    }
}

pub proof fn lemma_token_end_from(t: Seq<char>, i: int)
    requires
        0 <= i <= t.len(),
    ensures
        i <= token_end_from(t, i) <= t.len(),
        i < t.len() && !is_wsp(t[i]) ==> token_end_from(t, i) > i,
    decreases t.len() + 1 - i,
{
    if i < t.len() && !is_wsp(t[i]) {
        lemma_token_end_from(t, i + 1);
    }
}

/// The `k`-th whitespace-separated token of `t` starting the scan at
/// `i`, if there is one.
pub open spec fn nth_token_from(t: Seq<char>, k: int, i: int) -> Option<Seq<char>>
    decreases t.len() + 1 - i,
    via nth_token_from_decreases
{
    if i < 0 || i > t.len() {
        None
    } else {
        let j = skip_ws_from(t, i);
        if j >= t.len() {
            None
        } else {
            let e = token_end_from(t, j);
            if k <= 0 {
                Some(t.subrange(j, e))
            } else {
                nth_token_from(t, k - 1, e)
            }
        }
    }
}

#[via_fn]
proof fn nth_token_from_decreases(t: Seq<char>, k: int, i: int) {
    if 0 <= i <= t.len() {
        lemma_skip_ws_from(t, i);
        let j = skip_ws_from(t, i);
        if j < t.len() {
            lemma_token_end_from(t, j);
        }
    }
}

/// The `k`-th token of `t`, with tokens separated by ASCII whitespace
/// (see `is_wsp`), if there is one.
pub open spec fn nth_token(t: Seq<char>, k: int) -> Option<Seq<char>> {
    nth_token_from(t, k, 0)
}

/// The `k`-th whitespace-separated token, executable form.
pub fn token_exec(line: &Vec<char>, k: usize) -> (r: Option<Vec<char>>)
    ensures
        match r {
            Some(v) => nth_token(line@, k as int) == Some(v@),
            None => nth_token(line@, k as int) is None,
        },
{
    let n = line.len();
    let mut i: usize = 0;
    let mut left: usize = k;
    loop
        invariant
            n == line@.len(),
            i <= n,
            left <= k,
            nth_token(line@, k as int) == nth_token_from(line@, left as int, i as int),
        decreases n - i,
    {
        let mut j: usize = i;
        while j < n && is_wsp_char(line[j])
            invariant
                n == line@.len(),
                i <= j <= n,
                skip_ws_from(line@, i as int) == skip_ws_from(line@, j as int),
            decreases n - j,
        {
            j += 1;
        }
        proof {
            assert(skip_ws_from(line@, j as int) == j as int);
        }
        if j >= n {
            return None;
        }
        let mut e: usize = j;
        while e < n && !is_wsp_char(line[e])
            invariant
                n == line@.len(),
                j <= e <= n,
                token_end_from(line@, j as int) == token_end_from(line@, e as int),
            decreases n - e,
        {
            e += 1;
        }
        proof {
            assert(token_end_from(line@, e as int) == e as int);
        }
        if left == 0 {
            let mut tok: Vec<char> = Vec::new();
            let mut q: usize = j;
            while q < e
                invariant
                    j <= q <= e <= line@.len(),
                    tok@ =~= line@.subrange(j as int, q as int),
                decreases e - q,
            {
                tok.push(line[q]);
                q += 1;
            }
            return Some(tok);
        }
        proof {
            assert(e > j);
        }
        left -= 1;
        i = e;
    }
}

} // verus!
