use vstd::prelude::*;

use crate::model::{Version, VersionView};
use crate::seqs::{find_char_from, lemma_find_char_from, lex_cmp, cmp_chars};

verus! {

/// The dot-separated identifiers of a pre-release or build string, from
/// position `start`; a trailing dot yields a trailing empty identifier.
pub open spec fn ids_from(t: Seq<char>, start: int) -> Seq<Seq<char>>
    decreases t.len() + 1 - start,
    via ids_from_decreases
{
    if start < 0 || start > t.len() {
        Seq::empty()
    } else {
        let e = find_char_from(t, '.', start);
        if e < 0 {
            seq![t.subrange(start, t.len() as int)]
        } else {
            seq![t.subrange(start, e)] + ids_from(t, e + 1)
        }
    }
}

#[via_fn]
proof fn ids_from_decreases(t: Seq<char>, start: int) {
    if 0 <= start <= t.len() {
        lemma_find_char_from(t, '.', start);
    }
}

pub open spec fn split_ids(t: Seq<char>) -> Seq<Seq<char>> {
    ids_from(t, 0)
}

/// Whether every character is a decimal digit.
pub open spec fn all_digits(t: Seq<char>) -> bool {
    forall|i: int| 0 <= i < t.len() ==> '0' <= #[trigger] t[i] <= '9'
}

/// The identifier with its leading zeros removed.
pub open spec fn trim_zeros(t: Seq<char>) -> Seq<char>
    decreases t.len(),
{
    if t.len() > 0 && t[0] == '0' {
        trim_zeros(t.drop_first())
    } else {
        t
    }
}

/// Three-way order of two pre-release identifiers: numeric identifiers
/// compare numerically (by length, then lexically, as they carry no
/// leading zeros) and rank below alphanumeric ones, which compare in
/// ASCII order.
pub open spec fn pre_ident_cmp(a: Seq<char>, b: Seq<char>) -> int {
    if all_digits(a) && all_digits(b) {
        if a.len() < b.len() {
            -1
        } else if a.len() > b.len() {
            1
        } else {
            lex_cmp(a, b)
        }
    } else if all_digits(a) {
        -1
    } else if all_digits(b) {
        1
    } else {
        lex_cmp(a, b)
    }
}

/// Three-way order of two build identifiers: as for pre-release ones,
/// but numeric identifiers may carry leading zeros, so they compare by
/// their zero-trimmed form first and by their full length last.
pub open spec fn build_ident_cmp(a: Seq<char>, b: Seq<char>) -> int {
    if all_digits(a) && all_digits(b) {
        let ta = trim_zeros(a);
        let tb = trim_zeros(b);
        if ta.len() < tb.len() {
            -1
        } else if ta.len() > tb.len() {
            1
        } else if lex_cmp(ta, tb) != 0 {
            lex_cmp(ta, tb)
        } else if a.len() < b.len() {
            -1
        } else if a.len() > b.len() {
            1
        } else {
            0
        }
    } else if all_digits(a) {
        -1
    } else if all_digits(b) {
        1
    } else {
        lex_cmp(a, b)
    }
}

/// Elementwise order of identifier lists; with every shared position
/// equal, the longer list ranks higher.
pub open spec fn ids_cmp(a: Seq<Seq<char>>, b: Seq<Seq<char>>, build: bool) -> int
    decreases a.len(),
{
    if a.len() == 0 && b.len() == 0 {
        0
    } else if a.len() == 0 {
        -1
    } else if b.len() == 0 {
        1
    } else {
        let c = if build {
            build_ident_cmp(a[0], b[0])
        } else {
            pre_ident_cmp(a[0], b[0])
        };
        if c != 0 {
            c
        } else {
            ids_cmp(a.drop_first(), b.drop_first(), build)
        }
    }
}

/// Pre-release order: a release outranks every pre-release; two
/// pre-releases compare by their identifiers.
pub open spec fn pre_cmp(a: Seq<char>, b: Seq<char>) -> int {
    if a.len() == 0 && b.len() == 0 {
        0
    } else if a.len() == 0 {
        1
    } else if b.len() == 0 {
        -1
    } else {
        ids_cmp(split_ids(a), split_ids(b), false)
    }
}

/// Build-metadata order, the final tie-break.
pub open spec fn build_cmp(a: Seq<char>, b: Seq<char>) -> int {
    ids_cmp(split_ids(a), split_ids(b), true)
}

/// Three-way semantic-version order: numeric triple, then pre-release,
/// then build metadata; versions that did not parse rank above all
/// parsed ones and compare with each other as text.
pub open spec fn version_cmp(a: VersionView, b: VersionView) -> int {
    match (a, b) {
        (VersionView::Unparsed(x), VersionView::Unparsed(y)) => lex_cmp(x, y),
        (VersionView::Unparsed(x), VersionView::Parsed { .. }) => 1,
        (VersionView::Parsed { .. }, VersionView::Unparsed(y)) => -1,
        (
            VersionView::Parsed { major: ma, minor: ia, patch: pa, pre: ra, build: ba },
            VersionView::Parsed { major: mb, minor: ib, patch: pb, pre: rb, build: bb },
        ) => {
            if ma != mb {
                if ma < mb {
                    -1
                } else {
                    1
                }
            } else if ia != ib {
                if ia < ib {
                    -1
                } else {
                    1
                }
            } else if pa != pb {
                if pa < pb {
                    -1
                } else {
                    1
                }
            } else if pre_cmp(ra, rb) != 0 {
                pre_cmp(ra, rb)
            } else {
                build_cmp(ba, bb)
            }
        },
    }
}

/// Splits an identifier string at dots, keeping empty identifiers.
fn split_ids_exec(t: &Vec<char>) -> (r: Vec<Vec<char>>)
    ensures
        r@.len() == split_ids(t@).len(),
        forall|i: int| 0 <= i < r@.len() ==> r@[i]@ == split_ids(t@)[i],
{
    let n = t.len();
    let mut out: Vec<Vec<char>> = Vec::new();
    let mut start: usize = 0;
    proof {
        assert(split_ids(t@).skip(0) =~= split_ids(t@));
    }
    loop
        invariant
            n == t@.len(),
            start <= n,
            out@.len() <= split_ids(t@).len(),
            forall|q: int| 0 <= q < out@.len() ==> out@[q]@ == split_ids(t@)[q],
            ids_from(t@, start as int) =~= split_ids(t@).skip(out@.len() as int),
        decreases n + 1 - start + split_ids(t@).len() - out@.len(),
    {
        let mut j: usize = start;
        while j < n && t[j] != '.'
            invariant
                n == t@.len(),
                start <= j <= n,
                find_char_from(t@, '.', start as int) == find_char_from(t@, '.', j as int),
            decreases n - j,
        {
            j += 1;
        }
        proof {
            lemma_find_char_from(t@, '.', j as int);
        }
        let mut piece: Vec<char> = Vec::new();
        let mut q: usize = start;
        while q < j
            invariant
                start <= q <= j <= t@.len(),
                piece@ =~= t@.subrange(start as int, q as int),
            decreases j - q,
        {
            piece.push(t[q]);
            q += 1;
        }
        let ghost k0 = out@.len() as int;
        proof {
            let sp = split_ids(t@);
            if j < n {
                assert(ids_from(t@, start as int) == seq![t@.subrange(start as int, j as int)]
                    + ids_from(t@, j + 1));
            } else {
                assert(ids_from(t@, start as int) == seq![
                    t@.subrange(start as int, t@.len() as int),
                ]);
            }
            assert(sp.skip(k0)[0] == t@.subrange(start as int, j as int));
            vstd::seq_lib::lemma_seq_skip_index::<Seq<char>>(sp, k0, 0);
            assert(sp[k0] == t@.subrange(start as int, j as int));
            assert(sp.skip(k0).drop_first() =~= sp.skip(k0 + 1));
        }
        out.push(piece);
        if j < n {
            start = j + 1;
        } else {
            proof {
                assert(ids_from(t@, start as int).len() == 1);
                assert(split_ids(t@).skip(out@.len() as int) =~= Seq::<Seq<char>>::empty());
            }
            return out;
        }
    }
}

fn is_all_digits(t: &Vec<char>) -> (r: bool)
    ensures
        r == all_digits(t@),
{
    let n = t.len();
    let mut i: usize = 0;
    while i < n
        invariant
            n == t@.len(),
            i <= n,
            forall|j: int| 0 <= j < i ==> '0' <= #[trigger] t@[j] <= '9',
        decreases n - i,
    {
        let c = t[i];
        if !('0' <= c && c <= '9') {
            return false;
        }
        i += 1;
    }
    true
}

fn trim_zeros_exec(t: &Vec<char>) -> (r: Vec<char>)
    ensures
        r@ == trim_zeros(t@),
{
    let n = t.len();
    let mut lo: usize = 0;
    proof {
        assert(t@.skip(0) =~= t@);
    }
    while lo < n && t[lo] == '0'
        invariant
            n == t@.len(),
            lo <= n,
            trim_zeros(t@) == trim_zeros(t@.skip(lo as int)),
        decreases n - lo,
    {
        proof {
            assert(t@.skip(lo as int)[0] == t@[lo as int]);
            assert(t@.skip(lo as int).drop_first() =~= t@.skip(lo as int + 1));
        }
        lo += 1;
    }
    let mut out: Vec<char> = Vec::new();
    let mut i: usize = lo;
    while i < n
        invariant
            lo <= i <= n == t@.len(),
            out@ =~= t@.subrange(lo as int, i as int),
        decreases n - i,
    {
        out.push(t[i]);
        i += 1;
    }
    proof {
        assert(out@ =~= t@.skip(lo as int));
        if lo < n {
            assert(t@.skip(lo as int)[0] == t@[lo as int]);
        }
    }
    out
}

fn pre_ident_cmp_exec(a: &Vec<char>, b: &Vec<char>) -> (r: i8)
    ensures
        r as int == pre_ident_cmp(a@, b@),
{
    let da = is_all_digits(a);
    let db = is_all_digits(b);
    if da && db {
        if a.len() < b.len() {
            -1
        } else if a.len() > b.len() {
            1
        } else {
            cmp_chars(a, b)
        }
    } else if da {
        -1
    } else if db {
        1
    } else {
        cmp_chars(a, b)
    }
}

fn build_ident_cmp_exec(a: &Vec<char>, b: &Vec<char>) -> (r: i8)
    ensures
        r as int == build_ident_cmp(a@, b@),
{
    let da = is_all_digits(a);
    let db = is_all_digits(b);
    if da && db {
        let ta = trim_zeros_exec(a);
        let tb = trim_zeros_exec(b);
        if ta.len() < tb.len() {
            -1
        } else if ta.len() > tb.len() {
            1
        } else {
            let c = cmp_chars(&ta, &tb);
            if c != 0 {
                c
            } else if a.len() < b.len() {
                -1
            } else if a.len() > b.len() {
                1
            } else {
                0
            }
        }
    } else if da {
        -1
    } else if db {
        1
    } else {
        cmp_chars(a, b)
    }
}

fn ids_cmp_exec(a: &Vec<Vec<char>>, b: &Vec<Vec<char>>, build: bool) -> (r: i8)
    ensures
        r as int == ids_cmp(
            crate::seqs::views_of(a@),
            crate::seqs::views_of(b@),
            build,
        ),
{
    let ghost va = crate::seqs::views_of(a@);
    let ghost vb = crate::seqs::views_of(b@);
    let na = a.len();
    let nb = b.len();
    let mut i: usize = 0;
    proof {
        assert(va.skip(0) =~= va);
        assert(vb.skip(0) =~= vb);
    }
    while i < na && i < nb
        invariant
            na == a@.len(),
            nb == b@.len(),
            i <= na,
            i <= nb,
            va == crate::seqs::views_of(a@),
            vb == crate::seqs::views_of(b@),
            ids_cmp(va, vb, build) == ids_cmp(va.skip(i as int), vb.skip(i as int), build),
        decreases na - i,
    {
        proof {
            vstd::seq_lib::lemma_seq_skip_index::<Seq<char>>(va, i as int, 0);
            vstd::seq_lib::lemma_seq_skip_index::<Seq<char>>(vb, i as int, 0);
            assert(va.skip(i as int)[0] == a@[i as int]@);
            assert(vb.skip(i as int)[0] == b@[i as int]@);
            assert(va.skip(i as int).drop_first() =~= va.skip(i as int + 1));
            assert(vb.skip(i as int).drop_first() =~= vb.skip(i as int + 1));
        }
        let c = if build {
            build_ident_cmp_exec(&a[i], &b[i])
        } else {
            pre_ident_cmp_exec(&a[i], &b[i])
        };
        if c != 0 {
            return c;
        }
        i += 1;
    }
    proof {
        assert(va.skip(i as int).len() == na - i);
        assert(vb.skip(i as int).len() == nb - i);
    }
    if na == nb {
        0
    } else if na < nb {
        -1
    } else {
        1
    }
}

/// Three-way semantic-version comparison, executable form.
pub fn compare_versions(a: &Version, b: &Version) -> (r: i8)
    ensures
        r as int == version_cmp(a@, b@),
{
    match (a, b) {
        (Version::Unparsed(x), Version::Unparsed(y)) => {
            let xv = crate::strutil::chars_of(x.as_str());
            let yv = crate::strutil::chars_of(y.as_str());
            cmp_chars(&xv, &yv)
        },
        (Version::Unparsed(_), Version::Parsed(_)) => 1,
        (Version::Parsed(_), Version::Unparsed(_)) => -1,
        (Version::Parsed(va), Version::Parsed(vb)) => {
            if va.major != vb.major {
                if va.major < vb.major {
                    -1
                } else {
                    1
                }
            } else if va.minor != vb.minor {
                if va.minor < vb.minor {
                    -1
                } else {
                    1
                }
            } else if va.patch != vb.patch {
                if va.patch < vb.patch {
                    -1
                } else {
                    1
                }
            } else {
                let ra = crate::strutil::chars_of(va.pre.as_str());
                let rb = crate::strutil::chars_of(vb.pre.as_str());
                let pc: i8 = if ra.len() == 0 && rb.len() == 0 {
                    0
                } else if ra.len() == 0 {
                    1
                } else if rb.len() == 0 {
                    -1
                } else {
                    let sa = split_ids_exec(&ra);
                    let sb = split_ids_exec(&rb);
                    proof {
                        assert(crate::seqs::views_of(sa@) =~= split_ids(ra@));
                        assert(crate::seqs::views_of(sb@) =~= split_ids(rb@));
                    }
                    ids_cmp_exec(&sa, &sb, false)
                };
                if pc != 0 {
                    pc
                } else {
                    let ba = crate::strutil::chars_of(va.build.as_str());
                    let bb = crate::strutil::chars_of(vb.build.as_str());
                    let sa = split_ids_exec(&ba);
                    let sb = split_ids_exec(&bb);
                    proof {
                        assert(crate::seqs::views_of(sa@) =~= split_ids(ba@));
                        assert(crate::seqs::views_of(sb@) =~= split_ids(bb@));
                    }
                    ids_cmp_exec(&sa, &sb, true)
                }
            }
        },
    }
}

} // verus!
