use vstd::prelude::*;
use vstd::string::StringExecFns;

use crate::model::{Cause, CauseView, Crate, Status, StatusView};
use crate::seqs::{
    block_end, find_char_from, first_blank_from, lemma_find_char_from, lemma_first_blank_from,
    nth_token, piece_after, seq_contains, spec_find, spec_lines, spec_trim, lex_cmp, contains_sub,
    find_sub, split_lines, trim_chars, chars_eq, cmp_chars, token_exec,
};

verus! {

/// A parameter byte of a control sequence: digits, `;` and `?`.
pub open spec fn csi_param_char(c: char) -> bool {
    ('0' <= c && c <= '9') || c == ';' || c == '?'
}

/// A final byte the transcript scrubber recognizes.
pub open spec fn csi_final_char(c: char) -> bool {
    ('A' <= c && c <= 'H') || c == 'J' || c == 'K' || c == 'S' || c == 'T' || c == 'f' || c == 'h'
        || c == 'i' || c == 'l' || c == 'm' || c == 'n' || c == 's' || c == 'u'
}

/// The end of the run of parameter bytes starting at `j`.
pub open spec fn param_run_end(s: Seq<char>, j: int) -> int
    decreases s.len() + 1 - j,
{
    if j < 0 || j >= s.len() {
        j
    } else if csi_param_char(s[j]) {
        param_run_end(s, j + 1)
    } else {
        j
    }
}

pub proof fn lemma_param_run_end(s: Seq<char>, j: int)
    requires
        0 <= j <= s.len(),
    ensures
        j <= param_run_end(s, j) <= s.len(),
        forall|k: int| j <= k < param_run_end(s, j) ==> csi_param_char(s[k]),
        param_run_end(s, j) < s.len() ==> !csi_param_char(s[param_run_end(s, j)]),
    decreases s.len() + 1 - j,
{
    if j < s.len() && csi_param_char(s[j]) {
        lemma_param_run_end(s, j + 1);
    }
}

/// The length of the control sequence starting at the ESC at `i`, or 0
/// when none of the recognized forms starts there: `ESC [ params FINAL`
/// or `ESC ( B`.
pub open spec fn esc_match_len(s: Seq<char>, i: int) -> int {
    if i + 1 < s.len() && s[i + 1] == '[' {
        let j = param_run_end(s, i + 2);
        if j < s.len() && csi_final_char(s[j]) {
            j + 1 - i
        } else {
            0
        }
    } else if i + 2 < s.len() && s[i + 1] == '(' && s[i + 2] == 'B' {
        3
    } else {
        0
    }
}

pub proof fn lemma_esc_match_len(s: Seq<char>, i: int)
    requires
        0 <= i < s.len(),
    ensures
        esc_match_len(s, i) == 0 || 2 <= esc_match_len(s, i) <= s.len() - i,
{
    if i + 1 < s.len() && s[i + 1] == '[' {
        lemma_param_run_end(s, i + 2);
    }
}

/// A transcript with the recognized control sequences removed, scanning
/// from position `i`: an ESC that opens a recognized sequence is removed
/// with it; any other character is kept.
pub open spec fn strip_from(s: Seq<char>, i: int) -> Seq<char>
    decreases s.len() - i,
    via strip_from_decreases
{
    if i < 0 || i >= s.len() {
        Seq::empty()
    } else if s[i] == '\u{1b}' && esc_match_len(s, i) > 0 {
        strip_from(s, i + esc_match_len(s, i))
    } else {
        seq![s[i]] + strip_from(s, i + 1)
    }
}

#[via_fn]
proof fn strip_from_decreases(s: Seq<char>, i: int) {
    if 0 <= i < s.len() {
        lemma_esc_match_len(s, i);
    }
}

/// The transcript with control sequences scrubbed out.
pub open spec fn spec_strip(s: Seq<char>) -> Seq<char> {
    strip_from(s, 0)
}

fn is_param_char(c: char) -> (r: bool)
    ensures
        r == csi_param_char(c),
{
    ('0' <= c && c <= '9') || c == ';' || c == '?'
}

fn is_final_char(c: char) -> (r: bool)
    ensures
        r == csi_final_char(c),
{
    ('A' <= c && c <= 'H') || c == 'J' || c == 'K' || c == 'S' || c == 'T' || c == 'f' || c == 'h'
        || c == 'i' || c == 'l' || c == 'm' || c == 'n' || c == 's' || c == 'u'
}

/// Scrubs the recognized control sequences out of a transcript.
pub fn strip_ansi(s: &Vec<char>) -> (r: Vec<char>)
    ensures
        r@ == spec_strip(s@),
{
    let n = s.len();
    let mut out: Vec<char> = Vec::new();
    let mut i: usize = 0;
    proof {
        assert(out@ + strip_from(s@, 0) =~= strip_from(s@, 0));
    }
    while i < n
        invariant
            n == s@.len(),
            i <= n,
            spec_strip(s@) == out@ + strip_from(s@, i as int),
        decreases n - i,
    {
        let c = s[i];
        if c == '\u{1b}' {
            let mut mlen: usize = 0;
            if n - i > 1 && s[i + 1] == '[' {
                let mut j: usize = i + 2;
                while j < n && is_param_char(s[j])
                    invariant
                        n == s@.len(),
                        i + 2 <= j <= n,
                        param_run_end(s@, i as int + 2) == param_run_end(s@, j as int),
                    decreases n - j,
                {
                    j += 1;
                }
                if j < n && is_final_char(s[j]) {
                    mlen = j + 1 - i;
                }
            } else if n - i > 2 && s[i + 1] == '(' && s[i + 2] == 'B' {
                mlen = 3;
            }
            proof {
                assert(mlen as int == esc_match_len(s@, i as int));
            }
            if mlen > 0 {
                i += mlen;
                proof {
                    assert(spec_strip(s@) == out@ + strip_from(s@, i as int));
                }
            } else {
                out.push(c);
                i += 1;
                proof {
                    assert(out@ + strip_from(s@, i as int) =~= spec_strip(s@));
                }
            }
        } else {
            out.push(c);
            i += 1;
            proof {
                assert(out@ + strip_from(s@, i as int) =~= spec_strip(s@));
            }
        }
    }
    proof {
        assert(strip_from(s@, i as int) =~= Seq::<char>::empty());
        assert(out@ =~= spec_strip(s@));
    }
    out
}


/// The normalized kind of the UB report whose first line is `lines[l]`:
/// a waterfall of substring tests, most specific first; borrow-stack
/// reports are refined by the lines of the block, and the fallback is
/// the report text itself.
pub open spec fn spec_line_kind(lines: Seq<Seq<char>>, l: int) -> Seq<char> {
    let line = lines[l];
    if seq_contains(line, "Data race detected"@) {
        "data race"@
    } else if seq_contains(line, "encountered uninitialized"@) || seq_contains(
        line,
        "this operation requires initialized memory"@,
    ) {
        "uninitialized memory"@
    } else if seq_contains(line, "out-of-bounds"@) {
        "invalid pointer offset"@
    } else if seq_contains(line, "dereferencing pointer failed: null pointer is not a valid pointer"@) {
        "null pointer dereference"@
    } else if seq_contains(line, "encountered 0, but expected something greater or equal to 1"@) {
        "zero-initialized nonzero type"@
    } else if seq_contains(line, "encountered a null reference"@) {
        "null reference"@
    } else if seq_contains(line, "accessing memory with alignment"@) {
        "misaligned pointer dereference"@
    } else if seq_contains(line, "dangling reference"@) {
        "dangling reference"@
    } else if seq_contains(line, "unaligned reference"@) {
        "unaligned reference"@
    } else if seq_contains(line, "incorrect layout on deallocation"@) {
        "incorrect layout on deallocation"@
    } else if seq_contains(line, "deallocating while"@) && seq_contains(line, "is protected"@) {
        "deallocation conflict with dereferenceable"@
    } else if seq_contains(line, "attempting a write access"@) && seq_contains(
        line,
        "only grants SharedReadOnly"@,
    ) {
        "SB-write-via-&"@
    } else if seq_contains(line, "borrow stack"@) || seq_contains(line, "reborrow"@)
        || seq_contains(line, "retag"@) {
        if seq_contains(line, "<untagged>"@) {
            "int-to-ptr cast"@
        } else {
            spec_sb_kind(lines.subrange(l, block_end(lines, l)))
        }
    } else if seq_contains(line, "type validation failed"@) && seq_contains(
        line,
        "encountered pointer"@,
    ) && seq_contains(line, "expected initialized plain (non-pointer) bytes"@) {
        "ptr-int transmute"@
    } else if seq_contains(line, "type validation failed"@) && piece_after(
        line,
        ": encountered"@,
    ) is Some {
        "type validation failed: encountered "@ + spec_trim(
            piece_after(line, ": encountered"@).unwrap(),
        )
    } else {
        match piece_after(line, "Undefined Behavior: "@) {
            Some(p) => spec_trim(p),
            None => Seq::empty(),
        }
    }
}

/// Refinement of a borrow-stack report by the lines of its block.
pub open spec fn spec_sb_kind(block: Seq<Seq<char>>) -> Seq<char> {
    if block.len() > 0 && seq_contains(block[0], "only grants SharedReadOnly"@) && seq_contains(
        block[0],
        "for Unique"@,
    ) {
        "&->&mut"@
    } else if exists|i: int|
        0 <= i < block.len() && #[trigger] seq_contains(block[i], "attempting a write access"@)
            && seq_contains(block[i], "only grants SharedReadOnly"@) {
        "write through pointer based on &"@
    } else if exists|i: int| 0 <= i < block.len() && #[trigger] seq_contains(
        block[i],
        "invalidated"@,
    ) {
        "SB-invalidation"@
    } else if exists|i: int| 0 <= i < block.len() && #[trigger] seq_contains(
        block[i],
        "created due to a retag at offsets [0x0..0x0]"@,
    ) {
        "SB-null-provenance"@
    } else if block.len() > 0 && seq_contains(block[0], "does not exist in the borrow stack"@) {
        "SB-use-outside-provenance"@
    } else if block.len() > 0 && seq_contains(
        block[0],
        "no item granting write access for deallocation"@,
    ) {
        "SB-invalid-dealloc"@
    } else {
        "SB-uncategorized"@
    }
}

/// The package a registry path names: the path component after the
/// registry host directory under `.cargo/registry/src/`.
pub open spec fn registry_pkg(path: Seq<char>) -> Option<Seq<char>> {
    let f = spec_find(path, ".cargo/registry/src/"@);
    let rest = path.skip(f + ".cargo/registry/src/"@.len());
    let h = find_char_from(rest, '/', 0);
    if h < 0 {
        None
    } else {
        let rest2 = rest.skip(h + 1);
        let e = find_char_from(rest2, '/', 0);
        if e < 0 {
            if rest2.len() == 0 {
                None
            } else {
                Some(rest2)
            }
        } else if e == 0 {
            None
        } else {
            Some(rest2.take(e))
        }
    }
}

/// Attribution of a report: walking the backtrace lines after it, the
/// first frame whose path is absolute decides — a registry path yields
/// its package, the local build directory or a relative path ends the
/// search empty; other frames are skipped.
pub open spec fn spec_attribution(ls: Seq<Seq<char>>) -> Option<Seq<char>>
    decreases ls.len(),
{
    if ls.len() == 0 {
        None
    } else {
        let line = ls[0];
        if seq_contains(line, "inside `"@) && seq_contains(line, " at "@) {
            let path = match piece_after(line, " at "@) {
                Some(p) => p,
                None => Seq::empty(),
            };
            if seq_contains(path, "/root/build"@) || path.len() == 0 || path[0] != '/' {
                None
            } else if seq_contains(path, ".cargo/registry/src/"@) {
                registry_pkg(path)
            } else {
                spec_attribution(ls.drop_first())
            }
        } else {
            spec_attribution(ls.drop_first())
        }
    }
}

/// The raw causes of the UB reports from line `l` on, one per report
/// line, in the order the reports appear.
pub open spec fn spec_ub_causes_from(lines: Seq<Seq<char>>, l: int) -> Seq<CauseView>
    decreases lines.len() - l,
{
    if l < 0 || l >= lines.len() {
        Seq::empty()
    } else if seq_contains(lines[l], "Undefined Behavior: "@) {
        seq![
            CauseView { kind: spec_line_kind(lines, l), source: spec_attribution(lines.skip(l)) },
        ] + spec_ub_causes_from(lines, l + 1)
    } else {
        spec_ub_causes_from(lines, l + 1)
    }
}

/// The raw causes of the sanitizer reports from line `l` on: the third
/// whitespace token of each report line (tokens split at ASCII
/// whitespace only), with oversized allocations named canonically; a
/// line without a third token contributes nothing.
pub open spec fn spec_asan_causes_from(lines: Seq<Seq<char>>, l: int) -> Seq<CauseView>
    decreases lines.len() - l,
{
    if l < 0 || l >= lines.len() {
        Seq::empty()
    } else if seq_contains(lines[l], "ERROR: AddressSanitizer: "@) {
        if seq_contains(lines[l], "requested allocation size"@) {
            seq![
                CauseView {
                    kind: "requested allocation size exceeds maximum supported size"@,
                    source: None,
                },
            ] + spec_asan_causes_from(lines, l + 1)
        } else {
            match nth_token(lines[l], 2) {
                Some(t) => seq![CauseView { kind: t, source: None }] + spec_asan_causes_from(
                    lines,
                    l + 1,
                ),
                None => spec_asan_causes_from(lines, l + 1),
            }
        }
    } else {
        spec_asan_causes_from(lines, l + 1)
    }
}

/// The order causes are listed in: by kind, then by attributed package,
/// unattributed first.
pub open spec fn cause_le(a: CauseView, b: CauseView) -> bool {
    let c = lex_cmp(a.kind, b.kind);
    if c != 0 {
        c < 0
    } else {
        match (a.source, b.source) {
            (Option::None, _) => true,
            (Option::Some(x), Option::None) => false,
            (Option::Some(x), Option::Some(y)) => lex_cmp(x, y) <= 0,
        }
    }
}

/// Inserting a cause before the first cause it precedes.
pub open spec fn insert_sorted(c: CauseView, s: Seq<CauseView>) -> Seq<CauseView>
    decreases s.len(),
{
    if s.len() == 0 {
        seq![c]
    } else if cause_le(c, s[0]) {
        seq![c] + s
    } else {
        seq![s[0]] + insert_sorted(c, s.drop_first())
    }
}

/// Sorting the first `n` causes by repeated insertion.
pub open spec fn sort_upto(s: Seq<CauseView>, n: int) -> Seq<CauseView>
    decreases n,
{
    if n <= 0 {
        Seq::empty()
    } else {
        insert_sorted(s[n - 1], sort_upto(s, n - 1))
    }
}

pub open spec fn sort_causes(s: Seq<CauseView>) -> Seq<CauseView> {
    sort_upto(s, s.len() as int)
}

/// Collapsing runs of equal neighbours, keeping the first of each run.
pub open spec fn dedup_adj(s: Seq<CauseView>) -> Seq<CauseView>
    decreases s.len(),
{
    if s.len() <= 1 {
        s
    } else {
        let d = dedup_adj(s.drop_last());
        if s[s.len() - 1] == s[s.len() - 2] {
            d
        } else {
            d.push(s.last())
        }
    }
}

/// The causes as reported: sorted, with duplicates collapsed.
pub open spec fn normalize_causes(s: Seq<CauseView>) -> Seq<CauseView> {
    dedup_adj(sort_causes(s))
}

/// The verdict for a transcript that has already been scrubbed of
/// control sequences: the first matching rule wins.
pub open spec fn spec_classify(t: Seq<char>) -> StatusView {
    if seq_contains(t, "Undefined Behavior: "@) {
        StatusView::UB(normalize_causes(spec_ub_causes_from(spec_lines(t), 0)))
    } else if seq_contains(t, "ERROR: AddressSanitizer: "@) {
        if seq_contains(
            t,
            "WARNING: ASan is ignoring requested __asan_handle_no_return: stack type"@,
        ) {
            StatusView::Error("ASan false positive?"@)
        } else {
            StatusView::UB(normalize_causes(spec_asan_causes_from(spec_lines(t), 0)))
        }
    } else if seq_contains(t, "SIGILL: illegal instruction"@) {
        StatusView::UB(seq![CauseView { kind: "SIGILL debug assertion"@, source: None }])
    } else if seq_contains(t, "attempted to leave type"@) {
        StatusView::UB(
            seq![CauseView { kind: "uninit type which does not permit uninit"@, source: None }],
        )
    } else if seq_contains(t, "Command exited with non-zero status 124"@) {
        StatusView::Error("Timeout"@)
    } else if seq_contains(t, "Command exited with non-zero status 255"@) {
        StatusView::Error("OOM"@)
    } else if seq_contains(t, "Command exited with non-zero status"@) {
        StatusView::Error(Seq::empty())
    } else {
        StatusView::Passing
    }
}

/// The verdict for a raw transcript: scrub, then classify.
pub open spec fn spec_diagnose(raw: Seq<char>) -> StatusView {
    spec_classify(spec_strip(raw))
}


/// The views of a vector of causes.
pub open spec fn views_c(s: Seq<Cause>) -> Seq<CauseView> {
    Seq::new(s.len(), |i: int| s[i]@)
}

/// A cause rebuilt from a borrowed one.
fn copy_cause(a: &Cause) -> (r: Cause)
    ensures
        r@ == a@,
{
    Cause {
        kind: a.kind.clone(),
        source_crate: match &a.source_crate {
            Some(x) => Some(x.clone()),
            None => None,
        },
    }
}

/// Whether `a` comes no later than `b` in the cause order.
fn cause_le_exec(a: &Cause, b: &Cause) -> (r: bool)
    ensures
        r == cause_le(a@, b@),
{
    let ka = crate::strutil::chars_of(a.kind.as_str());
    let kb = crate::strutil::chars_of(b.kind.as_str());
    let c = cmp_chars(&ka, &kb);
    if c != 0 {
        c < 0
    } else {
        match (&a.source_crate, &b.source_crate) {
            (Option::None, _) => true,
            (Option::Some(_), Option::None) => false,
            (Option::Some(x), Option::Some(y)) => {
                let xv = crate::strutil::chars_of(x.as_str());
                let yv = crate::strutil::chars_of(y.as_str());
                cmp_chars(&xv, &yv) <= 0
            },
        }
    }
}

/// Whether the two causes are the same.
fn cause_eq_exec(a: &Cause, b: &Cause) -> (r: bool)
    ensures
        r == (a@ == b@),
{
    let ka = crate::strutil::chars_of(a.kind.as_str());
    let kb = crate::strutil::chars_of(b.kind.as_str());
    if !chars_eq(&ka, &kb) {
        return false;
    }
    match (&a.source_crate, &b.source_crate) {
        (Option::None, Option::None) => true,
        (Option::Some(x), Option::Some(y)) => {
            let xv = crate::strutil::chars_of(x.as_str());
            let yv = crate::strutil::chars_of(y.as_str());
            chars_eq(&xv, &yv)
        },
        _ => false,
    }
}

/// Inserting before the first later element reproduces the insertion
/// picture of `insert_sorted`.
proof fn lemma_insert_at(c: CauseView, s: Seq<CauseView>, pos: int)
    requires
        0 <= pos <= s.len(),
        forall|j: int| 0 <= j < pos ==> !cause_le(c, s[j]),
        pos < s.len() ==> cause_le(c, s[pos]),
    ensures
        insert_sorted(c, s) =~= s.take(pos) + seq![c] + s.skip(pos),
    decreases s.len(),
{
    if s.len() == 0 {
        assert(insert_sorted(c, s) =~= s.take(pos) + seq![c] + s.skip(pos));
    } else if cause_le(c, s[0]) {
        assert(pos == 0);
        assert(seq![c] + s =~= s.take(0) + seq![c] + s.skip(0));
    } else {
        assert(pos >= 1);
        let d = s.drop_first();
        assert(forall|j: int| 0 <= j < pos - 1 ==> d[j] == s[j + 1]);
        assert(pos - 1 < d.len() ==> cause_le(c, d[pos - 1]));
        lemma_insert_at(c, d, pos - 1);
        assert(seq![s[0]] + (d.take(pos - 1) + seq![c] + d.skip(pos - 1)) =~= s.take(pos)
            + seq![c] + s.skip(pos));
    }
}

/// Sorts causes by repeated insertion.
fn sort_causes_exec(input: &Vec<Cause>) -> (r: Vec<Cause>)
    ensures
        views_c(r@) == sort_causes(views_c(input@)),
{
    let n = input.len();
    let mut out: Vec<Cause> = Vec::new();
    let mut i: usize = 0;
    proof {
        assert(views_c(out@) =~= sort_upto(views_c(input@), 0));
    }
    while i < n
        invariant
            n == input@.len(),
            i <= n,
            views_c(out@) == sort_upto(views_c(input@), i as int),
        decreases n - i,
    {
        let c = copy_cause(&input[i]);
        let m = out.len();
        let mut pos: usize = 0;
        while pos < m && !cause_le_exec(&c, &out[pos])
            invariant
                m == out@.len(),
                pos <= m,
                c@ == input@[i as int]@,
                forall|j: int| 0 <= j < pos ==> !cause_le(c@, #[trigger] views_c(out@)[j]),
            decreases m - pos,
        {
            proof {
                assert(views_c(out@)[pos as int] == out@[pos as int]@);
            }
            pos += 1;
        }
        proof {
            if pos < m {
                assert(views_c(out@)[pos as int] == out@[pos as int]@);
            }
            lemma_insert_at(c@, views_c(out@), pos as int);
        }
        let ghost prev = views_c(out@);
        out.insert(pos, c);
        proof {
            assert(views_c(out@) =~= prev.take(pos as int) + seq![c@] + prev.skip(pos as int));
            assert(views_c(input@)[i as int] == input@[i as int]@);
            assert(views_c(out@) =~= sort_upto(views_c(input@), i as int + 1));
        }
        i += 1;
    }
    out
}

/// Collapses runs of equal neighbours, keeping the first of each.
fn dedup_causes_exec(input: &Vec<Cause>) -> (r: Vec<Cause>)
    ensures
        views_c(r@) == dedup_adj(views_c(input@)),
{
    let n = input.len();
    let mut out: Vec<Cause> = Vec::new();
    let mut i: usize = 0;
    proof {
        assert(views_c(input@).take(0) =~= Seq::<CauseView>::empty());
        assert(views_c(out@) =~= dedup_adj(views_c(input@).take(0)));
    }
    while i < n
        invariant
            n == input@.len(),
            i <= n,
            views_c(out@) == dedup_adj(views_c(input@).take(i as int)),
        decreases n - i,
    {
        let keep = if i == 0 {
            true
        } else {
            !cause_eq_exec(&input[i], &input[i - 1])
        };
        let ghost tv = views_c(input@).take(i as int + 1);
        proof {
            assert(tv.drop_last() =~= views_c(input@).take(i as int));
            assert(tv[i as int] == input@[i as int]@);
            if i >= 1 {
                assert(tv[i as int - 1] == input@[i as int - 1]@);
            }
        }
        if keep {
            out.push(copy_cause(&input[i]));
            proof {
                if i == 0 {
                    assert(tv =~= seq![input@[0]@]);
                    assert(dedup_adj(tv) == tv);
                    assert(views_c(out@) =~= tv);
                } else {
                    assert(dedup_adj(tv) == dedup_adj(tv.drop_last()).push(tv.last()));
                    assert(views_c(out@) =~= dedup_adj(tv.drop_last()).push(tv.last()));
                }
            }
        } else {
            proof {
                assert(dedup_adj(tv) == dedup_adj(tv.drop_last()));
            }
        }
        i += 1;
    }
    proof {
        assert(views_c(input@).take(n as int) =~= views_c(input@));
    }
    out
}


/// Position of the first `c` in `t`, if any.
fn find_char_exec(t: &Vec<char>, c: char) -> (r: Option<usize>)
    ensures
        match r {
            Some(i) => find_char_from(t@, c, 0) == i,
            None => find_char_from(t@, c, 0) == -1,
        },
{
    let n = t.len();
    let mut i: usize = 0;
    while i < n
        invariant
            n == t@.len(),
            i <= n,
            find_char_from(t@, c, 0) == find_char_from(t@, c, i as int),
        decreases n - i,
    {
        if t[i] == c {
            return Some(i);
        }
        i += 1;
    }
    None
}

/// Copies `t[lo..hi]` out.
fn copy_range(t: &Vec<char>, lo: usize, hi: usize) -> (r: Vec<char>)
    requires
        lo <= hi <= t@.len(),
    ensures
        r@ == t@.subrange(lo as int, hi as int),
{
    let mut out: Vec<char> = Vec::new();
    let mut i: usize = lo;
    while i < hi
        invariant
            lo <= i <= hi <= t@.len(),
            out@ =~= t@.subrange(lo as int, i as int),
        decreases hi - i,
    {
        out.push(t[i]);
        i += 1;
    }
    proof {
        assert(out@ =~= t@.subrange(lo as int, hi as int));
    }
    out
}

/// The piece between the first and second occurrence of `pat`, if `pat`
/// occurs at all.
fn piece_after_exec(line: &Vec<char>, pat: &Vec<char>) -> (r: Option<Vec<char>>)
    ensures
        match r {
            Some(v) => piece_after(line@, pat@) == Some(v@),
            None => piece_after(line@, pat@) is None,
        },
{
    match find_sub(line, pat) {
        None => None,
        Some(f) => {
            let ll = line.len();
            proof {
                crate::seqs::lemma_spec_find(line@, pat@);
                assert(f + pat@.len() <= ll);
            }
            let start = f + pat.len();
            let rest = copy_range(line, start, ll);
            proof {
                assert(rest@ =~= line@.skip(f + pat@.len()));
            }
            match find_sub(&rest, pat) {
                None => Some(rest),
                Some(f2) => {
                    proof {
                        crate::seqs::lemma_spec_find(rest@, pat@);
                    }
                    let piece = copy_range(&rest, 0, f2);
                    proof {
                        assert(piece@ =~= rest@.take(f2 as int));
                    }
                    Some(piece)
                },
            }
        },
    }
}

/// The package named by a registry path.
fn registry_pkg_exec(path: &Vec<char>) -> (r: Option<Vec<char>>)
    requires
        seq_contains(path@, ".cargo/registry/src/"@),
    ensures
        match r {
            Some(v) => registry_pkg(path@) == Some(v@),
            None => registry_pkg(path@) is None,
        },
{
    let pat = crate::strutil::chars_of(".cargo/registry/src/");
    let f = match find_sub(path, &pat) {
        Some(f) => f,
        None => {
            proof {
                crate::seqs::lemma_spec_find(path@, pat@);
            }
            return None;
        },
    };
    let pl = path.len();
    proof {
        crate::seqs::lemma_spec_find(path@, pat@);
        assert(f + pat@.len() <= pl);
    }
    let rest = copy_range(path, f + pat.len(), pl);
    proof {
        assert(rest@ =~= path@.skip(f + ".cargo/registry/src/"@.len()));
    }
    let h = match find_char_exec(&rest, '/') {
        Some(h) => h,
        None => {
            return None;
        },
    };
    proof {
        crate::seqs::lemma_find_char_from(rest@, '/', 0);
    }
    let rest2 = copy_range(&rest, h + 1, rest.len());
    proof {
        assert(rest2@ =~= rest@.skip(h + 1));
    }
    match find_char_exec(&rest2, '/') {
        None => {
            if rest2.len() == 0 {
                None
            } else {
                Some(rest2)
            }
        },
        Some(e) => {
            if e == 0 {
                None
            } else {
                proof {
                    crate::seqs::lemma_find_char_from(rest2@, '/', 0);
                }
                let piece = copy_range(&rest2, 0, e);
                proof {
                    assert(piece@ =~= rest2@.take(e as int));
                }
                Some(piece)
            }
        },
    }
}

/// Attribution of the report starting at line `l`.
fn attribution(lines: &Vec<Vec<char>>, l: usize) -> (r: Option<Vec<char>>)
    requires
        l <= lines@.len(),
    ensures
        match r {
            Some(v) => spec_attribution(crate::seqs::views_of(lines@).skip(l as int)) == Some(v@),
            None => spec_attribution(crate::seqs::views_of(lines@).skip(l as int)) is None,
        },
{
    let n = lines.len();
    let inside_pat = crate::strutil::chars_of("inside `");
    let at_pat = crate::strutil::chars_of(" at ");
    let build_pat = crate::strutil::chars_of("/root/build");
    let reg_pat = crate::strutil::chars_of(".cargo/registry/src/");
    let mut k: usize = l;
    let ghost views = crate::seqs::views_of(lines@);
    while k < n
        invariant
            n == lines@.len(),
            l <= k <= n,
            views == crate::seqs::views_of(lines@),
            inside_pat@ == "inside `"@,
            at_pat@ == " at "@,
            build_pat@ == "/root/build"@,
            reg_pat@ == ".cargo/registry/src/"@,
            spec_attribution(views.skip(l as int)) == spec_attribution(views.skip(k as int)),
        decreases n - k,
    {
        let line = &lines[k];
        proof {
            vstd::seq_lib::lemma_seq_skip_index::<Seq<char>>(views, k as int, 0);
            assert(views.skip(k as int)[0] == views[k as int]);
            assert(views[k as int] == lines@[k as int]@);
            assert(views.skip(k as int).drop_first() =~= views.skip(k as int + 1));
        }
        if contains_sub(line, &inside_pat) && contains_sub(line, &at_pat) {
            let path = match piece_after_exec(line, &at_pat) {
                Some(p) => p,
                None => Vec::new(),
            };
            if contains_sub(&path, &build_pat) || path.len() == 0 || path[0] != '/' {
                return None;
            } else if contains_sub(&path, &reg_pat) {
                return registry_pkg_exec(&path);
            }
        }
        k += 1;
    }
    proof {
        assert(views.skip(n as int) =~= Seq::<Seq<char>>::empty());
    }
    None
}

/// Whether any line in `[lo, hi)` contains `a`, and `b` too when given.
fn any_line_with(lines: &Vec<Vec<char>>, lo: usize, hi: usize, a: &Vec<char>, b: Option<
    &Vec<char>,
>) -> (r: bool)
    requires
        lo <= hi <= lines@.len(),
    ensures
        r == exists|i: int|
            lo <= i < hi && #[trigger] seq_contains(lines@[i]@, a@) && (match b {
                Some(bv) => seq_contains(lines@[i]@, bv@),
                None => true,
            }),
{
    let mut i: usize = lo;
    while i < hi
        invariant
            lo <= i <= hi <= lines@.len(),
            forall|j: int|
                lo <= j < i ==> !(#[trigger] seq_contains(lines@[j]@, a@) && (match b {
                    Some(bv) => seq_contains(lines@[j]@, bv@),
                    None => true,
                })),
        decreases hi - i,
    {
        let hit_a = contains_sub(&lines[i], a);
        let hit = if hit_a {
            match b {
                Some(bv) => contains_sub(&lines[i], bv),
                None => true,
            }
        } else {
            false
        };
        if hit {
            return true;
        }
        i += 1;
    }
    false
}

/// The borrow-stack refinement over the block `[lo, hi)`.
fn diagnose_sb(lines: &Vec<Vec<char>>, lo: usize, hi: usize) -> (r: Vec<char>)
    requires
        lo <= hi <= lines@.len(),
    ensures
        r@ == spec_sb_kind(crate::seqs::views_of(lines@).subrange(lo as int, hi as int)),
{
    let ghost block = crate::seqs::views_of(lines@).subrange(lo as int, hi as int);
    proof {
        assert(forall|i: int| 0 <= i < hi - lo ==> block[i] == lines@[lo + i]@);
    }
    let p_shared = crate::strutil::chars_of("only grants SharedReadOnly");
    let p_unique = crate::strutil::chars_of("for Unique");
    let p_write = crate::strutil::chars_of("attempting a write access");
    let p_inval = crate::strutil::chars_of("invalidated");
    let p_null = crate::strutil::chars_of("created due to a retag at offsets [0x0..0x0]");
    let p_exist = crate::strutil::chars_of("does not exist in the borrow stack");
    let p_deall = crate::strutil::chars_of("no item granting write access for deallocation");
    if lo < hi && contains_sub(&lines[lo], &p_shared) && contains_sub(&lines[lo], &p_unique) {
        proof {
            assert(block[0] == lines@[lo as int]@);
        }
        return crate::strutil::chars_of("&->&mut");
    }
    let w = any_line_with(lines, lo, hi, &p_write, Some(&p_shared));
    proof {
        assert(w == exists|i: int|
            0 <= i < block.len() && #[trigger] seq_contains(block[i], "attempting a write access"@)
                && seq_contains(block[i], "only grants SharedReadOnly"@)) by {
            if w {
                let i = choose|i: int|
                    lo <= i < hi && #[trigger] seq_contains(lines@[i]@, p_write@) && seq_contains(
                        lines@[i]@,
                        p_shared@,
                    );
                assert(seq_contains(block[i - lo], "attempting a write access"@));
                assert(seq_contains(block[i - lo], "only grants SharedReadOnly"@));
            } else {
                if exists|i: int|
                    0 <= i < block.len() && #[trigger] seq_contains(
                        block[i],
                        "attempting a write access"@,
                    ) && seq_contains(block[i], "only grants SharedReadOnly"@) {
                    let i = choose|i: int|
                        0 <= i < block.len() && #[trigger] seq_contains(
                            block[i],
                            "attempting a write access"@,
                        ) && seq_contains(block[i], "only grants SharedReadOnly"@);
                    assert(seq_contains(lines@[lo + i]@, p_write@));
                    assert(seq_contains(lines@[lo + i]@, p_shared@));
                }
            }
        }
    }
    if w {
        return crate::strutil::chars_of("write through pointer based on &");
    }
    let v = any_line_with(lines, lo, hi, &p_inval, None);
    proof {
        assert(v == exists|i: int|
            0 <= i < block.len() && #[trigger] seq_contains(block[i], "invalidated"@)) by {
            if v {
                let i = choose|i: int|
                    lo <= i < hi && #[trigger] seq_contains(lines@[i]@, p_inval@);
                assert(seq_contains(block[i - lo], "invalidated"@));
            } else {
                if exists|i: int|
                    0 <= i < block.len() && #[trigger] seq_contains(block[i], "invalidated"@) {
                    let i = choose|i: int|
                        0 <= i < block.len() && #[trigger] seq_contains(block[i], "invalidated"@);
                    assert(seq_contains(lines@[lo + i]@, p_inval@));
                }
            }
        }
    }
    if v {
        return crate::strutil::chars_of("SB-invalidation");
    }
    let z = any_line_with(lines, lo, hi, &p_null, None);
    proof {
        assert(z == exists|i: int|
            0 <= i < block.len() && #[trigger] seq_contains(
                block[i],
                "created due to a retag at offsets [0x0..0x0]"@,
            )) by {
            if z {
                let i = choose|i: int| lo <= i < hi && #[trigger] seq_contains(lines@[i]@, p_null@);
                assert(seq_contains(block[i - lo], "created due to a retag at offsets [0x0..0x0]"@));
            } else {
                if exists|i: int|
                    0 <= i < block.len() && #[trigger] seq_contains(
                        block[i],
                        "created due to a retag at offsets [0x0..0x0]"@,
                    ) {
                    let i = choose|i: int|
                        0 <= i < block.len() && #[trigger] seq_contains(
                            block[i],
                            "created due to a retag at offsets [0x0..0x0]"@,
                        );
                    assert(seq_contains(lines@[lo + i]@, p_null@));
                }
            }
        }
    }
    if z {
        return crate::strutil::chars_of("SB-null-provenance");
    }
    if lo < hi && contains_sub(&lines[lo], &p_exist) {
        proof {
            assert(block[0] == lines@[lo as int]@);
        }
        return crate::strutil::chars_of("SB-use-outside-provenance");
    }
    if lo < hi && contains_sub(&lines[lo], &p_deall) {
        proof {
            assert(block[0] == lines@[lo as int]@);
        }
        return crate::strutil::chars_of("SB-invalid-dealloc");
    }
    proof {
        if block.len() > 0 {
            assert(block[0] == lines@[lo as int]@);
        }
    }
    crate::strutil::chars_of("SB-uncategorized")
}


/// The end of the report block opened at line `l`, executable form.
fn block_end_exec(lines: &Vec<Vec<char>>, l: usize) -> (r: usize)
    requires
        l < lines@.len(),
    ensures
        r as int == block_end(crate::seqs::views_of(lines@), l as int),
        l <= r <= lines@.len(),
{
    let ghost views = crate::seqs::views_of(lines@);
    let n = lines.len();
    let mut j: usize = l;
    while j < n
        invariant
            n == lines@.len(),
            l <= j <= n,
            views == crate::seqs::views_of(lines@),
            first_blank_from(views, l as int) == first_blank_from(views, j as int),
        decreases n - j,
    {
        let t = trim_chars(&lines[j]);
        proof {
            assert(views[j as int] == lines@[j as int]@);
        }
        if t.len() == 0 {
            proof {
                assert(first_blank_from(views, j as int) == j as int);
            }
            return j;
        }
        j += 1;
    }
    proof {
        assert(first_blank_from(views, n as int) == -1);
        lemma_first_blank_from(views, l as int);
    }
    l + 1
}

/// The normalized kind of the UB report at line `l`, executable form.
fn line_kind_exec(lines: &Vec<Vec<char>>, l: usize) -> (r: Vec<char>)
    requires
        l < lines@.len(),
    ensures
        r@ == spec_line_kind(crate::seqs::views_of(lines@), l as int),
{
    let ghost views = crate::seqs::views_of(lines@);
    proof {
        assert(views[l as int] == lines@[l as int]@);
    }
    let line = &lines[l];
    let p = crate::strutil::chars_of("Data race detected");
    if contains_sub(line, &p) {
        return crate::strutil::chars_of("data race");
    }
    let p1 = crate::strutil::chars_of("encountered uninitialized");
    let p2 = crate::strutil::chars_of("this operation requires initialized memory");
    if contains_sub(line, &p1) || contains_sub(line, &p2) {
        return crate::strutil::chars_of("uninitialized memory");
    }
    let p = crate::strutil::chars_of("out-of-bounds");
    if contains_sub(line, &p) {
        return crate::strutil::chars_of("invalid pointer offset");
    }
    let p = crate::strutil::chars_of(
        "dereferencing pointer failed: null pointer is not a valid pointer",
    );
    if contains_sub(line, &p) {
        return crate::strutil::chars_of("null pointer dereference");
    }
    let p = crate::strutil::chars_of("encountered 0, but expected something greater or equal to 1");
    if contains_sub(line, &p) {
        return crate::strutil::chars_of("zero-initialized nonzero type");
    }
    let p = crate::strutil::chars_of("encountered a null reference");
    if contains_sub(line, &p) {
        return crate::strutil::chars_of("null reference");
    }
    let p = crate::strutil::chars_of("accessing memory with alignment");
    if contains_sub(line, &p) {
        return crate::strutil::chars_of("misaligned pointer dereference");
    }
    let p = crate::strutil::chars_of("dangling reference");
    if contains_sub(line, &p) {
        return crate::strutil::chars_of("dangling reference");
    }
    let p = crate::strutil::chars_of("unaligned reference");
    if contains_sub(line, &p) {
        return crate::strutil::chars_of("unaligned reference");
    }
    let p = crate::strutil::chars_of("incorrect layout on deallocation");
    if contains_sub(line, &p) {
        return crate::strutil::chars_of("incorrect layout on deallocation");
    }
    let p1 = crate::strutil::chars_of("deallocating while");
    let p2 = crate::strutil::chars_of("is protected");
    if contains_sub(line, &p1) && contains_sub(line, &p2) {
        return crate::strutil::chars_of("deallocation conflict with dereferenceable");
    }
    let p1 = crate::strutil::chars_of("attempting a write access");
    let p2 = crate::strutil::chars_of("only grants SharedReadOnly");
    if contains_sub(line, &p1) && contains_sub(line, &p2) {
        return crate::strutil::chars_of("SB-write-via-&");
    }
    let p1 = crate::strutil::chars_of("borrow stack");
    let p2 = crate::strutil::chars_of("reborrow");
    let p3 = crate::strutil::chars_of("retag");
    if contains_sub(line, &p1) || contains_sub(line, &p2) || contains_sub(line, &p3) {
        let p4 = crate::strutil::chars_of("<untagged>");
        if contains_sub(line, &p4) {
            return crate::strutil::chars_of("int-to-ptr cast");
        }
        let e = block_end_exec(lines, l);
        return diagnose_sb(lines, l, e);
    }
    let pv = crate::strutil::chars_of("type validation failed");
    let has_tv = contains_sub(line, &pv);
    if has_tv {
        let p1 = crate::strutil::chars_of("encountered pointer");
        let p2 = crate::strutil::chars_of("expected initialized plain (non-pointer) bytes");
        if contains_sub(line, &p1) && contains_sub(line, &p2) {
            return crate::strutil::chars_of("ptr-int transmute");
        }
        let pe = crate::strutil::chars_of(": encountered");
        match piece_after_exec(line, &pe) {
            Some(piece) => {
                let trimmed = trim_chars(&piece);
                let mut out = crate::strutil::chars_of("type validation failed: encountered ");
                let mut tv2 = trimmed;
                out.append(&mut tv2);
                proof {
                    assert(out@ =~= "type validation failed: encountered "@ + spec_trim(
                        piece_after(lines@[l as int]@, ": encountered"@).unwrap(),
                    ));
                }
                return out;
            },
            None => {},
        }
    }
    let pu = crate::strutil::chars_of("Undefined Behavior: ");
    match piece_after_exec(line, &pu) {
        Some(piece) => trim_chars(&piece),
        None => Vec::new(),
    }
}

/// The normalized, ordered causes of the UB reports in a transcript's
/// lines.
fn ub_causes(lines: &Vec<Vec<char>>) -> (r: Vec<Cause>)
    ensures
        views_c(r@) == normalize_causes(spec_ub_causes_from(crate::seqs::views_of(lines@), 0)),
{
    let ghost views = crate::seqs::views_of(lines@);
    let n = lines.len();
    let pat = crate::strutil::chars_of("Undefined Behavior: ");
    let mut raw: Vec<Cause> = Vec::new();
    let mut l: usize = 0;
    proof {
        assert(views_c(raw@) + spec_ub_causes_from(views, 0) =~= spec_ub_causes_from(views, 0));
    }
    while l < n
        invariant
            n == lines@.len(),
            l <= n,
            views == crate::seqs::views_of(lines@),
            pat@ == "Undefined Behavior: "@,
            spec_ub_causes_from(views, 0) == views_c(raw@) + spec_ub_causes_from(views, l as int),
        decreases n - l,
    {
        proof {
            assert(views[l as int] == lines@[l as int]@);
        }
        if contains_sub(&lines[l], &pat) {
            let kindv = line_kind_exec(lines, l);
            let attr = attribution(lines, l);
            let c = Cause {
                kind: crate::strutil::string_from_chars(&kindv),
                source_crate: match attr {
                    Some(v) => Some(crate::strutil::string_from_chars(&v)),
                    None => None,
                },
            };
            proof {
                assert(c@ == (CauseView {
                    kind: spec_line_kind(views, l as int),
                    source: spec_attribution(views.skip(l as int)),
                }));
            }
            let ghost prev = views_c(raw@);
            raw.push(c);
            proof {
                assert(views_c(raw@) =~= prev.push(c@));
                assert(views_c(raw@) + spec_ub_causes_from(views, l as int + 1)
                    =~= spec_ub_causes_from(views, 0));
            }
        } else {
            proof {
                assert(views_c(raw@) + spec_ub_causes_from(views, l as int + 1)
                    =~= spec_ub_causes_from(views, 0));
            }
        }
        l += 1;
    }
    proof {
        assert(spec_ub_causes_from(views, n as int) =~= Seq::<CauseView>::empty());
        assert(views_c(raw@) =~= spec_ub_causes_from(views, 0));
    }
    let sorted = sort_causes_exec(&raw);
    let deduped = dedup_causes_exec(&sorted);
    deduped
}

/// The normalized, ordered causes of the sanitizer reports in a
/// transcript's lines.
fn asan_causes(lines: &Vec<Vec<char>>) -> (r: Vec<Cause>)
    ensures
        views_c(r@) == normalize_causes(spec_asan_causes_from(crate::seqs::views_of(lines@), 0)),
{
    let ghost views = crate::seqs::views_of(lines@);
    let n = lines.len();
    let pat = crate::strutil::chars_of("ERROR: AddressSanitizer: ");
    let alloc_pat = crate::strutil::chars_of("requested allocation size");
    let mut raw: Vec<Cause> = Vec::new();
    let mut l: usize = 0;
    proof {
        assert(views_c(raw@) + spec_asan_causes_from(views, 0) =~= spec_asan_causes_from(
            views,
            0,
        ));
    }
    while l < n
        invariant
            n == lines@.len(),
            l <= n,
            views == crate::seqs::views_of(lines@),
            pat@ == "ERROR: AddressSanitizer: "@,
            alloc_pat@ == "requested allocation size"@,
            spec_asan_causes_from(views, 0) == views_c(raw@) + spec_asan_causes_from(
                views,
                l as int,
            ),
        decreases n - l,
    {
        proof {
            assert(views[l as int] == lines@[l as int]@);
        }
        if contains_sub(&lines[l], &pat) {
            let kind: Option<Vec<char>> = if contains_sub(&lines[l], &alloc_pat) {
                Some(
                    crate::strutil::chars_of(
                        "requested allocation size exceeds maximum supported size",
                    ),
                )
            } else {
                token_exec(&lines[l], 2)
            };
            match kind {
                Some(kv) => {
                    let c = Cause {
                        kind: crate::strutil::string_from_chars(&kv),
                        source_crate: None,
                    };
                    let ghost prev = views_c(raw@);
                    raw.push(c);
                    proof {
                        assert(views_c(raw@) =~= prev.push(c@));
                        assert(views_c(raw@) + spec_asan_causes_from(views, l as int + 1)
                            =~= spec_asan_causes_from(views, 0));
                    }
                },
                None => {
                    proof {
                        assert(views_c(raw@) + spec_asan_causes_from(views, l as int + 1)
                            =~= spec_asan_causes_from(views, 0));
                    }
                },
            }
        } else {
            proof {
                assert(views_c(raw@) + spec_asan_causes_from(views, l as int + 1)
                    =~= spec_asan_causes_from(views, 0));
            }
        }
        l += 1;
    }
    proof {
        assert(spec_asan_causes_from(views, n as int) =~= Seq::<CauseView>::empty());
        assert(views_c(raw@) =~= spec_asan_causes_from(views, 0));
    }
    let sorted = sort_causes_exec(&raw);
    let deduped = dedup_causes_exec(&sorted);
    deduped
}

/// The verdict for one raw transcript: control sequences are scrubbed,
/// then the first matching classification rule wins.
pub fn diagnose_transcript(output: &str) -> (r: Status)
    ensures
        r@ == spec_diagnose(output@),
{
    let raw = crate::strutil::chars_of(output);
    let t = strip_ansi(&raw);
    let p_ub = crate::strutil::chars_of("Undefined Behavior: ");
    if contains_sub(&t, &p_ub) {
        let lines = split_lines(&t);
        proof {
            assert(crate::seqs::views_of(lines@) =~= spec_lines(t@));
        }
        let causes = ub_causes(&lines);
        let r = Status::UB { cause: causes };
        proof {
            assert(r@ == spec_diagnose(output@)) by {
                assert(Seq::new(causes@.len(), |i: int| causes@[i]@) =~= views_c(causes@));
            }
        }
        return r;
    }
    let p_asan = crate::strutil::chars_of("ERROR: AddressSanitizer: ");
    if contains_sub(&t, &p_asan) {
        let p_false = crate::strutil::chars_of(
            "WARNING: ASan is ignoring requested __asan_handle_no_return: stack type",
        );
        if contains_sub(&t, &p_false) {
            return Status::Error(String::from_str("ASan false positive?"));
        }
        let lines = split_lines(&t);
        proof {
            assert(crate::seqs::views_of(lines@) =~= spec_lines(t@));
        }
        let causes = asan_causes(&lines);
        let r = Status::UB { cause: causes };
        proof {
            assert(r@ == spec_diagnose(output@)) by {
                assert(Seq::new(causes@.len(), |i: int| causes@[i]@) =~= views_c(causes@));
            }
        }
        return r;
    }
    let p_sigill = crate::strutil::chars_of("SIGILL: illegal instruction");
    if contains_sub(&t, &p_sigill) {
        let mut cause: Vec<Cause> = Vec::new();
        cause.push(
            Cause { kind: String::from_str("SIGILL debug assertion"), source_crate: None },
        );
        let r = Status::UB { cause };
        proof {
            assert(r@ matches StatusView::UB(cs) && cs =~= seq![
                CauseView { kind: "SIGILL debug assertion"@, source: None },
            ]);
        }
        return r;
    }
    let p_leave = crate::strutil::chars_of("attempted to leave type");
    if contains_sub(&t, &p_leave) {
        let mut cause: Vec<Cause> = Vec::new();
        cause.push(
            Cause {
                kind: String::from_str("uninit type which does not permit uninit"),
                source_crate: None,
            },
        );
        let r = Status::UB { cause };
        proof {
            assert(r@ matches StatusView::UB(cs) && cs =~= seq![
                CauseView { kind: "uninit type which does not permit uninit"@, source: None },
            ]);
        }
        return r;
    }
    let p_124 = crate::strutil::chars_of("Command exited with non-zero status 124");
    if contains_sub(&t, &p_124) {
        return Status::Error(String::from_str("Timeout"));
    }
    let p_255 = crate::strutil::chars_of("Command exited with non-zero status 255");
    if contains_sub(&t, &p_255) {
        return Status::Error(String::from_str("OOM"));
    }
    let p_nz = crate::strutil::chars_of("Command exited with non-zero status");
    if contains_sub(&t, &p_nz) {
        let r = Status::Error(String::new());
        return r;
    }
    Status::Passing
}

/// Records the verdict for a package's transcript on the package.
pub fn diagnose(krate: &mut Crate, output: &str)
    ensures
        final(krate).status@ == spec_diagnose(output@),
        final(krate).name == old(krate).name,
        final(krate).version == old(krate).version,
        final(krate).recent_downloads == old(krate).recent_downloads,
{
    let s = diagnose_transcript(output);
    krate.status = s;
}


/// Scrubbing leaves an ESC-free transcript untouched.
pub proof fn lemma_strip_esc_free(t: Seq<char>, i: int)
    requires
        0 <= i <= t.len(),
        forall|j: int| 0 <= j < t.len() ==> t[j] != '\u{1b}',
    ensures
        strip_from(t, i) == t.skip(i),
    decreases t.len() - i,
{
    if i < t.len() {
        lemma_strip_esc_free(t, i + 1);
        assert(strip_from(t, i) == seq![t[i]] + strip_from(t, i + 1));
        assert(t.skip(i) =~= seq![t[i]] + t.skip(i + 1));
    } else {
        assert(t.skip(i) =~= Seq::<char>::empty());
    }
}

/// Diagnosis is a pure function of the scrubbed text: feeding the
/// scrubbed transcript back in yields the same verdict, whenever the
/// scrub actually removed every escape byte. (A transcript can be
/// crafted so that scrubbing leaves an ESC that a second scrub would
/// consume — then the two runs may differ.)
pub proof fn lemma_diagnose_idempotent(raw: Seq<char>)
    requires
        forall|j: int|
            0 <= j < spec_strip(raw).len() ==> #[trigger] spec_strip(raw)[j] != '\u{1b}',
    ensures
        spec_diagnose(spec_strip(raw)) == spec_diagnose(raw),
{
    lemma_strip_esc_free(spec_strip(raw), 0);
    assert(spec_strip(raw).skip(0) =~= spec_strip(raw));
    assert(spec_strip(spec_strip(raw)) == spec_strip(raw));
}

/// A transcript whose scrubbed text reports a timed-out command, and
/// none of the earlier classification markers, is diagnosed as a
/// timeout.
pub proof fn lemma_timeout_verdict(raw: Seq<char>)
    requires
        seq_contains(spec_strip(raw), "Command exited with non-zero status 124"@),
        !seq_contains(spec_strip(raw), "Undefined Behavior: "@),
        !seq_contains(spec_strip(raw), "ERROR: AddressSanitizer: "@),
        !seq_contains(spec_strip(raw), "SIGILL: illegal instruction"@),
        !seq_contains(spec_strip(raw), "attempted to leave type"@),
    ensures
        spec_diagnose(raw) == StatusView::Error("Timeout"@),
{
}

/// The path a backtrace frame names.
pub open spec fn frame_path(line: Seq<char>) -> Seq<char> {
    match piece_after(line, " at "@) {
        Some(p) => p,
        None => Seq::<char>::empty(),
    }
}

/// Whether a line is a backtrace frame at all.
pub open spec fn is_frame(line: Seq<char>) -> bool {
    seq_contains(line, "inside `"@) && seq_contains(line, " at "@)
}

/// A frame the attribution walk passes over: an absolute path outside
/// both the build directory and the registry.
pub open spec fn skippable_frame(line: Seq<char>) -> bool {
    is_frame(line) ==> {
        let path = frame_path(line);
        &&& !seq_contains(path, "/root/build"@)
        &&& path.len() > 0
        &&& path[0] == '/'
        &&& !seq_contains(path, ".cargo/registry/src/"@)
    }
}

/// Attribution picks the registry package of the first deciding
/// backtrace frame: if line `k` is a frame whose path is an absolute
/// registry path outside the build directory, and every earlier line is
/// no frame or one the walk passes over, the causes carry that frame's
/// package.
pub proof fn lemma_attribution_registry(ls: Seq<Seq<char>>, k: int)
    requires
        0 <= k < ls.len(),
        is_frame(ls[k]),
        forall|j: int| 0 <= j < k ==> skippable_frame(#[trigger] ls[j]),
        ({
            let path = frame_path(ls[k]);
            &&& !seq_contains(path, "/root/build"@)
            &&& path.len() > 0
            &&& path[0] == '/'
            &&& seq_contains(path, ".cargo/registry/src/"@)
        }),
    ensures
        spec_attribution(ls) == registry_pkg(frame_path(ls[k])),
    decreases k,
{
    if k == 0 {
    } else {
        assert(ls.drop_first()[k - 1] == ls[k]);
        assert(forall|j: int| 0 <= j < k - 1 ==> ls.drop_first()[j] == ls[j + 1]);
        assert(skippable_frame(ls[0]));
        lemma_attribution_registry(ls.drop_first(), k - 1);
    }
}

/// With the UB marker only at line `l`, the raw cause list is that
/// line's cause alone.
proof fn lemma_single_ub_causes(ls: Seq<Seq<char>>, i: int, l: int)
    requires
        0 <= i <= ls.len(),
        0 <= l < ls.len(),
        seq_contains(ls[l], "Undefined Behavior: "@),
        forall|j: int|
            0 <= j < ls.len() && j != l ==> !seq_contains(#[trigger] ls[j], "Undefined Behavior: "@),
    ensures
        spec_ub_causes_from(ls, i) == if i <= l {
            seq![
                CauseView { kind: spec_line_kind(ls, l), source: spec_attribution(ls.skip(l)) },
            ]
        } else {
            Seq::<CauseView>::empty()
        },
    decreases ls.len() - i,
{
    if i < ls.len() {
        lemma_single_ub_causes(ls, i + 1, l);
        if i == l {
            assert(spec_ub_causes_from(ls, i) =~= seq![
                CauseView { kind: spec_line_kind(ls, l), source: spec_attribution(ls.skip(l)) },
            ]);
        } else {
            assert(!seq_contains(ls[i], "Undefined Behavior: "@));
        }
    }
}

/// A transcript whose scrubbed text carries exactly one UB report line,
/// and that line names an out-of-bounds access under none of the
/// higher-priority patterns, is diagnosed as UB with the single cause
/// `invalid pointer offset`, attributed from the report's backtrace.
pub proof fn lemma_single_oob_report(raw: Seq<char>, l: int)
    requires
        seq_contains(spec_strip(raw), "Undefined Behavior: "@),
        ({
            let ls = spec_lines(spec_strip(raw));
            &&& 0 <= l < ls.len()
            &&& seq_contains(ls[l], "Undefined Behavior: "@)
            &&& forall|j: int|
                0 <= j < ls.len() && j != l ==> !seq_contains(
                    #[trigger] ls[j],
                    "Undefined Behavior: "@,
                )
            &&& seq_contains(ls[l], "out-of-bounds"@)
            &&& !seq_contains(ls[l], "Data race detected"@)
            &&& !seq_contains(ls[l], "encountered uninitialized"@)
            &&& !seq_contains(ls[l], "this operation requires initialized memory"@)
        }),
    ensures
        spec_diagnose(raw) == StatusView::UB(
            seq![
                CauseView {
                    kind: "invalid pointer offset"@,
                    source: spec_attribution(spec_lines(spec_strip(raw)).skip(l)),
                },
            ],
        ),
{
    let t = spec_strip(raw);
    let ls = spec_lines(t);
    lemma_single_ub_causes(ls, 0, l);
    let c = CauseView { kind: spec_line_kind(ls, l), source: spec_attribution(ls.skip(l)) };
    assert(spec_line_kind(ls, l) == "invalid pointer offset"@);
    let raw_causes = spec_ub_causes_from(ls, 0);
    assert(raw_causes == seq![c]);
    assert(raw_causes[0] == c);
    assert(raw_causes.len() == 1);
    assert(sort_upto(raw_causes, 0) =~= Seq::<CauseView>::empty());
    assert(sort_upto(raw_causes, 1) == insert_sorted(c, sort_upto(raw_causes, 0)));
    assert(sort_upto(raw_causes, 1) =~= insert_sorted(c, Seq::<CauseView>::empty()));
    assert(insert_sorted(c, Seq::<CauseView>::empty()) =~= seq![c]);
    assert(sort_causes(raw_causes) =~= seq![c]);
    assert(dedup_adj(seq![c]) == seq![c]);
    assert(normalize_causes(raw_causes) == seq![c]);
}

} // verus!