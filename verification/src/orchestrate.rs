use vstd::prelude::*;
use vstd::seq_lib::*;

use crate::model::{Crate, Status, StatusView, Tool, Version, VersionView, spec_tool_name, spec_version_str};

verus! {

/// The request the orchestrator writes to a worker for one package:
/// `name@version` and a newline.
pub fn request_line(krate: &Crate) -> (r: String)
    ensures
        r@ == krate.name@ + seq!['@'] + spec_version_str(krate.version@) + seq!['\n'],
{
    let mut out: Vec<char> = Vec::new();
    let mut nv = crate::strutil::chars_of(krate.name.as_str());
    out.append(&mut nv);
    out.push('@');
    let vs = krate.version.to_str();
    let mut vv = crate::strutil::chars_of(vs.as_str());
    out.append(&mut vv);
    out.push('\n');
    proof {
        assert(out@ =~= krate.name@ + seq!['@'] + spec_version_str(krate.version@) + seq!['\n']);
    }
    crate::strutil::string_from_chars(&out)
}

/// The end-of-run line a worker prints: the run token between dashes,
/// closed by a newline.
pub fn sentinel_line(token: &Vec<u8>) -> (r: Vec<u8>)
    ensures
        r@ == seq![45u8] + token@ + seq![45u8, 10u8],
{
    let mut out: Vec<u8> = Vec::new();
    out.push(45);
    let n = token.len();
    let mut i: usize = 0;
    while i < n
        invariant
            n == token@.len(),
            i <= n,
            out@ =~= seq![45u8] + token@.take(i as int),
        decreases n - i,
    {
        out.push(token[i]);
        i += 1;
    }
    out.push(45);
    out.push(10);
    proof {
        assert(out@ =~= seq![45u8] + token@ + seq![45u8, 10u8]);
    }
    out
}

/// Whether `buf` ends with `suffix`.
pub open spec fn spec_ends_with(buf: Seq<u8>, suffix: Seq<u8>) -> bool {
    buf.len() >= suffix.len() && buf.skip(buf.len() - suffix.len()) == suffix
}

/// Whether the collected worker output is a complete transcript: it
/// ends with the sentinel line.
pub fn transcript_complete(buf: &Vec<u8>, sentinel: &Vec<u8>) -> (r: bool)
    ensures
        r == spec_ends_with(buf@, sentinel@),
{
    let n = buf.len();
    let m = sentinel.len();
    if n < m {
        return false;
    }
    let start = n - m;
    let mut i: usize = 0;
    while i < m
        invariant
            n == buf@.len(),
            m == sentinel@.len(),
            start == n - m,
            i <= m,
            forall|j: int| 0 <= j < i ==> buf@[start + j] == sentinel@[j],
        decreases m - i,
    {
        if buf[start + i] != sentinel[i] {
            proof {
                assert(buf@.skip(start as int)[i as int] == buf@[start + i]);
            }
            return false;
        }
        i += 1;
    }
    proof {
        assert(buf@.skip(start as int) =~= sentinel@);
    }
    true
}

/// The transcript proper: the collected output with the sentinel line
/// cut off the end.
pub fn finish_transcript(buf: &Vec<u8>, sentinel: &Vec<u8>) -> (r: Vec<u8>)
    requires
        spec_ends_with(buf@, sentinel@),
    ensures
        r@ == buf@.take(buf@.len() - sentinel@.len()),
{
    let end = buf.len() - sentinel.len();
    let mut out: Vec<u8> = Vec::new();
    let mut i: usize = 0;
    while i < end
        invariant
            end <= buf@.len(),
            i <= end,
            out@ =~= buf@.take(i as int),
        decreases end - i,
    {
        out.push(buf[i]);
        i += 1;
    }
    proof {
        assert(out@ =~= buf@.take(buf@.len() - sentinel@.len()));
    }
    out
}

/// What the orchestrator uploads for one completed run.
pub struct UploadCmd {
    pub key: String,
    pub body: Vec<u8>,
}

/// The decision after one run: a crashed worker's output is discarded;
/// a live worker's transcript is trimmed of its sentinel, compressed,
/// and bound for the package's raw-transcript key — every un-crashed
/// complete run yields exactly one upload command.
pub fn conclude_run(tool: Tool, krate: &Crate, buf: &Vec<u8>, sentinel: &Vec<u8>, crashed: bool) -> (r:
    Option<UploadCmd>)
    requires
        spec_ends_with(buf@, sentinel@),
    ensures
        crashed <==> r is None,
        match r {
            Some(cmd) => !crashed && cmd.key@ == spec_tool_name(tool) + "/raw/"@ + krate.name@
                + seq!['/'] + spec_version_str(krate.version@) && cmd.body@ == crate::compress::xz_of(
                buf@.take(buf@.len() - sentinel@.len()),
            ) && crate::compress::unxz_of(cmd.body@) == buf@.take(
                buf@.len() - sentinel@.len(),
            ),
            None => true,
        },
{
    if crashed {
        return None;
    }
    let trimmed = finish_transcript(buf, sentinel);
    let body = crate::compress::xz_compress(&trimmed).unwrap();
    Some(UploadCmd { key: tool.raw_crate_path(krate), body })
}

/// Packages known to produce unbounded output without finishing; the
/// orchestrator skips them.
pub fn is_ignored(name: &str) -> (r: bool)
    ensures
        r == (name@ == "clacks_mtproto"@ || name@ == "stdweb"@),
{
    let nv = crate::strutil::chars_of(name);
    let a = crate::strutil::chars_of("clacks_mtproto");
    let b = crate::strutil::chars_of("stdweb");
    let ra = crate::seqs::chars_eq(&nv, &a);
    let rb = crate::seqs::chars_eq(&nv, &b);
    ra || rb
}

/// Whether a finished-run record matches a package.
pub open spec fn fin_matches(c: Crate, p: (String, String)) -> bool {
    p.0@ == c.name@ && p.1@ == spec_version_str(c.version@)
}

/// Whether a package already has a recent finished run.
pub open spec fn is_finished(c: Crate, fins: Seq<(String, String)>) -> bool {
    exists|i: int| 0 <= i < fins.len() && fin_matches(c, #[trigger] fins[i])
}

/// The pending list the worker pool pops from: unless this is a re-run,
/// packages with a recent finished run are dropped; unless asked to keep
/// the ranking order, the list is reversed so the pool pops the
/// most-downloaded packages last.
pub open spec fn spec_select(crates: Seq<Crate>, fins: Seq<(String, String)>, rerun: bool, rev: bool) -> Seq<
    Crate,
> {
    let kept = crates.filter(|c: Crate| rerun || !is_finished(c, fins));
    if rev {
        kept
    } else {
        kept.reverse()
    }
}

fn crate_is_finished(c: &Crate, fins: &Vec<(String, String)>) -> (r: bool)
    ensures
        r == is_finished(*c, fins@),
{
    let nv = crate::strutil::chars_of(c.name.as_str());
    let vs = c.version.to_str();
    let vv = crate::strutil::chars_of(vs.as_str());
    let n = fins.len();
    let mut i: usize = 0;
    while i < n
        invariant
            n == fins@.len(),
            i <= n,
            nv@ == c.name@,
            vv@ == spec_version_str(c.version@),
            forall|j: int| 0 <= j < i ==> !fin_matches(*c, #[trigger] fins@[j]),
        decreases n - i,
    {
        let fname = crate::strutil::chars_of(fins[i].0.as_str());
        let fver = crate::strutil::chars_of(fins[i].1.as_str());
        if crate::seqs::chars_eq(&fname, &nv) && crate::seqs::chars_eq(&fver, &vv) {
            proof {
                assert(fin_matches(*c, fins@[i as int]));
            }
            return true;
        }
        i += 1;
    }
    false
}

/// Builds the pending list.
pub fn select_pending(crates: Vec<Crate>, fins: &Vec<(String, String)>, rerun: bool, rev: bool) -> (r:
    Vec<Crate>)
    ensures
        r@ == spec_select(crates@, fins@, rerun, rev),
{
    let mut kept: Vec<Crate> = Vec::new();
    let mut rest = crates;
    proof {
        assert(Seq::<Crate>::empty().filter(|c: Crate| rerun || !is_finished(c, fins@))
            =~= Seq::<Crate>::empty());
    }
    let ghost orig = rest@;
    let ghost mut k: int = 0;
    while rest.len() > 0
        invariant
            0 <= k <= orig.len(),
            rest@ =~= orig.skip(k),
            kept@ == orig.take(k).filter(|c: Crate| rerun || !is_finished(c, fins@)),
        decreases rest@.len(),
    {
        proof {
            vstd::seq_lib::lemma_seq_skip_index::<Crate>(orig, k, 0);
        }
        let c = rest.remove(0);
        proof {
            assert(c == orig[k]);
            assert(rest@ =~= orig.skip(k + 1)) by {
                assert forall|j: int| 0 <= j < rest@.len() implies rest@[j] == orig.skip(k + 1)[j]
                    by {
                    vstd::seq_lib::lemma_seq_skip_index::<Crate>(orig, k, j + 1);
                    vstd::seq_lib::lemma_seq_skip_index::<Crate>(orig, k + 1, j);
                }
            }
        }
        let fin = crate_is_finished(&c, fins);
        let ghost prevkept = kept@;
        if rerun || !fin {
            kept.push(c);
        }
        proof {
            let pred = |cc: Crate| rerun || !is_finished(cc, fins@);
            assert(orig.take(k + 1).drop_last() =~= orig.take(k));
            assert(orig.take(k + 1).last() == orig[k]);
            reveal_with_fuel(Seq::<Crate>::filter, 2);
            assert(orig.take(k + 1).filter(pred) == if pred(orig[k]) {
                orig.take(k).filter(pred).push(orig[k])
            } else {
                orig.take(k).filter(pred)
            });
            if rerun || !fin {
                assert(kept@ =~= prevkept.push(c));
            }
            k = k + 1;
        }
    }
    proof {
        assert(orig.take(orig.len() as int) =~= orig);
    }
    if rev {
        kept
    } else {
        let mut out: Vec<Crate> = Vec::new();
        let mut rem = kept;
        let ghost kv = rem@;
        while rem.len() > 0
            invariant
                out@.len() + rem@.len() == kv.len(),
                out@ =~= kv.skip(rem@.len() as int).reverse(),
                rem@ =~= kv.take(rem@.len() as int),
            decreases rem@.len(),
        {
            let copt = rem.pop();
            let c = copt.unwrap();
            proof {
                let m = rem@.len() as int;
                assert(c == kv[m]);
                assert(rem@ =~= kv.take(m));
                assert(out@.push(c) =~= kv.skip(m).reverse());
            }
            out.push(c);
        }
        proof {
            assert(kv.skip(0) =~= kv);
            assert(out@ =~= kv.reverse());
        }
        out
    }
}

/// Under `rerun == false` with every package already finished, the
/// pending list is empty: re-invoking against a full store uploads
/// nothing new.
pub proof fn lemma_full_store_idle(crates: Seq<Crate>, fins: Seq<(String, String)>, rev: bool)
    requires
        forall|i: int| 0 <= i < crates.len() ==> is_finished(#[trigger] crates[i], fins),
    ensures
        spec_select(crates, fins, false, rev).len() == 0,
    decreases crates.len(),
{
    let pred = |c: Crate| false || !is_finished(c, fins);
    if crates.len() == 0 {
        assert(crates.filter(pred) =~= Seq::<Crate>::empty());
    } else {
        lemma_full_store_idle(crates.drop_last(), fins, rev);
        reveal_with_fuel(Seq::<Crate>::filter, 2);
        assert(crates.filter(pred) == if pred(crates.last()) {
            crates.drop_last().filter(pred).push(crates.last())
        } else {
            crates.drop_last().filter(pred)
        });
        assert(!pred(crates.last()));
        assert(spec_select(crates.drop_last(), fins, false, true).len() == 0);
    }
}


/// List-file whitespace: the ASCII separators a crate-list file uses
/// (space, tab, carriage return, newline); rarer Unicode whitespace is
/// not treated as a separator.
pub open spec fn is_list_wsp(c: char) -> bool {
    c == ' ' || c == '\t' || c == '\r' || c == '\n'
}

/// First index at or after `i` that is no list whitespace.
pub open spec fn skip_lws(t: Seq<char>, i: int) -> int
    decreases t.len() + 1 - i,
{
    if i < 0 || i >= t.len() {
        i
    } else if is_list_wsp(t[i]) {
        skip_lws(t, i + 1)
    } else {
        i
    }
}

pub proof fn lemma_skip_lws(t: Seq<char>, i: int)
    requires
        0 <= i <= t.len(),
    ensures
        i <= skip_lws(t, i) <= t.len(),
        skip_lws(t, i) < t.len() ==> !is_list_wsp(t[skip_lws(t, i)]),
    decreases t.len() + 1 - i,
{
    if i < t.len() && is_list_wsp(t[i]) {
        lemma_skip_lws(t, i + 1);
    }
}

/// First index at or after `i` that is list whitespace, or the end.
pub open spec fn lws_token_end(t: Seq<char>, i: int) -> int
    decreases t.len() + 1 - i,
{
    if i < 0 || i >= t.len() {
        i
    } else if !is_list_wsp(t[i]) {
        lws_token_end(t, i + 1)
    } else {
        i
    }
}

pub proof fn lemma_lws_token_end(t: Seq<char>, i: int)
    requires
        0 <= i <= t.len(),
    ensures
        i <= lws_token_end(t, i) <= t.len(),
        i < t.len() && !is_list_wsp(t[i]) ==> lws_token_end(t, i) > i,
    decreases t.len() + 1 - i,
{
    if i < t.len() && !is_list_wsp(t[i]) {
        lemma_lws_token_end(t, i + 1);
    }
}

/// The whitespace-separated tokens of a crate-list file from `i` on.
pub open spec fn list_tokens_from(t: Seq<char>, i: int) -> Seq<Seq<char>>
    decreases t.len() + 1 - i,
    via list_tokens_from_decreases
{
    if i < 0 || i > t.len() {
        Seq::empty()
    } else {
        let j = skip_lws(t, i);
        if j >= t.len() {
            Seq::empty()
        } else {
            let e = lws_token_end(t, j);
            seq![t.subrange(j, e)] + list_tokens_from(t, e)
        }
    }
}

#[via_fn]
proof fn list_tokens_from_decreases(t: Seq<char>, i: int) {
    if 0 <= i <= t.len() {
        lemma_skip_lws(t, i);
        let j = skip_lws(t, i);
        if j < t.len() {
            lemma_lws_token_end(t, j);
        }
    }
}

pub open spec fn list_tokens(t: Seq<char>) -> Seq<Seq<char>> {
    list_tokens_from(t, 0)
}

/// First `@` or `/` at or after `i`, or -1.
pub open spec fn sep_from(t: Seq<char>, i: int) -> int
    decreases t.len() + 1 - i,
{
    if i < 0 || i >= t.len() {
        -1
    } else if t[i] == '@' || t[i] == '/' {
        i
    } else {
        sep_from(t, i + 1)
    }
}

pub proof fn lemma_sep_from(t: Seq<char>, i: int)
    requires
        0 <= i,
    ensures
        sep_from(t, i) == -1 || i <= sep_from(t, i) < t.len(),
    decreases t.len() + 1 - i,
{
    if 0 <= i < t.len() && !(t[i] == '@' || t[i] == '/') {
        lemma_sep_from(t, i + 1);
    }
}

/// The package name of a list token: the text before the first `@` or
/// `/`, or the whole token.
pub open spec fn tok_name(tok: Seq<char>) -> Seq<char> {
    let f = sep_from(tok, 0);
    if f < 0 {
        tok
    } else {
        tok.take(f)
    }
}

/// The version a list token asks for: the text between the first
/// separator and the next one, when a separator is present at all.
pub open spec fn tok_version(tok: Seq<char>) -> Option<Seq<char>> {
    let f = sep_from(tok, 0);
    if f < 0 {
        None
    } else {
        let rest = tok.skip(f + 1);
        let f2 = sep_from(rest, 0);
        if f2 < 0 {
            Some(rest)
        } else {
            Some(rest.take(f2))
        }
    }
}

/// Index of the first registry entry with the given name, or -1.
pub open spec fn find_crate(all: Seq<Crate>, name: Seq<char>) -> int
    decreases all.len(),
{
    if all.len() == 0 {
        -1
    } else if all[0].name@ == name {
        0
    } else {
        let r = find_crate(all.drop_first(), name);
        if r == -1 {
            -1
        } else {
            r + 1
        }
    }
}

pub proof fn lemma_find_crate(all: Seq<Crate>, name: Seq<char>)
    ensures
        -1 <= find_crate(all, name) < all.len(),
        find_crate(all, name) >= 0 ==> all[find_crate(all, name)].name@ == name && (forall|j: int|
            0 <= j < find_crate(all, name) ==> all[j].name@ != name),
        find_crate(all, name) == -1 ==> forall|j: int| 0 <= j < all.len() ==> all[j].name@ != name,
    decreases all.len(),
{
    if all.len() > 0 && all[0].name@ != name {
        lemma_find_crate(all.drop_first(), name);
        assert(forall|j: int| 1 <= j < all.len() ==> all[j] == all.drop_first()[j - 1]);
    }
}

/// What one selected package looks like.
pub ghost struct PickView {
    pub name: Seq<char>,
    pub version: VersionView,
    pub downloads: Option<u64>,
}

pub open spec fn pick_view_of(c: Crate) -> PickView {
    PickView { name: c.name@, version: c.version@, downloads: c.recent_downloads }
}

pub open spec fn pick_views(s: Seq<Crate>) -> Seq<PickView> {
    Seq::new(s.len(), |i: int| pick_view_of(s[i]))
}

/// The packages a crate-list's tokens select out of the registry list:
/// one entry per token whose name the registry knows, carrying the
/// token's version when it gives one and the registry's otherwise.
pub open spec fn spec_pick_list(toks: Seq<Seq<char>>, all: Seq<Crate>) -> Seq<PickView>
    decreases toks.len(),
{
    if toks.len() == 0 {
        Seq::empty()
    } else {
        let rest = spec_pick_list(toks.drop_first(), all);
        let f = find_crate(all, tok_name(toks[0]));
        if f < 0 {
            rest
        } else {
            let c = all[f];
            seq![
                PickView {
                    name: c.name@,
                    version: match tok_version(toks[0]) {
                        Some(v) => crate::model::spec_parse_version(v),
                        None => c.version@,
                    },
                    downloads: c.recent_downloads,
                },
            ] + rest
        }
    }
}

pub open spec fn spec_pick(text: Seq<char>, all: Seq<Crate>) -> Seq<PickView> {
    spec_pick_list(list_tokens(text), all)
}

/// Splits a crate-list file into its tokens.
fn list_tokens_exec(t: &Vec<char>) -> (r: Vec<Vec<char>>)
    ensures
        r@.len() == list_tokens(t@).len(),
        forall|q: int| 0 <= q < r@.len() ==> r@[q]@ == list_tokens(t@)[q],
{
    let n = t.len();
    let mut out: Vec<Vec<char>> = Vec::new();
    let mut i: usize = 0;
    proof {
        assert(list_tokens(t@).skip(0) =~= list_tokens(t@));
    }
    while i < n
        invariant
            n == t@.len(),
            i <= n,
            out@.len() <= list_tokens(t@).len(),
            forall|q: int| 0 <= q < out@.len() ==> out@[q]@ == list_tokens(t@)[q],
            list_tokens_from(t@, i as int) =~= list_tokens(t@).skip(out@.len() as int),
        decreases n - i,
    {
        let mut j: usize = i;
        while j < n && is_list_wsp_exec(t[j])
            invariant
                n == t@.len(),
                i <= j <= n,
                skip_lws(t@, i as int) == skip_lws(t@, j as int),
            decreases n - j,
        {
            j += 1;
        }
        proof {
            assert(skip_lws(t@, j as int) == j as int);
        }
        if j >= n {
            proof {
                assert(list_tokens_from(t@, i as int) =~= Seq::<Seq<char>>::empty());
                assert(out@.len() == list_tokens(t@).len());
            }
            return out;
        }
        let mut e: usize = j;
        while e < n && !is_list_wsp_exec(t[e])
            invariant
                n == t@.len(),
                j <= e <= n,
                lws_token_end(t@, j as int) == lws_token_end(t@, e as int),
            decreases n - e,
        {
            e += 1;
        }
        proof {
            assert(lws_token_end(t@, e as int) == e as int);
        }
        let mut tok: Vec<char> = Vec::new();
        let mut q: usize = j;
        while q < e
            invariant
                j <= q <= e <= t@.len(),
                tok@ =~= t@.subrange(j as int, q as int),
            decreases e - q,
        {
            tok.push(t[q]);
            q += 1;
        }
        let ghost k0 = out@.len() as int;
        proof {
            let toks = list_tokens(t@);
            assert(list_tokens_from(t@, i as int) == seq![t@.subrange(j as int, e as int)]
                + list_tokens_from(t@, e as int));
            vstd::seq_lib::lemma_seq_skip_index::<Seq<char>>(toks, k0, 0);
            assert(toks[k0] == t@.subrange(j as int, e as int));
            assert(toks.skip(k0).drop_first() =~= toks.skip(k0 + 1));
        }
        out.push(tok);
        proof {
            assert(e > j);
        }
        i = e;
    }
    proof {
        assert(list_tokens_from(t@, n as int) =~= Seq::<Seq<char>>::empty());
    }
    out
}

fn is_list_wsp_exec(c: char) -> (r: bool)
    ensures
        r == is_list_wsp(c),
{
    c == ' ' || c == '\t' || c == '\r' || c == '\n'
}

/// First `@` or `/` in a token, if any.
fn sep_exec(t: &Vec<char>) -> (r: Option<usize>)
    ensures
        match r {
            Some(f) => sep_from(t@, 0) == f && f < t@.len(),
            None => sep_from(t@, 0) == -1,
        },
{
    let n = t.len();
    let mut i: usize = 0;
    while i < n
        invariant
            n == t@.len(),
            i <= n,
            sep_from(t@, 0) == sep_from(t@, i as int),
        decreases n - i,
    {
        let c = t[i];
        if c == '@' || c == '/' {
            return Some(i);
        }
        i += 1;
    }
    None
}

/// A version value equal in content to a borrowed one.
fn copy_version(v: &Version) -> (r: Version)
    ensures
        r@ == v@,
{
    match v {
        Version::Unparsed(s) => Version::Unparsed(s.clone()),
        Version::Parsed(sv) => Version::Parsed(
            crate::model::SemVer {
                major: sv.major,
                minor: sv.minor,
                patch: sv.patch,
                pre: sv.pre.clone(),
                build: sv.build.clone(),
            },
        ),
    }
}

/// Selects the packages a crate-list file names out of the registry
/// list: each whitespace token is `name`, `name@version` or
/// `name/version`; unknown names are skipped, a given version is parsed
/// and otherwise the registry's version rides along.
pub fn pick_crates(list_text: &str, all: &Vec<Crate>) -> (r: Vec<Crate>)
    ensures
        pick_views(r@) == spec_pick(list_text@, all@),
        forall|j: int| 0 <= j < r@.len() ==> (#[trigger] r@[j]).status@ is Unknown,
{
    let text = crate::strutil::chars_of(list_text);
    let toks = list_tokens_exec(&text);
    let mut out: Vec<Crate> = Vec::new();
    let nt = toks.len();
    let mut k: usize = 0;
    let ghost gtoks = list_tokens(text@);
    proof {
        assert(pick_views(out@) =~= Seq::<PickView>::empty());
        assert(gtoks.skip(0) =~= gtoks);
    }
    while k < nt
        invariant
            nt == toks@.len(),
            k <= nt,
            gtoks == list_tokens(text@),
            gtoks.len() == nt,
            forall|q: int| 0 <= q < nt ==> toks@[q]@ == gtoks[q],
            spec_pick(list_text@, all@) == pick_views(out@) + spec_pick_list(
                gtoks.skip(k as int),
                all@,
            ),
            forall|j: int| 0 <= j < out@.len() ==> (#[trigger] out@[j]).status@ is Unknown,
        decreases nt - k,
    {
        let tok = &toks[k];
        proof {
            vstd::seq_lib::lemma_seq_skip_index::<Seq<char>>(gtoks, k as int, 0);
            assert(gtoks.skip(k as int)[0] == tok@);
            assert(gtoks.skip(k as int).drop_first() =~= gtoks.skip(k as int + 1));
        }
        let (namev, verv): (Vec<char>, Option<Vec<char>>) = match sep_exec(tok) {
            None => {
                let mut nv: Vec<char> = Vec::new();
                let mut q: usize = 0;
                let tl = tok.len();
                while q < tl
                    invariant
                        q <= tl <= tok@.len(),
                        tl == tok@.len(),
                        nv@ =~= tok@.take(q as int),
                    decreases tl - q,
                {
                    nv.push(tok[q]);
                    q += 1;
                }
                proof {
                    assert(nv@ =~= tok@);
                }
                (nv, None)
            },
            Some(f) => {
                let mut nv: Vec<char> = Vec::new();
                let mut q: usize = 0;
                while q < f
                    invariant
                        q <= f < tok@.len(),
                        nv@ =~= tok@.take(q as int),
                    decreases f - q,
                {
                    nv.push(tok[q]);
                    q += 1;
                }
                let tl = tok.len();
                let mut rest: Vec<char> = Vec::new();
                let mut q2: usize = f + 1;
                while q2 < tl
                    invariant
                        f + 1 <= q2 <= tl == tok@.len(),
                        rest@ =~= tok@.subrange(f as int + 1, q2 as int),
                    decreases tl - q2,
                {
                    rest.push(tok[q2]);
                    q2 += 1;
                }
                proof {
                    assert(rest@ =~= tok@.skip(f as int + 1));
                }
                let vv: Vec<char> = match sep_exec(&rest) {
                    None => rest,
                    Some(f2) => {
                        let mut pv: Vec<char> = Vec::new();
                        let mut q3: usize = 0;
                        while q3 < f2
                            invariant
                                q3 <= f2 < rest@.len(),
                                pv@ =~= rest@.take(q3 as int),
                            decreases f2 - q3,
                        {
                            pv.push(rest[q3]);
                            q3 += 1;
                        }
                        proof {
                            assert(pv@ =~= rest@.take(f2 as int));
                        }
                        pv
                    },
                };
                proof {
                    assert(nv@ =~= tok_name(tok@));
                    assert(tok_version(tok@) == Some(vv@));
                }
                (nv, Some(vv))
            },
        };
        proof {
            assert(namev@ == tok_name(tok@));
        }
        let found = find_crate_exec(all, &namev);
        let ghost prev = pick_views(out@);
        match found {
            None => {
                proof {
                    lemma_find_crate(all@, tok_name(gtoks[k as int]));
                }
            },
            Some(fi) => {
                proof {
                    lemma_find_crate(all@, tok_name(gtoks[k as int]));
                }
                let c = &all[fi];
                let version = match &verv {
                    Some(vv) => {
                        let vs = crate::strutil::string_from_chars(vv);
                        Version::parse(vs.as_str())
                    },
                    None => copy_version(&c.version),
                };
                let entry = Crate {
                    name: c.name.clone(),
                    version,
                    recent_downloads: c.recent_downloads,
                    status: Status::Unknown,
                };
                proof {
                    assert(pick_view_of(entry) == spec_pick_list(gtoks.skip(k as int), all@)[0]);
                }
                out.push(entry);
                proof {
                    assert(pick_views(out@) =~= prev.push(pick_view_of(entry)));
                }
            },
        }
        proof {
            assert(spec_pick(list_text@, all@) =~= pick_views(out@) + spec_pick_list(
                gtoks.skip(k as int + 1),
                all@,
            ));
        }
        k += 1;
    }
    proof {
        assert(gtoks.skip(nt as int) =~= Seq::<Seq<char>>::empty());
        assert(pick_views(out@) =~= spec_pick(list_text@, all@));
    }
    out
}

/// First registry entry with the given name, executable form.
fn find_crate_exec(all: &Vec<Crate>, name: &Vec<char>) -> (r: Option<usize>)
    ensures
        match r {
            Some(i) => find_crate(all@, name@) == i && i < all@.len(),
            None => find_crate(all@, name@) == -1,
        },
{
    let n = all.len();
    let mut i: usize = 0;
    while i < n
        invariant
            n == all@.len(),
            i <= n,
            forall|j: int| 0 <= j < i ==> (#[trigger] all@[j]).name@ != name@,
        decreases n - i,
    {
        let cv = crate::strutil::chars_of(all[i].name.as_str());
        if crate::seqs::chars_eq(&cv, name) {
            proof {
                lemma_find_crate_prefix(all@, name@, i as int);
            }
            return Some(i);
        }
        i += 1;
    }
    proof {
        lemma_find_crate(all@, name@);
        if find_crate(all@, name@) >= 0 {
            assert(all@[find_crate(all@, name@)].name@ != name@);
        }
    }
    None
}

proof fn lemma_find_crate_prefix(all: Seq<Crate>, name: Seq<char>, at: int)
    requires
        0 <= at < all.len(),
        all[at].name@ == name,
        forall|j: int| 0 <= j < at ==> (#[trigger] all[j]).name@ != name,
    ensures
        find_crate(all, name) == at,
    decreases all.len(),
{
    if all[0].name@ != name {
        assert(forall|j: int| 1 <= j < all.len() ==> all[j] == all.drop_first()[j - 1]);
        lemma_find_crate_prefix(all.drop_first(), name, at - 1);
    }
}

/// The last index of `c` in `t`, or -1.
pub open spec fn last_index_of(t: Seq<char>, c: char) -> int
    decreases t.len(),
{
    if t.len() == 0 {
        -1
    } else if t.last() == c {
        t.len() - 1
    } else {
        last_index_of(t.drop_last(), c)
    }
}

pub proof fn lemma_last_index_of(t: Seq<char>, c: char)
    ensures
        -1 <= last_index_of(t, c) < t.len(),
        last_index_of(t, c) >= 0 ==> t[last_index_of(t, c)] == c && (forall|j: int|
            last_index_of(t, c) < j < t.len() ==> t[j] != c),
        last_index_of(t, c) == -1 ==> forall|j: int| 0 <= j < t.len() ==> t[j] != c,
    decreases t.len(),
{
    if t.len() > 0 && t.last() != c {
        lemma_last_index_of(t.drop_last(), c);
        assert(forall|j: int| 0 <= j < t.len() - 1 ==> t[j] == t.drop_last()[j]);
    }
}

/// A storage key's final two path components: `(name, version)`, read
/// from the right, or nothing when the key has no slash.
pub open spec fn spec_split_key(t: Seq<char>) -> Option<(Seq<char>, Seq<char>)> {
    let e = last_index_of(t, '/');
    if e < 0 {
        None
    } else {
        let before = t.take(e);
        let e2 = last_index_of(before, '/');
        Some((before.skip(e2 + 1), t.skip(e + 1)))
    }
}

/// Reads the package name and version off the end of a storage key.
pub fn split_key(key: &str) -> (r: Option<(String, String)>)
    ensures
        match r {
            Some(p) => spec_split_key(key@) == Some((p.0@, p.1@)),
            None => spec_split_key(key@) is None,
        },
{
    let kv = crate::strutil::chars_of(key);
    let e = match last_slash(&kv) {
        None => {
            return None;
        },
        Some(e) => e,
    };
    let n = kv.len();
    let mut version: Vec<char> = Vec::new();
    let mut q: usize = e + 1;
    while q < n
        invariant
            e < q <= n == kv@.len(),
            version@ =~= kv@.subrange(e as int + 1, q as int),
        decreases n - q,
    {
        version.push(kv[q]);
        q += 1;
    }
    proof {
        assert(version@ =~= kv@.skip(e as int + 1));
    }
    let mut before: Vec<char> = Vec::new();
    let mut q2: usize = 0;
    while q2 < e
        invariant
            q2 <= e < kv@.len(),
            before@ =~= kv@.take(q2 as int),
        decreases e - q2,
    {
        before.push(kv[q2]);
        q2 += 1;
    }
    proof {
        assert(before@ =~= kv@.take(e as int));
    }
    let start: usize = match last_slash(&before) {
        None => 0,
        Some(e2) => e2 + 1,
    };
    let m = before.len();
    let mut name: Vec<char> = Vec::new();
    let mut q3: usize = start;
    while q3 < m
        invariant
            start <= q3 <= m == before@.len(),
            name@ =~= before@.subrange(start as int, q3 as int),
        decreases m - q3,
    {
        name.push(before[q3]);
        q3 += 1;
    }
    proof {
        assert(name@ =~= before@.skip(start as int));
    }
    Some(
        (crate::strutil::string_from_chars(&name), crate::strutil::string_from_chars(&version)),
    )
}

fn last_slash(t: &Vec<char>) -> (r: Option<usize>)
    ensures
        match r {
            Some(i) => last_index_of(t@, '/') == i && i < t@.len(),
            None => last_index_of(t@, '/') == -1,
        },
{
    let mut i: usize = t.len();
    proof {
        assert(t@.take(t@.len() as int) =~= t@);
    }
    while i > 0
        invariant
            i <= t@.len(),
            last_index_of(t@, '/') == last_index_of(t@.take(i as int), '/'),
        decreases i,
    {
        proof {
            assert(t@.take(i as int).last() == t@[i - 1]);
            assert(t@.take(i as int).drop_last() =~= t@.take(i as int - 1));
        }
        if t[i - 1] == '/' {
            return Some(i - 1);
        }
        i -= 1;
    }
    proof {
        assert(t@.take(0) =~= Seq::<char>::empty());
    }
    None
}

} // verus!