use vstd::prelude::*;

use crate::model::{Crate, CauseView, Status, StatusView, spec_version_str};
use crate::version_ord::version_cmp;

verus! {

/// The shell of the UB listing page.
pub open spec fn spec_ub_header() -> Seq<char> {
    r#"<!DOCTYPE HTML>
<html><head><style>
body {
    background: #111;
    color: #eee;
    font-family: sans-serif;
    font-size: 18px;
    margin: 0;
    overflow: hidden;
}
a {
    color: #eee;
}
.row {
    text-indent: 1em;
    border-bottom: 1px solid #333;
    line-height: 1.5;
    vertical-align: top;
    margin-right: 0.5em;
    margin-left: 0.5em;
    padding-top: 0.5em;
    padding-bottom: 0.5em;
}
.log {
    order: 1;
    height: 100vh;
    margin: 0;
    width: 100%;
    font-size: 14px;
}
.pre {
    word-wrap: break-word;
    white-space: pre-wrap;
}
.crates {
    order: 2;
    height: 100vh;
    width: 25%;
    overflow-y: scroll;
    overflow-x: hidden;
}
.page {
    display: flex;
    flex-direction: row;
    width: 100%;
    height: 100%;
    margin: 0;
}
</style></head><body onload="init()">
<script>
function init() {
    var params = decode_params();
    if (params.crate != undefined && params.version != undefined) {
        change_log(params.crate, params.version);
    }
}
function decode_params() {
    var params = {};
    var paramsarr = window.location.search.substr(1).split('&');
    for (var i = 0; i < paramsarr.length; ++i) {
        var tmp = paramsarr[i].split("=");
        if (!tmp[0] || !tmp[1]) continue;
        params[tmp[0]] = decodeURIComponent(tmp[1]);
    }
    return params;
}
function crate_click() {
    if (event.target.classList.contains("row")) {
        let fields = event.target.innerHTML.split("<")[0].split(" ");
        let crate = fields[0];
        let version = fields[1];

        change_log(crate, version);
   }
}
let build_log;
function change_log(crate, version) {
    let path = window.location.pathname;
    let base = path.slice(0, path.lastIndexOf('/'));
    let html = "<object data=\"" + base + "/logs/" + crate + "/" + encodeURIComponent(version) + "\" width=100% height=100%></object>";
    if (build_log == undefined)  {
        build_log = document.getElementById("log");
    }
    build_log.innerHTML = html;

    params = decode_params();
    params.crate = crate;
    params.version = version;
    history.replaceState(null, null, encode_params(params));
}
function encode_params(params) {
    var uri = "?";
    for (var key in params) {
        uri += key + '=' + encodeURIComponent(params[key]) + '&';
    }
    if (uri.slice(-1) == "&") {
        uri = uri.substring(0, uri.length - 1);
    }
    if (uri == '?') {
        uri = window.location.href.split('?')[0];
    }
    return uri;
}
</script>
<div class="page">
<div class="log" id="log">
<object>
<html><head><style>
body {
    background: #111;
    color: #eee;
}
pre {
    word-wrap: break-word;
    white-space: pre-wrap;
    font-size: 14px;
    font-size-adjust: none;
    text-size-adjust: none;
    -webkit-text-size-adjust: 100%;
    -moz-text-size-adjust: 100%;
    -ms-text-size-adjust: 100%;
}
</style></head><body><pre>
Click on a crate to the right to display its build log
</pre></body></html>
</object>
</div>
<div class="crates" onclick=crate_click()>
"#@
}

/// The shell of the landing page, up to the open brace of the
/// name-to-version map its search box consults.
pub open spec fn spec_landing_header() -> Seq<char> {
    r#"<!DOCTYPE HTML>
<html><head><style>
body {
    background: #111;
    color: #eee;
    font-family: sans-serif;
    font-size: 20px;
}
input {
    background: #111;
    color: #eee;
    font-family: monospace;
    font-size: 20px;
}
</style></head><body onload="init()">
<script>
function init() {
    document.getElementById("search").focus();
    document.getElementById("search").addEventListener("change", (event) => {
        let crate = event.target.value;
        let version = all[crate];
        if (version != undefined) {
            move_to(crate, version);
        }
    });

    var params = decode_params();
    if (params.crate != undefined && params.version != undefined) {
        move_to(params.crate, params.version);
    }
}
function move_to(crate, version) {
    let base = window.location.origin + window.location.pathname;
    window.location.href = base + "logs/" + crate + "/" + version + ".html"
}
function decode_params() {
    var params = {};
    var paramsarr = window.location.search.substr(1).split('&');
    for (var i = 0; i < paramsarr.length; ++i) {
        var tmp = paramsarr[i].split("=");
        if (!tmp[0] || !tmp[1]) continue;
        params[tmp[0]] = decodeURIComponent(tmp[1]);
    }
    return params;
}
</script>
<title>Miri build logs</title>
<p>Hello! This website hosts a library of logs, displayed as if you have just run <span style="font-family:monospace; font-size: 19px; background-color:#333;">cargo miri test</span> on every published crate on crates.io.
<p>Try searching for a crate below, if one is found you will be redirected to the build output for its most recently published version. For crates where Miri detects UB, the page will be automatically scrolled to the first UB report.
<div style="text-align: center">
<input id="search" style="width: 80%; height: 100%; margin: 0 auto;"></input>
<p><span id=search-result style="font-family:monospace; font-size: 19px;"></span>
</div>
<script>
const all =
{"#@
}

/// The listing text of one cause: the kind, the attributed package in
/// parentheses when there is one, and a separating comma.
pub open spec fn cause_text(c: CauseView) -> Seq<char> {
    c.kind + (match c.source {
        Some(s) => " ("@ + s + ")"@,
        None => Seq::<char>::empty(),
    }) + ", "@
}

/// The listing text of the first `n` causes.
pub open spec fn causes_text(cs: Seq<CauseView>, n: int) -> Seq<char>
    decreases n,
{
    if n <= 0 {
        Seq::empty()
    } else {
        causes_text(cs, n - 1) + cause_text(cs[n - 1])
    }
}

/// One row of the UB listing: name, version and the causes, with the
/// final separator trimmed back off.
pub open spec fn ub_row(c: Crate, cs: Seq<CauseView>) -> Seq<char> {
    let pre = "<div class=\"row\">"@ + c.name@ + seq![' '] + spec_version_str(c.version@)
        + "<br>"@ + causes_text(cs, cs.len() as int);
    pre.take(pre.len() - 2) + "</div>\n"@
}

/// The rows of the first `n` packages; only packages with a UB verdict
/// appear.
pub open spec fn ub_rows(crates: Seq<Crate>, n: int) -> Seq<char>
    decreases n,
{
    if n <= 0 {
        Seq::empty()
    } else {
        ub_rows(crates, n - 1) + (match crates[n - 1].status@ {
            StatusView::UB(cs) => ub_row(crates[n - 1], cs),
            _ => Seq::<char>::empty(),
        })
    }
}

/// The whole UB listing page.
pub open spec fn spec_render_ub(crates: Seq<Crate>) -> Seq<char> {
    spec_ub_header() + seq!['\n'] + ub_rows(crates, crates.len() as int)
}

/// Builds the UB listing page: one row per package whose verdict is UB,
/// in the given order.
pub fn render_ub(crates: &Vec<Crate>) -> (r: String)
    ensures
        r@ == spec_render_ub(crates@),
{
    let mut out: Vec<char> = Vec::new();
    crate::seqs::push_str_chars(&mut out, r#"<!DOCTYPE HTML>
<html><head><style>
body {
    background: #111;
    color: #eee;
    font-family: sans-serif;
    font-size: 18px;
    margin: 0;
    overflow: hidden;
}
a {
    color: #eee;
}
.row {
    text-indent: 1em;
    border-bottom: 1px solid #333;
    line-height: 1.5;
    vertical-align: top;
    margin-right: 0.5em;
    margin-left: 0.5em;
    padding-top: 0.5em;
    padding-bottom: 0.5em;
}
.log {
    order: 1;
    height: 100vh;
    margin: 0;
    width: 100%;
    font-size: 14px;
}
.pre {
    word-wrap: break-word;
    white-space: pre-wrap;
}
.crates {
    order: 2;
    height: 100vh;
    width: 25%;
    overflow-y: scroll;
    overflow-x: hidden;
}
.page {
    display: flex;
    flex-direction: row;
    width: 100%;
    height: 100%;
    margin: 0;
}
</style></head><body onload="init()">
<script>
function init() {
    var params = decode_params();
    if (params.crate != undefined && params.version != undefined) {
        change_log(params.crate, params.version);
    }
}
function decode_params() {
    var params = {};
    var paramsarr = window.location.search.substr(1).split('&');
    for (var i = 0; i < paramsarr.length; ++i) {
        var tmp = paramsarr[i].split("=");
        if (!tmp[0] || !tmp[1]) continue;
        params[tmp[0]] = decodeURIComponent(tmp[1]);
    }
    return params;
}
function crate_click() {
    if (event.target.classList.contains("row")) {
        let fields = event.target.innerHTML.split("<")[0].split(" ");
        let crate = fields[0];
        let version = fields[1];

        change_log(crate, version);
   }
}
let build_log;
function change_log(crate, version) {
    let path = window.location.pathname;
    let base = path.slice(0, path.lastIndexOf('/'));
    let html = "<object data=\"" + base + "/logs/" + crate + "/" + encodeURIComponent(version) + "\" width=100% height=100%></object>";
    if (build_log == undefined)  {
        build_log = document.getElementById("log");
    }
    build_log.innerHTML = html;

    params = decode_params();
    params.crate = crate;
    params.version = version;
    history.replaceState(null, null, encode_params(params));
}
function encode_params(params) {
    var uri = "?";
    for (var key in params) {
        uri += key + '=' + encodeURIComponent(params[key]) + '&';
    }
    if (uri.slice(-1) == "&") {
        uri = uri.substring(0, uri.length - 1);
    }
    if (uri == '?') {
        uri = window.location.href.split('?')[0];
    }
    return uri;
}
</script>
<div class="page">
<div class="log" id="log">
<object>
<html><head><style>
body {
    background: #111;
    color: #eee;
}
pre {
    word-wrap: break-word;
    white-space: pre-wrap;
    font-size: 14px;
    font-size-adjust: none;
    text-size-adjust: none;
    -webkit-text-size-adjust: 100%;
    -moz-text-size-adjust: 100%;
    -ms-text-size-adjust: 100%;
}
</style></head><body><pre>
Click on a crate to the right to display its build log
</pre></body></html>
</object>
</div>
<div class="crates" onclick=crate_click()>
"#);
    out.push('\n');
    let n = crates.len();
    let mut i: usize = 0;
    proof {
        assert(out@ =~= spec_ub_header() + seq!['\n'] + ub_rows(crates@, 0));
    }
    while i < n
        invariant
            n == crates@.len(),
            i <= n,
            out@ == spec_ub_header() + seq!['\n'] + ub_rows(crates@, i as int),
        decreases n - i,
    {
        let c = &crates[i];
        match &c.status {
            Status::UB { cause } => {
                let ghost cs = (match c.status@ {
                    StatusView::UB(cs) => cs,
                    _ => Seq::<CauseView>::empty(),
                });
                let mut row: Vec<char> = Vec::new();
                crate::seqs::push_str_chars(&mut row, "<div class=\"row\">");
                let mut nv = crate::strutil::chars_of(c.name.as_str());
                row.append(&mut nv);
                row.push(' ');
                let vs = c.version.to_str();
                let mut vv = crate::strutil::chars_of(vs.as_str());
                row.append(&mut vv);
                crate::seqs::push_str_chars(&mut row, "<br>");
                let m = cause.len();
                let mut j: usize = 0;
                proof {
                    assert(cs =~= Seq::new(cause@.len(), |q: int| cause@[q]@));
                    assert(row@ =~= "<div class=\"row\">"@ + c.name@ + seq![' ']
                        + spec_version_str(c.version@) + "<br>"@ + causes_text(cs, 0));
                }
                while j < m
                    invariant
                        m == cause@.len(),
                        j <= m,
                        cs == Seq::new(cause@.len(), |q: int| cause@[q]@),
                        row@ == "<div class=\"row\">"@ + c.name@ + seq![' ']
                            + spec_version_str(c.version@) + "<br>"@ + causes_text(
                            cs,
                            j as int,
                        ),
                    decreases m - j,
                {
                    let mut kv = crate::strutil::chars_of(cause[j].kind.as_str());
                    row.append(&mut kv);
                    match &cause[j].source_crate {
                        Some(src) => {
                            crate::seqs::push_str_chars(&mut row, " (");
                            let mut sv = crate::strutil::chars_of(src.as_str());
                            row.append(&mut sv);
                            crate::seqs::push_str_chars(&mut row, ")");
                        },
                        None => {},
                    }
                    crate::seqs::push_str_chars(&mut row, ", ");
                    proof {
                        assert(cs[j as int] == cause@[j as int]@);
                        assert(row@ =~= "<div class=\"row\">"@ + c.name@ + seq![' ']
                            + spec_version_str(c.version@) + "<br>"@ + causes_text(
                            cs,
                            j as int + 1,
                        ));
                    }
                    j += 1;
                }
                row.pop();
                row.pop();
                crate::seqs::push_str_chars(&mut row, "</div>\n");
                proof {
                    let pre = "<div class=\"row\">"@ + c.name@ + seq![' '] + spec_version_str(
                        c.version@,
                    ) + "<br>"@ + causes_text(cs, cs.len() as int);
                    reveal_strlit("<div class=\"row\">");
                    assert(pre.len() >= 2);
                    assert(row@ =~= pre.take(pre.len() - 2) + "</div>\n"@);
                    assert(row@ =~= ub_row(*c, cs));
                }
                let mut rv = row;
                out.append(&mut rv);
                proof {
                    assert(out@ =~= spec_ub_header() + seq!['\n'] + ub_rows(
                        crates@,
                        i as int + 1,
                    ));
                }
            },
            _ => {
                proof {
                    assert(out@ =~= spec_ub_header() + seq!['\n'] + ub_rows(
                        crates@,
                        i as int + 1,
                    ));
                }
            },
        }
        i += 1;
    }
    crate::strutil::string_from_chars(&out)
}

/// One landing-page map line for a rendered-log key `name/version`; a
/// key without a slash contributes nothing.
pub open spec fn landing_row(key: Seq<char>) -> Seq<char> {
    let f = crate::seqs::find_char_from(key, '/', 0);
    if f < 0 {
        Seq::empty()
    } else {
        seq!['"'] + key.take(f) + "\": [\""@ + key.skip(f + 1) + "\"],\n"@
    }
}

pub open spec fn landing_rows(keys: Seq<String>, n: int) -> Seq<char>
    decreases n,
{
    if n <= 0 {
        Seq::empty()
    } else {
        landing_rows(keys, n - 1) + landing_row(keys[n - 1]@)
    }
}

/// The landing page: the shell, the name-to-version map lines with the
/// final newline dropped, and the closing of the inline script.
pub open spec fn spec_landing_page(keys: Seq<String>) -> Seq<char> {
    let full = spec_landing_header() + landing_rows(keys, keys.len() as int);
    full.take(full.len() - 1) + "};</script></html>"@
}

/// Builds the landing page from the rendered-log keys.
pub fn landing_page(keys: &Vec<String>) -> (r: String)
    ensures
        r@ == spec_landing_page(keys@),
{
    let mut out: Vec<char> = Vec::new();
    crate::seqs::push_str_chars(&mut out, r#"<!DOCTYPE HTML>
<html><head><style>
body {
    background: #111;
    color: #eee;
    font-family: sans-serif;
    font-size: 20px;
}
input {
    background: #111;
    color: #eee;
    font-family: monospace;
    font-size: 20px;
}
</style></head><body onload="init()">
<script>
function init() {
    document.getElementById("search").focus();
    document.getElementById("search").addEventListener("change", (event) => {
        let crate = event.target.value;
        let version = all[crate];
        if (version != undefined) {
            move_to(crate, version);
        }
    });

    var params = decode_params();
    if (params.crate != undefined && params.version != undefined) {
        move_to(params.crate, params.version);
    }
}
function move_to(crate, version) {
    let base = window.location.origin + window.location.pathname;
    window.location.href = base + "logs/" + crate + "/" + version + ".html"
}
function decode_params() {
    var params = {};
    var paramsarr = window.location.search.substr(1).split('&');
    for (var i = 0; i < paramsarr.length; ++i) {
        var tmp = paramsarr[i].split("=");
        if (!tmp[0] || !tmp[1]) continue;
        params[tmp[0]] = decodeURIComponent(tmp[1]);
    }
    return params;
}
</script>
<title>Miri build logs</title>
<p>Hello! This website hosts a library of logs, displayed as if you have just run <span style="font-family:monospace; font-size: 19px; background-color:#333;">cargo miri test</span> on every published crate on crates.io.
<p>Try searching for a crate below, if one is found you will be redirected to the build output for its most recently published version. For crates where Miri detects UB, the page will be automatically scrolled to the first UB report.
<div style="text-align: center">
<input id="search" style="width: 80%; height: 100%; margin: 0 auto;"></input>
<p><span id=search-result style="font-family:monospace; font-size: 19px;"></span>
</div>
<script>
const all =
{"#);
    let n = keys.len();
    let mut i: usize = 0;
    proof {
        assert(out@ =~= spec_landing_header() + landing_rows(keys@, 0));
    }
    while i < n
        invariant
            n == keys@.len(),
            i <= n,
            out@ == spec_landing_header() + landing_rows(keys@, i as int),
        decreases n - i,
    {
        let kv = crate::strutil::chars_of(keys[i].as_str());
        let slash = find_slash(&kv);
        match slash {
            Some(f) => {
                out.push('"');
                let mut q: usize = 0;
                while q < f
                    invariant
                        f <= kv@.len(),
                        q <= f,
                        out@ =~= spec_landing_header() + landing_rows(keys@, i as int) + seq![
                            '"',
                        ] + kv@.take(q as int),
                    decreases f - q,
                {
                    out.push(kv[q]);
                    q += 1;
                }
                crate::seqs::push_str_chars(&mut out, "\": [\"");
                let m = kv.len();
                let mut q2: usize = f + 1;
                while q2 < m
                    invariant
                        f < q2 <= m,
                        m == kv@.len(),
                        out@ =~= spec_landing_header() + landing_rows(keys@, i as int) + seq![
                            '"',
                        ] + kv@.take(f as int) + "\": [\""@ + kv@.subrange(
                            f as int + 1,
                            q2 as int,
                        ),
                    decreases m - q2,
                {
                    out.push(kv[q2]);
                    q2 += 1;
                }
                crate::seqs::push_str_chars(&mut out, "\"],\n");
                proof {
                    assert(kv@.subrange(f as int + 1, m as int) =~= kv@.skip(f as int + 1));
                    assert(out@ =~= spec_landing_header() + landing_rows(keys@, i as int)
                        + landing_row(keys@[i as int]@));
                    assert(out@ =~= spec_landing_header() + landing_rows(keys@, i as int + 1));
                }
            },
            None => {
                proof {
                    assert(landing_row(keys@[i as int]@) =~= Seq::<char>::empty());
                    assert(out@ =~= spec_landing_header() + landing_rows(keys@, i as int + 1));
                }
            },
        }
        i += 1;
    }
    out.pop();
    crate::seqs::push_str_chars(&mut out, "};</script></html>");
    proof {
        let full = spec_landing_header() + landing_rows(keys@, keys@.len() as int);
        assert(full.len() >= 1) by {
            reveal_strlit(r#"<!DOCTYPE HTML>
<html><head><style>
body {
    background: #111;
    color: #eee;
    font-family: sans-serif;
    font-size: 20px;
}
input {
    background: #111;
    color: #eee;
    font-family: monospace;
    font-size: 20px;
}
</style></head><body onload="init()">
<script>
function init() {
    document.getElementById("search").focus();
    document.getElementById("search").addEventListener("change", (event) => {
        let crate = event.target.value;
        let version = all[crate];
        if (version != undefined) {
            move_to(crate, version);
        }
    });

    var params = decode_params();
    if (params.crate != undefined && params.version != undefined) {
        move_to(params.crate, params.version);
    }
}
function move_to(crate, version) {
    let base = window.location.origin + window.location.pathname;
    window.location.href = base + "logs/" + crate + "/" + version + ".html"
}
function decode_params() {
    var params = {};
    var paramsarr = window.location.search.substr(1).split('&');
    for (var i = 0; i < paramsarr.length; ++i) {
        var tmp = paramsarr[i].split("=");
        if (!tmp[0] || !tmp[1]) continue;
        params[tmp[0]] = decodeURIComponent(tmp[1]);
    }
    return params;
}
</script>
<title>Miri build logs</title>
<p>Hello! This website hosts a library of logs, displayed as if you have just run <span style="font-family:monospace; font-size: 19px; background-color:#333;">cargo miri test</span> on every published crate on crates.io.
<p>Try searching for a crate below, if one is found you will be redirected to the build output for its most recently published version. For crates where Miri detects UB, the page will be automatically scrolled to the first UB report.
<div style="text-align: center">
<input id="search" style="width: 80%; height: 100%; margin: 0 auto;"></input>
<p><span id=search-result style="font-family:monospace; font-size: 19px;"></span>
</div>
<script>
const all =
{"#);
        }
        assert(out@ =~= full.take(full.len() - 1) + "};</script></html>"@);
    }
    crate::strutil::string_from_chars(&out)
}

fn find_slash(kv: &Vec<char>) -> (r: Option<usize>)
    ensures
        match r {
            Some(f) => crate::seqs::find_char_from(kv@, '/', 0) == f && f < kv@.len(),
            None => crate::seqs::find_char_from(kv@, '/', 0) == -1,
        },
{
    let n = kv.len();
    let mut i: usize = 0;
    while i < n
        invariant
            n == kv@.len(),
            i <= n,
            crate::seqs::find_char_from(kv@, '/', 0) == crate::seqs::find_char_from(
                kv@,
                '/',
                i as int,
            ),
        decreases n - i,
    {
        if kv[i] == '/' {
            return Some(i);
        }
        i += 1;
    }
    None
}

/// The listing order: more recent downloads first, and for a tie the
/// higher version first.
pub open spec fn listing_le(a: Crate, b: Crate) -> bool {
    let da = a.recent_downloads;
    let db = b.recent_downloads;
    let dc: int = match (db, da) {
        (Option::None, Option::None) => 0,
        (Option::None, Option::Some(_)) => -1,
        (Option::Some(_), Option::None) => 1,
        (Option::Some(x), Option::Some(y)) => if x < y {
            -1
        } else if x > y {
            1
        } else {
            0
        },
    };
    if dc != 0 {
        dc < 0
    } else {
        version_cmp(b.version@, a.version@) <= 0
    }
}

pub open spec fn insert_listing(c: Crate, s: Seq<Crate>) -> Seq<Crate>
    decreases s.len(),
{
    if s.len() == 0 {
        seq![c]
    } else if listing_le(c, s[0]) {
        seq![c] + s
    } else {
        seq![s[0]] + insert_listing(c, s.drop_first())
    }
}

pub open spec fn sort_listing_upto(s: Seq<Crate>, n: int) -> Seq<Crate>
    decreases n,
{
    if n <= 0 {
        Seq::empty()
    } else {
        insert_listing(s[n - 1], sort_listing_upto(s, n - 1))
    }
}

/// The listing order over a whole batch.
pub open spec fn spec_sort_listing(s: Seq<Crate>) -> Seq<Crate> {
    sort_listing_upto(s, s.len() as int)
}

proof fn lemma_insert_listing_at(c: Crate, s: Seq<Crate>, pos: int)
    requires
        0 <= pos <= s.len(),
        forall|j: int| 0 <= j < pos ==> !listing_le(c, s[j]),
        pos < s.len() ==> listing_le(c, s[pos]),
    ensures
        insert_listing(c, s) =~= s.take(pos) + seq![c] + s.skip(pos),
    decreases s.len(),
{
    if s.len() == 0 {
        assert(insert_listing(c, s) =~= s.take(pos) + seq![c] + s.skip(pos));
    } else if listing_le(c, s[0]) {
        assert(pos == 0);
        assert(seq![c] + s =~= s.take(0) + seq![c] + s.skip(0));
    } else {
        assert(pos >= 1);
        let d = s.drop_first();
        assert(forall|j: int| 0 <= j < pos - 1 ==> d[j] == s[j + 1]);
        assert(pos - 1 < d.len() ==> listing_le(c, d[pos - 1]));
        lemma_insert_listing_at(c, d, pos - 1);
        assert(seq![s[0]] + (d.take(pos - 1) + seq![c] + d.skip(pos - 1)) =~= s.take(pos)
            + seq![c] + s.skip(pos));
    }
}

fn listing_le_exec(a: &Crate, b: &Crate) -> (r: bool)
    ensures
        r == listing_le(*a, *b),
{
    let dc: i8 = match (&b.recent_downloads, &a.recent_downloads) {
        (Option::None, Option::None) => 0,
        (Option::None, Option::Some(_)) => -1,
        (Option::Some(_), Option::None) => 1,
        (Option::Some(x), Option::Some(y)) => if *x < *y {
            -1
        } else if *x > *y {
            1
        } else {
            0
        },
    };
    if dc != 0 {
        dc < 0
    } else {
        crate::version_ord::compare_versions(&b.version, &a.version) <= 0
    }
}

/// Sorts a batch into listing order: downloads descending, then version
/// descending.
pub fn sort_listing(crates: Vec<Crate>) -> (r: Vec<Crate>)
    ensures
        r@ == spec_sort_listing(crates@),
{
    let mut rest = crates;
    let ghost orig = rest@;
    let mut out: Vec<Crate> = Vec::new();
    let ghost mut k: int = 0;
    proof {
        assert(out@ =~= sort_listing_upto(orig, 0));
        assert(rest@ =~= orig.skip(0));
    }
    while rest.len() > 0
        invariant
            0 <= k <= orig.len(),
            rest@ =~= orig.skip(k),
            out@ == sort_listing_upto(orig, k),
        decreases rest@.len(),
    {
        proof {
            vstd::seq_lib::lemma_seq_skip_index::<Crate>(orig, k, 0);
        }
        let c = rest.remove(0);
        proof {
            assert(c == orig[k]);
            assert(rest@ =~= orig.skip(k + 1)) by {
                assert forall|j: int| 0 <= j < rest@.len() implies rest@[j] == orig.skip(k + 1)[j]
                    by {
                    vstd::seq_lib::lemma_seq_skip_index::<Crate>(orig, k, j + 1);
                    vstd::seq_lib::lemma_seq_skip_index::<Crate>(orig, k + 1, j);
                }
            }
        }
        let m = out.len();
        let mut pos: usize = 0;
        while pos < m && !listing_le_exec(&c, &out[pos])
            invariant
                m == out@.len(),
                pos <= m,
                forall|j: int| 0 <= j < pos ==> !listing_le(c, #[trigger] out@[j]),
            decreases m - pos,
        {
            pos += 1;
        }
        proof {
            lemma_insert_listing_at(c, out@, pos as int);
        }
        let ghost prev = out@;
        out.insert(pos, c);
        proof {
            assert(out@ =~= prev.take(pos as int) + seq![c] + prev.skip(pos as int));
            assert(out@ =~= sort_listing_upto(orig, k + 1));
            k = k + 1;
        }
    }
    proof {
        assert(k == orig.len());
    }
    out
}

/// One entry per package name, keeping the first (and so best-ranked)
/// entry of each run of equal names.
pub open spec fn spec_dedup_names(s: Seq<Crate>) -> Seq<Crate>
    decreases s.len(),
{
    if s.len() == 0 {
        s
    } else {
        let d = spec_dedup_names(s.drop_last());
        if d.len() > 0 && d.last().name@ == s.last().name@ {
            d
        } else {
            d.push(s.last())
        }
    }
}

/// Drops every entry whose name equals the last kept entry's name.
pub fn dedup_names(crates: Vec<Crate>) -> (r: Vec<Crate>)
    ensures
        r@ == spec_dedup_names(crates@),
{
    let mut rest = crates;
    let ghost orig = rest@;
    let mut out: Vec<Crate> = Vec::new();
    let ghost mut k: int = 0;
    proof {
        assert(orig.take(0) =~= Seq::<Crate>::empty());
        assert(out@ =~= spec_dedup_names(orig.take(0)));
        assert(rest@ =~= orig.skip(0));
    }
    while rest.len() > 0
        invariant
            0 <= k <= orig.len(),
            rest@ =~= orig.skip(k),
            out@ == spec_dedup_names(orig.take(k)),
        decreases rest@.len(),
    {
        proof {
            vstd::seq_lib::lemma_seq_skip_index::<Crate>(orig, k, 0);
        }
        let c = rest.remove(0);
        proof {
            assert(c == orig[k]);
            assert(rest@ =~= orig.skip(k + 1)) by {
                assert forall|j: int| 0 <= j < rest@.len() implies rest@[j] == orig.skip(k + 1)[j]
                    by {
                    vstd::seq_lib::lemma_seq_skip_index::<Crate>(orig, k, j + 1);
                    vstd::seq_lib::lemma_seq_skip_index::<Crate>(orig, k + 1, j);
                }
            }
        }
        let ghost tv = orig.take(k + 1);
        proof {
            assert(tv.drop_last() =~= orig.take(k));
            assert(tv.last() == orig[k]);
        }
        let same = if out.len() > 0 {
            let nv = crate::strutil::chars_of(c.name.as_str());
            let lv = crate::strutil::chars_of(out[out.len() - 1].name.as_str());
            crate::seqs::chars_eq(&nv, &lv)
        } else {
            false
        };
        proof {
            if out@.len() > 0 {
                assert(out@.last() == out@[out@.len() - 1]);
            }
        }
        if !same {
            out.push(c);
        }
        proof {
            k = k + 1;
        }
    }
    proof {
        assert(orig.take(orig.len() as int) =~= orig);
    }
    out
}

/// The storage entries fresh enough to count as finished: key and
/// last-modified time, filtered by age.
pub open spec fn spec_keep_fresh(entries: Seq<(String, i64)>, now: int, max_age: int) -> Seq<
    String,
>
    decreases entries.len(),
{
    if entries.len() == 0 {
        Seq::empty()
    } else {
        let rest = spec_keep_fresh(entries.drop_first(), now, max_age);
        if now - entries[0].1 <= max_age {
            seq![entries[0].0] + rest
        } else {
            rest
        }
    }
}

/// Filters a storage listing down to the keys modified within the
/// given age.
pub fn list_finished(entries: Vec<(String, i64)>, now: i64, max_age: i64) -> (r: Vec<String>)
    ensures
        r@ == spec_keep_fresh(entries@, now as int, max_age as int),
{
    let mut rest = entries;
    let ghost orig = rest@;
    let mut out: Vec<String> = Vec::new();
    let ghost mut k: int = 0;
    proof {
        assert(rest@ =~= orig.skip(0));
        assert(spec_keep_fresh(orig, now as int, max_age as int) =~= out@ + spec_keep_fresh(
            orig.skip(0),
            now as int,
            max_age as int,
        ));
    }
    while rest.len() > 0
        invariant
            0 <= k <= orig.len(),
            rest@ =~= orig.skip(k),
            spec_keep_fresh(orig, now as int, max_age as int) == out@ + spec_keep_fresh(
                orig.skip(k),
                now as int,
                max_age as int,
            ),
        decreases rest@.len(),
    {
        proof {
            vstd::seq_lib::lemma_seq_skip_index::<(String, i64)>(orig, k, 0);
        }
        let p = rest.remove(0);
        proof {
            assert(p == orig[k]);
            assert(rest@ =~= orig.skip(k + 1)) by {
                assert forall|j: int| 0 <= j < rest@.len() implies rest@[j] == orig.skip(k + 1)[j]
                    by {
                    vstd::seq_lib::lemma_seq_skip_index::<(String, i64)>(orig, k, j + 1);
                    vstd::seq_lib::lemma_seq_skip_index::<(String, i64)>(orig, k + 1, j);
                }
            }
        }
        let fresh = (now as i128) - (p.1 as i128) <= (max_age as i128);
        let ghost prev = out@;
        if fresh {
            out.push(p.0);
        }
        proof {
            assert(orig.skip(k).drop_first() =~= orig.skip(k + 1));
            if fresh {
                assert(out@ =~= prev.push(orig[k].0));
                assert(out@ + spec_keep_fresh(orig.skip(k + 1), now as int, max_age as int)
                    =~= prev + spec_keep_fresh(orig.skip(k), now as int, max_age as int));
            }
            k = k + 1;
        }
    }
    proof {
        assert(spec_keep_fresh(orig.skip(orig.len() as int), now as int, max_age as int)
            =~= Seq::<String>::empty());
        assert(out@ =~= spec_keep_fresh(orig, now as int, max_age as int));
    }
    out
}

} // verus!
