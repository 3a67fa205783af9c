use vstd::prelude::*;

use crate::renderer::{
    css_of, init_render, m_emit_html, m_steps, wf_render, Renderer,
};
use crate::seqs::{find_sub, spec_find};

verus! {

/// The result markers that deserve a scroll-to anchor, most specific
/// first; the first marker present in a document wins.
pub open spec fn marker_list() -> Seq<Seq<char>> {
    seq![
        "Undefined Behavior:"@,
        "ERROR: AddressSanitizer:"@,
        "SIGILL: illegal instruction"@,
        "attempted to leave type"@,
        "misaligned pointer dereference"@,
    ]
}

/// The invisible anchor the page scrolls to on load.
pub open spec fn anchor() -> Seq<char> {
    "<span id=\"ub\"></span>"@
}

/// Trying the markers from `idx` on: the anchor is inserted before the
/// first occurrence of the first marker that occurs at all.
pub open spec fn insert_anchor_from(doc: Seq<char>, idx: int) -> Seq<char>
    decreases marker_list().len() - idx,
{
    if idx < 0 || idx >= marker_list().len() {
        doc
    } else {
        let f = spec_find(doc, marker_list()[idx]);
        if f >= 0 {
            doc.take(f) + anchor() + doc.skip(f)
        } else {
            insert_anchor_from(doc, idx + 1)
        }
    }
}

/// A document with the scroll-to anchor spliced in front of the first
/// result marker, when one occurs.
pub open spec fn spec_insert_anchor(doc: Seq<char>) -> Seq<char> {
    insert_anchor_from(doc, 0)
}

/// Copies `doc` with `ins` spliced in at position `at`.
fn splice(doc: &Vec<char>, at: usize, ins: &str) -> (r: Vec<char>)
    requires
        at <= doc@.len(),
    ensures
        r@ == doc@.take(at as int) + ins@ + doc@.skip(at as int),
{
    let mut out: Vec<char> = Vec::new();
    let mut i: usize = 0;
    while i < at
        invariant
            at <= doc@.len(),
            i <= at,
            out@ =~= doc@.take(i as int),
        decreases at - i,
    {
        out.push(doc[i]);
        i += 1;
    }
    crate::seqs::push_str_chars(&mut out, ins);
    let n = doc.len();
    let mut j: usize = at;
    while j < n
        invariant
            n == doc@.len(),
            at <= j <= n,
            out@ =~= doc@.take(at as int) + ins@ + doc@.subrange(at as int, j as int),
        decreases n - j,
    {
        out.push(doc[j]);
        j += 1;
    }
    proof {
        assert(doc@.subrange(at as int, n as int) =~= doc@.skip(at as int));
        assert(out@ =~= doc@.take(at as int) + ins@ + doc@.skip(at as int));
    }
    out
}

/// Splices the scroll-to anchor in front of the first occurrence of the
/// first result marker present in the document.
pub fn insert_anchor(doc: &Vec<char>) -> (r: Vec<char>)
    ensures
        r@ == spec_insert_anchor(doc@),
{
    let markers: [&str; 5] = [
        "Undefined Behavior:",
        "ERROR: AddressSanitizer:",
        "SIGILL: illegal instruction",
        "attempted to leave type",
        "misaligned pointer dereference",
    ];
    let mut idx: usize = 0;
    while idx < 5
        invariant
            idx <= 5,
            markers@.len() == 5,
            forall|q: int| 0 <= q < 5 ==> markers@[q]@ == marker_list()[q],
            spec_insert_anchor(doc@) == insert_anchor_from(doc@, idx as int),
        decreases 5 - idx,
    {
        let pat = crate::strutil::chars_of(markers[idx]);
        match find_sub(doc, &pat) {
            Some(at) => {
                proof {
                    crate::seqs::lemma_spec_find(doc@, pat@);
                }
                return splice(doc, at, "<span id=\"ub\"></span>");
            },
            None => {},
        }
        idx += 1;
    }
    let mut out: Vec<char> = Vec::new();
    let mut i: usize = 0;
    let n = doc.len();
    while i < n
        invariant
            n == doc@.len(),
            i <= n,
            out@ =~= doc@.take(i as int),
        decreases n - i,
    {
        out.push(doc[i]);
        i += 1;
    }
    proof {
        assert(out@ =~= doc@);
    }
    out
}

/// The HTML body a transcript renders to, and the CSS the render
/// produced along the way.
pub open spec fn rendered_html(input: Seq<char>) -> Seq<char> {
    m_emit_html(m_steps(init_render(), input)).out
}

pub open spec fn rendered_css(input: Seq<char>) -> Seq<char> {
    css_of(m_emit_html(m_steps(init_render(), input)).styles)
}

/// Buffered rendering of one whole transcript: the CSS block and the
/// HTML body, in that order.
pub fn render(name: String, input: &str) -> (r: (String, String))
    ensures
        r.0@ == rendered_css(input@),
        r.1@ == rendered_html(input@),
{
    let mut renderer = Renderer::new(name);
    proof {
        assert(wf_render(renderer@));
    }
    renderer.feed_str(input);
    renderer.emit_html();
    let css = renderer.emit_css();
    let html = renderer.take_output();
    (css, html)
}

/// The fixed document shell around a rendered log.
pub open spec fn spec_render_crate(name: Seq<char>, version: Seq<char>, input: Seq<char>) -> Seq<
    char,
> {
    "<!DOCTYPE html><html><head><style>\nbody{background:#111;color:#eee}\npre{word-wrap:break-word;white-space:pre-wrap;font-size:14px}\n"@
        + rendered_css(input)
        + "</style><title>"@ + name + seq![' '] + version
        + "</title>\n<script>function scroll_to_ub(){var ub=document.getElementById(\"ub\");if(ub!==null){ub.scrollIntoView();}}</script>\n</head><body onload=\"scroll_to_ub()\"><pre>\n"@
        + spec_insert_anchor(rendered_html(input)) + "\n</pre></body></html>"@
}

/// One self-contained HTML document for one package's transcript: the
/// style block, the title `name version`, and the rendered log with the
/// scroll-to anchor in front of the first result marker.
pub fn render_crate(name: &str, version: &str, input: &str) -> (r: String)
    ensures
        r@ == spec_render_crate(name@, version@, input@),
{
    let mut renderer = Renderer::new(String::new());
    proof {
        assert(wf_render(renderer@));
    }
    renderer.feed_str(input);
    renderer.emit_html();
    let css = renderer.emit_css();
    let body = renderer.take_output_chars();
    let anchored = insert_anchor(&body);
    let mut out: Vec<char> = Vec::new();
    crate::seqs::push_str_chars(
        &mut out,
        "<!DOCTYPE html><html><head><style>\nbody{background:#111;color:#eee}\npre{word-wrap:break-word;white-space:pre-wrap;font-size:14px}\n",
    );
    let mut cssv = crate::strutil::chars_of(css.as_str());
    out.append(&mut cssv);
    crate::seqs::push_str_chars(&mut out, "</style><title>");
    let mut namev = crate::strutil::chars_of(name);
    out.append(&mut namev);
    out.push(' ');
    let mut verv = crate::strutil::chars_of(version);
    out.append(&mut verv);
    crate::seqs::push_str_chars(
        &mut out,
        "</title>\n<script>function scroll_to_ub(){var ub=document.getElementById(\"ub\");if(ub!==null){ub.scrollIntoView();}}</script>\n</head><body onload=\"scroll_to_ub()\"><pre>\n",
    );
    let mut bodyv = anchored;
    out.append(&mut bodyv);
    crate::seqs::push_str_chars(&mut out, "\n</pre></body></html>");
    proof {
        assert(out@ =~= spec_render_crate(name@, version@, input@));
    }
    crate::strutil::string_from_chars(&out)
}

} // verus!
