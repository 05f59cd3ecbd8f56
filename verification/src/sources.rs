//! The per-turn sources block: the URLs a turn cited, numbered, each with
//! its domain, under a `Sources:` header, all in the link style. A URL is
//! wrapped in an OSC 8 hyperlink so a terminal can open it, except a
//! `mailto:` address or a text already carrying the escape.

use vstd::prelude::*;
use crate::segment::{lit, push_seg, seg, Segment, Tone};
use crate::text::{
    append_str, chars_of, decimal, find_sub, first_occurrence, has_infix, has_prefix, owned,
    slice_vec, starts_with, string_from, u64_decimal,
};
use crate::formatters::host_end;

verus! {

/// The most entries the block lists; the rest are dropped.
pub const MAX_SOURCES: usize = 10;

/// The text of a URL between its first `://` and the next one.
pub open spec fn after_scheme(url: Seq<char>) -> Option<Seq<char>> {
    match first_occurrence(url, "://"@) {
        Some(i) => {
            let rest = url.skip(i + 3);
            match first_occurrence(rest, "://"@) {
                Some(j) => Some(rest.take(j)),
                None => Some(rest),
            }
        },
        None => None,
    }
}

/// The host of a URL: what follows the scheme up to the first `/`, `?`
/// or `#`; nothing without a scheme or with an empty host.
pub open spec fn domain_of(url: Seq<char>) -> Option<Seq<char>> {
    match after_scheme(url) {
        Some(piece) => {
            let host = piece.take(host_end(piece) as int);
            if host.len() == 0 { None } else { Some(host) }
        },
        None => None,
    }
}

/// The OSC 8 opener for `url`.
pub open spec fn osc8_open(url: Seq<char>) -> Seq<char> {
    "\x1b]8;;"@ + url + "\x07"@
}

/// The OSC 8 closer.
pub open spec fn osc8_close() -> Seq<char> {
    "\x1b]8;;\x07"@
}

/// A URL that renders as plain text: a `mailto:` address, or a text that
/// already carries an OSC 8 escape.
pub open spec fn renders_plain(url: Seq<char>) -> bool {
    has_prefix(url, "mailto:"@) || has_infix(url, "\x1b]8;;"@)
}

/// The row for the `i`-th (0-based) URL: `  N. <domain> — ` and the URL,
/// the URL between the OSC 8 escapes unless it renders plain.
pub open spec fn source_row(i: int, url: Seq<char>) -> Seq<(Seq<char>, Tone, bool)> {
    let domain = match domain_of(url) {
        Some(d) => d,
        None => url,
    };
    let head = seg("  "@ + decimal((i + 1) as nat) + ". "@ + domain + " — "@, Tone::Link);
    if renders_plain(url) {
        seq![head, seg(url, Tone::Link)]
    } else {
        seq![head, seg(osc8_open(url), Tone::Link), seg(url, Tone::Link), seg(osc8_close(), Tone::Link)]
    }
}

/// The block for `urls`: nothing for no URLs, else the header and one row
/// for each of the first [`MAX_SOURCES`] URLs.
pub open spec fn sources_of(urls: Seq<Seq<char>>) -> Seq<Seq<(Seq<char>, Tone, bool)>> {
    if urls.len() == 0 {
        Seq::empty()
    } else {
        let n = if urls.len() <= MAX_SOURCES { urls.len() } else { MAX_SOURCES as nat };
        seq![seq![seg("Sources:"@, Tone::Link)]] + Seq::new(n, |i: int| source_row(i, urls[i]))
    }
}

/// The plain value of a list of rows.
pub open spec fn rows_view(v: Seq<Vec<Segment>>) -> Seq<Seq<(Seq<char>, Tone, bool)>> {
    v.map_values(|l: Vec<Segment>| l@.map_values(|x: Segment| x@))
}

/// The host of a URL, if it has a scheme and a non-empty host.
pub fn extract_domain(url: &str) -> (r: Option<String>)
    ensures
        match r {
            Some(d) => domain_of(url@) == Some(d@),
            None => domain_of(url@) is None,
        },
{
    let cs = chars_of(url);
    let sep = chars_of("://");
    proof { reveal_strlit("://"); }
    let i = match find_sub(cs.as_slice(), sep.as_slice()) {
        Some(i) => i,
        None => return None,
    };
    assert(crate::text::occurs_at(cs@, sep@, i as int));
    assert(cs@.len() == cs.len());
    let start = i + 3;
    let rest = slice_vec(cs.as_slice(), start, cs.len());
    assert(rest@ =~= url@.skip(start as int));
    let end: usize = match find_sub(rest.as_slice(), sep.as_slice()) {
        Some(j) => {
            assert(crate::text::occurs_at(rest@, sep@, j as int));
            j
        },
        None => rest.len(),
    };
    let piece = slice_vec(rest.as_slice(), 0, end);
    let ghost pv = piece@;
    proof {
        if first_occurrence(rest@, "://"@) is None {
            assert(rest@.take(end as int) =~= rest@);
        }
        assert(after_scheme(url@) == Some(pv));
    }
    let mut k: usize = 0;
    while k < piece.len() && piece[k] != '/' && piece[k] != '?' && piece[k] != '#'
        invariant
            k <= piece.len(),
            forall|j: int| 0 <= j < k ==> piece@[j] != '/' && piece@[j] != '?' && piece@[j] != '#',
        decreases piece.len() - k,
    {
        k += 1;
    }
    proof {
        crate::formatters::lemma_host_end(pv, k as int);
    }
    if k == 0 {
        return None;
    }
    let host = slice_vec(piece.as_slice(), 0, k);
    assert(host@ =~= pv.take(k as int));
    Some(string_from(host.as_slice()))
}

/// The row for the `index`-th (0-based) URL.
fn row(index: usize, url: &str) -> (r: Vec<Segment>)
    requires
        index < MAX_SOURCES,
    ensures
        r@.map_values(|x: Segment| x@) == source_row(index as int, url@),
{
    let mut head = owned("  ");
    let n = u64_decimal((index + 1) as u64);
    append_str(&mut head, n.as_str());
    append_str(&mut head, ". ");
    match extract_domain(url) {
        Some(d) => append_str(&mut head, d.as_str()),
        None => append_str(&mut head, url),
    }
    append_str(&mut head, " — ");
    let mut out: Vec<Segment> = Vec::new();
    push_seg(&mut out, Segment { text: head, tone: Tone::Link, bold: false });
    let cs = chars_of(url);
    let mail = chars_of("mailto:");
    let esc = chars_of("\x1b]8;;");
    if starts_with(cs.as_slice(), mail.as_slice()) || crate::text::contains(cs.as_slice(), esc.as_slice()) {
        push_seg(&mut out, lit(url, Tone::Link));
    } else {
        let mut open = owned("\x1b]8;;");
        append_str(&mut open, url);
        append_str(&mut open, "\x07");
        push_seg(&mut out, Segment { text: open, tone: Tone::Link, bold: false });
        push_seg(&mut out, lit(url, Tone::Link));
        push_seg(&mut out, lit("\x1b]8;;\x07", Tone::Link));
    }
    out
}

/// The sources block for `urls` (which the caller has already deduped).
pub fn render_sources(urls: &[String]) -> (r: Vec<Vec<Segment>>)
    ensures
        rows_view(r@) == sources_of(urls@.map_values(|u: String| u@)),
{
    let ghost uv = urls@.map_values(|u: String| u@);
    let mut out: Vec<Vec<Segment>> = Vec::new();
    if urls.len() == 0 {
        assert(rows_view(out@) =~= Seq::<Seq<(Seq<char>, Tone, bool)>>::empty());
        return out;
    }
    let mut header: Vec<Segment> = Vec::new();
    push_seg(&mut header, lit("Sources:", Tone::Link));
    let ghost hv = header@.map_values(|x: Segment| x@);
    out.push(header);
    assert(hv =~= seq![seg("Sources:"@, Tone::Link)]);
    assert(rows_view(out@) =~= seq![seq![seg("Sources:"@, Tone::Link)]] + Seq::new(0, |k: int| source_row(k, uv[k])));
    let n: usize = if urls.len() <= MAX_SOURCES { urls.len() } else { MAX_SOURCES };
    let mut i: usize = 0;
    while i < n
        invariant
            i <= n,
            n <= urls.len(),
            n <= MAX_SOURCES,
            uv == urls@.map_values(|u: String| u@),
            rows_view(out@) == seq![seq![seg("Sources:"@, Tone::Link)]] + Seq::new(i as nat, |k: int| source_row(k, uv[k])),
        decreases n - i,
    {
        let r = row(i, urls[i].as_str());
        let ghost before = rows_view(out@);
        let ghost rv = r@.map_values(|x: Segment| x@);
        out.push(r);
        assert(rows_view(out@) =~= before.push(rv));
        assert(Seq::new((i + 1) as nat, |k: int| source_row(k, uv[k]))
            =~= Seq::new(i as nat, |k: int| source_row(k, uv[k])).push(source_row(i as int, uv[i as int])));
        i += 1;
    }
    out
}

} // verus!
