//! Per-tool result formatters. A tool's JSON result becomes a one-line
//! summary for the compact card, detail lines for the expanded card, and
//! the URLs for the sources block; a few tools also preview their request
//! arguments. Every formatter tolerates missing or mistyped fields: they
//! collapse to placeholders, never to a failure.
//!
//! The dispatcher is total: an unknown tool name gets the generic
//! formatter.

use vstd::prelude::*;
use crate::json::{
    json_array, json_array_field, json_as_str, json_entries, json_field, json_has, json_has_field,
    json_i64, json_i64_field, json_object_entries, json_pretty_payload, json_str_field,
    json_str_value, json_u64, json_u64_field, pretty_payload,
};
use crate::segment::{lit, push_seg, seg, Segment, Tone};
use crate::text::{
    append_str, ascii_lower, chars_of, decimal, first_occurrence, find_sub, has_prefix,
    is_whitespace, is_ws, lines_of, lower_ascii_seq, owned, slice_vec, split_lines, starts_with,
    byte_len, string_from, to_ascii_lower, trim, trim_chars, trim_end, trim_start, u64_decimal, utf8_len,
};

verus! {

// --- shared pieces ----------------------------------------------------------

/// At most the first `n` items of `s`.
pub open spec fn at_most<A>(s: Seq<A>, n: nat) -> Seq<A> {
    if s.len() <= n { s } else { s.take(n as int) }
}

/// `s` cut to `n` characters, with `…` when something was cut.
pub open spec fn ellipsized(s: Seq<char>, n: nat) -> Seq<char> {
    at_most(s, n) + if s.len() > n { "…"@ } else { Seq::empty() }
}

/// The string field `key` of `p`, or `default`.
pub open spec fn str_or(p: Seq<char>, key: Seq<char>, default: Seq<char>) -> Seq<char> {
    match json_str_field(p, key) {
        Some(v) => v,
        None => default,
    }
}

/// The `u64` field `key` of `p`, or `default`.
pub open spec fn u64_or(p: Seq<char>, key: Seq<char>, default: u64) -> u64 {
    match json_u64_field(p, key) {
        Some(v) => v,
        None => default,
    }
}

/// The `i64` field `key` of `p`, or `default`.
pub open spec fn i64_or(p: Seq<char>, key: Seq<char>, default: i64) -> i64 {
    match json_i64_field(p, key) {
        Some(v) => v,
        None => default,
    }
}

/// The number of items of the array field `key` of `p`, 0 without one.
pub open spec fn array_len_or_zero(p: Seq<char>, key: Seq<char>) -> nat {
    match json_array_field(p, key) {
        Some(items) => items.len(),
        None => 0,
    }
}

/// The decimal rendering of a signed integer.
pub open spec fn signed_decimal(i: int) -> Seq<char> {
    if i < 0 { "-"@ + decimal((-i) as nat) } else { decimal(i as nat) }
}

/// The first `n` lines of `text`, each a segment in `tone`.
pub open spec fn line_rows(text: Seq<char>, n: nat, tone: Tone) -> Seq<(Seq<char>, Tone, bool)> {
    at_most(lines_of(text), n).map_values(|l: Seq<char>| seg(l, tone))
}

fn field_or(p: &str, key: &str, default: &str) -> (r: String)
    ensures
        r@ == str_or(p@, key@, default@),
{
    match json_field(p, key) {
        Some(v) => v,
        None => owned(default),
    }
}

fn u64_field_or(p: &str, key: &str, default: u64) -> (r: u64)
    ensures
        r == u64_or(p@, key@, default),
{
    match json_u64(p, key) {
        Some(v) => v,
        None => default,
    }
}

fn i64_field_or(p: &str, key: &str, default: i64) -> (r: i64)
    ensures
        r == i64_or(p@, key@, default),
{
    match json_i64(p, key) {
        Some(v) => v,
        None => default,
    }
}

fn array_len(p: &str, key: &str) -> (r: usize)
    ensures
        r == array_len_or_zero(p@, key@),
{
    match json_array(p, key) {
        Some(items) => items.len(),
        None => 0,
    }
}

/// The decimal rendering of `i`.
pub fn i64_decimal(i: i64) -> (r: String)
    ensures
        r@ == signed_decimal(i as int),
{
    if i < 0 {
        let m: i128 = 0i128 - (i as i128);
        let mut s = owned("-");
        let d = u64_decimal(m as u64);
        append_str(&mut s, d.as_str());
        s
    } else {
        u64_decimal(i as u64)
    }
}

/// `s` cut to `n` characters.
pub fn take_chars(s: &str, n: usize) -> (r: String)
    ensures
        r@ == at_most(s@, n as nat),
{
    let cs = chars_of(s);
    if cs.len() <= n {
        owned(s)
    } else {
        let v = slice_vec(cs.as_slice(), 0, n);
        assert(v@ =~= s@.take(n as int));
        string_from(v.as_slice())
    }
}

/// `s` cut to `n` characters, with `…` when something was cut.
pub fn ellipsize(s: &str, n: usize) -> (r: String)
    ensures
        r@ == ellipsized(s@, n as nat),
{
    let mut out = take_chars(s, n);
    let count = chars_of(s).len();
    if count > n {
        append_str(&mut out, "…");
    } else {
        assert(out@ + Seq::<char>::empty() =~= out@);
    }
    out
}


/// The first `n` lines of `text` as segments in `tone`.
pub fn first_lines(text: &str, n: usize, tone: Tone) -> (r: Vec<Segment>)
    ensures
        r@.map_values(|x: Segment| x@) == line_rows(text@, n as nat, tone),
{
    let cs = chars_of(text);
    let ls = split_lines(cs.as_slice());
    let ghost lv = ls@.map_values(|x: Vec<char>| x@);
    let mut out: Vec<Segment> = Vec::new();
    let mut i: usize = 0;
    while i < ls.len() && i < n
        invariant
            i <= ls.len(),
            i <= n,
            lv == ls@.map_values(|x: Vec<char>| x@),
            lv == lines_of(text@),
            out@.map_values(|x: Segment| x@) == lv.take(i as int).map_values(|l: Seq<char>| seg(l, tone)),
        decreases ls.len() - i,
    {
        let line = string_from(ls[i].as_slice());
        let ghost before = out@.map_values(|x: Segment| x@);
        push_seg(&mut out, Segment { text: line, tone, bold: false });
        assert(lv.take(i + 1).map_values(|l: Seq<char>| seg(l, tone))
            =~= lv.take(i as int).map_values(|l: Seq<char>| seg(l, tone)).push(seg(lv[i as int], tone)));
        i += 1;
    }
    proof {
        if lv.len() <= n {
            assert(lv.take(i as int) =~= lv);
        }
    }
    out
}

/// The host part of a URL: what follows `://` (or the whole text), up to
/// the first `/`, `?` or `#`.
pub open spec fn url_host(u: Seq<char>) -> Seq<char> {
    let rest = match first_occurrence(u, "://"@) {
        Some(i) => u.skip(i + 3),
        None => u,
    };
    rest.take(host_end(rest) as int)
}

/// Where a host ends: the first `/`, `?` or `#`, or the end.
pub open spec fn host_end(s: Seq<char>) -> nat
    decreases s.len(),
{
    if s.len() == 0 || s[0] == '/' || s[0] == '?' || s[0] == '#' { 0 } else { 1 + host_end(s.drop_first()) }
}

pub proof fn lemma_host_end(s: Seq<char>, k: int)
    requires
        0 <= k <= s.len(),
        forall|j: int| 0 <= j < k ==> s[j] != '/' && s[j] != '?' && s[j] != '#',
        k == s.len() || s[k] == '/' || s[k] == '?' || s[k] == '#',
    ensures
        host_end(s) == k,
    decreases k,
{
    if k > 0 {
        lemma_host_end(s.drop_first(), k - 1);
    }
}

/// The host part of a URL.
pub fn derive_domain(url: &str) -> (r: String)
    ensures
        r@ == url_host(url@),
{
    let cs = chars_of(url);
    let sep = chars_of("://");
    let start: usize = match find_sub(cs.as_slice(), sep.as_slice()) {
        Some(i) => {
            proof { reveal_strlit("://"); }
            assert(sep@.len() == 3);
            assert(crate::text::occurs_at(cs@, sep@, i as int));
            assert(i + 3 <= cs@.len());
            assert(cs@.len() == cs.len());
            i + 3
        },
        None => 0,
    };
    let ghost rest = if start == 0 && first_occurrence(url@, "://"@) is None { url@ } else { url@.skip(start as int) };
    proof {
        assert(url@.skip(0) =~= url@);
    }
    let mut k: usize = start;
    while k < cs.len() && cs[k] != '/' && cs[k] != '?' && cs[k] != '#'
        invariant
            start <= k <= cs.len(),
            cs@ == url@,
            forall|j: int| start <= j < k ==> cs@[j] != '/' && cs@[j] != '?' && cs@[j] != '#',
        decreases cs.len() - k,
    {
        k += 1;
    }
    proof {
        let rs = url@.skip(start as int);
        lemma_host_end(rs, k - start);
        assert(rs.take(k - start) =~= url@.subrange(start as int, k as int));
    }
    string_from(slice_vec(cs.as_slice(), start, k).as_slice())
}

// --- the dispatcher ---------------------------------------------------------

/// Which formatter renders a tool's result.
#[derive(Debug, Clone, Copy, PartialEq, Eq, Structural)]
pub enum FormatterKind {
    Web,
    WebFetch,
    Vision,
    Transcribe,
    ImageGen,
    Tts,
    Bash,
    FileOps,
    Github,
    Discord,
    HomeAssistant,
    Generic,
}

/// The dispatch key of a tool name: trimmed, ASCII-lowercased, with any
/// inner whitespace turned into `_`.
pub open spec fn dispatch_key(name: Seq<char>) -> Seq<char> {
    trim(name).map_values(|c: char| if is_ws(c) { '_' } else { ascii_lower(c) })
}

/// The formatter for a dispatch key; the generic one for an unknown key.
pub open spec fn kind_for_key(k: Seq<char>) -> FormatterKind {
    if k == "web"@ || k == "web_search"@ {
        FormatterKind::Web
    } else if k == "webfetch"@ || k == "web_fetch"@ || k == "fetch"@ {
        FormatterKind::WebFetch
    } else if k == "vision"@ || k == "vision_analyze"@ || k == "analyze_image"@ {
        FormatterKind::Vision
    } else if k == "transcribe"@ || k == "transcribe_audio"@ || k == "stt"@ {
        FormatterKind::Transcribe
    } else if k == "image_gen"@ || k == "image_generate"@ || k == "generate_image"@ {
        FormatterKind::ImageGen
    } else if k == "tts"@ || k == "text_to_speech"@ || k == "speak"@ {
        FormatterKind::Tts
    } else if k == "bash"@ || k == "shell"@ || k == "sh"@ {
        FormatterKind::Bash
    } else if k == "file_ops"@ || k == "read"@ || k == "write"@ || k == "edit"@ {
        FormatterKind::FileOps
    } else if k == "github"@ || k == "github_api"@ {
        FormatterKind::Github
    } else if k == "discord"@ || k == "discord_server"@ {
        FormatterKind::Discord
    } else if k == "homeassistant"@ || k == "home_assistant"@ || k == "ha"@ {
        FormatterKind::HomeAssistant
    } else {
        FormatterKind::Generic
    }
}

fn key_is(k: &[char], w1: &str, w2: &str, w3: &str) -> (r: bool)
    ensures
        r == (k@ == w1@ || k@ == w2@ || k@ == w3@),
{
    let a = crate::text::is_word(k, w1);
    let b = crate::text::is_word(k, w2);
    let c = crate::text::is_word(k, w3);
    a || b || c
}

/// The formatter for `tool_name`. Total: every name gets one, and an
/// unknown name gets the generic formatter.
pub fn formatter_for(tool_name: &str) -> (r: FormatterKind)
    ensures
        r == kind_for_key(dispatch_key(tool_name@)),
{
    let t = trim_chars(chars_of(tool_name).as_slice());
    let mut key: Vec<char> = Vec::new();
    let mut i: usize = 0;
    while i < t.len()
        invariant
            i <= t.len(),
            t@ == trim(tool_name@),
            key@ == t@.take(i as int).map_values(|c: char| if is_ws(c) { '_' } else { ascii_lower(c) }),
        decreases t.len() - i,
    {
        let c = t[i];
        let m = if is_whitespace(c) { '_' } else { to_ascii_lower(c) };
        key.push(m);
        assert(t@.take(i + 1).map_values(|c: char| if is_ws(c) { '_' } else { ascii_lower(c) })
            =~= t@.take(i as int).map_values(|c: char| if is_ws(c) { '_' } else { ascii_lower(c) }).push(m));
        i += 1;
    }
    assert(t@.take(t.len() as int) =~= t@);
    let k = key.as_slice();
    if key_is(k, "web", "web_search", "web_search") {
        FormatterKind::Web
    } else if key_is(k, "webfetch", "web_fetch", "fetch") {
        FormatterKind::WebFetch
    } else if key_is(k, "vision", "vision_analyze", "analyze_image") {
        FormatterKind::Vision
    } else if key_is(k, "transcribe", "transcribe_audio", "stt") {
        FormatterKind::Transcribe
    } else if key_is(k, "image_gen", "image_generate", "generate_image") {
        FormatterKind::ImageGen
    } else if key_is(k, "tts", "text_to_speech", "speak") {
        FormatterKind::Tts
    } else if key_is(k, "bash", "shell", "sh") {
        FormatterKind::Bash
    } else if key_is(k, "file_ops", "read", "write") || key_is(k, "edit", "edit", "edit") {
        FormatterKind::FileOps
    } else if key_is(k, "github", "github_api", "github_api") {
        FormatterKind::Github
    } else if key_is(k, "discord", "discord_server", "discord_server") {
        FormatterKind::Discord
    } else if key_is(k, "homeassistant", "home_assistant", "ha") {
        FormatterKind::HomeAssistant
    } else {
        FormatterKind::Generic
    }
}

// --- generic ----------------------------------------------------------------

/// The first entry of `es` whose value is a string that is not blank: its
/// key and the trimmed string.
pub open spec fn first_text_entry(es: Seq<(Seq<char>, Seq<char>)>) -> Option<(Seq<char>, Seq<char>)>
    decreases es.len(),
{
    if es.len() == 0 {
        None
    } else {
        match json_str_value(es[0].1) {
            Some(v) if trim(v).len() > 0 => Some((es[0].0, trim(v))),
            _ => first_text_entry(es.drop_first()),
        }
    }
}

/// The generic summary: the first non-blank string field as `key: value`
/// (the value cut to 60 characters), else `completed in <elapsed>`.
pub open spec fn generic_summary_of(p: Seq<char>, elapsed: Seq<char>) -> Seq<char> {
    match json_object_entries(p) {
        Some(es) => match first_text_entry(es) {
            Some((k, v)) => k + ": "@ + ellipsized(v, 60),
            None => "completed in "@ + elapsed,
        },
        None => "completed in "@ + elapsed,
    }
}

/// The most lines the generic detail shows.
pub const MAX_DETAIL_LINES: usize = 30;

/// The generic detail: the payload pretty-printed (an empty payload is
/// JSON `null`), at most [`MAX_DETAIL_LINES`] lines, then a warning with
/// the number of lines left out.
pub open spec fn generic_detail_of(p: Seq<char>) -> Seq<(Seq<char>, Tone, bool)> {
    let ls = lines_of(json_pretty_payload(if p.len() == 0 { "null"@ } else { p }));
    if ls.len() <= MAX_DETAIL_LINES {
        ls.map_values(|l: Seq<char>| seg(l, Tone::Dim))
    } else {
        ls.take(MAX_DETAIL_LINES as int).map_values(|l: Seq<char>| seg(l, Tone::Dim))
            .push(seg("... ("@ + decimal((ls.len() - MAX_DETAIL_LINES) as nat) + " more lines)"@, Tone::Warning))
    }
}

fn generic_summary(p: &str, elapsed: &str) -> (r: String)
    ensures
        r@ == generic_summary_of(p@, elapsed@),
{
    match json_entries(p) {
        Some(es) => {
            let ghost ev = es@.map_values(|e: (String, String)| (e.0@, e.1@));
            assert(ev.skip(0) =~= ev);
            let mut i: usize = 0;
            while i < es.len()
                invariant
                    i <= es.len(),
                    json_object_entries(p@) == Some(ev),
                    ev == es@.map_values(|e: (String, String)| (e.0@, e.1@)),
                    first_text_entry(ev) == first_text_entry(ev.skip(i as int)),
                decreases es.len() - i,
            {
                assert(ev.skip(i as int)[0] == ev[i as int]);
                assert(ev.skip(i as int).drop_first() =~= ev.skip(i + 1));
                match json_as_str(es[i].1.as_str()) {
                    Some(v) => {
                        let t = trim_chars(chars_of(v.as_str()).as_slice());
                        if t.len() > 0 {
                            assert(ev[i as int].1 == es@[i as int].1@);
                            assert(first_text_entry(ev.skip(i as int)) == Some((ev[i as int].0, trim(v@))));
                            let tv = string_from(t.as_slice());
                            let mut out = owned(es[i].0.as_str());
                            append_str(&mut out, ": ");
                            let cut = ellipsize(tv.as_str(), 60);
                            append_str(&mut out, cut.as_str());
                            return out;
                        }
                    },
                    None => {},
                }
                i += 1;
            }
            assert(ev.skip(i as int) =~= Seq::<(Seq<char>, Seq<char>)>::empty());
        },
        None => {},
    }
    let mut out = owned("completed in ");
    append_str(&mut out, elapsed);
    out
}

fn generic_detail(p: &str) -> (r: Vec<Segment>)
    ensures
        r@.map_values(|x: Segment| x@) == generic_detail_of(p@),
{
    let pretty = if p.is_empty() {
        proof { reveal_strlit("null"); }
        pretty_payload("null")
    } else {
        pretty_payload(p)
    };
    let ls = split_lines(chars_of(pretty.as_str()).as_slice());
    let total = ls.len();
    let mut out = first_lines(pretty.as_str(), MAX_DETAIL_LINES, Tone::Dim);
    if total > MAX_DETAIL_LINES {
        let mut note = owned("... (");
        let d = u64_decimal((total - MAX_DETAIL_LINES) as u64);
        append_str(&mut note, d.as_str());
        append_str(&mut note, " more lines)");
        push_seg(&mut out, Segment { text: note, tone: Tone::Warning, bold: false });
    }
    out
}

// --- web search -------------------------------------------------------------

/// The most URLs the web formatter hands to the sources block.
pub const MAX_URLS: usize = 10;

/// The domain of a search result: its `domain` field, else the host of
/// its `url`, else `?`.
pub open spec fn result_domain(r: Seq<char>) -> Seq<char> {
    match json_str_field(r, "domain"@) {
        Some(d) => d,
        None => match json_str_field(r, "url"@) {
            Some(u) => url_host(u),
            None => "?"@,
        },
    }
}

/// The two detail rows of a search result: its title in bold, then its
/// domain and the first 80 characters of its snippet.
pub open spec fn result_rows(r: Seq<char>) -> Seq<(Seq<char>, Tone, bool)> {
    seq![
        (str_or(r, "title"@, "(untitled)"@), Tone::Text, true),
        seg("  "@ + result_domain(r) + " · "@ + at_most(str_or(r, "snippet"@, ""@), 80), Tone::Dim),
    ]
}

/// The detail rows of a list of search results.
pub open spec fn results_rows(items: Seq<Seq<char>>) -> Seq<(Seq<char>, Tone, bool)>
    decreases items.len(),
{
    if items.len() == 0 {
        Seq::empty()
    } else {
        results_rows(items.drop_last()) + result_rows(items.last())
    }
}

/// The `url` fields of the items that have one, in order.
pub open spec fn item_urls(items: Seq<Seq<char>>) -> Seq<Seq<char>>
    decreases items.len(),
{
    if items.len() == 0 {
        Seq::empty()
    } else {
        item_urls(items.drop_last()) + match json_str_field(items.last(), "url"@) {
            Some(u) => seq![u],
            None => Seq::empty(),
        }
    }
}

pub open spec fn web_summary_of(p: Seq<char>, elapsed: Seq<char>) -> Seq<char> {
    "Found "@ + decimal(array_len_or_zero(p, "results"@)) + " results in "@ + elapsed
}

pub open spec fn web_detail_of(p: Seq<char>) -> Seq<(Seq<char>, Tone, bool)> {
    match json_array_field(p, "results"@) {
        Some(items) => results_rows(items),
        None => Seq::empty(),
    }
}

pub open spec fn web_urls_of(p: Seq<char>) -> Seq<Seq<char>> {
    match json_array_field(p, "results"@) {
        Some(items) => at_most(item_urls(items), MAX_URLS as nat),
        None => Seq::empty(),
    }
}

fn result_domain_of(r: &str) -> (out: String)
    ensures
        out@ == result_domain(r@),
{
    match json_field(r, "domain") {
        Some(d) => d,
        None => match json_field(r, "url") {
            Some(u) => derive_domain(u.as_str()),
            None => owned("?"),
        },
    }
}

fn web_summary(p: &str, elapsed: &str) -> (r: String)
    ensures
        r@ == web_summary_of(p@, elapsed@),
{
    let mut out = owned("Found ");
    let d = u64_decimal(array_len(p, "results") as u64);
    append_str(&mut out, d.as_str());
    append_str(&mut out, " results in ");
    append_str(&mut out, elapsed);
    out
}

fn web_detail(p: &str) -> (r: Vec<Segment>)
    ensures
        r@.map_values(|x: Segment| x@) == web_detail_of(p@),
{
    let mut out: Vec<Segment> = Vec::new();
    match json_array(p, "results") {
        Some(items) => {
            let ghost iv = items@.map_values(|s: String| s@);
            let mut i: usize = 0;
            while i < items.len()
                invariant
                    i <= items.len(),
                    iv == items@.map_values(|s: String| s@),
                    out@.map_values(|x: Segment| x@) == results_rows(iv.take(i as int)),
                decreases items.len() - i,
            {
                let r = items[i].as_str();
                let title = field_or(r, "title", "(untitled)");
                let mut meta = owned("  ");
                let dom = result_domain_of(r);
                append_str(&mut meta, dom.as_str());
                append_str(&mut meta, " · ");
                let snip = field_or(r, "snippet", "");
                let cut = take_chars(snip.as_str(), 80);
                append_str(&mut meta, cut.as_str());
                push_seg(&mut out, Segment { text: title, tone: Tone::Text, bold: true });
                push_seg(&mut out, Segment { text: meta, tone: Tone::Dim, bold: false });
                proof {
                    reveal_strlit("");
                    assert(iv.take(i + 1).drop_last() =~= iv.take(i as int));
                    assert(iv.take(i + 1).last() == iv[i as int]);
                }
                i += 1;
            }
            assert(iv.take(items.len() as int) =~= iv);
        },
        None => {},
    }
    out
}

fn web_urls(p: &str) -> (r: Vec<String>)
    ensures
        r@.map_values(|s: String| s@) == web_urls_of(p@),
{
    let mut out: Vec<String> = Vec::new();
    match json_array(p, "results") {
        Some(items) => {
            let ghost iv = items@.map_values(|s: String| s@);
            let mut i: usize = 0;
            while i < items.len()
                invariant
                    i <= items.len(),
                    iv == items@.map_values(|s: String| s@),
                    out@.map_values(|s: String| s@) == item_urls(iv.take(i as int)),
                decreases items.len() - i,
            {
                let ghost before = out@.map_values(|s: String| s@);
                match json_field(items[i].as_str(), "url") {
                    Some(u) => {
                        out.push(u);
                    },
                    None => {},
                }
                proof {
                    assert(iv.take(i + 1).drop_last() =~= iv.take(i as int));
                    assert(iv.take(i + 1).last() == iv[i as int]);
                    assert(out@.map_values(|s: String| s@) =~= item_urls(iv.take(i + 1)));
                }
                i += 1;
            }
            assert(iv.take(items.len() as int) =~= iv);
            let ghost all = out@.map_values(|s: String| s@);
            out.truncate(MAX_URLS);
            assert(out@.map_values(|s: String| s@) =~= at_most(all, MAX_URLS as nat));
        },
        None => {},
    }
    out
}

// --- web fetch --------------------------------------------------------------

/// The most content lines the web-fetch detail shows.
pub const MAX_CONTENT_LINES: usize = 25;

/// `Fetched <host> · N bytes`, and the readability score when the page has
/// one.
pub open spec fn web_fetch_summary_of(p: Seq<char>, readability: Option<Seq<char>>) -> Seq<char> {
    "Fetched "@ + url_host(str_or(p, "url"@, "?"@)) + " · "@ + decimal(u64_or(p, "bytes"@, 0) as nat) + " bytes"@
        + match readability {
            Some(r) => " · readability "@ + r,
            None => Seq::empty(),
        }
}

pub open spec fn web_fetch_detail_of(p: Seq<char>) -> Seq<(Seq<char>, Tone, bool)> {
    line_rows(str_or(p, "content"@, ""@), MAX_CONTENT_LINES as nat, Tone::Dim)
}

/// The fetched URL, when it is not empty.
pub open spec fn single_url_of(p: Seq<char>) -> Seq<Seq<char>> {
    match json_str_field(p, "url"@) {
        Some(u) => if u.len() > 0 { seq![u] } else { Seq::empty() },
        None => Seq::empty(),
    }
}

fn web_fetch_summary(p: &str, readability: Option<&str>) -> (r: String)
    ensures
        r@ == web_fetch_summary_of(p@, match readability { Some(x) => Some(x@), None => None }),
{
    let mut out = owned("Fetched ");
    let url = field_or(p, "url", "?");
    let host = derive_domain(url.as_str());
    append_str(&mut out, host.as_str());
    append_str(&mut out, " · ");
    let d = u64_decimal(u64_field_or(p, "bytes", 0));
    append_str(&mut out, d.as_str());
    append_str(&mut out, " bytes");
    match readability {
        Some(x) => {
            append_str(&mut out, " · readability ");
            append_str(&mut out, x);
        },
        None => {
            assert(out@ + Seq::<char>::empty() =~= out@);
        },
    }
    out
}

fn web_fetch_detail(p: &str) -> (r: Vec<Segment>)
    ensures
        r@.map_values(|x: Segment| x@) == web_fetch_detail_of(p@),
{
    proof { reveal_strlit(""); }
    let content = field_or(p, "content", "");
    first_lines(content.as_str(), MAX_CONTENT_LINES, Tone::Dim)
}

fn single_url(p: &str) -> (r: Vec<String>)
    ensures
        r@.map_values(|s: String| s@) == single_url_of(p@),
{
    let mut out: Vec<String> = Vec::new();
    match json_field(p, "url") {
        Some(u) => {
            if !u.as_str().is_empty() {
                out.push(u);
                assert(out@.map_values(|s: String| s@) =~= seq![out@[0]@]);
            }
        },
        None => {},
    }
    assert(out@.len() == 0 ==> out@.map_values(|s: String| s@) =~= Seq::<Seq<char>>::empty());
    out
}

// --- bash -------------------------------------------------------------------

/// How much of the command the bash summary shows.
pub const CMD_PREVIEW: usize = 30;

/// The most stdout lines the bash detail shows.
pub const MAX_STDOUT_LINES: usize = 20;

/// ``Ran `<cmd>` · exit N · M bytes``: the command cut to
/// [`CMD_PREVIEW`] characters, the exit code, and stdout's size in bytes.
pub open spec fn bash_summary_of(p: Seq<char>) -> Seq<char> {
    "Ran `"@ + at_most(str_or(p, "cmd"@, "?"@), CMD_PREVIEW as nat) + "` · exit "@
        + signed_decimal(i64_or(p, "exit_code"@, 0) as int) + " · "@
        + decimal(match json_str_field(p, "stdout"@) { Some(o) => utf8_len(o), None => 0 }) + " bytes"@
}

pub open spec fn bash_detail_of(p: Seq<char>) -> Seq<(Seq<char>, Tone, bool)> {
    line_rows(str_or(p, "stdout"@, ""@), MAX_STDOUT_LINES as nat, Tone::Dim)
}

fn bash_summary(p: &str) -> (r: String)
    ensures
        r@ == bash_summary_of(p@),
{
    let mut out = owned("Ran `");
    let cmd = field_or(p, "cmd", "?");
    let cut = take_chars(cmd.as_str(), CMD_PREVIEW);
    append_str(&mut out, cut.as_str());
    append_str(&mut out, "` · exit ");
    let e = i64_decimal(i64_field_or(p, "exit_code", 0));
    append_str(&mut out, e.as_str());
    append_str(&mut out, " · ");
    let bytes: usize = match json_field(p, "stdout") {
        Some(o) => byte_len(o.as_str()),
        None => 0,
    };
    let b = u64_decimal(bytes as u64);
    append_str(&mut out, b.as_str());
    append_str(&mut out, " bytes");
    out
}

fn bash_detail(p: &str) -> (r: Vec<Segment>)
    ensures
        r@.map_values(|x: Segment| x@) == bash_detail_of(p@),
{
    proof { reveal_strlit(""); }
    let stdout = field_or(p, "stdout", "");
    first_lines(stdout.as_str(), MAX_STDOUT_LINES, Tone::Dim)
}

// --- file operations --------------------------------------------------------

/// What a file operation did.
#[derive(Debug, Clone, Copy, PartialEq, Eq, Structural)]
pub enum FileAction {
    Read,
    Write,
    Edit,
    Unknown,
}

/// The operation: the `action` field when it names one, else inferred
/// from the fields present (`added`/`removed` for an edit, `bytes` for a
/// write, `lines` for a read).
pub open spec fn file_action_of(p: Seq<char>) -> FileAction {
    match json_str_field(p, "action"@) {
        Some(a) if a == "read"@ => FileAction::Read,
        Some(a) if a == "write"@ => FileAction::Write,
        Some(a) if a == "edit"@ => FileAction::Edit,
        _ => if json_has_field(p, "added"@) || json_has_field(p, "removed"@) {
            FileAction::Edit
        } else if json_has_field(p, "bytes"@) {
            FileAction::Write
        } else if json_has_field(p, "lines"@) {
            FileAction::Read
        } else {
            FileAction::Unknown
        },
    }
}

pub open spec fn file_ops_summary_of(p: Seq<char>) -> Seq<char> {
    let path = str_or(p, "path"@, "?"@);
    match file_action_of(p) {
        FileAction::Read => "Read "@ + path + " · "@ + decimal(u64_or(p, "lines"@, 0) as nat) + " lines"@,
        FileAction::Write => "Wrote "@ + path + " · "@ + decimal(u64_or(p, "bytes"@, 0) as nat) + " bytes"@,
        FileAction::Edit => "Edited "@ + path + " · +"@ + signed_decimal(i64_or(p, "added"@, 0) as int)
            + "/-"@ + signed_decimal(i64_or(p, "removed"@, 0) as int),
        FileAction::Unknown => "file_ops "@ + path,
    }
}

/// The file operation a payload describes.
pub fn infer_action(p: &str) -> (r: FileAction)
    ensures
        r == file_action_of(p@),
{
    match json_field(p, "action") {
        Some(a) => {
            let cs = chars_of(a.as_str());
            if crate::text::is_word(cs.as_slice(), "read") {
                return FileAction::Read;
            } else if crate::text::is_word(cs.as_slice(), "write") {
                return FileAction::Write;
            } else if crate::text::is_word(cs.as_slice(), "edit") {
                return FileAction::Edit;
            }
        },
        None => {},
    }
    if json_has(p, "added") || json_has(p, "removed") {
        FileAction::Edit
    } else if json_has(p, "bytes") {
        FileAction::Write
    } else if json_has(p, "lines") {
        FileAction::Read
    } else {
        FileAction::Unknown
    }
}

fn file_ops_summary(p: &str) -> (r: String)
    ensures
        r@ == file_ops_summary_of(p@),
{
    let path = field_or(p, "path", "?");
    match infer_action(p) {
        FileAction::Read => {
            let mut out = owned("Read ");
            append_str(&mut out, path.as_str());
            append_str(&mut out, " · ");
            let d = u64_decimal(u64_field_or(p, "lines", 0));
            append_str(&mut out, d.as_str());
            append_str(&mut out, " lines");
            out
        },
        FileAction::Write => {
            let mut out = owned("Wrote ");
            append_str(&mut out, path.as_str());
            append_str(&mut out, " · ");
            let d = u64_decimal(u64_field_or(p, "bytes", 0));
            append_str(&mut out, d.as_str());
            append_str(&mut out, " bytes");
            out
        },
        FileAction::Edit => {
            let mut out = owned("Edited ");
            append_str(&mut out, path.as_str());
            append_str(&mut out, " · +");
            let a = i64_decimal(i64_field_or(p, "added", 0));
            append_str(&mut out, a.as_str());
            append_str(&mut out, "/-");
            let r = i64_decimal(i64_field_or(p, "removed", 0));
            append_str(&mut out, r.as_str());
            out
        },
        FileAction::Unknown => {
            let mut out = owned("file_ops ");
            append_str(&mut out, path.as_str());
            out
        },
    }
}

// --- discord ----------------------------------------------------------------

/// The most message lines the discord detail shows.
pub const MAX_MESSAGE_LINES: usize = 10;

pub open spec fn discord_summary_of(p: Seq<char>) -> Seq<char> {
    "Posted to #"@ + str_or(p, "channel_name"@, "?"@) + " · "@ + decimal(u64_or(p, "chars"@, 0) as nat) + " chars"@
}

pub open spec fn discord_detail_of(p: Seq<char>) -> Seq<(Seq<char>, Tone, bool)> {
    line_rows(str_or(p, "message"@, ""@), MAX_MESSAGE_LINES as nat, Tone::Text)
}

/// The string under the first of `keys` that `a` has at all: a present
/// key that holds a non-string ends the search with nothing.
pub open spec fn first_present_str(a: Seq<char>, keys: Seq<Seq<char>>) -> Option<Seq<char>>
    decreases keys.len(),
{
    if keys.len() == 0 {
        None
    } else if json_has_field(a, keys[0]) {
        json_str_field(a, keys[0])
    } else {
        first_present_str(a, keys.drop_first())
    }
}

/// A post's arguments: `#channel`, and the message's first 40 characters
/// in quotes when it is not blank; nothing without a channel.
pub open spec fn discord_args_of(a: Seq<char>) -> Option<Seq<char>> {
    match first_present_str(a, seq!["channel_name"@, "channel"@]) {
        None => None,
        Some(ch) => {
            let m = trim(match first_present_str(a, seq!["message"@, "text"@, "content"@]) {
                Some(m) => m,
                None => ""@,
            });
            if m.len() == 0 {
                Some("#"@ + ch)
            } else {
                Some("#"@ + ch + " · \""@ + ellipsized(m, 40) + "\""@)
            }
        },
    }
}

fn discord_summary(p: &str) -> (r: String)
    ensures
        r@ == discord_summary_of(p@),
{
    let mut out = owned("Posted to #");
    let ch = field_or(p, "channel_name", "?");
    append_str(&mut out, ch.as_str());
    append_str(&mut out, " · ");
    let d = u64_decimal(u64_field_or(p, "chars", 0));
    append_str(&mut out, d.as_str());
    append_str(&mut out, " chars");
    out
}

fn discord_detail(p: &str) -> (r: Vec<Segment>)
    ensures
        r@.map_values(|x: Segment| x@) == discord_detail_of(p@),
{
    proof { reveal_strlit(""); }
    let msg = field_or(p, "message", "");
    first_lines(msg.as_str(), MAX_MESSAGE_LINES, Tone::Text)
}

fn present_str2(a: &str, k1: &str, k2: &str) -> (r: Option<String>)
    ensures
        match r {
            Some(v) => first_present_str(a@, seq![k1@, k2@]) == Some(v@),
            None => first_present_str(a@, seq![k1@, k2@]) is None,
        },
{
    proof {
        reveal_with_fuel(first_present_str, 3);
        assert(seq![k1@, k2@].drop_first() =~= seq![k2@]);
        assert(seq![k2@].drop_first() =~= Seq::<Seq<char>>::empty());
    }
    if json_has(a, k1) {
        json_field(a, k1)
    } else if json_has(a, k2) {
        json_field(a, k2)
    } else {
        None
    }
}

fn present_str3(a: &str, k1: &str, k2: &str, k3: &str) -> (r: Option<String>)
    ensures
        match r {
            Some(v) => first_present_str(a@, seq![k1@, k2@, k3@]) == Some(v@),
            None => first_present_str(a@, seq![k1@, k2@, k3@]) is None,
        },
{
    assert(seq![k1@, k2@, k3@].drop_first() =~= seq![k2@, k3@]);
    if json_has(a, k1) {
        json_field(a, k1)
    } else {
        present_str2(a, k2, k3)
    }
}

fn discord_args(a: &str) -> (r: Option<String>)
    ensures
        match r {
            Some(v) => discord_args_of(a@) == Some(v@),
            None => discord_args_of(a@) is None,
        },
{
    let ch = match present_str2(a, "channel_name", "channel") {
        Some(c) => c,
        None => return None,
    };
    let msg = match present_str3(a, "message", "text", "content") {
        Some(m) => m,
        None => {
            proof { reveal_strlit(""); }
            owned("")
        },
    };
    let t = string_from(trim_chars(chars_of(msg.as_str()).as_slice()).as_slice());
    let mut out = owned("#");
    append_str(&mut out, ch.as_str());
    if t.as_str().is_empty() {
        return Some(out);
    }
    append_str(&mut out, " · \"");
    let cut = ellipsize(t.as_str(), 40);
    append_str(&mut out, cut.as_str());
    append_str(&mut out, "\"");
    Some(out)
}

// --- home assistant ---------------------------------------------------------

pub open spec fn ha_summary_of(p: Seq<char>) -> Seq<char> {
    "Called "@ + str_or(p, "domain"@, "?"@) + "."@ + str_or(p, "service"@, "?"@) + " on "@
        + decimal(array_len_or_zero(p, "entities"@)) + " entities"@
}

/// The items that are strings, as dim rows.
pub open spec fn string_item_rows(items: Seq<Seq<char>>) -> Seq<(Seq<char>, Tone, bool)>
    decreases items.len(),
{
    if items.len() == 0 {
        Seq::empty()
    } else {
        string_item_rows(items.drop_last()) + match json_str_value(items.last()) {
            Some(s) => seq![seg(s, Tone::Dim)],
            None => Seq::empty(),
        }
    }
}

pub open spec fn ha_detail_of(p: Seq<char>) -> Seq<(Seq<char>, Tone, bool)> {
    match json_array_field(p, "entities"@) {
        Some(items) => string_item_rows(items),
        None => Seq::empty(),
    }
}

fn ha_summary(p: &str) -> (r: String)
    ensures
        r@ == ha_summary_of(p@),
{
    let mut out = owned("Called ");
    let d = field_or(p, "domain", "?");
    append_str(&mut out, d.as_str());
    append_str(&mut out, ".");
    let s = field_or(p, "service", "?");
    append_str(&mut out, s.as_str());
    append_str(&mut out, " on ");
    let n = u64_decimal(array_len(p, "entities") as u64);
    append_str(&mut out, n.as_str());
    append_str(&mut out, " entities");
    out
}

fn ha_detail(p: &str) -> (r: Vec<Segment>)
    ensures
        r@.map_values(|x: Segment| x@) == ha_detail_of(p@),
{
    let mut out: Vec<Segment> = Vec::new();
    match json_array(p, "entities") {
        Some(items) => {
            let ghost iv = items@.map_values(|s: String| s@);
            let mut i: usize = 0;
            while i < items.len()
                invariant
                    i <= items.len(),
                    iv == items@.map_values(|s: String| s@),
                    out@.map_values(|x: Segment| x@) == string_item_rows(iv.take(i as int)),
                decreases items.len() - i,
            {
                let ghost before = out@.map_values(|x: Segment| x@);
                match json_as_str(items[i].as_str()) {
                    Some(e) => {
                        push_seg(&mut out, Segment { text: e, tone: Tone::Dim, bold: false });
                    },
                    None => {},
                }
                proof {
                    assert(iv.take(i + 1).drop_last() =~= iv.take(i as int));
                    assert(iv.take(i + 1).last() == iv[i as int]);
                    assert(out@.map_values(|x: Segment| x@) =~= string_item_rows(iv.take(i + 1)));
                }
                i += 1;
            }
            assert(iv.take(items.len() as int) =~= iv);
        },
        None => {},
    }
    out
}

// --- image generation -------------------------------------------------------

/// How much of a data URI the image detail shows.
pub const DATA_URI_PREVIEW: usize = 80;

pub open spec fn image_summary_of(p: Seq<char>, elapsed: Seq<char>) -> Seq<char> {
    "Generated image · "@ + str_or(p, "provider"@, "?"@) + " · "@ + decimal(u64_or(p, "width"@, 0) as nat)
        + "x"@ + decimal(u64_or(p, "height"@, 0) as nat) + " · "@ + elapsed
}

/// The image's URL as a dim row; a long data URI is cut to its first
/// [`DATA_URI_PREVIEW`] characters and `...`.
pub open spec fn image_detail_of(p: Seq<char>) -> Seq<(Seq<char>, Tone, bool)> {
    let u = str_or(p, "url"@, ""@);
    if u.len() == 0 {
        Seq::empty()
    } else if has_prefix(u, "data:"@) && u.len() > DATA_URI_PREVIEW {
        seq![seg(u.take(DATA_URI_PREVIEW as int) + "..."@, Tone::Dim)]
    } else {
        seq![seg(u, Tone::Dim)]
    }
}

/// The image's URL for the sources block, unless empty or a data URI.
pub open spec fn image_urls_of(p: Seq<char>) -> Seq<Seq<char>> {
    match json_str_field(p, "url"@) {
        Some(u) => if u.len() > 0 && !has_prefix(u, "data:"@) { seq![u] } else { Seq::empty() },
        None => Seq::empty(),
    }
}

fn image_summary(p: &str, elapsed: &str) -> (r: String)
    ensures
        r@ == image_summary_of(p@, elapsed@),
{
    let mut out = owned("Generated image · ");
    let pr = field_or(p, "provider", "?");
    append_str(&mut out, pr.as_str());
    append_str(&mut out, " · ");
    let w = u64_decimal(u64_field_or(p, "width", 0));
    append_str(&mut out, w.as_str());
    append_str(&mut out, "x");
    let h = u64_decimal(u64_field_or(p, "height", 0));
    append_str(&mut out, h.as_str());
    append_str(&mut out, " · ");
    append_str(&mut out, elapsed);
    out
}

fn image_detail(p: &str) -> (r: Vec<Segment>)
    ensures
        r@.map_values(|x: Segment| x@) == image_detail_of(p@),
{
    proof { reveal_strlit(""); }
    let url = field_or(p, "url", "");
    let mut out: Vec<Segment> = Vec::new();
    let cs = chars_of(url.as_str());
    if cs.len() == 0 {
        assert(out@.map_values(|x: Segment| x@) =~= Seq::<(Seq<char>, Tone, bool)>::empty());
        return out;
    }
    let data = chars_of("data:");
    if starts_with(cs.as_slice(), data.as_slice()) && cs.len() > DATA_URI_PREVIEW {
        let mut shown = take_chars(url.as_str(), DATA_URI_PREVIEW);
        append_str(&mut shown, "...");
        push_seg(&mut out, Segment { text: shown, tone: Tone::Dim, bold: false });
    } else {
        push_seg(&mut out, Segment { text: url, tone: Tone::Dim, bold: false });
    }
    assert(out@.map_values(|x: Segment| x@) =~= seq![out@[0]@]);
    out
}

fn image_urls(p: &str) -> (r: Vec<String>)
    ensures
        r@.map_values(|s: String| s@) == image_urls_of(p@),
{
    let mut out: Vec<String> = Vec::new();
    match json_field(p, "url") {
        Some(u) => {
            let cs = chars_of(u.as_str());
            let data = chars_of("data:");
            if cs.len() > 0 && !starts_with(cs.as_slice(), data.as_slice()) {
                out.push(u);
                assert(out@.map_values(|s: String| s@) =~= seq![out@[0]@]);
            }
        },
        None => {},
    }
    assert(out@.len() == 0 ==> out@.map_values(|s: String| s@) =~= Seq::<Seq<char>>::empty());
    out
}

// --- transcription ----------------------------------------------------------

/// The most transcript lines the transcription detail shows.
pub const MAX_TEXT_LINES: usize = 25;

pub open spec fn transcribe_summary_of(p: Seq<char>, seconds: Seq<char>) -> Seq<char> {
    "Transcribed "@ + seconds + "s · "@ + decimal(u64_or(p, "segments"@, 0) as nat) + " segments · "@
        + str_or(p, "language"@, "?"@)
}

pub open spec fn transcribe_detail_of(p: Seq<char>) -> Seq<(Seq<char>, Tone, bool)> {
    line_rows(str_or(p, "text"@, ""@), MAX_TEXT_LINES as nat, Tone::Text)
}

fn transcribe_summary(p: &str, seconds: &str) -> (r: String)
    ensures
        r@ == transcribe_summary_of(p@, seconds@),
{
    let mut out = owned("Transcribed ");
    append_str(&mut out, seconds);
    append_str(&mut out, "s · ");
    let n = u64_decimal(u64_field_or(p, "segments", 0));
    append_str(&mut out, n.as_str());
    append_str(&mut out, " segments · ");
    let l = field_or(p, "language", "?");
    append_str(&mut out, l.as_str());
    out
}

fn transcribe_detail(p: &str) -> (r: Vec<Segment>)
    ensures
        r@.map_values(|x: Segment| x@) == transcribe_detail_of(p@),
{
    proof { reveal_strlit(""); }
    let text = field_or(p, "text", "");
    first_lines(text.as_str(), MAX_TEXT_LINES, Tone::Text)
}

// --- speech synthesis -------------------------------------------------------

/// What follows the last `/` or `\` of a path (all of it without one).
pub open spec fn after_last_sep(p: Seq<char>) -> Seq<char>
    decreases p.len(),
{
    if p.len() == 0 {
        p
    } else if p.last() == '/' || p.last() == '\\' {
        Seq::empty()
    } else {
        after_last_sep(p.drop_last()).push(p.last())
    }
}

/// The audio file's name, `?` without a path.
pub open spec fn audio_name(p: Seq<char>) -> Seq<char> {
    if p.len() == 0 { "?"@ } else { after_last_sep(p) }
}

pub open spec fn tts_summary_of(p: Seq<char>) -> Seq<char> {
    "Synthesized "@ + decimal(u64_or(p, "chars"@, 0) as nat) + " chars · "@ + str_or(p, "provider"@, "?"@)
        + " · → "@ + audio_name(str_or(p, "path"@, ""@))
}

pub open spec fn tts_detail_of(p: Seq<char>) -> Seq<(Seq<char>, Tone, bool)> {
    let path = str_or(p, "path"@, ""@);
    if path.len() == 0 { Seq::empty() } else { seq![seg(path, Tone::Dim)] }
}

/// The text to speak, quoted and cut to 50 characters; nothing when it is
/// missing or blank.
pub open spec fn tts_args_of(a: Seq<char>) -> Option<Seq<char>> {
    match json_str_field(a, "text"@) {
        Some(t) => if trim(t).len() == 0 { None } else { Some("\""@ + ellipsized(trim(t), 50) + "\""@) },
        None => None,
    }
}

proof fn lemma_after_last_sep(p: Seq<char>, k: int)
    requires
        0 <= k <= p.len(),
        forall|j: int| k <= j < p.len() ==> p[j] != '/' && p[j] != '\\',
        k == 0 || p[k - 1] == '/' || p[k - 1] == '\\',
    ensures
        after_last_sep(p) == p.skip(k),
    decreases p.len(),
{
    if p.len() > k {
        lemma_after_last_sep(p.drop_last(), k);
        assert(p.drop_last().skip(k).push(p.last()) =~= p.skip(k));
    } else if p.len() > 0 {
        assert(p.skip(k) =~= Seq::<char>::empty());
    }
}

fn file_name_part(path: &str) -> (r: String)
    ensures
        r@ == audio_name(path@),
{
    let cs = chars_of(path);
    if cs.len() == 0 {
        return owned("?");
    }
    let mut k: usize = cs.len();
    while k > 0 && cs[k - 1] != '/' && cs[k - 1] != '\\'
        invariant
            k <= cs.len(),
            cs@ == path@,
            forall|j: int| k <= j < cs.len() ==> cs@[j] != '/' && cs@[j] != '\\',
        decreases k,
    {
        k -= 1;
    }
    proof {
        lemma_after_last_sep(path@, k as int);
        assert(cs@.subrange(k as int, cs.len() as int) =~= path@.skip(k as int));
    }
    string_from(slice_vec(cs.as_slice(), k, cs.len()).as_slice())
}

fn tts_summary(p: &str) -> (r: String)
    ensures
        r@ == tts_summary_of(p@),
{
    let mut out = owned("Synthesized ");
    let n = u64_decimal(u64_field_or(p, "chars", 0));
    append_str(&mut out, n.as_str());
    append_str(&mut out, " chars · ");
    let pr = field_or(p, "provider", "?");
    append_str(&mut out, pr.as_str());
    append_str(&mut out, " · → ");
    proof { reveal_strlit(""); }
    let path = field_or(p, "path", "");
    let name = file_name_part(path.as_str());
    append_str(&mut out, name.as_str());
    out
}

fn tts_detail(p: &str) -> (r: Vec<Segment>)
    ensures
        r@.map_values(|x: Segment| x@) == tts_detail_of(p@),
{
    proof { reveal_strlit(""); }
    let path = field_or(p, "path", "");
    let mut out: Vec<Segment> = Vec::new();
    if !path.as_str().is_empty() {
        push_seg(&mut out, Segment { text: path, tone: Tone::Dim, bold: false });
        assert(out@.map_values(|x: Segment| x@) =~= seq![out@[0]@]);
    } else {
        assert(out@.map_values(|x: Segment| x@) =~= Seq::<(Seq<char>, Tone, bool)>::empty());
    }
    out
}

fn tts_args(a: &str) -> (r: Option<String>)
    ensures
        match r {
            Some(v) => tts_args_of(a@) == Some(v@),
            None => tts_args_of(a@) is None,
        },
{
    let text = match json_field(a, "text") {
        Some(t) => t,
        None => return None,
    };
    let t = string_from(trim_chars(chars_of(text.as_str()).as_slice()).as_slice());
    if t.as_str().is_empty() {
        return None;
    }
    let mut out = owned("\"");
    let cut = ellipsize(t.as_str(), 50);
    append_str(&mut out, cut.as_str());
    append_str(&mut out, "\"");
    Some(out)
}

// --- dispatch ---------------------------------------------------------------

/// The figures of a summary that the caller formats from floating-point
/// values: the elapsed time (`N.Ns`), a transcript's length in whole
/// seconds, and a fetched page's readability score to two places.
#[derive(Debug, Clone)]
pub struct Figures {
    pub elapsed: String,
    pub seconds: String,
    pub readability: Option<String>,
}

impl View for Figures {
    type V = (Seq<char>, Seq<char>, Option<Seq<char>>);

    open spec fn view(&self) -> (Seq<char>, Seq<char>, Option<Seq<char>>) {
        (self.elapsed@, self.seconds@, match self.readability { Some(r) => Some(r@), None => None })
    }
}

/// The one-line summary of payload `p` under formatter `k`. The vision and
/// GitHub results have no formatter of their own here and read as generic
/// ones.
pub open spec fn summary_of(k: FormatterKind, p: Seq<char>, f: (Seq<char>, Seq<char>, Option<Seq<char>>)) -> Seq<char> {
    match k {
        FormatterKind::Web => web_summary_of(p, f.0),
        FormatterKind::WebFetch => web_fetch_summary_of(p, f.2),
        FormatterKind::Transcribe => transcribe_summary_of(p, f.1),
        FormatterKind::ImageGen => image_summary_of(p, f.0),
        FormatterKind::Tts => tts_summary_of(p),
        FormatterKind::Bash => bash_summary_of(p),
        FormatterKind::FileOps => file_ops_summary_of(p),
        FormatterKind::Discord => discord_summary_of(p),
        FormatterKind::HomeAssistant => ha_summary_of(p),
        _ => generic_summary_of(p, f.0),
    }
}

/// The detail rows of payload `p` under formatter `k`.
pub open spec fn detail_of(k: FormatterKind, p: Seq<char>) -> Seq<(Seq<char>, Tone, bool)> {
    match k {
        FormatterKind::Web => web_detail_of(p),
        FormatterKind::WebFetch => web_fetch_detail_of(p),
        FormatterKind::Transcribe => transcribe_detail_of(p),
        FormatterKind::ImageGen => image_detail_of(p),
        FormatterKind::Tts => tts_detail_of(p),
        FormatterKind::Bash => bash_detail_of(p),
        FormatterKind::FileOps => seq![seg(file_ops_summary_of(p), Tone::Dim)],
        FormatterKind::Discord => discord_detail_of(p),
        FormatterKind::HomeAssistant => ha_detail_of(p),
        _ => generic_detail_of(p),
    }
}

/// The URLs of payload `p` for the sources block.
pub open spec fn urls_of(k: FormatterKind, p: Seq<char>) -> Seq<Seq<char>> {
    match k {
        FormatterKind::Web => web_urls_of(p),
        FormatterKind::WebFetch => single_url_of(p),
        FormatterKind::ImageGen => image_urls_of(p),
        _ => Seq::empty(),
    }
}

/// A friendly one-line preview of request arguments `a`, for the tools
/// that have one.
pub open spec fn args_of(k: FormatterKind, a: Seq<char>) -> Option<Seq<char>> {
    match k {
        FormatterKind::Discord => discord_args_of(a),
        FormatterKind::Tts => tts_args_of(a),
        _ => None,
    }
}

impl FormatterKind {
    /// The single-line summary shown on the compact tool card.
    pub fn summary_line(&self, payload: &str, figures: &Figures) -> (r: String)
        ensures
            r@ == summary_of(*self, payload@, figures@),
    {
        match self {
            FormatterKind::Web => web_summary(payload, figures.elapsed.as_str()),
            FormatterKind::WebFetch => {
                let rd: Option<&str> = match &figures.readability {
                    Some(x) => Some(x.as_str()),
                    None => None,
                };
                web_fetch_summary(payload, rd)
            },
            FormatterKind::Transcribe => transcribe_summary(payload, figures.seconds.as_str()),
            FormatterKind::ImageGen => image_summary(payload, figures.elapsed.as_str()),
            FormatterKind::Tts => tts_summary(payload),
            FormatterKind::Bash => bash_summary(payload),
            FormatterKind::FileOps => file_ops_summary(payload),
            FormatterKind::Discord => discord_summary(payload),
            FormatterKind::HomeAssistant => ha_summary(payload),
            _ => generic_summary(payload, figures.elapsed.as_str()),
        }
    }

    /// The rows shown when the card is expanded.
    pub fn detail_lines(&self, payload: &str) -> (r: Vec<Segment>)
        ensures
            r@.map_values(|x: Segment| x@) == detail_of(*self, payload@),
    {
        match self {
            FormatterKind::Web => web_detail(payload),
            FormatterKind::WebFetch => web_fetch_detail(payload),
            FormatterKind::Transcribe => transcribe_detail(payload),
            FormatterKind::ImageGen => image_detail(payload),
            FormatterKind::Tts => tts_detail(payload),
            FormatterKind::Bash => bash_detail(payload),
            FormatterKind::FileOps => {
                let mut v: Vec<Segment> = Vec::new();
                push_seg(&mut v, Segment { text: file_ops_summary(payload), tone: Tone::Dim, bold: false });
                assert(v@.map_values(|x: Segment| x@) =~= seq![v@[0]@]);
                v
            },
            FormatterKind::Discord => discord_detail(payload),
            FormatterKind::HomeAssistant => ha_detail(payload),
            _ => generic_detail(payload),
        }
    }

    /// The URLs for the sources block.
    pub fn extract_urls(&self, payload: &str) -> (r: Vec<String>)
        ensures
            r@.map_values(|s: String| s@) == urls_of(*self, payload@),
    {
        match self {
            FormatterKind::Web => web_urls(payload),
            FormatterKind::WebFetch => single_url(payload),
            FormatterKind::ImageGen => image_urls(payload),
            _ => {
                let v: Vec<String> = Vec::new();
                assert(v@.map_values(|s: String| s@) =~= Seq::<Seq<char>>::empty());
                v
            },
        }
    }

    /// A friendly preview of the request arguments, or `None` to fall back
    /// to the generic rendering.
    pub fn format_args(&self, args: &str) -> (r: Option<String>)
        ensures
            match r {
                Some(v) => args_of(*self, args@) == Some(v@),
                None => args_of(*self, args@) is None,
            },
    {
        match self {
            FormatterKind::Discord => discord_args(args),
            FormatterKind::Tts => tts_args(args),
            _ => None,
        }
    }
}

// --- the formatters by name --------------------------------------------------

/// The formatter of `Generic` results; [`FormatterKind::Generic`] dispatches here.
#[derive(Debug, Clone, Copy)]
pub struct GenericFormatter;

impl GenericFormatter {
    /// The one-line summary.
    pub fn summary_line(&self, payload: &str, figures: &Figures) -> (r: String)
        ensures
            r@ == generic_summary_of(payload@, figures.elapsed@),
    {
        generic_summary(payload, figures.elapsed.as_str())
    }

    /// The detail rows.
    pub fn detail_lines(&self, payload: &str) -> (r: Vec<Segment>)
        ensures
            r@.map_values(|x: Segment| x@) == generic_detail_of(payload@),
    {
        generic_detail(payload)
    }
}

/// The formatter of `Web` results; [`FormatterKind::Web`] dispatches here.
#[derive(Debug, Clone, Copy)]
pub struct WebFormatter;

impl WebFormatter {
    /// The one-line summary.
    pub fn summary_line(&self, payload: &str, figures: &Figures) -> (r: String)
        ensures
            r@ == web_summary_of(payload@, figures.elapsed@),
    {
        web_summary(payload, figures.elapsed.as_str())
    }

    /// The detail rows.
    pub fn detail_lines(&self, payload: &str) -> (r: Vec<Segment>)
        ensures
            r@.map_values(|x: Segment| x@) == web_detail_of(payload@),
    {
        web_detail(payload)
    }

    /// The URLs for the sources block.
    pub fn extract_urls(&self, payload: &str) -> (r: Vec<String>)
        ensures
            r@.map_values(|s: String| s@) == web_urls_of(payload@),
    {
        web_urls(payload)
    }
}

/// The formatter of `WebFetch` results; [`FormatterKind::WebFetch`] dispatches here.
#[derive(Debug, Clone, Copy)]
pub struct WebFetchFormatter;

impl WebFetchFormatter {
    /// The one-line summary.
    pub fn summary_line(&self, payload: &str, figures: &Figures) -> (r: String)
        ensures
            r@ == web_fetch_summary_of(payload@, figures@.2),
    {
        FormatterKind::WebFetch.summary_line(payload, figures)
    }

    /// The detail rows.
    pub fn detail_lines(&self, payload: &str) -> (r: Vec<Segment>)
        ensures
            r@.map_values(|x: Segment| x@) == web_fetch_detail_of(payload@),
    {
        web_fetch_detail(payload)
    }

    /// The URLs for the sources block.
    pub fn extract_urls(&self, payload: &str) -> (r: Vec<String>)
        ensures
            r@.map_values(|s: String| s@) == single_url_of(payload@),
    {
        single_url(payload)
    }
}

/// The formatter of `Bash` results; [`FormatterKind::Bash`] dispatches here.
#[derive(Debug, Clone, Copy)]
pub struct BashFormatter;

impl BashFormatter {
    /// The one-line summary.
    pub fn summary_line(&self, payload: &str, figures: &Figures) -> (r: String)
        ensures
            r@ == bash_summary_of(payload@),
    {
        bash_summary(payload)
    }

    /// The detail rows.
    pub fn detail_lines(&self, payload: &str) -> (r: Vec<Segment>)
        ensures
            r@.map_values(|x: Segment| x@) == bash_detail_of(payload@),
    {
        bash_detail(payload)
    }
}

/// The formatter of `FileOps` results; [`FormatterKind::FileOps`] dispatches here.
#[derive(Debug, Clone, Copy)]
pub struct FileOpsFormatter;

impl FileOpsFormatter {
    /// The one-line summary.
    pub fn summary_line(&self, payload: &str, figures: &Figures) -> (r: String)
        ensures
            r@ == file_ops_summary_of(payload@),
    {
        file_ops_summary(payload)
    }

    /// The detail rows: the summary, dimmed.
    pub fn detail_lines(&self, payload: &str) -> (r: Vec<Segment>)
        ensures
            r@.map_values(|x: Segment| x@) == seq![seg(file_ops_summary_of(payload@), Tone::Dim)],
    {
        FormatterKind::FileOps.detail_lines(payload)
    }
}

/// The formatter of `Discord` results; [`FormatterKind::Discord`] dispatches here.
#[derive(Debug, Clone, Copy)]
pub struct DiscordFormatter;

impl DiscordFormatter {
    /// The one-line summary.
    pub fn summary_line(&self, payload: &str, figures: &Figures) -> (r: String)
        ensures
            r@ == discord_summary_of(payload@),
    {
        discord_summary(payload)
    }

    /// The detail rows.
    pub fn detail_lines(&self, payload: &str) -> (r: Vec<Segment>)
        ensures
            r@.map_values(|x: Segment| x@) == discord_detail_of(payload@),
    {
        discord_detail(payload)
    }

    /// A preview of the request arguments.
    pub fn format_args(&self, args: &str) -> (r: Option<String>)
        ensures
            match r {
                Some(v) => discord_args_of(args@) == Some(v@),
                None => discord_args_of(args@) is None,
            },
    {
        discord_args(args)
    }
}

/// The formatter of `HomeAssistant` results; [`FormatterKind::HomeAssistant`] dispatches here.
#[derive(Debug, Clone, Copy)]
pub struct HomeAssistantFormatter;

impl HomeAssistantFormatter {
    /// The one-line summary.
    pub fn summary_line(&self, payload: &str, figures: &Figures) -> (r: String)
        ensures
            r@ == ha_summary_of(payload@),
    {
        ha_summary(payload)
    }

    /// The detail rows.
    pub fn detail_lines(&self, payload: &str) -> (r: Vec<Segment>)
        ensures
            r@.map_values(|x: Segment| x@) == ha_detail_of(payload@),
    {
        ha_detail(payload)
    }
}

/// The formatter of `ImageGen` results; [`FormatterKind::ImageGen`] dispatches here.
#[derive(Debug, Clone, Copy)]
pub struct ImageGenFormatter;

impl ImageGenFormatter {
    /// The one-line summary.
    pub fn summary_line(&self, payload: &str, figures: &Figures) -> (r: String)
        ensures
            r@ == image_summary_of(payload@, figures.elapsed@),
    {
        image_summary(payload, figures.elapsed.as_str())
    }

    /// The detail rows.
    pub fn detail_lines(&self, payload: &str) -> (r: Vec<Segment>)
        ensures
            r@.map_values(|x: Segment| x@) == image_detail_of(payload@),
    {
        image_detail(payload)
    }

    /// The URLs for the sources block.
    pub fn extract_urls(&self, payload: &str) -> (r: Vec<String>)
        ensures
            r@.map_values(|s: String| s@) == image_urls_of(payload@),
    {
        image_urls(payload)
    }
}

/// The formatter of `Transcribe` results; [`FormatterKind::Transcribe`] dispatches here.
#[derive(Debug, Clone, Copy)]
pub struct TranscribeFormatter;

impl TranscribeFormatter {
    /// The one-line summary.
    pub fn summary_line(&self, payload: &str, figures: &Figures) -> (r: String)
        ensures
            r@ == transcribe_summary_of(payload@, figures.seconds@),
    {
        transcribe_summary(payload, figures.seconds.as_str())
    }

    /// The detail rows.
    pub fn detail_lines(&self, payload: &str) -> (r: Vec<Segment>)
        ensures
            r@.map_values(|x: Segment| x@) == transcribe_detail_of(payload@),
    {
        transcribe_detail(payload)
    }
}

/// The formatter of `Tts` results; [`FormatterKind::Tts`] dispatches here.
#[derive(Debug, Clone, Copy)]
pub struct TtsFormatter;

impl TtsFormatter {
    /// The one-line summary.
    pub fn summary_line(&self, payload: &str, figures: &Figures) -> (r: String)
        ensures
            r@ == tts_summary_of(payload@),
    {
        tts_summary(payload)
    }

    /// The detail rows.
    pub fn detail_lines(&self, payload: &str) -> (r: Vec<Segment>)
        ensures
            r@.map_values(|x: Segment| x@) == tts_detail_of(payload@),
    {
        tts_detail(payload)
    }

    /// A preview of the request arguments.
    pub fn format_args(&self, args: &str) -> (r: Option<String>)
        ensures
            match r {
                Some(v) => tts_args_of(args@) == Some(v@),
                None => tts_args_of(args@) is None,
            },
    {
        tts_args(args)
    }
}

// --- dispatch laws ----------------------------------------------------------

proof fn lemma_ws_unaffected_by_lowering(c: char)
    ensures
        is_ws(ascii_lower(c)) == is_ws(c),
        ascii_lower(ascii_lower(c)) == ascii_lower(c),
{
}

proof fn lemma_trim_start_lowered(s: Seq<char>)
    ensures
        trim_start(lower_ascii_seq(s)) == lower_ascii_seq(trim_start(s)),
    decreases s.len(),
{
    if s.len() > 0 {
        lemma_ws_unaffected_by_lowering(s[0]);
        assert(lower_ascii_seq(s).drop_first() =~= lower_ascii_seq(s.drop_first()));
        lemma_trim_start_lowered(s.drop_first());
    }
}

proof fn lemma_trim_end_lowered(s: Seq<char>)
    ensures
        trim_end(lower_ascii_seq(s)) == lower_ascii_seq(trim_end(s)),
    decreases s.len(),
{
    if s.len() > 0 {
        lemma_ws_unaffected_by_lowering(s.last());
        assert(lower_ascii_seq(s).drop_last() =~= lower_ascii_seq(s.drop_last()));
        lemma_trim_end_lowered(s.drop_last());
    }
}

proof fn lemma_dispatch_key_lowered(s: Seq<char>)
    ensures
        dispatch_key(s) == dispatch_key(lower_ascii_seq(s)),
{
    lemma_trim_start_lowered(s);
    lemma_trim_end_lowered(trim_start(s));
    let t = trim(s);
    assert forall|i: int| 0 <= i < t.len() implies
        #[trigger] dispatch_key(s)[i] == dispatch_key(lower_ascii_seq(s))[i] by {
        lemma_ws_unaffected_by_lowering(t[i]);
    }
    assert(dispatch_key(s) =~= dispatch_key(lower_ascii_seq(s)));
}

/// Dispatch ignores ASCII case: two tool names that differ only in the
/// case of their letters (`Bash`, `bash`, `BASH`) get the same formatter.
pub proof fn law_dispatch_ignores_ascii_case(a: Seq<char>, b: Seq<char>)
    requires
        a.len() == b.len(),
        forall|i: int| 0 <= i < a.len() ==> ascii_lower(#[trigger] a[i]) == ascii_lower(b[i]),
    ensures
        kind_for_key(dispatch_key(a)) == kind_for_key(dispatch_key(b)),
{
    lemma_dispatch_key_lowered(a);
    lemma_dispatch_key_lowered(b);
    assert(lower_ascii_seq(a) =~= lower_ascii_seq(b));
}

/// Dispatch ignores surrounding whitespace.
pub proof fn law_dispatch_ignores_surrounding_whitespace(a: Seq<char>)
    ensures
        kind_for_key(dispatch_key(a)) == kind_for_key(dispatch_key(trim(a))),
{
    lemma_trim_idempotent(a);
}

proof fn lemma_trim_start_idempotent(s: Seq<char>)
    ensures
        trim_start(trim_start(s)) == trim_start(s),
    decreases s.len(),
{
    if s.len() > 0 && is_ws(s[0]) {
        lemma_trim_start_idempotent(s.drop_first());
    }
}

proof fn lemma_trim_end_idempotent(s: Seq<char>)
    ensures
        trim_end(trim_end(s)) == trim_end(s),
    decreases s.len(),
{
    if s.len() > 0 && is_ws(s.last()) {
        lemma_trim_end_idempotent(s.drop_last());
    }
}

proof fn lemma_trim_end_prefix(s: Seq<char>)
    ensures
        trim_end(s).len() <= s.len(),
        trim_end(s) =~= s.take(trim_end(s).len() as int),
    decreases s.len(),
{
    if s.len() > 0 && is_ws(s.last()) {
        lemma_trim_end_prefix(s.drop_last());
    }
}

proof fn lemma_trim_start_head(s: Seq<char>)
    ensures
        trim_start(s).len() > 0 ==> !is_ws(trim_start(s)[0]),
    decreases s.len(),
{
    if s.len() > 0 && is_ws(s[0]) {
        lemma_trim_start_head(s.drop_first());
    }
}

proof fn lemma_trim_idempotent(s: Seq<char>)
    ensures
        trim(trim(s)) == trim(s),
{
    let x = trim_start(s);
    lemma_trim_start_idempotent(s);
    lemma_trim_start_head(s);
    lemma_trim_end_prefix(x);
    let y = trim_end(x);
    if y.len() > 0 {
        assert(y[0] == x[0]);
        assert(!is_ws(x[0]));
    }
    assert(trim_start(y) == y);
    lemma_trim_end_idempotent(x);
}

} // verus!
