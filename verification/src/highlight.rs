//! Syntax highlighting of diff lines through `syntect`. The lines of a diff
//! are highlighted in order by one highlighter, chosen by the file's
//! extension, each handed over with a trailing newline (its line grammars
//! expect one); what comes back loses those newlines and any fragment left
//! empty, and a line it could not highlight keeps its raw text in the
//! plain style. A fragment's style is its foreground colour.

use syntect::easy::HighlightLines;
use syntect::highlighting::ThemeSet;
use syntect::parsing::SyntaxSet;
use vstd::prelude::*;
use crate::diff::DiffLine;
use crate::permission::components::{file_name, path_file_name};
use crate::text::{chars_of, last_index_of, owned, push_char, rfind_char, slice_vec, string_from};

verus! {

/// `s` without its trailing newlines.
pub open spec fn without_newlines(s: Seq<char>) -> Seq<char>
    decreases s.len(),
{
    if s.len() > 0 && s.last() == '\n' { without_newlines(s.drop_last()) } else { s }
}

/// The fragments kept of a highlighted line: each with its trailing
/// newlines removed, the empty ones dropped, in order.
pub open spec fn kept_fragments<S>(ranges: Seq<(S, Seq<char>)>) -> Seq<(S, Seq<char>)>
    decreases ranges.len(),
{
    if ranges.len() == 0 {
        Seq::empty()
    } else {
        let rest = kept_fragments(ranges.drop_last());
        let t = without_newlines(ranges.last().1);
        if t.len() == 0 { rest } else { rest.push((ranges.last().0, t)) }
    }
}

/// The fragments of a line as style and text.
pub open spec fn fragments_view<S>(v: Seq<(S, String)>) -> Seq<(S, Seq<char>)> {
    v.map_values(|p: (S, String)| (p.0, p.1@))
}

/// The fragments a line shows: what the highlighter gave, less newlines and
/// empty fragments; `text` whole in the `plain` style when it gave nothing.
pub open spec fn line_fragments_of<S>(text: Seq<char>, highlighted: Option<Seq<(S, Seq<char>)>>, plain: S) -> Seq<(S, Seq<char>)> {
    match highlighted {
        Some(ranges) => kept_fragments(ranges),
        None => seq![(plain, text)],
    }
}

fn strip_newlines(s: &str) -> (r: Vec<char>)
    ensures
        r@ == without_newlines(s@),
{
    let v = chars_of(s);
    let mut hi: usize = v.len();
    assert(v@.subrange(0, hi as int) =~= v@);
    while hi > 0 && v[hi - 1] == '\n'
        invariant
            hi <= v.len(),
            without_newlines(v@) == without_newlines(v@.subrange(0, hi as int)),
        decreases hi,
    {
        assert(v@.subrange(0, hi as int).drop_last() =~= v@.subrange(0, hi - 1));
        hi -= 1;
    }
    proof {
        let u = v@.subrange(0, hi as int);
        if u.len() > 0 {
            assert(u.last() == v@[hi - 1]);
        }
    }
    let mut r: Vec<char> = Vec::new();
    let mut i: usize = 0;
    while i < hi
        invariant
            i <= hi <= v.len(),
            r@ == v@.subrange(0, i as int),
        decreases hi - i,
    {
        r.push(v[i]);
        assert(r@ =~= v@.subrange(0, i + 1));
        i += 1;
    }
    r
}

/// The fragments one diff line shows, given what highlighting `text` gave
/// (`None` when it failed).
pub fn line_fragments<S: Copy>(text: &str, highlighted: &Option<Vec<(S, String)>>, plain: S) -> (r: Vec<(S, String)>)
    ensures
        fragments_view(r@) == line_fragments_of(
            text@,
            match highlighted {
                Some(v) => Some(fragments_view(v@)),
                None => None,
            },
            plain,
        ),
{
    match highlighted {
        None => {
            let mut r: Vec<(S, String)> = Vec::new();
            r.push((plain, string_from(chars_of(text).as_slice())));
            assert(fragments_view(r@) =~= seq![(plain, text@)]);
            r
        },
        Some(ranges) => {
            let ghost rv = fragments_view(ranges@);
            let mut r: Vec<(S, String)> = Vec::new();
            let mut i: usize = 0;
            while i < ranges.len()
                invariant
                    i <= ranges.len(),
                    rv == fragments_view(ranges@),
                    fragments_view(r@) == kept_fragments(rv.take(i as int)),
                decreases ranges.len() - i,
            {
                let t = strip_newlines(ranges[i].1.as_str());
                proof {
                    assert(rv.take(i + 1).drop_last() =~= rv.take(i as int));
                    assert(rv.take(i + 1).last() == rv[i as int]);
                }
                if t.len() > 0 {
                    let frag = string_from(t.as_slice());
                    r.push((ranges[i].0, frag));
                    proof {
                        assert(fragments_view(r@) =~= fragments_view(r@.drop_last()).push((ranges@[i as int].0, frag@)));
                    }
                }
                i += 1;
            }
            assert(rv.take(ranges.len() as int) =~= rv);
            r
        },
    }
}

/// A foreground colour as red, green and blue.
pub type Rgb = (u8, u8, u8);

/// What `syntect` gives for `lines`, highlighted in order by one
/// highlighter over its bundled syntaxes (loaded for newline-terminated
/// lines) and its bundled theme named `theme`: the syntax is the one for
/// the file extension `ext` (`None`, or an extension no syntax claims,
/// gives plain text); for each line, the foreground colour and text of
/// each fragment, or `None` where that line failed to highlight or no
/// theme has that name.
pub uninterp spec fn syntect_lines(theme: Seq<char>, ext: Option<Seq<char>>, lines: Seq<Seq<char>>) -> Seq<Option<Seq<(Rgb, Seq<char>)>>>;

/// The plain value of a highlighting result.
pub open spec fn highlights_view(r: Seq<Option<Vec<(Rgb, String)>>>) -> Seq<Option<Seq<(Rgb, Seq<char>)>>> {
    r.map_values(|o: Option<Vec<(Rgb, String)>>| match o {
        Some(v) => Some(fragments_view(v@)),
        None => None,
    })
}

/// `syntect::easy::HighlightLines::highlight_line` over `lines`, in order,
/// with the syntax for `ext` (plain text when none matches) and the bundled
/// theme `theme`, loaded from `syntect`'s bundled sets. One result per
/// line.
#[verifier::external_body]
fn syntect_highlight(theme: &str, ext: Option<&str>, lines: &Vec<String>) -> (r: Vec<Option<Vec<(Rgb, String)>>>)
    ensures
        r.len() == lines.len(),
        highlights_view(r@) == syntect_lines(theme@, match ext { Some(e) => Some(e@), None => None }, lines@.map_values(|s: String| s@)),
{
    let ss = SyntaxSet::load_defaults_newlines();
    let ts = ThemeSet::load_defaults();
    let syntax = ext.and_then(|e| ss.find_syntax_by_extension(e)).unwrap_or_else(|| ss.find_syntax_plain_text());
    match ts.themes.get(theme) {
        None => lines.iter().map(|_| None).collect(),
        Some(th) => {
            let mut h = HighlightLines::new(syntax, th);
            lines.iter().map(|l| h.highlight_line(l, &ss).ok().map(|rs| {
                rs.into_iter().map(|(st, f)| ((st.foreground.r, st.foreground.g, st.foreground.b), f.to_string())).collect()
            })).collect()
        },
    }
}

/// The theme diffs are highlighted with: a dark one, so the colours read on
/// the near-black diff background.
pub open spec fn highlight_theme() -> Seq<char> {
    "base16-ocean.dark"@
}

/// The extension of a file name (`std::path::Path::extension`): the part
/// after the last `.`, unless there is none or the name starts with its
/// only `.`.
pub open spec fn extension_of(name: Seq<char>) -> Option<Seq<char>> {
    match last_index_of(name, '.') {
        Some(i) => if i > 0 { Some(name.skip(i + 1)) } else { None },
        None => None,
    }
}

/// The extension of the file `path` names.
pub open spec fn path_extension(path: Seq<char>) -> Option<Seq<char>> {
    match path_file_name(path) {
        Some(n) => extension_of(n),
        None => None,
    }
}

/// A line as the highlighter is handed it.
pub open spec fn with_newline(line: Seq<char>) -> Seq<char> {
    line.push('\n')
}

/// The fragments each diff line of `texts` shows when the diff is of the
/// file `path`; a line that failed to highlight keeps its text in black.
pub open spec fn highlighted_of(path: Seq<char>, texts: Seq<Seq<char>>) -> Seq<Seq<(Rgb, Seq<char>)>> {
    let results = syntect_lines(highlight_theme(), path_extension(path), texts.map_values(|t: Seq<char>| with_newline(t)));
    Seq::new(texts.len(), |i: int| line_fragments_of(texts[i], results[i], (0u8, 0u8, 0u8)))
}

fn extension(name: &str) -> (r: Option<String>)
    ensures
        match r {
            Some(e) => extension_of(name@) == Some(e@),
            None => extension_of(name@) is None,
        },
{
    let cs = chars_of(name);
    match rfind_char(cs.as_slice(), '.') {
        Some(i) => {
            if i > 0 {
                let e = slice_vec(cs.as_slice(), i + 1, cs.len());
                assert(e@ =~= name@.skip(i + 1));
                Some(string_from(e.as_slice()))
            } else {
                None
            }
        },
        None => None,
    }
}

/// The highlighted fragments of each line of a diff of the file `path`,
/// by its extension.
pub fn highlight_lines(path: &str, lines: &Vec<DiffLine>) -> (r: Vec<Vec<(Rgb, String)>>)
    ensures
        r@.map_values(|v: Vec<(Rgb, String)>| fragments_view(v@))
            == highlighted_of(path@, lines@.map_values(|l: DiffLine| l.text@)),
{
    let ghost texts = lines@.map_values(|l: DiffLine| l.text@);
    let mut fed: Vec<String> = Vec::new();
    let mut i: usize = 0;
    while i < lines.len()
        invariant
            i <= lines.len(),
            texts == lines@.map_values(|l: DiffLine| l.text@),
            fed@.map_values(|s: String| s@) == texts.take(i as int).map_values(|t: Seq<char>| with_newline(t)),
        decreases lines.len() - i,
    {
        let mut s = owned(lines[i].text.as_str());
        push_char(&mut s, '\n');
        let ghost before = fed@.map_values(|s: String| s@);
        fed.push(s);
        proof {
            assert(fed@.map_values(|s: String| s@) =~= before.push(with_newline(texts[i as int])));
            assert(texts.take(i + 1).map_values(|t: Seq<char>| with_newline(t))
                =~= texts.take(i as int).map_values(|t: Seq<char>| with_newline(t)).push(with_newline(texts[i as int])));
        }
        i += 1;
    }
    proof {
        assert(texts.take(lines.len() as int) =~= texts);
    }
    let name = file_name(path);
    let ext = match &name {
        Some(n) => extension(n.as_str()),
        None => None,
    };
    let ghost ev = match &ext { Some(e) => Some(e@), None => None };
    assert(ev == path_extension(path@));
    let results = match &ext {
        Some(e) => syntect_highlight("base16-ocean.dark", Some(e.as_str()), &fed),
        None => syntect_highlight("base16-ocean.dark", None, &fed),
    };
    let ghost rv = highlights_view(results@);
    let mut out: Vec<Vec<(Rgb, String)>> = Vec::new();
    let mut j: usize = 0;
    while j < lines.len()
        invariant
            j <= lines.len(),
            results.len() == lines.len(),
            texts == lines@.map_values(|l: DiffLine| l.text@),
            rv == highlights_view(results@),
            rv == syntect_lines(highlight_theme(), path_extension(path@), texts.map_values(|t: Seq<char>| with_newline(t))),
            out@.map_values(|v: Vec<(Rgb, String)>| fragments_view(v@))
                == highlighted_of(path@, texts).take(j as int),
        decreases lines.len() - j,
    {
        let frags = line_fragments(lines[j].text.as_str(), &results[j], (0u8, 0u8, 0u8));
        let ghost before = out@.map_values(|v: Vec<(Rgb, String)>| fragments_view(v@));
        out.push(frags);
        proof {
            assert(out@.map_values(|v: Vec<(Rgb, String)>| fragments_view(v@)) =~= before.push(fragments_view(frags@)));
            assert(highlighted_of(path@, texts).take(j + 1) =~= highlighted_of(path@, texts).take(j as int).push(highlighted_of(path@, texts)[j as int]));
        }
        j += 1;
    }
    proof {
        assert(highlighted_of(path@, texts).take(lines.len() as int) =~= highlighted_of(path@, texts));
    }
    out
}

} // verus!
