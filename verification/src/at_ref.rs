//! `@`-references typed in the composer: parsing a `@…` token into an
//! [`AtRef`], and the keyword part of the completion popup.
//!
//! This module is pure syntax; it never touches the filesystem or the
//! network. Paths are held as their text.

use vstd::prelude::*;
use crate::text::{
    chars_of, first_where, first_whitespace, has_char, has_prefix, has_suffix, is_word, is_ws,
    last_index_of, owned, rfind_char, slice_vec, starts_with, string_from, trim, trim_chars,
    utf8_len, utf8_len_exceeds, append_str, contains_char, is_whitespace, lemma_first_where,
};

verus! {

/// A failure resolving an `@`-reference.
#[derive(Debug, Clone, PartialEq, Eq)]
pub enum AtRefError {
    /// The token did not start with `@` or was otherwise unparseable.
    Malformed(String),
    /// The referenced path or target does not exist.
    NotFound(String),
    /// The path is a credential or secret file on the denylist.
    SecretBlocked(String),
    /// The path is excluded by a `.gitignore` rule.
    GitIgnored(String),
    /// An `@url` did not parse as a valid `http(s)` URL.
    BadUrl(String),
    /// The filesystem could not be read.
    Io {
        /// The path the failed read targeted.
        path: String,
        /// The underlying I/O error message.
        message: String,
    },
}

/// The kind of thing an `@`-reference attaches.
#[derive(Debug, Clone, PartialEq, Eq)]
pub enum AtRef {
    /// `@path/to/file`: one file's contents.
    File(String),
    /// `@path/to/dir/`: a directory tree.
    Dir(String),
    /// `@SymbolName`: a definition and its call sites.
    Symbol(String),
    /// `@diff` (working tree) or `@diff <ref>`.
    Diff {
        /// The git ref to diff against; `None` is the working tree.
        base: Option<String>,
    },
    /// `@url <https://…>`: a fetched web page.
    Url(String),
    /// `@session <id>`: a past session.
    Session(String),
    /// `@output`: the last shell command's output.
    Output,
}

/// An [`AtRef`] as plain values.
pub enum AtRefView {
    File(Seq<char>),
    Dir(Seq<char>),
    Symbol(Seq<char>),
    Diff(Option<Seq<char>>),
    Url(Seq<char>),
    Session(Seq<char>),
    Output,
}

/// An [`AtRefError`] as plain values.
pub enum AtRefErrorView {
    Malformed(Seq<char>),
    NotFound(Seq<char>),
    SecretBlocked(Seq<char>),
    GitIgnored(Seq<char>),
    BadUrl(Seq<char>),
    Io(Seq<char>, Seq<char>),
}

impl View for AtRef {
    type V = AtRefView;

    open spec fn view(&self) -> AtRefView {
        match self {
            AtRef::File(p) => AtRefView::File(p@),
            AtRef::Dir(p) => AtRefView::Dir(p@),
            AtRef::Symbol(s) => AtRefView::Symbol(s@),
            AtRef::Diff { base } => AtRefView::Diff(
                match base {
                    Some(b) => Some(b@),
                    None => None,
                },
            ),
            AtRef::Url(u) => AtRefView::Url(u@),
            AtRef::Session(id) => AtRefView::Session(id@),
            AtRef::Output => AtRefView::Output,
        }
    }
}

impl View for AtRefError {
    type V = AtRefErrorView;

    open spec fn view(&self) -> AtRefErrorView {
        match self {
            AtRefError::Malformed(s) => AtRefErrorView::Malformed(s@),
            AtRefError::NotFound(s) => AtRefErrorView::NotFound(s@),
            AtRefError::SecretBlocked(s) => AtRefErrorView::SecretBlocked(s@),
            AtRefError::GitIgnored(s) => AtRefErrorView::GitIgnored(s@),
            AtRefError::BadUrl(s) => AtRefErrorView::BadUrl(s@),
            AtRefError::Io { path, message } => AtRefErrorView::Io(path@, message@),
        }
    }
}

/// The label a reference kind is surfaced as.
pub open spec fn kind_label_of(r: AtRefView) -> Seq<char> {
    match r {
        AtRefView::File(_) => "file"@,
        AtRefView::Dir(_) => "directory"@,
        AtRefView::Symbol(_) => "symbol"@,
        AtRefView::Diff(_) => "diff"@,
        AtRefView::Url(_) => "url"@,
        AtRefView::Session(_) => "session"@,
        AtRefView::Output => "output"@,
    }
}

// --- syntax ---------------------------------------------------------------

/// A path token: it has a separator, a leading `.`, or a dotted tail of one
/// to four bytes after a non-empty stem (`compat.rs`, `main.py`).
pub open spec fn looks_like_path_spec(b: Seq<char>) -> bool {
    ||| has_suffix(b, seq!['/'])
    ||| has_char(b, '/')
    ||| has_char(b, '\\')
    ||| has_prefix(b, seq!['.', '/'])
    ||| has_prefix(b, seq!['.', '.', '/'])
    ||| has_prefix(b, seq!['.'])
    ||| match last_index_of(b, '.') {
        Some(i) => i > 0 && 1 <= utf8_len(b.skip(i + 1)) <= 4,
        None => false,
    }
}

/// A URL delimiter that ends the host.
pub open spec fn is_url_delim(c: char) -> bool {
    c == '/' || c == '?' || c == '#'
}

pub open spec fn https_prefix() -> Seq<char> {
    seq!['h', 't', 't', 'p', 's', ':', '/', '/']
}

pub open spec fn http_prefix() -> Seq<char> {
    seq!['h', 't', 't', 'p', ':', '/', '/']
}

pub open spec fn localhost() -> Seq<char> {
    seq!['l', 'o', 'c', 'a', 'l', 'h', 'o', 's', 't']
}

/// A syntactically valid `http`/`https` URL: the scheme, no whitespace
/// anywhere, and a non-empty host that has a dot or starts with
/// `localhost`.
pub open spec fn is_http_url_spec(s: Seq<char>) -> bool {
    let rest: Option<Seq<char>> = if has_prefix(s, https_prefix()) {
        Some(s.skip(8))
    } else if has_prefix(s, http_prefix()) {
        Some(s.skip(7))
    } else {
        None
    };
    match rest {
        Some(r) => {
            let host = r.take(first_where(r, |c: char| is_url_delim(c)) as int);
            &&& !(exists|i: int| 0 <= i < s.len() && is_ws(#[trigger] s[i]))
            &&& host.len() > 0
            &&& (has_char(host, '.') || has_prefix(host, localhost()))
        },
        None => false,
    }
}

/// The keyword of an `@` body: up to its first whitespace character.
pub open spec fn keyword_of(body: Seq<char>) -> Seq<char> {
    body.take(first_where(body, |c: char| is_ws(c)) as int)
}

/// The argument of an `@` body: what follows the first whitespace
/// character, trimmed, when that is not empty.
pub open spec fn argument_of(body: Seq<char>) -> Option<Seq<char>> {
    let k = first_where(body, |c: char| is_ws(c));
    if k < body.len() {
        let a = trim(body.skip(k + 1 as int));
        if a.len() == 0 { None } else { Some(a) }
    } else {
        None
    }
}

/// What `AtRef::parse` makes of `raw`.
pub open spec fn parse_spec(raw: Seq<char>) -> Result<AtRefView, AtRefErrorView> {
    if raw.len() == 0 || raw[0] != '@' || raw.len() == 1 {
        Err(AtRefErrorView::Malformed(raw))
    } else {
        let body = raw.drop_first();
        let keyword = keyword_of(body);
        let arg = argument_of(body);
        if keyword == "diff"@ {
            Ok(AtRefView::Diff(arg))
        } else if keyword == "output"@ {
            Ok(AtRefView::Output)
        } else if keyword == "url"@ {
            match arg {
                None => Err(AtRefErrorView::BadUrl(raw)),
                Some(u) => if is_http_url_spec(u) {
                    Ok(AtRefView::Url(u))
                } else {
                    Err(AtRefErrorView::BadUrl(u))
                },
            }
        } else if keyword == "session"@ {
            match arg {
                None => Err(AtRefErrorView::Malformed(raw)),
                Some(id) => Ok(AtRefView::Session(id)),
            }
        } else if looks_like_path_spec(keyword) {
            if has_suffix(keyword, seq!['/']) {
                Ok(AtRefView::Dir(keyword))
            } else {
                Ok(AtRefView::File(keyword))
            }
        } else {
            Ok(AtRefView::Symbol(keyword))
        }
    }
}

/// Whether a token body reads as a filesystem path rather than a symbol.
pub fn looks_like_path(body: &[char]) -> (r: bool)
    ensures
        r == looks_like_path_spec(body@),
{
    if body.len() > 0 && body[body.len() - 1] == '/' {
        assert(body@.subrange(body@.len() - 1, body@.len() as int) =~= seq!['/']);
        return true;
    }
    assert(!has_suffix(body@, seq!['/'])) by {
        if has_suffix(body@, seq!['/']) {
            assert(body@.subrange(body@.len() - 1, body@.len() as int)[0] == body@[body@.len() - 1]);
        }
    }
    if contains_char(body, '/') || contains_char(body, '\\') {
        return true;
    }
    if body.len() > 0 && body[0] == '.' {
        assert(body@.subrange(0, 1) =~= seq!['.']);
        return true;
    }
    assert(!has_prefix(body@, seq!['.'])) by {
        if has_prefix(body@, seq!['.']) {
            assert(body@.subrange(0, 1)[0] == body@[0]);
        }
    }
    assert(!has_prefix(body@, seq!['.', '/'])) by {
        if has_prefix(body@, seq!['.', '/']) {
            assert(body@.subrange(0, 2)[0] == body@[0]);
        }
    }
    assert(!has_prefix(body@, seq!['.', '.', '/'])) by {
        if has_prefix(body@, seq!['.', '.', '/']) {
            assert(body@.subrange(0, 3)[0] == body@[0]);
        }
    }
    match rfind_char(body, '.') {
        Some(i) => {
            if i == 0 {
                return false;
            }
            let ext = slice_vec(body, i + 1, body.len());
            assert(ext@ =~= body@.skip(i + 1));
            let too_long = utf8_len_exceeds(ext.as_slice(), 4);
            ext.len() > 0 && !too_long
        },
        None => false,
    }
}

/// `c` ends a URL's host.
fn url_delim(c: char) -> (r: bool)
    ensures
        r == is_url_delim(c),
{
    c == '/' || c == '?' || c == '#'
}

/// Whether `s` is a syntactically valid `http`/`https` URL.
pub fn is_http_url(s: &[char]) -> (r: bool)
    ensures
        r == is_http_url_spec(s@),
{
    let https: [char; 8] = ['h', 't', 't', 'p', 's', ':', '/', '/'];
    let http: [char; 7] = ['h', 't', 't', 'p', ':', '/', '/'];
    assert(https@ =~= https_prefix());
    assert(http@ =~= http_prefix());
    let start: usize;
    if starts_with(s, https.as_slice()) {
        start = 8;
    } else if starts_with(s, http.as_slice()) {
        start = 7;
    } else {
        return false;
    }
    let rest = slice_vec(s, start, s.len());
    assert(rest@ =~= s@.skip(start as int));
    let mut k: usize = 0;
    while k < rest.len() && !url_delim(rest[k])
        invariant
            k <= rest.len(),
            forall|j: int| 0 <= j < k ==> !is_url_delim(rest@[j]),
        decreases rest.len() - k,
    {
        k += 1;
    }
    proof { lemma_first_where(rest@, |c: char| is_url_delim(c), k as int); }
    let host = slice_vec(rest.as_slice(), 0, k);
    assert(host@ =~= rest@.take(k as int));
    let mut has_ws = false;
    let mut i: usize = 0;
    while i < s.len()
        invariant
            i <= s.len(),
            has_ws == (exists|j: int| 0 <= j < i && is_ws(#[trigger] s@[j])),
        decreases s.len() - i,
    {
        if is_whitespace(s[i]) {
            has_ws = true;
        }
        i += 1;
    }
    let lh: [char; 9] = ['l', 'o', 'c', 'a', 'l', 'h', 'o', 's', 't'];
    assert(lh@ =~= localhost());
    !has_ws && host.len() > 0 && (contains_char(host.as_slice(), '.') || starts_with(host.as_slice(), lh.as_slice()))
}

impl AtRef {
    /// The kind keyword surfaced in the completion popup.
    pub fn kind_label(&self) -> (r: &'static str)
        ensures
            r@ == kind_label_of(self@),
    {
        match self {
            AtRef::File(_) => "file",
            AtRef::Dir(_) => "directory",
            AtRef::Symbol(_) => "symbol",
            AtRef::Diff { .. } => "diff",
            AtRef::Url(_) => "url",
            AtRef::Session(_) => "session",
            AtRef::Output => "output",
        }
    }

    /// Parses one `@…` token, with the argument a keyword kind takes
    /// (`@diff main`, `@url https://…`, `@session abc`). `raw` includes the
    /// leading `@`. A path ending in `/` is a directory, another path a
    /// file, and a bare identifier a symbol.
    pub fn parse(raw: &str) -> (r: Result<AtRef, AtRefError>)
        ensures
            match r {
                Ok(a) => parse_spec(raw@) == Ok::<AtRefView, AtRefErrorView>(a@),
                Err(e) => parse_spec(raw@) == Err::<AtRefView, AtRefErrorView>(e@),
            },
    {
        let rv = chars_of(raw);
        if rv.len() == 0 || rv[0] != '@' || rv.len() == 1 {
            return Err(AtRefError::Malformed(owned(raw)));
        }
        let body = slice_vec(rv.as_slice(), 1, rv.len());
        assert(body@ =~= raw@.drop_first());
        let k = first_whitespace(body.as_slice());
        let kw = slice_vec(body.as_slice(), 0, k);
        assert(kw@ =~= keyword_of(body@));
        let arg: Option<String> = if k < body.len() {
            let tail = slice_vec(body.as_slice(), k + 1, body.len());
            assert(tail@ =~= body@.skip(k + 1));
            let a = trim_chars(tail.as_slice());
            if a.len() == 0 {
                None
            } else {
                Some(string_from(a.as_slice()))
            }
        } else {
            None
        };
        assert(match arg { Some(a) => argument_of(body@) == Some(a@), None => argument_of(body@) is None });
        if is_word(kw.as_slice(), "diff") {
            Ok(AtRef::Diff { base: arg })
        } else if is_word(kw.as_slice(), "output") {
            Ok(AtRef::Output)
        } else if is_word(kw.as_slice(), "url") {
            match arg {
                None => Err(AtRefError::BadUrl(owned(raw))),
                Some(u) => {
                    let uv = chars_of(u.as_str());
                    if is_http_url(uv.as_slice()) {
                        Ok(AtRef::Url(u))
                    } else {
                        Err(AtRefError::BadUrl(u))
                    }
                },
            }
        } else if is_word(kw.as_slice(), "session") {
            match arg {
                None => Err(AtRefError::Malformed(owned(raw))),
                Some(id) => Ok(AtRef::Session(id)),
            }
        } else if looks_like_path(kw.as_slice()) {
            let path = string_from(kw.as_slice());
            if kw.len() > 0 && kw[kw.len() - 1] == '/' {
                assert(kw@.subrange(kw@.len() - 1, kw@.len() as int) =~= seq!['/']);
                Ok(AtRef::Dir(path))
            } else {
                assert(!has_suffix(kw@, seq!['/'])) by {
                    if has_suffix(kw@, seq!['/']) {
                        assert(kw@.subrange(kw@.len() - 1, kw@.len() as int)[0] == kw@[kw@.len() - 1]);
                    }
                }
                Ok(AtRef::File(path))
            }
        } else {
            Ok(AtRef::Symbol(string_from(kw.as_slice())))
        }
    }
}

} // verus!
