//! The `@` completion popup: keyword completions, and the filtering and
//! ordering of the filesystem entries the caller listed for the typed
//! directory. Secret and git-ignored paths are never offered, and hidden
//! entries only when the user typed a leading `.`.

use vstd::prelude::*;
use crate::text::{append_str, chars_of, has_prefix, lex_lt, owned, push_char, rfind_char, seq_lt, slice_vec, starts_with, string_from, last_index_of};

verus! {

/// The most candidates the popup shows.
pub const MAX_COMPLETIONS: usize = 12;

/// One row of the popup.
#[derive(Debug, Clone, PartialEq, Eq)]
pub struct Completion {
    /// The text inserted, with its leading `@`.
    pub insert: String,
    /// What the row is surfaced as (`directory`, `file · 28 KB`, …).
    pub label: String,
    /// The row is a directory.
    pub is_dir: bool,
}

impl View for Completion {
    type V = (Seq<char>, Seq<char>, bool);

    open spec fn view(&self) -> (Seq<char>, Seq<char>, bool) {
        (self.insert@, self.label@, self.is_dir)
    }
}

/// One entry of the listed directory, with what the caller found out
/// about it.
#[derive(Debug, Clone)]
pub struct PathCandidate {
    /// The entry's file name.
    pub name: String,
    pub is_dir: bool,
    /// The path is on the secret denylist.
    pub secret: bool,
    /// The relative path is git-ignored.
    pub ignored: bool,
    /// The file's size, as the label shows it (`28 KB`).
    pub size_text: String,
}

// --- keywords -------------------------------------------------------------------

/// The completion row of keyword `k` when `body` is a proper prefix of it.
pub open spec fn keyword_row_if(k: Seq<char>, body: Seq<char>) -> Seq<(Seq<char>, Seq<char>, bool)> {
    if has_prefix(k, body) && k != body {
        seq![("@"@ + k, k + " · static reference"@, false)]
    } else {
        Seq::empty()
    }
}

/// The keyword completions for `body`, in the order `diff`, `url`,
/// `session`, `output`: each keyword that `body` is a proper prefix of.
pub open spec fn keyword_rows(body: Seq<char>) -> Seq<(Seq<char>, Seq<char>, bool)> {
    keyword_row_if("diff"@, body) + keyword_row_if("url"@, body) + keyword_row_if("session"@, body)
        + keyword_row_if("output"@, body)
}

fn keyword_row(kw: &str) -> (r: Completion)
    ensures
        r@ == ("@"@ + kw@, kw@ + " · static reference"@, false),
{
    let mut insert = owned("@");
    append_str(&mut insert, kw);
    let mut label = owned(kw);
    append_str(&mut label, " · static reference");
    Completion { insert, label, is_dir: false }
}

fn offers(kw: &str, body: &[char]) -> (r: bool)
    ensures
        r == (has_prefix(kw@, body@) && kw@ != body@),
{
    let k = chars_of(kw);
    let pre = starts_with(k.as_slice(), body);
    let same = crate::text::chars_eq(k.as_slice(), body);
    pre && !same
}

/// The keyword completions for `body`.
pub fn keyword_completions(body: &[char]) -> (r: Vec<Completion>)
    ensures
        r@.map_values(|c: Completion| c@) == keyword_rows(body@),
{
    let mut out: Vec<Completion> = Vec::new();
    assert(out@.map_values(|c: Completion| c@) =~= Seq::<(Seq<char>, Seq<char>, bool)>::empty());
    keyword_into(&mut out, "diff", body);
    keyword_into(&mut out, "url", body);
    keyword_into(&mut out, "session", body);
    keyword_into(&mut out, "output", body);
    assert(Seq::<(Seq<char>, Seq<char>, bool)>::empty() + keyword_row_if("diff"@, body@) + keyword_row_if("url"@, body@)
        + keyword_row_if("session"@, body@) + keyword_row_if("output"@, body@) =~= keyword_rows(body@));
    out
}

fn keyword_into(out: &mut Vec<Completion>, kw: &str, body: &[char])
    ensures
        final(out)@.map_values(|c: Completion| c@) == old(out)@.map_values(|c: Completion| c@) + keyword_row_if(kw@, body@),
{
    let ghost before = out@.map_values(|c: Completion| c@);
    if offers(kw, body) {
        let row = keyword_row(kw);
        out.push(row);
        assert(out@.map_values(|c: Completion| c@) =~= before + keyword_row_if(kw@, body@));
    } else {
        assert(before + keyword_row_if(kw@, body@) =~= before);
    }
}

// --- filesystem entries -----------------------------------------------------------

/// `body` split at its last `/` into the typed directory and the leaf
/// being completed; with no `/`, the directory is empty.
pub open spec fn split_partial_of(body: Seq<char>) -> (Seq<char>, Seq<char>) {
    match last_index_of(body, '/') {
        Some(i) => (body.take(i), body.skip(i + 1)),
        None => (Seq::empty(), body),
    }
}

/// Splits a partial body into the typed directory and the leaf.
pub fn split_partial(body: &[char]) -> (r: (Vec<char>, Vec<char>))
    ensures
        (r.0@, r.1@) == split_partial_of(body@),
{
    match rfind_char(body, '/') {
        Some(i) => {
            let d = slice_vec(body, 0, i);
            let l = slice_vec(body, i + 1, body.len());
            assert(d@ =~= body@.take(i as int));
            assert(l@ =~= body@.skip(i + 1));
            (d, l)
        },
        None => {
            let l = slice_vec(body, 0, body.len());
            assert(l@ =~= body@);
            (Vec::new(), l)
        },
    }
}

/// The path of an entry relative to the workspace: the name under the
/// typed directory.
pub open spec fn relative_of(dir_part: Seq<char>, name: Seq<char>) -> Seq<char> {
    if dir_part.len() == 0 { name } else { dir_part + seq!['/'] + name }
}

/// The relative path of an entry.
pub fn relative_path(dir_part: &[char], name: &str) -> (r: String)
    ensures
        r@ == relative_of(dir_part@, name@),
{
    if dir_part.len() == 0 {
        owned(name)
    } else {
        let mut s = string_from(dir_part);
        push_char(&mut s, '/');
        append_str(&mut s, name);
        s
    }
}

/// The row an entry yields, if it is offered: its name must start with
/// the leaf, a hidden entry needs a typed leading `.`, and secret or
/// git-ignored entries never show. A directory is inserted with a
/// trailing `/`.
pub open spec fn entry_row(dir_part: Seq<char>, leaf: Seq<char>, c: PathCandidate) -> Option<(Seq<char>, Seq<char>, bool)> {
    let name = c.name@;
    if !has_prefix(name, leaf) {
        None
    } else if name.len() > 0 && name[0] == '.' && !(leaf.len() > 0 && leaf[0] == '.') {
        None
    } else if c.secret || c.ignored {
        None
    } else {
        let rel = relative_of(dir_part, name);
        Some((
            "@"@ + rel + if c.is_dir { seq!['/'] } else { Seq::empty() },
            if c.is_dir { "directory"@ } else { "file · "@ + c.size_text@ },
            c.is_dir,
        ))
    }
}

fn entry_completion(dir_part: &[char], leaf: &[char], c: &PathCandidate) -> (r: Option<Completion>)
    ensures
        match r {
            Some(x) => entry_row(dir_part@, leaf@, *c) == Some(x@),
            None => entry_row(dir_part@, leaf@, *c) is None,
        },
{
    let name = chars_of(c.name.as_str());
    if !starts_with(name.as_slice(), leaf) {
        return None;
    }
    if name.len() > 0 && name[0] == '.' && !(leaf.len() > 0 && leaf[0] == '.') {
        return None;
    }
    if c.secret || c.ignored {
        return None;
    }
    let rel = relative_path(dir_part, c.name.as_str());
    let mut insert = owned("@");
    append_str(&mut insert, rel.as_str());
    let ghost base = insert@;
    if c.is_dir {
        push_char(&mut insert, '/');
    } else {
        assert(base + Seq::<char>::empty() =~= base);
    }
    let label = if c.is_dir {
        owned("directory")
    } else {
        let mut l = owned("file · ");
        append_str(&mut l, c.size_text.as_str());
        l
    };
    Some(Completion { insert, label, is_dir: c.is_dir })
}

/// `a` comes before `b`: directories first, then by inserted text.
pub open spec fn row_before(a: (Seq<char>, Seq<char>, bool), b: (Seq<char>, Seq<char>, bool)) -> bool {
    (a.2 && !b.2) || (a.2 == b.2 && lex_lt(a.0, b.0))
}

/// `rows` with `x` inserted before the first row it comes before.
pub open spec fn insert_row(rows: Seq<(Seq<char>, Seq<char>, bool)>, x: (Seq<char>, Seq<char>, bool)) -> Seq<(Seq<char>, Seq<char>, bool)>
    decreases rows.len(),
{
    if rows.len() == 0 {
        seq![x]
    } else if row_before(x, rows[0]) {
        seq![x] + rows
    } else {
        seq![rows[0]] + insert_row(rows.drop_first(), x)
    }
}

/// The offered rows of `cands`, ordered directories first, then by
/// inserted text.
pub open spec fn path_rows(dir_part: Seq<char>, leaf: Seq<char>, cands: Seq<PathCandidate>) -> Seq<(Seq<char>, Seq<char>, bool)>
    decreases cands.len(),
{
    if cands.len() == 0 {
        Seq::empty()
    } else {
        let prev = path_rows(dir_part, leaf, cands.drop_last());
        match entry_row(dir_part, leaf, cands.last()) {
            Some(x) => insert_row(prev, x),
            None => prev,
        }
    }
}

fn comes_before(a: &Completion, b: &Completion) -> (r: bool)
    ensures
        r == row_before(a@, b@),
{
    if a.is_dir && !b.is_dir {
        return true;
    }
    if a.is_dir != b.is_dir {
        return false;
    }
    let x = chars_of(a.insert.as_str());
    let y = chars_of(b.insert.as_str());
    seq_lt(x.as_slice(), y.as_slice())
}

proof fn lemma_insert_row_at(rows: Seq<(Seq<char>, Seq<char>, bool)>, x: (Seq<char>, Seq<char>, bool), p: int)
    requires
        0 <= p <= rows.len(),
        forall|i: int| 0 <= i < p ==> !row_before(x, #[trigger] rows[i]),
        p < rows.len() ==> row_before(x, rows[p]),
    ensures
        insert_row(rows, x) == rows.take(p) + seq![x] + rows.skip(p),
    decreases p,
{
    if p == 0 {
        assert(rows.take(0) + seq![x] + rows.skip(0) =~= seq![x] + rows);
    } else {
        let t = rows.drop_first();
        assert(!row_before(x, rows[0]));
        assert forall|i: int| 0 <= i < p - 1 implies !row_before(x, #[trigger] t[i]) by {
            assert(t[i] == rows[i + 1]);
        }
        if p < rows.len() {
            assert(t[p - 1] == rows[p]);
        }
        lemma_insert_row_at(t, x, p - 1);
        assert(seq![rows[0]] + (t.take(p - 1) + seq![x] + t.skip(p - 1)) =~= rows.take(p) + seq![x] + rows.skip(p));
    }
}

fn insert_sorted(rows: &mut Vec<Completion>, x: Completion)
    ensures
        final(rows)@.map_values(|c: Completion| c@) == insert_row(old(rows)@.map_values(|c: Completion| c@), x@),
{
    let ghost rv = rows@.map_values(|c: Completion| c@);
    let mut p: usize = 0;
    while p < rows.len()
        invariant
            p <= rows@.len(),
            rv == rows@.map_values(|c: Completion| c@),
            forall|i: int| 0 <= i < p ==> !row_before(x@, #[trigger] rv[i]),
        ensures
            p <= rows@.len(),
            forall|i: int| 0 <= i < p ==> !row_before(x@, #[trigger] rv[i]),
            p < rows@.len() ==> row_before(x@, rv[p as int]),
        decreases rows@.len() - p,
    {
        if comes_before(&x, &rows[p]) {
            break;
        }
        p += 1;
    }
    proof { lemma_insert_row_at(rv, x@, p as int); }
    let ghost xv = x@;
    rows.insert(p, x);
    assert(rows@.map_values(|c: Completion| c@) =~= rv.take(p as int) + seq![xv] + rv.skip(p as int));
}

/// The completions for a partial `@…` token, given the entries of the
/// directory it names: nothing without a leading `@`; otherwise the
/// keyword rows, then the offered entries (directories first, then by
/// name), at most [`MAX_COMPLETIONS`] in all.
pub open spec fn completions_of(partial: Seq<char>, cands: Seq<PathCandidate>) -> Seq<(Seq<char>, Seq<char>, bool)> {
    if partial.len() == 0 || partial[0] != '@' {
        Seq::empty()
    } else {
        let body = partial.drop_first();
        let (dir_part, leaf) = split_partial_of(body);
        let all = keyword_rows(body) + path_rows(dir_part, leaf, cands);
        if all.len() > MAX_COMPLETIONS { all.take(MAX_COMPLETIONS as int) } else { all }
    }
}

/// Completions for a partial token; `candidates` are the entries of the
/// directory that [`split_partial`] names, which the caller listed.
pub fn complete(partial: &str, candidates: &Vec<PathCandidate>) -> (r: Vec<Completion>)
    ensures
        r@.map_values(|c: Completion| c@) == completions_of(partial@, candidates@),
{
    let pv = chars_of(partial);
    if pv.len() == 0 || pv[0] != '@' {
        let v: Vec<Completion> = Vec::new();
        assert(v@.map_values(|c: Completion| c@) =~= Seq::<(Seq<char>, Seq<char>, bool)>::empty());
        return v;
    }
    let body = slice_vec(pv.as_slice(), 1, pv.len());
    assert(body@ =~= partial@.drop_first());
    let mut out = keyword_completions(body.as_slice());
    let (dir_part, leaf) = split_partial(body.as_slice());
    let mut rows: Vec<Completion> = Vec::new();
    let mut i: usize = 0;
    assert(rows@.map_values(|c: Completion| c@) =~= Seq::<(Seq<char>, Seq<char>, bool)>::empty());
    while i < candidates.len()
        invariant
            i <= candidates.len(),
            rows@.map_values(|c: Completion| c@) == path_rows(dir_part@, leaf@, candidates@.take(i as int)),
        decreases candidates.len() - i,
    {
        assert(candidates@.take(i + 1).drop_last() =~= candidates@.take(i as int));
        assert(candidates@.take(i + 1).last() == candidates@[i as int]);
        match entry_completion(dir_part.as_slice(), leaf.as_slice(), &candidates[i]) {
            Some(c) => insert_sorted(&mut rows, c),
            None => {},
        }
        i += 1;
    }
    assert(candidates@.take(candidates.len() as int) =~= candidates@);
    let ghost kw = out@.map_values(|c: Completion| c@);
    let ghost pr = rows@.map_values(|c: Completion| c@);
    out.append(&mut rows);
    assert(out@.map_values(|c: Completion| c@) =~= kw + pr);
    if out.len() > MAX_COMPLETIONS {
        out.truncate(MAX_COMPLETIONS);
        assert(out@.map_values(|c: Completion| c@) =~= (kw + pr).take(MAX_COMPLETIONS as int));
    }
    out
}

/// Inserting a row keeps the rows it had and adds that one.
proof fn lemma_insert_row_members(rows: Seq<(Seq<char>, Seq<char>, bool)>, x: (Seq<char>, Seq<char>, bool), i: int)
    requires
        0 <= i < insert_row(rows, x).len(),
    ensures
        insert_row(rows, x)[i] == x || rows.contains(insert_row(rows, x)[i]),
    decreases rows.len(),
{
    let r = insert_row(rows, x);
    if rows.len() == 0 {
    } else if row_before(x, rows[0]) {
        if i > 0 {
            assert(r[i] == rows[i - 1]);
        }
    } else {
        if i == 0 {
            assert(r[0] == rows[0]);
        } else {
            lemma_insert_row_members(rows.drop_first(), x, i - 1);
            let y = insert_row(rows.drop_first(), x)[i - 1];
            assert(r[i] == y);
            if y != x {
                let k = choose|k: int| 0 <= k < rows.drop_first().len() && rows.drop_first()[k] == y;
                assert(rows[k + 1] == y);
            }
        }
    }
}

/// Every row offered for an entry comes from an entry that is not secret,
/// not git-ignored, whose name starts with the leaf, and that is hidden
/// only when the leaf asks for hidden entries.
pub proof fn law_only_allowed_entries_offered(dir_part: Seq<char>, leaf: Seq<char>, cands: Seq<PathCandidate>, i: int)
    requires
        0 <= i < path_rows(dir_part, leaf, cands).len(),
    ensures
        exists|k: int| 0 <= k < cands.len() && {
            let c = #[trigger] cands[k];
            &&& !c.secret
            &&& !c.ignored
            &&& has_prefix(c.name@, leaf)
            &&& (c.name@.len() > 0 && c.name@[0] == '.' ==> leaf.len() > 0 && leaf[0] == '.')
            &&& entry_row(dir_part, leaf, c) == Some(path_rows(dir_part, leaf, cands)[i])
        },
    decreases cands.len(),
{
    let prev = path_rows(dir_part, leaf, cands.drop_last());
    let last = cands.last();
    match entry_row(dir_part, leaf, last) {
        Some(x) => {
            lemma_insert_row_members(prev, x, i);
            let y = insert_row(prev, x)[i];
            if y == x {
                assert(cands[cands.len() - 1] == last);
            } else {
                let j = choose|j: int| 0 <= j < prev.len() && prev[j] == y;
                law_only_allowed_entries_offered(dir_part, leaf, cands.drop_last(), j);
                let k = choose|k: int| 0 <= k < cands.drop_last().len() && {
                    let c = #[trigger] cands.drop_last()[k];
                    &&& !c.secret
                    &&& !c.ignored
                    &&& has_prefix(c.name@, leaf)
                    &&& (c.name@.len() > 0 && c.name@[0] == '.' ==> leaf.len() > 0 && leaf[0] == '.')
                    &&& entry_row(dir_part, leaf, c) == Some(prev[j])
                };
                assert(cands[k] == cands.drop_last()[k]);
            }
        },
        None => {
            law_only_allowed_entries_offered(dir_part, leaf, cands.drop_last(), i);
            let k = choose|k: int| 0 <= k < cands.drop_last().len() && {
                let c = #[trigger] cands.drop_last()[k];
                &&& !c.secret
                &&& !c.ignored
                &&& has_prefix(c.name@, leaf)
                &&& (c.name@.len() > 0 && c.name@[0] == '.' ==> leaf.len() > 0 && leaf[0] == '.')
                &&& entry_row(dir_part, leaf, c) == Some(prev[i])
            };
            assert(cands[k] == cands.drop_last()[k]);
        },
    }
}

/// The popup never shows more than [`MAX_COMPLETIONS`] rows.
pub proof fn law_completions_capped(partial: Seq<char>, cands: Seq<PathCandidate>)
    ensures
        completions_of(partial, cands).len() <= MAX_COMPLETIONS,
{
}

} // verus!
