//! Shell-command helpers for the shell permission cards: the always-allow
//! prefix, the destructive-command warning, and in-place `sed` detection.

use vstd::prelude::*;
use crate::text::{
    chars_of, has_infix, has_prefix, lowercase, owned, push_char, split_whitespace, string_from,
    to_lowercase, words, append_str, contains, starts_with, is_word,
};

verus! {

/// The always-allow prefix of a command: its first word, followed by its
/// second when that is not a flag, each followed by a space; empty for
/// an empty command.
pub open spec fn shell_prefix_of(command: Seq<char>) -> Seq<char> {
    let w = words(command);
    if w.len() == 0 {
        Seq::empty()
    } else if w.len() >= 2 && !(w[1].len() > 0 && w[1][0] == '-') {
        w[0] + seq![' '] + w[1] + seq![' ']
    } else {
        w[0] + seq![' ']
    }
}

/// Infers the always-allow prefix from a shell command: the command and
/// its subcommand (`cargo test --lib` → `cargo test `), or the command
/// alone (`ls -la` → `ls `).
pub fn infer_shell_prefix(command: &str) -> (r: String)
    ensures
        r@ == shell_prefix_of(command@),
{
    let cs = chars_of(command);
    let w = split_whitespace(cs.as_slice());
    let ghost wv = w@.map_values(|x: Vec<char>| x@);
    if w.len() == 0 {
        return String::new();
    }
    assert(wv[0] == w@[0]@);
    let mut out = string_from(w[0].as_slice());
    if w.len() >= 2 {
        assert(wv[1] == w@[1]@);
        let is_flag = w[1].len() > 0 && w[1][0] == '-';
        if !is_flag {
            push_char(&mut out, ' ');
            let sub = string_from(w[1].as_slice());
            append_str(&mut out, sub.as_str());
        }
    }
    push_char(&mut out, ' ');
    out
}

/// The warning shown for a destructive command.
pub const DESTRUCTIVE_WARNING: &'static str = "destructive command — review carefully before approving";

/// `lc` (a lowercased command) matches a known-dangerous pattern.
pub open spec fn is_dangerous(lc: Seq<char>) -> bool {
    ||| has_infix(lc, "rm -rf"@)
    ||| has_infix(lc, "rm -fr"@)
    ||| has_infix(lc, "git push --force"@)
    ||| has_infix(lc, "git push -f"@)
    ||| has_infix(lc, " dd "@)
    ||| has_prefix(lc, "dd "@)
    ||| has_infix(lc, "mkfs"@)
    ||| has_infix(lc, ":(){"@)
    ||| has_infix(lc, "> /dev/sd"@)
    ||| has_infix(lc, "chmod -r 777"@)
    ||| has_infix(lc, "remove-item -recurse -force"@)
    ||| has_infix(lc, "format-volume"@)
}

fn has(lc: &[char], p: &str) -> (r: bool)
    ensures
        r == has_infix(lc@, p@),
{
    let pv = chars_of(p);
    contains(lc, pv.as_slice())
}

/// Flags destructive shell commands (`rm -rf`, forced pushes, raw `dd`,
/// `mkfs`, the fork bomb, raw block-device writes, recursive world-writable
/// `chmod`, and their PowerShell equivalents), matched on the lowercased
/// command.
pub fn destructive_warning(command: &str) -> (r: Option<String>)
    ensures
        r matches Some(w) ==> w@ == DESTRUCTIVE_WARNING@,
        r is Some <==> is_dangerous(lowercase(command@)),
{
    let lower = to_lowercase(command);
    let lc = chars_of(lower.as_str());
    let dd = chars_of("dd ");
    let danger = has(lc.as_slice(), "rm -rf")
        || has(lc.as_slice(), "rm -fr")
        || has(lc.as_slice(), "git push --force")
        || has(lc.as_slice(), "git push -f")
        || has(lc.as_slice(), " dd ")
        || starts_with(lc.as_slice(), dd.as_slice())
        || has(lc.as_slice(), "mkfs")
        || has(lc.as_slice(), ":(){")
        || has(lc.as_slice(), "> /dev/sd")
        || has(lc.as_slice(), "chmod -r 777")
        || has(lc.as_slice(), "remove-item -recurse -force")
        || has(lc.as_slice(), "format-volume");
    if danger {
        Some(owned(DESTRUCTIVE_WARNING))
    } else {
        None
    }
}

/// A flag token: one that starts with `-`.
pub open spec fn is_flag(t: Seq<char>) -> bool {
    t.len() > 0 && t[0] == '-'
}

/// The last token of `toks` that is not a flag.
pub open spec fn last_non_flag(toks: Seq<Seq<char>>) -> Option<Seq<char>>
    decreases toks.len(),
{
    if toks.len() == 0 {
        None
    } else if !is_flag(toks.last()) {
        Some(toks.last())
    } else {
        last_non_flag(toks.drop_last())
    }
}

/// The target file of an in-place `sed` (`sed -i …` or `sed -i.bak …`):
/// the last token that is not a flag.
pub open spec fn sed_target_of(command: Seq<char>) -> Option<Seq<char>> {
    let toks = words(command);
    if toks.len() == 0 || toks[0] != "sed"@ {
        None
    } else if !(exists|i: int| 0 <= i < toks.len() && has_prefix(#[trigger] toks[i], "-i"@)) {
        None
    } else {
        last_non_flag(toks)
    }
}

/// Detects an in-place `sed` edit and returns its target file.
pub fn is_sed_edit(command: &str) -> (r: Option<String>)
    ensures
        match r {
            Some(p) => sed_target_of(command@) == Some(p@),
            None => sed_target_of(command@) is None,
        },
{
    let cs = chars_of(command);
    let toks = split_whitespace(cs.as_slice());
    let ghost tv = toks@.map_values(|x: Vec<char>| x@);
    if toks.len() == 0 {
        return None;
    }
    assert(tv[0] == toks@[0]@);
    if !is_word(toks[0].as_slice(), "sed") {
        return None;
    }
    let dash_i = chars_of("-i");
    let mut found = false;
    let mut i: usize = 0;
    while i < toks.len()
        invariant
            i <= toks.len(),
            tv == toks@.map_values(|x: Vec<char>| x@),
            dash_i@ == "-i"@,
            found == (exists|j: int| 0 <= j < i && has_prefix(#[trigger] tv[j], "-i"@)),
        decreases toks.len() - i,
    {
        assert(tv[i as int] == toks@[i as int]@);
        if starts_with(toks[i].as_slice(), dash_i.as_slice()) {
            found = true;
        }
        i += 1;
    }
    if !found {
        return None;
    }
    let mut k: usize = toks.len();
    assert(tv.take(k as int) =~= tv);
    while k > 0 && toks[k - 1].len() > 0 && toks[k - 1][0] == '-'
        invariant
            k <= toks.len(),
            tv == toks@.map_values(|x: Vec<char>| x@),
            last_non_flag(tv) == last_non_flag(tv.take(k as int)),
        decreases k,
    {
        assert(tv[k - 1] == toks@[k - 1]@);
        assert(tv.take(k as int).drop_last() =~= tv.take(k - 1));
        k -= 1;
    }
    if k == 0 {
        assert(tv.take(0).len() == 0);
        None
    } else {
        assert(tv[k - 1] == toks@[k - 1]@);
        assert(tv.take(k as int).last() == tv[k - 1]);
        Some(string_from(toks[k - 1].as_slice()))
    }
}

} // verus!
