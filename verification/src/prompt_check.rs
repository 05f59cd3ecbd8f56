//! Deterministic vague-prompt detection.
//!
//! Seven signals, each a regular-expression rule. A prompt is challenged
//! only when at least two signals trip, the prompt is short (under 30
//! words) and it names no target. A leading `*`, `/` or `#`, the phrase
//! "ijfw off", a fenced code block or a prompt over 4000 bytes bypasses
//! the check entirely.

use vstd::prelude::*;
use crate::pattern::{pattern_hits, pattern_matches};
use crate::text::{
    append_str, chars_of, lowercase, owned, string_from, to_lowercase, trim, trim_chars,
    utf8_len, utf8_len_exceeds, word_count, words,
};

verus! {

/// One of the seven vagueness signals.
#[derive(Debug, Clone, Copy, PartialEq, Eq, Hash, Structural)]
pub enum Signal {
    BareVerb,
    UnresolvedAnaphora,
    AbstractGoal,
    NoTarget,
    ScopePlural,
    Polysemous,
    MissingConstraint,
}

/// The stable id of a signal.
pub open spec fn signal_id(s: Signal) -> Seq<char> {
    match s {
        Signal::BareVerb => "bare_verb"@,
        Signal::UnresolvedAnaphora => "unresolved_anaphora"@,
        Signal::AbstractGoal => "abstract_goal"@,
        Signal::NoTarget => "no_target"@,
        Signal::ScopePlural => "scope_plural"@,
        Signal::Polysemous => "polysemous"@,
        Signal::MissingConstraint => "missing_constraint"@,
    }
}

impl Signal {
    /// Stable string id, used for serialization and reporting.
    pub fn as_id(&self) -> (r: &'static str)
        ensures
            r@ == signal_id(*self),
    {
        match self {
            Signal::BareVerb => "bare_verb",
            Signal::UnresolvedAnaphora => "unresolved_anaphora",
            Signal::AbstractGoal => "abstract_goal",
            Signal::NoTarget => "no_target",
            Signal::ScopePlural => "scope_plural",
            Signal::Polysemous => "polysemous",
            Signal::MissingConstraint => "missing_constraint",
        }
    }
}

/// Why a prompt was bypassed (no signals computed).
#[derive(Debug, Clone, Copy, PartialEq, Eq, Structural)]
pub enum BypassReason {
    Empty,
    AsteriskPrefix,
    SlashCommand,
    MemorizePrefix,
    OverrideKeyword,
    LongPrompt,
    FencedCode,
}

/// The kebab-case name of a bypass reason.
pub open spec fn bypass_name(b: BypassReason) -> Seq<char> {
    match b {
        BypassReason::Empty => "empty"@,
        BypassReason::AsteriskPrefix => "asterisk-prefix"@,
        BypassReason::SlashCommand => "slash-command"@,
        BypassReason::MemorizePrefix => "memorize-prefix"@,
        BypassReason::OverrideKeyword => "override-keyword"@,
        BypassReason::LongPrompt => "long-prompt"@,
        BypassReason::FencedCode => "fenced-code"@,
    }
}

impl BypassReason {
    pub fn as_str(&self) -> (r: &'static str)
        ensures
            r@ == bypass_name(*self),
    {
        match self {
            BypassReason::Empty => "empty",
            BypassReason::AsteriskPrefix => "asterisk-prefix",
            BypassReason::SlashCommand => "slash-command",
            BypassReason::MemorizePrefix => "memorize-prefix",
            BypassReason::OverrideKeyword => "override-keyword",
            BypassReason::LongPrompt => "long-prompt",
            BypassReason::FencedCode => "fenced-code",
        }
    }
}

/// The result of [`check_prompt`].
#[derive(Debug, Clone)]
pub struct VaguenessReport {
    /// The prompt should be challenged (two or more signals, short, no target).
    pub vague: bool,
    /// Every rule that tripped, in canonical order.
    pub signals: Vec<Signal>,
    /// A positive-framed one-liner to surface.
    pub suggestion: String,
    /// At most three clarifying questions mapped from the signals.
    pub rewrite: Vec<String>,
    /// Set when the prompt was bypassed.
    pub bypass_reason: Option<BypassReason>,
}

impl VaguenessReport {
    /// The number of signals that tripped.
    pub fn score(&self) -> (r: usize)
        ensures
            r == self.signals@.len(),
    {
        self.signals.len()
    }
}

/// The canonical signal ids, in order.
pub const RULES: [&'static str; 7] = [
    "bare_verb",
    "unresolved_anaphora",
    "abstract_goal",
    "no_target",
    "scope_plural",
    "polysemous",
    "missing_constraint",
];

// The rules' patterns.

/// A bare imperative, on lowercased trimmed text.
pub const BARE_VERB: &'static str = r"^(fix|refactor|improve|clean\s*up|optimi[sz]e|update|review|check|test|debug|analy[sz]e|handle|sort\s*out|tidy)\b";
/// A sentence-leading anaphoric reference.
pub const ANAPHORA: &'static str = r"(?i)^(this|that|it|these|those|the\s+(bug|issue|file|code|function|error|problem))\b";
pub const ABSTRACT_WORD: &'static str = r"(?i)\b(better|cleaner|nicer|more\s+robust|production[\s\-]?ready|proper|correct|good|nice|right)\b";
pub const METRIC: &'static str = r"(?i)\d+\s*(ms|%|x|kb|mb|sec|s\b|tests?\b|users?\b)";
/// A file path such as `foo.rs` or `src/main.rs`.
pub const PATH: &'static str = r"[\w./\-]+\.\w{1,5}(\b|:)";
pub const LINE_NUMBER: &'static str = r":\d+";
pub const DIR_PREFIX: &'static str = r"(?i)\b(src|lib|app|tests?|spec|docs?)/";
/// snake_case, UpperCamelCase or lowerCamelCase identifiers.
pub const IDENTIFIER: &'static str = r"\b([a-z]+_[a-z][\w_]*|[A-Z][a-z]+[A-Z]\w*|[a-z]+[A-Z]\w*)\b";
pub const SCOPE_PLURAL: &'static str = r"(?i)\b(the\s+tests|all\s+the\s+(things|stuff|files)|everything|stuff|things)\b";
pub const POLYSEMOUS: &'static str = r"^(source|build|run|deploy|ship|release|setup|set\s*up)\.?\s*$";
pub const CONSTRAINT_WORD: &'static str = r"(?i)\b(must|should|when|if|until|without|only|always|never|except)\b";
pub const NUMBER: &'static str = r"\b\d+\b";
pub const FENCED_CODE: &'static str = r"(?m)^```";
pub const OVERRIDE_KEYWORD: &'static str = r"(?i)\bijfw\s+off\b";

/// Prompts longer than this many bytes bypass the check.
pub const LONG_PROMPT_BYTES: usize = 4000;

// --- bypass ---------------------------------------------------------------

/// Why `text` bypasses the check, if it does.
pub open spec fn bypass_of(text: Seq<char>) -> Option<BypassReason> {
    let t = trim(text);
    if t.len() == 0 {
        Some(BypassReason::Empty)
    } else if t[0] == '*' {
        Some(BypassReason::AsteriskPrefix)
    } else if t[0] == '/' {
        Some(BypassReason::SlashCommand)
    } else if t[0] == '#' {
        Some(BypassReason::MemorizePrefix)
    } else if pattern_hits(OVERRIDE_KEYWORD@, t) {
        Some(BypassReason::OverrideKeyword)
    } else if utf8_len(t) > LONG_PROMPT_BYTES {
        Some(BypassReason::LongPrompt)
    } else if pattern_hits(FENCED_CODE@, t) {
        Some(BypassReason::FencedCode)
    } else {
        None
    }
}

/// Why `text` bypasses the vagueness check, if it does.
pub fn bypass_reason(text: &str) -> (r: Option<BypassReason>)
    ensures
        r == bypass_of(text@),
{
    let tv = trim_chars(chars_of(text).as_slice());
    if tv.len() == 0 {
        return Some(BypassReason::Empty);
    }
    if tv[0] == '*' {
        return Some(BypassReason::AsteriskPrefix);
    }
    if tv[0] == '/' {
        return Some(BypassReason::SlashCommand);
    }
    if tv[0] == '#' {
        return Some(BypassReason::MemorizePrefix);
    }
    let t = string_from(tv.as_slice());
    if pattern_matches(OVERRIDE_KEYWORD, t.as_str()) {
        return Some(BypassReason::OverrideKeyword);
    }
    if utf8_len_exceeds(tv.as_slice(), LONG_PROMPT_BYTES) {
        return Some(BypassReason::LongPrompt);
    }
    if pattern_matches(FENCED_CODE, t.as_str()) {
        return Some(BypassReason::FencedCode);
    }
    None
}

// --- the rules ------------------------------------------------------------

pub open spec fn bare_verb_trips(text: Seq<char>) -> bool {
    let t = lowercase(trim(text));
    words(t).len() < 6 && pattern_hits(BARE_VERB@, t)
}

pub open spec fn anaphora_trips(text: Seq<char>) -> bool {
    pattern_hits(ANAPHORA@, trim(text))
}

pub open spec fn abstract_goal_trips(text: Seq<char>) -> bool {
    &&& pattern_hits(ABSTRACT_WORD@, text)
    &&& !pattern_hits(METRIC@, text)
    &&& !(pattern_hits(PATH@, text) || pattern_hits(DIR_PREFIX@, text))
}

pub open spec fn no_target_trips(text: Seq<char>) -> bool {
    &&& !pattern_hits(PATH@, text)
    &&& !pattern_hits(LINE_NUMBER@, text)
    &&& !pattern_hits(DIR_PREFIX@, text)
    &&& !pattern_hits(IDENTIFIER@, text)
}

pub open spec fn scope_plural_trips(text: Seq<char>) -> bool {
    pattern_hits(SCOPE_PLURAL@, text)
}

pub open spec fn polysemous_trips(text: Seq<char>) -> bool {
    pattern_hits(POLYSEMOUS@, lowercase(trim(text)))
}

pub open spec fn missing_constraint_trips(text: Seq<char>) -> bool {
    &&& words(text).len() >= 4
    &&& !pattern_hits(CONSTRAINT_WORD@, text)
    &&& !pattern_hits(NUMBER@, text)
}

/// `[s]` when `b`, else empty.
pub open spec fn when(b: bool, s: Signal) -> Seq<Signal> {
    if b { seq![s] } else { Seq::empty() }
}

/// The signals that trip on `text`, in canonical order.
pub open spec fn signals_of(text: Seq<char>) -> Seq<Signal> {
    when(bare_verb_trips(text), Signal::BareVerb)
        + when(anaphora_trips(text), Signal::UnresolvedAnaphora)
        + when(abstract_goal_trips(text), Signal::AbstractGoal)
        + when(no_target_trips(text), Signal::NoTarget)
        + when(scope_plural_trips(text), Signal::ScopePlural)
        + when(polysemous_trips(text), Signal::Polysemous)
        + when(missing_constraint_trips(text), Signal::MissingConstraint)
}

fn check_bare_verb(text: &str) -> (r: bool)
    ensures
        r == bare_verb_trips(text@),
{
    let trimmed = string_from(trim_chars(chars_of(text).as_slice()).as_slice());
    let t = to_lowercase(trimmed.as_str());
    let tokens = word_count(chars_of(t.as_str()).as_slice());
    if tokens >= 6 {
        return false;
    }
    pattern_matches(BARE_VERB, t.as_str())
}

fn check_unresolved_anaphora(text: &str) -> (r: bool)
    ensures
        r == anaphora_trips(text@),
{
    let t = string_from(trim_chars(chars_of(text).as_slice()).as_slice());
    pattern_matches(ANAPHORA, t.as_str())
}

/// An abstract goal ("better", "cleaner", ...) with no metric and no file
/// or directory reference.
pub fn check_abstract_goal(text: &str) -> (r: bool)
    ensures
        r == abstract_goal_trips(text@),
{
    if !pattern_matches(ABSTRACT_WORD, text) {
        return false;
    }
    if pattern_matches(METRIC, text) {
        return false;
    }
    if pattern_matches(PATH, text) || pattern_matches(DIR_PREFIX, text) {
        return false;
    }
    true
}

fn check_no_target(text: &str) -> (r: bool)
    ensures
        r == no_target_trips(text@),
{
    if pattern_matches(PATH, text) {
        return false;
    }
    if pattern_matches(LINE_NUMBER, text) {
        return false;
    }
    if pattern_matches(DIR_PREFIX, text) {
        return false;
    }
    if pattern_matches(IDENTIFIER, text) {
        return false;
    }
    true
}

fn check_scope_plural(text: &str) -> (r: bool)
    ensures
        r == scope_plural_trips(text@),
{
    pattern_matches(SCOPE_PLURAL, text)
}

fn check_polysemous(text: &str) -> (r: bool)
    ensures
        r == polysemous_trips(text@),
{
    let trimmed = string_from(trim_chars(chars_of(text).as_slice()).as_slice());
    let t = to_lowercase(trimmed.as_str());
    pattern_matches(POLYSEMOUS, t.as_str())
}

/// Four or more words with neither a constraint word nor a number.
pub fn check_missing_constraint(text: &str) -> (r: bool)
    ensures
        r == missing_constraint_trips(text@),
{
    let token_count = word_count(chars_of(text).as_slice());
    if token_count < 4 {
        return false;
    }
    let has_constraint = pattern_matches(CONSTRAINT_WORD, text);
    let has_number = pattern_matches(NUMBER, text);
    !has_constraint && !has_number
}

fn push_when(out: &mut Vec<Signal>, b: bool, s: Signal)
    ensures
        final(out)@ == old(out)@ + when(b, s),
{
    if b {
        out.push(s);
    } else {
        assert(old(out)@ + when(b, s) =~= old(out)@);
    }
}

fn run_rules(text: &str) -> (r: Vec<Signal>)
    ensures
        r@ == signals_of(text@),
{
    let mut out: Vec<Signal> = Vec::new();
    let ghost e = Seq::<Signal>::empty();
    assert(e + when(bare_verb_trips(text@), Signal::BareVerb) =~= when(bare_verb_trips(text@), Signal::BareVerb));
    push_when(&mut out, check_bare_verb(text), Signal::BareVerb);
    push_when(&mut out, check_unresolved_anaphora(text), Signal::UnresolvedAnaphora);
    push_when(&mut out, check_abstract_goal(text), Signal::AbstractGoal);
    push_when(&mut out, check_no_target(text), Signal::NoTarget);
    push_when(&mut out, check_scope_plural(text), Signal::ScopePlural);
    push_when(&mut out, check_polysemous(text), Signal::Polysemous);
    push_when(&mut out, check_missing_constraint(text), Signal::MissingConstraint);
    out
}

// --- the question pack ----------------------------------------------------

pub const QUESTION_TARGET: &'static str = "Which file, function, or line number is the target?";
pub const QUESTION_ANAPHORA: &'static str = "What does \"this/that\" refer to -- a file, a symptom, a prior message?";
pub const QUESTION_DONE: &'static str = "What specifically would \"done\" look like -- a metric, a test passing, or observable behavior?";
pub const QUESTION_SCOPE: &'static str = "Which of \"all the X\" -- do you want every instance, or a specific subset?";
pub const QUESTION_CONSTRAINTS: &'static str = "Any constraints I should respect -- don't touch X, must run in <Y ms, preserve behavior Z?";
pub const QUESTION_MEANING: &'static str = "Which meaning -- e.g. \"deploy\" could mean build, release, push, or run locally?";
pub const QUESTION_FALLBACK: &'static str = "What file, function, or acceptance criterion pins the target?";

/// How many clarifying questions a report carries at most.
pub const MAX_QUESTIONS: usize = 3;

/// The question a signal asks, by number (`0` to `5`).
pub open spec fn question_for(s: Signal) -> nat {
    match s {
        Signal::BareVerb | Signal::NoTarget => 0,
        Signal::UnresolvedAnaphora => 1,
        Signal::AbstractGoal => 2,
        Signal::ScopePlural => 3,
        Signal::MissingConstraint => 4,
        Signal::Polysemous => 5,
    }
}

/// The text of question `i`; `6` is the fallback.
pub open spec fn question_text(i: nat) -> Seq<char> {
    if i == 0 {
        QUESTION_TARGET@
    } else if i == 1 {
        QUESTION_ANAPHORA@
    } else if i == 2 {
        QUESTION_DONE@
    } else if i == 3 {
        QUESTION_SCOPE@
    } else if i == 4 {
        QUESTION_CONSTRAINTS@
    } else if i == 5 {
        QUESTION_MEANING@
    } else {
        QUESTION_FALLBACK@
    }
}

/// The distinct questions of `signals`, in order of first appearance,
/// at most three.
pub open spec fn distinct_questions(signals: Seq<Signal>) -> Seq<nat>
    decreases signals.len(),
{
    if signals.len() == 0 {
        Seq::empty()
    } else {
        let prev = distinct_questions(signals.drop_last());
        let q = question_for(signals.last());
        if prev.len() < MAX_QUESTIONS && !prev.contains(q) {
            prev.push(q)
        } else {
            prev
        }
    }
}

/// The questions asked for `signals`: the distinct ones, or the fallback
/// when there are none.
pub open spec fn question_pack(signals: Seq<Signal>) -> Seq<nat> {
    let qs = distinct_questions(signals);
    if qs.len() == 0 { seq![6nat] } else { qs }
}

proof fn lemma_distinct_questions_bounded(signals: Seq<Signal>)
    ensures
        distinct_questions(signals).len() <= MAX_QUESTIONS,
        forall|k: int| 0 <= k < distinct_questions(signals).len() ==> distinct_questions(signals)[k] <= 5,
    decreases signals.len(),
{
    if signals.len() > 0 {
        lemma_distinct_questions_bounded(signals.drop_last());
    }
}

fn question(i: usize) -> (r: String)
    requires
        i <= 6,
    ensures
        r@ == question_text(i as nat),
{
    if i == 0 {
        owned(QUESTION_TARGET)
    } else if i == 1 {
        owned(QUESTION_ANAPHORA)
    } else if i == 2 {
        owned(QUESTION_DONE)
    } else if i == 3 {
        owned(QUESTION_SCOPE)
    } else if i == 4 {
        owned(QUESTION_CONSTRAINTS)
    } else if i == 5 {
        owned(QUESTION_MEANING)
    } else {
        owned(QUESTION_FALLBACK)
    }
}

fn question_number(s: Signal) -> (r: usize)
    ensures
        r == question_for(s),
{
    match s {
        Signal::BareVerb | Signal::NoTarget => 0,
        Signal::UnresolvedAnaphora => 1,
        Signal::AbstractGoal => 2,
        Signal::ScopePlural => 3,
        Signal::MissingConstraint => 4,
        Signal::Polysemous => 5,
    }
}

fn contains_number(v: &Vec<usize>, x: usize) -> (r: bool)
    ensures
        r == v@.contains(x),
{
    let mut i: usize = 0;
    while i < v.len()
        invariant
            i <= v.len(),
            forall|k: int| 0 <= k < i ==> v@[k] != x,
        decreases v.len() - i,
    {
        if v[i] == x {
            return true;
        }
        i += 1;
    }
    false
}

/// The clarifying questions for `signals`.
fn build_question_pack(signals: &Vec<Signal>) -> (r: Vec<String>)
    ensures
        r@.map_values(|q: String| q@) == question_pack(signals@).map_values(|i: nat| question_text(i)),
{
    let mut ids: Vec<usize> = Vec::new();
    let mut i: usize = 0;
    while i < signals.len()
        invariant
            i <= signals.len(),
            ids@.map_values(|x: usize| x as nat) == distinct_questions(signals@.take(i as int)),
        decreases signals.len() - i,
    {
        proof {
            assert(signals@.take(i + 1).drop_last() =~= signals@.take(i as int));
            lemma_distinct_questions_bounded(signals@.take(i as int));
        }
        let q = question_number(signals[i]);
        let ghost before = ids@.map_values(|x: usize| x as nat);
        if ids.len() < MAX_QUESTIONS && !contains_number(&ids, q) {
            proof {
                assert(!before.contains(q as nat)) by {
                    if before.contains(q as nat) {
                        let k = choose|k: int| 0 <= k < before.len() && before[k] == q as nat;
                        assert(ids@[k] == q);
                    }
                }
            }
            ids.push(q);
            assert(ids@.map_values(|x: usize| x as nat) =~= before.push(q as nat));
        } else {
            proof {
                if ids.len() < MAX_QUESTIONS {
                    let k = choose|k: int| 0 <= k < ids@.len() && ids@[k] == q;
                    assert(before[k] == q as nat);
                }
            }
        }
        i += 1;
    }
    assert(signals@.take(signals.len() as int) =~= signals@);
    proof { lemma_distinct_questions_bounded(signals@); }
    let mut out: Vec<String> = Vec::new();
    if ids.len() == 0 {
        out.push(question(6));
        assert(out@.map_values(|q: String| q@) =~= question_pack(signals@).map_values(|i: nat| question_text(i)));
        return out;
    }
    let ghost qs = question_pack(signals@);
    let mut j: usize = 0;
    while j < ids.len()
        invariant
            j <= ids.len(),
            qs == ids@.map_values(|x: usize| x as nat),
            forall|k: int| 0 <= k < qs.len() ==> qs[k] <= 5,
            out@.map_values(|q: String| q@) == qs.take(j as int).map_values(|i: nat| question_text(i)),
        decreases ids.len() - j,
    {
        assert(qs[j as int] == ids@[j as int] as nat);
        let s = question(ids[j]);
        let ghost before = out@.map_values(|q: String| q@);
        out.push(s);
        assert(out@.map_values(|q: String| q@) =~= before.push(s@));
        assert(qs.take(j + 1).map_values(|i: nat| question_text(i))
            =~= qs.take(j as int).map_values(|i: nat| question_text(i)).push(question_text(qs[j as int])));
        j += 1;
    }
    assert(qs.take(ids.len() as int) =~= qs);
    out
}

// --- the report -----------------------------------------------------------

pub const SUGGEST_AIM: &'static str = "Sharpening your aim -- which file, function, or symbol? e.g. src/auth.py:145, getUserById, the failing test name.";
pub const SUGGEST_ANCHOR: &'static str = "Anchoring the reference -- which file or recent code do you mean?";
pub const SUGGEST_PIN: &'static str = "Pinning the target -- naming the file, symbol, or expected behavior will sharpen the edit.";

/// Prompts of this many words or more are never challenged.
pub const SHORT_PROMPT_WORDS: usize = 30;

/// A prompt with `signals` and `n` words is challenged: two or more
/// signals, under thirty words, and no target.
pub open spec fn vague_for(signals: Seq<Signal>, n: nat) -> bool {
    signals.len() >= 2 && n < SHORT_PROMPT_WORDS && signals.contains(Signal::NoTarget)
}

/// The one-line suggestion for `signals` (empty unless `vague`).
pub open spec fn suggestion_for(signals: Seq<Signal>, vague: bool) -> Seq<char> {
    if !vague {
        Seq::empty()
    } else if signals.contains(Signal::BareVerb) && signals.contains(Signal::NoTarget) {
        SUGGEST_AIM@
    } else if signals.contains(Signal::UnresolvedAnaphora) {
        SUGGEST_ANCHOR@
    } else {
        SUGGEST_PIN@
    }
}

/// The clarifying questions for `signals` (none unless `vague`).
pub open spec fn rewrite_for(signals: Seq<Signal>, vague: bool) -> Seq<Seq<char>> {
    if vague {
        question_pack(signals).map_values(|i: nat| question_text(i))
    } else {
        Seq::empty()
    }
}

/// `r` is the report for a prompt that was not bypassed, on which
/// `signals` tripped and which has `n` words.
pub open spec fn is_report_from(r: VaguenessReport, signals: Seq<Signal>, n: nat) -> bool {
    let vague = vague_for(signals, n);
    &&& r.vague == vague
    &&& r.signals@ == signals
    &&& r.suggestion@ == suggestion_for(signals, vague)
    &&& r.rewrite@.map_values(|q: String| q@) == rewrite_for(signals, vague)
    &&& r.bypass_reason == None::<BypassReason>
}

/// `r` is the report for `text`.
pub open spec fn is_report_for(r: VaguenessReport, text: Seq<char>) -> bool {
    match bypass_of(text) {
        Some(b) => {
            &&& !r.vague
            &&& r.signals@ == Seq::<Signal>::empty()
            &&& r.suggestion@ == Seq::<char>::empty()
            &&& r.rewrite@ == Seq::<String>::empty()
            &&& r.bypass_reason == Some(b)
        },
        None => is_report_from(r, signals_of(text), words(text).len()),
    }
}

fn contains_signal(v: &Vec<Signal>, s: Signal) -> (r: bool)
    ensures
        r == v@.contains(s),
{
    let mut i: usize = 0;
    while i < v.len()
        invariant
            i <= v.len(),
            forall|k: int| 0 <= k < i ==> v@[k] != s,
        decreases v.len() - i,
    {
        if v[i] == s {
            return true;
        }
        i += 1;
    }
    false
}

/// The report for a prompt that was not bypassed, on which `signals`
/// tripped and which has `word_count` words.
pub fn report_from_signals(signals: Vec<Signal>, word_count: usize) -> (r: VaguenessReport)
    ensures
        is_report_from(r, signals@, word_count as nat),
{
    let short = word_count < SHORT_PROMPT_WORDS;
    let no_target = contains_signal(&signals, Signal::NoTarget);
    let vague = signals.len() >= 2 && short && no_target;
    let suggestion = if vague {
        if contains_signal(&signals, Signal::BareVerb) && no_target {
            owned(SUGGEST_AIM)
        } else if contains_signal(&signals, Signal::UnresolvedAnaphora) {
            owned(SUGGEST_ANCHOR)
        } else {
            owned(SUGGEST_PIN)
        }
    } else {
        String::new()
    };
    let rewrite = if vague {
        build_question_pack(&signals)
    } else {
        let v: Vec<String> = Vec::new();
        assert(v@.map_values(|q: String| q@) =~= Seq::<Seq<char>>::empty());
        v
    };
    VaguenessReport { vague, signals, suggestion, rewrite, bypass_reason: None }
}

/// Runs the vagueness check on a prompt. When the prompt is bypassed no
/// rule is evaluated and the report is not vague.
pub fn check_prompt(text: &str) -> (r: VaguenessReport)
    ensures
        is_report_for(r, text@),
{
    if let Some(reason) = bypass_reason(text) {
        return VaguenessReport {
            vague: false,
            signals: Vec::new(),
            suggestion: String::new(),
            rewrite: Vec::new(),
            bypass_reason: Some(reason),
        };
    }
    let signals = run_rules(text);
    let token_count = word_count(chars_of(text).as_slice());
    report_from_signals(signals, token_count)
}

/// The signals in canonical order.
pub open spec fn canonical_signals() -> Seq<Signal> {
    seq![
        Signal::BareVerb,
        Signal::UnresolvedAnaphora,
        Signal::AbstractGoal,
        Signal::NoTarget,
        Signal::ScopePlural,
        Signal::Polysemous,
        Signal::MissingConstraint,
    ]
}

/// `RULES` lists the signal ids in canonical order.
pub proof fn law_rules_are_signal_ids()
    ensures
        RULES@.len() == canonical_signals().len(),
        forall|i: int| 0 <= i < RULES@.len() ==> (#[trigger] RULES@[i])@ == signal_id(canonical_signals()[i]),
{
}

/// A vague report carries at least two signals, one of them `NoTarget`,
/// no bypass reason, a suggestion, and between one and three questions.
pub proof fn law_vague_report_shape(r: VaguenessReport, text: Seq<char>)
    requires
        is_report_for(r, text),
        r.vague,
    ensures
        r.signals@.len() >= 2,
        r.signals@.contains(Signal::NoTarget),
        r.bypass_reason is None,
        r.suggestion@.len() > 0,
        1 <= r.rewrite@.len() <= MAX_QUESTIONS,
{
    let s = signals_of(text);
    lemma_distinct_questions_bounded(s);
    assert(r.rewrite@.map_values(|q: String| q@).len() == r.rewrite@.len());
    reveal_strlit("Sharpening your aim -- which file, function, or symbol? e.g. src/auth.py:145, getUserById, the failing test name.");
    reveal_strlit("Anchoring the reference -- which file or recent code do you mean?");
    reveal_strlit("Pinning the target -- naming the file, symbol, or expected behavior will sharpen the edit.");
}

/// A bypassed prompt is never vague and evaluates no rule.
pub proof fn law_bypass_is_silent(r: VaguenessReport, text: Seq<char>)
    requires
        is_report_for(r, text),
        bypass_of(text) is Some,
    ensures
        !r.vague,
        r.signals@.len() == 0,
        r.rewrite@.len() == 0,
        r.bypass_reason == bypass_of(text),
{
}

proof fn lemma_when_contains(b: bool, s: Signal, x: Signal)
    ensures
        (b && s == x) <==> when(b, s).contains(x),
{
    if b {
        assert(when(b, s)[0] == s);
    }
}

proof fn lemma_concat_contains(a: Seq<Signal>, b: Seq<Signal>, x: Signal)
    ensures
        (a + b).contains(x) <==> (a.contains(x) || b.contains(x)),
{
    if a.contains(x) {
        let i = choose|i: int| 0 <= i < a.len() && a[i] == x;
        assert((a + b)[i] == x);
    }
    if b.contains(x) {
        let i = choose|i: int| 0 <= i < b.len() && b[i] == x;
        assert((a + b)[a.len() + i] == x);
    }
    if (a + b).contains(x) {
        let i = choose|i: int| 0 <= i < (a + b).len() && (a + b)[i] == x;
        if i < a.len() {
            assert(a[i] == x);
        } else {
            assert(b[i - a.len()] == x);
        }
    }
}

proof fn lemma_no_target_signal(text: Seq<char>)
    ensures
        signals_of(text).contains(Signal::NoTarget) <==> no_target_trips(text),
{
    let x = Signal::NoTarget;
    let a = when(bare_verb_trips(text), Signal::BareVerb);
    let b = when(anaphora_trips(text), Signal::UnresolvedAnaphora);
    let c = when(abstract_goal_trips(text), Signal::AbstractGoal);
    let d = when(no_target_trips(text), Signal::NoTarget);
    let e = when(scope_plural_trips(text), Signal::ScopePlural);
    let f = when(polysemous_trips(text), Signal::Polysemous);
    let g = when(missing_constraint_trips(text), Signal::MissingConstraint);
    lemma_when_contains(bare_verb_trips(text), Signal::BareVerb, x);
    lemma_when_contains(anaphora_trips(text), Signal::UnresolvedAnaphora, x);
    lemma_when_contains(abstract_goal_trips(text), Signal::AbstractGoal, x);
    lemma_when_contains(no_target_trips(text), Signal::NoTarget, x);
    lemma_when_contains(scope_plural_trips(text), Signal::ScopePlural, x);
    lemma_when_contains(polysemous_trips(text), Signal::Polysemous, x);
    lemma_when_contains(missing_constraint_trips(text), Signal::MissingConstraint, x);
    lemma_concat_contains(a, b, x);
    lemma_concat_contains(a + b, c, x);
    lemma_concat_contains(a + b + c, d, x);
    lemma_concat_contains(a + b + c + d, e, x);
    lemma_concat_contains(a + b + c + d + e, f, x);
    lemma_concat_contains(a + b + c + d + e + f, g, x);
}

/// A prompt that names a target -- a file path, a `:line` reference, a
/// directory prefix such as `src/`, or a snake_case or camelCase
/// identifier -- never carries `NoTarget` and so is never reported vague.
pub proof fn law_named_target_is_never_vague(r: VaguenessReport, text: Seq<char>)
    requires
        is_report_for(r, text),
        pattern_hits(PATH@, text) || pattern_hits(LINE_NUMBER@, text)
            || pattern_hits(DIR_PREFIX@, text) || pattern_hits(IDENTIFIER@, text),
    ensures
        !r.signals@.contains(Signal::NoTarget),
        !r.vague,
{
    lemma_no_target_signal(text);
}

/// A prompt that is checked (not bypassed) and names no target carries
/// `NoTarget`.
pub proof fn law_unnamed_target_is_flagged(r: VaguenessReport, text: Seq<char>)
    requires
        is_report_for(r, text),
        bypass_of(text) is None,
        !pattern_hits(PATH@, text),
        !pattern_hits(LINE_NUMBER@, text),
        !pattern_hits(DIR_PREFIX@, text),
        !pattern_hits(IDENTIFIER@, text),
    ensures
        r.signals@.contains(Signal::NoTarget),
{
    lemma_no_target_signal(text);
}

} // verus!
