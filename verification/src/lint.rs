//! Commit message conventions: a gitmoji subject without a final period,
//! no semicolons, no internal milestone codes, `TypeScript` spelled out and
//! no version numbers; and repeated subjects across a range.

use vstd::prelude::*;

use crate::map::{join_lines, join_seq};
use crate::text::{
    append, chars_of, decimal, decimal_seq, ends_with_seq, eq_chars, has_char, lines, lines_seq, string_of, trim,
    trim_seq, views,
};
use crate::wrappers::{regex_compiles, regex_is_match, regex_matches, regex_new};

verus! {

/// One broken rule of one message.
#[derive(Debug)]
pub struct LintIssue {
    /// What the message belongs to (usually a short commit hash).
    pub label: String,
    /// The rule that is broken.
    pub detail: String,
}

impl LintIssue {
    pub open spec fn view_pair(&self) -> (Seq<char>, Seq<char>) {
        (self.label@, self.detail@)
    }
}

pub open spec fn issue_views(v: Seq<LintIssue>) -> Seq<(Seq<char>, Seq<char>)> {
    v.map_values(|i: LintIssue| i.view_pair())
}

/// The subject: the first line, trimmed (empty when there is no line).
pub open spec fn lint_subject(raw: Seq<char>) -> Seq<char> {
    let ls = lines_seq(raw);
    if ls.len() > 0 {
        trim_seq(ls[0])
    } else {
        Seq::empty()
    }
}

/// The body: the lines after the first, joined with `\n`, trimmed.
pub open spec fn lint_body(raw: Seq<char>) -> Seq<char> {
    let ls = lines_seq(raw);
    if ls.len() > 1 {
        trim_seq(join_seq(ls.subrange(1, ls.len() as int), seq!['\n']))
    } else {
        Seq::empty()
    }
}

/// Subject and body, separated by one line break when there is a body.
pub open spec fn lint_full(raw: Seq<char>) -> Seq<char> {
    if lint_body(raw).len() == 0 {
        lint_subject(raw)
    } else {
        lint_subject(raw) + seq!['\n'] + lint_body(raw)
    }
}

/// A subject must start with an emoji.
pub open spec fn gitmoji_pattern() -> Seq<char> {
    "^\\p{Extended_Pictographic}"@
}

/// Internal milestone codes such as `phase 2`, `m3` or `gate-1`.
pub open spec fn milestone_pattern() -> Seq<char> {
    "(?i)\\b(phase\\s*[-_]?\\s*\\d|m\\d|s\\d|a\\d|f\\d|gate[- ]?\\d)\\b"@
}

/// `TS` as a word of its own.
pub open spec fn bare_ts_pattern() -> Seq<char> {
    "\\bTS\\b"@
}

/// Version numbers of the form `0.x.y`.
pub open spec fn version_pattern() -> Seq<char> {
    "\\b0\\.\\d+\\.\\d+\\b"@
}

/// `pattern` compiles and matches somewhere in `s` (a pattern that
/// `regex` refuses matches nothing).
pub open spec fn pattern_hits(pattern: Seq<char>, s: Seq<char>) -> bool {
    regex_compiles(pattern) && regex_matches(pattern, s)
}

pub open spec fn when(c: bool, detail: Seq<char>) -> Seq<Seq<char>> {
    if c {
        seq![detail]
    } else {
        Seq::empty()
    }
}

/// The broken rules of `raw`, in the order they are checked.
pub open spec fn lint_details(raw: Seq<char>) -> Seq<Seq<char>> {
    let subject = lint_subject(raw);
    let full = lint_full(raw);
    if subject.len() == 0 {
        seq!["subject is empty"@]
    } else {
        when(!pattern_hits(gitmoji_pattern(), subject), "subject must start with a gitmoji character"@)
            + when(ends_with_seq(subject, seq!['.']), "subject must not end with a period"@)
            + when(has_char(full, ';') || has_char(full, '；'), "must not contain semicolons"@)
            + when(pattern_hits(milestone_pattern(), full), "must not contain internal milestone codes"@)
            + when(pattern_hits(bare_ts_pattern(), full), "write TypeScript in full instead of bare TS"@)
            + when(pattern_hits(version_pattern(), full), "avoid version numbers in commit messages"@)
    }
}

proof fn lemma_concat_contains(s: Seq<Seq<char>>, t: Seq<Seq<char>>, m: Seq<char>)
    ensures
        (s + t).contains(m) <==> s.contains(m) || t.contains(m),
{
    if (s + t).contains(m) {
        let i = choose|i: int| 0 <= i < (s + t).len() && (s + t)[i] == m;
        if i < s.len() {
            assert(s[i] == (s + t)[i]);
        } else {
            assert(t[i - s.len()] == (s + t)[i]);
        }
    }
    if s.contains(m) {
        let i = choose|i: int| 0 <= i < s.len() && s[i] == m;
        assert((s + t)[i] == s[i]);
    }
    if t.contains(m) {
        let i = choose|i: int| 0 <= i < t.len() && t[i] == m;
        assert((s + t)[i + s.len()] == t[i]);
    }
}

proof fn lemma_when_contains(c: bool, d: Seq<char>, m: Seq<char>)
    ensures
        self::when(c, d).contains(m) <==> c && d == m,
{
    if c {
        assert(when(c, d)[0] == d);
    }
}

/// The six rule messages differ from one another.
proof fn lemma_rule_messages_differ()
    ensures
        "subject must start with a gitmoji character"@ != "write TypeScript in full instead of bare TS"@,
        "subject must start with a gitmoji character"@.len() == 43,
        "subject must not end with a period"@.len() == 34,
        "must not contain semicolons"@.len() == 27,
        "must not contain internal milestone codes"@.len() == 41,
        "write TypeScript in full instead of bare TS"@.len() == 43,
        "avoid version numbers in commit messages"@.len() == 40,
{
    reveal_strlit("subject must start with a gitmoji character");
    reveal_strlit("subject must not end with a period");
    reveal_strlit("must not contain semicolons");
    reveal_strlit("must not contain internal milestone codes");
    reveal_strlit("write TypeScript in full instead of bare TS");
    reveal_strlit("avoid version numbers in commit messages");
    assert("subject must start with a gitmoji character"@[0] != "write TypeScript in full instead of bare TS"@[0]);
}

/// Which of the broken rules `lint_details(raw)` holds `m`: the first
/// two come from the subject, the other four from `whole`.
proof fn lemma_details_contain(raw: Seq<char>, m: Seq<char>)
    requires
        lint_subject(raw).len() > 0,
    ensures
        lint_details(raw).contains(m) <==> {
            let subject = lint_subject(raw);
            let full = lint_full(raw);
            ||| (!pattern_hits(gitmoji_pattern(), subject) && m == "subject must start with a gitmoji character"@)
            ||| (ends_with_seq(subject, seq!['.']) && m == "subject must not end with a period"@)
            ||| ((has_char(full, ';') || has_char(full, '；')) && m == "must not contain semicolons"@)
            ||| (pattern_hits(milestone_pattern(), full) && m == "must not contain internal milestone codes"@)
            ||| (pattern_hits(bare_ts_pattern(), full) && m == "write TypeScript in full instead of bare TS"@)
            ||| (pattern_hits(version_pattern(), full) && m == "avoid version numbers in commit messages"@)
        },
{
    let subject = lint_subject(raw);
    let full = lint_full(raw);
    let a = when(!pattern_hits(gitmoji_pattern(), subject), "subject must start with a gitmoji character"@);
    let b = when(ends_with_seq(subject, seq!['.']), "subject must not end with a period"@);
    let c = when(has_char(full, ';') || has_char(full, '；'), "must not contain semicolons"@);
    let d = when(pattern_hits(milestone_pattern(), full), "must not contain internal milestone codes"@);
    let e = when(pattern_hits(bare_ts_pattern(), full), "write TypeScript in full instead of bare TS"@);
    let f = when(pattern_hits(version_pattern(), full), "avoid version numbers in commit messages"@);
    lemma_concat_contains(a, b, m);
    lemma_concat_contains(a + b, c, m);
    lemma_concat_contains(a + b + c, d, m);
    lemma_concat_contains(a + b + c + d, e, m);
    lemma_concat_contains(a + b + c + d + e, f, m);
    lemma_when_contains(!pattern_hits(gitmoji_pattern(), subject), "subject must start with a gitmoji character"@, m);
    lemma_when_contains(ends_with_seq(subject, seq!['.']), "subject must not end with a period"@, m);
    lemma_when_contains(has_char(full, ';') || has_char(full, '；'), "must not contain semicolons"@, m);
    lemma_when_contains(pattern_hits(milestone_pattern(), full), "must not contain internal milestone codes"@, m);
    lemma_when_contains(pattern_hits(bare_ts_pattern(), full), "write TypeScript in full instead of bare TS"@, m);
    lemma_when_contains(pattern_hits(version_pattern(), full), "avoid version numbers in commit messages"@, m);
}

/// The content rules read the whole message. For a message with a subject
/// and a body, the semicolon, milestone, bare-`TS` and version issues are
/// reported exactly when the rule is broken somewhere in the subject, a
/// line break and the body; a semicolon in the body alone is reported.
/// Without a body, the same rules read the subject.
pub proof fn content_rules_read_subject_and_body(raw: Seq<char>)
    requires
        lint_subject(raw).len() > 0,
    ensures
        ({
            let subject = lint_subject(raw);
            let body = lint_body(raw);
            let whole = if body.len() == 0 {
                subject
            } else {
                subject + seq!['\n'] + body
            };
            &&& lint_details(raw).contains("must not contain semicolons"@) <==> (has_char(whole, ';') || has_char(
                whole,
                '；',
            ))
            &&& lint_details(raw).contains("must not contain internal milestone codes"@) <==> pattern_hits(
                milestone_pattern(),
                whole,
            )
            &&& lint_details(raw).contains("write TypeScript in full instead of bare TS"@) <==> pattern_hits(
                bare_ts_pattern(),
                whole,
            )
            &&& lint_details(raw).contains("avoid version numbers in commit messages"@) <==> pattern_hits(
                version_pattern(),
                whole,
            )
            &&& (has_char(body, ';') || has_char(body, '；')) ==> lint_details(raw).contains(
                "must not contain semicolons"@,
            )
        }),
{
    let subject = lint_subject(raw);
    let body = lint_body(raw);
    lemma_rule_messages_differ();
    lemma_details_contain(raw, "must not contain semicolons"@);
    lemma_details_contain(raw, "must not contain internal milestone codes"@);
    lemma_details_contain(raw, "write TypeScript in full instead of bare TS"@);
    lemma_details_contain(raw, "avoid version numbers in commit messages"@);
    if body.len() > 0 {
        let whole = subject + seq!['\n'] + body;
        if has_char(body, ';') {
            let j = choose|j: int| 0 <= j < body.len() && body[j] == ';';
            assert(whole[subject.len() + 1 + j] == body[j]);
        }
        if has_char(body, '；') {
            let j = choose|j: int| 0 <= j < body.len() && body[j] == '；';
            assert(whole[subject.len() + 1 + j] == body[j]);
        }
    }
}

/// Every detail paired with `label`.
pub open spec fn labelled(label: Seq<char>, details: Seq<Seq<char>>) -> Seq<(Seq<char>, Seq<char>)> {
    details.map_values(|d: Seq<char>| (label, d))
}

fn push_issue(v: &mut Vec<LintIssue>, cond: bool, label: &str, detail: &str)
    ensures
        issue_views(final(v)@) == issue_views(old(v)@) + labelled(label@, when(cond, detail@)),
{
    let ghost before = v@;
    if cond {
        v.push(LintIssue { label: string_of(&chars_of(label)), detail: string_of(&chars_of(detail)) });
        assert(issue_views(v@) =~= issue_views(before) + labelled(label@, when(cond, detail@)));
    } else {
        assert(issue_views(v@) =~= issue_views(before) + labelled(label@, when(cond, detail@)));
    }
}

proof fn lemma_labelled_concat(label: Seq<char>, a: Seq<Seq<char>>, b: Seq<Seq<char>>)
    ensures
        labelled(label, a + b) == labelled(label, a) + labelled(label, b),
{
    assert(labelled(label, a + b) =~= labelled(label, a) + labelled(label, b));
}

fn subject_and_full(raw: &str) -> (r: (Vec<char>, Vec<char>))
    ensures
        r.0@ == lint_subject(raw@),
        r.1@ == lint_full(raw@),
{
    let ls = lines(&chars_of(raw));
    let subject = if ls.len() > 0 {
        trim(&ls[0])
    } else {
        Vec::new()
    };
    let body = if ls.len() > 1 {
        trim(&join_lines(&ls, 1))
    } else {
        Vec::new()
    };
    proof {
        if ls@.len() > 0 {
            assert(views(ls@)[0] == ls@[0]@);
        }
    }
    if body.len() == 0 {
        let full = copy_of(&subject);
        (subject, full)
    } else {
        let mut full = copy_of(&subject);
        full.push('\n');
        append(&mut full, &body);
        (subject, full)
    }
}

fn copy_of(v: &Vec<char>) -> (r: Vec<char>)
    ensures
        r@ == v@,
{
    crate::text::copy_chars(v)
}

/// Whether `pattern` compiles and matches somewhere in `s`.
fn hits(pattern: &str, s: &str) -> (r: bool)
    ensures
        r == pattern_hits(pattern@, s@),
{
    match regex_new(pattern) {
        Some(re) => regex_is_match(&re, s),
        None => false,
    }
}

/// Checks `raw` against the conventions: an empty subject is reported
/// alone; otherwise each broken rule once, in the order of
/// [`lint_details`], each issue carrying `label`.
pub fn lint_message(raw: &str, label: &str) -> (r: Vec<LintIssue>)
    ensures
        issue_views(r@) == labelled(label@, lint_details(raw@)),
{
    let mut issues: Vec<LintIssue> = Vec::new();
    let (subject, full) = subject_and_full(raw);
    if subject.len() == 0 {
        push_issue(&mut issues, true, label, "subject is empty");
        return issues;
    }
    let subject_s = string_of(&subject);
    let full_s = string_of(&full);
    let gitmoji = hits("^\\p{Extended_Pictographic}", subject_s.as_str());
    push_issue(&mut issues, !gitmoji, label, "subject must start with a gitmoji character");
    let n = subject.len();
    let period = n > 0 && subject[n - 1] == '.';
    proof {
        assert(period == ends_with_seq(subject@, seq!['.'])) by {
            if n > 0 {
                assert(subject@.subrange(n - 1, n as int) =~= seq![subject@[n - 1]]);
                if subject@.subrange(subject@.len() - 1, subject@.len() as int) == seq!['.'] {
                    assert(subject@[n - 1] == seq!['.'][0]);
                }
            }
        }
    }
    push_issue(&mut issues, period, label, "subject must not end with a period");
    let semi = crate::text::contains_char(&full, ';') || crate::text::contains_char(&full, '；');
    push_issue(&mut issues, semi, label, "must not contain semicolons");
    let milestone = hits("(?i)\\b(phase\\s*[-_]?\\s*\\d|m\\d|s\\d|a\\d|f\\d|gate[- ]?\\d)\\b", full_s.as_str());
    push_issue(&mut issues, milestone, label, "must not contain internal milestone codes");
    let bare_ts = hits("\\bTS\\b", full_s.as_str());
    push_issue(&mut issues, bare_ts, label, "write TypeScript in full instead of bare TS");
    let version = hits("\\b0\\.\\d+\\.\\d+\\b", full_s.as_str());
    push_issue(&mut issues, version, label, "avoid version numbers in commit messages");
    proof {
        let subject_v = lint_subject(raw@);
        let full_v = lint_full(raw@);
        let a = when(!pattern_hits(gitmoji_pattern(), subject_v), "subject must start with a gitmoji character"@);
        let b = when(ends_with_seq(subject_v, seq!['.']), "subject must not end with a period"@);
        let c = when(has_char(full_v, ';') || has_char(full_v, '；'), "must not contain semicolons"@);
        let d = when(pattern_hits(milestone_pattern(), full_v), "must not contain internal milestone codes"@);
        let e = when(pattern_hits(bare_ts_pattern(), full_v), "write TypeScript in full instead of bare TS"@);
        let f = when(pattern_hits(version_pattern(), full_v), "avoid version numbers in commit messages"@);
        lemma_labelled_concat(label@, a, b);
        lemma_labelled_concat(label@, a + b, c);
        lemma_labelled_concat(label@, a + b + c, d);
        lemma_labelled_concat(label@, a + b + c + d, e);
        lemma_labelled_concat(label@, a + b + c + d + e, f);
        assert(issue_views(Seq::<LintIssue>::empty()) =~= Seq::empty());
    }
    issues
}

/// Number of times `x` occurs among the first `n` elements of `s`.
pub open spec fn count_upto(s: Seq<Seq<char>>, x: Seq<char>, n: int) -> nat
    decreases n,
{
    if n <= 0 {
        0
    } else {
        count_upto(s, x, n - 1) + if s[n - 1] == x {
            1nat
        } else {
            0nat
        }
    }
}

/// The element at `i` does not occur before `i`.
pub open spec fn first_occurrence(s: Seq<Seq<char>>, i: int) -> bool {
    forall|j: int| 0 <= j < i ==> s[j] != s[i]
}

/// The report line for a subject that occurs `count` times.
pub open spec fn duplicate_line(count: nat, subject: Seq<char>) -> Seq<char> {
    "duplicate subject ("@ + decimal_seq(count) + "x): "@ + subject
}

/// One line per subject that occurs more than once, taken at its first
/// occurrence among the first `n` subjects, in order.
pub open spec fn duplicate_lines_upto(s: Seq<Seq<char>>, n: int) -> Seq<Seq<char>>
    decreases n,
{
    if n <= 0 {
        Seq::empty()
    } else {
        let prev = duplicate_lines_upto(s, n - 1);
        let x = s[n - 1];
        if first_occurrence(s, n - 1) && count_upto(s, x, s.len() as int) > 1 {
            prev.push(duplicate_line(count_upto(s, x, s.len() as int), x))
        } else {
            prev
        }
    }
}

/// The subjects of `(hash, subject)` pairs.
pub open spec fn subjects_of(pairs: Seq<(String, String)>) -> Seq<Seq<char>> {
    pairs.map_values(|p: (String, String)| p.1@)
}

pub open spec fn string_views(v: Seq<String>) -> Seq<Seq<char>> {
    v.map_values(|s: String| s@)
}

fn count_subject(subjects: &Vec<Vec<char>>, x: &Vec<char>) -> (r: usize)
    ensures
        r == count_upto(views(subjects@), x@, subjects@.len() as int),
{
    let mut c: usize = 0;
    let mut i: usize = 0;
    while i < subjects.len()
        invariant
            i <= subjects@.len(),
            c == count_upto(views(subjects@), x@, i as int),
            c <= i,
        decreases subjects@.len() - i,
    {
        assert(views(subjects@)[i as int] == subjects@[i as int]@);
        if eq_chars(&subjects[i], x) {
            c = c + 1;
        }
        i = i + 1;
    }
    c
}

fn seen_before(subjects: &Vec<Vec<char>>, i: usize) -> (r: bool)
    requires
        i < subjects@.len(),
    ensures
        r == !first_occurrence(views(subjects@), i as int),
{
    let mut j: usize = 0;
    while j < i
        invariant
            i < subjects@.len(),
            j <= i,
            forall|k: int| 0 <= k < j ==> views(subjects@)[k] != views(subjects@)[i as int],
        decreases i - j,
    {
        assert(views(subjects@)[j as int] == subjects@[j as int]@);
        assert(views(subjects@)[i as int] == subjects@[i as int]@);
        if eq_chars(&subjects[j], &subjects[i]) {
            return true;
        }
        j = j + 1;
    }
    false
}

/// One line `duplicate subject (Nx): S` for each subject `S` that occurs
/// `N > 1` times among the `(hash, subject)` pairs, in the order of first
/// occurrence.
pub fn duplicate_subjects(subjects: &Vec<(String, String)>) -> (r: Vec<String>)
    ensures
        string_views(r@) == duplicate_lines_upto(subjects_of(subjects@), subjects@.len() as int),
{
    let mut texts: Vec<Vec<char>> = Vec::new();
    let mut i: usize = 0;
    while i < subjects.len()
        invariant
            i <= subjects@.len(),
            views(texts@) == subjects_of(subjects@).subrange(0, i as int),
        decreases subjects@.len() - i,
    {
        let ghost before = texts@;
        texts.push(chars_of(subjects[i].1.as_str()));
        assert(views(texts@) =~= views(before).push(subjects@[i as int].1@));
        assert(subjects_of(subjects@).subrange(0, i + 1) =~= subjects_of(subjects@).subrange(0, i as int).push(
            subjects@[i as int].1@,
        ));
        i = i + 1;
    }
    assert(views(texts@) =~= subjects_of(subjects@));
    let mut out: Vec<String> = Vec::new();
    let mut k: usize = 0;
    while k < texts.len()
        invariant
            k <= texts@.len(),
            views(texts@) == subjects_of(subjects@),
            texts@.len() == subjects@.len(),
            string_views(out@) == duplicate_lines_upto(views(texts@), k as int),
        decreases texts@.len() - k,
    {
        let ghost s = views(texts@);
        if !seen_before(&texts, k) {
            let c = count_subject(&texts, &texts[k]);
            assert(s[k as int] == texts@[k as int]@);
            if c > 1 {
                let mut line = chars_of("duplicate subject (");
                append(&mut line, &decimal(c as u64));
                append(&mut line, &chars_of("x): "));
                append(&mut line, &texts[k]);
                let ghost before = out@;
                out.push(string_of(&line));
                assert(string_views(out@) =~= string_views(before).push(line@));
            }
        }
        k = k + 1;
    }
    out
}

} // verus!
