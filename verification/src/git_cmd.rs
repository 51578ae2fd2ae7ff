//! Release ranges from version tags, and the records read from `git log`.
//!
//! Running `git` is left to the caller: these functions take what the
//! commands print and say which commands to run.

use vstd::prelude::*;

use crate::gitmoji::{
    leading_gitmoji, leading_gitmoji_spec, section_for_gitmoji, section_spec, strip_gitmoji,
    strip_gitmoji_spec, Section,
};
use crate::text::{
    chars_of, decimal, decimal_seq, ends_with_seq, has_char, is_hex_digit, lines_seq, parse_uint_seq,
    split_seq, starts_with_seq, string_of, trim_end_seq, trim_seq, views,
};
use crate::wrappers::{opt_views, regex_captures, regex_compiles};

verus! {

/// One commit as `git log --format=%H%x1f%ae%x1f%an%x1f%s` prints it.
#[derive(Debug)]
pub struct CommitEntry {
    /// Full commit hash.
    pub hash: String,
    /// Author email.
    pub email: String,
    /// Author name.
    pub author: String,
    /// Subject line.
    pub subject: String,
    /// Subject with its gitmoji stripped.
    pub body: String,
    /// Leading gitmoji, if any.
    pub gitmoji: Option<&'static str>,
    /// Release section the gitmoji selects.
    pub section: Section,
}

/// `s.trim_start_matches(c)`.
pub open spec fn trim_start_char(s: Seq<char>, c: char) -> Seq<char>
    decreases s.len(),
{
    if s.len() > 0 && s[0] == c {
        trim_start_char(s.drop_first(), c)
    } else {
        s
    }
}

/// `s.trim_end_matches(p)` for a non-empty `p`.
pub open spec fn trim_end_pat(s: Seq<char>, p: Seq<char>) -> Seq<char>
    decreases s.len(),
{
    if p.len() > 0 && ends_with_seq(s, p) {
        trim_end_pat(s.subrange(0, s.len() - p.len()), p)
    } else {
        s
    }
}

/// The version without its leading `v`s.
pub open spec fn normalize_version_spec(v: Seq<char>) -> Seq<char> {
    trim_start_char(v, 'v')
}

/// The tag of a version: `v` and the normalised version.
pub open spec fn version_tag_spec(v: Seq<char>) -> Seq<char> {
    seq!['v'] + normalize_version_spec(v)
}

/// The lines of a command's output once trailing white space is dropped.
pub open spec fn output_lines(stdout: Seq<char>) -> Seq<Seq<char>> {
    lines_seq(trim_end_seq(stdout))
}

pub(crate) fn trim_start_char_exec(v: &[char], c: char) -> (r: Vec<char>)
    ensures
        r@ == trim_start_char(v@, c),
{
    let mut i: usize = 0;
    assert(v@.subrange(0, v@.len() as int) == v@);
    while i < v.len() && v[i] == c
        invariant
            i <= v@.len(),
            trim_start_char(v@, c) == trim_start_char(v@.subrange(i as int, v@.len() as int), c),
        decreases v@.len() - i,
    {
        assert(v@.subrange(i as int, v@.len() as int).drop_first() == v@.subrange(i + 1, v@.len() as int));
        i = i + 1;
    }
    crate::text::slice_chars(v, i, v.len())
}

fn trim_end_pat_exec(v: &[char], p: &[char]) -> (r: Vec<char>)
    requires
        p@.len() > 0,
    ensures
        r@ == trim_end_pat(v@, p@),
{
    let mut end: usize = v.len();
    assert(v@.subrange(0, v@.len() as int) == v@);
    loop
        invariant
            end <= v@.len(),
            p@.len() > 0,
            trim_end_pat(v@, p@) == trim_end_pat(v@.subrange(0, end as int), p@),
        decreases end,
    {
        let cur = crate::text::slice_chars(v, 0, end);
        if crate::text::ends_with(&cur, p) {
            assert(cur@.subrange(0, cur@.len() - p@.len()) == v@.subrange(0, end - p@.len()));
            end = end - p.len();
        } else {
            return cur;
        }
    }
}

/// Lines of `git tag -l v* --sort=version:refname` output.
pub fn list_version_tags(stdout: &str) -> (r: Vec<String>)
    ensures
        r@.map_values(|s: String| s@) == output_lines(stdout@),
{
    let out = crate::text::trim_end(&chars_of(stdout));
    let ls = crate::text::lines(&out);
    let mut r: Vec<String> = Vec::new();
    let mut i: usize = 0;
    while i < ls.len()
        invariant
            i <= ls@.len(),
            views(ls@) == output_lines(stdout@),
            r@.map_values(|s: String| s@) == views(ls@).subrange(0, i as int),
        decreases ls@.len() - i,
    {
        let ghost prev = r@;
        r.push(string_of(&ls[i]));
        assert(r@.map_values(|s: String| s@) == prev.map_values(|s: String| s@).push(ls@[i as int]@));
        assert(views(ls@).subrange(0, i + 1) == views(ls@).subrange(0, i as int).push(ls@[i as int]@));
        i = i + 1;
    }
    assert(views(ls@).subrange(0, ls@.len() as int) == views(ls@));
    r
}

/// The revision that `git rev-parse --verify` must resolve for `reference`
/// to be a commit: `<reference>^{commit}`.
pub fn verify_commit_ref(reference: &str) -> (r: String)
    ensures
        r@ == reference@ + "^{commit}"@,
{
    let mut v = chars_of(reference);
    crate::text::append(&mut v, &chars_of("^{commit}"));
    string_of(&v)
}

/// The version without its optional leading `v` (every leading `v` goes).
pub fn normalize_version(version: &str) -> (r: String)
    ensures
        r@ == normalize_version_spec(version@),
{
    string_of(&trim_start_char_exec(&chars_of(version), 'v'))
}

/// The `vX.Y.Z` tag of a version.
pub fn version_tag(version: &str) -> (r: String)
    ensures
        r@ == version_tag_spec(version@),
{
    let mut v: Vec<char> = Vec::new();
    v.push('v');
    crate::text::append(&mut v, &trim_start_char_exec(&chars_of(version), 'v'));
    string_of(&v)
}

/// Index of the first tag equal to `t`.
pub open spec fn tag_position(tags: Seq<String>, t: Seq<char>, n: nat) -> Option<int>
    decreases n,
{
    if n == 0 {
        None
    } else {
        match tag_position(tags, t, (n - 1) as nat) {
            Some(i) => Some(i),
            None => if tags[n - 1]@ == t {
                Some(n - 1)
            } else {
                None
            },
        }
    }
}

/// The patch-release guess: for `X.Y.Z` with `Z > 0`, the tag `vX.Y.(Z-1)`.
pub open spec fn patch_predecessor(normalized: Seq<char>) -> Option<Seq<char>> {
    let parts = split_seq(normalized, seq!['.']);
    if parts.len() != 3 {
        None
    } else {
        match (
            parse_uint_seq(parts[0], u32::MAX as nat),
            parse_uint_seq(parts[1], u32::MAX as nat),
            parse_uint_seq(parts[2], u32::MAX as nat),
        ) {
            (Some(a), Some(b), Some(c)) => if c > 0 {
                Some(seq!['v'] + decimal_seq(a) + seq!['.'] + decimal_seq(b) + seq!['.'] + decimal_seq(
                    (c - 1) as nat,
                ))
            } else {
                None
            },
            _ => None,
        }
    }
}

/// The tag before `version`: the tag listed just before its own tag, or,
/// when its tag is not listed, `vX.Y.(Z-1)` if that is listed.
pub open spec fn previous_tag_spec(tags: Seq<String>, version: Seq<char>) -> Option<Seq<char>> {
    match tag_position(tags, version_tag_spec(version), tags.len()) {
        Some(i) => if i > 0 {
            Some(tags[i - 1]@)
        } else {
            None
        },
        None => match patch_predecessor(normalize_version_spec(version)) {
            Some(t) => if tag_position(tags, t, tags.len()) is Some {
                Some(t)
            } else {
                None
            },
            None => None,
        },
    }
}

proof fn lemma_tag_position(tags: Seq<String>, t: Seq<char>, n: nat)
    requires
        n <= tags.len(),
    ensures
        tag_position(tags, t, n) matches Some(i) ==> 0 <= i < n && tags[i]@ == t,
        tag_position(tags, t, n) is None ==> forall|j: int| 0 <= j < n ==> tags[j]@ != t,
    decreases n,
{
    if n > 0 {
        lemma_tag_position(tags, t, (n - 1) as nat);
    }
}

fn find_tag(tags: &Vec<String>, t: &[char]) -> (r: Option<usize>)
    ensures
        match r {
            Some(i) => tag_position(tags@, t@, tags@.len()) == Some(i as int) && i < tags@.len(),
            None => tag_position(tags@, t@, tags@.len()) is None,
        },
{
    let mut i: usize = 0;
    while i < tags.len()
        invariant
            i <= tags@.len(),
            tag_position(tags@, t@, i as nat) is None,
        decreases tags@.len() - i,
    {
        if crate::text::eq_chars(&chars_of(tags[i].as_str()), t) {
            proof {
                assert(tag_position(tags@, t@, (i + 1) as nat) == Some(i as int));
                lemma_tag_position_extends(tags@, t@, (i + 1) as nat, tags@.len());
            }
            return Some(i);
        }
        i = i + 1;
    }
    None
}

proof fn lemma_tag_position_extends(tags: Seq<String>, t: Seq<char>, m: nat, n: nat)
    requires
        m <= n <= tags.len(),
        tag_position(tags, t, m) is Some,
    ensures
        tag_position(tags, t, n) == tag_position(tags, t, m),
    decreases n - m,
{
    if m < n {
        lemma_tag_position_extends(tags, t, m, (n - 1) as nat);
    }
}

fn patch_predecessor_exec(normalized: &[char]) -> (r: Option<Vec<char>>)
    ensures
        match r {
            Some(t) => patch_predecessor(normalized@) == Some(t@),
            None => patch_predecessor(normalized@) is None,
        },
{
    let mut dot: Vec<char> = Vec::new();
    dot.push('.');
    assert(dot@ == seq!['.']);
    let parts = crate::text::split(normalized, &dot);
    assert(views(parts@).len() == parts@.len());
    if parts.len() != 3 {
        return None;
    }
    assert(views(parts@)[0] == parts@[0]@);
    assert(views(parts@)[1] == parts@[1]@);
    assert(views(parts@)[2] == parts@[2]@);
    let a = crate::author::parse_uint(&parts[0], 4294967295u64);
    let b = crate::author::parse_uint(&parts[1], 4294967295u64);
    let c = crate::author::parse_uint(&parts[2], 4294967295u64);
    match (a, b, c) {
        (Some(a), Some(b), Some(c)) => {
            if c > 0 {
                let mut t: Vec<char> = Vec::new();
                t.push('v');
                crate::text::append(&mut t, &decimal(a));
                t.push('.');
                crate::text::append(&mut t, &decimal(b));
                t.push('.');
                crate::text::append(&mut t, &decimal(c - 1));
                Some(t)
            } else {
                None
            }
        },
        _ => None,
    }
}

/// The `v*` tag before `version` among the listed tags.
pub fn previous_version_tag(tags: &Vec<String>, version: &str) -> (r: Option<String>)
    ensures
        match r {
            Some(t) => previous_tag_spec(tags@, version@) == Some(t@),
            None => previous_tag_spec(tags@, version@) is None,
        },
{
    let target = version_tag(version);
    let target_chars = chars_of(target.as_str());
    match find_tag(tags, &target_chars) {
        Some(i) => {
            if i > 0 {
                Some(string_of(&chars_of(tags[i - 1].as_str())))
            } else {
                None
            }
        },
        None => {
            let normalized = trim_start_char_exec(&chars_of(version), 'v');
            match patch_predecessor_exec(&normalized) {
                Some(t) => match find_tag(tags, &t) {
                    Some(_) => Some(string_of(&t)),
                    None => None,
                },
                None => None,
            }
        },
    }
}

/// Lines `<tag>\t<short hash>` joined by newlines, or `(no v* tags)`.
pub open spec fn tag_list_spec(tags: Seq<String>, shorts: Seq<String>, n: nat) -> Seq<char>
    decreases n,
{
    if n == 0 {
        Seq::empty()
    } else if n == 1 {
        tags[0]@ + seq!['\t'] + shorts[0]@
    } else {
        tag_list_spec(tags, shorts, (n - 1) as nat) + seq!['\n'] + tags[n - 1]@ + seq!['\t'] + shorts[n
            - 1]@
    }
}

/// The `--tags` listing: each tag with its short hash (`shorts[i]` is what
/// `git rev-parse --short` printed for `tags[i]`).
pub fn format_tag_list(tags: &Vec<String>, shorts: &Vec<String>) -> (r: String)
    requires
        shorts@.len() == tags@.len(),
    ensures
        tags@.len() == 0 ==> r@ == "(no v* tags)"@,
        tags@.len() > 0 ==> r@ == tag_list_spec(tags@, shorts@, tags@.len()),
{
    if tags.len() == 0 {
        return string_of(&chars_of("(no v* tags)"));
    }
    let mut out: Vec<char> = Vec::new();
    let mut i: usize = 0;
    while i < tags.len()
        invariant
            shorts@.len() == tags@.len(),
            i <= tags@.len(),
            out@ == tag_list_spec(tags@, shorts@, i as nat),
        decreases tags@.len() - i,
    {
        if i > 0 {
            out.push('\n');
        }
        crate::text::append(&mut out, &chars_of(tags[i].as_str()));
        out.push('\t');
        crate::text::append(&mut out, &chars_of(shorts[i].as_str()));
        i = i + 1;
    }
    string_of(&out)
}

/// The revision range `from..to`, or `to` alone.
pub open spec fn range_spec(from: Option<Seq<char>>, to: Seq<char>) -> Seq<char> {
    match from {
        Some(f) => f + ".."@ + to,
        None => to,
    }
}

/// The revision range given to `git log`: `from..to`, or `to` alone.
pub fn commit_range(from: Option<&str>, to: &str) -> (r: String)
    ensures
        r@ == range_spec(match from {
            Some(f) => Some(f@),
            None => None,
        }, to@),
{
    match from {
        Some(f) => {
            let mut v = chars_of(f);
            crate::text::append(&mut v, &chars_of(".."));
            crate::text::append(&mut v, &chars_of(to));
            string_of(&v)
        },
        None => string_of(&chars_of(to)),
    }
}

/// Piece `i` of a split line, or empty when the line has fewer pieces.
pub open spec fn field(parts: Seq<Seq<char>>, i: int) -> Seq<char> {
    if 0 <= i < parts.len() {
        parts[i]
    } else {
        Seq::empty()
    }
}

/// The commit a `git log` line describes: hash, e-mail, author name and
/// subject separated by U+001F, with the subject's gitmoji and section.
pub open spec fn entry_ok(e: CommitEntry, line: Seq<char>) -> bool {
    let parts = split_seq(line, seq!['\u{1f}']);
    let subject = field(parts, 3);
    &&& e.hash@ == field(parts, 0)
    &&& e.email@ == field(parts, 1)
    &&& e.author@ == field(parts, 2)
    &&& e.subject@ == subject
    &&& e.body@ == strip_gitmoji_spec(subject)
    &&& match e.gitmoji {
        Some(g) => leading_gitmoji_spec(subject) == Some(g@),
        None => leading_gitmoji_spec(subject) is None,
    }
    &&& e.section == section_spec(leading_gitmoji_spec(subject))
}

fn field_exec(parts: &Vec<Vec<char>>, i: usize) -> (r: Vec<char>)
    ensures
        r@ == field(views(parts@), i as int),
{
    if i < parts.len() {
        crate::text::slice_chars(&parts[i], 0, parts[i].len())
    } else {
        Vec::new()
    }
}

fn parse_log_line(line: &[char]) -> (r: CommitEntry)
    ensures
        entry_ok(r, line@),
{
    let mut sep: Vec<char> = Vec::new();
    sep.push('\u{1f}');
    let parts = crate::text::split(line, &sep);
    let subject = string_of(&field_exec(&parts, 3));
    let gitmoji = leading_gitmoji(subject.as_str());
    let section = section_for_gitmoji(gitmoji);
    let body = strip_gitmoji(subject.as_str());
    CommitEntry {
        hash: string_of(&field_exec(&parts, 0)),
        email: string_of(&field_exec(&parts, 1)),
        author: string_of(&field_exec(&parts, 2)),
        subject,
        body,
        gitmoji,
        section,
    }
}

/// The non-merge commits that `git log <range> --no-merges
/// --format=%H%x1f%ae%x1f%an%x1f%s` printed, one per line.
pub fn collect_commits(stdout: &str) -> (r: Vec<CommitEntry>)
    ensures
        r@.len() == output_lines(stdout@).len(),
        forall|i: int| 0 <= i < r@.len() ==> entry_ok(#[trigger] r@[i], output_lines(stdout@)[i]),
{
    let out = crate::text::trim_end(&chars_of(stdout));
    let ls = crate::text::lines(&out);
    let mut r: Vec<CommitEntry> = Vec::new();
    let mut i: usize = 0;
    while i < ls.len()
        invariant
            i <= ls@.len(),
            views(ls@) == output_lines(stdout@),
            r@.len() == i,
            forall|j: int| 0 <= j < i ==> entry_ok(#[trigger] r@[j], views(ls@)[j]),
        decreases ls@.len() - i,
    {
        assert(views(ls@)[i as int] == ls@[i as int]@);
        r.push(parse_log_line(&ls[i]));
        i = i + 1;
    }
    r
}

/// 7 to 40 ASCII hex digits.
pub open spec fn is_hex_oid_spec(s: Seq<char>) -> bool {
    7 <= s.len() <= 40 && forall|i: int| 0 <= i < s.len() ==> is_hex_digit(#[trigger] s[i])
}

/// Whether `value` is an abbreviated or full hex object id.
pub fn is_hex_oid(value: &[char]) -> (r: bool)
    ensures
        r == is_hex_oid_spec(value@),
{
    if value.len() < 7 || value.len() > 40 {
        return false;
    }
    let mut i: usize = 0;
    while i < value.len()
        invariant
            i <= value@.len(),
            forall|j: int| 0 <= j < i ==> is_hex_digit(#[trigger] value@[j]),
        decreases value@.len() - i,
    {
        if !crate::text::hex_digit(value[i]) {
            return false;
        }
        i = i + 1;
    }
    true
}

/// Pattern of a version label in a reference.
pub open spec fn version_label_pattern() -> Seq<char> {
    "^v?(\\d+\\.\\d+\\.\\d+)$"@
}

/// The `X.Y.Z` of a reference `vX.Y.Z` or `X.Y.Z`, by the regex crate.
pub open spec fn regex_version_label_spec(reference: Seq<char>) -> Option<Seq<char>> {
    if regex_compiles(version_label_pattern()) {
        match regex_captures(version_label_pattern(), reference) {
            Some(caps) => if caps.len() > 1 {
                caps[1]
            } else {
                None
            },
            None => None,
        }
    } else {
        None
    }
}

fn regex_version_label(reference: &str) -> (r: Option<String>)
    ensures
        match r {
            Some(l) => regex_version_label_spec(reference@) == Some(l@),
            None => regex_version_label_spec(reference@) is None,
        },
{
    match crate::wrappers::regex_new("^v?(\\d+\\.\\d+\\.\\d+)$") {
        Some(re) => match crate::wrappers::regex_captures_of(&re, reference) {
            Some(caps) => {
                if caps.len() > 1 {
                    assert(opt_views(caps@)[1] == match caps@[1] {
                        Some(s) => Some(s@),
                        None => None::<Seq<char>>,
                    });
                    match &caps[1] {
                        Some(s) => Some(string_of(&chars_of(s.as_str()))),
                        None => None,
                    }
                } else {
                    None
                }
            },
            None => None,
        },
        None => None,
    }
}

/// A resolved release range and the references that must name commits.
#[derive(Debug)]
pub struct RangePlan {
    /// Version label of the release.
    pub version: String,
    /// Range start (exclusive), if any.
    pub from: Option<String>,
    /// Range end.
    pub to: String,
    /// References to check with `git rev-parse --verify <ref>^{commit}`,
    /// in order; the range stands only if all of them name commits.
    pub refs_to_verify: Vec<String>,
}

/// The range needs `--version` or `--to`.
#[derive(Debug, Clone, Copy, PartialEq, Eq, Structural)]
pub enum RangeError {
    MissingRange,
}

/// The end reference of an explicit range: a `v…` name or a hex id as it
/// is, anything else as a version whose tag is meant.
pub open spec fn to_ref_spec(to: Seq<char>) -> Seq<char> {
    if starts_with_seq(to, seq!['v']) || is_hex_oid_spec(to) {
        to
    } else {
        version_tag_spec(to)
    }
}

/// Resolves the release range: with `version`, from the previous `v*` tag
/// (among `tags`) to the version's tag; otherwise from `from` to `to`,
/// labelled by the `X.Y.Z` in `to` or by `to` without its leading `v`s.
pub fn resolve_range(version: Option<&str>, from: Option<&str>, to: Option<&str>, tags: &Vec<String>) -> (r: Result<RangePlan, RangeError>)
    ensures
        version is Some ==> (r matches Ok(p) && {
            let v = version->0@;
            &&& p.version@ == normalize_version_spec(v)
            &&& p.to@ == version_tag_spec(v)
            &&& match p.from {
                Some(f) => previous_tag_spec(tags@, v) == Some(f@),
                None => previous_tag_spec(tags@, v) is None,
            }
            &&& p.refs_to_verify@.map_values(|s: String| s@) == seq![version_tag_spec(v)]
        }),
        version is None && to is None ==> r == Err::<RangePlan, RangeError>(RangeError::MissingRange),
        version is None && to is Some ==> (r matches Ok(p) && {
            let t = to_ref_spec(to->0@);
            &&& p.to@ == t
            &&& p.version@ == match regex_version_label_spec(t) {
                Some(l) => l,
                None => trim_start_char(t, 'v'),
            }
            &&& match from {
                Some(f) => p.from matches Some(pf) && pf@ == f@ && p.refs_to_verify@.map_values(|s: String| s@) == seq![t, f@],
                None => p.from is None && p.refs_to_verify@.map_values(|s: String| s@) == seq![t],
            }
        }),
{
    if let Some(v) = version {
        let tag = version_tag(v);
        let prev = previous_version_tag(tags, v);
        let mut refs: Vec<String> = Vec::new();
        refs.push(version_tag(v));
        assert(refs@.map_values(|s: String| s@) =~= seq![version_tag_spec(v@)]);
        return Ok(RangePlan { version: normalize_version(v), from: prev, to: tag, refs_to_verify: refs });
    }
    let to = match to {
        Some(t) => t,
        None => {
            return Err(RangeError::MissingRange);
        },
    };
    let to_chars = chars_of(to);
    assert(starts_with_seq(to@, seq!['v']) == (to@.len() > 0 && to@[0] == 'v')) by {
        if to@.len() > 0 && to@[0] == 'v' {
            assert(to@.subrange(0, 1) =~= seq!['v']);
        }
        if to@.len() > 0 {
            assert(to@.subrange(0, 1)[0] == to@[0]);
        }
    }
    let to_ref = if (to_chars.len() > 0 && to_chars[0] == 'v') || is_hex_oid(&to_chars) {
        string_of(&to_chars)
    } else {
        version_tag(to)
    };
    let label = match regex_version_label(to_ref.as_str()) {
        Some(l) => l,
        None => string_of(&trim_start_char_exec(&chars_of(to_ref.as_str()), 'v')),
    };
    let mut refs: Vec<String> = Vec::new();
    refs.push(string_of(&chars_of(to_ref.as_str())));
    let from_out = match from {
        Some(f) => {
            refs.push(string_of(&chars_of(f)));
            Some(string_of(&chars_of(f)))
        },
        None => None,
    };
    proof {
        if from is Some {
            assert(refs@.map_values(|s: String| s@) =~= seq![to_ref@, from->0@]);
        } else {
            assert(refs@.map_values(|s: String| s@) =~= seq![to_ref@]);
        }
    }
    Ok(RangePlan { version: label, from: from_out, to: to_ref, refs_to_verify: refs })
}

/// `owner/repo` from the part of a GitHub remote URL after the host:
/// trailing `/`s, then trailing `.git`s, are dropped; the rest must hold a
/// `/`, no `:`, and not be empty.
pub open spec fn normalize_repo_path_spec(path: Seq<char>) -> Option<Seq<char>> {
    let p = trim_end_pat(trim_end_pat(path, seq!['/']), ".git"@);
    if has_char(p, ':') || p.len() == 0 || !has_char(p, '/') {
        None
    } else {
        Some(p)
    }
}

/// `owner/repo` of a GitHub remote URL (https, scp-like ssh, or ssh://).
pub open spec fn github_repo_spec(url: Seq<char>) -> Option<Seq<char>> {
    let t = trim_seq(url);
    if starts_with_seq(t, "https://github.com/"@) {
        normalize_repo_path_spec(t.subrange("https://github.com/"@.len() as int, t.len() as int))
    } else if starts_with_seq(t, "git@github.com:"@) {
        normalize_repo_path_spec(t.subrange("git@github.com:"@.len() as int, t.len() as int))
    } else if starts_with_seq(t, "ssh://git@github.com/"@) {
        normalize_repo_path_spec(t.subrange("ssh://git@github.com/"@.len() as int, t.len() as int))
    } else {
        None
    }
}

fn normalize_repo_path(path: &[char]) -> (r: Option<String>)
    ensures
        match r {
            Some(p) => normalize_repo_path_spec(path@) == Some(p@),
            None => normalize_repo_path_spec(path@) is None,
        },
{
    let mut slash: Vec<char> = Vec::new();
    slash.push('/');
    assert(slash@ == seq!['/']);
    let a = trim_end_pat_exec(path, &slash);
    let git = chars_of(".git");
    proof {
        reveal_strlit(".git");
    }
    let p = trim_end_pat_exec(&a, &git);
    if crate::text::contains_char(&p, ':') || p.len() == 0 || !crate::text::contains_char(&p, '/') {
        None
    } else {
        Some(string_of(&p))
    }
}

fn strip_prefix_then_normalize(t: &[char], prefix: &str) -> (r: Option<Option<String>>)
    ensures
        match r {
            None => !starts_with_seq(t@, prefix@),
            Some(o) => starts_with_seq(t@, prefix@) && match o {
                Some(p) => normalize_repo_path_spec(t@.subrange(prefix@.len() as int, t@.len() as int)) == Some(p@),
                None => normalize_repo_path_spec(t@.subrange(prefix@.len() as int, t@.len() as int)) is None,
            },
        },
{
    let pc = chars_of(prefix);
    if crate::text::starts_with(t, &pc) {
        let rest = crate::text::slice_chars(t, pc.len(), t.len());
        Some(normalize_repo_path(&rest))
    } else {
        None
    }
}

/// `owner/repo` of a GitHub remote URL, without running `git`.
pub fn parse_github_remote_repo(url: &str) -> (r: Option<String>)
    ensures
        match r {
            Some(p) => github_repo_spec(url@) == Some(p@),
            None => github_repo_spec(url@) is None,
        },
{
    parse_github_repo_from_remote(url)
}

fn parse_github_repo_from_remote(url: &str) -> (r: Option<String>)
    ensures
        match r {
            Some(p) => github_repo_spec(url@) == Some(p@),
            None => github_repo_spec(url@) is None,
        },
{
    let t = crate::text::trim(&chars_of(url));
    if let Some(o) = strip_prefix_then_normalize(&t, "https://github.com/") {
        return o;
    }
    if let Some(o) = strip_prefix_then_normalize(&t, "git@github.com:") {
        return o;
    }
    if let Some(o) = strip_prefix_then_normalize(&t, "ssh://git@github.com/") {
        return o;
    }
    None
}

/// `owner/repo` of the `origin` remote, given what `git remote get-url
/// origin` printed (nothing when the command failed).
pub fn detect_github_repo(remote_url: Option<&str>) -> (r: Option<String>)
    ensures
        match remote_url {
            None => r is None,
            Some(u) => match r {
                Some(p) => github_repo_spec(trim_end_seq(u@)) == Some(p@),
                None => github_repo_spec(trim_end_seq(u@)) is None,
            },
        },
{
    match remote_url {
        Some(u) => {
            let out = string_of(&crate::text::trim_end(&chars_of(u)));
            parse_github_remote_repo(out.as_str())
        },
        None => None,
    }
}

} // verus!
