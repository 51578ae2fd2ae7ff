//! What the command-line tools print and write: ref names, the rewrite
//! reports, the map template and a few labels.

use vstd::prelude::*;

use crate::author::{opt_str_view, ApiError, GithubAuthor};
use crate::git_cmd::RangeError;
use crate::map::MapError;
use crate::retime::RetimeError;
use crate::json::{JsonNumber, JsonValue};
use crate::oid::{hex_seq, short, take8, ObjectId};
use crate::rewrite::{PlannedChange, RewriteError};
use crate::text::{append, chars_of, decimal, decimal_seq, starts_with, starts_with_seq, string_of};
use crate::wrappers::{debug_str, debug_str_spec};

verus! {

pub open spec fn string_views(v: Seq<String>) -> Seq<Seq<char>> {
    v.map_values(|s: String| s@)
}

/// A branch name as a full ref: names under `refs/` stay, others go
/// under `refs/heads/`.
pub open spec fn qualified_ref_spec(name: Seq<char>) -> Seq<char> {
    if starts_with_seq(name, "refs/"@) {
        name
    } else {
        "refs/heads/"@ + name
    }
}

/// A branch name as a full ref (see [`qualified_ref_spec`]).
pub fn qualified_ref_name(name: &str) -> (r: String)
    ensures
        r@ == qualified_ref_spec(name@),
{
    let n = chars_of(name);
    if starts_with(&n, &chars_of("refs/")) {
        string_of(&n)
    } else {
        let mut out = chars_of("refs/heads/");
        append(&mut out, &n);
        string_of(&out)
    }
}

fn cat(parts: &mut Vec<char>, s: &str)
    ensures
        final(parts)@ == old(parts)@ + s@,
{
    append(parts, &chars_of(s));
}

/// The lines printed for one change of a dry run.
pub open spec fn dry_run_block(c: PlannedChange) -> Seq<Seq<char>> {
    seq![take8(hex_seq(c.old_oid@)) + "  "@ + c.old_subject@, "     ->  "@ + c.new_subject@] + (if c.parents_relinked
        && !c.message_changed {
        seq!["     (parent chain relink only)"@]
    } else {
        Seq::empty()
    }) + seq![Seq::<char>::empty()]
}

pub open spec fn dry_run_blocks(changes: Seq<PlannedChange>, n: int) -> Seq<Seq<char>>
    decreases n,
{
    if n <= 0 {
        Seq::empty()
    } else {
        dry_run_blocks(changes, n - 1) + dry_run_block(changes[n - 1])
    }
}

/// The dry-run report for `changes` planned on `ref_name`.
pub open spec fn dry_run_spec(changes: Seq<PlannedChange>, ref_name: Seq<char>) -> Seq<Seq<char>> {
    if changes.len() == 0 {
        seq!["dry-run: no commit objects need rewriting"@]
    } else {
        seq![
            "dry-run: "@ + decimal_seq(changes.len()) + " commit object(s) would be rewritten on "@ + ref_name,
            Seq::<char>::empty(),
        ] + dry_run_blocks(changes, changes.len() as int)
    }
}

/// The lines a dry run prints.
pub fn dry_run_report(changes: &Vec<PlannedChange>, ref_name: &str) -> (r: Vec<String>)
    ensures
        string_views(r@) == dry_run_spec(changes@, ref_name@),
{
    let mut out: Vec<String> = Vec::new();
    if changes.len() == 0 {
        out.push(string_of(&chars_of("dry-run: no commit objects need rewriting")));
        assert(string_views(out@) =~= dry_run_spec(changes@, ref_name@));
        return out;
    }
    let mut head = chars_of("dry-run: ");
    append(&mut head, &decimal(changes.len() as u64));
    cat(&mut head, " commit object(s) would be rewritten on ");
    cat(&mut head, ref_name);
    out.push(string_of(&head));
    out.push(String::new());
    let ghost top = seq![head@, Seq::<char>::empty()];
    assert(string_views(out@) =~= top);
    let mut i: usize = 0;
    while i < changes.len()
        invariant
            i <= changes@.len(),
            string_views(out@) == top + dry_run_blocks(changes@, i as int),
        decreases changes@.len() - i,
    {
        let c = &changes[i];
        let ghost before = out@;
        let mut l1 = chars_of(short(&c.old_oid).as_str());
        cat(&mut l1, "  ");
        cat(&mut l1, c.old_subject.as_str());
        out.push(string_of(&l1));
        let mut l2 = chars_of("     ->  ");
        cat(&mut l2, c.new_subject.as_str());
        out.push(string_of(&l2));
        if c.parents_relinked && !c.message_changed {
            out.push(string_of(&chars_of("     (parent chain relink only)")));
        }
        out.push(String::new());
        assert(string_views(out@) =~= string_views(before) + dry_run_block(changes@[i as int]));
        i = i + 1;
    }
    out
}

/// The lines a dry run prints for one change: its short id and old
/// subject, the arrow and new subject, the relink note only when the
/// parents change and the message does not, then a blank line. A single
/// reworded change gives the heading, a blank line and that block.
pub proof fn dry_run_change_lines(c: PlannedChange, ref_name: Seq<char>)
    ensures
        ({
            let l1 = take8(hex_seq(c.old_oid@)) + "  "@ + c.old_subject@;
            let l2 = "     ->  "@ + c.new_subject@;
            &&& c.message_changed ==> dry_run_block(c) == seq![l1, l2, Seq::<char>::empty()]
            &&& !c.parents_relinked ==> dry_run_block(c) == seq![l1, l2, Seq::<char>::empty()]
            &&& c.parents_relinked && !c.message_changed ==> dry_run_block(c) == seq![
                l1,
                l2,
                "     (parent chain relink only)"@,
                Seq::<char>::empty(),
            ]
            &&& c.message_changed ==> dry_run_spec(seq![c], ref_name) == seq![
                "dry-run: 1 commit object(s) would be rewritten on "@ + ref_name,
                Seq::<char>::empty(),
                l1,
                l2,
                Seq::<char>::empty(),
            ]
        }),
{
    let l1 = take8(hex_seq(c.old_oid@)) + "  "@ + c.old_subject@;
    let l2 = "     ->  "@ + c.new_subject@;
    assert(seq![l1, l2] + Seq::<Seq<char>>::empty() + seq![Seq::<char>::empty()] =~= seq![
        l1,
        l2,
        Seq::<char>::empty(),
    ]);
    assert(seq![l1, l2] + seq!["     (parent chain relink only)"@] + seq![Seq::<char>::empty()] =~= seq![
        l1,
        l2,
        "     (parent chain relink only)"@,
        Seq::<char>::empty(),
    ]);
    let cs = seq![c];
    assert(cs[0] == c);
    assert(dry_run_blocks(cs, 0) == Seq::<Seq<char>>::empty());
    assert(dry_run_blocks(cs, 1) =~= dry_run_block(c));
    assert(decimal_seq(1) == seq!['1']);
    reveal_strlit("dry-run: ");
    reveal_strlit(" commit object(s) would be rewritten on ");
    reveal_strlit("dry-run: 1 commit object(s) would be rewritten on ");
    assert("dry-run: "@ + decimal_seq(1) + " commit object(s) would be rewritten on "@ =~= "dry-run: 1 commit object(s) would be rewritten on "@);
    if c.message_changed {
        assert(dry_run_spec(cs, ref_name) =~= seq![
            "dry-run: 1 commit object(s) would be rewritten on "@ + ref_name,
            Seq::<char>::empty(),
            l1,
            l2,
            Seq::<char>::empty(),
        ]);
    }
}

pub open spec fn rewritten_line(c: PlannedChange) -> Seq<char> {
    "  "@ + take8(hex_seq(c.old_oid@)) + "  "@ + c.new_subject@
}

/// The report printed after a rewrite moved a ref from `old_tip` to `new_tip`.
pub open spec fn rewrite_spec(changes: Seq<PlannedChange>, old_tip: Seq<u8>, new_tip: Seq<u8>) -> Seq<Seq<char>> {
    seq![
        "rewrote "@ + decimal_seq(changes.len()) + " commit object(s); "@ + take8(hex_seq(old_tip)) + " -> "@
            + take8(hex_seq(new_tip)),
    ] + changes.map_values(|c: PlannedChange| rewritten_line(c))
}

/// The lines printed after a rewrite. Error: nothing was rewritten.
pub fn rewrite_report(changes: &Vec<PlannedChange>, old_tip: &ObjectId, new_tip: &ObjectId) -> (r: Result<
    Vec<String>,
    RewriteError,
>)
    ensures
        changes@.len() == 0 <==> r is Err,
        r is Err ==> r == Err::<Vec<String>, RewriteError>(RewriteError::NothingRewritten),
        r matches Ok(v) ==> string_views(v@) == rewrite_spec(changes@, old_tip@, new_tip@),
{
    if changes.len() == 0 {
        return Err(RewriteError::NothingRewritten);
    }
    let mut out: Vec<String> = Vec::new();
    let mut head = chars_of("rewrote ");
    append(&mut head, &decimal(changes.len() as u64));
    cat(&mut head, " commit object(s); ");
    cat(&mut head, short(old_tip).as_str());
    cat(&mut head, " -> ");
    cat(&mut head, short(new_tip).as_str());
    out.push(string_of(&head));
    let ghost top = seq![head@];
    assert(string_views(out@) =~= top);
    let mut i: usize = 0;
    while i < changes.len()
        invariant
            i <= changes@.len(),
            string_views(out@) == top + changes@.subrange(0, i as int).map_values(|c: PlannedChange| rewritten_line(c)),
        decreases changes@.len() - i,
    {
        let c = &changes[i];
        let ghost before = out@;
        let mut l = chars_of("  ");
        cat(&mut l, short(&c.old_oid).as_str());
        cat(&mut l, "  ");
        cat(&mut l, c.new_subject.as_str());
        out.push(string_of(&l));
        assert(changes@.subrange(0, i + 1).map_values(|c: PlannedChange| rewritten_line(c)) =~= changes@.subrange(
            0,
            i as int,
        ).map_values(|c: PlannedChange| rewritten_line(c)).push(rewritten_line(changes@[i as int])));
        assert(string_views(out@) =~= string_views(before).push(l@));
        i = i + 1;
    }
    assert(changes@.subrange(0, changes@.len() as int) =~= changes@);
    Ok(out)
}

pub open spec fn export_block(e: (ObjectId, String)) -> Seq<char> {
    hex_seq(e.0@) + seq!['\n'] + e.1@ + "\n\n---\n\n"@
}

pub open spec fn export_blocks(entries: Seq<(ObjectId, String)>, n: int) -> Seq<char>
    decreases n,
{
    if n <= 0 {
        Seq::empty()
    } else {
        export_blocks(entries, n - 1) + export_block(entries[n - 1])
    }
}

/// The hash-keyed map template: a comment line with the number of
/// commits, then each commit's id and message, blocks separated by `---`.
pub open spec fn export_map_spec(entries: Seq<(ObjectId, String)>) -> Seq<char> {
    "# Hash-keyed reword map ("@ + decimal_seq(entries.len()) + " commit(s)). Delete unchanged blocks before rewrite.\n\n"@
        + export_blocks(entries, entries.len() as int)
}

/// The text of the hash-keyed map template for `(id, message)` pairs.
pub fn export_map_text(entries: &Vec<(ObjectId, String)>) -> (r: String)
    ensures
        r@ == export_map_spec(entries@),
{
    let mut out = chars_of("# Hash-keyed reword map (");
    append(&mut out, &decimal(entries.len() as u64));
    cat(&mut out, " commit(s)). Delete unchanged blocks before rewrite.\n\n");
    let ghost top = out@;
    let mut i: usize = 0;
    while i < entries.len()
        invariant
            i <= entries@.len(),
            out@ == top + export_blocks(entries@, i as int),
        decreases entries@.len() - i,
    {
        let ghost before = out@;
        append(&mut out, &entries[i].0.hex_chars());
        out.push('\n');
        cat(&mut out, entries[i].1.as_str());
        cat(&mut out, "\n\n---\n\n");
        assert(out@ =~= before + export_block(entries@[i as int]));
        i = i + 1;
    }
    string_of(&out)
}

/// The file a reference draft is written to: `v{version}.reference.md`.
pub fn reference_file_name(version: &str) -> (r: String)
    ensures
        r@ == "v"@ + version@ + ".reference.md"@,
{
    let mut out = chars_of("v");
    cat(&mut out, version);
    cat(&mut out, ".reference.md");
    string_of(&out)
}

pub open spec fn author_members(a: GithubAuthor) -> Seq<(Seq<char>, Option<u64>, Option<Seq<char>>)> {
    (if a.id is Some {
        seq![("id"@, a.id, None::<Seq<char>>)]
    } else {
        Seq::empty()
    }) + (if a.login is Some {
        seq![("login"@, None::<u64>, opt_str_view(a.login))]
    } else {
        Seq::empty()
    })
}

/// A member of the lookup answer, as values: its name, and its number or text.
pub open spec fn member_view(m: (String, JsonValue)) -> (Seq<char>, Option<u64>, Option<Seq<char>>) {
    (
        m.0@,
        match m.1 {
            JsonValue::Number(JsonNumber::PosInt(n)) => Some(n),
            _ => None,
        },
        match m.1 {
            JsonValue::Str(s) => Some(s@),
            _ => None,
        },
    )
}

/// The answer of a lookup: an object with `id` (when known) and then
/// `login` (when known).
pub fn author_json(author: &GithubAuthor) -> (r: JsonValue)
    ensures
        r matches JsonValue::Object(members) && members@.map_values(|m: (String, JsonValue)| member_view(m))
            == author_members(*author),
{
    let mut members: Vec<(String, JsonValue)> = Vec::new();
    if let Some(id) = author.id {
        members.push((string_of(&chars_of("id")), JsonValue::Number(JsonNumber::PosInt(id))));
    }
    let ghost mid = members@;
    match &author.login {
        Some(l) => {
            members.push((string_of(&chars_of("login")), JsonValue::Str(string_of(&chars_of(l.as_str())))));
        },
        None => {},
    }
    assert(members@.map_values(|m: (String, JsonValue)| member_view(m)) =~= author_members(*author));
    JsonValue::Object(members)
}

/// The reflog message of a retime moving `branch` to `tip`.
pub fn retime_reflog_message(branch: &str, tip: &ObjectId) -> (r: String)
    ensures
        r@ == "git-retime: update "@ + branch@ + " to "@ + take8(hex_seq(tip@)),
{
    let mut out = chars_of("git-retime: update ");
    cat(&mut out, branch);
    cat(&mut out, " to ");
    cat(&mut out, short(tip).as_str());
    string_of(&out)
}

/// The reflog message of a rewrite moving a ref from `old_tip` to `new_tip`.
pub fn rewrite_reflog_message(old_tip: &ObjectId, new_tip: &ObjectId) -> (r: String)
    ensures
        r@ == "git-reword: rewrite "@ + take8(hex_seq(old_tip@)) + ".."@ + take8(hex_seq(new_tip@)),
{
    let mut out = chars_of("git-reword: rewrite ");
    cat(&mut out, short(old_tip).as_str());
    cat(&mut out, "..");
    cat(&mut out, short(new_tip).as_str());
    string_of(&out)
}

fn text_of(parts: &Vec<char>) -> (r: String)
    ensures
        r@ == parts@,
{
    string_of(parts)
}

fn labelled_input(message: &str, input: &str) -> (r: String)
    ensures
        r@ == message@ + ": "@ + input@,
{
    let mut out = chars_of(message);
    cat(&mut out, ": ");
    cat(&mut out, input);
    text_of(&out)
}

impl RetimeError {
    /// The message shown for the error.
    pub fn message(&self) -> (r: String)
        ensures
            r@ == match *self {
                RetimeError::DateParse => "date parse failed"@,
                RetimeError::EmptyWindow => "end datetime must be after start datetime"@,
                RetimeError::TimestampOutOfRange => "commit author timestamp out of range"@,
                RetimeError::EmptyRange => "no commits in retime range"@,
                RetimeError::TimestampCount { expected, got } => "need "@ + decimal_seq(expected as nat)
                    + " timestamp(s) for retime range but got "@ + decimal_seq(got as nat),
            },
    {
        match self {
            RetimeError::DateParse => string_of(&chars_of("date parse failed")),
            RetimeError::EmptyWindow => string_of(&chars_of("end datetime must be after start datetime")),
            RetimeError::TimestampOutOfRange => string_of(&chars_of("commit author timestamp out of range")),
            RetimeError::EmptyRange => string_of(&chars_of("no commits in retime range")),
            RetimeError::TimestampCount { expected, got } => {
                let mut out = chars_of("need ");
                append(&mut out, &decimal(*expected as u64));
                cat(&mut out, " timestamp(s) for retime range but got ");
                append(&mut out, &decimal(*got as u64));
                string_of(&out)
            },
        }
    }
}

impl MapError {
    /// The message shown for the error, with the offending hash or prefix.
    pub fn message(&self) -> (r: String)
        ensures
            r@ == match self {
                MapError::NoEntries => "no commit entries in reword map json"@,
                MapError::BadHash(h) => "expected commit hash"@ + ": "@ + h@,
                MapError::MissingMessage(h) => "missing message for commit hash"@ + ": "@ + h@,
                MapError::NotAMap => "parse reword map json"@,
                MapError::PrefixNotFound(p) => "hash prefix not found in range"@ + ": "@ + p@,
                MapError::AmbiguousPrefix(p) => "ambiguous hash prefix in range"@ + ": "@ + p@,
                MapError::DuplicateEntry(p) => "duplicate map entry for commit hash"@ + ": "@ + p@,
                MapError::NoBlocks => "no commit blocks in map file"@,
                MapError::BadHashLine(h) => "expected commit hash, got "@ + debug_str_spec(h@),
                MapError::MissingBlockMessage(h) => "missing message for "@ + h@,
            },
    {
        match self {
            MapError::NoEntries => string_of(&chars_of("no commit entries in reword map json")),
            MapError::BadHash(h) => labelled_input("expected commit hash", h.as_str()),
            MapError::MissingMessage(h) => labelled_input("missing message for commit hash", h.as_str()),
            MapError::NotAMap => string_of(&chars_of("parse reword map json")),
            MapError::PrefixNotFound(p) => labelled_input("hash prefix not found in range", p.as_str()),
            MapError::AmbiguousPrefix(p) => labelled_input("ambiguous hash prefix in range", p.as_str()),
            MapError::DuplicateEntry(p) => labelled_input("duplicate map entry for commit hash", p.as_str()),
            MapError::NoBlocks => string_of(&chars_of("no commit blocks in map file")),
            MapError::BadHashLine(h) => {
                let mut out = chars_of("expected commit hash, got ");
                let quoted = debug_str(h.as_str());
                cat(&mut out, quoted.as_str());
                string_of(&out)
            },
            MapError::MissingBlockMessage(h) => {
                let mut out = chars_of("missing message for ");
                cat(&mut out, h.as_str());
                string_of(&out)
            },
        }
    }
}

impl RewriteError {
    /// The message shown for the error.
    pub fn message(&self) -> (r: String)
        ensures
            r@ == match *self {
                RewriteError::EmptyRange => "no commits in rewrite range"@,
                RewriteError::TipNotFound => "failed to resolve new tip"@,
                RewriteError::NothingRewritten => "no commit objects were rewritten"@,
            },
    {
        match self {
            RewriteError::EmptyRange => string_of(&chars_of("no commits in rewrite range")),
            RewriteError::TipNotFound => string_of(&chars_of("failed to resolve new tip")),
            RewriteError::NothingRewritten => string_of(&chars_of("no commit objects were rewritten")),
        }
    }
}

impl ApiError {
    /// The message shown for the error.
    pub fn message(&self) -> (r: String)
        ensures
            r@ == match self {
                ApiError::NotFound(login) => "GitHub user not found"@ + ": "@ + login@,
                ApiError::Status(code, text) => "GitHub API returned an error status: "@ + decimal_seq(*code as nat) + " "@
                    + text@,
                ApiError::BadBody(e) => "parse GitHub API JSON: "@ + e@,
                ApiError::SearchStatus(code, text) => "GitHub search API returned an error status: "@ + decimal_seq(
                    *code as nat,
                ) + " "@ + text@,
                ApiError::SearchBadBody(e) => "parse GitHub search JSON: "@ + e@,
            },
    {
        match self {
            ApiError::NotFound(login) => labelled_input("GitHub user not found", login.as_str()),
            ApiError::Status(code, text) => {
                let mut out = chars_of("GitHub API returned an error status: ");
                append(&mut out, &decimal(*code as u64));
                cat(&mut out, " ");
                cat(&mut out, text.as_str());
                string_of(&out)
            },
            ApiError::BadBody(e) => {
                let mut out = chars_of("parse GitHub API JSON: ");
                cat(&mut out, e.as_str());
                string_of(&out)
            },
            ApiError::SearchStatus(code, text) => {
                let mut out = chars_of("GitHub search API returned an error status: ");
                append(&mut out, &decimal(*code as u64));
                cat(&mut out, " ");
                cat(&mut out, text.as_str());
                string_of(&out)
            },
            ApiError::SearchBadBody(e) => {
                let mut out = chars_of("parse GitHub search JSON: ");
                cat(&mut out, e.as_str());
                string_of(&out)
            },
        }
    }
}

impl RangeError {
    /// The message shown for the error.
    pub fn message(&self) -> (r: String)
        ensures
            r@ == "need --version=X.Y.Z or --to=REF (optional --from=REF)"@,
    {
        string_of(&chars_of("need --version=X.Y.Z or --to=REF (optional --from=REF)"))
    }
}

} // verus!
