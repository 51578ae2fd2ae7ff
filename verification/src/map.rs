//! Reword maps: hash-keyed message documents, their normalisation, and
//! resolving hash prefixes against the commits of a range.

use vstd::prelude::*;

use crate::json::{as_str_spec, as_u64_spec, member, member_spec, JsonNumber, JsonValue};
use crate::oid::{hex_seq, ObjectId};
use crate::rewrite::MessageUpdate;
use crate::text::{
    ascii_lower_seq, chars_of, eq_chars, is_hex_digit, lines_seq, split_seq, starts_with_seq, string_of,
    trim, trim_seq, views,
};
use crate::wrappers::{lowercase_spec, regex_compiles, regex_matches};

verus! {

/// One entry of a reword map document.
#[derive(Debug)]
pub struct MapEntry {
    /// Commit hash prefix or full id.
    pub hash: String,
    /// Full commit message.
    pub message: String,
}

/// Why a reword map is refused.
#[derive(Debug)]
pub enum MapError {
    /// The map holds no entry.
    NoEntries,
    /// An entry's key is not a commit hash.
    BadHash(String),
    /// An entry's message is empty.
    MissingMessage(String),
    /// The JSON document has neither accepted shape.
    NotAMap,
    /// No commit of the range starts with the prefix.
    PrefixNotFound(String),
    /// More than one commit of the range starts with the prefix.
    AmbiguousPrefix(String),
    /// Two entries name the same commit.
    DuplicateEntry(String),
    /// A block map holds no block with an entry.
    NoBlocks,
    /// The first content line of a block is not a commit hash.
    BadHashLine(String),
    /// The message of a block is empty.
    MissingBlockMessage(String),
}

/// `MapError` as values.
pub enum MapErrorView {
    NoEntries,
    BadHash(Seq<char>),
    MissingMessage(Seq<char>),
    NotAMap,
    PrefixNotFound(Seq<char>),
    AmbiguousPrefix(Seq<char>),
    DuplicateEntry(Seq<char>),
    NoBlocks,
    BadHashLine(Seq<char>),
    MissingBlockMessage(Seq<char>),
}

impl View for MapError {
    type V = MapErrorView;

    open spec fn view(&self) -> MapErrorView {
        match self {
            MapError::NoEntries => MapErrorView::NoEntries,
            MapError::BadHash(s) => MapErrorView::BadHash(s@),
            MapError::MissingMessage(s) => MapErrorView::MissingMessage(s@),
            MapError::NotAMap => MapErrorView::NotAMap,
            MapError::PrefixNotFound(s) => MapErrorView::PrefixNotFound(s@),
            MapError::AmbiguousPrefix(s) => MapErrorView::AmbiguousPrefix(s@),
            MapError::DuplicateEntry(s) => MapErrorView::DuplicateEntry(s@),
            MapError::NoBlocks => MapErrorView::NoBlocks,
            MapError::BadHashLine(s) => MapErrorView::BadHashLine(s@),
            MapError::MissingBlockMessage(s) => MapErrorView::MissingBlockMessage(s@),
        }
    }
}

/// A (hash, message) pair as values.
pub type Pair = (Seq<char>, Seq<char>);

pub open spec fn pair_views(v: Seq<(String, String)>) -> Seq<Pair> {
    v.map_values(|p: (String, String)| (p.0@, p.1@))
}

pub open spec fn entry_views(v: Seq<MapEntry>) -> Seq<Pair> {
    v.map_values(|e: MapEntry| (e.hash@, e.message@))
}

pub open spec fn update_views(v: Seq<MessageUpdate>) -> Seq<(Seq<u8>, Seq<char>)> {
    v.map_values(|u: MessageUpdate| (u.oid@, u.message@))
}

/// 8 to 40 ASCII hex digits.
pub open spec fn is_commit_hash_spec(s: Seq<char>) -> bool {
    8 <= s.len() <= 40 && forall|i: int| 0 <= i < s.len() ==> is_hex_digit(#[trigger] s[i])
}

/// One normalisation step: trim the hash and the message, check them,
/// lower-case the hash.
pub open spec fn normalize_step(acc: Result<Seq<Pair>, MapErrorView>, e: Pair) -> Result<Seq<Pair>, MapErrorView> {
    match acc {
        Err(x) => Err(x),
        Ok(out) => {
            let h = trim_seq(e.0);
            let m = trim_seq(e.1);
            if !is_commit_hash_spec(h) {
                Err(MapErrorView::BadHash(h))
            } else if m.len() == 0 {
                Err(MapErrorView::MissingMessage(h))
            } else {
                Ok(out.push((ascii_lower_seq(h), m)))
            }
        },
    }
}

pub open spec fn normalize_upto(entries: Seq<Pair>, n: nat) -> Result<Seq<Pair>, MapErrorView>
    decreases n,
{
    if n == 0 {
        Ok(Seq::empty())
    } else {
        normalize_step(normalize_upto(entries, (n - 1) as nat), entries[n - 1])
    }
}

/// What normalising a list of entries gives: the first failing entry's
/// error, or every entry trimmed with its hash lower-cased.
pub open spec fn normalize_spec(entries: Seq<Pair>) -> Result<Seq<Pair>, MapErrorView> {
    if entries.len() == 0 {
        Err(MapErrorView::NoEntries)
    } else {
        normalize_upto(entries, entries.len())
    }
}

/// Whether `s` is 8 to 40 ASCII hex digits.
pub fn is_commit_hash(s: &[char]) -> (r: bool)
    ensures
        r == is_commit_hash_spec(s@),
{
    if s.len() < 8 || s.len() > 40 {
        return false;
    }
    let mut i: usize = 0;
    while i < s.len()
        invariant
            i <= s@.len(),
            forall|j: int| 0 <= j < i ==> is_hex_digit(#[trigger] s@[j]),
        decreases s@.len() - i,
    {
        if !crate::text::hex_digit(s[i]) {
            return false;
        }
        i = i + 1;
    }
    true
}

fn normalize_pairs(entries: &Vec<(Vec<char>, Vec<char>)>) -> (r: Result<Vec<(String, String)>, MapError>)
    ensures
        match r {
            Ok(v) => normalize_spec(entries@.map_values(|p: (Vec<char>, Vec<char>)| (p.0@, p.1@))) == Ok::<Seq<Pair>, MapErrorView>(pair_views(v@)),
            Err(e) => normalize_spec(entries@.map_values(|p: (Vec<char>, Vec<char>)| (p.0@, p.1@))) == Err::<Seq<Pair>, MapErrorView>(e@),
        },
{
    let ghost ev = entries@.map_values(|p: (Vec<char>, Vec<char>)| (p.0@, p.1@));
    if entries.len() == 0 {
        return Err(MapError::NoEntries);
    }
    let mut out: Vec<(String, String)> = Vec::new();
    let mut i: usize = 0;
    assert(pair_views(out@) =~= Seq::<Pair>::empty());
    while i < entries.len()
        invariant
            i <= entries@.len(),
            ev == entries@.map_values(|p: (Vec<char>, Vec<char>)| (p.0@, p.1@)),
            normalize_upto(ev, i as nat) == Ok::<Seq<Pair>, MapErrorView>(pair_views(out@)),
        decreases entries@.len() - i,
    {
        let h = trim(&entries[i].0);
        let m = trim(&entries[i].1);
        assert(ev[i as int] == (entries@[i as int].0@, entries@[i as int].1@));
        if !is_commit_hash(&h) {
            proof {
                lemma_normalize_err_sticks(ev, (i + 1) as nat, ev.len(), MapErrorView::BadHash(h@));
            }
            return Err(MapError::BadHash(string_of(&h)));
        }
        if m.len() == 0 {
            proof {
                lemma_normalize_err_sticks(ev, (i + 1) as nat, ev.len(), MapErrorView::MissingMessage(h@));
            }
            return Err(MapError::MissingMessage(string_of(&h)));
        }
        let lower = crate::text::to_ascii_lower(&h);
        let ghost prev = out@;
        out.push((string_of(&lower), string_of(&m)));
        assert(pair_views(out@) == pair_views(prev).push((ascii_lower_seq(h@), m@)));
        i = i + 1;
    }
    Ok(out)
}

proof fn lemma_normalize_err_sticks(entries: Seq<Pair>, m: nat, n: nat, e: MapErrorView)
    requires
        m <= n <= entries.len(),
        normalize_upto(entries, m) == Err::<Seq<Pair>, MapErrorView>(e),
    ensures
        normalize_upto(entries, n) == Err::<Seq<Pair>, MapErrorView>(e),
    decreases n - m,
{
    if m < n {
        lemma_normalize_err_sticks(entries, m, (n - 1) as nat, e);
    }
}

/// Checks and normalises the entries of a reword map: every hash is
/// trimmed and must be 8 to 40 hex digits, every message is trimmed and
/// must not be empty; hashes come out lower-case, in entry order.
pub fn normalize_map_entries(entries: &Vec<MapEntry>) -> (r: Result<Vec<(String, String)>, MapError>)
    ensures
        match r {
            Ok(v) => normalize_spec(entry_views(entries@)) == Ok::<Seq<Pair>, MapErrorView>(pair_views(v@)),
            Err(e) => normalize_spec(entry_views(entries@)) == Err::<Seq<Pair>, MapErrorView>(e@),
        },
{
    let mut pairs: Vec<(Vec<char>, Vec<char>)> = Vec::new();
    let mut i: usize = 0;
    while i < entries.len()
        invariant
            i <= entries@.len(),
            pairs@.map_values(|p: (Vec<char>, Vec<char>)| (p.0@, p.1@)) == entry_views(entries@).subrange(0, i as int),
        decreases entries@.len() - i,
    {
        let ghost prev = pairs@;
        pairs.push((chars_of(entries[i].hash.as_str()), chars_of(entries[i].message.as_str())));
        assert(pairs@.map_values(|p: (Vec<char>, Vec<char>)| (p.0@, p.1@)) == prev.map_values(|p: (Vec<char>, Vec<char>)| (p.0@, p.1@)).push(
            (entries@[i as int].hash@, entries@[i as int].message@)));
        assert(entry_views(entries@).subrange(0, i + 1) == entry_views(entries@).subrange(0, i as int).push(
            (entries@[i as int].hash@, entries@[i as int].message@)));
        i = i + 1;
    }
    assert(entry_views(entries@).subrange(0, entries@.len() as int) == entry_views(entries@));
    normalize_pairs(&pairs)
}

/// The id of `o`, in hex, starts with `prefix`.
pub open spec fn oid_has_prefix(o: ObjectId, prefix: Seq<char>) -> bool {
    starts_with_seq(hex_seq(o@), prefix)
}

/// How many of the first `n` ids start with `prefix`.
pub open spec fn count_matches(oids: Seq<ObjectId>, prefix: Seq<char>, n: nat) -> nat
    decreases n,
{
    if n == 0 {
        0
    } else {
        count_matches(oids, prefix, (n - 1) as nat) + if oid_has_prefix(oids[n - 1], prefix) {
            1nat
        } else {
            0nat
        }
    }
}

/// The first of the first `n` ids that starts with `prefix`.
pub open spec fn first_match(oids: Seq<ObjectId>, prefix: Seq<char>, n: nat) -> Option<int>
    decreases n,
{
    if n == 0 {
        None
    } else {
        match first_match(oids, prefix, (n - 1) as nat) {
            Some(i) => Some(i),
            None => if oid_has_prefix(oids[n - 1], prefix) {
                Some(n - 1)
            } else {
                None
            },
        }
    }
}

/// `acc` already holds an update for `k`.
pub open spec fn has_key(acc: Seq<(Seq<u8>, Seq<char>)>, k: Seq<u8>) -> bool {
    exists|i: int| 0 <= i < acc.len() && #[trigger] acc[i].0 == k
}

/// One resolution step: the prefix must name exactly one commit of the
/// range, and that commit must not be named twice.
pub open spec fn resolve_step(
    acc: Result<Seq<(Seq<u8>, Seq<char>)>, MapErrorView>,
    e: Pair,
    oids: Seq<ObjectId>,
) -> Result<Seq<(Seq<u8>, Seq<char>)>, MapErrorView> {
    match acc {
        Err(x) => Err(x),
        Ok(out) => {
            let c = count_matches(oids, e.0, oids.len());
            if c == 0 {
                Err(MapErrorView::PrefixNotFound(e.0))
            } else if c > 1 {
                Err(MapErrorView::AmbiguousPrefix(e.0))
            } else {
                let o = oids[first_match(oids, e.0, oids.len())->0]@;
                if has_key(out, o) {
                    Err(MapErrorView::DuplicateEntry(e.0))
                } else {
                    Ok(out.push((o, e.1)))
                }
            }
        },
    }
}

pub open spec fn resolve_upto(entries: Seq<Pair>, oids: Seq<ObjectId>, n: nat) -> Result<Seq<(Seq<u8>, Seq<char>)>, MapErrorView>
    decreases n,
{
    if n == 0 {
        Ok(Seq::empty())
    } else {
        resolve_step(resolve_upto(entries, oids, (n - 1) as nat), entries[n - 1], oids)
    }
}

/// A resolved map names each commit at most once, and entry `i` goes to
/// a commit of the range whose id starts with the entry's prefix, the only
/// such commit.
pub proof fn resolved_updates_name_distinct_range_commits(entries: Seq<Pair>, oids: Seq<ObjectId>, n: nat)
    requires
        n <= entries.len(),
        resolve_upto(entries, oids, n) is Ok,
    ensures
        ({
            let v = resolve_upto(entries, oids, n)->Ok_0;
            &&& v.len() == n
            &&& forall|i: int, j: int| 0 <= i < j < v.len() ==> v[i].0 != v[j].0
            &&& forall|i: int|
                0 <= i < v.len() ==> count_matches(oids, entries[i].0, oids.len()) == 1 && exists|k: int|
                    0 <= k < oids.len() && #[trigger] oids[k]@ == v[i].0 && oid_has_prefix(oids[k], entries[i].0)
        }),
    decreases n,
{
    if n > 0 {
        let prev = resolve_upto(entries, oids, (n - 1) as nat);
        if prev is Err {
            lemma_resolve_err_sticks(entries, oids, (n - 1) as nat, n, prev->Err_0);
        }
        resolved_updates_name_distinct_range_commits(entries, oids, (n - 1) as nat);
        let out = prev->Ok_0;
        let e = entries[n - 1];
        lemma_first_match_bound(oids, e.0, oids.len());
        let k = first_match(oids, e.0, oids.len())->0;
        let v = resolve_upto(entries, oids, n)->Ok_0;
        assert(v == out.push((oids[k]@, e.1)));
        assert(!has_key(out, oids[k]@));
        assert forall|i: int, j: int| 0 <= i < j < v.len() implies v[i].0 != v[j].0 by {
            if j == v.len() - 1 {
                if v[i].0 == v[j].0 {
                    assert(out[i].0 == oids[k]@);
                }
            } else {
                assert(v[i] == out[i] && v[j] == out[j]);
            }
        }
        assert forall|i: int| 0 <= i < v.len() implies count_matches(oids, entries[i].0, oids.len()) == 1 && exists|kk: int|
            0 <= kk < oids.len() && #[trigger] oids[kk]@ == v[i].0 && oid_has_prefix(oids[kk], entries[i].0) by {
            if i == v.len() - 1 {
                assert(oids[k]@ == v[i].0);
            } else {
                assert(v[i] == out[i]);
            }
        }
    }
}

proof fn lemma_resolve_err_sticks(entries: Seq<Pair>, oids: Seq<ObjectId>, m: nat, n: nat, e: MapErrorView)
    requires
        m <= n <= entries.len(),
        resolve_upto(entries, oids, m) == Err::<Seq<(Seq<u8>, Seq<char>)>, MapErrorView>(e),
    ensures
        resolve_upto(entries, oids, n) == Err::<Seq<(Seq<u8>, Seq<char>)>, MapErrorView>(e),
    decreases n - m,
{
    if m < n {
        lemma_resolve_err_sticks(entries, oids, m, (n - 1) as nat, e);
    }
}

proof fn lemma_first_match_bound(oids: Seq<ObjectId>, prefix: Seq<char>, n: nat)
    ensures
        first_match(oids, prefix, n) matches Some(i) ==> 0 <= i < n && oid_has_prefix(oids[i], prefix),
        first_match(oids, prefix, n) is None <==> count_matches(oids, prefix, n) == 0,
    decreases n,
{
    if n > 0 {
        lemma_first_match_bound(oids, prefix, (n - 1) as nat);
    }
}

fn has_prefix(o: &ObjectId, prefix: &[char]) -> (r: bool)
    ensures
        r == oid_has_prefix(*o, prefix@),
{
    let hex = o.hex_chars();
    crate::text::starts_with(&hex, prefix)
}

/// Resolves each (hash prefix, message) entry to the one commit of the
/// range whose id starts with the prefix.
///
/// Errors, for the first entry that has one: no commit matches the
/// prefix, several do, or the commit was already named by an earlier entry.
pub fn resolve_map(entries: &Vec<(String, String)>, commits_in_range: &Vec<ObjectId>) -> (r: Result<Vec<MessageUpdate>, MapError>)
    ensures
        match r {
            Ok(v) => resolve_upto(pair_views(entries@), commits_in_range@, entries@.len()) == Ok::<Seq<(Seq<u8>, Seq<char>)>, MapErrorView>(update_views(v@)),
            Err(e) => resolve_upto(pair_views(entries@), commits_in_range@, entries@.len()) == Err::<Seq<(Seq<u8>, Seq<char>)>, MapErrorView>(e@),
        },
{
    let ghost ev = pair_views(entries@);
    let ghost oids = commits_in_range@;
    let mut out: Vec<MessageUpdate> = Vec::new();
    let mut i: usize = 0;
    assert(update_views(out@) =~= Seq::<(Seq<u8>, Seq<char>)>::empty());
    while i < entries.len()
        invariant
            i <= entries@.len(),
            ev == pair_views(entries@),
            oids == commits_in_range@,
            resolve_upto(ev, oids, i as nat) == Ok::<Seq<(Seq<u8>, Seq<char>)>, MapErrorView>(update_views(out@)),
        decreases entries@.len() - i,
    {
        let prefix = chars_of(entries[i].0.as_str());
        assert(ev[i as int] == (entries@[i as int].0@, entries@[i as int].1@));
        let mut count: usize = 0;
        let mut first: usize = 0;
        let mut j: usize = 0;
        while j < commits_in_range.len()
            invariant
                j <= oids.len(),
                oids == commits_in_range@,
                count == count_matches(oids, prefix@, j as nat),
                count <= j,
                count > 0 ==> first_match(oids, prefix@, j as nat) == Some(first as int),
            decreases oids.len() - j,
        {
            proof {
                lemma_first_match_bound(oids, prefix@, j as nat);
            }
            if has_prefix(&commits_in_range[j], &prefix) {
                if count == 0 {
                    first = j;
                }
                count = count + 1;
            }
            j = j + 1;
        }
        proof {
            lemma_first_match_bound(oids, prefix@, oids.len());
        }
        if count == 0 {
            proof {
                lemma_resolve_err_sticks(ev, oids, (i + 1) as nat, ev.len(), MapErrorView::PrefixNotFound(prefix@));
            }
            return Err(MapError::PrefixNotFound(string_of(&prefix)));
        }
        if count > 1 {
            proof {
                lemma_resolve_err_sticks(ev, oids, (i + 1) as nat, ev.len(), MapErrorView::AmbiguousPrefix(prefix@));
            }
            return Err(MapError::AmbiguousPrefix(string_of(&prefix)));
        }
        let target = &commits_in_range[first];
        assert(ev.len() == entries@.len());
        assert(first_match(oids, prefix@, oids.len()) == Some(first as int));
        assert(ev[i as int].0 == prefix@);
        let mut k: usize = 0;
        let mut dup = false;
        while k < out.len() && !dup
            invariant
                k <= out@.len(),
                dup ==> has_key(update_views(out@), target@),
                !dup ==> forall|m: int| 0 <= m < k ==> update_views(out@)[m].0 != target@,
            decreases out@.len() - k,
        {
            if out[k].oid.same(target) {
                assert(update_views(out@)[k as int].0 == target@);
                dup = true;
            }
            k = k + 1;
        }
        if dup {
            proof {
                lemma_resolve_err_sticks(ev, oids, (i + 1) as nat, ev.len(), MapErrorView::DuplicateEntry(prefix@));
            }
            return Err(MapError::DuplicateEntry(string_of(&prefix)));
        }
        assert(!has_key(update_views(out@), target@));
        let ghost prev = out@;
        out.push(MessageUpdate { oid: target.copy(), message: string_of(&chars_of(entries[i].1.as_str())) });
        assert(update_views(out@) == update_views(prev).push((target@, entries@[i as int].1@)));
        i = i + 1;
    }
    Ok(out)
}

/// `str::replace("\r\n", "\n")`.
pub open spec fn crlf_to_lf(s: Seq<char>) -> Seq<char>
    decreases s.len(),
{
    if s.len() == 0 {
        Seq::empty()
    } else if s.len() >= 2 && s[0] == '\r' && s[1] == '\n' {
        seq!['\n'] + crlf_to_lf(s.subrange(2, s.len() as int))
    } else {
        seq![s[0]] + crlf_to_lf(s.drop_first())
    }
}

/// `parts.join(sep)`.
pub open spec fn join_seq(parts: Seq<Seq<char>>, sep: Seq<char>) -> Seq<char>
    decreases parts.len(),
{
    if parts.len() == 0 {
        Seq::empty()
    } else if parts.len() == 1 {
        parts[0]
    } else {
        join_seq(parts.drop_last(), sep) + sep + parts.last()
    }
}

/// A line that is neither blank nor a `#` comment.
pub open spec fn is_content_line(line: Seq<char>) -> bool {
    trim_seq(line).len() > 0 && trim_seq(line)[0] != '#'
}

/// Index of the first content line at or after `i`.
pub open spec fn first_content(ls: Seq<Seq<char>>, i: int) -> Option<int>
    decreases ls.len() - i,
{
    if i < 0 || i >= ls.len() {
        None
    } else if is_content_line(ls[i]) {
        Some(i)
    } else {
        first_content(ls, i + 1)
    }
}

/// The pattern a hash line of a block map must match.
pub open spec fn hash_line_pattern() -> Seq<char> {
    seq!['^', '[', '0', '-', '9', 'a', '-', 'f', 'A', '-', 'F', ']', '{', '8', ',', '4', '0', '}', '$']
}

/// What one block of a block map gives: nothing (a blank or comment-only
/// block), an entry, or an error.
pub open spec fn block_spec(block: Seq<char>) -> Option<Result<Pair, MapErrorView>> {
    let b = trim_seq(block);
    if b.len() == 0 {
        None
    } else {
        let ls = lines_seq(b);
        match first_content(ls, 0) {
            None => None,
            Some(k) => {
                let h = trim_seq(ls[k]);
                if !(regex_compiles(hash_line_pattern()) && regex_matches(hash_line_pattern(), h)) {
                    Some(Err(MapErrorView::BadHashLine(h)))
                } else {
                    let m = trim_seq(join_seq(ls.subrange(k + 1, ls.len() as int), seq!['\n']));
                    if m.len() == 0 {
                        Some(Err(MapErrorView::MissingBlockMessage(h)))
                    } else {
                        Some(Ok((lowercase_spec(h), m)))
                    }
                }
            },
        }
    }
}

pub open spec fn blocks_upto(blocks: Seq<Seq<char>>, n: nat) -> Result<Seq<Pair>, MapErrorView>
    decreases n,
{
    if n == 0 {
        Ok(Seq::empty())
    } else {
        match blocks_upto(blocks, (n - 1) as nat) {
            Err(e) => Err(e),
            Ok(acc) => match block_spec(blocks[n - 1]) {
                None => Ok(acc),
                Some(Err(e)) => Err(e),
                Some(Ok(p)) => Ok(acc.push(p)),
            },
        }
    }
}

/// The separator line between blocks of a block map.
pub open spec fn block_separator() -> Seq<char> {
    seq!['\n', '-', '-', '-', '\n']
}

/// What a block map text gives: its blocks are the pieces between lines
/// that hold only `---` (after CRLF line ends become LF); each non-empty
/// block starts with a hash line (blank and `#` lines before it are
/// skipped) followed by the message.
pub open spec fn parse_map_file_spec(text: Seq<char>) -> Result<Seq<Pair>, MapErrorView> {
    let blocks = split_seq(crlf_to_lf(text), block_separator());
    match blocks_upto(blocks, blocks.len()) {
        Err(e) => Err(e),
        Ok(v) => if v.len() == 0 {
            Err(MapErrorView::NoBlocks)
        } else {
            Ok(v)
        },
    }
}

fn crlf_to_lf_exec(v: &[char]) -> (r: Vec<char>)
    ensures
        r@ == crlf_to_lf(v@),
{
    let mut out: Vec<char> = Vec::new();
    let mut i: usize = 0;
    assert(v@.subrange(0, v@.len() as int) == v@);
    while i < v.len()
        invariant
            i <= v@.len(),
            crlf_to_lf(v@) == out@ + crlf_to_lf(v@.subrange(i as int, v@.len() as int)),
        decreases v@.len() - i,
    {
        let ghost rest = v@.subrange(i as int, v@.len() as int);
        if i + 1 < v.len() && v[i] == '\r' && v[i + 1] == '\n' {
            out.push('\n');
            assert(rest.subrange(2, rest.len() as int) == v@.subrange(i + 2, v@.len() as int));
            i = i + 2;
        } else {
            out.push(v[i]);
            assert(rest.drop_first() == v@.subrange(i + 1, v@.len() as int));
            i = i + 1;
        }
    }
    assert(crlf_to_lf(v@.subrange(v@.len() as int, v@.len() as int)) == Seq::<char>::empty());
    out
}

pub(crate) fn join_lines(parts: &Vec<Vec<char>>, from: usize) -> (r: Vec<char>)
    requires
        from <= parts@.len(),
    ensures
        r@ == join_seq(views(parts@).subrange(from as int, parts@.len() as int), seq!['\n']),
{
    let mut out: Vec<char> = Vec::new();
    let mut i = from;
    assert(views(parts@).subrange(from as int, from as int) =~= Seq::<Seq<char>>::empty());
    while i < parts.len()
        invariant
            from <= i <= parts@.len(),
            out@ == join_seq(views(parts@).subrange(from as int, i as int), seq!['\n']),
        decreases parts@.len() - i,
    {
        let ghost before = views(parts@).subrange(from as int, i as int);
        let ghost after = views(parts@).subrange(from as int, i + 1);
        assert(after.drop_last() == before);
        assert(after.last() == parts@[i as int]@);
        if i > from {
            out.push('\n');
        }
        crate::text::append(&mut out, &parts[i]);
        i = i + 1;
    }
    out
}

fn first_content_exec(ls: &Vec<Vec<char>>) -> (r: Option<usize>)
    ensures
        match r {
            Some(k) => first_content(views(ls@), 0) == Some(k as int) && k < ls@.len(),
            None => first_content(views(ls@), 0) is None,
        },
{
    let mut i: usize = 0;
    while i < ls.len()
        invariant
            i <= ls@.len(),
            first_content(views(ls@), 0) == first_content(views(ls@), i as int),
        decreases ls@.len() - i,
    {
        let t = trim(&ls[i]);
        assert(views(ls@)[i as int] == ls@[i as int]@);
        if t.len() > 0 && t[0] != '#' {
            return Some(i);
        }
        i = i + 1;
    }
    None
}

fn block_exec(block: &[char], hash_re: &Option<crate::wrappers::CompiledRegex>) -> (r: Option<Result<(String, String), MapError>>)
    requires
        hash_re is Some <==> regex_compiles(hash_line_pattern()),
        hash_re matches Some(c) ==> c.pattern_spec() == hash_line_pattern(),
    ensures
        match r {
            None => block_spec(block@) is None,
            Some(Ok(p)) => block_spec(block@) == Some(Ok::<Pair, MapErrorView>((p.0@, p.1@))),
            Some(Err(e)) => block_spec(block@) == Some(Err::<Pair, MapErrorView>(e@)),
        },
{
    let b = trim(block);
    if b.len() == 0 {
        return None;
    }
    let ls = crate::text::lines(&b);
    match first_content_exec(&ls) {
        None => None,
        Some(k) => {
            let h = trim(&ls[k]);
            assert(views(ls@)[k as int] == ls@[k as int]@);
            let hs = string_of(&h);
            let ok = match hash_re {
                Some(re) => crate::wrappers::regex_is_match(re, hs.as_str()),
                None => false,
            };
            if !ok {
                return Some(Err(MapError::BadHashLine(hs)));
            }
            let n = ls.len();
            assert(k < n);
            let joined = join_lines(&ls, k + 1);
            let m = trim(&joined);
            if m.len() == 0 {
                return Some(Err(MapError::MissingBlockMessage(hs)));
            }
            let lower = crate::wrappers::to_lowercase(hs.as_str());
            Some(Ok((lower, string_of(&m))))
        },
    }
}

/// Parses a block map: hash-keyed messages separated by `---` lines.
///
/// Errors: a block whose first line is not a commit hash, a block with an
/// empty message (for the first such block), or no block at all.
pub fn parse_map_file(text: &str) -> (r: Result<Vec<(String, String)>, MapError>)
    ensures
        match r {
            Ok(v) => parse_map_file_spec(text@) == Ok::<Seq<Pair>, MapErrorView>(pair_views(v@)),
            Err(e) => parse_map_file_spec(text@) == Err::<Seq<Pair>, MapErrorView>(e@),
        },
{
    let chars = chars_of(text);
    let normalized = crlf_to_lf_exec(&chars);
    let sep: Vec<char> = vec!['\n', '-', '-', '-', '\n'];
    assert(sep@ == block_separator());
    let blocks = crate::text::split(&normalized, &sep);
    let ghost bv = views(blocks@);
    let pattern = string_of(&vec!['^', '[', '0', '-', '9', 'a', '-', 'f', 'A', '-', 'F', ']', '{', '8', ',', '4', '0', '}', '$']);
    assert(pattern@ == hash_line_pattern());
    let hash_re = crate::wrappers::regex_new(pattern.as_str());
    let mut out: Vec<(String, String)> = Vec::new();
    let mut i: usize = 0;
    assert(pair_views(out@) =~= Seq::<Pair>::empty());
    while i < blocks.len()
        invariant
            i <= blocks@.len(),
            bv == views(blocks@),
            bv == split_seq(crlf_to_lf(text@), block_separator()),
            hash_re is Some <==> regex_compiles(hash_line_pattern()),
            hash_re matches Some(c) ==> c.pattern_spec() == hash_line_pattern(),
            blocks_upto(bv, i as nat) == Ok::<Seq<Pair>, MapErrorView>(pair_views(out@)),
        decreases blocks@.len() - i,
    {
        assert(bv[i as int] == blocks@[i as int]@);
        match block_exec(&blocks[i], &hash_re) {
            None => {},
            Some(Err(e)) => {
                proof {
                    lemma_blocks_err_sticks(bv, (i + 1) as nat, bv.len(), e@);
                }
                return Err(e);
            },
            Some(Ok(p)) => {
                let ghost prev = out@;
                out.push(p);
                assert(pair_views(out@) == pair_views(prev).push((p.0@, p.1@)));
            },
        }
        i = i + 1;
    }
    if out.len() == 0 {
        return Err(MapError::NoBlocks);
    }
    Ok(out)
}

proof fn lemma_blocks_err_sticks(blocks: Seq<Seq<char>>, m: nat, n: nat, e: MapErrorView)
    requires
        m <= n <= blocks.len(),
        blocks_upto(blocks, m) == Err::<Seq<Pair>, MapErrorView>(e),
    ensures
        blocks_upto(blocks, n) == Err::<Seq<Pair>, MapErrorView>(e),
    decreases n - m,
{
    if m < n {
        lemma_blocks_err_sticks(blocks, m, (n - 1) as nat, e);
    }
}

pub open spec fn key_hash() -> Seq<char> {
    seq!['h', 'a', 's', 'h']
}

pub open spec fn key_message() -> Seq<char> {
    seq!['m', 'e', 's', 's', 'a', 'g', 'e']
}

pub open spec fn key_version() -> Seq<char> {
    seq!['v', 'e', 'r', 's', 'i', 'o', 'n']
}

pub open spec fn key_entries() -> Seq<char> {
    seq!['e', 'n', 't', 'r', 'i', 'e', 's']
}

/// A JSON number that reads as a `u32`.
pub open spec fn is_u32_value(v: JsonValue) -> bool {
    match v {
        JsonValue::Number(JsonNumber::PosInt(n)) => n <= u32::MAX,
        _ => false,
    }
}

/// A map entry read from JSON: an object with string `hash` and
/// `message` members, or a two-element array of strings.
pub open spec fn entry_from_json(v: JsonValue) -> Option<Pair> {
    match v {
        JsonValue::Object(m) => match (member_spec(m@, key_hash()), member_spec(m@, key_message())) {
            (Some(JsonValue::Str(h)), Some(JsonValue::Str(msg))) => Some((h@, msg@)),
            _ => None,
        },
        JsonValue::Array(a) => if a@.len() == 2 {
            match (a@[0], a@[1]) {
                (JsonValue::Str(h), JsonValue::Str(msg)) => Some((h@, msg@)),
                _ => None,
            }
        } else {
            None
        },
        _ => None,
    }
}

/// All of the first `n` items read as entries.
pub open spec fn entries_from_json(items: Seq<JsonValue>, n: nat) -> Option<Seq<Pair>>
    decreases n,
{
    if n == 0 {
        Some(Seq::empty())
    } else {
        match (entries_from_json(items, (n - 1) as nat), entry_from_json(items[n - 1])) {
            (Some(acc), Some(e)) => Some(acc.push(e)),
            _ => None,
        }
    }
}

/// The entries of a map document: `{ "version": u32 (optional),
/// "entries": [ entry, ... ] }`, or the same two fields as an array.
pub open spec fn document_entries(v: JsonValue) -> Option<Seq<Pair>> {
    match v {
        JsonValue::Object(m) => {
            let version_ok = match member_spec(m@, key_version()) {
                None => true,
                Some(x) => is_u32_value(x),
            };
            match member_spec(m@, key_entries()) {
                Some(JsonValue::Array(items)) => if version_ok {
                    entries_from_json(items@, items@.len())
                } else {
                    None
                },
                _ => None,
            }
        },
        JsonValue::Array(a) => if a@.len() == 2 && is_u32_value(a@[0]) {
            match a@[1] {
                JsonValue::Array(items) => entries_from_json(items@, items@.len()),
                _ => None,
            }
        } else {
            None
        },
        _ => None,
    }
}

/// The first `n` members all hold strings: their (key, string) pairs.
pub open spec fn flat_upto(members: Seq<(String, JsonValue)>, n: nat) -> Option<Seq<Pair>>
    decreases n,
{
    if n == 0 {
        Some(Seq::empty())
    } else {
        match (flat_upto(members, (n - 1) as nat), members[n - 1].1) {
            (Some(acc), JsonValue::Str(msg)) => Some(acc.push((members[n - 1].0@, msg@))),
            _ => None,
        }
    }
}

/// The entries of a flat map `{ "hash": "message", ... }`.
pub open spec fn flat_entries(v: JsonValue) -> Option<Seq<Pair>> {
    match v {
        JsonValue::Object(m) => flat_upto(m@, m@.len()),
        _ => None,
    }
}

/// What a JSON reword map gives: the document shape is tried first, then
/// the flat shape; the entries are then normalised.
pub open spec fn parse_map_spec(v: JsonValue) -> Result<Seq<Pair>, MapErrorView> {
    match document_entries(v) {
        Some(e) => normalize_spec(e),
        None => match flat_entries(v) {
            Some(e) => normalize_spec(e),
            None => Err(MapErrorView::NotAMap),
        },
    }
}

fn is_u32_number(v: &JsonValue) -> (r: bool)
    ensures
        r == is_u32_value(*v),
{
    match v {
        JsonValue::Number(JsonNumber::PosInt(n)) => *n <= 4294967295u64,
        _ => false,
    }
}

fn str_chars(v: &JsonValue) -> (r: Option<Vec<char>>)
    ensures
        match r {
            Some(c) => v matches JsonValue::Str(s) && c@ == s@,
            None => !(v is Str),
        },
{
    match v {
        JsonValue::Str(s) => Some(chars_of(s.as_str())),
        _ => None,
    }
}

fn entry_exec(v: &JsonValue) -> (r: Option<(Vec<char>, Vec<char>)>)
    ensures
        match r {
            Some(p) => entry_from_json(*v) == Some((p.0@, p.1@)),
            None => entry_from_json(*v) is None,
        },
{
    match v {
        JsonValue::Object(m) => {
            let hk = "hash";
            let mk = "message";
            proof {
                reveal_strlit("hash");
                reveal_strlit("message");
            }
            assert(hk@ == key_hash());
            assert(mk@ == key_message());
            match (member(m, hk), member(m, mk)) {
                (Some(h), Some(msg)) => match (str_chars(h), str_chars(msg)) {
                    (Some(a), Some(b)) => Some((a, b)),
                    _ => None,
                },
                _ => None,
            }
        },
        JsonValue::Array(a) => {
            if a.len() == 2 {
                match (str_chars(&a[0]), str_chars(&a[1])) {
                    (Some(x), Some(y)) => Some((x, y)),
                    _ => None,
                }
            } else {
                None
            }
        },
        _ => None,
    }
}

fn entries_exec(items: &Vec<JsonValue>) -> (r: Option<Vec<(Vec<char>, Vec<char>)>>)
    ensures
        match r {
            Some(v) => entries_from_json(items@, items@.len()) == Some(v@.map_values(|p: (Vec<char>, Vec<char>)| (p.0@, p.1@))),
            None => entries_from_json(items@, items@.len()) is None,
        },
{
    let mut out: Vec<(Vec<char>, Vec<char>)> = Vec::new();
    let mut i: usize = 0;
    assert(out@.map_values(|p: (Vec<char>, Vec<char>)| (p.0@, p.1@)) =~= Seq::<Pair>::empty());
    while i < items.len()
        invariant
            i <= items@.len(),
            entries_from_json(items@, i as nat) == Some(out@.map_values(|p: (Vec<char>, Vec<char>)| (p.0@, p.1@))),
        decreases items@.len() - i,
    {
        match entry_exec(&items[i]) {
            None => {
                proof {
                    lemma_entries_none_sticks(items@, (i + 1) as nat, items@.len());
                }
                return None;
            },
            Some(p) => {
                let ghost prev = out@;
                out.push(p);
                assert(out@.map_values(|p: (Vec<char>, Vec<char>)| (p.0@, p.1@)) == prev.map_values(
                    |p: (Vec<char>, Vec<char>)| (p.0@, p.1@),
                ).push((p.0@, p.1@)));
            },
        }
        i = i + 1;
    }
    Some(out)
}

proof fn lemma_entries_none_sticks(items: Seq<JsonValue>, m: nat, n: nat)
    requires
        m <= n <= items.len(),
        entries_from_json(items, m) is None,
    ensures
        entries_from_json(items, n) is None,
    decreases n - m,
{
    if m < n {
        lemma_entries_none_sticks(items, m, (n - 1) as nat);
    }
}

proof fn lemma_flat_none_sticks(members: Seq<(String, JsonValue)>, m: nat, n: nat)
    requires
        m <= n <= members.len(),
        flat_upto(members, m) is None,
    ensures
        flat_upto(members, n) is None,
    decreases n - m,
{
    if m < n {
        lemma_flat_none_sticks(members, m, (n - 1) as nat);
    }
}

fn document_exec(v: &JsonValue) -> (r: Option<Vec<(Vec<char>, Vec<char>)>>)
    ensures
        match r {
            Some(e) => document_entries(*v) == Some(e@.map_values(|p: (Vec<char>, Vec<char>)| (p.0@, p.1@))),
            None => document_entries(*v) is None,
        },
{
    match v {
        JsonValue::Object(m) => {
            let vk = "version";
            let ek = "entries";
            proof {
                reveal_strlit("version");
                reveal_strlit("entries");
            }
            assert(vk@ == key_version());
            assert(ek@ == key_entries());
            let version_ok = match member(m, vk) {
                None => true,
                Some(x) => is_u32_number(x),
            };
            match member(m, ek) {
                Some(JsonValue::Array(items)) => if version_ok {
                    entries_exec(items)
                } else {
                    None
                },
                _ => None,
            }
        },
        JsonValue::Array(a) => {
            if a.len() == 2 && is_u32_number(&a[0]) {
                match &a[1] {
                    JsonValue::Array(items) => entries_exec(items),
                    _ => None,
                }
            } else {
                None
            }
        },
        _ => None,
    }
}

fn flat_exec(v: &JsonValue) -> (r: Option<Vec<(Vec<char>, Vec<char>)>>)
    ensures
        match r {
            Some(e) => flat_entries(*v) == Some(e@.map_values(|p: (Vec<char>, Vec<char>)| (p.0@, p.1@))),
            None => flat_entries(*v) is None,
        },
{
    match v {
        JsonValue::Object(m) => {
            let mut out: Vec<(Vec<char>, Vec<char>)> = Vec::new();
            let mut i: usize = 0;
            assert(out@.map_values(|p: (Vec<char>, Vec<char>)| (p.0@, p.1@)) =~= Seq::<Pair>::empty());
            while i < m.len()
                invariant
                    i <= m@.len(),
                    *v == JsonValue::Object(*m),
                    flat_upto(m@, i as nat) == Some(out@.map_values(|p: (Vec<char>, Vec<char>)| (p.0@, p.1@))),
                decreases m@.len() - i,
            {
                match str_chars(&m[i].1) {
                    None => {
                        proof {
                            lemma_flat_none_sticks(m@, (i + 1) as nat, m@.len());
                        }
                        return None;
                    },
                    Some(msg) => {
                        let ghost prev = out@;
                        out.push((chars_of(m[i].0.as_str()), msg));
                        assert(out@.map_values(|p: (Vec<char>, Vec<char>)| (p.0@, p.1@)) == prev.map_values(
                            |p: (Vec<char>, Vec<char>)| (p.0@, p.1@),
                        ).push((m@[i as int].0@, msg@)));
                    },
                }
                i = i + 1;
            }
            Some(out)
        },
        _ => None,
    }
}

/// Reads a JSON reword map: the document shape
/// `{ "version": 1, "entries": [ { "hash": .., "message": .. } ] }` is
/// tried first, then a flat `{ "hash": "message", ... }` object; the
/// entries are then checked and normalised as [`normalize_map_entries`] does.
pub fn parse_map(doc: &JsonValue) -> (r: Result<Vec<(String, String)>, MapError>)
    ensures
        match r {
            Ok(v) => parse_map_spec(*doc) == Ok::<Seq<Pair>, MapErrorView>(pair_views(v@)),
            Err(e) => parse_map_spec(*doc) == Err::<Seq<Pair>, MapErrorView>(e@),
        },
{
    match document_exec(doc) {
        Some(entries) => normalize_pairs(&entries),
        None => match flat_exec(doc) {
            Some(entries) => normalize_pairs(&entries),
            None => Err(MapError::NotAMap),
        },
    }
}

/// `item` is the exported form of one entry: `{ "hash": .., "message": .. }`.
pub open spec fn exported_entry(item: JsonValue, e: Pair) -> bool {
    match item {
        JsonValue::Object(f) => {
            &&& f@.len() == 2
            &&& f@[0].0@ == key_hash()
            &&& f@[0].1 matches JsonValue::Str(h) && h@ == e.0
            &&& f@[1].0@ == key_message()
            &&& f@[1].1 matches JsonValue::Str(msg) && msg@ == e.1
        },
        _ => false,
    }
}

/// `doc` is the exported map document of `entries`:
/// `{ "version": 1, "entries": [ { "hash": .., "message": .. }, ... ] }`.
pub open spec fn exported_document(doc: JsonValue, entries: Seq<Pair>) -> bool {
    match doc {
        JsonValue::Object(m) => {
            &&& m@.len() == 2
            &&& m@[0].0@ == key_version()
            &&& m@[0].1 == JsonValue::Number(JsonNumber::PosInt(1))
            &&& m@[1].0@ == key_entries()
            &&& match m@[1].1 {
                JsonValue::Array(items) => items@.len() == entries.len() && forall|i: int|
                    0 <= i < entries.len() ==> exported_entry(#[trigger] items@[i], entries[i]),
                _ => false,
            }
        },
        _ => false,
    }
}

proof fn lemma_exported_entries(items: Seq<JsonValue>, entries: Seq<Pair>, n: nat)
    requires
        n <= items.len(),
        items.len() == entries.len(),
        forall|i: int| 0 <= i < entries.len() ==> exported_entry(#[trigger] items[i], entries[i]),
    ensures
        entries_from_json(items, n) == Some(entries.subrange(0, n as int)),
    decreases n,
{
    if n > 0 {
        lemma_exported_entries(items, entries, (n - 1) as nat);
        let item = items[n - 1];
        assert(exported_entry(item, entries[n - 1]));
        if let JsonValue::Object(f) = item {
            assert(f@[0].0@ != key_message());
            assert(f@.drop_first()[0] == f@[1]);
            assert(member_spec(f@, key_hash()) == Some(f@[0].1));
            assert(member_spec(f@.drop_first(), key_message()) == Some(f@[1].1));
            assert(member_spec(f@, key_message()) == Some(f@[1].1));
        }
        assert(entries.subrange(0, n as int) == entries.subrange(0, n - 1).push(entries[n - 1]));
    }
}

/// The exported map document reads back as its entries: reading it gives
/// exactly what checking and normalising those entries gives.
pub proof fn exported_document_reads_back(doc: JsonValue, entries: Seq<Pair>)
    requires
        exported_document(doc, entries),
    ensures
        parse_map_spec(doc) == normalize_spec(entries),
{
    if let JsonValue::Object(m) = doc {
        assert(key_version()[0] != key_entries()[0]);
        assert(m@[0].0@ != key_entries());
        assert(m@.drop_first()[0] == m@[1]);
        assert(member_spec(m@, key_version()) == Some(m@[0].1));
        assert(member_spec(m@.drop_first(), key_entries()) == Some(m@[1].1));
        assert(member_spec(m@, key_entries()) == Some(m@[1].1));
        if let JsonValue::Array(items) = m@[1].1 {
            lemma_exported_entries(items@, entries, items@.len());
            assert(entries.subrange(0, entries.len() as int) == entries);
        }
    }
}

/// The (hex id, message) pairs of `(id, message)` entries.
pub open spec fn hex_pairs(entries: Seq<(ObjectId, String)>) -> Seq<Pair> {
    entries.map_values(|e: (ObjectId, String)| (hex_seq(e.0@), e.1@))
}

/// The JSON map template for `(id, message)` entries:
/// `{ "version": 1, "entries": [ { "hash": <hex id>, "message": .. }, ... ] }`.
pub fn export_map_document(entries: &Vec<(ObjectId, String)>) -> (r: JsonValue)
    ensures
        exported_document(r, hex_pairs(entries@)),
{
    let mut items: Vec<JsonValue> = Vec::new();
    let mut i: usize = 0;
    let hk = "hash";
    let mk = "message";
    proof {
        reveal_strlit("hash");
        reveal_strlit("message");
    }
    assert(hk@ == key_hash());
    assert(mk@ == key_message());
    while i < entries.len()
        invariant
            i <= entries@.len(),
            hk@ == key_hash(),
            mk@ == key_message(),
            items@.len() == i,
            forall|k: int| 0 <= k < i ==> exported_entry(#[trigger] items@[k], hex_pairs(entries@)[k]),
        decreases entries@.len() - i,
    {
        let mut fields: Vec<(String, JsonValue)> = Vec::new();
        fields.push((string_of(&chars_of(hk)), JsonValue::Str(string_of(&entries[i].0.hex_chars()))));
        fields.push((string_of(&chars_of(mk)), JsonValue::Str(string_of(&chars_of(entries[i].1.as_str())))));
        items.push(JsonValue::Object(fields));
        i = i + 1;
    }
    let vk = "version";
    let ek = "entries";
    proof {
        reveal_strlit("version");
        reveal_strlit("entries");
    }
    assert(vk@ == key_version());
    assert(ek@ == key_entries());
    let mut members: Vec<(String, JsonValue)> = Vec::new();
    members.push((string_of(&chars_of(vk)), JsonValue::Number(JsonNumber::PosInt(1))));
    members.push((string_of(&chars_of(ek)), JsonValue::Array(items)));
    JsonValue::Object(members)
}

} // verus!
