//! Blob inventory of an object database: counting trees and blobs,
//! ranking blobs by size and the report printed for them.

use vstd::prelude::*;

use crate::oid::{hex_seq, take8, ObjectId};
use crate::text::{append, chars_of, decimal, decimal_seq, string_of};

verus! {

/// Whether a blob holds text or binary data.
#[derive(Debug, Clone, Copy, PartialEq, Eq, Structural)]
pub enum BlobFormat {
    /// It holds a NUL byte.
    Binary,
    /// It holds no NUL byte.
    Text,
}

impl BlobFormat {
    /// The usual NUL-byte test: binary when some byte is 0.
    pub fn from_bytes(data: &[u8]) -> (r: Self)
        ensures
            r == (if data@.contains(0u8) {
                BlobFormat::Binary
            } else {
                BlobFormat::Text
            }),
    {
        let mut i: usize = 0;
        while i < data.len()
            invariant
                i <= data@.len(),
                forall|k: int| 0 <= k < i ==> data@[k] != 0u8,
            decreases data@.len() - i,
        {
            if data[i] == 0u8 {
                assert(data@[i as int] == 0u8);
                return BlobFormat::Binary;
            }
            i = i + 1;
        }
        BlobFormat::Text
    }

    /// The name printed for the format.
    pub open spec fn name_spec(self) -> Seq<char> {
        match self {
            BlobFormat::Binary => "Binary"@,
            BlobFormat::Text => "Text"@,
        }
    }

    /// The name printed for the format.
    pub fn name(&self) -> (r: Vec<char>)
        ensures
            r@ == self.name_spec(),
    {
        match self {
            BlobFormat::Binary => chars_of("Binary"),
            BlobFormat::Text => chars_of("Text"),
        }
    }
}

/// One blob: its id, size in bytes and format.
#[derive(Debug)]
pub struct BlobItem {
    pub id: ObjectId,
    pub size: usize,
    pub format: BlobFormat,
}

/// A blob's fields as values.
pub type BlobView = (Seq<u8>, usize, BlobFormat);

impl BlobItem {
    pub open spec fn view_tuple(&self) -> BlobView {
        (self.id@, self.size, self.format)
    }

    /// The item's report cell: size right-aligned to nine columns, id, format.
    pub open spec fn line_spec(&self) -> Seq<char> {
        binary_size_text(self.size as int, 9) + " | "@ + hex_seq(self.id@) + " | "@ + self.format.name_spec()
    }

    /// The item as the report prints it: `{size:>9} | {id} | {format}`.
    pub fn line(&self) -> (r: Vec<char>)
        ensures
            r@ == self.line_spec(),
    {
        let mut out = chars_of(format_binary_size(self.size as u64, 9).as_str());
        append(&mut out, &chars_of(" | "));
        append(&mut out, &self.id.hex_chars());
        append(&mut out, &chars_of(" | "));
        append(&mut out, &self.format.name());
        out
    }
}

/// How `byte_unit` prints `bytes` in the largest binary unit that keeps the
/// value at least one (`B`, `KiB`, `MiB`, ...), padded on the left to
/// `width` columns.
pub uninterp spec fn binary_size_text(bytes: int, width: int) -> Seq<char>;

/// `byte_unit::Byte::from_u64(bytes).get_appropriate_unit(UnitType::Binary)`
/// formatted right-aligned to `width`.
#[verifier::external_body]
pub(crate) fn format_binary_size(bytes: u64, width: usize) -> (r: String)
    ensures
        r@ == binary_size_text(bytes as int, width as int),
{
    let adjusted = byte_unit::Byte::from_u64(bytes).get_appropriate_unit(byte_unit::UnitType::Binary);
    format!("{:>width$}", adjusted, width = width)
}

/// Kind of an object of the database.
#[derive(Debug, Clone, Copy, PartialEq, Eq, Structural)]
pub enum ObjectKind {
    Tree,
    Blob,
    Commit,
    Tag,
}

/// The trees and blobs met while scanning an object database, with the
/// total blob size.
pub struct Inventory {
    pub trees: Vec<ObjectId>,
    pub blobs: Vec<ObjectId>,
    pub blob_size: u64,
}

pub open spec fn oid_views(v: Seq<ObjectId>) -> Seq<Seq<u8>> {
    v.map_values(|o: ObjectId| o@)
}

impl Inventory {
    /// An empty inventory.
    pub fn new() -> (r: Inventory)
        ensures
            r.trees@.len() == 0,
            r.blobs@.len() == 0,
            r.blob_size == 0,
    {
        Inventory { trees: Vec::new(), blobs: Vec::new(), blob_size: 0 }
    }

    /// Forgets everything recorded.
    pub fn clear(&mut self)
        ensures
            final(self).trees@.len() == 0,
            final(self).blobs@.len() == 0,
            final(self).blob_size == 0,
    {
        self.trees = Vec::new();
        self.blobs = Vec::new();
        self.blob_size = 0;
    }

    /// Records one object: a tree or a blob is listed, a blob's size is
    /// added to the total, commits and tags are skipped.
    pub fn record(&mut self, oid: ObjectId, kind: ObjectKind, size: u64)
        requires
            kind == ObjectKind::Blob ==> old(self).blob_size + size <= u64::MAX,
        ensures
            oid_views(final(self).trees@) == if kind == ObjectKind::Tree {
                oid_views(old(self).trees@).push(oid@)
            } else {
                oid_views(old(self).trees@)
            },
            oid_views(final(self).blobs@) == if kind == ObjectKind::Blob {
                oid_views(old(self).blobs@).push(oid@)
            } else {
                oid_views(old(self).blobs@)
            },
            final(self).blob_size == if kind == ObjectKind::Blob {
                old(self).blob_size + size
            } else {
                old(self).blob_size as int
            },
    {
        let ghost trees = self.trees@;
        let ghost blobs = self.blobs@;
        match kind {
            ObjectKind::Tree => {
                self.trees.push(oid);
                assert(oid_views(self.trees@) =~= oid_views(trees).push(oid@));
            },
            ObjectKind::Blob => {
                self.blob_size = self.blob_size + size;
                self.blobs.push(oid);
                assert(oid_views(self.blobs@) =~= oid_views(blobs).push(oid@));
            },
            ObjectKind::Commit => {},
            ObjectKind::Tag => {},
        }
    }

    /// Records one object as [`Inventory::record`] does, unless it is a blob
    /// whose size would carry the total past `u64::MAX`: then nothing
    /// changes and `false` is returned.
    pub fn try_record(&mut self, oid: ObjectId, kind: ObjectKind, size: u64) -> (r: bool)
        ensures
            r <==> (kind != ObjectKind::Blob || old(self).blob_size + size <= u64::MAX),
            oid_views(final(self).trees@) == if r && kind == ObjectKind::Tree {
                oid_views(old(self).trees@).push(oid@)
            } else {
                oid_views(old(self).trees@)
            },
            oid_views(final(self).blobs@) == if r && kind == ObjectKind::Blob {
                oid_views(old(self).blobs@).push(oid@)
            } else {
                oid_views(old(self).blobs@)
            },
            final(self).blob_size == if r && kind == ObjectKind::Blob {
                old(self).blob_size + size
            } else {
                old(self).blob_size as int
            },
    {
        if kind == ObjectKind::Blob && self.blob_size.checked_add(size).is_none() {
            return false;
        }
        self.record(oid, kind, size);
        true
    }

    /// The total blob size, printed in binary units.
    pub fn all_size(&self) -> (r: String)
        ensures
            r@ == binary_size_text(self.blob_size as int, 0),
    {
        format_binary_size(self.blob_size, 0)
    }

    /// The counts printed before the ranking.
    pub fn summary(&self) -> (r: BlobScanSummary)
        ensures
            r.blob_count == self.blobs@.len(),
            r.tree_count == self.trees@.len(),
            r.total_size@ == binary_size_text(self.blob_size as int, 0),
    {
        BlobScanSummary { blob_count: self.blobs.len(), tree_count: self.trees.len(), total_size: self.all_size() }
    }
}

/// Counts shown before the ranking.
#[derive(Debug)]
pub struct BlobScanSummary {
    pub blob_count: usize,
    pub tree_count: usize,
    /// Total blob size, human readable.
    pub total_size: String,
}

/// Blob `a` comes before blob `b`: it is larger, or as large and earlier.
pub open spec fn ranked_before(sizes: Seq<usize>, a: int, b: int) -> bool {
    sizes[a] > sizes[b] || (sizes[a] == sizes[b] && a < b)
}

/// `order` lists every index of `sizes` once, largest first, equal sizes
/// in their original order.
pub open spec fn ranking_order_ok(sizes: Seq<usize>, order: Seq<usize>) -> bool {
    &&& order.len() == sizes.len()
    &&& forall|i: int| 0 <= i < order.len() ==> #[trigger] order[i] < sizes.len()
    &&& forall|k: usize| k < sizes.len() ==> #[trigger] order.contains(k)
    &&& forall|i: int, j: int|
        0 <= i < j < order.len() ==> ranked_before(sizes, #[trigger] order[i] as int, #[trigger] order[j] as int)
}

/// The indices of blobs of the given sizes, largest first; equal sizes keep
/// their order (a stable sort by decreasing size).
pub fn ranking_order(sizes: &Vec<usize>) -> (r: Vec<usize>)
    ensures
        ranking_order_ok(sizes@, r@),
{
    let mut order: Vec<usize> = Vec::new();
    let mut k: usize = 0;
    while k < sizes.len()
        invariant
            k <= sizes@.len(),
            order@.len() == k,
            forall|i: int| 0 <= i < order@.len() ==> #[trigger] order@[i] < k,
            forall|m: usize| m < k ==> #[trigger] order@.contains(m),
            forall|i: int, j: int|
                0 <= i < j < order@.len() ==> ranked_before(sizes@, #[trigger] order@[i] as int, #[trigger] order@[j] as int),
        decreases sizes@.len() - k,
    {
        let ghost before = order@;
        let mut p: usize = 0;
        while p < order.len() && sizes[order[p]] >= sizes[k]
            invariant
                order@ == before,
                p <= order@.len(),
                k < sizes@.len(),
                forall|i: int| 0 <= i < order@.len() ==> #[trigger] order@[i] < k,
                forall|q: int| 0 <= q < p ==> sizes@[#[trigger] order@[q] as int] >= sizes@[k as int],
            decreases order@.len() - p,
        {
            p = p + 1;
        }
        proof {
            assert forall|q: int| p <= q < before.len() implies sizes@[#[trigger] before[q] as int] < sizes@[k as int] by {
                if q > p {
                    assert(ranked_before(sizes@, before[p as int] as int, before[q] as int));
                }
            }
        }
        order.insert(p, k);
        proof {
            let after = order@;
            assert(after == before.insert(p as int, k));
            assert forall|i: int| 0 <= i < after.len() implies #[trigger] after[i] < k + 1 by {
                if i < p {
                    assert(after[i] == before[i]);
                } else if i > p {
                    assert(after[i] == before[i - 1]);
                }
            }
            assert forall|m: usize| m < k + 1 implies #[trigger] after.contains(m) by {
                if m < k {
                    assert(before.contains(m));
                    let q = choose|q: int| 0 <= q < before.len() && before[q] == m;
                    if q < p {
                        assert(after[q] == m);
                    } else {
                        assert(after[q + 1] == m);
                    }
                } else {
                    assert(after[p as int] == k);
                }
            }
            assert forall|i: int, j: int| 0 <= i < j < after.len() implies ranked_before(
                sizes@,
                #[trigger] after[i] as int,
                #[trigger] after[j] as int,
            ) by {
                if j < p {
                    assert(after[i] == before[i] && after[j] == before[j]);
                } else if j == p {
                    assert(after[i] == before[i]);
                    assert(sizes@[before[i] as int] >= sizes@[k as int]);
                    assert(before[i] < k);
                } else if i < p {
                    assert(after[i] == before[i] && after[j] == before[j - 1]);
                } else if i == p {
                    assert(after[j] == before[j - 1]);
                    assert(sizes@[before[j - 1] as int] < sizes@[k as int]);
                } else {
                    assert(after[i] == before[i - 1] && after[j] == before[j - 1]);
                }
            }
        }
        k = k + 1;
    }
    order
}

pub open spec fn sizes_of(items: Seq<BlobItem>) -> Seq<usize> {
    items.map_values(|b: BlobItem| b.size)
}

/// The blobs largest first, equal sizes in their original order (what
/// `sort_by_key(|b| Reverse(b.size))` gives).
pub fn rank_blobs(items: &Vec<BlobItem>) -> (r: Vec<BlobItem>)
    ensures
        r@.len() == items@.len(),
        exists|order: Seq<usize>|
            ranking_order_ok(sizes_of(items@), order) && forall|i: int|
                0 <= i < r@.len() ==> #[trigger] r@[i].view_tuple() == items@[order[i] as int].view_tuple(),
{
    let mut sizes: Vec<usize> = Vec::new();
    let mut i: usize = 0;
    while i < items.len()
        invariant
            i <= items@.len(),
            sizes@ == sizes_of(items@).subrange(0, i as int),
        decreases items@.len() - i,
    {
        sizes.push(items[i].size);
        assert(sizes@ =~= sizes_of(items@).subrange(0, i + 1));
        i = i + 1;
    }
    assert(sizes@ =~= sizes_of(items@));
    let order = ranking_order(&sizes);
    let mut out: Vec<BlobItem> = Vec::new();
    let mut j: usize = 0;
    while j < order.len()
        invariant
            ranking_order_ok(sizes@, order@),
            sizes@ == sizes_of(items@),
            j <= order@.len(),
            out@.len() == j,
            forall|m: int| 0 <= m < j ==> #[trigger] out@[m].view_tuple() == items@[order@[m] as int].view_tuple(),
        decreases order@.len() - j,
    {
        assert(order@[j as int] < sizes@.len());
        let item = &items[order[j]];
        out.push(BlobItem { id: item.id.copy(), size: item.size, format: item.format });
        j = j + 1;
    }
    assert(forall|m: int| 0 <= m < out@.len() ==> #[trigger] out@[m].view_tuple() == items@[order@[m] as int].view_tuple());
    out
}

/// The outcome of a scan: the counts, the readable blobs largest first,
/// and the blobs that could not be read.
#[derive(Debug)]
pub struct BlobRanking {
    pub summary: BlobScanSummary,
    pub ranked: Vec<BlobItem>,
    pub corrupt: Vec<ObjectId>,
}

/// Assembles a ranking from a scan's inventory, the blobs that were read
/// and those that could not be.
pub fn blob_ranking(inventory: &Inventory, items: &Vec<BlobItem>, corrupt: Vec<ObjectId>) -> (r: BlobRanking)
    ensures
        r.summary.blob_count == inventory.blobs@.len(),
        r.summary.tree_count == inventory.trees@.len(),
        r.summary.total_size@ == binary_size_text(inventory.blob_size as int, 0),
        r.ranked@.len() == items@.len(),
        exists|order: Seq<usize>|
            ranking_order_ok(sizes_of(items@), order) && forall|i: int|
                0 <= i < r.ranked@.len() ==> #[trigger] r.ranked@[i].view_tuple() == items@[order[i] as int].view_tuple(),
        r.corrupt@ == corrupt@,
{
    BlobRanking { summary: inventory.summary(), ranked: rank_blobs(items), corrupt }
}

/// Number of decimal digits of `n`.
pub open spec fn digit_count(n: nat) -> nat
    decreases n,
{
    if n < 10 {
        1
    } else {
        1 + digit_count(n / 10)
    }
}

fn digits_of(n: usize) -> (r: usize)
    ensures
        r == digit_count(n as nat),
{
    let mut m = n;
    let mut d: usize = 1;
    while m >= 10
        invariant
            digit_count(n as nat) == d - 1 + digit_count(m as nat),
            1 <= d,
            d + m <= n + 1,
        decreases m,
    {
        proof {
            lemma_digit_count_bound(m as nat);
        }
        m = m / 10;
        d = d + 1;
    }
    d
}

proof fn lemma_digit_count_bound(n: nat)
    ensures
        n < 10 ==> digit_count(n) == 1,
        n >= 10 ==> digit_count(n) == 1 + digit_count(n / 10),
{
}

/// `s` right-aligned to `width` columns (left-padded with spaces).
pub open spec fn pad_left(s: Seq<char>, width: nat) -> Seq<char> {
    if s.len() < width {
        Seq::new((width - s.len()) as nat, |_i: int| ' ') + s
    } else {
        s
    }
}

/// Width of the rank column: the digits of `show` (at least one).
pub open spec fn rank_width(show: nat) -> nat {
    digit_count(if show == 0 {
        1
    } else {
        show
    })
}

pub open spec fn summary_line(s: BlobScanSummary) -> Seq<char> {
    "Found "@ + decimal_seq(s.blob_count as nat) + " blob(s) and "@ + decimal_seq(s.tree_count as nat)
        + " tree(s) (total blob size "@ + s.total_size@ + ")"@
}

pub open spec fn top_line(show: nat) -> Seq<char> {
    "Top "@ + decimal_seq(show) + " largest blob(s):"@
}

pub open spec fn corrupt_line(oid: Seq<u8>) -> Seq<char> {
    take8(hex_seq(oid)) + " is missing or corrupt"@
}

pub open spec fn rank_line(index: nat, width: nat, item: BlobItem) -> Seq<char> {
    pad_left(decimal_seq(index + 1), width) + " | "@ + item.line_spec()
}

/// The report: the counts, the heading, one line per unreadable blob and
/// the first `show` ranked blobs, numbered from 1.
pub open spec fn report_spec(
    summary: BlobScanSummary,
    ranked: Seq<BlobItem>,
    corrupt: Seq<ObjectId>,
    show: nat,
) -> Seq<Seq<char>> {
    let n = if show < ranked.len() {
        show as int
    } else {
        ranked.len() as int
    };
    seq![summary_line(summary), top_line(show)] + corrupt.map_values(|o: ObjectId| corrupt_line(o@)) + Seq::new(
        n as nat,
        |i: int| rank_line(i as nat, rank_width(show), ranked[i]),
    )
}

pub open spec fn string_views(v: Seq<String>) -> Seq<Seq<char>> {
    v.map_values(|s: String| s@)
}

fn pad_left_exec(s: &Vec<char>, width: usize) -> (r: Vec<char>)
    ensures
        r@ == pad_left(s@, width as nat),
{
    let mut out: Vec<char> = Vec::new();
    if s.len() < width {
        let k = width - s.len();
        let mut i: usize = 0;
        while i < k
            invariant
                i <= k,
                out@ == Seq::new(i as nat, |_i: int| ' '),
            decreases k - i,
        {
            out.push(' ');
            assert(out@ =~= Seq::new((i + 1) as nat, |_i: int| ' '));
            i = i + 1;
        }
    }
    append(&mut out, s);
    proof {
        if s@.len() >= width {
            assert(out@ =~= s@);
        }
    }
    out
}

/// The lines printed for a scan (see [`report_spec`]).
pub fn report_lines(summary: &BlobScanSummary, ranked: &Vec<BlobItem>, corrupt: &Vec<ObjectId>, show: usize) -> (r: Vec<
    String,
>)
    ensures
        string_views(r@) == report_spec(*summary, ranked@, corrupt@, show as nat),
{
    let mut out: Vec<String> = Vec::new();
    let mut first = chars_of("Found ");
    append(&mut first, &decimal(summary.blob_count as u64));
    append(&mut first, &chars_of(" blob(s) and "));
    append(&mut first, &decimal(summary.tree_count as u64));
    append(&mut first, &chars_of(" tree(s) (total blob size "));
    append(&mut first, &chars_of(summary.total_size.as_str()));
    append(&mut first, &chars_of(")"));
    out.push(string_of(&first));
    let mut second = chars_of("Top ");
    append(&mut second, &decimal(show as u64));
    append(&mut second, &chars_of(" largest blob(s):"));
    out.push(string_of(&second));
    let ghost head = seq![summary_line(*summary), top_line(show as nat)];
    assert(string_views(out@) =~= head);
    let mut c: usize = 0;
    while c < corrupt.len()
        invariant
            c <= corrupt@.len(),
            string_views(out@) == head + corrupt@.subrange(0, c as int).map_values(|o: ObjectId| corrupt_line(o@)),
        decreases corrupt@.len() - c,
    {
        let hex = corrupt[c].hex_chars();
        let cut = if hex.len() < 8 {
            hex.len()
        } else {
            8
        };
        let mut line = crate::text::slice_chars(&hex, 0, cut);
        proof {
            if hex@.len() <= 8 {
                assert(hex@.subrange(0, cut as int) =~= hex@);
            }
        }
        append(&mut line, &chars_of(" is missing or corrupt"));
        let ghost before = out@;
        out.push(string_of(&line));
        proof {
            assert(corrupt@.subrange(0, c + 1).map_values(|o: ObjectId| corrupt_line(o@)) =~= corrupt@.subrange(
                0,
                c as int,
            ).map_values(|o: ObjectId| corrupt_line(o@)).push(corrupt_line(corrupt@[c as int]@)));
            assert(string_views(out@) =~= string_views(before).push(line@));
        }
        c = c + 1;
    }
    assert(corrupt@.subrange(0, corrupt@.len() as int) =~= corrupt@);
    let ghost mid = head + corrupt@.map_values(|o: ObjectId| corrupt_line(o@));
    let width = digits_of(if show == 0 {
        1
    } else {
        show
    });
    let n = if show < ranked.len() {
        show
    } else {
        ranked.len()
    };
    let mut i: usize = 0;
    while i < n
        invariant
            i <= n,
            n <= ranked@.len(),
            n == (if show < ranked@.len() { show as int } else { ranked@.len() as int }),
            width == rank_width(show as nat),
            string_views(out@) == mid + Seq::new(i as nat, |k: int| rank_line(k as nat, width as nat, ranked@[k])),
        decreases n - i,
    {
        let mut line = pad_left_exec(&decimal((i + 1) as u64), width);
        append(&mut line, &chars_of(" | "));
        append(&mut line, &ranked[i].line());
        let ghost before = out@;
        out.push(string_of(&line));
        proof {
            assert(Seq::new((i + 1) as nat, |k: int| rank_line(k as nat, width as nat, ranked@[k])) =~= Seq::new(
                i as nat,
                |k: int| rank_line(k as nat, width as nat, ranked@[k]),
            ).push(rank_line(i as nat, width as nat, ranked@[i as int])));
            assert(string_views(out@) =~= string_views(before).push(line@));
        }
        i = i + 1;
    }
    out
}

/// Where the search for a repository root goes next.
#[derive(Debug)]
pub enum RootSearch {
    /// This directory holds `.git`.
    Found(String),
    /// Look in this parent directory.
    Next(String),
    /// No ancestor is left.
    Missing,
}

/// One step of the search for a repository root, walking up from the start
/// directory: `path` is where the search stands, `has_git_dir` whether
/// `path/.git` exists, and `parent` the directory above `path` (`None` at
/// a root). Found there, else go on in the parent, else give up.
pub fn find_git_root(path: &str, has_git_dir: bool, parent: Option<String>) -> (r: RootSearch)
    ensures
        has_git_dir ==> (r matches RootSearch::Found(p) && p@ == path@),
        !has_git_dir ==> match parent {
            Some(q) => r matches RootSearch::Next(p) && p@ == q@,
            None => r is Missing,
        },
{
    if has_git_dir {
        RootSearch::Found(string_of(&chars_of(path)))
    } else {
        match parent {
            Some(p) => RootSearch::Next(p),
            None => RootSearch::Missing,
        }
    }
}

} // verus!
