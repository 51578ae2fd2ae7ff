//! The block map template reads back: parsing the text that
//! [`export_map_text`](crate::report::export_map_text) writes gives back
//! each commit's hex id and message.

use vstd::prelude::*;

use crate::map::{
    block_separator, block_spec, blocks_upto, crlf_to_lf, first_content, hash_line_pattern, is_content_line,
    join_seq, parse_map_file_spec, MapErrorView, Pair,
};
use crate::oid::{hex_seq, nibble_char, ObjectId};
use crate::report::{export_block, export_blocks, export_map_spec};
use crate::text::{
    decimal_seq, find_char_seq, find_from, has_char, is_ws, lines_seq, occurs_at, split_seq, strip_cr, trim_end_seq,
    trim_seq, trim_start_seq,
};
use crate::wrappers::{lowercase_spec, regex_compiles, regex_matches};

verus! {

/// A lower-case hex digit, as object ids are written.
pub open spec fn is_lower_hex_char(c: char) -> bool {
    ('0' <= c && c <= '9') || ('a' <= c && c <= 'f')
}

proof fn lemma_nibble(n: nat)
    requires
        n < 16,
    ensures
        is_lower_hex_char(nibble_char(n)),
{
    if n < 10 {
        assert((('0' as u32) + n) as char as u32 == 48 + n);
    } else {
        assert((('a' as u32) + (n - 10)) as char as u32 == 97 + n - 10);
    }
}

/// The hex form of an id has two lower-case hex digits per byte.
proof fn lemma_hex_chars(b: Seq<u8>)
    ensures
        hex_seq(b).len() == 2 * b.len(),
        forall|i: int| 0 <= i < hex_seq(b).len() ==> is_lower_hex_char(#[trigger] hex_seq(b)[i]),
    decreases b.len(),
{
    if b.len() > 0 {
        lemma_hex_chars(b.drop_last());
        lemma_nibble((b.last() / 16) as nat);
        lemma_nibble((b.last() % 16) as nat);
        let prev = hex_seq(b.drop_last());
        let tail = seq![nibble_char((b.last() / 16) as nat), nibble_char((b.last() % 16) as nat)];
        assert(hex_seq(b) == prev + tail);
        assert forall|i: int| 0 <= i < hex_seq(b).len() implies is_lower_hex_char(#[trigger] hex_seq(b)[i]) by {
            if i < prev.len() {
                assert(hex_seq(b)[i] == prev[i]);
            } else {
                assert(hex_seq(b)[i] == tail[i - prev.len()]);
            }
        }
    }
}

/// A hex digit is neither white space nor any of `\n`, `\r`, `#`, `-`.
proof fn lemma_hex_char_kind(c: char)
    requires
        is_lower_hex_char(c),
    ensures
        !is_ws(c),
        c != '\n',
        c != '\r',
        c != '#',
        c != '-',
{
}

/// `find_from` finds the first occurrence at or after `from`.
proof fn lemma_find_first(s: Seq<char>, p: Seq<char>, from: int, k: int)
    requires
        p.len() > 0,
        0 <= from <= k,
        occurs_at(s, p, k),
        forall|i: int| from <= i < k ==> !occurs_at(s, p, i),
    ensures
        find_from(s, p, from) == Some(k),
    decreases k - from,
{
    if from < k {
        lemma_find_first(s, p, from + 1, k);
    }
}

/// Splitting at the block separator peels off a first piece that ends in
/// a line break and holds no separator.
proof fn lemma_split_front(a: Seq<char>, b: Seq<char>)
    requires
        a.len() > 0,
        a.last() == '\n',
        forall|i: int| !occurs_at(a, block_separator(), i),
    ensures
        split_seq(a + block_separator() + b, block_separator()) == seq![a] + split_seq(b, block_separator()),
{
    let sep = block_separator();
    let s = a + sep + b;
    let n = a.len() as int;
    assert(s.subrange(n, n + 5) =~= sep);
    assert forall|i: int| 0 <= i < n implies !occurs_at(s, sep, i) by {
        if occurs_at(s, sep, i) {
            if i + 5 <= n {
                assert(a.subrange(i, i + 5) =~= s.subrange(i, i + 5));
                assert(occurs_at(a, sep, i));
            } else {
                let j = n - 1 - i;
                assert(s[n - 1] == a.last());
                assert(s.subrange(i, i + 5)[j] == s[n - 1]);
                assert(sep[j] == '\n');
                if j == 0 {
                    assert(s.subrange(i, i + 5)[1] == s[n]);
                    assert(s[n] == sep[0]);
                }
            }
        }
    }
    lemma_find_first(s, sep, 0, n);
    assert(s.subrange(0, n) =~= a);
    assert(s.subrange(n + 5, s.len() as int) =~= b);
}

/// Text without a separator is a single piece.
proof fn lemma_split_single(a: Seq<char>)
    requires
        forall|i: int| !occurs_at(a, block_separator(), i),
    ensures
        split_seq(a, block_separator()) == seq![a],
{
    lemma_find_none(a, block_separator(), 0);
}

proof fn lemma_find_none(s: Seq<char>, p: Seq<char>, from: int)
    requires
        p.len() > 0,
        0 <= from,
        forall|i: int| !occurs_at(s, p, i),
    ensures
        find_from(s, p, from) is None,
    decreases s.len() - from,
{
    if from + p.len() <= s.len() {
        lemma_find_none(s, p, from + 1);
    }
}

/// The first line break of `x + "\n" + y`, when `x` has none, follows `x`.
proof fn lemma_find_newline(x: Seq<char>, y: Seq<char>)
    requires
        !has_char(x, '\n'),
    ensures
        find_char_seq(x + seq!['\n'] + y, '\n') == Some(x.len() as int),
    decreases x.len(),
{
    let s = x + seq!['\n'] + y;
    if x.len() == 0 {
        assert(s[0] == '\n');
    } else {
        assert(x[0] != '\n');
        assert(s.drop_first() =~= x.drop_first() + seq!['\n'] + y);
        assert(!has_char(x.drop_first(), '\n')) by {
            if has_char(x.drop_first(), '\n') {
                let k = choose|k: int| 0 <= k < x.drop_first().len() && x.drop_first()[k] == '\n';
                assert(x[k + 1] == '\n');
            }
        }
        lemma_find_newline(x.drop_first(), y);
    }
}

/// The lines of `x + "\n" + y`, when `x` holds no line break: `x` (without
/// a final `\r`), then the lines of `y`.
proof fn lemma_lines_front(x: Seq<char>, y: Seq<char>)
    requires
        !has_char(x, '\n'),
    ensures
        lines_seq(x + seq!['\n'] + y) == seq![strip_cr(x)] + lines_seq(y),
{
    let s = x + seq!['\n'] + y;
    lemma_find_newline(x, y);
    assert(s.subrange(0, x.len() as int) =~= x);
    assert(s.subrange(x.len() as int + 1, s.len() as int) =~= y);
}

/// Joining `[x] + rest` puts `x` before the join of `rest`.
proof fn lemma_join_front(x: Seq<char>, rest: Seq<Seq<char>>, sep: Seq<char>)
    requires
        rest.len() > 0,
    ensures
        join_seq(seq![x] + rest, sep) == x + sep + join_seq(rest, sep),
    decreases rest.len(),
{
    let parts = seq![x] + rest;
    if rest.len() == 1 {
        assert(parts.drop_last() =~= seq![x]);
        assert(parts.last() == rest[0]);
        assert(join_seq(seq![x], sep) == x);
        assert(join_seq(rest, sep) == rest[0]);
    } else {
        assert(parts.drop_last() =~= seq![x] + rest.drop_last());
        assert(parts.last() == rest.last());
        lemma_join_front(x, rest.drop_last(), sep);
        assert(join_seq(parts, sep) == join_seq(parts.drop_last(), sep) + sep + parts.last());
        assert(join_seq(rest, sep) == join_seq(rest.drop_last(), sep) + sep + rest.last());
        assert(join_seq(parts, sep) =~= x + sep + join_seq(rest, sep));
    }
}

/// Text without `\r` that does not end in a line break is the join of its lines.
proof fn lemma_join_lines(s: Seq<char>)
    requires
        !has_char(s, '\r'),
        s.len() == 0 || s.last() != '\n',
    ensures
        join_seq(lines_seq(s), seq!['\n']) == s,
    decreases s.len(),
{
    if s.len() > 0 {
        match find_char_seq(s, '\n') {
            None => {
                lemma_find_char_none(s);
                assert(strip_cr(s) == s);
            },
            Some(k) => {
                lemma_find_char_some(s, k);
                let x = s.subrange(0, k);
                let y = s.subrange(k + 1, s.len() as int);
                assert(s =~= x + seq!['\n'] + y);
                assert(!has_char(x, '\n')) by {
                    if has_char(x, '\n') {
                        let j = choose|j: int| 0 <= j < x.len() && x[j] == '\n';
                        assert(s[j] == '\n');
                    }
                }
                assert(k < s.len() - 1);
                assert(y.last() == s.last());
                assert(!has_char(y, '\r')) by {
                    if has_char(y, '\r') {
                        let j = choose|j: int| 0 <= j < y.len() && y[j] == '\r';
                        assert(s[k + 1 + j] == '\r');
                    }
                }
                assert(x.len() == 0 || x.last() != '\r') by {
                    if x.len() > 0 {
                        assert(s[k - 1] == x.last());
                    }
                }
                lemma_lines_front(x, y);
                lemma_join_lines(y);
                lemma_lines_nonempty(y);
                lemma_join_front(strip_cr(x), lines_seq(y), seq!['\n']);
            },
        }
    }
}

proof fn lemma_lines_nonempty(s: Seq<char>)
    requires
        s.len() > 0,
    ensures
        lines_seq(s).len() > 0,
{
}

proof fn lemma_find_char_none(s: Seq<char>)
    requires
        find_char_seq(s, '\n') is None,
    ensures
        !has_char(s, '\n'),
    decreases s.len(),
{
    if s.len() > 0 {
        lemma_find_char_none(s.drop_first());
        assert(!has_char(s, '\n')) by {
            if has_char(s, '\n') {
                let j = choose|j: int| 0 <= j < s.len() && s[j] == '\n';
                assert(j > 0);
                assert(s.drop_first()[j - 1] == '\n');
            }
        }
    }
}

proof fn lemma_find_char_some(s: Seq<char>, k: int)
    requires
        find_char_seq(s, '\n') == Some(k),
    ensures
        0 <= k < s.len(),
        s[k] == '\n',
        forall|j: int| 0 <= j < k ==> s[j] != '\n',
    decreases s.len(),
{
    if s.len() > 0 && s[0] != '\n' {
        lemma_find_char_some(s.drop_first(), k - 1);
        assert forall|j: int| 0 <= j < k implies s[j] != '\n' by {
            if j > 0 {
                assert(s[j] == s.drop_first()[j - 1]);
            }
        }
    }
}

/// No character of `s` is `c`.
pub open spec fn free_of(s: Seq<char>, c: char) -> bool {
    forall|i: int| 0 <= i < s.len() ==> s[i] != c
}

proof fn lemma_decimal_digits(n: nat)
    ensures
        free_of(decimal_seq(n), '\n'),
        free_of(decimal_seq(n), '\r'),
    decreases n,
{
    if n >= 10 {
        lemma_decimal_digits(n / 10);
    }
    let d = (n % 10) as nat;
    assert((('0' as u32) + d) as char as u32 == 48 + d);
}

/// The comment line that opens the template.
pub open spec fn header_line(n: nat) -> Seq<char> {
    "# Hash-keyed reword map ("@ + decimal_seq(n) + " commit(s)). Delete unchanged blocks before rewrite."@
}

proof fn lemma_header(n: nat)
    ensures
        "# Hash-keyed reword map ("@ + decimal_seq(n) + " commit(s)). Delete unchanged blocks before rewrite.\n\n"@
            == header_line(n) + seq!['\n', '\n'],
        free_of(header_line(n), '\n'),
        free_of(header_line(n), '\r'),
        header_line(n).len() > 0,
        header_line(n)[0] == '#',
{
    reveal_strlit("# Hash-keyed reword map (");
    reveal_strlit(" commit(s)). Delete unchanged blocks before rewrite.");
    reveal_strlit(" commit(s)). Delete unchanged blocks before rewrite.\n\n");
    let a = "# Hash-keyed reword map ("@;
    let b = " commit(s)). Delete unchanged blocks before rewrite."@;
    assert(forall|i: int| 0 <= i < a.len() ==> a[i] != '\n' && a[i] != '\r');
    assert(forall|i: int| 0 <= i < b.len() ==> b[i] != '\n' && b[i] != '\r');
    assert(" commit(s)). Delete unchanged blocks before rewrite.\n\n"@ =~= b + seq!['\n', '\n']);
    lemma_decimal_digits(n);
    let h = header_line(n);
    let d = decimal_seq(n);
    assert(h == a + d + b);
    assert forall|i: int| 0 <= i < h.len() implies h[i] != '\n' && h[i] != '\r' by {
        if i < a.len() {
            assert(h[i] == a[i]);
        } else if i < a.len() + d.len() {
            assert(h[i] == d[i - a.len()]);
        } else {
            assert(h[i] == b[i - a.len() - d.len()]);
        }
    }
    assert(h[0] == a[0]);
}

/// The block separator written between blocks, with its surrounding breaks.
proof fn lemma_block_tail()
    ensures
        "\n\n---\n\n"@ == seq!['\n'] + block_separator() + seq!['\n'],
{
    reveal_strlit("\n\n---\n\n");
    assert("\n\n---\n\n"@ =~= seq!['\n'] + block_separator() + seq!['\n']);
}

/// A message the block template carries: something besides white space,
/// no `\r`, and no line that is exactly `---`. It reads back trimmed.
pub open spec fn template_message(m: Seq<char>) -> bool {
    &&& trim_seq(m).len() > 0
    &&& free_of(m, '\r')
    &&& forall|i: int| !occurs_at(seq!['\n'] + m + seq!['\n'], block_separator(), i)
}

/// An entry that reads back from the template: its id has bytes, its hex
/// form passes the hash-line check and is its own lower-case form, and its
/// message is one the template carries.
pub open spec fn template_entry(e: (ObjectId, String)) -> bool {
    &&& e.0@.len() > 0
    &&& regex_matches(hash_line_pattern(), hex_seq(e.0@))
    &&& lowercase_spec(hex_seq(e.0@)) == hex_seq(e.0@)
    &&& template_message(e.1@)
}

/// The id line and message of a block.
pub open spec fn block_body(e: (ObjectId, String)) -> Seq<char> {
    hex_seq(e.0@) + seq!['\n'] + e.1@
}

/// What the parser keeps of a block once it is trimmed: the id line and
/// the message without its trailing white space.
pub open spec fn read_body(e: (ObjectId, String)) -> Seq<char> {
    hex_seq(e.0@) + seq!['\n'] + trim_end_seq(e.1@)
}

/// What the block template of `es` reads back as: each entry's hex id
/// and its trimmed message.
pub open spec fn read_back_pairs(es: Seq<(ObjectId, String)>) -> Seq<Pair> {
    es.map_values(|e: (ObjectId, String)| (hex_seq(e.0@), trim_seq(e.1@)))
}

/// A block between two separators, as the parser sees it.
pub open spec fn middle_piece(e: (ObjectId, String)) -> Seq<char> {
    seq!['\n'] + block_body(e) + seq!['\n']
}

/// The blocks of entries `i..`, front first.
pub open spec fn blocks_from(es: Seq<(ObjectId, String)>, i: int) -> Seq<char>
    decreases es.len() - i,
{
    if i < 0 || i >= es.len() {
        Seq::empty()
    } else {
        export_block(es[i]) + blocks_from(es, i + 1)
    }
}

proof fn lemma_blocks_from(es: Seq<(ObjectId, String)>, k: int)
    requires
        0 <= k <= es.len(),
    ensures
        export_blocks(es, k) + blocks_from(es, k) == blocks_from(es, 0),
    decreases k,
{
    if k > 0 {
        lemma_blocks_from(es, k - 1);
        assert(blocks_from(es, k - 1) == export_block(es[k - 1]) + blocks_from(es, k));
        assert(export_blocks(es, k) == export_blocks(es, k - 1) + export_block(es[k - 1]));
        assert(export_blocks(es, k) + blocks_from(es, k) =~= export_blocks(es, k - 1) + blocks_from(es, k - 1));
    } else {
        assert(export_blocks(es, 0) + blocks_from(es, 0) =~= blocks_from(es, 0));
    }
}

proof fn lemma_block_shape(e: (ObjectId, String))
    ensures
        export_block(e) == block_body(e) + seq!['\n'] + block_separator() + seq!['\n'],
{
    lemma_block_tail();
    assert(export_block(e) =~= block_body(e) + seq!['\n'] + block_separator() + seq!['\n']);
}

/// One step of peeling blocks: the break before block `i`, its body and
/// break, the separator, and what follows.
proof fn lemma_peel(es: Seq<(ObjectId, String)>, i: int)
    requires
        0 <= i < es.len(),
    ensures
        seq!['\n'] + blocks_from(es, i) == middle_piece(es[i]) + block_separator() + (seq!['\n'] + blocks_from(
            es,
            i + 1,
        )),
{
    lemma_block_shape(es[i]);
    assert(seq!['\n'] + blocks_from(es, i) =~= middle_piece(es[i]) + block_separator() + (seq!['\n'] + blocks_from(
        es,
        i + 1,
    )));
}

/// The hex id of an entry has no line break, `\r`, `#` or `-`, and no
/// white space.
proof fn lemma_entry_hex(e: (ObjectId, String))
    requires
        e.0@.len() > 0,
    ensures
        hex_seq(e.0@).len() >= 2,
        forall|k: int| 0 <= k < hex_seq(e.0@).len() ==> is_lower_hex_char(#[trigger] hex_seq(e.0@)[k]),
        free_of(hex_seq(e.0@), '\n'),
        free_of(hex_seq(e.0@), '\r'),
        !has_char(hex_seq(e.0@), '\n'),
{
    lemma_hex_chars(e.0@);
    let h = hex_seq(e.0@);
    assert forall|k: int| 0 <= k < h.len() implies h[k] != '\n' && h[k] != '\r' by {
        lemma_hex_char_kind(h[k]);
    }
}

/// A block between separators holds no separator.
proof fn lemma_middle_no_sep(e: (ObjectId, String))
    requires
        template_entry(e),
    ensures
        forall|i: int| !occurs_at(middle_piece(e), block_separator(), i),
{
    lemma_entry_hex(e);
    let h = hex_seq(e.0@);
    let t = seq!['\n'] + e.1@ + seq!['\n'];
    let s = middle_piece(e);
    let sep = block_separator();
    assert(s =~= seq!['\n'] + h + t);
    assert forall|i: int| !occurs_at(s, sep, i) by {
        if occurs_at(s, sep, i) {
            let w = s.subrange(i, i + 5);
            if i == 0 {
                assert(w[1] == s[1]);
                assert(s[1] == h[0]);
                lemma_hex_char_kind(h[0]);
            } else if i <= h.len() {
                assert(w[0] == s[i]);
                assert(s[i] == h[i - 1]);
                lemma_hex_char_kind(h[i - 1]);
            } else {
                let j = i - 1 - h.len();
                assert(t.subrange(j, j + 5) =~= w);
                assert(occurs_at(t, sep, j));
            }
        }
    }
}

/// The first block, with the comment line before it.
pub open spec fn first_piece(es: Seq<(ObjectId, String)>) -> Seq<char> {
    header_line(es.len()) + seq!['\n', '\n'] + block_body(es[0]) + seq!['\n']
}

/// The first block holds no separator.
proof fn lemma_first_no_sep(es: Seq<(ObjectId, String)>)
    requires
        es.len() > 0,
        template_entry(es[0]),
    ensures
        forall|i: int| !occurs_at(first_piece(es), block_separator(), i),
{
    let e = es[0];
    lemma_entry_hex(e);
    lemma_header(es.len());
    let hd = header_line(es.len());
    let h = hex_seq(e.0@);
    let t = seq!['\n'] + e.1@ + seq!['\n'];
    let s = first_piece(es);
    let sep = block_separator();
    let n = hd.len() as int;
    assert(s =~= hd + seq!['\n', '\n'] + h + t);
    assert forall|i: int| !occurs_at(s, sep, i) by {
        if occurs_at(s, sep, i) {
            let w = s.subrange(i, i + 5);
            assert(w[0] == s[i]);
            if i < n {
                assert(s[i] == hd[i]);
            } else if i == n {
                assert(w[1] == s[n + 1]);
            } else if i == n + 1 {
                assert(w[1] == s[n + 2]);
                assert(s[n + 2] == h[0]);
                lemma_hex_char_kind(h[0]);
            } else if i < n + 2 + h.len() {
                assert(s[i] == h[i - n - 2]);
                lemma_hex_char_kind(h[i - n - 2]);
            } else {
                let j = i - n - 2 - h.len();
                assert(t.subrange(j, j + 5) =~= w);
                assert(occurs_at(t, sep, j));
            }
        }
    }
}

/// The pieces after the first: one per remaining entry, then the final
/// line break.
proof fn lemma_split_tail(es: Seq<(ObjectId, String)>, i: int)
    requires
        0 <= i <= es.len(),
        forall|k: int| 0 <= k < es.len() ==> template_entry(#[trigger] es[k]),
    ensures
        split_seq(seq!['\n'] + blocks_from(es, i), block_separator()) == Seq::new(
            (es.len() - i + 1) as nat,
            |j: int| if i + j < es.len() { middle_piece(es[i + j]) } else { seq!['\n'] },
        ),
    decreases es.len() - i,
{
    let expected = Seq::new(
        (es.len() - i + 1) as nat,
        |j: int| if i + j < es.len() { middle_piece(es[i + j]) } else { seq!['\n'] },
    );
    if i == es.len() {
        assert(seq!['\n'] + blocks_from(es, i) =~= seq!['\n']);
        lemma_split_single(seq!['\n']);
        assert(expected =~= seq![seq!['\n']]);
    } else {
        lemma_peel(es, i);
        lemma_middle_no_sep(es[i]);
        lemma_split_front(middle_piece(es[i]), seq!['\n'] + blocks_from(es, i + 1));
        lemma_split_tail(es, i + 1);
        assert(split_seq(seq!['\n'] + blocks_from(es, i), block_separator()) =~= expected);
    }
}

/// The pieces the parser splits the template into.
pub open spec fn template_pieces(es: Seq<(ObjectId, String)>) -> Seq<Seq<char>> {
    seq![first_piece(es)] + Seq::new(
        es.len(),
        |j: int| if 1 + j < es.len() { middle_piece(es[1 + j]) } else { seq!['\n'] },
    )
}

proof fn lemma_split_template(es: Seq<(ObjectId, String)>)
    requires
        es.len() > 0,
        forall|k: int| 0 <= k < es.len() ==> template_entry(#[trigger] es[k]),
    ensures
        split_seq(export_map_spec(es), block_separator()) == template_pieces(es),
{
    lemma_header(es.len());
    lemma_blocks_from(es, es.len() as int);
    assert(export_blocks(es, es.len() as int) + blocks_from(es, es.len() as int) =~= export_blocks(es, es.len() as int));
    lemma_block_shape(es[0]);
    let text = export_map_spec(es);
    assert(text =~= first_piece(es) + block_separator() + (seq!['\n'] + blocks_from(es, 1)));
    lemma_first_no_sep(es);
    lemma_split_front(first_piece(es), seq!['\n'] + blocks_from(es, 1));
    lemma_split_tail(es, 1);
    assert(split_seq(text, block_separator()) =~= template_pieces(es));
}

proof fn lemma_trim_start_keeps(s: Seq<char>)
    requires
        s.len() > 0,
        !is_ws(s[0]),
    ensures
        trim_start_seq(s) == s,
{
}

proof fn lemma_trim_end_keeps(s: Seq<char>)
    requires
        s.len() > 0,
        !is_ws(s.last()),
    ensures
        trim_end_seq(s) == s,
{
}

proof fn lemma_trim_end_break(s: Seq<char>)
    ensures
        trim_end_seq(s + seq!['\n']) == trim_end_seq(s),
{
    assert((s + seq!['\n']).drop_last() =~= s);
}

proof fn lemma_trim_start_break(s: Seq<char>)
    ensures
        trim_start_seq(seq!['\n'] + s) == trim_start_seq(s),
{
    assert((seq!['\n'] + s).drop_first() =~= s);
}

/// Trimming keeps a first character that is not white space.
proof fn lemma_trim_end_first(s: Seq<char>)
    requires
        s.len() > 0,
        !is_ws(s[0]),
    ensures
        trim_end_seq(s).len() > 0,
        trim_end_seq(s)[0] == s[0],
    decreases s.len(),
{
    if is_ws(s.last()) {
        assert(s.len() > 1);
        assert(s.drop_last()[0] == s[0]);
        lemma_trim_end_first(s.drop_last());
    }
}

/// Trimming the end keeps a prefix whose last character is not white
/// space; nothing is kept only when every character is white space.
proof fn lemma_trim_end_prefix(s: Seq<char>)
    ensures
        trim_end_seq(s).len() <= s.len(),
        trim_end_seq(s) == s.subrange(0, trim_end_seq(s).len() as int),
        trim_end_seq(s).len() > 0 ==> !is_ws(trim_end_seq(s).last()),
    decreases s.len(),
{
    if s.len() > 0 && is_ws(s.last()) {
        lemma_trim_end_prefix(s.drop_last());
        let t = trim_end_seq(s.drop_last());
        assert(s.drop_last().subrange(0, t.len() as int) =~= s.subrange(0, t.len() as int));
    } else {
        assert(s.subrange(0, s.len() as int) =~= s);
    }
}

/// Trimming the end twice is trimming it once.
proof fn lemma_trim_end_idem(s: Seq<char>)
    ensures
        trim_end_seq(trim_end_seq(s)) == trim_end_seq(s),
{
    lemma_trim_end_prefix(s);
}

/// Trimming the end of a non-empty sequence, seen from its front.
proof fn lemma_trim_end_cons(s: Seq<char>)
    requires
        s.len() > 0,
    ensures
        trim_end_seq(s) == (if trim_end_seq(s.drop_first()).len() == 0 {
            if is_ws(s[0]) {
                Seq::<char>::empty()
            } else {
                seq![s[0]]
            }
        } else {
            seq![s[0]] + trim_end_seq(s.drop_first())
        }),
    decreases s.len(),
{
    let t = s.drop_first();
    if s.len() == 1 {
        assert(t.len() == 0);
        assert(trim_end_seq(t) == t);
        assert(s.last() == s[0]);
        if is_ws(s[0]) {
            assert(s.drop_last().len() == 0);
            assert(trim_end_seq(s) == trim_end_seq(s.drop_last()));
            assert(trim_end_seq(s.drop_last()) == s.drop_last());
            assert(s.drop_last() =~= Seq::<char>::empty());
        } else {
            assert(s =~= seq![s[0]]);
        }
    } else {
        assert(s.last() == t.last());
        if is_ws(s.last()) {
            let u = s.drop_last();
            lemma_trim_end_cons(u);
            assert(u.drop_first() =~= t.drop_last());
            assert(u[0] == s[0]);
            assert(trim_end_seq(t) == trim_end_seq(t.drop_last()));
            assert(trim_end_seq(s) == trim_end_seq(u));
        } else {
            assert(trim_end_seq(t) == t);
            assert(seq![s[0]] + t =~= s);
        }
    }
}

/// Trimming the start and trimming the end commute.
proof fn lemma_trim_commute(s: Seq<char>)
    ensures
        trim_start_seq(trim_end_seq(s)) == trim_end_seq(trim_start_seq(s)),
    decreases s.len(),
{
    if s.len() > 0 {
        let t = s.drop_first();
        lemma_trim_end_cons(s);
        if is_ws(s[0]) {
            lemma_trim_commute(t);
            if trim_end_seq(t).len() > 0 {
                let x = trim_end_seq(t);
                assert((seq![s[0]] + x).drop_first() =~= x);
            }
        } else {
            if trim_end_seq(t).len() > 0 {
                assert((seq![s[0]] + trim_end_seq(t))[0] == s[0]);
            } else {
                assert(seq![s[0]][0] == s[0]);
            }
        }
    }
}

/// Trimming the end of `x + y` only touches `y` when `y` holds something
/// besides white space.
proof fn lemma_trim_end_append(x: Seq<char>, y: Seq<char>)
    requires
        trim_end_seq(y).len() > 0,
    ensures
        trim_end_seq(x + y) == x + trim_end_seq(y),
    decreases y.len(),
{
    lemma_trim_end_prefix(y);
    assert(y.len() > 0);
    assert((x + y).last() == y.last());
    if is_ws(y.last()) {
        assert((x + y).drop_last() =~= x + y.drop_last());
        lemma_trim_end_append(x, y.drop_last());
    }
}

/// A message with something besides white space keeps something when
/// only its end is trimmed, and trimming that again gives its trim.
proof fn lemma_trim_after_end(m: Seq<char>)
    requires
        trim_seq(m).len() > 0,
    ensures
        trim_end_seq(m).len() > 0,
        trim_seq(trim_end_seq(m)) == trim_seq(m),
{
    lemma_trim_commute(m);
    if trim_end_seq(m).len() == 0 {
        assert(trim_start_seq(trim_end_seq(m)) == trim_end_seq(m));
    }
    lemma_trim_end_idem(trim_start_seq(m));
}

/// What the parser reads from one block's id line and message.
proof fn lemma_body_reads(e: (ObjectId, String))
    requires
        template_entry(e),
    ensures
        lines_seq(read_body(e)) == seq![hex_seq(e.0@)] + lines_seq(trim_end_seq(e.1@)),
        is_content_line(hex_seq(e.0@)),
        trim_seq(hex_seq(e.0@)) == hex_seq(e.0@),
        trim_seq(join_seq(lines_seq(trim_end_seq(e.1@)), seq!['\n'])) == trim_seq(e.1@),
        trim_end_seq(block_body(e)) == read_body(e),
        block_body(e).len() > 0,
        !is_ws(block_body(e)[0]),
{
    lemma_entry_hex(e);
    let h = hex_seq(e.0@);
    let m = e.1@;
    lemma_trim_after_end(m);
    let t = trim_end_seq(m);
    lemma_trim_end_prefix(m);
    lemma_hex_char_kind(h[0]);
    lemma_hex_char_kind(h.last());
    assert(strip_cr(h) == h);
    lemma_lines_front(h, t);
    lemma_trim_start_keeps(h);
    lemma_trim_end_keeps(h);
    assert(!has_char(t, '\r')) by {
        if has_char(t, '\r') {
            let j = choose|j: int| 0 <= j < t.len() && t[j] == '\r';
            assert(t[j] == m[j]);
            assert(m[j] != '\r');
        }
    }
    assert(is_ws('\n'));
    assert(t.last() != '\n');
    lemma_join_lines(t);
    lemma_trim_end_append(h + seq!['\n'], m);
    assert(block_body(e) =~= (h + seq!['\n']) + m);
    assert(read_body(e) =~= (h + seq!['\n']) + t);
    assert(block_body(e)[0] == h[0]);
}

proof fn lemma_middle_block(e: (ObjectId, String))
    requires
        template_entry(e),
        regex_compiles(hash_line_pattern()),
    ensures
        block_spec(middle_piece(e)) == Some(Ok::<Pair, MapErrorView>((hex_seq(e.0@), trim_seq(e.1@)))),
{
    let body = block_body(e);
    lemma_body_reads(e);
    assert(middle_piece(e) == seq!['\n'] + (body + seq!['\n']));
    lemma_trim_start_break(body + seq!['\n']);
    assert((body + seq!['\n'])[0] == body[0]);
    lemma_trim_start_keeps(body + seq!['\n']);
    lemma_trim_end_break(body);
    assert(trim_seq(middle_piece(e)) == read_body(e));
    let ls = lines_seq(read_body(e));
    assert(ls[0] == hex_seq(e.0@));
    assert(ls.subrange(1, ls.len() as int) =~= lines_seq(trim_end_seq(e.1@)));
}

proof fn lemma_first_block(es: Seq<(ObjectId, String)>)
    requires
        es.len() > 0,
        template_entry(es[0]),
        regex_compiles(hash_line_pattern()),
    ensures
        block_spec(first_piece(es)) == Some(Ok::<Pair, MapErrorView>((hex_seq(es[0].0@), trim_seq(es[0].1@)))),
{
    let e = es[0];
    let body = block_body(e);
    let rb = read_body(e);
    let hd = header_line(es.len());
    let h = hex_seq(e.0@);
    let m = e.1@;
    lemma_body_reads(e);
    lemma_header(es.len());
    lemma_trim_after_end(m);
    let inner = hd + seq!['\n', '\n'] + body;
    let kept = hd + seq!['\n', '\n'] + rb;
    assert(first_piece(es) == inner + seq!['\n']);
    assert(inner[0] == '#');
    lemma_trim_start_keeps(inner + seq!['\n']);
    lemma_trim_end_break(inner);
    let front = hd + seq!['\n', '\n'] + h + seq!['\n'];
    assert(inner =~= front + m);
    assert(kept =~= front + trim_end_seq(m));
    lemma_trim_end_append(front, m);
    assert(trim_seq(first_piece(es)) == kept);
    assert(!has_char(hd, '\n')) by {
        if has_char(hd, '\n') {
            let j = choose|j: int| 0 <= j < hd.len() && hd[j] == '\n';
            assert(hd[j] != '\n');
        }
    }
    assert(hd.last() != '\r');
    assert(strip_cr(hd) == hd);
    assert(kept =~= hd + seq!['\n'] + (seq!['\n'] + rb));
    lemma_lines_front(hd, seq!['\n'] + rb);
    assert(seq!['\n'] + rb =~= Seq::<char>::empty() + seq!['\n'] + rb);
    lemma_lines_front(Seq::<char>::empty(), rb);
    assert(strip_cr(Seq::<char>::empty()) =~= Seq::<char>::empty());
    let ls = lines_seq(kept);
    assert(ls =~= seq![hd, Seq::<char>::empty(), h] + lines_seq(trim_end_seq(m)));
    lemma_trim_end_first(hd);
    lemma_trim_start_keeps(hd);
    assert(!is_content_line(ls[0]));
    assert(trim_seq(Seq::<char>::empty()) =~= Seq::<char>::empty());
    assert(!is_content_line(ls[1]));
    assert(is_content_line(ls[2]));
    assert(first_content(ls, 2) == Some(2int));
    assert(first_content(ls, 1) == Some(2int));
    assert(first_content(ls, 0) == Some(2int));
    assert(ls.subrange(3, ls.len() as int) =~= lines_seq(trim_end_seq(m)));
}

/// The final piece after the last separator is a lone line break, which
/// the parser skips.
proof fn lemma_last_block()
    ensures
        block_spec(seq!['\n']) is None,
{
    lemma_trim_start_break(Seq::<char>::empty());
    assert(trim_seq(seq!['\n']) =~= Seq::<char>::empty());
}

proof fn lemma_template_blocks(es: Seq<(ObjectId, String)>, k: nat)
    requires
        0 < es.len(),
        k <= es.len(),
        regex_compiles(hash_line_pattern()),
        forall|j: int| 0 <= j < es.len() ==> template_entry(#[trigger] es[j]),
    ensures
        blocks_upto(template_pieces(es), k) == Ok::<Seq<Pair>, MapErrorView>(read_back_pairs(es).subrange(0, k as int)),
    decreases k,
{
    if k > 0 {
        lemma_template_blocks(es, (k - 1) as nat);
        let pieces = template_pieces(es);
        if k == 1 {
            assert(template_entry(es[0]));
            assert(pieces[0] == first_piece(es));
            lemma_first_block(es);
        } else {
            assert(pieces[k - 1] == middle_piece(es[k - 1]));
            lemma_middle_block(es[k - 1]);
        }
        assert(template_entry(es[k - 1]));
        assert(read_back_pairs(es)[k - 1] == (hex_seq(es[k - 1].0@), trim_seq(es[k - 1].1@)));
        assert(read_back_pairs(es).subrange(0, k as int) =~= read_back_pairs(es).subrange(0, k - 1).push(
            (hex_seq(es[k - 1].0@), trim_seq(es[k - 1].1@)),
        ));
    } else {
        assert(read_back_pairs(es).subrange(0, 0) =~= Seq::<Pair>::empty());
    }
}

/// Text without `\r` is left as it is by the line-ending normalisation.
proof fn lemma_crlf_identity(s: Seq<char>)
    requires
        free_of(s, '\r'),
    ensures
        crlf_to_lf(s) == s,
    decreases s.len(),
{
    if s.len() > 0 {
        assert(s[0] != '\r');
        assert(free_of(s.drop_first(), '\r')) by {
            assert forall|j: int| 0 <= j < s.drop_first().len() implies s.drop_first()[j] != '\r' by {
                assert(s.drop_first()[j] == s[j + 1]);
            }
        }
        lemma_crlf_identity(s.drop_first());
        assert(s =~= seq![s[0]] + s.drop_first());
    }
}

proof fn lemma_blocks_from_no_cr(es: Seq<(ObjectId, String)>, i: int)
    requires
        0 <= i <= es.len(),
        forall|j: int| 0 <= j < es.len() ==> template_entry(#[trigger] es[j]),
    ensures
        free_of(blocks_from(es, i), '\r'),
    decreases es.len() - i,
{
    if i < es.len() {
        lemma_blocks_from_no_cr(es, i + 1);
        let e = es[i];
        assert(template_entry(e));
        lemma_entry_hex(e);
        lemma_block_shape(e);
        let h = hex_seq(e.0@);
        let m = e.1@;
        let tail = seq!['\n'] + block_separator() + seq!['\n'];
        let rest = blocks_from(es, i + 1);
        let all = blocks_from(es, i);
        assert(all =~= h + seq!['\n'] + m + tail + rest);
        assert forall|j: int| 0 <= j < all.len() implies all[j] != '\r' by {
            if j < h.len() {
                assert(all[j] == h[j]);
            } else if j == h.len() {
            } else if j < h.len() + 1 + m.len() {
                assert(all[j] == m[j - h.len() - 1]);
            } else if j < h.len() + 1 + m.len() + tail.len() {
                assert(all[j] == tail[j - h.len() - 1 - m.len()]);
            } else {
                assert(all[j] == rest[j - h.len() - 1 - m.len() - tail.len()]);
            }
        }
    }
}

/// The block template reads back: parsing the text written for entries
/// whose ids pass the hash-line check and whose messages hold something
/// besides white space, no `\r` and no `---` line gives each entry's hex
/// id and trimmed message, in order.
pub proof fn block_template_reads_back(es: Seq<(ObjectId, String)>)
    requires
        es.len() > 0,
        regex_compiles(hash_line_pattern()),
        forall|j: int| 0 <= j < es.len() ==> template_entry(#[trigger] es[j]),
    ensures
        parse_map_file_spec(export_map_spec(es)) == Ok::<Seq<Pair>, MapErrorView>(read_back_pairs(es)),
{
    let text = export_map_spec(es);
    lemma_header(es.len());
    lemma_blocks_from(es, es.len() as int);
    assert(export_blocks(es, es.len() as int) + blocks_from(es, es.len() as int) =~= export_blocks(es, es.len() as int));
    lemma_blocks_from_no_cr(es, 0);
    let hd = header_line(es.len());
    let b = blocks_from(es, 0);
    assert(text =~= hd + seq!['\n', '\n'] + b);
    assert(free_of(text, '\r')) by {
        assert forall|j: int| 0 <= j < text.len() implies text[j] != '\r' by {
            if j < hd.len() {
                assert(text[j] == hd[j]);
            } else if j < hd.len() + 2 {
            } else {
                assert(text[j] == b[j - hd.len() - 2]);
            }
        }
    }
    lemma_crlf_identity(text);
    lemma_split_template(es);
    let pieces = template_pieces(es);
    lemma_template_blocks(es, es.len());
    assert(pieces.len() == es.len() + 1);
    assert(pieces[es.len() as int] == seq!['\n']);
    lemma_last_block();
    assert(read_back_pairs(es).subrange(0, es.len() as int) =~= read_back_pairs(es));
}

} // verus!
