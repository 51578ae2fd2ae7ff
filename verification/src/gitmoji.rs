//! Leading gitmoji of a commit subject and the release section it selects.

use vstd::prelude::*;

use crate::text::{chars_of, starts_with_seq, string_of, trim, trim_seq, trim_start, trim_start_seq};

verus! {

/// Release section of a commit.
#[derive(Debug, Clone, Copy, PartialEq, Eq, PartialOrd, Ord, Hash, Structural)]
pub enum Section {
    /// Features (sparkles, art, rocket).
    Features,
    /// Bug fixes (bug, ambulance, fire).
    Fixes,
    /// Breaking changes (boom).
    Breaking,
    /// Every other gitmoji, and commits without one.
    Other,
}

/// The gitmojis recognised at the start of a subject, in the order they
/// are tried.
pub open spec fn known_gitmojis() -> Seq<Seq<char>> {
    seq![
        "\u{2728}"@, "\u{1f3a8}"@, "\u{1f680}"@, "\u{1f41b}"@, "\u{1f691}"@, "\u{1f525}"@,
        "\u{1f4a5}"@, "\u{267b}\u{fe0f}"@, "\u{1f527}"@, "\u{1f4dd}"@, "\u{1f477}"@, "\u{1f9f9}"@,
        "\u{2b06}\u{fe0f}"@, "\u{1f9ea}"@, "\u{1f528}"@, "\u{1f4e6}"@,
    ]
}

/// What follows `emoji` at the start of `subject`, without one variation
/// selector (U+FE0F) right after it.
pub open spec fn gitmoji_rest(subject: Seq<char>, emoji: Seq<char>) -> Seq<char> {
    let rest = subject.subrange(emoji.len() as int, subject.len() as int);
    if rest.len() > 0 && rest[0] == '\u{fe0f}' {
        rest.drop_first()
    } else {
        rest
    }
}

/// `subject` starts with `emoji` followed by a space.
pub open spec fn emoji_leads(subject: Seq<char>, emoji: Seq<char>) -> bool {
    starts_with_seq(subject, emoji) && gitmoji_rest(subject, emoji).len() > 0 && gitmoji_rest(
        subject,
        emoji,
    )[0] == ' '
}

/// Index of the first known gitmoji, from `i` on, that leads `subject`.
pub open spec fn leading_index(subject: Seq<char>, i: int) -> Option<int>
    decreases 16 - i,
{
    if i < 0 || i >= 16 {
        None
    } else if emoji_leads(subject, known_gitmojis()[i]) {
        Some(i)
    } else {
        leading_index(subject, i + 1)
    }
}

/// The leading gitmoji of `subject`: the first known one that starts it
/// and is followed (after an optional U+FE0F) by a space.
pub open spec fn leading_gitmoji_spec(subject: Seq<char>) -> Option<Seq<char>> {
    match leading_index(subject, 0) {
        Some(k) => Some(known_gitmojis()[k]),
        None => None,
    }
}

/// The subject without its leading gitmoji and the blanks after it, or
/// the whole subject trimmed when it has none.
pub open spec fn strip_gitmoji_spec(subject: Seq<char>) -> Seq<char> {
    match leading_gitmoji_spec(subject) {
        Some(e) => trim_start_seq(gitmoji_rest(subject, e)),
        None => trim_seq(subject),
    }
}

/// The section a gitmoji selects.
pub open spec fn section_spec(gitmoji: Option<Seq<char>>) -> Section {
    match gitmoji {
        Some(g) => if g == "\u{2728}"@ || g == "\u{1f3a8}"@ || g == "\u{1f680}"@ {
            Section::Features
        } else if g == "\u{1f41b}"@ || g == "\u{1f691}"@ || g == "\u{1f525}"@ {
            Section::Fixes
        } else if g == "\u{1f4a5}"@ {
            Section::Breaking
        } else {
            Section::Other
        },
        None => Section::Other,
    }
}

/// The release sections of the gitmojis: ✨ 🎨 🚀 are features, 🐛 🚑 🔥
/// are fixes, 💥 is a breaking change, and any other gitmoji, or none, is
/// something else.
pub proof fn lemma_gitmoji_sections()
    ensures
        section_spec(Some("\u{2728}"@)) == Section::Features,
        section_spec(Some("\u{1f3a8}"@)) == Section::Features,
        section_spec(Some("\u{1f680}"@)) == Section::Features,
        section_spec(Some("\u{1f41b}"@)) == Section::Fixes,
        section_spec(Some("\u{1f691}"@)) == Section::Fixes,
        section_spec(Some("\u{1f525}"@)) == Section::Fixes,
        section_spec(Some("\u{1f4a5}"@)) == Section::Breaking,
        section_spec(None) == Section::Other,
        forall|g: Seq<char>|
            !(g == "\u{2728}"@ || g == "\u{1f3a8}"@ || g == "\u{1f680}"@ || g == "\u{1f41b}"@ || g
                == "\u{1f691}"@ || g == "\u{1f525}"@ || g == "\u{1f4a5}"@) ==> #[trigger] section_spec(Some(g))
                == Section::Other,
{
    reveal_strlit("\u{2728}");
    reveal_strlit("\u{1f3a8}");
    reveal_strlit("\u{1f680}");
    reveal_strlit("\u{1f41b}");
    reveal_strlit("\u{1f691}");
    reveal_strlit("\u{1f525}");
    reveal_strlit("\u{1f4a5}");
    assert("\u{2728}"@ =~= seq!['\u{2728}']);
    assert("\u{1f3a8}"@ =~= seq!['\u{1f3a8}']);
    assert("\u{1f680}"@ =~= seq!['\u{1f680}']);
    assert("\u{1f41b}"@ =~= seq!['\u{1f41b}']);
    assert("\u{1f691}"@ =~= seq!['\u{1f691}']);
    assert("\u{1f525}"@ =~= seq!['\u{1f525}']);
    assert("\u{1f4a5}"@ =~= seq!['\u{1f4a5}']);
    assert("\u{1f3a8}"@ != "\u{2728}"@) by {
        assert("\u{1f3a8}"@[0] != "\u{2728}"@[0]);
    }
    assert("\u{1f680}"@ != "\u{2728}"@) by {
        assert("\u{1f680}"@[0] != "\u{2728}"@[0]);
    }
    assert("\u{1f680}"@ != "\u{1f3a8}"@) by {
        assert("\u{1f680}"@[0] != "\u{1f3a8}"@[0]);
    }
    assert("\u{1f41b}"@ != "\u{2728}"@) by {
        assert("\u{1f41b}"@[0] != "\u{2728}"@[0]);
    }
    assert("\u{1f41b}"@ != "\u{1f3a8}"@) by {
        assert("\u{1f41b}"@[0] != "\u{1f3a8}"@[0]);
    }
    assert("\u{1f41b}"@ != "\u{1f680}"@) by {
        assert("\u{1f41b}"@[0] != "\u{1f680}"@[0]);
    }
    assert("\u{1f691}"@ != "\u{2728}"@) by {
        assert("\u{1f691}"@[0] != "\u{2728}"@[0]);
    }
    assert("\u{1f691}"@ != "\u{1f3a8}"@) by {
        assert("\u{1f691}"@[0] != "\u{1f3a8}"@[0]);
    }
    assert("\u{1f691}"@ != "\u{1f680}"@) by {
        assert("\u{1f691}"@[0] != "\u{1f680}"@[0]);
    }
    assert("\u{1f691}"@ != "\u{1f41b}"@) by {
        assert("\u{1f691}"@[0] != "\u{1f41b}"@[0]);
    }
    assert("\u{1f525}"@ != "\u{2728}"@) by {
        assert("\u{1f525}"@[0] != "\u{2728}"@[0]);
    }
    assert("\u{1f525}"@ != "\u{1f3a8}"@) by {
        assert("\u{1f525}"@[0] != "\u{1f3a8}"@[0]);
    }
    assert("\u{1f525}"@ != "\u{1f680}"@) by {
        assert("\u{1f525}"@[0] != "\u{1f680}"@[0]);
    }
    assert("\u{1f525}"@ != "\u{1f41b}"@) by {
        assert("\u{1f525}"@[0] != "\u{1f41b}"@[0]);
    }
    assert("\u{1f525}"@ != "\u{1f691}"@) by {
        assert("\u{1f525}"@[0] != "\u{1f691}"@[0]);
    }
    assert("\u{1f4a5}"@ != "\u{2728}"@) by {
        assert("\u{1f4a5}"@[0] != "\u{2728}"@[0]);
    }
    assert("\u{1f4a5}"@ != "\u{1f3a8}"@) by {
        assert("\u{1f4a5}"@[0] != "\u{1f3a8}"@[0]);
    }
    assert("\u{1f4a5}"@ != "\u{1f680}"@) by {
        assert("\u{1f4a5}"@[0] != "\u{1f680}"@[0]);
    }
    assert("\u{1f4a5}"@ != "\u{1f41b}"@) by {
        assert("\u{1f4a5}"@[0] != "\u{1f41b}"@[0]);
    }
    assert("\u{1f4a5}"@ != "\u{1f691}"@) by {
        assert("\u{1f4a5}"@[0] != "\u{1f691}"@[0]);
    }
    assert("\u{1f4a5}"@ != "\u{1f525}"@) by {
        assert("\u{1f4a5}"@[0] != "\u{1f525}"@[0]);
    }
}

proof fn lemma_leading_index(subject: Seq<char>, i: int)
    ensures
        leading_index(subject, i) matches Some(k) ==> i <= k < 16 && emoji_leads(subject, known_gitmojis()[k]),
    decreases 16 - i,
{
    if 0 <= i < 16 {
        lemma_leading_index(subject, i + 1);
    }
}

/// The known gitmoji at index `k`.
fn known_gitmoji(k: usize) -> (r: &'static str)
    requires
        k < 16,
    ensures
        r@ == known_gitmojis()[k as int],
{
    if k == 0 { "\u{2728}" }
    else if k == 1 { "\u{1f3a8}" }
    else if k == 2 { "\u{1f680}" }
    else if k == 3 { "\u{1f41b}" }
    else if k == 4 { "\u{1f691}" }
    else if k == 5 { "\u{1f525}" }
    else if k == 6 { "\u{1f4a5}" }
    else if k == 7 { "\u{267b}\u{fe0f}" }
    else if k == 8 { "\u{1f527}" }
    else if k == 9 { "\u{1f4dd}" }
    else if k == 10 { "\u{1f477}" }
    else if k == 11 { "\u{1f9f9}" }
    else if k == 12 { "\u{2b06}\u{fe0f}" }
    else if k == 13 { "\u{1f9ea}" }
    else if k == 14 { "\u{1f528}" }
    else { "\u{1f4e6}" }
}

fn rest_after(subject: &[char], emoji: &[char]) -> (r: Vec<char>)
    requires
        emoji@.len() <= subject@.len(),
    ensures
        r@ == gitmoji_rest(subject@, emoji@),
{
    let rest = crate::text::slice_chars(subject, emoji.len(), subject.len());
    if rest.len() > 0 && rest[0] == '\u{fe0f}' {
        crate::text::slice_chars(&rest, 1, rest.len())
    } else {
        rest
    }
}

fn leads(subject: &[char], emoji: &[char]) -> (r: bool)
    ensures
        r == emoji_leads(subject@, emoji@),
{
    if !crate::text::starts_with(subject, emoji) {
        return false;
    }
    let rest = rest_after(subject, emoji);
    rest.len() > 0 && rest[0] == ' '
}

/// Finds the leading gitmoji of `subject`, as its index among the known ones.
fn leading_index_exec(subject: &[char]) -> (r: Option<usize>)
    ensures
        match r {
            Some(k) => k < 16 && leading_index(subject@, 0) == Some(k as int),
            None => leading_index(subject@, 0) is None,
        },
{
    let mut k: usize = 0;
    while k < 16
        invariant
            k <= 16,
            leading_index(subject@, 0) == leading_index(subject@, k as int),
        decreases 16 - k,
    {
        let emoji = chars_of(known_gitmoji(k));
        if leads(subject, &emoji) {
            return Some(k);
        }
        k = k + 1;
    }
    None
}

/// The gitmoji that starts `subject`, if any.
pub fn leading_gitmoji(subject: &str) -> (r: Option<&'static str>)
    ensures
        match r {
            Some(g) => leading_gitmoji_spec(subject@) == Some(g@),
            None => leading_gitmoji_spec(subject@) is None,
        },
{
    let chars = chars_of(subject);
    match leading_index_exec(&chars) {
        Some(k) => Some(known_gitmoji(k)),
        None => None,
    }
}

/// The subject without its leading gitmoji and the white space after it;
/// a subject without one is trimmed.
pub fn strip_gitmoji(subject: &str) -> (r: String)
    ensures
        r@ == strip_gitmoji_spec(subject@),
{
    let chars = chars_of(subject);
    match leading_index_exec(&chars) {
        Some(k) => {
            let emoji = chars_of(known_gitmoji(k));
            proof {
                lemma_leading_index(chars@, 0);
            }
            let rest = rest_after(&chars, &emoji);
            string_of(&trim_start(&rest))
        },
        None => string_of(&trim(&chars)),
    }
}

fn is_one_of(g: &[char], a: &str, b: &str, c: &str) -> (r: bool)
    ensures
        r == (g@ == a@ || g@ == b@ || g@ == c@),
{
    crate::text::eq_chars(g, &chars_of(a)) || crate::text::eq_chars(g, &chars_of(b))
        || crate::text::eq_chars(g, &chars_of(c))
}

/// The release section of a gitmoji; no gitmoji, or one outside the
/// feature, fix and breaking sets, gives `Other`.
pub fn section_for_gitmoji(gitmoji: Option<&str>) -> (r: Section)
    ensures
        r == section_spec(match gitmoji {
            Some(g) => Some(g@),
            None => None,
        }),
        gitmoji is None ==> r == Section::Other,
        gitmoji matches Some(g) && (g@ == "\u{2728}"@ || g@ == "\u{1f3a8}"@ || g@ == "\u{1f680}"@) ==> r
            == Section::Features,
        gitmoji matches Some(g) && (g@ == "\u{1f41b}"@ || g@ == "\u{1f691}"@ || g@ == "\u{1f525}"@) ==> r
            == Section::Fixes,
        gitmoji matches Some(g) && g@ == "\u{1f4a5}"@ ==> r == Section::Breaking,
        gitmoji matches Some(g) && !(g@ == "\u{2728}"@ || g@ == "\u{1f3a8}"@ || g@ == "\u{1f680}"@ || g@
            == "\u{1f41b}"@ || g@ == "\u{1f691}"@ || g@ == "\u{1f525}"@ || g@ == "\u{1f4a5}"@) ==> r
            == Section::Other,
{
    proof {
        lemma_gitmoji_sections();
    }
    match gitmoji {
        Some(g) => {
            let gc = chars_of(g);
            if is_one_of(&gc, "\u{2728}", "\u{1f3a8}", "\u{1f680}") {
                Section::Features
            } else if is_one_of(&gc, "\u{1f41b}", "\u{1f691}", "\u{1f525}") {
                Section::Fixes
            } else if crate::text::eq_chars(&gc, &chars_of("\u{1f4a5}")) {
                Section::Breaking
            } else {
                Section::Other
            }
        },
        None => Section::Other,
    }
}

/// Heading of a section and the line written under it when it is empty.
pub fn section_meta(section: Section) -> (r: (&'static str, &'static str))
    ensures
        section == Section::Features ==> r.0@ == "## \u{2728} Features"@,
        section == Section::Fixes ==> r.0@ == "## \u{1f41b} Bug Fixes"@,
        section == Section::Breaking ==> r.0@ == "## \u{26a0}\u{fe0f} Breaking Changes"@,
        section == Section::Other ==> r.0@ == "## \u{1f4dd} Other"@,
        r.1@ == "(none)"@,
{
    match section {
        Section::Features => ("## \u{2728} Features", "(none)"),
        Section::Fixes => ("## \u{1f41b} Bug Fixes", "(none)"),
        Section::Breaking => ("## \u{26a0}\u{fe0f} Breaking Changes", "(none)"),
        Section::Other => ("## \u{1f4dd} Other", "(none)"),
    }
}

/// The sections in release order.
pub open spec fn section_order() -> Seq<Section> {
    seq![Section::Features, Section::Fixes, Section::Breaking, Section::Other]
}

/// Every section, in release order.
pub fn all_sections() -> (r: [Section; 4])
    ensures
        r@ == section_order(),
{
    let r = [Section::Features, Section::Fixes, Section::Breaking, Section::Other];
    assert(r@ == section_order());
    r
}

} // verus!
