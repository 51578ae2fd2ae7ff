//! Object ids as raw bytes, with their lower-case hex form.

use vstd::prelude::*;

use crate::text::push_char;

verus! {

/// A git object id: the raw bytes of its hash.
#[derive(Debug)]
pub struct ObjectId {
    pub bytes: Vec<u8>,
}

impl View for ObjectId {
    type V = Seq<u8>;

    open spec fn view(&self) -> Seq<u8> {
        self.bytes@
    }
}

/// Lower-case hex digit of `n < 16`.
pub open spec fn nibble_char(n: nat) -> char {
    if n < 10 {
        (('0' as u32) + n) as char
    } else {
        (('a' as u32) + (n - 10)) as char
    }
}

/// Lower-case hex form of `b`, two digits per byte (how an object id is displayed).
pub open spec fn hex_seq(b: Seq<u8>) -> Seq<char>
    decreases b.len(),
{
    if b.len() == 0 {
        Seq::empty()
    } else {
        hex_seq(b.drop_last()) + seq![nibble_char((b.last() / 16) as nat), nibble_char((b.last() % 16) as nat)]
    }
}

/// The first eight characters of `s`, or all of it when shorter.
pub open spec fn take8(s: Seq<char>) -> Seq<char> {
    if s.len() <= 8 {
        s
    } else {
        s.subrange(0, 8)
    }
}

/// `seed` with its byte at index 19 inverted.
pub open spec fn synthetic_seq(seed: Seq<u8>) -> Seq<u8> {
    seed.update(19, (255 - seed[19]) as u8)
}

proof fn lemma_hex_len(b: Seq<u8>)
    ensures
        hex_seq(b).len() == 2 * b.len(),
    decreases b.len(),
{
    if b.len() > 0 {
        lemma_hex_len(b.drop_last());
    }
}

fn nibble(n: u8) -> (c: char)
    requires
        n < 16,
    ensures
        c == nibble_char(n as nat),
{
    if n < 10 {
        ((48u8 + n) as char)
    } else {
        ((97u8 + (n - 10)) as char)
    }
}

impl ObjectId {
    /// Builds an id from its raw bytes.
    pub fn from_bytes(bytes: Vec<u8>) -> (r: ObjectId)
        ensures
            r@ == bytes@,
    {
        ObjectId { bytes }
    }

    /// A copy of this id.
    pub fn copy(&self) -> (r: ObjectId)
        ensures
            r@ == self@,
    {
        let mut bytes: Vec<u8> = Vec::new();
        let mut i: usize = 0;
        while i < self.bytes.len()
            invariant
                i <= self.bytes@.len(),
                bytes@ == self.bytes@.subrange(0, i as int),
            decreases self.bytes@.len() - i,
        {
            bytes.push(self.bytes[i]);
            i = i + 1;
        }
        ObjectId { bytes }
    }

    /// Whether two ids are the same.
    pub fn same(&self, other: &ObjectId) -> (r: bool)
        ensures
            r == (self@ == other@),
    {
        if self.bytes.len() != other.bytes.len() {
            return false;
        }
        let mut i: usize = 0;
        while i < self.bytes.len()
            invariant
                self.bytes@.len() == other.bytes@.len(),
                i <= self.bytes@.len(),
                self.bytes@.subrange(0, i as int) == other.bytes@.subrange(0, i as int),
            decreases self.bytes@.len() - i,
        {
            if self.bytes[i] != other.bytes[i] {
                return false;
            }
            assert(self.bytes@.subrange(0, i + 1) == self.bytes@.subrange(0, i as int).push(
                self.bytes@[i as int],
            ));
            assert(other.bytes@.subrange(0, i + 1) == other.bytes@.subrange(0, i as int).push(
                other.bytes@[i as int],
            ));
            i = i + 1;
        }
        assert(self.bytes@ == self.bytes@.subrange(0, self.bytes@.len() as int));
        assert(other.bytes@ == other.bytes@.subrange(0, other.bytes@.len() as int));
        true
    }

    /// The id as lower-case hex characters.
    pub fn hex_chars(&self) -> (r: Vec<char>)
        ensures
            r@ == hex_seq(self@),
    {
        let mut r: Vec<char> = Vec::new();
        let mut i: usize = 0;
        while i < self.bytes.len()
            invariant
                i <= self.bytes@.len(),
                r@ == hex_seq(self.bytes@.subrange(0, i as int)),
            decreases self.bytes@.len() - i,
        {
            let b = self.bytes[i];
            r.push(nibble(b / 16));
            r.push(nibble(b % 16));
            assert(self.bytes@.subrange(0, i + 1).drop_last() == self.bytes@.subrange(0, i as int));
            i = i + 1;
        }
        assert(self.bytes@.subrange(0, self.bytes@.len() as int) == self.bytes@);
        r
    }

    /// The id in lower-case hex (its `Display` form).
    pub fn to_hex(&self) -> (r: String)
        ensures
            r@ == hex_seq(self@),
    {
        let chars = self.hex_chars();
        crate::text::string_of(&chars)
    }
}

/// The first eight hex characters of `oid`.
pub fn short(oid: &ObjectId) -> (r: String)
    ensures
        r@ == take8(hex_seq(oid@)),
{
    let chars = oid.hex_chars();
    let mut r = String::new();
    let mut i: usize = 0;
    while i < chars.len() && i < 8
        invariant
            i <= chars@.len(),
            i <= 8,
            r@ == chars@.subrange(0, i as int),
        decreases 8 - i,
    {
        push_char(&mut r, chars[i]);
        i = i + 1;
    }
    assert(chars@.len() <= 8 ==> chars@.subrange(0, chars@.len() as int) == chars@);
    r
}

/// A placeholder id that differs from `seed` (used where a dry run must
/// not touch the object database): byte 19 is inverted.
pub fn synthetic_oid(seed: &ObjectId) -> (r: ObjectId)
    requires
        seed@.len() >= 20,
    ensures
        r@ == synthetic_seq(seed@),
        r@ != seed@,
{
    let mut bytes = seed.copy().bytes;
    let b = bytes[19];
    bytes.set(19, 255 - b);
    assert(bytes@[19] != seed@[19]);
    ObjectId { bytes }
}

/// Inverting byte 19 twice gives back the seed.
pub proof fn synthetic_oid_involutive(seed: Seq<u8>)
    requires
        seed.len() >= 20,
    ensures
        synthetic_seq(synthetic_seq(seed)) == seed,
        synthetic_seq(seed) != seed,
{
    assert(synthetic_seq(seed)[19] != seed[19]);
    assert(synthetic_seq(synthetic_seq(seed)) =~= seed);
}

} // verus!
