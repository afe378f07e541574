//! Little-endian words and bytes: the one layout every Link payload is made of.
//!
//! Every payload is a whole number of four-byte little-endian words, so the codec states its
//! layouts as sequences of `u32` words and moves between words and bytes here.

use vstd::prelude::*;

verus! {

/// Byte `k` (0 is the least significant) of a little-endian word.
pub open spec fn byte_of(w: u32, k: int) -> u8 {
    if k == 0 {
        (w & 0xff) as u8
    } else if k == 1 {
        ((w >> 8u32) & 0xff) as u8
    } else if k == 2 {
        ((w >> 16u32) & 0xff) as u8
    } else {
        ((w >> 24u32) & 0xff) as u8
    }
}

/// The word four little-endian bytes spell.
pub open spec fn word_of(b0: u8, b1: u8, b2: u8, b3: u8) -> u32 {
    (b0 as u32) | ((b1 as u32) << 8u32) | ((b2 as u32) << 16u32) | ((b3 as u32) << 24u32)
}

/// The bytes of a sequence of words, each in little-endian order.
#[verifier::opaque]
pub open spec fn bytes_of_words(ws: Seq<u32>) -> Seq<u8> {
    Seq::new(4 * ws.len(), |i: int| byte_of(ws[i / 4], i % 4))
}

/// The word at word index `j` of a byte sequence.
pub open spec fn word_at(p: Seq<u8>, j: int) -> u32 {
    word_of(p[4 * j], p[4 * j + 1], p[4 * j + 2], p[4 * j + 3])
}

/// A byte sequence read as whole little-endian words (a ragged tail is not a word).
pub open spec fn words_of(p: Seq<u8>) -> Seq<u32> {
    Seq::new(p.len() / 4, |j: int| word_at(p, j))
}

/// A word is the word of its own four bytes.
pub proof fn lemma_word_bytes(w: u32)
    ensures
        word_of(byte_of(w, 0), byte_of(w, 1), byte_of(w, 2), byte_of(w, 3)) == w,
{
    assert(((w & 0xff) as u8 as u32) | ((((w >> 8u32) & 0xff) as u8 as u32) << 8u32) | ((((w
        >> 16u32) & 0xff) as u8 as u32) << 16u32) | ((((w >> 24u32) & 0xff) as u8 as u32)
        << 24u32) == w) by (bit_vector);
}

/// The bytes of the word four bytes spell are those bytes.
pub proof fn lemma_bytes_word(b0: u8, b1: u8, b2: u8, b3: u8)
    ensures
        byte_of(word_of(b0, b1, b2, b3), 0) == b0,
        byte_of(word_of(b0, b1, b2, b3), 1) == b1,
        byte_of(word_of(b0, b1, b2, b3), 2) == b2,
        byte_of(word_of(b0, b1, b2, b3), 3) == b3,
{
    let w = word_of(b0, b1, b2, b3);
    assert(w == (b0 as u32) | ((b1 as u32) << 8u32) | ((b2 as u32) << 16u32) | ((b3 as u32)
        << 24u32) ==> (w & 0xff) as u8 == b0 && ((w >> 8u32) & 0xff) as u8 == b1 && ((w >> 16u32)
        & 0xff) as u8 == b2 && ((w >> 24u32) & 0xff) as u8 == b3) by (bit_vector);
}

/// Reading back the bytes of words gives the words.
pub proof fn lemma_words_of_bytes(ws: Seq<u32>)
    ensures
        words_of(bytes_of_words(ws)) == ws,
        bytes_of_words(ws).len() == 4 * ws.len(),
{
    reveal(bytes_of_words);
    let p = bytes_of_words(ws);
    assert forall|j: int| 0 <= j < ws.len() implies #[trigger] words_of(p)[j] == ws[j] by {
        assert(p[4 * j] == byte_of(ws[j], 0));
        assert(p[4 * j + 1] == byte_of(ws[j], 1));
        assert(p[4 * j + 2] == byte_of(ws[j], 2));
        assert(p[4 * j + 3] == byte_of(ws[j], 3));
        lemma_word_bytes(ws[j]);
    }
    assert(words_of(p) =~= ws);
}

/// Writing out the words of whole-word bytes gives the bytes.
pub proof fn lemma_bytes_of_words(p: Seq<u8>)
    requires
        p.len() % 4 == 0,
    ensures
        bytes_of_words(words_of(p)) == p,
{
    reveal(bytes_of_words);
    let q = bytes_of_words(words_of(p));
    assert forall|i: int| 0 <= i < p.len() implies #[trigger] q[i] == p[i] by {
        let j = i / 4;
        let k = i % 4;
        assert(4 * j + k == i);
        lemma_bytes_word(p[4 * j], p[4 * j + 1], p[4 * j + 2], p[4 * j + 3]);
    }
    assert(q =~= p);
}

/// The bytes of two runs of words, one after the other.
pub proof fn lemma_bytes_of_words_add(a: Seq<u32>, b: Seq<u32>)
    ensures
        bytes_of_words(a + b) == bytes_of_words(a) + bytes_of_words(b),
{
    reveal(bytes_of_words);
    let l = bytes_of_words(a + b);
    let r = bytes_of_words(a) + bytes_of_words(b);
    assert forall|i: int| 0 <= i < l.len() implies #[trigger] l[i] == r[i] by {
        if i < 4 * a.len() {
            assert(i / 4 < a.len());
        } else {
            let i2 = i - 4 * a.len();
            assert(i2 / 4 == i / 4 - a.len());
            assert(i2 % 4 == i % 4);
        }
    }
    assert(l =~= r);
}

/// No words, no bytes.
pub proof fn lemma_bytes_of_no_words()
    ensures
        bytes_of_words(Seq::<u32>::empty()) == Seq::<u8>::empty(),
{
    reveal(bytes_of_words);
    assert(bytes_of_words(Seq::<u32>::empty()) =~= Seq::<u8>::empty());
}

/// The bytes of one word.
pub proof fn lemma_bytes_of_word(w: u32)
    ensures
        bytes_of_words(seq![w]) == seq![byte_of(w, 0), byte_of(w, 1), byte_of(w, 2), byte_of(w, 3)],
{
    reveal(bytes_of_words);
    assert(bytes_of_words(seq![w]) =~= seq![byte_of(w, 0), byte_of(w, 1), byte_of(w, 2), byte_of(w, 3)]);
}

/// The low half of a 64-bit value, as it travels first.
pub open spec fn lo(x: u64) -> u32 {
    (x & 0xffff_ffff) as u32
}

/// The high half of a 64-bit value, as it travels second.
pub open spec fn hi(x: u64) -> u32 {
    (x >> 32u64) as u32
}

/// The 64-bit value two words spell, low word first.
pub open spec fn join(l: u32, h: u32) -> u64 {
    (l as u64) | ((h as u64) << 32u64)
}

/// A 64-bit value is the join of its halves.
pub proof fn lemma_join_split(x: u64)
    ensures
        join(lo(x), hi(x)) == x,
{
    assert((((x & 0xffff_ffff) as u32) as u64) | ((((x >> 32u64) as u32) as u64) << 32u64) == x)
        by (bit_vector);
}

/// The halves of a join are the words joined.
pub proof fn lemma_split_join(l: u32, h: u32)
    ensures
        lo(join(l, h)) == l,
        hi(join(l, h)) == h,
{
    let x = join(l, h);
    assert(x == (l as u64) | ((h as u64) << 32u64) ==> ((x & 0xffff_ffff) as u32) == l && ((x
        >> 32u64) as u32) == h) by (bit_vector);
}

/// Reads the word at word index `j` of `p`.
pub fn read_word(p: &[u8], j: usize) -> (w: u32)
    requires
        4 * j + 4 <= p@.len(),
    ensures
        w == word_at(p@, j as int),
{
    assert(p@.len() <= usize::MAX) by {
        assert(p@.len() == p.len());
    }
    let at = 4 * j;
    (p[at] as u32) | ((p[at + 1] as u32) << 8u32) | ((p[at + 2] as u32) << 16u32) | ((p[at
        + 3] as u32) << 24u32)
}

/// Appends the little-endian bytes of every word of `ws` to `out`.
pub fn push_words(out: &mut Vec<u8>, ws: &Vec<u32>)
    ensures
        final(out)@ == old(out)@ + bytes_of_words(ws@),
{
    proof {
        lemma_bytes_of_no_words();
        assert(ws@.take(0) =~= Seq::<u32>::empty());
    }
    let mut i: usize = 0;
    while i < ws.len()
        invariant
            0 <= i <= ws@.len(),
            out@ == old(out)@ + bytes_of_words(ws@.take(i as int)),
        decreases ws@.len() - i,
    {
        let w = ws[i];
        out.push((w & 0xff) as u8);
        out.push(((w >> 8u32) & 0xff) as u8);
        out.push(((w >> 16u32) & 0xff) as u8);
        out.push(((w >> 24u32) & 0xff) as u8);
        proof {
            assert(ws@.take(i + 1) =~= ws@.take(i as int) + seq![w]);
            lemma_bytes_of_words_add(ws@.take(i as int), seq![w]);
            lemma_bytes_of_word(w);
        }
        i = i + 1;
    }
    assert(ws@.take(i as int) =~= ws@);
}

/// Reads the 64-bit value at word index `j` of `p`, low word first.
pub fn read_u64(p: &[u8], j: usize) -> (x: u64)
    requires
        4 * j + 8 <= p@.len(),
    ensures
        x == join(word_at(p@, j as int), word_at(p@, j + 1)),
        lo(x) == word_at(p@, j as int),
        hi(x) == word_at(p@, j + 1),
{
    assert(p@.len() == p.len());
    let l = read_word(p, j);
    let h = read_word(p, j + 1);
    proof {
        lemma_split_join(l, h);
    }
    (l as u64) | ((h as u64) << 32u64)
}

/// Reads three consecutive words starting at word index `j` of `p`.
pub fn read_words3(p: &[u8], j: usize) -> (a: [u32; 3])
    requires
        4 * j + 12 <= p@.len(),
    ensures
        a@ == words_of(p@).subrange(j as int, j + 3),
{
    assert(p@.len() == p.len());
    let a = [read_word(p, j), read_word(p, j + 1), read_word(p, j + 2)];
    assert(a@ =~= words_of(p@).subrange(j as int, j + 3));
    a
}

/// Reads seven consecutive words starting at word index `j` of `p`.
pub fn read_words7(p: &[u8], j: usize) -> (a: [u32; 7])
    requires
        4 * j + 28 <= p@.len(),
    ensures
        a@ == words_of(p@).subrange(j as int, j + 7),
{
    assert(p@.len() == p.len());
    let a = [
        read_word(p, j),
        read_word(p, j + 1),
        read_word(p, j + 2),
        read_word(p, j + 3),
        read_word(p, j + 4),
        read_word(p, j + 5),
        read_word(p, j + 6),
    ];
    assert(a@ =~= words_of(p@).subrange(j as int, j + 7));
    a
}

/// Reads `n` consecutive words starting at word index `j` of `p`.
pub fn read_words(p: &[u8], j: usize, n: usize) -> (ws: Vec<u32>)
    requires
        4 * (j + n) <= p@.len(),
    ensures
        ws@ == words_of(p@).subrange(j as int, j + n),
{
    assert(p@.len() == p.len());
    let mut ws: Vec<u32> = Vec::new();
    let mut k: usize = 0;
    while k < n
        invariant
            0 <= k <= n,
            p@.len() <= usize::MAX,
            4 * (j + n) <= p@.len(),
            ws@ == words_of(p@).subrange(j as int, j + k),
        decreases n - k,
    {
        ws.push(read_word(p, j + k));
        assert(ws@ =~= words_of(p@).subrange(j as int, j + k + 1));
        k = k + 1;
    }
    ws
}

/// The low byte of a word.
pub fn low_byte(w: u32) -> (b: u8)
    ensures
        b == byte_of(w, 0),
{
    (w & 0xff) as u8
}

/// Whether the three high bytes of a word are zero.
pub fn upper_bytes_clear(w: u32) -> (r: bool)
    ensures
        r == (byte_of(w, 1) == 0 && byte_of(w, 2) == 0 && byte_of(w, 3) == 0),
{
    ((w >> 8u32) & 0xff) as u8 == 0 && ((w >> 16u32) & 0xff) as u8 == 0 && ((w >> 24u32) & 0xff)
        as u8 == 0
}

/// A word whose high bytes are zero is its low byte.
pub proof fn lemma_low_byte_word(w: u32)
    requires
        byte_of(w, 1) == 0,
        byte_of(w, 2) == 0,
        byte_of(w, 3) == 0,
    ensures
        word_of(byte_of(w, 0), 0, 0, 0) == w,
{
    lemma_word_bytes(w);
}

/// Four zero bytes are the zero word.
pub proof fn lemma_zero_word()
    ensures
        word_of(0, 0, 0, 0) == 0,
{
    assert(((0u8 as u32) | ((0u8 as u32) << 8u32) | ((0u8 as u32) << 16u32) | ((0u8 as u32) << 24u32)) == 0) by (bit_vector);
}

} // verus!
