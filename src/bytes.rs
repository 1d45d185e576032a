//! Little-endian encoding of words into bytes, and the buffer operations built on it.
use vstd::prelude::*;

verus! {

/// The four little-endian bytes of `w`.
pub open spec fn u32_bytes(w: u32) -> Seq<u8> {
    seq![(w & 0xff) as u8, ((w >> 8) & 0xff) as u8, ((w >> 16) & 0xff) as u8, (w >> 24) as u8]
}

/// The word whose little-endian bytes start at offset `o` of `s`.
pub open spec fn le_u32(s: Seq<u8>, o: int) -> u32 {
    (s[o] as u32) | ((s[o + 1] as u32) << 8) | ((s[o + 2] as u32) << 16) | ((s[o + 3] as u32) << 24)
}

/// The words of `ws`, each as its four little-endian bytes, in order.
pub open spec fn words_bytes(ws: Seq<u32>) -> Seq<u8>
    decreases ws.len(),
{
    if ws.len() == 0 {
        Seq::empty()
    } else {
        words_bytes(ws.drop_last()) + u32_bytes(ws.last())
    }
}

/// `n` consecutive little-endian words of `s`, the first at offset `o`.
pub open spec fn words_at(s: Seq<u8>, o: int, n: nat) -> Seq<u32> {
    Seq::new(n, |c: int| le_u32(s, o + 4 * c))
}

/// `s` with the bytes from offset `o` on replaced by `b`.
pub open spec fn splice(s: Seq<u8>, o: int, b: Seq<u8>) -> Seq<u8> {
    s.subrange(0, o) + b + s.subrange(o + b.len(), s.len() as int)
}

/// The low and high halves of a 64-bit value, low first.
pub open spec fn u64_words(v: u64) -> Seq<u32> {
    seq![v as u32, (v >> 32) as u32]
}

pub proof fn lemma_le_u32_of_bytes(s: Seq<u8>, o: int, w: u32)
    requires
        0 <= o,
        o + 4 <= s.len(),
        s.subrange(o, o + 4) == u32_bytes(w),
    ensures
        le_u32(s, o) == w,
{
    let b = u32_bytes(w);
    assert(s[o] == b[0] && s[o + 1] == b[1] && s[o + 2] == b[2] && s[o + 3] == b[3]) by {
        assert(s.subrange(o, o + 4)[0] == s[o]);
        assert(s.subrange(o, o + 4)[1] == s[o + 1]);
        assert(s.subrange(o, o + 4)[2] == s[o + 2]);
        assert(s.subrange(o, o + 4)[3] == s[o + 3]);
    }
    let b0 = s[o];
    let b1 = s[o + 1];
    let b2 = s[o + 2];
    let b3 = s[o + 3];
    assert((b0 as u32) | ((b1 as u32) << 8) | ((b2 as u32) << 16) | ((b3 as u32) << 24) == w)
        by (bit_vector)
        requires
            b0 == (w & 0xff) as u8,
            b1 == ((w >> 8) & 0xff) as u8,
            b2 == ((w >> 16) & 0xff) as u8,
            b3 == (w >> 24) as u8,
    ;
}

pub proof fn lemma_words_bytes_len(ws: Seq<u32>)
    ensures
        words_bytes(ws).len() == 4 * ws.len(),
    decreases ws.len(),
{
    if ws.len() > 0 {
        lemma_words_bytes_len(ws.drop_last());
    }
}

/// Word `c` of `ws` occupies bytes `4c .. 4c + 4` of its encoding.
pub proof fn lemma_words_bytes_chunk(ws: Seq<u32>, c: int)
    requires
        0 <= c < ws.len(),
    ensures
        words_bytes(ws).len() == 4 * ws.len(),
        words_bytes(ws).subrange(4 * c, 4 * c + 4) == u32_bytes(ws[c]),
    decreases ws.len(),
{
    lemma_words_bytes_len(ws);
    let init = ws.drop_last();
    lemma_words_bytes_len(init);
    if c == ws.len() - 1 {
        assert(words_bytes(ws).subrange(4 * c, 4 * c + 4) =~= u32_bytes(ws[c]));
    } else {
        lemma_words_bytes_chunk(init, c);
        assert(words_bytes(ws).subrange(4 * c, 4 * c + 4) =~= words_bytes(init).subrange(
            4 * c,
            4 * c + 4,
        ));
    }
}

/// Encoding words and reading them back from a buffer gives the words again.
pub proof fn lemma_words_round_trip(s: Seq<u8>, o: int, ws: Seq<u32>)
    requires
        0 <= o,
        o + 4 * ws.len() <= s.len(),
        s.subrange(o, o + 4 * ws.len()) == words_bytes(ws),
    ensures
        words_at(s, o, ws.len()) == ws,
{
    assert forall|c: int| 0 <= c < ws.len() implies le_u32(s, o + 4 * c) == ws[c] by {
        lemma_words_bytes_chunk(ws, c);
        assert(s.subrange(o + 4 * c, o + 4 * c + 4) =~= words_bytes(ws).subrange(4 * c, 4 * c + 4));
        lemma_le_u32_of_bytes(s, o + 4 * c, ws[c]);
    }
    assert(words_at(s, o, ws.len()) =~= ws);
}

pub proof fn lemma_u64_words(v: u64)
    ensures
        (u64_words(v)[0] as u64) | ((u64_words(v)[1] as u64) << 32) == v,
{
    let lo = v as u32;
    let hi = (v >> 32) as u32;
    assert((lo as u64) | ((hi as u64) << 32) == v) by (bit_vector)
        requires
            lo == v as u32,
            hi == (v >> 32) as u32,
    ;
}

/// Reads the little-endian word at offset `o`.
pub fn read_u32(data: &Vec<u8>, o: usize) -> (r: u32)
    requires
        o + 4 <= data@.len(),
    ensures
        r == le_u32(data@, o as int),
{
    let len = data.len();
    assert(o + 4 <= len);
    (data[o] as u32) | ((data[o + 1] as u32) << 8) | ((data[o + 2] as u32) << 16) | ((data[o + 3]
        as u32) << 24)
}

/// Reads `n` consecutive little-endian words, the first at offset `o`.
pub fn read_words(data: &Vec<u8>, o: usize, n: usize) -> (r: Vec<u32>)
    requires
        o + 4 * n <= data@.len(),
    ensures
        r@ == words_at(data@, o as int, n as nat),
{
    let len = data.len();
    let mut r: Vec<u32> = Vec::new();
    let mut c: usize = 0;
    while c < n
        invariant
            c <= n,
            data@.len() == len,
            o + 4 * n <= data@.len(),
            r@ == words_at(data@, o as int, c as nat),
        decreases n - c,
    {
        let w = read_u32(data, o + 4 * c);
        r.push(w);
        c = c + 1;
        assert(r@ =~= words_at(data@, o as int, c as nat));
    }
    r
}

/// The bytes of `ws`, each word little-endian.
pub fn encode_words(ws: &[u32]) -> (r: Vec<u8>)
    ensures
        r@ == words_bytes(ws@),
{
    let mut r: Vec<u8> = Vec::new();
    let mut c: usize = 0;
    while c < ws.len()
        invariant
            c <= ws@.len(),
            r@ == words_bytes(ws@.take(c as int)),
        decreases ws@.len() - c,
    {
        let w = ws[c];
        r.push((w & 0xff) as u8);
        r.push(((w >> 8) & 0xff) as u8);
        r.push(((w >> 16) & 0xff) as u8);
        r.push((w >> 24) as u8);
        assert(ws@.take(c + 1).drop_last() =~= ws@.take(c as int));
        c = c + 1;
        assert(r@ =~= words_bytes(ws@.take(c as int)));
    }
    assert(ws@.take(ws@.len() as int) =~= ws@);
    r
}

/// A fresh vector holding the bytes of `src`.
pub fn copy_bytes(src: &[u8]) -> (r: Vec<u8>)
    ensures
        r@ == src@,
{
    let mut r: Vec<u8> = Vec::new();
    let mut j: usize = 0;
    while j < src.len()
        invariant
            j <= src@.len(),
            r@ == src@.take(j as int),
        decreases src@.len() - j,
    {
        r.push(src[j]);
        j = j + 1;
        assert(r@ =~= src@.take(j as int));
    }
    assert(src@.take(src@.len() as int) =~= src@);
    r
}

/// Overwrites the bytes from offset `o` on with `b`.
pub fn write_bytes(data: &mut Vec<u8>, o: usize, b: &[u8])
    requires
        o + b@.len() <= old(data)@.len(),
    ensures
        final(data)@ == splice(old(data)@, o as int, b@),
{
    let ghost orig = data@;
    let len = data.len();
    let mut j: usize = 0;
    while j < b.len()
        invariant
            j <= b@.len(),
            orig.len() == len,
            o + b@.len() <= orig.len(),
            data@.len() == orig.len(),
            forall|k: int|
                0 <= k < orig.len() ==> #[trigger] data@[k] == if o <= k < o + j {
                    b@[k - o]
                } else {
                    orig[k]
                },
        decreases b@.len() - j,
    {
        data[o + j] = b[j];
        j = j + 1;
    }
    assert(data@ =~= splice(orig, o as int, b@));
}

/// Extends with zero bytes, or cuts, to length `n`.
pub fn resize_zeroed(data: &mut Vec<u8>, n: usize)
    ensures
        final(data)@ == Seq::new(
            n as nat,
            |k: int|
                if k < old(data)@.len() {
                    old(data)@[k]
                } else {
                    0u8
                },
        ),
{
    let ghost orig = data@;
    if n <= data.len() {
        data.truncate(n);
    } else {
        while data.len() < n
            invariant
                orig.len() <= data@.len() <= n,
                forall|k: int|
                    0 <= k < data@.len() ==> #[trigger] data@[k] == if k < orig.len() {
                        orig[k]
                    } else {
                        0u8
                    },
            decreases n - data@.len(),
        {
            data.push(0u8);
        }
    }
    assert(data@ =~= Seq::new(
        n as nat,
        |k: int|
            if k < orig.len() {
                orig[k]
            } else {
                0u8
            },
    ));
}

/// The `n` bytes from offset `o` on.
pub fn read_bytes(data: &Vec<u8>, o: usize, n: usize) -> (r: Vec<u8>)
    requires
        o + n <= data@.len(),
    ensures
        r@ == data@.subrange(o as int, o + n),
{
    let len = data.len();
    let mut r: Vec<u8> = Vec::new();
    let mut j: usize = 0;
    while j < n
        invariant
            j <= n,
            data@.len() == len,
            o + n <= data@.len(),
            r@ == data@.subrange(o as int, o + j),
        decreases n - j,
    {
        r.push(data[o + j]);
        j = j + 1;
        assert(r@ =~= data@.subrange(o as int, o + j));
    }
    r
}

} // verus!
