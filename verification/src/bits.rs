//! Bit-level packing and unpacking shared by the mnemonic codec and the
//! account-identifier encoding.
//!
//! A byte string is read as a bit string, most significant bit of each unit
//! first; bit strings are cut into fixed-width groups and packed back into
//! integer values.  Everything here is verified; the contracts relate the
//! executable loops to the spec-level bit strings.

use vstd::prelude::*;

verus! {

/// Bit `m` (counting from the least significant end) of a byte.
pub open spec fn bit8(v: u8, m: u8) -> bool
    recommends
        m < 8,
{
    (v >> m) & 1 == 1
}

/// Bit `m` (counting from the least significant end) of a 16-bit value.
pub open spec fn bit16(v: u16, m: u16) -> bool
    recommends
        m < 16,
{
    (v >> m) & 1 == 1
}

/// The `w` low bits of a byte, most significant first.
pub open spec fn unit_bits8(v: u8, w: int) -> Seq<bool> {
    Seq::new(w as nat, |k: int| bit8(v, (w - 1 - k) as u8))
}

/// The `w` low bits of a 16-bit value, most significant first.
pub open spec fn unit_bits16(v: u16, w: int) -> Seq<bool> {
    Seq::new(w as nat, |k: int| bit16(v, (w - 1 - k) as u16))
}

/// The bit string of a byte sequence, each byte contributing its `w` low
/// bits, most significant first.
pub open spec fn bits_of_units(s: Seq<u8>, w: int) -> Seq<bool>
    decreases s.len(),
{
    if s.len() == 0 {
        Seq::<bool>::empty()
    } else {
        bits_of_units(s.drop_last(), w) + unit_bits8(s.last(), w)
    }
}

/// The bit string of a sequence of 11-bit values, most significant first.
pub open spec fn bits_of_words(s: Seq<u16>) -> Seq<bool>
    decreases s.len(),
{
    if s.len() == 0 {
        Seq::<bool>::empty()
    } else {
        bits_of_words(s.drop_last()) + unit_bits16(s.last(), 11)
    }
}

pub proof fn lemma_bits_of_units_len(s: Seq<u8>, w: int)
    requires
        w >= 0,
    ensures
        bits_of_units(s, w).len() == s.len() * w,
    decreases s.len(),
{
    if s.len() > 0 {
        lemma_bits_of_units_len(s.drop_last(), w);
        assert((s.len() - 1) * w + w == s.len() * w) by (nonlinear_arith);
    }
}

pub proof fn lemma_bits_of_words_len(s: Seq<u16>)
    ensures
        bits_of_words(s).len() == s.len() * 11,
    decreases s.len(),
{
    if s.len() > 0 {
        lemma_bits_of_words_len(s.drop_last());
    }
}

pub proof fn lemma_bits_of_units_push(s: Seq<u8>, v: u8, w: int)
    ensures
        bits_of_units(s.push(v), w) == bits_of_units(s, w) + unit_bits8(v, w),
{
    assert(s.push(v).drop_last() =~= s);
    assert(s.push(v).last() == v);
}

pub proof fn lemma_bits_of_words_push(s: Seq<u16>, v: u16)
    ensures
        bits_of_words(s.push(v)) == bits_of_words(s) + unit_bits16(v, 11),
{
    assert(s.push(v).drop_last() =~= s);
    assert(s.push(v).last() == v);
}

proof fn lemma_double16(a: u16, c: u16, k: u16, j: u16)
    by (bit_vector)
    requires
        a < (1u16 << k),
        c < 2,
        k < 15,
        j < 15,
    ensures
        2 * a + c < 65536,
        ((2 * a + c) as u16) < (1u16 << ((k + 1) as u16)),
        ((((2 * a + c) as u16) >> 0u16) & 1 == 1) == (c == 1),
        ((((2 * a + c) as u16) >> ((j + 1) as u16)) & 1) == ((a >> j) & 1),
{
}

proof fn lemma_double8(a: u8, c: u8, k: u8, j: u8)
    by (bit_vector)
    requires
        a < (1u8 << k),
        c < 2,
        k < 8,
        j < 7,
    ensures
        2 * a + c < 256,
        k < 7 ==> ((2 * a + c) as u8) < (1u8 << ((k + 1) as u8)),
        ((((2 * a + c) as u8) >> 0u8) & 1 == 1) == (c == 1),
        ((((2 * a + c) as u8) >> ((j + 1) as u8)) & 1) == ((a >> j) & 1),
{
}

/// Two bytes with the same eight bits are the same byte.
pub proof fn lemma_u8_eq_by_bits(x: u8, y: u8)
    by (bit_vector)
    requires
        ((x >> 0u8) & 1 == 1) == ((y >> 0u8) & 1 == 1),
        ((x >> 1u8) & 1 == 1) == ((y >> 1u8) & 1 == 1),
        ((x >> 2u8) & 1 == 1) == ((y >> 2u8) & 1 == 1),
        ((x >> 3u8) & 1 == 1) == ((y >> 3u8) & 1 == 1),
        ((x >> 4u8) & 1 == 1) == ((y >> 4u8) & 1 == 1),
        ((x >> 5u8) & 1 == 1) == ((y >> 5u8) & 1 == 1),
        ((x >> 6u8) & 1 == 1) == ((y >> 6u8) & 1 == 1),
        ((x >> 7u8) & 1 == 1) == ((y >> 7u8) & 1 == 1),
    ensures
        x == y,
{
}

/// Two values below 32 with the same five low bits are equal.
pub proof fn lemma_u8_eq_low5(x: u8, y: u8)
    by (bit_vector)
    requires
        x < 32,
        y < 32,
        ((x >> 0u8) & 1 == 1) == ((y >> 0u8) & 1 == 1),
        ((x >> 1u8) & 1 == 1) == ((y >> 1u8) & 1 == 1),
        ((x >> 2u8) & 1 == 1) == ((y >> 2u8) & 1 == 1),
        ((x >> 3u8) & 1 == 1) == ((y >> 3u8) & 1 == 1),
        ((x >> 4u8) & 1 == 1) == ((y >> 4u8) & 1 == 1),
    ensures
        x == y,
{
}

/// Append the `w` low bits of `v` to `out`, most significant first.
pub fn append_bits8(out: &mut Vec<bool>, v: u8, w: usize)
    requires
        w <= 8,
    ensures
        final(out)@ == old(out)@ + unit_bits8(v, w as int),
{
    let ghost unit = unit_bits8(v, w as int);
    let mut k: usize = 0;
    while k < w
        invariant
            k <= w,
            w <= 8,
            unit == unit_bits8(v, w as int),
            out@ == old(out)@ + unit.take(k as int),
        decreases w - k,
    {
        let m: u8 = (w - 1 - k) as u8;
        out.push((v >> m) & 1 == 1);
        proof {
            assert(unit[k as int] == bit8(v, m));
            assert(unit.take(k as int).push(unit[k as int]) =~= unit.take(k + 1 as int));
        }
        k += 1;
    }
    proof {
        assert(unit.take(w as int) =~= unit);
    }
}

/// Append the `w` low bits of `v` to `out`, most significant first.
pub fn append_bits16(out: &mut Vec<bool>, v: u16, w: usize)
    requires
        w <= 16,
    ensures
        final(out)@ == old(out)@ + unit_bits16(v, w as int),
{
    let ghost unit = unit_bits16(v, w as int);
    let mut k: usize = 0;
    while k < w
        invariant
            k <= w,
            w <= 16,
            unit == unit_bits16(v, w as int),
            out@ == old(out)@ + unit.take(k as int),
        decreases w - k,
    {
        let m: u16 = (w - 1 - k) as u16;
        out.push((v >> m) & 1 == 1);
        proof {
            assert(unit[k as int] == bit16(v, m));
            assert(unit.take(k as int).push(unit[k as int]) =~= unit.take(k + 1 as int));
        }
        k += 1;
    }
    proof {
        assert(unit.take(w as int) =~= unit);
    }
}

/// Pack `w` bits starting at `start` into a value, most significant first.
pub fn take_bits16(bits: &Vec<bool>, start: usize, w: usize) -> (v: u16)
    requires
        start + w <= bits@.len(),
        1 <= w <= 11,
    ensures
        unit_bits16(v, w as int) == bits@.subrange(start as int, (start + w) as int),
        v < (1u16 << (w as u16)),
        forall|m: u16| w <= m < 16 ==> !bit16(v, m),
{
    let n: usize = bits.len();
    let mut v: u16 = 0;
    let mut k: usize = 0;
    proof {
        assert((0u16 >> 0u16) & 1 == 0 && (1u16 << 0u16) == 1 && forall|m: u16|
            m < 16 ==> ((0u16 >> m) & 1) == 0) by (bit_vector);
    }
    while k < w
        invariant
            k <= w,
            1 <= w <= 11,
            start + w <= bits@.len(),
            n == bits@.len(),
            v < (1u16 << (k as u16)),
            forall|j: int| 0 <= j < k ==> bit16(v, (k - 1 - j) as u16) == #[trigger] bits@[start + j],
            forall|m: u16| k <= m < 16 ==> !bit16(v, m),
        decreases w - k,
    {
        let c: u16 = if *bits_index(bits, start + k) {
            1
        } else {
            0
        };
        let ghost a = v;
        let ghost kk = k as u16;
        proof {
            lemma_double16(a, c, kk, 0);
        }
        v = 2 * v + c;
        proof {
            assert(v == (2 * a + c) as u16);
            assert forall|m: u16| 1 <= m < 16 implies ((v >> m) & 1) == ((a >> ((m - 1) as u16))
                & 1) by {
                lemma_double16(a, c, kk, (m - 1) as u16);
            }
            assert forall|j: int| 0 <= j < k + 1 implies bit16(v, (k - j) as u16)
                == #[trigger] bits@[start + j] by {
                if j == k {
                    assert(bit16(v, 0) == (c == 1));
                } else {
                    assert(((v >> ((k - j) as u16)) & 1) == ((a >> ((k - 1 - j) as u16)) & 1));
                }
            }
            assert forall|m: u16| k + 1 <= m < 16 implies !bit16(v, m) by {
                assert(((v >> m) & 1) == ((a >> ((m - 1) as u16)) & 1));
                assert(!bit16(a, (m - 1) as u16));
            }
        }
        k += 1;
    }
    proof {
        let sub = bits@.subrange(start as int, (start + w) as int);
        assert forall|k2: int| 0 <= k2 < w implies unit_bits16(v, w as int)[k2] == sub[k2] by {
            assert(bit16(v, (w - 1 - k2) as u16) == bits@[start + k2]);
        }
        assert(unit_bits16(v, w as int) =~= sub);
    }
    v
}

/// Pack `w` bits starting at `start` into a byte, most significant first.
pub fn take_bits8(bits: &Vec<bool>, start: usize, w: usize) -> (v: u8)
    requires
        start + w <= bits@.len(),
        1 <= w <= 8,
    ensures
        unit_bits8(v, w as int) == bits@.subrange(start as int, (start + w) as int),
        w < 8 ==> v < (1u8 << (w as u8)),
        forall|m: u8| w <= m < 8 ==> !bit8(v, m),
{
    let n: usize = bits.len();
    let mut v: u8 = 0;
    let mut k: usize = 0;
    proof {
        assert((0u8 >> 0u8) & 1 == 0 && (1u8 << 0u8) == 1 && forall|m: u8|
            m < 8 ==> ((0u8 >> m) & 1) == 0) by (bit_vector);
    }
    while k < w
        invariant
            k <= w,
            1 <= w <= 8,
            start + w <= bits@.len(),
            n == bits@.len(),
            k < 8 ==> v < (1u8 << (k as u8)),
            k == 8 ==> w == 8,
            v < 256,
            forall|j: int| 0 <= j < k ==> bit8(v, (k - 1 - j) as u8) == #[trigger] bits@[start + j],
            forall|m: u8| k <= m < 8 ==> !bit8(v, m),
        decreases w - k,
    {
        let c: u8 = if *bits_index(bits, start + k) {
            1
        } else {
            0
        };
        let ghost a = v;
        let ghost kk = k as u8;
        proof {
            lemma_double8(a, c, kk, 0);
        }
        v = 2 * v + c;
        proof {
            assert(v == (2 * a + c) as u8);
            assert forall|m: u8| 1 <= m < 8 implies ((v >> m) & 1) == ((a >> ((m - 1) as u8))
                & 1) by {
                lemma_double8(a, c, kk, (m - 1) as u8);
            }
            assert forall|j: int| 0 <= j < k + 1 implies bit8(v, (k - j) as u8)
                == #[trigger] bits@[start + j] by {
                if j == k {
                    assert(bit8(v, 0) == (c == 1));
                } else {
                    assert(((v >> ((k - j) as u8)) & 1) == ((a >> ((k - 1 - j) as u8)) & 1));
                }
            }
            assert forall|m: u8| k + 1 <= m < 8 implies !bit8(v, m) by {
                assert(((v >> m) & 1) == ((a >> ((m - 1) as u8)) & 1));
                assert(!bit8(a, (m - 1) as u8));
            }
        }
        k += 1;
    }
    proof {
        let sub = bits@.subrange(start as int, (start + w) as int);
        assert forall|k2: int| 0 <= k2 < w implies unit_bits8(v, w as int)[k2] == sub[k2] by {
            assert(bit8(v, (w - 1 - k2) as u8) == bits@[start + k2]);
        }
        assert(unit_bits8(v, w as int) =~= sub);
    }
    v
}

fn bits_index(bits: &Vec<bool>, i: usize) -> (r: &bool)
    requires
        i < bits@.len(),
    ensures
        *r == bits@[i as int],
{
    &bits[i]
}

/// Read each byte of `s` as its `w` low bits and concatenate.
pub fn units_to_bits(s: &Vec<u8>, w: usize) -> (r: Vec<bool>)
    requires
        1 <= w <= 8,
    ensures
        r@ == bits_of_units(s@, w as int),
        r@.len() == s@.len() * w,
{
    let mut r: Vec<bool> = Vec::new();
    let mut i: usize = 0;
    while i < s.len()
        invariant
            i <= s@.len(),
            1 <= w <= 8,
            r@ == bits_of_units(s@.take(i as int), w as int),
        decreases s@.len() - i,
    {
        append_bits8(&mut r, s[i], w);
        proof {
            assert(s@.take(i as int).push(s@[i as int]) =~= s@.take(i + 1 as int));
            lemma_bits_of_units_push(s@.take(i as int), s@[i as int], w as int);
        }
        i += 1;
    }
    proof {
        assert(s@.take(s@.len() as int) =~= s@);
        lemma_bits_of_units_len(s@, w as int);
    }
    r
}

/// Concatenate the 11-bit renderings of the given values.
pub fn words_to_bits(s: &Vec<u16>) -> (r: Vec<bool>)
    ensures
        r@ == bits_of_words(s@),
        r@.len() == s@.len() * 11,
{
    let mut r: Vec<bool> = Vec::new();
    let mut i: usize = 0;
    while i < s.len()
        invariant
            i <= s@.len(),
            r@ == bits_of_words(s@.take(i as int)),
        decreases s@.len() - i,
    {
        append_bits16(&mut r, s[i], 11);
        proof {
            assert(s@.take(i as int).push(s@[i as int]) =~= s@.take(i + 1 as int));
            lemma_bits_of_words_push(s@.take(i as int), s@[i as int]);
        }
        i += 1;
    }
    proof {
        assert(s@.take(s@.len() as int) =~= s@);
        lemma_bits_of_words_len(s@);
    }
    r
}

/// Cut the first `count * w` bits of `bits` into `count` groups of `w` bits
/// and pack each group into a byte.
pub fn bits_to_units(bits: &Vec<bool>, w: usize, count: usize) -> (r: Vec<u8>)
    requires
        1 <= w <= 8,
        count * w <= bits@.len(),
    ensures
        r@.len() == count,
        bits_of_units(r@, w as int) == bits@.subrange(0, (count * w) as int),
        forall|i: int, m: u8| 0 <= i < r@.len() && w <= m < 8 ==> !(#[trigger] bit8(r@[i], m)),
        w < 8 ==> forall|i: int| 0 <= i < r@.len() ==> r@[i] < (1u8 << (w as u8)),
{
    let n: usize = bits.len();
    let mut r: Vec<u8> = Vec::new();
    let mut i: usize = 0;
    while i < count
        invariant
            i <= count,
            1 <= w <= 8,
            n == bits@.len(),
            count * w <= bits@.len(),
            r@.len() == i,
            bits_of_units(r@, w as int) == bits@.subrange(0, (i * w) as int),
            forall|j: int, m: u8| 0 <= j < r@.len() && w <= m < 8 ==> !(#[trigger] bit8(r@[j], m)),
            w < 8 ==> forall|j: int| 0 <= j < r@.len() ==> r@[j] < (1u8 << (w as u8)),
        decreases count - i,
    {
        proof {
            assert(i * w + w == (i + 1) * w) by (nonlinear_arith);
            assert((i + 1) * w <= count * w) by (nonlinear_arith)
                requires
                    i + 1 <= count,
                    w >= 1,
            ;
            assert(i * w <= count * w);
        }
        let v: u8 = take_bits8(bits, i * w, w);
        proof {
            lemma_bits_of_units_push(r@, v, w as int);
            assert(bits@.subrange(0, (i * w) as int) + bits@.subrange(
                (i * w) as int,
                (i * w + w) as int,
            ) =~= bits@.subrange(0, (i * w + w) as int));
        }
        r.push(v);
        i += 1;
    }
    r
}

/// Cut the first `count * 11` bits of `bits` into groups of 11 bits and pack
/// each group into a value below 2048.
pub fn bits_to_words(bits: &Vec<bool>, count: usize) -> (r: Vec<u16>)
    requires
        count * 11 <= bits@.len(),
    ensures
        r@.len() == count,
        bits_of_words(r@) == bits@.subrange(0, (count * 11) as int),
        forall|i: int| 0 <= i < r@.len() ==> r@[i] < 2048,
{
    let n: usize = bits.len();
    let mut r: Vec<u16> = Vec::new();
    let mut i: usize = 0;
    proof {
        assert((1u16 << 11u16) == 2048) by (bit_vector);
    }
    while i < count
        invariant
            i <= count,
            n == bits@.len(),
            count * 11 <= bits@.len(),
            r@.len() == i,
            bits_of_words(r@) == bits@.subrange(0, (i * 11) as int),
            forall|j: int| 0 <= j < r@.len() ==> r@[j] < 2048,
        decreases count - i,
    {
        proof {
            assert(i * 11 + 11 == (i + 1) * 11);
            assert((i + 1) * 11 <= count * 11);
        }
        let v: u16 = take_bits16(bits, i * 11, 11);
        proof {
            assert((1u16 << 11u16) == 2048) by (bit_vector);
            lemma_bits_of_words_push(r@, v);
            assert(bits@.subrange(0, (i * 11) as int) + bits@.subrange(
                (i * 11) as int,
                (i * 11 + 11) as int,
            ) =~= bits@.subrange(0, (i * 11 + 11) as int));
        }
        r.push(v);
        i += 1;
    }
    r
}

} // verus!
