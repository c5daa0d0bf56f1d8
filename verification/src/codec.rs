//! Bit-packed palette index arrays.
//!
//! A section stores 4096 palette indices inside an array of 64-bit words.
//! Each index occupies a fixed number of bits (at least 4, and enough to
//! address every palette entry); an index never straddles a word boundary,
//! so any high bits of a word that cannot hold one more index are padding.

use vstd::prelude::*;
use vstd::arithmetic::div_mod::lemma_fundamental_div_mod;
use vstd::arithmetic::div_mod::lemma_fundamental_div_mod_converse;

verus! {

/// Number of binary digits of `n`: 0 for 0, and 1 + the digits of `n / 2`
/// otherwise.
pub open spec fn spec_bit_len(n: int) -> int
    decreases n,
{
    if n <= 0 {
        0
    } else {
        1 + spec_bit_len(n / 2)
    }
}

/// 2 to the power `k` (1 for `k <= 0`), kept local so bit widths can be
/// related to shifted constants.
pub open spec fn spec_pow2(k: int) -> int
    decreases k,
{
    if k <= 0 {
        1
    } else {
        2 * spec_pow2(k - 1)
    }
}

/// Width in bits of one packed palette index for a palette of length `p`:
/// the minimum width that can address every entry, but never less than 4.
pub open spec fn spec_bits_for(p: int) -> int {
    let b = spec_bit_len(p - 1);
    if b < 4 {
        4
    } else {
        b
    }
}

/// How many indices fit in one 64-bit word.
pub open spec fn per_word(bits: int) -> int {
    64int / bits
}

/// The least number of 64-bit words that can hold 4096 packed indices.
pub open spec fn words_needed(bits: int) -> int {
    (4096 + per_word(bits) - 1) / per_word(bits)
}

/// The low `bits` bits set.
pub open spec fn mask_of(bits: int) -> u64 {
    (((1u64 << (bits as u64)) - 1) as u64)
}

/// The value of width `bits` starting at bit `sh` of word `w`.
pub open spec fn spec_extract(w: u64, sh: int, bits: int) -> u64 {
    ((w >> (sh as u64)) & mask_of(bits))
}

/// The `i`-th packed index of the word array `data`, read with width `bits`.
pub open spec fn spec_index_at(data: Seq<u64>, bits: int, i: int) -> u64 {
    spec_extract(data[i / per_word(bits)], (i % per_word(bits)) * bits, bits)
}

/// Whether `data` is a valid packed index array for a palette of length `p`:
/// long enough for 4096 indices, and every index in range.
pub open spec fn spec_section_data_ok(p: int, data: Seq<u64>) -> bool {
    let bits = spec_bits_for(p);
    &&& data.len() >= words_needed(bits)
    &&& forall|i: int| 0 <= i < 4096 ==> (#[trigger] spec_index_at(data, bits, i)) < p
}

/// The 4096 indices that `data` packs for a palette of length `p`.
pub open spec fn spec_unpacked(p: int, data: Seq<u64>) -> Seq<u64> {
    Seq::new(4096, |i: int| spec_index_at(data, spec_bits_for(p), i))
}

proof fn lemma_bit_len_nonneg(n: int)
    ensures
        spec_bit_len(n) >= 0,
    decreases n,
{
    if n > 0 {
        lemma_bit_len_nonneg(n / 2);
    }
}

proof fn lemma_bit_len_mono(a: int, b: int)
    requires
        0 <= a <= b,
    ensures
        spec_bit_len(a) <= spec_bit_len(b),
    decreases b,
{
    if a > 0 {
        lemma_bit_len_mono(a / 2, b / 2);
    } else {
        lemma_bit_len_nonneg(b);
    }
}

proof fn lemma_bit_len_bound(n: int)
    requires
        0 <= n,
    ensures
        n < spec_pow2(spec_bit_len(n)),
    decreases n,
{
    if n > 0 {
        lemma_bit_len_bound(n / 2);
    }
}

proof fn lemma_pow2_pos(k: int)
    ensures
        spec_pow2(k) >= 1,
    decreases k,
{
    if k > 0 {
        lemma_pow2_pos(k - 1);
    }
}

proof fn lemma_pow2_mono(a: int, b: int)
    requires
        a <= b,
    ensures
        spec_pow2(a) <= spec_pow2(b),
    decreases b,
{
    if b > 0 && a < b {
        lemma_pow2_mono(a, b - 1);
        lemma_pow2_pos(b - 1);
    }
}

proof fn lemma_pow2_is_shift(k: int)
    requires
        0 <= k <= 63,
    ensures
        spec_pow2(k) == 1u64 << (k as u64),
    decreases k,
{
    if k == 0 {
        assert(1u64 << 0u64 == 1) by (bit_vector);
    } else {
        lemma_pow2_is_shift(k - 1);
        let ku: u64 = k as u64;
        let ju: u64 = (k - 1) as u64;
        assert(1u64 <= ku <= 63 && ju == ku - 1 ==> 1u64 << ku == 2 * (1u64 << ju))
            by (bit_vector);
    }
}

/// The chosen width is between 4 and 12 for any palette of at most 4096
/// entries, and can address every entry.
pub proof fn lemma_bits_for_range(p: int)
    requires
        1 <= p <= 4096,
    ensures
        4 <= spec_bits_for(p) <= 12,
        p <= spec_pow2(spec_bits_for(p)),
        p <= (1u64 << (spec_bits_for(p) as u64)),
{
    lemma_bit_len_nonneg(p - 1);
    lemma_bit_len_mono(p - 1, 4095);
    assert(spec_bit_len(4095) == 12) by {
        reveal_with_fuel(spec_bit_len, 13);
    };
    lemma_bit_len_bound(p - 1);
    lemma_pow2_mono(spec_bit_len(p - 1), spec_bits_for(p));
    lemma_pow2_is_shift(spec_bits_for(p));
}

/// Computes the packed index width for a palette of length `palette_len`.
pub fn bits_for(palette_len: usize) -> (b: usize)
    requires
        1 <= palette_len <= 4096,
    ensures
        b == spec_bits_for(palette_len as int),
        4 <= b <= 12,
{
    proof {
        lemma_bits_for_range(palette_len as int);
    }
    let mut n: usize = palette_len - 1;
    let mut len: usize = 0;
    while n > 0
        invariant
            spec_bit_len(palette_len - 1) == len + spec_bit_len(n as int),
            spec_bit_len(palette_len - 1) <= 12,
            len <= 12,
        decreases n,
    {
        proof {
            reveal_with_fuel(spec_bit_len, 2);
            lemma_bit_len_mono(1, n as int);
            lemma_bit_len_nonneg(n as int / 2);
        }
        n = n / 2;
        len = len + 1;
    }
    if len < 4 {
        4
    } else {
        len
    }
}

/// Basic facts about how many indices a word holds: at least 5 fit, they
/// cover at most 64 bits, and `words_needed` words hold at least 4096.
pub proof fn lemma_word_geometry(bits: int)
    requires
        4 <= bits <= 12,
    ensures
        5 <= per_word(bits) <= 16,
        per_word(bits) * bits <= 64,
        1 <= words_needed(bits) <= 1024,
        words_needed(bits) * per_word(bits) >= 4096,
{
    let per = per_word(bits);
    lemma_fundamental_div_mod(64, bits);
    assert(bits * per <= 64);
    assert(per * bits <= 64) by (nonlinear_arith)
        requires
            bits * per <= 64,
    ;
    assert(per >= 5) by (nonlinear_arith)
        requires
            bits * per > 52,
            0 < bits <= 12,
    ;
    assert(per <= 16) by (nonlinear_arith)
        requires
            bits * per <= 64,
            bits >= 4,
            per >= 0,
    ;
    let wn = words_needed(bits);
    lemma_fundamental_div_mod(4096 + per - 1, per);
    assert(per * wn >= 4096);
    assert(wn * per >= 4096 && wn >= 1 && wn <= 1024) by (nonlinear_arith)
        requires
            per * wn >= 4096,
            per * wn <= 4095 + per,
            5 <= per <= 16,
    ;
}

/// An index position below 4096 always lands inside the needed words, at a
/// shift that leaves room for a full value inside the word.
proof fn lemma_slot_in_bounds(bits: int, i: int)
    requires
        4 <= bits <= 12,
        0 <= i < 4096,
    ensures
        0 <= i / per_word(bits) < words_needed(bits),
        0 <= (i % per_word(bits)) * bits,
        (i % per_word(bits)) * bits + bits <= 64,
{
    let per = per_word(bits);
    let wn = words_needed(bits);
    lemma_word_geometry(bits);
    lemma_fundamental_div_mod(i, per);
    assert(0 <= i % per < per);
    assert(i / per >= 0) by (nonlinear_arith)
        requires
            i >= 0,
            per >= 1,
    ;
    assert(i / per < wn) by (nonlinear_arith)
        requires
            i == per * (i / per) + i % per,
            0 <= i % per < per,
            i < 4096,
            wn * per >= 4096,
            per >= 1,
    ;
    assert((i % per) * bits + bits <= per * bits) by (nonlinear_arith)
        requires
            0 <= i % per < per,
            bits >= 1,
    ;
    assert((i % per) * bits >= 0) by (nonlinear_arith)
        requires
            i % per >= 0,
            bits >= 0,
    ;
}

/// Reads the `i`-th packed index out of `data` with width `bits`.
fn extract_at(data: &Vec<u64>, bits: usize, per: usize, i: usize) -> (r: u64)
    requires
        4 <= bits <= 12,
        per == per_word(bits as int),
        data@.len() >= words_needed(bits as int),
        i < 4096,
    ensures
        r == spec_index_at(data@, bits as int, i as int),
        r <= mask_of(bits as int),
{
    proof {
        lemma_word_geometry(bits as int);
        lemma_slot_in_bounds(bits as int, i as int);
    }
    let w: u64 = data[i / per];
    let sh: usize = (i % per) * bits;
    proof {
        let bu: u64 = bits as u64;
        assert(bu <= 12 ==> 1u64 << bu >= 1) by (bit_vector);
    }
    let r = (w >> (sh as u64)) & ((1u64 << (bits as u64)) - 1);
    proof {
        let m: u64 = mask_of(bits as int);
        let shu: u64 = sh as u64;
        assert((w >> shu) & m <= m) by (bit_vector);
    }
    r
}

/// Expands the packed index array `data` into 4096 palette indices for a
/// palette of length `palette_len`, or `None` when `data` is too short or
/// some packed value is not a valid palette index.
pub fn unpack_indices(palette_len: usize, data: &Vec<u64>) -> (r: Option<Vec<usize>>)
    requires
        2 <= palette_len <= 4096,
    ensures
        r is Some <==> spec_section_data_ok(palette_len as int, data@),
        r matches Some(v) ==> {
            &&& v@.len() == 4096
            &&& forall|i: int|
                0 <= i < 4096 ==> (#[trigger] v@[i]) == spec_unpacked(
                    palette_len as int,
                    data@,
                )[i]
            &&& forall|i: int| 0 <= i < 4096 ==> (#[trigger] v@[i]) < palette_len
        },
{
    let bits = bits_for(palette_len);
    proof {
        lemma_word_geometry(bits as int);
    }
    let per: usize = 64 / bits;
    let needed: usize = (4096 + per - 1) / per;
    if data.len() < needed {
        return None;
    }
    let mut out: Vec<usize> = Vec::new();
    let mut i: usize = 0;
    while i < 4096
        invariant
            2 <= palette_len <= 4096,
            bits == spec_bits_for(palette_len as int),
            4 <= bits <= 12,
            per == per_word(bits as int),
            data@.len() >= words_needed(bits as int),
            i <= 4096,
            out@.len() == i,
            forall|j: int|
                0 <= j < i ==> (#[trigger] out@[j]) == spec_index_at(data@, bits as int, j),
            forall|j: int| 0 <= j < i ==> (#[trigger] out@[j]) < palette_len,
        decreases 4096 - i,
    {
        let v = extract_at(data, bits, per, i);
        if v >= palette_len as u64 {
            return None;
        }
        out.push(v as usize);
        i = i + 1;
    }
    proof {
        assert forall|j: int| 0 <= j < 4096 implies (#[trigger] spec_index_at(
            data@,
            spec_bits_for(palette_len as int),
            j,
        )) < palette_len by {
            assert(out@[j] == spec_index_at(data@, bits as int, j));
        }
    }
    Some(out)
}

proof fn lemma_insert_extracts(w: u64, v: u64, sh: u64, b: u64)
    by (bit_vector)
    requires
        1 <= b <= 63,
        sh + b <= 64,
        w >> sh == 0,
        v < (1u64 << b),
    ensures
        ((w | (v << sh)) >> sh) & (((1u64 << b) - 1) as u64) == v,
{
}

proof fn lemma_insert_keeps_below(w: u64, v: u64, sh: u64, b: u64, sh2: u64, b2: u64)
    by (bit_vector)
    requires
        1 <= b <= 63,
        1 <= b2 <= 63,
        sh2 + b2 <= sh,
        sh + b <= 64,
        v < (1u64 << b),
    ensures
        ((w | (v << sh)) >> sh2) & (((1u64 << b2) - 1) as u64) == (w >> sh2) & (((1u64 << b2)
            - 1) as u64),
{
}

proof fn lemma_insert_high_zero(w: u64, v: u64, sh: u64, b: u64, sh3: u64)
    by (bit_vector)
    requires
        1 <= b <= 63,
        sh3 == sh + b,
        sh3 < 64,
        w >> sh == 0,
        v < (1u64 << b),
    ensures
        (w | (v << sh)) >> sh3 == 0,
{
}

/// Packs 4096 palette indices (each a valid index into a palette of length
/// `palette_len`) into the word-boundary-respecting bitstream that
/// `unpack_indices` reads; the result always unpacks to the given indices.
pub fn pack_indices(palette_len: usize, indices: &Vec<usize>) -> (r: Vec<u64>)
    requires
        2 <= palette_len <= 4096,
        indices@.len() == 4096,
        forall|i: int| 0 <= i < 4096 ==> (#[trigger] indices@[i]) < palette_len,
    ensures
        r@.len() == words_needed(spec_bits_for(palette_len as int)),
        forall|i: int|
            0 <= i < 4096 ==> (#[trigger] spec_index_at(r@, spec_bits_for(palette_len as int), i))
                == indices@[i] as u64,
        spec_section_data_ok(palette_len as int, r@),
{
    let bits = bits_for(palette_len);
    proof {
        lemma_word_geometry(bits as int);
        lemma_bits_for_range(palette_len as int);
    }
    let per: usize = 64 / bits;
    let needed: usize = (4096 + per - 1) / per;
    let mut words: Vec<u64> = Vec::new();
    let mut k: usize = 0;
    while k < needed
        invariant
            k <= needed,
            words@.len() == k,
            forall|j: int| 0 <= j < k ==> (#[trigger] words@[j]) == 0,
        decreases needed - k,
    {
        words.push(0);
        k = k + 1;
    }
    proof {
        assert(0int / per_word(bits as int) == 0 && 0int % per_word(bits as int) == 0)
            by (nonlinear_arith)
            requires
                per_word(bits as int) >= 5,
        ;
        assert(words@[0] == 0);
        assert(0u64 >> 0u64 == 0u64) by (bit_vector);
    }
    let mut i: usize = 0;
    while i < 4096
        invariant
            2 <= palette_len <= 4096,
            indices@.len() == 4096,
            forall|j: int| 0 <= j < 4096 ==> (#[trigger] indices@[j]) < palette_len,
            bits == spec_bits_for(palette_len as int),
            4 <= bits <= 12,
            palette_len <= (1u64 << (bits as u64)),
            per == per_word(bits as int),
            5 <= per <= 16,
            needed == words_needed(bits as int),
            1 <= needed <= 1024,
            words@.len() == needed,
            i <= 4096,
            forall|j: int|
                0 <= j < i ==> (#[trigger] spec_index_at(words@, bits as int, j)) == indices@[j]
                    as u64,
            i < 4096 ==> words@[i as int / per_word(bits as int)] >> ((i as int % per_word(
                bits as int,
            ) * bits) as u64) == 0,
            i < 4096 ==> forall|k: int|
                i as int / per_word(bits as int) < k < needed ==> (#[trigger] words@[k]) == 0,
        decreases 4096 - i,
    {
        proof {
            lemma_slot_in_bounds(bits as int, i as int);
        }
        let wi: usize = i / per;
        let sh: usize = (i % per) * bits;
        let w: u64 = words[wi];
        let v: u64 = indices[i] as u64;
        let nw: u64 = w | (v << (sh as u64));
        let ghost prev = words@;
        words.set(wi, nw);
        proof {
            let bi = bits as int;
            let peri = per_word(bi);
            let bu = bits as u64;
            let shu = sh as u64;
            lemma_word_geometry(bi);
            assert(bi as u64 == bu);
            assert(wi as int == i as int / peri);
            assert(sh as int == (i as int % peri) * bi);
            assert(nw == w | (v << shu));
            assert(w >> shu == 0);
            assert(v < (1u64 << bu));
            lemma_insert_extracts(w, v, shu, bu);
            assert(((w | (v << shu)) >> shu) & (((1u64 << bu) - 1) as u64) == v);
            assert(mask_of(bi) == ((1u64 << bu) - 1) as u64);
            assert(spec_extract(nw, sh as int, bi) == v);
            assert forall|j: int| 0 <= j < i + 1 implies (#[trigger] spec_index_at(
                words@,
                bi,
                j,
            )) == indices@[j] as u64 by {
                lemma_slot_in_bounds(bi, j);
                lemma_fundamental_div_mod(j, peri);
                lemma_fundamental_div_mod(i as int, peri);
                if j == i {
                    assert(words@[j / peri] == nw);
                    assert(spec_index_at(words@, bi, j) == spec_extract(nw, sh as int, bi));
                    assert(spec_index_at(words@, bi, j) == v);
                    assert(v == indices@[j] as u64);
                } else if j / peri == wi {
                    let sh2 = (j % peri) * bi;
                    assert(j % peri < i as int % peri);
                    assert(sh2 + bi <= sh) by (nonlinear_arith)
                        requires
                            sh2 == (j % peri) * bi,
                            sh == (i as int % peri) * bi,
                            j % peri < i as int % peri,
                            bi >= 1,
                    ;
                    lemma_insert_keeps_below(w, v, shu, bu, sh2 as u64, bu);
                    assert(spec_index_at(prev, bi, j) == spec_extract(w, sh2, bi));
                    assert(words@[j / peri] == nw);
                    assert(spec_extract(nw, sh2, bi) == spec_extract(w, sh2, bi));
                    assert(spec_index_at(words@, bi, j) == spec_extract(nw, sh2, bi));
                    assert(spec_index_at(prev, bi, j) == indices@[j] as u64);
                } else {
                    assert(words@[j / peri] == prev[j / peri]);
                    assert(spec_index_at(words@, bi, j) == spec_index_at(prev, bi, j));
                    assert(spec_index_at(prev, bi, j) == indices@[j] as u64);
                }
            }
            if i + 1 < 4096 {
                lemma_slot_in_bounds(bi, i as int + 1);
                if i % per == per - 1 {
                    lemma_fundamental_div_mod(i as int, peri);
                    assert((wi as int + 1) * peri == peri * (wi as int) + peri)
                        by (nonlinear_arith);
                    lemma_fundamental_div_mod_converse(i as int + 1, peri, wi as int + 1, 0);
                    let z = words@[wi as int + 1];
                    assert(z == 0);
                    assert(z >> 0u64 == z) by (bit_vector);
                    assert(((i as int + 1) % peri) * bi == 0) by (nonlinear_arith)
                        requires
                            (i as int + 1) % peri == 0,
                    ;
                    assert(words@[(i as int + 1) / peri] >> ((((i as int + 1) % peri) * bi) as u64)
                        == 0);
                } else {
                    lemma_fundamental_div_mod(i as int, peri);
                    lemma_fundamental_div_mod_converse(
                        i as int + 1,
                        peri,
                        wi as int,
                        i as int % peri + 1,
                    );
                    let sh3 = ((i as int % peri) + 1) * bi;
                    assert(sh3 == sh + bi) by (nonlinear_arith)
                        requires
                            sh == (i as int % peri) * bi,
                            sh3 == ((i as int % peri) + 1) * bi,
                    ;
                    assert(sh3 + bi <= peri * bi) by (nonlinear_arith)
                        requires
                            sh3 == ((i as int % peri) + 1) * bi,
                            i as int % peri + 2 <= peri,
                            bi >= 1,
                    ;
                    assert(sh3 < 64);
                    lemma_insert_high_zero(w, v, shu, bu, sh3 as u64);
                    assert(words@[(i as int + 1) / peri] == nw);
                    assert(nw >> (sh3 as u64) == 0);
                    assert(words@[(i as int + 1) / peri] >> ((((i as int + 1) % peri) * bi) as u64)
                        == 0);
                }
            }
        }
        i = i + 1;
    }
    proof {
        assert forall|j: int| 0 <= j < 4096 implies (#[trigger] spec_index_at(
            words@,
            spec_bits_for(palette_len as int),
            j,
        )) < palette_len by {
            assert(spec_index_at(words@, bits as int, j) == indices@[j] as u64);
        }
    }
    words
}

/// Round trip: a word array that packs 4096 in-range palette indices (as
/// `pack_indices` builds one) is valid section data, and unpacking it (as
/// `unpack_indices` does) reproduces exactly those indices.
pub proof fn lemma_pack_roundtrip(p: int, idxs: Seq<u64>, data: Seq<u64>)
    requires
        2 <= p <= 4096,
        idxs.len() == 4096,
        forall|i: int| 0 <= i < 4096 ==> (#[trigger] idxs[i]) < p,
        data.len() >= words_needed(spec_bits_for(p)),
        forall|i: int|
            0 <= i < 4096 ==> (#[trigger] spec_index_at(data, spec_bits_for(p), i)) == idxs[i],
    ensures
        spec_section_data_ok(p, data),
        spec_unpacked(p, data) == idxs,
{
    assert forall|i: int| 0 <= i < 4096 implies (#[trigger] spec_index_at(
        data,
        spec_bits_for(p),
        i,
    )) < p by {
        assert(spec_index_at(data, spec_bits_for(p), i) == idxs[i]);
    }
    assert(spec_unpacked(p, data) =~= idxs);
}

} // verus!
