//! What the Huffman tables promise: the codes in use are those that the headers announce, and no
//! code is the beginning of another.

use vstd::arithmetic::power2::{lemma2_to64, lemma_pow2_unfold, pow2};
use vstd::prelude::*;

use super::bits::bits_of;
use super::block::code_bits;
use super::tables::{
    chroma_ac, chroma_dc, luma_ac, luma_dc, DHT_AC_C_BITS, DHT_AC_C_VAL, DHT_AC_L_BITS,
    DHT_AC_L_VAL, DHT_DC_C_BITS, DHT_DC_C_VAL, DHT_DC_L_BITS, DHT_DC_L_VAL,
};

verus! {

/// Number of codes of at most `len` bits, where `bits` counts the codes of each length from 1 on.
pub open spec fn codes_up_to(bits: Seq<u8>, len: nat) -> nat
    decreases len,
{
    if len == 0 {
        0
    } else {
        codes_up_to(bits, (len - 1) as nat) + bits[len - 1] as nat
    }
}

/// The first code of `len` bits: the one after the last code that is a bit shorter, doubled.
pub open spec fn first_code(bits: Seq<u8>, len: nat) -> nat
    decreases len,
{
    if len <= 1 {
        0
    } else {
        2 * (first_code(bits, (len - 1) as nat) + bits[len - 2] as nat)
    }
}

/// Where a decoder that has read `len` bits of value `code` looks its symbol up.
pub open spec fn symbol_index(bits: Seq<u8>, code: nat, len: nat) -> int {
    codes_up_to(bits, (len - 1) as nat) + code - first_code(bits, len)
}

/// `table` holds the codes of an announced table: a decoder finds each symbol that has a code
/// under that code, among the symbols of its length, and no other symbol is announced.
#[verifier::opaque]
pub open spec fn announced(bits: Seq<u8>, vals: Seq<u8>, table: Seq<(u16, u8)>) -> bool {
    &&& codes_up_to(bits, 16) == vals.len()
    &&& forall|sym: int|
        0 <= sym < table.len() && (#[trigger] table[sym]).1 > 0 ==> {
            let (code, len) = (table[sym].0 as nat, table[sym].1 as nat);
            &&& len <= 16
            &&& code < pow2(len)
            &&& codes_up_to(bits, (len - 1) as nat) <= symbol_index(bits, code, len)
                < codes_up_to(bits, len)
            &&& vals[symbol_index(bits, code, len)] == sym
        }
    &&& forall|i: int|
        0 <= i < vals.len() ==> (#[trigger] vals[i]) < table.len() && table[vals[i] as int].1 > 0
}

/// Counts and first codes of one announced table.
proof fn lemma_counts(bits: Seq<u8>)
    ensures
        codes_up_to(bits, 0) == 0,
        forall|l: nat|
            1 <= l <= 16 ==> #[trigger] codes_up_to(bits, l) == codes_up_to(bits, (l - 1) as nat)
                + bits[l - 1],
        first_code(bits, 1) == 0,
        forall|l: nat|
            2 <= l <= 16 ==> #[trigger] first_code(bits, l) == 2 * (first_code(
                bits,
                (l - 1) as nat,
            ) + bits[l - 2]),
{
}

/// The luma DC codes in use are those that the headers announce.
pub proof fn law_luma_dc_announced()
    ensures
        announced(DHT_DC_L_BITS@, DHT_DC_L_VAL@, luma_dc()),
{
    reveal(luma_dc);
    reveal(announced);
    let bits = DHT_DC_L_BITS@;
    lemma_counts(bits);
    lemma2_to64();
    assert(codes_up_to(bits, 1) == 0);
    assert(codes_up_to(bits, 2) == 1);
    assert(codes_up_to(bits, 3) == 6);
    assert(codes_up_to(bits, 4) == 7);
    assert(codes_up_to(bits, 5) == 8);
    assert(codes_up_to(bits, 6) == 9);
    assert(codes_up_to(bits, 7) == 10);
    assert(codes_up_to(bits, 8) == 11);
    assert(codes_up_to(bits, 9) == 12);
    assert(codes_up_to(bits, 10) == 12);
    assert(codes_up_to(bits, 11) == 12);
    assert(codes_up_to(bits, 12) == 12);
    assert(codes_up_to(bits, 13) == 12);
    assert(codes_up_to(bits, 14) == 12);
    assert(codes_up_to(bits, 15) == 12);
    assert(codes_up_to(bits, 16) == 12);
    assert(first_code(bits, 2) == 0);
    assert(first_code(bits, 3) == 2);
    assert(first_code(bits, 4) == 14);
    assert(first_code(bits, 5) == 30);
    assert(first_code(bits, 6) == 62);
    assert(first_code(bits, 7) == 126);
    assert(first_code(bits, 8) == 254);
    assert(first_code(bits, 9) == 510);
    assert(first_code(bits, 10) == 1022);
    assert(first_code(bits, 11) == 2044);
    assert(first_code(bits, 12) == 4088);
    assert(first_code(bits, 13) == 8176);
    assert(first_code(bits, 14) == 16352);
    assert(first_code(bits, 15) == 32704);
    assert(first_code(bits, 16) == 65408);
}

/// The luma AC codes in use are those that the headers announce.
pub proof fn law_luma_ac_announced()
    ensures
        announced(DHT_AC_L_BITS@, DHT_AC_L_VAL@, luma_ac()),
{
    reveal(luma_ac);
    reveal(announced);
    let bits = DHT_AC_L_BITS@;
    lemma_counts(bits);
    lemma2_to64();
    assert(codes_up_to(bits, 1) == 0);
    assert(codes_up_to(bits, 2) == 2);
    assert(codes_up_to(bits, 3) == 3);
    assert(codes_up_to(bits, 4) == 6);
    assert(codes_up_to(bits, 5) == 9);
    assert(codes_up_to(bits, 6) == 11);
    assert(codes_up_to(bits, 7) == 15);
    assert(codes_up_to(bits, 8) == 18);
    assert(codes_up_to(bits, 9) == 23);
    assert(codes_up_to(bits, 10) == 28);
    assert(codes_up_to(bits, 11) == 32);
    assert(codes_up_to(bits, 12) == 36);
    assert(codes_up_to(bits, 13) == 36);
    assert(codes_up_to(bits, 14) == 36);
    assert(codes_up_to(bits, 15) == 37);
    assert(codes_up_to(bits, 16) == 162);
    assert(first_code(bits, 2) == 0);
    assert(first_code(bits, 3) == 4);
    assert(first_code(bits, 4) == 10);
    assert(first_code(bits, 5) == 26);
    assert(first_code(bits, 6) == 58);
    assert(first_code(bits, 7) == 120);
    assert(first_code(bits, 8) == 248);
    assert(first_code(bits, 9) == 502);
    assert(first_code(bits, 10) == 1014);
    assert(first_code(bits, 11) == 2038);
    assert(first_code(bits, 12) == 4084);
    assert(first_code(bits, 13) == 8176);
    assert(first_code(bits, 14) == 16352);
    assert(first_code(bits, 15) == 32704);
    assert(first_code(bits, 16) == 65410);
}

/// The chroma DC codes in use are those that the headers announce.
pub proof fn law_chroma_dc_announced()
    ensures
        announced(DHT_DC_C_BITS@, DHT_DC_C_VAL@, chroma_dc()),
{
    reveal(chroma_dc);
    reveal(announced);
    let bits = DHT_DC_C_BITS@;
    lemma_counts(bits);
    lemma2_to64();
    assert(codes_up_to(bits, 1) == 0);
    assert(codes_up_to(bits, 2) == 3);
    assert(codes_up_to(bits, 3) == 4);
    assert(codes_up_to(bits, 4) == 5);
    assert(codes_up_to(bits, 5) == 6);
    assert(codes_up_to(bits, 6) == 7);
    assert(codes_up_to(bits, 7) == 8);
    assert(codes_up_to(bits, 8) == 9);
    assert(codes_up_to(bits, 9) == 10);
    assert(codes_up_to(bits, 10) == 11);
    assert(codes_up_to(bits, 11) == 12);
    assert(codes_up_to(bits, 12) == 12);
    assert(codes_up_to(bits, 13) == 12);
    assert(codes_up_to(bits, 14) == 12);
    assert(codes_up_to(bits, 15) == 12);
    assert(codes_up_to(bits, 16) == 12);
    assert(first_code(bits, 2) == 0);
    assert(first_code(bits, 3) == 6);
    assert(first_code(bits, 4) == 14);
    assert(first_code(bits, 5) == 30);
    assert(first_code(bits, 6) == 62);
    assert(first_code(bits, 7) == 126);
    assert(first_code(bits, 8) == 254);
    assert(first_code(bits, 9) == 510);
    assert(first_code(bits, 10) == 1022);
    assert(first_code(bits, 11) == 2046);
    assert(first_code(bits, 12) == 4094);
    assert(first_code(bits, 13) == 8188);
    assert(first_code(bits, 14) == 16376);
    assert(first_code(bits, 15) == 32752);
    assert(first_code(bits, 16) == 65504);
}

/// The chroma AC codes in use are those that the headers announce.
pub proof fn law_chroma_ac_announced()
    ensures
        announced(DHT_AC_C_BITS@, DHT_AC_C_VAL@, chroma_ac()),
{
    reveal(chroma_ac);
    reveal(announced);
    let bits = DHT_AC_C_BITS@;
    lemma_counts(bits);
    lemma2_to64();
    assert(codes_up_to(bits, 1) == 0);
    assert(codes_up_to(bits, 2) == 2);
    assert(codes_up_to(bits, 3) == 3);
    assert(codes_up_to(bits, 4) == 5);
    assert(codes_up_to(bits, 5) == 9);
    assert(codes_up_to(bits, 6) == 13);
    assert(codes_up_to(bits, 7) == 16);
    assert(codes_up_to(bits, 8) == 20);
    assert(codes_up_to(bits, 9) == 27);
    assert(codes_up_to(bits, 10) == 32);
    assert(codes_up_to(bits, 11) == 36);
    assert(codes_up_to(bits, 12) == 40);
    assert(codes_up_to(bits, 13) == 40);
    assert(codes_up_to(bits, 14) == 41);
    assert(codes_up_to(bits, 15) == 43);
    assert(codes_up_to(bits, 16) == 162);
    assert(first_code(bits, 2) == 0);
    assert(first_code(bits, 3) == 4);
    assert(first_code(bits, 4) == 10);
    assert(first_code(bits, 5) == 24);
    assert(first_code(bits, 6) == 56);
    assert(first_code(bits, 7) == 120);
    assert(first_code(bits, 8) == 246);
    assert(first_code(bits, 9) == 500);
    assert(first_code(bits, 10) == 1014);
    assert(first_code(bits, 11) == 2038);
    assert(first_code(bits, 12) == 4084);
    assert(first_code(bits, 13) == 8176);
    assert(first_code(bits, 14) == 16352);
    assert(first_code(bits, 15) == 32706);
    assert(first_code(bits, 16) == 65416);
}

/// The number that a bit string writes.
pub open spec fn bits_value(s: Seq<bool>) -> nat
    decreases s.len(),
{
    if s.len() == 0 {
        0
    } else {
        2 * bits_value(s.drop_last()) + if s.last() {
            1nat
        } else {
            0nat
        }
    }
}

/// A number can be read back from its bits.
pub proof fn lemma_bits_value(v: u32, size: nat)
    requires
        size <= 32,
        v < pow2(size),
    ensures
        bits_value(bits_of(v, size)) == v,
    decreases size,
{
    let s = bits_of(v, size);
    if size == 0 {
        lemma2_to64();
    } else {
        lemma_pow2_unfold(size);
        lemma_bits_value(v / 2, (size - 1) as nat);
        assert(s.drop_last() =~= bits_of(v / 2, (size - 1) as nat)) by {
            assert forall|i: int| 0 <= i < size - 1 implies s[i] == bits_of(
                v / 2,
                (size - 1) as nat,
            )[i] by {
                let k = (size - 2 - i) as u32;
                assert((v / 2) >> k == v >> ((k + 1) as u32)) by (bit_vector)
                    requires
                        k < 31,
                ;
            }
        }
        assert((v >> 0u32) & 1u32 == v % 2) by (bit_vector);
    }
}

/// The first code of a length lies beyond every extension of a shorter code.
proof fn lemma_first_code_growth(bits: Seq<u8>, l1: nat, l2: nat)
    requires
        1 <= l1 < l2,
    ensures
        first_code(bits, l2) >= (first_code(bits, l1) + bits[l1 - 1]) * pow2((l2 - l1) as nat),
    decreases l2,
{
    let base = first_code(bits, l1) + bits[l1 - 1];
    if l2 == l1 + 1 {
        lemma2_to64();
        assert(base * pow2(1) == 2 * base) by (nonlinear_arith)
            requires
                pow2(1) == 2,
        ;
    } else {
        lemma_first_code_growth(bits, l1, (l2 - 1) as nat);
        lemma_pow2_unfold((l2 - l1) as nat);
        let p = pow2((l2 - l1 - 1) as nat);
        assert(first_code(bits, (l2 - 1) as nat) >= base * p);
        assert(base * (2 * p) == 2 * (base * p)) by (nonlinear_arith);
    }
}

/// A table of codes as the headers announce it: the number of codes of each length from 1 to 16, and
/// the symbols in order of their codes.
pub struct Codes {
    pub counts: Seq<u8>,
    pub symbols: Seq<u8>,
}

impl Codes {
    /// The symbol whose code begins `s`, and the length of that code, if it is `len` bits or longer:
    /// bit by bit, until the bits that were read are a code of their length.
    pub open spec fn symbol_from(self, s: Seq<bool>, len: nat) -> Option<(int, nat)>
        decreases 17 - len,
    {
        if len > 16 || len > s.len() {
            None
        } else {
            let code = bits_value(s.take(len as int));
            let first = first_code(self.counts, len);
            if first <= code < first + self.counts[len - 1] {
                Some((self.symbols[symbol_index(self.counts, code, len)] as int, len))
            } else {
                self.symbol_from(s, len + 1)
            }
        }
    }

    /// The symbol whose code begins `s`, and the length of that code.
    pub open spec fn next_symbol(self, s: Seq<bool>) -> Option<(int, nat)> {
        self.symbol_from(s, 1)
    }
}

/// The number that the first bits of a code write.
proof fn lemma_code_prefix(c: u32, n: nat, l: nat)
    requires
        1 <= l <= n <= 16,
        c < pow2(n),
    ensures
        bits_value(bits_of(c, n).take(l as int)) == c as nat / pow2((n - l) as nat),
{
    let d = (n - l) as nat;
    let du = d as u32;
    let b = bits_of(c, n);
    assert(b.take(l as int) =~= bits_of(c >> du, l)) by {
        assert forall|i: int| 0 <= i < l implies b[i] == bits_of(c >> du, l)[i] by {
            let e = (l - 1 - i) as u32;
            assert((c >> du) >> e == c >> ((du + e) as u32)) by (bit_vector)
                requires
                    du < 16,
                    e < 16,
            ;
        }
    }
    vstd::bits::lemma_u32_shr_is_div(c, du);
    vstd::arithmetic::power2::lemma_pow2_pos(d);
    vstd::arithmetic::power2::lemma_pow2_adds(l, d);
    let q = (c >> du) as nat;
    assert(q < pow2(l)) by (nonlinear_arith)
        requires
            q == c as nat / pow2(d),
            c < pow2(l) * pow2(d),
            pow2(d) > 0,
    ;
    lemma_bits_value(c >> du, l);
}

proof fn lemma_symbol_from(
    codes: Codes,
    table: Seq<(u16, u8)>,
    symbol: int,
    rest: Seq<bool>,
    l: nat,
)
    requires
        announced(codes.counts, codes.symbols, table),
        0 <= symbol < table.len(),
        1 <= l <= table[symbol].1,
    ensures
        codes.symbol_from(code_bits(table[symbol]) + rest, l) == Some(
            (symbol, table[symbol].1 as nat),
        ),
    decreases 17 - l,
{
    reveal(announced);
    let (c, n) = (table[symbol].0 as u32, table[symbol].1 as nat);
    let s = code_bits(table[symbol]) + rest;
    let d = (n - l) as nat;
    let p = pow2(d);
    assert(s.take(l as int) =~= code_bits(table[symbol]).take(l as int));
    lemma_code_prefix(c, n, l);
    assert(codes_up_to(codes.counts, n) == codes_up_to(codes.counts, (n - 1) as nat)
        + codes.counts[n - 1]);
    if l == n {
        lemma2_to64();
        assert(c as nat / 1 == c);
    } else {
        lemma_first_code_growth(codes.counts, l, n);
        vstd::arithmetic::power2::lemma_pow2_pos(d);
        let bound = (first_code(codes.counts, l) + codes.counts[l - 1]) as nat;
        assert(c as nat / p >= bound) by (nonlinear_arith)
            requires
                c >= bound * p,
                p > 0,
        ;
        lemma_symbol_from(codes, table, symbol, rest, l + 1);
    }
}

/// A decoder that knows an announced table finds the symbol whose code was written, and its length,
/// whatever follows the code.
pub proof fn law_symbol_decoded(
    codes: Codes,
    table: Seq<(u16, u8)>,
    symbol: int,
    rest: Seq<bool>,
)
    requires
        announced(codes.counts, codes.symbols, table),
        0 <= symbol < table.len(),
        table[symbol].1 > 0,
    ensures
        codes.next_symbol(code_bits(table[symbol]) + rest) == Some(
            (symbol, table[symbol].1 as nat),
        ),
        (code_bits(table[symbol]) + rest).skip(table[symbol].1 as int) == rest,
{
    lemma_symbol_from(codes, table, symbol, rest, 1);
    assert((code_bits(table[symbol]) + rest).skip(table[symbol].1 as int) =~= rest);
}

/// In an announced table no code is the beginning of another: what begins with two codes begins
/// with one code twice.
pub proof fn law_prefix_free(
    codes: Codes,
    table: Seq<(u16, u8)>,
    sym1: int,
    sym2: int,
    rest1: Seq<bool>,
    rest2: Seq<bool>,
)
    requires
        announced(codes.counts, codes.symbols, table),
        0 <= sym1 < table.len(),
        0 <= sym2 < table.len(),
        table[sym1].1 > 0,
        table[sym2].1 > 0,
        code_bits(table[sym1]) + rest1 == code_bits(table[sym2]) + rest2,
    ensures
        sym1 == sym2,
        rest1 == rest2,
{
    law_symbol_decoded(codes, table, sym1, rest1);
    law_symbol_decoded(codes, table, sym2, rest2);
}

} // verus!
