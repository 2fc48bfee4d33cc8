//! What a decoder recovers from coded blocks: every coefficient, and where the block ends.

use vstd::arithmetic::power2::{
    lemma2_to64, lemma_pow2_strictly_increases, lemma_pow2_unfold, pow2,
};
use vstd::prelude::*;

use super::bits::bits_of;
use super::block::{
    ac_bits, ac_symbol, block_bits, category, codable, code_bits, coded, lemma_bit_length,
    magnitude, natural_index, value_bits, zero_runs, zigzag,
};
use super::huffman::{announced, bits_value, law_symbol_decoded, lemma_bits_value, Codes};

verus! {

/// The coefficient that a decoder makes of a category and value bits: with the top bit clear the
/// value is negative.
pub open spec fn extend(size: nat, bits: nat) -> int {
    if size == 0 {
        0
    } else if bits < pow2((size - 1) as nat) {
        bits - pow2(size) + 1
    } else {
        bits as int
    }
}

/// A coefficient can be read back from its category and its value bits.
pub proof fn law_extend(v: int)
    ensures
        value_bits(v) < pow2(category(v)),
        extend(category(v), value_bits(v)) == v,
{
    lemma_bit_length(magnitude(v));
    if v != 0 {
        lemma_pow2_unfold(category(v));
    }
}

/// Whether the coefficients of `zz` from `p` to before `end` are zero.
pub open spec fn zeros(zz: Seq<int>, p: int, end: int) -> bool {
    forall|i: int| p <= i < end ==> #[trigger] zz[i] == 0
}

/// Number of zeros in `zz` from `p` on, before a nonzero coefficient or the end.
pub open spec fn run_at(zz: Seq<int>, p: nat) -> nat
    decreases 64 - p,
{
    if p >= 64 || zz[p as int] != 0 {
        0
    } else {
        1 + run_at(zz, p + 1)
    }
}

proof fn lemma_run_at(zz: Seq<int>, p: nat)
    requires
        p <= 64,
    ensures
        p + run_at(zz, p) <= 64,
        zeros(zz, p as int, (p + run_at(zz, p)) as int),
        p + run_at(zz, p) < 64 ==> zz[(p + run_at(zz, p)) as int] != 0,
    decreases 64 - p,
{
    if p < 64 && zz[p as int] == 0 {
        lemma_run_at(zz, p + 1);
        assert forall|i: int| p <= i < p + run_at(zz, p) implies #[trigger] zz[i] == 0 by {
            if i > p {
                assert(p + 1 <= i < p + 1 + run_at(zz, p + 1));
            }
        }
    }
}

/// The same code, read symbol by symbol from position `p`: end of block, sixteen zeros, or a
/// short run and a coefficient.
pub open spec fn symbols_from(zz: Seq<int>, p: nat, ac: Seq<(u16, u8)>) -> Seq<bool>
    decreases 64 - p,
{
    let z = run_at(zz, p);
    if p >= 64 {
        Seq::empty()
    } else if p + z >= 64 {
        code_bits(ac[0])
    } else if z >= 16 {
        code_bits(ac[0xF0]) + symbols_from(zz, p + 16, ac)
    } else {
        coded(ac[ac_symbol(z, zz[(p + z) as int])], zz[(p + z) as int]) + symbols_from(
            zz,
            p + z + 1,
            ac,
        )
    }
}

/// A run ahead of a nonzero coefficient at `k`.
proof fn lemma_symbols_run(zz: Seq<int>, k: nat, run: nat, ac: Seq<(u16, u8)>)
    requires
        k < 64,
        run <= k,
        zeros(zz, k - run, k as int),
        zz[k as int] != 0,
    ensures
        run_at(zz, (k - run) as nat) == run,
        symbols_from(zz, (k - run) as nat, ac) == zero_runs(ac, run / 16) + coded(
            ac[ac_symbol(run, zz[k as int])],
            zz[k as int],
        ) + symbols_from(zz, k + 1, ac),
    decreases run,
{
    let p = (k - run) as nat;
    let c = coded(ac[ac_symbol(run, zz[k as int])], zz[k as int]);
    let tail = symbols_from(zz, k + 1, ac);
    lemma_run_at(zz, p);
    let z = run_at(zz, p);
    if z < run {
        assert(zz[(p + z) as int] == 0);
    } else if z > run {
        assert(zz[k as int] == 0);
    }
    if run >= 16 {
        assert(zeros(zz, k - (run - 16), k as int));
        lemma_symbols_run(zz, k, (run - 16) as nat, ac);
        assert(ac_symbol((run - 16) as nat, zz[k as int]) == ac_symbol(run, zz[k as int]));
        assert(zero_runs(ac, run / 16) == code_bits(ac[0xF0]) + zero_runs(
            ac,
            (run / 16 - 1) as nat,
        ));
        assert(code_bits(ac[0xF0]) + (zero_runs(ac, ((run - 16) / 16) as nat) + c + tail)
            =~= zero_runs(ac, run / 16) + c + tail);
    } else {
        assert(zero_runs(ac, 0) + c + tail =~= c + tail);
    }
}

/// The run-length code is the symbol-by-symbol one.
proof fn lemma_ac_symbols(zz: Seq<int>, k: nat, run: nat, ac: Seq<(u16, u8)>)
    requires
        k <= 64,
        run <= k,
        zeros(zz, k - run, k as int),
    ensures
        ac_bits(zz, k, run, ac) == symbols_from(zz, (k - run) as nat, ac),
    decreases 64 - k,
{
    if k == 64 {
        let p = (k - run) as nat;
        lemma_run_at(zz, p);
        if run > 0 && p + run_at(zz, p) < 64 {
            assert(zz[(p + run_at(zz, p)) as int] == 0);
        }
    } else if zz[k as int] == 0 {
        lemma_ac_symbols(zz, k + 1, run + 1, ac);
    } else {
        lemma_symbols_run(zz, k, run, ac);
        lemma_ac_symbols(zz, k + 1, 0, ac);
    }
}

/// An AC table that has a code for every symbol in use.
pub open spec fn complete_ac(ac: Seq<(u16, u8)>) -> bool {
    &&& ac.len() == 251
    &&& ac[0].1 > 0
    &&& ac[0xF0].1 > 0
    &&& forall|z: int, c: int|
        0 <= z < 16 && 1 <= c <= 10 ==> (#[trigger] ac[16 * z + c]).1 > 0
}

/// A DC table that has a code for every category.
pub open spec fn complete_dc(dc: Seq<(u16, u8)>) -> bool {
    &&& dc.len() == 12
    &&& forall|c: int| 0 <= c < 12 ==> (#[trigger] dc[c]).1 > 0
}

/// The first symbol from position `p` on, and the bits behind its code.
spec fn first_symbol(zz: Seq<int>, p: nat, ac: Seq<(u16, u8)>) -> (int, Seq<bool>) {
    let z = run_at(zz, p);
    if p + z >= 64 {
        (0, Seq::empty())
    } else if z >= 16 {
        (0xF0, symbols_from(zz, p + 16, ac))
    } else {
        let v = zz[(p + z) as int];
        (
            ac_symbol(z, v),
            bits_of(value_bits(v) as u32, category(v)) + symbols_from(zz, p + z + 1, ac),
        )
    }
}

proof fn lemma_first_symbol(zz: Seq<int>, p: nat, ac: Seq<(u16, u8)>)
    requires
        p < 64,
        complete_ac(ac),
        forall|i: int| p <= i < 64 ==> category(#[trigger] zz[i]) <= 10,
    ensures
        ({
            let (sym, more) = first_symbol(zz, p, ac);
            let z = run_at(zz, p);
            &&& 0 <= sym < 251
            &&& ac[sym].1 > 0
            &&& symbols_from(zz, p, ac) == code_bits(ac[sym]) + more
            &&& p + z >= 64 <==> sym == 0
            &&& p + z < 64 && z >= 16 <==> sym == 0xF0
            &&& p + z < 64 && z < 16 ==> sym == 16 * z + category(zz[(p + z) as int]) && 1
                <= category(zz[(p + z) as int]) <= 10
        }),
{
    lemma_run_at(zz, p);
    let z = run_at(zz, p);
    let (sym, more) = first_symbol(zz, p, ac);
    if p + z >= 64 {
        assert(code_bits(ac[0]) + Seq::<bool>::empty() =~= code_bits(ac[0]));
    } else if z < 16 {
        let v = zz[(p + z) as int];
        lemma_bit_length(magnitude(v));
        assert(ac[16 * (z as int) + category(v) as int].1 > 0);
        assert(symbols_from(zz, p, ac) =~= code_bits(ac[sym]) + more);
    }
}

/// Position of each coefficient in zigzag order.
pub open spec fn zigzag_position() -> Seq<int> {
    seq![
        0, 1, 5, 6, 14, 15, 27, 28, 2, 4, 7, 13, 16, 26, 29, 42, 3, 8, 12, 17, 25, 30, 41, 43, 9,
        11, 18, 24, 31, 40, 44, 53, 10, 19, 23, 32, 39, 45, 52, 54, 20, 22, 33, 38, 46, 51, 55, 60,
        21, 34, 37, 47, 50, 56, 59, 61, 35, 36, 48, 49, 57, 58, 62, 63,
    ]
}

/// A block that is given in zigzag order, in natural order.
pub open spec fn natural_order(zz: Seq<int>) -> Seq<int> {
    Seq::new(64, |i: int| zz[zigzag_position()[i]])
}

/// Zigzag order can be undone.
pub proof fn law_zigzag_inverse(q: Seq<int>)
    requires
        q.len() == 64,
    ensures
        natural_order(zigzag(q)) == q,
{
    assert forall|i: int| 0 <= i < 64 implies natural_order(zigzag(q))[i] == q[i] by {
        reveal(natural_index);
        let k = zigzag_position()[i];
        assert(0 <= k < 64 && natural_index(k) == i);
    }
    assert(natural_order(zigzag(q)) =~= q);
}

proof fn lemma_zigzag_ac(q: Seq<int>)
    requires
        forall|i: int| 1 <= i < 64 ==> category(#[trigger] q[i]) <= 10,
    ensures
        forall|k: int| 1 <= k < 64 ==> category(#[trigger] zigzag(q)[k]) <= 10,
{
    assert forall|k: int| 1 <= k < 64 implies category(#[trigger] zigzag(q)[k]) <= 10 by {
        assert(1 <= natural_index(k) < 64) by {
            reveal(natural_index);
        }
    }
}

/// So many zeros.
pub open spec fn zero_coefficients(n: nat) -> Seq<int> {
    Seq::new(n, |i: int| 0)
}

/// Decoded coefficients, and the bits that are left, behind other coefficients.
pub open spec fn behind(
    front: Seq<int>,
    decoded: Option<(Seq<int>, Seq<bool>)>,
) -> Option<(Seq<int>, Seq<bool>)> {
    match decoded {
        Some((c, rest)) => Some((front + c, rest)),
        None => None,
    }
}

/// What a decoder makes of `s`: the coefficients from the `k`-th on, in zigzag order, and the bits
/// that are left.
pub open spec fn decode_ac(ac: Codes, s: Seq<bool>, k: nat) -> Option<(Seq<int>, Seq<bool>)>
    decreases 64 - k,
{
    if k >= 64 {
        Some((Seq::empty(), s))
    } else {
        match ac.next_symbol(s) {
            None => None,
            Some((symbol, len)) => {
                let more = s.skip(len as int);
                let (run, size) = ((symbol / 16) as nat, (symbol % 16) as nat);
                if symbol == 0 {
                    Some((zero_coefficients((64 - k) as nat), more))
                } else if symbol == 0xF0 && k + 16 <= 64 {
                    behind(zero_coefficients(16), decode_ac(ac, more, k + 16))
                } else if size == 0 || k + run >= 64 || size > more.len() {
                    None
                } else {
                    let v = extend(size, bits_value(more.take(size as int)));
                    behind(
                        zero_coefficients(run).push(v),
                        decode_ac(ac, more.skip(size as int), k + run + 1),
                    )
                }
            },
        }
    }
}

/// What a decoder makes of `s`: a block in natural order, and the bits that are left. `prev` is the
/// DC coefficient of the block before.
pub open spec fn decode_block(
    dc: Codes,
    ac: Codes,
    s: Seq<bool>,
    prev: int,
) -> Option<(Seq<int>, Seq<bool>)> {
    match dc.next_symbol(s) {
        None => None,
        Some((size, len)) => {
            let more = s.skip(len as int);
            if size > more.len() {
                None
            } else {
                let d = extend(size as nat, bits_value(more.take(size)));
                match decode_ac(ac, more.skip(size), 1) {
                    None => None,
                    Some((c, rest)) => Some((natural_order(seq![prev + d] + c), rest)),
                }
            }
        },
    }
}

/// A coefficient is read back from its value bits, whatever follows them.
proof fn lemma_value_decoded(v: int, rest: Seq<bool>)
    requires
        category(v) <= 31,
    ensures
        ({
            let s = bits_of(value_bits(v) as u32, category(v)) + rest;
            &&& s.len() >= category(v)
            &&& extend(category(v), bits_value(s.take(category(v) as int))) == v
            &&& s.skip(category(v) as int) == rest
        }),
{
    let n = category(v);
    let b = bits_of(value_bits(v) as u32, n);
    law_extend(v);
    lemma2_to64();
    lemma_pow2_strictly_increases(n, 32);
    lemma_bits_value(value_bits(v) as u32, n);
    assert((b + rest).take(n as int) =~= b);
    assert((b + rest).skip(n as int) =~= rest);
}

/// The coefficients from position `p` on are read back from their symbols.
proof fn lemma_ac_decoded(zz: Seq<int>, p: nat, ac: Seq<(u16, u8)>, codes: Codes, rest: Seq<bool>)
    requires
        zz.len() == 64,
        p <= 64,
        announced(codes.counts, codes.symbols, ac),
        complete_ac(ac),
        forall|i: int| p <= i < 64 ==> category(#[trigger] zz[i]) <= 10,
    ensures
        decode_ac(codes, symbols_from(zz, p, ac) + rest, p) == Some(
            (zz.subrange(p as int, 64), rest),
        ),
    decreases 64 - p,
{
    let s = symbols_from(zz, p, ac) + rest;
    if p == 64 {
        assert(s =~= rest);
        assert(zz.subrange(64, 64) =~= Seq::empty());
    } else {
        let (symbol, more) = first_symbol(zz, p, ac);
        lemma_first_symbol(zz, p, ac);
        lemma_run_at(zz, p);
        let z = run_at(zz, p);
        assert(s =~= code_bits(ac[symbol]) + (more + rest));
        law_symbol_decoded(codes, ac, symbol, more + rest);
        if p + z >= 64 {
            assert(more + rest =~= rest);
            assert(zz.subrange(p as int, 64) =~= zero_coefficients((64 - p) as nat));
        } else if z >= 16 {
            lemma_ac_decoded(zz, p + 16, ac, codes, rest);
            assert(zz.subrange(p as int, 64) =~= zero_coefficients(16) + zz.subrange(p as int + 16, 64));
        } else {
            let v = zz[(p + z) as int];
            let next = symbols_from(zz, p + z + 1, ac) + rest;
            assert(more + rest =~= bits_of(value_bits(v) as u32, category(v)) + next);
            lemma_value_decoded(v, next);
            lemma_ac_decoded(zz, p + z + 1, ac, codes, rest);
            assert(symbol / 16 == z && symbol % 16 == category(v));
            assert(zz.subrange(p as int, 64) =~= zero_coefficients(z).push(v) + zz.subrange(
                (p + z + 1) as int,
                64,
            ));
        }
    }
}

/// A coded block can be decoded: from announced and complete tables a decoder gets back every
/// coefficient, and takes no bit that follows the block.
pub proof fn law_block_decoded(
    q: Seq<int>,
    prev: int,
    dc: Seq<(u16, u8)>,
    dc_codes: Codes,
    ac: Seq<(u16, u8)>,
    ac_codes: Codes,
    rest: Seq<bool>,
)
    requires
        q.len() == 64,
        codable(q, prev),
        announced(dc_codes.counts, dc_codes.symbols, dc),
        announced(ac_codes.counts, ac_codes.symbols, ac),
        complete_dc(dc),
        complete_ac(ac),
    ensures
        decode_block(dc_codes, ac_codes, block_bits(q, prev, dc, ac) + rest, prev) == Some(
            (q, rest),
        ),
{
    reveal(block_bits);
    let d = q[0] - prev;
    let zz = zigzag(q);
    let next = ac_bits(zz, 1, 0, ac) + rest;
    let more = bits_of(value_bits(d) as u32, category(d)) + next;
    assert(block_bits(q, prev, dc, ac) + rest =~= code_bits(dc[category(d) as int]) + more);
    law_symbol_decoded(dc_codes, dc, category(d) as int, more);
    lemma_value_decoded(d, next);
    lemma_ac_symbols(zz, 1, 0, ac);
    lemma_zigzag_ac(q);
    lemma_ac_decoded(zz, 1, ac, ac_codes, rest);
    assert(zz[0] == q[0]) by {
        reveal(natural_index);
    }
    assert(seq![prev + d] + zz.subrange(1, 64) =~= zz);
    law_zigzag_inverse(q);
}

/// A coded block is told apart from every other one: what begins with the codes of two blocks, coded
/// with the same predictor and the same announced and complete tables, begins with one block twice.
pub proof fn law_block_decodable(
    q1: Seq<int>,
    q2: Seq<int>,
    prev: int,
    dc: Seq<(u16, u8)>,
    dc_codes: Codes,
    ac: Seq<(u16, u8)>,
    ac_codes: Codes,
    rest1: Seq<bool>,
    rest2: Seq<bool>,
)
    requires
        q1.len() == 64,
        q2.len() == 64,
        codable(q1, prev),
        codable(q2, prev),
        announced(dc_codes.counts, dc_codes.symbols, dc),
        announced(ac_codes.counts, ac_codes.symbols, ac),
        complete_dc(dc),
        complete_ac(ac),
        block_bits(q1, prev, dc, ac) + rest1 == block_bits(q2, prev, dc, ac) + rest2,
    ensures
        q1 == q2,
        rest1 == rest2,
{
    law_block_decoded(q1, prev, dc, dc_codes, ac, ac_codes, rest1);
    law_block_decoded(q2, prev, dc, dc_codes, ac, ac_codes, rest2);
}

/// A symbol of the run-length code of a block.
pub enum Symbol {
    /// No coefficient but zeros follows.
    EndOfBlock,
    /// Sixteen zeros.
    SixteenZeros,
    /// A nonzero coefficient behind so many zeros.
    Coefficient { run: nat, value: int },
}

/// The bits of a symbol.
pub open spec fn symbol_bits(symbol: Symbol, ac: Seq<(u16, u8)>) -> Seq<bool> {
    match symbol {
        Symbol::EndOfBlock => code_bits(ac[0]),
        Symbol::SixteenZeros => code_bits(ac[0xF0]),
        Symbol::Coefficient { run, value } => coded(ac[ac_symbol(run, value)], value),
    }
}

/// The bits of symbols, one behind the other.
pub open spec fn symbols_bits(symbols: Seq<Symbol>, ac: Seq<(u16, u8)>) -> Seq<bool>
    decreases symbols.len(),
{
    if symbols.len() == 0 {
        Seq::empty()
    } else {
        symbol_bits(symbols[0], ac) + symbols_bits(symbols.skip(1), ac)
    }
}

/// The symbols of the coefficients of `zz` from position `p` on.
pub open spec fn symbols(zz: Seq<int>, p: nat) -> Seq<Symbol>
    decreases 64 - p,
{
    let z = run_at(zz, p);
    if p >= 64 {
        Seq::empty()
    } else if p + z >= 64 {
        seq![Symbol::EndOfBlock]
    } else if z >= 16 {
        seq![Symbol::SixteenZeros] + symbols(zz, p + 16)
    } else {
        seq![Symbol::Coefficient { run: z, value: zz[(p + z) as int] }] + symbols(zz, p + z + 1)
    }
}

/// The end of a block is coded at the end of its symbols or nowhere, and not right behind sixteen
/// zeros.
pub open spec fn ends_well(symbols: Seq<Symbol>) -> bool {
    &&& forall|i: int|
        0 <= i < symbols.len() && #[trigger] symbols[i] == Symbol::EndOfBlock ==> i + 1
            == symbols.len()
    &&& forall|i: int|
        0 <= i < symbols.len() && #[trigger] symbols[i] == Symbol::SixteenZeros ==> i + 1
            < symbols.len() && symbols[i + 1] != Symbol::EndOfBlock
}

proof fn lemma_symbols(zz: Seq<int>, p: nat, ac: Seq<(u16, u8)>)
    requires
        p <= 64,
    ensures
        symbols_bits(symbols(zz, p), ac) == symbols_from(zz, p, ac),
        ends_well(symbols(zz, p)),
        symbols(zz, p).len() > 0 <==> p < 64,
        p < 64 ==> (symbols(zz, p)[0] == Symbol::EndOfBlock <==> p + run_at(zz, p) >= 64),
        p < 64 ==> (symbols(zz, p).last() == Symbol::EndOfBlock <==> zz[63] == 0),
    decreases 64 - p,
{
    lemma_run_at(zz, p);
    let z = run_at(zz, p);
    let all = symbols(zz, p);
    if p < 64 && p + z >= 64 {
        assert(all.skip(1) =~= Seq::empty());
        assert(symbol_bits(all[0], ac) + symbols_bits(all.skip(1), ac) =~= code_bits(ac[0]));
    } else if p < 64 {
        let next: nat = if z >= 16 {
            p + 16
        } else {
            p + z + 1
        };
        lemma_symbols(zz, next, ac);
        lemma_run_at(zz, next);
        assert(all.skip(1) =~= symbols(zz, next));
        assert forall|i: int| 0 <= i < all.len() && #[trigger] all[i]
            == Symbol::EndOfBlock implies i + 1 == all.len() by {
            assert(all[i] == symbols(zz, next)[i - 1]);
        }
        assert forall|i: int| 0 <= i < all.len() && #[trigger] all[i]
            == Symbol::SixteenZeros implies i + 1 < all.len() && all[i + 1]
            != Symbol::EndOfBlock by {
            assert(all[i + 1] == symbols(zz, next)[i]);
            if i > 0 {
                assert(all[i] == symbols(zz, next)[i - 1]);
            }
        }
    }
}

/// A block is coded as its DC difference and the symbols of its other coefficients in zigzag order.
/// The end of the block is coded exactly when the last coefficient is zero; it comes last, and never
/// right behind sixteen zeros.
pub proof fn law_block_symbols(q: Seq<int>, prev: int, dc: Seq<(u16, u8)>, ac: Seq<(u16, u8)>)
    ensures
        block_bits(q, prev, dc, ac) == coded(dc[category(q[0] - prev) as int], q[0] - prev)
            + symbols_bits(symbols(zigzag(q), 1), ac),
        symbols(zigzag(q), 1).len() > 0,
        symbols(zigzag(q), 1).last() == Symbol::EndOfBlock <==> q[natural_index(63)] == 0,
        ends_well(symbols(zigzag(q), 1)),
{
    reveal(block_bits);
    lemma_ac_symbols(zigzag(q), 1, 0, ac);
    lemma_symbols(zigzag(q), 1, ac);
}

} // verus!
