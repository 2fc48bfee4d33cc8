//! Quantization and Huffman coding of one transformed block.

use vstd::arithmetic::power2::{lemma_pow2_pos, lemma_pow2_unfold, pow2};
use vstd::prelude::*;

use super::bits::{bits_of, BitW};
use super::tables::ZIGZAG;

verus! {

pub open spec fn magnitude(v: int) -> nat {
    if v < 0 {
        (-v) as nat
    } else {
        v as nat
    }
}

/// Number of binary digits of `t`.
pub open spec fn bit_length(t: nat) -> nat
    decreases t,
{
    if t == 0 {
        0
    } else {
        1 + bit_length(t / 2)
    }
}

/// Magnitude category of a coefficient: the number of binary digits of its magnitude.
pub open spec fn category(v: int) -> nat {
    bit_length(magnitude(v))
}

/// The value bits that follow the Huffman code of a coefficient: the value itself, or, for a
/// negative one, the ones' complement of its magnitude.
pub open spec fn value_bits(v: int) -> nat {
    if v >= 0 {
        v as nat
    } else {
        (v + pow2(category(v)) - 1) as nat
    }
}

/// `bit_length(t)` is the least `s` with `t < 2^s`.
pub proof fn lemma_bit_length(t: nat)
    ensures
        t < pow2(bit_length(t)),
        t > 0 ==> bit_length(t) >= 1 && pow2((bit_length(t) - 1) as nat) <= t,
    decreases t,
{
    if t == 0 {
        lemma_pow2_pos(0);
    } else {
        lemma_bit_length(t / 2);
        lemma_pow2_unfold(bit_length(t));
        if t / 2 > 0 {
            lemma_pow2_unfold((bit_length(t) - 1) as nat);
        } else {
            assert(bit_length(t) == 1);
            vstd::arithmetic::power2::lemma2_to64();
        }
    }
}

/// A number below `2^s` has at most `s` digits.
pub proof fn lemma_bit_length_at_most(t: nat, s: nat)
    requires
        t < pow2(s),
    ensures
        bit_length(t) <= s,
    decreases t,
{
    lemma_bit_length(t);
    if bit_length(t) > s {
        if bit_length(t) - 1 > s {
            vstd::arithmetic::power2::lemma_pow2_strictly_increases(
                s,
                (bit_length(t) - 1) as nat,
            );
        }
    }
}

/// Magnitude category and value bits of a coefficient.
pub fn cat(v: i32) -> (r: (u32, u32))
    requires
        v != i32::MIN,
    ensures
        r.0 == category(v as int),
        r.1 == value_bits(v as int),
        r.0 <= 31,
{
    if v == 0 {
        return (0, 0);
    }
    let m: i32 = if v < 0 {
        -v
    } else {
        v
    };
    let mut t: i32 = m;
    let mut size: u32 = 0;
    proof {
        vstd::arithmetic::power2::lemma2_to64();
        lemma_bit_length_at_most(m as nat, 31);
    }
    while t > 0
        invariant
            0 <= t,
            size + bit_length(t as nat) == bit_length(m as nat),
            bit_length(m as nat) <= 31,
        decreases t,
    {
        size = size + 1;
        t = t / 2;
    }
    proof {
        lemma_bit_length(m as nat);
        vstd::arithmetic::power2::lemma_pow2_strictly_increases(size as nat, 32);
        vstd::bits::lemma_u64_shl_is_mul(1, size as u64);
    }
    let bits: u32 = if v >= 0 {
        v as u32
    } else {
        (v as i64 - 1 + (1u64 << (size as u64)) as i64) as u32
    };
    (size, bits)
}

/// A coefficient divided by eight times its quantization step, rounded half away from zero, by
/// way of the step's reciprocal `recip = round(2^16 / step)`.
pub open spec fn quantize(c: int, recip: int) -> int {
    let q = (magnitude(c) * recip + 0x4_0000) / 0x8_0000;
    if c < 0 {
        -q
    } else {
        q
    }
}

/// A whole block quantized, in natural order.
pub open spec fn quantized(coef: Seq<i32>, recip: Seq<i32>) -> Seq<int> {
    Seq::new(64, |i: int| quantize(coef[i] as int, recip[i] as int))
}

/// The bits of a Huffman table entry.
pub open spec fn code_bits(entry: (u16, u8)) -> Seq<bool> {
    bits_of(entry.0 as u32, entry.1 as nat)
}

/// A coefficient's Huffman code, as the given table entry has it, and its value bits.
pub open spec fn coded(entry: (u16, u8), v: int) -> Seq<bool> {
    code_bits(entry) + bits_of(value_bits(v) as u32, category(v))
}

/// `count` times the code for sixteen zeros.
pub open spec fn zero_runs(ac: Seq<(u16, u8)>, count: nat) -> Seq<bool>
    decreases count,
{
    if count == 0 {
        Seq::empty()
    } else {
        code_bits(ac[0xF0]) + zero_runs(ac, (count - 1) as nat)
    }
}

/// The symbol of a nonzero coefficient that follows `run` zeros, of which every sixteen have a
/// code of their own.
pub open spec fn ac_symbol(run: nat, v: int) -> int {
    16 * (run % 16) + category(v) as int
}

/// Run-length code of the AC coefficients of `zz`, a block in zigzag order, from the `k`-th on,
/// where `run` zeros went before it.
pub open spec fn ac_bits(zz: Seq<int>, k: nat, run: nat, ac: Seq<(u16, u8)>) -> Seq<bool>
    decreases 64 - k,
{
    if k >= 64 {
        if run > 0 {
            code_bits(ac[0])
        } else {
            Seq::empty()
        }
    } else if zz[k as int] == 0 {
        ac_bits(zz, k + 1, run + 1, ac)
    } else {
        zero_runs(ac, run / 16) + coded(ac[ac_symbol(run, zz[k as int])], zz[k as int])
            + ac_bits(zz, k + 1, 0, ac)
    }
}

/// Natural index of the `k`-th coefficient in zigzag order.
#[verifier::opaque]
pub open spec fn natural_index(k: int) -> int {
    ZIGZAG@[k] as int
}

/// `q` in zigzag order.
pub open spec fn zigzag(q: Seq<int>) -> Seq<int> {
    Seq::new(64, |k: int| q[natural_index(k)])
}

/// The bits of a quantized block: its DC coefficient as a difference to `prev`, then the rest.
#[verifier::opaque]
pub open spec fn block_bits(
    q: Seq<int>,
    prev: int,
    dc: Seq<(u16, u8)>,
    ac: Seq<(u16, u8)>,
) -> Seq<bool> {
    coded(dc[category(q[0] - prev) as int], q[0] - prev) + ac_bits(zigzag(q), 1, 0, ac)
}

/// The tables have codes for every coefficient of `q`.
pub open spec fn codable(q: Seq<int>, prev: int) -> bool {
    &&& i32::MIN < q[0] - prev <= i32::MAX
    &&& category(q[0] - prev) <= 11
    &&& forall|i: int| 1 <= i < 64 ==> category(#[trigger] q[i]) <= 10
}

/// No code is longer than sixteen bits.
pub open spec fn short_codes(table: Seq<(u16, u8)>) -> bool {
    forall|i: int| 0 <= i < table.len() ==> (#[trigger] table[i]).1 <= 16
}

/// `round(2^16 / step)` for steps from 1 on.
pub open spec fn reciprocals(recip: Seq<i32>) -> bool {
    forall|i: int| 0 <= i < recip.len() ==> 0 <= #[trigger] recip[i] <= 0x1_0000
}

/// Look a zigzag position up.
pub fn zigzag_index(k: usize) -> (i: usize)
    requires
        k < 64,
    ensures
        i == natural_index(k as int),
        i < 64,
        i == 0 <==> k == 0,
{
    reveal(natural_index);
    ZIGZAG[k] as usize
}

fn quantize_one(c: i32, recip: i32) -> (q: i32)
    requires
        c != i32::MIN,
        0 <= recip <= 0x1_0000,
    ensures
        q == quantize(c as int, recip as int),
        i32::MIN < q,
{
    let a: i64 = if c < 0 {
        -(c as i64)
    } else {
        c as i64
    };
    assert(0 <= a * recip <= 0x7fff_ffff * 0x1_0000) by (nonlinear_arith)
        requires
            0 <= a <= 0x7fff_ffff,
            0 <= recip <= 0x1_0000,
    ;
    let q: i32 = ((a * recip as i64 + 0x4_0000) / 0x8_0000) as i32;
    if c < 0 {
        -q
    } else {
        q
    }
}

/// Append the code of the nonzero coefficient `c` behind `run` zeros.
fn put_coefficient(ac: &[(u16, u8); 251], run: u32, c: i32, bw: &mut BitW)
    requires
        old(bw).wf(),
        short_codes(ac@),
        c != i32::MIN,
        category(c as int) <= 10,
    ensures
        final(bw).wf(),
        final(bw).bits@ == old(bw).bits@ + (zero_runs(ac@, run as nat / 16) + coded(
            ac@[ac_symbol(run as nat, c as int)],
            c as int,
        )),
        final(bw).base == old(bw).base,
        final(final(bw).buf)@ == final(old(bw).buf)@,
{
    let ghost before = *bw;
    let mut left: u32 = run;
    while left > 15
        invariant
            left % 16 == run % 16,
            bw.wf(),
            bw.base == before.base,
            final(bw.buf)@ == final(before.buf)@,
            short_codes(ac@),
            bw.bits@ + zero_runs(ac@, (left / 16) as nat) == before.bits@ + zero_runs(
                ac@,
                run as nat / 16,
            ),
        decreases left,
    {
        let (cc, ll) = ac[0xF0];
        assert(ac@[0xF0].1 <= 16);
        let ghost b0 = bw.bits@;
        bw.put(cc as u32, ll as u32);
        left = left - 16;
        assert(bw.bits@ + zero_runs(ac@, (left / 16) as nat) =~= b0 + zero_runs(
            ac@,
            (left / 16 + 1) as nat,
        ));
    }
    assert(bw.bits@ + zero_runs(ac@, 0) =~= bw.bits@);
    let (s, bits) = cat(c);
    let ghost b1 = bw.bits@;
    assert(ac@[16 * left + s].1 <= 16);
    let (cc, ll) = ac[(left * 16 + s) as usize];
    bw.put(cc as u32, ll as u32);
    bw.put(bits, s);
    assert(bw.bits@ =~= b1 + coded(ac@[ac_symbol(run as nat, c as int)], c as int));
    assert(bw.bits@ =~= before.bits@ + (zero_runs(ac@, run as nat / 16) + coded(
        ac@[ac_symbol(run as nat, c as int)],
        c as int,
    )));
}

/// Quantize a transformed block, then Huffman-code its DC coefficient as a difference and its AC
/// coefficients by run and category.
#[verifier::rlimit(40)]
pub fn code_block(
    coef: &[i32; 64],
    recip: &[i32; 64],
    dc: &[(u16, u8); 12],
    ac: &[(u16, u8); 251],
    prev_dc: &mut i32,
    bw: &mut BitW,
)
    requires
        old(bw).wf(),
        forall|i: int| 0 <= i < 64 ==> #[trigger] coef@[i] != i32::MIN,
        reciprocals(recip@),
        short_codes(dc@),
        short_codes(ac@),
        codable(quantized(coef@, recip@), *old(prev_dc) as int),
    ensures
        final(bw).wf(),
        final(bw).bits@ == old(bw).bits@ + block_bits(
            quantized(coef@, recip@),
            *old(prev_dc) as int,
            dc@,
            ac@,
        ),
        final(bw).base == old(bw).base,
        final(final(bw).buf)@ == final(old(bw).buf)@,
        *final(prev_dc) == quantized(coef@, recip@)[0],
{
    reveal(block_bits);
    let ghost q = quantized(coef@, recip@);
    let ghost zz = zigzag(q);
    let ghost prev = *prev_dc;
    let ghost before = *bw;
    let mut qz: [i32; 64] = [0; 64];
    let mut i: usize = 0;
    while i < 64
        invariant
            i <= 64,
            forall|j: int| 0 <= j < 64 ==> #[trigger] coef@[j] != i32::MIN,
            reciprocals(recip@),
            q == quantized(coef@, recip@),
            forall|j: int| 0 <= j < i ==> #[trigger] qz@[j] == q[j] && qz@[j] != i32::MIN,
        decreases 64 - i,
    {
        qz[i] = quantize_one(coef[i], recip[i]);
        i = i + 1;
    }
    let diff: i32 = qz[0] - *prev_dc;
    *prev_dc = qz[0];
    let (s, bits) = cat(diff);
    let (code, len) = dc[s as usize];
    assert(dc@[s as int].1 <= 16);
    bw.put(code as u32, len as u32);
    bw.put(bits, s);
    let ghost start = before.bits@ + coded(dc@[category(q[0] - prev) as int], q[0] - prev);
    assert(bw.bits@ =~= start);

    let mut run: u32 = 0;
    let mut k: usize = 1;
    assert(bw.bits@ + ac_bits(zz, k as nat, run as nat, ac@) =~= start + ac_bits(zz, 1, 0, ac@));
    while k < 64
        invariant
            1 <= k <= 64,
            run < k,
            bw.wf(),
            bw.base == before.base,
            final(bw.buf)@ == final(before.buf)@,
            short_codes(ac@),
            zz == zigzag(q),
            forall|j: int| 1 <= j < 64 ==> category(#[trigger] q[j]) <= 10,
            forall|j: int| 0 <= j < 64 ==> #[trigger] qz@[j] == q[j] && qz@[j] != i32::MIN,
            bw.bits@ + ac_bits(zz, k as nat, run as nat, ac@) == start + ac_bits(zz, 1, 0, ac@),
        decreases 64 - k,
    {
        let c: i32 = qz[zigzag_index(k)];
        assert(c == zz[k as int]);
        if c == 0 {
            run = run + 1;
        } else {
            let ghost at = bw.bits@;
            put_coefficient(ac, run, c, bw);
            assert(bw.bits@ + ac_bits(zz, (k + 1) as nat, 0, ac@) =~= at + ac_bits(
                zz,
                k as nat,
                run as nat,
                ac@,
            ));
            run = 0;
        }
        k = k + 1;
    }
    if run > 0 {
        let (cc, ll) = ac[0];
        assert(ac@[0].1 <= 16);
        bw.put(cc as u32, ll as u32);
    } else {
        assert(bw.bits@ + Seq::<bool>::empty() =~= bw.bits@);
    }
    assert(bw.bits@ =~= before.bits@ + block_bits(q, prev as int, dc@, ac@));
}

} // verus!
