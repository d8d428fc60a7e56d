//! Packing of symbol sequences into field blocks, two bits a symbol, and back.

use crate::field::{felt_values, felts_wf, limbs4, modulus, Felt};
use vstd::prelude::*;

verus! {

/// How many symbols one block holds.
pub const SYMBOLS_PER_BLOCK: usize = 125;

/// Two to the power 250: a block whose padding bits are zero lies below it.
pub open spec fn block_limit() -> nat {
    0x400000000000000000000000000000000000000000000000000000000000000nat
}

/// Four to the power `n`.
pub open spec fn pow4(n: nat) -> nat
    decreases n,
{
    if n == 0 {
        1
    } else {
        4 * pow4((n - 1) as nat)
    }
}

/// Every symbol is one of the four two-bit codes.
pub open spec fn valid_symbols(s: Seq<usize>) -> bool {
    forall|i: int| 0 <= i < s.len() ==> s[i] < 4
}

/// The number whose base-four digits, least significant first, are the symbols.
pub open spec fn pack(s: Seq<usize>) -> nat
    decreases s.len(),
{
    if s.len() == 0 {
        0
    } else {
        (s[0] as nat) + 4 * pack(s.drop_first())
    }
}

/// The `count` lowest base-four digits of `v`, least significant first.
pub open spec fn unpack(v: nat, count: nat) -> Seq<usize>
    decreases count,
{
    if count == 0 {
        Seq::empty()
    } else {
        seq![(v % 4) as usize] + unpack(v / 4, (count - 1) as nat)
    }
}

/// The number of blocks that `n` symbols fill, the last one perhaps in part.
pub open spec fn block_count(n: nat) -> nat {
    (n + 124) / 125
}

/// The symbols that go into block `b`.
pub open spec fn chunk(s: Seq<usize>, b: int) -> Seq<usize> {
    s.subrange(
        125 * b,
        if 125 * (b + 1) < s.len() {
            125 * (b + 1)
        } else {
            s.len() as int
        },
    )
}

/// The blocks of a symbol sequence, as numbers.
pub open spec fn encode_spec(s: Seq<usize>) -> Seq<nat> {
    Seq::new(block_count(s.len()), |b: int| pack(chunk(s, b)))
}

/// The symbols of a block sequence: 125 from each block, in order.
pub open spec fn decode_spec(blocks: Seq<nat>) -> Seq<usize>
    decreases blocks.len(),
{
    if blocks.len() == 0 {
        Seq::empty()
    } else {
        decode_spec(blocks.drop_last()) + unpack(blocks.last(), 125)
    }
}

/// Every block has its padding bits at zero.
pub open spec fn blocks_padded(blocks: Seq<nat>) -> bool {
    forall|i: int| 0 <= i < blocks.len() ==> blocks[i] < block_limit()
}

/// A sequence of `n` zero symbols.
pub open spec fn zeros(n: nat) -> Seq<usize> {
    Seq::new(n, |i: int| 0usize)
}

pub proof fn lemma_pow4_add(a: nat, b: nat)
    ensures
        pow4(a + b) == pow4(a) * pow4(b),
    decreases a,
{
    if a == 0 {
        assert(pow4(0 + b) == 1 * pow4(b));
    } else {
        lemma_pow4_add((a - 1) as nat, b);
        assert(pow4(a + b) == 4 * pow4((a - 1 + b) as nat));
        assert(4 * (pow4((a - 1) as nat) * pow4(b)) == (4 * pow4((a - 1) as nat)) * pow4(b))
            by (nonlinear_arith);
    }
}

pub proof fn lemma_pow4_monotone(a: nat, b: nat)
    requires
        a <= b,
    ensures
        0 < pow4(a) <= pow4(b),
    decreases b,
{
    if b == 0 {
    } else if a == b {
        lemma_pow4_monotone((a - 1) as nat, (a - 1) as nat);
    } else {
        lemma_pow4_monotone(a, (b - 1) as nat);
    }
}

/// A full block of symbols packs to a number below two to the power 250.
pub proof fn lemma_pow4_values()
    ensures
        pow4(124) * 4 == block_limit(),
        pow4(125) == block_limit(),
        block_limit() < modulus(),
{
    assert(pow4(4) == 256) by {
        reveal_with_fuel(pow4, 5);
    }
    lemma_pow4_add(4, 4);
    assert(pow4(8) == 65536);
    lemma_pow4_add(8, 8);
    assert(pow4(16) == 0x1_0000_0000);
    lemma_pow4_add(16, 16);
    assert(pow4(32) == 0x1_0000_0000_0000_0000);
    lemma_pow4_add(32, 32);
    assert(pow4(64) == 0x1_0000_0000_0000_0000_0000_0000_0000_0000);
    lemma_pow4_add(64, 32);
    lemma_pow4_add(16, 8);
    lemma_pow4_add(24, 4);
    assert(pow4(28) == 0x100_0000_0000_0000);
    lemma_pow4_add(96, 28);
    assert(pow4(125) == 4 * pow4(124));
}

/// Valid symbols pack to a number below four to the power of their count.
pub proof fn lemma_pack_bound(s: Seq<usize>)
    requires
        valid_symbols(s),
    ensures
        pack(s) < pow4(s.len()),
    decreases s.len(),
{
    if s.len() > 0 {
        lemma_pack_bound(s.drop_first());
    }
}

/// Unpacking yields as many symbols as asked for, each a two-bit code.
pub proof fn lemma_unpack_valid(v: nat, count: nat)
    ensures
        unpack(v, count).len() == count,
        valid_symbols(unpack(v, count)),
    decreases count,
{
    if count > 0 {
        lemma_unpack_valid(v / 4, (count - 1) as nat);
    }
}

/// Unpacking a packed sequence gives the sequence back, followed by zeros.
pub proof fn lemma_unpack_pack(s: Seq<usize>, count: nat)
    requires
        valid_symbols(s),
        s.len() <= count,
    ensures
        unpack(pack(s), count) == s + zeros((count - s.len()) as nat),
    decreases count,
{
    if count == 0 {
        assert(unpack(pack(s), count) =~= s + zeros((count - s.len()) as nat));
    } else if s.len() == 0 {
        lemma_unpack_pack(s, (count - 1) as nat);
        assert(unpack(pack(s), count) =~= s + zeros((count - s.len()) as nat));
    } else {
        let rest = s.drop_first();
        lemma_unpack_pack(rest, (count - 1) as nat);
        assert(pack(s) % 4 == s[0]);
        assert(pack(s) / 4 == pack(rest));
        assert(unpack(pack(s), count) =~= s + zeros((count - s.len()) as nat));
    }
}

/// The decoded sequence holds 125 symbols a block, and symbol `i` is digit
/// `i % 125` of block `i / 125`.
pub proof fn lemma_decode_index(blocks: Seq<nat>, i: int)
    requires
        0 <= i < 125 * blocks.len(),
    ensures
        decode_spec(blocks).len() == 125 * blocks.len(),
        decode_spec(blocks)[i] == unpack(blocks[i / 125], 125)[i % 125],
    decreases blocks.len(),
{
    lemma_decode_len(blocks);
    lemma_decode_len(blocks.drop_last());
    lemma_unpack_valid(blocks.last(), 125);
    if i < 125 * (blocks.len() - 1) {
        lemma_decode_index(blocks.drop_last(), i);
    }
}

pub proof fn lemma_decode_len(blocks: Seq<nat>)
    ensures
        decode_spec(blocks).len() == 125 * blocks.len(),
        valid_symbols(decode_spec(blocks)),
    decreases blocks.len(),
{
    if blocks.len() > 0 {
        lemma_decode_len(blocks.drop_last());
        lemma_unpack_valid(blocks.last(), 125);
    }
}

/// Whether every symbol is a two-bit code.
pub fn symbols_are_valid(symbols: &Vec<usize>) -> (r: bool)
    ensures
        r == valid_symbols(symbols@),
{
    let mut i: usize = 0;
    while i < symbols.len()
        invariant
            i <= symbols.len(),
            forall|k: int| 0 <= k < i ==> symbols@[k] < 4,
        decreases symbols.len() - i,
    {
        if symbols[i] >= 4 {
            return false;
        }
        i = i + 1;
    }
    true
}

/// The number of blocks that `n` symbols fill.
pub fn blocks_needed(n: usize) -> (r: usize)
    ensures
        r == block_count(n as nat),
{
    if n % 125 == 0 {
        n / 125
    } else {
        n / 125 + 1
    }
}

/// Packs the symbols from `start` up to `end` into one block.
#[verifier::rlimit(40)]
fn pack_block(symbols: &Vec<usize>, start: usize, end: usize) -> (r: Felt)
    requires
        start <= end <= symbols.len(),
        end - start <= 125,
        valid_symbols(symbols@),
    ensures
        r.wf(),
        r@ == pack(symbols@.subrange(start as int, end as int)),
{
    let mut l0: u64 = 0;
    let mut l1: u64 = 0;
    let mut l2: u64 = 0;
    let mut l3: u64 = 0;
    let mut j: usize = end;
    while j > start
        invariant
            start <= j <= end <= symbols.len(),
            end - start <= 125,
            valid_symbols(symbols@),
            limbs4(l0, l1, l2, l3) == pack(symbols@.subrange(j as int, end as int)),
        decreases j - start,
    {
        let ghost tail = symbols@.subrange(j as int, end as int);
        proof {
            lemma_pack_bound(tail);
            lemma_pow4_monotone((end - j) as nat, 124);
            lemma_pow4_values();
        }
        j = j - 1;
        let x: u64 = symbols[j] as u64;
        let q: u64 = 0x4000_0000_0000_0000;
        let n3: u64 = (l3 % q) * 4 + l2 / q;
        let n2: u64 = (l2 % q) * 4 + l1 / q;
        let n1: u64 = (l1 % q) * 4 + l0 / q;
        let n0: u64 = (l0 % q) * 4 + x;
        proof {
            let cur = symbols@.subrange(j as int, end as int);
            assert(cur.drop_first() =~= tail);
            assert(limbs4(n0, n1, n2, n3) == x + 4 * limbs4(l0, l1, l2, l3));
        }
        l0 = n0;
        l1 = n1;
        l2 = n2;
        l3 = n3;
    }
    proof {
        lemma_pack_bound(symbols@.subrange(start as int, end as int));
        lemma_pow4_monotone((end - start) as nat, 125);
        lemma_pow4_values();
    }
    Felt { limbs: [l0, l1, l2, l3] }
}

/// Packs a symbol sequence into blocks of 125 symbols, two bits a symbol,
/// the first symbol of a block in its lowest bits. The last block is filled
/// up with zero bits.
pub fn encode_sequence(symbols: &Vec<usize>) -> (blocks: Vec<Felt>)
    requires
        valid_symbols(symbols@),
    ensures
        felts_wf(blocks@),
        felt_values(blocks@) == encode_spec(symbols@),
{
    let n: usize = symbols.len();
    let count: usize = blocks_needed(n);
    let mut blocks: Vec<Felt> = Vec::new();
    let mut b: usize = 0;
    while b < count
        invariant
            b <= count,
            count == block_count(n as nat),
            n == symbols.len(),
            valid_symbols(symbols@),
            blocks.len() == b,
            forall|i: int| 0 <= i < b ==> (#[trigger] blocks@[i]).wf(),
            forall|i: int| 0 <= i < b ==> (#[trigger] blocks@[i])@ == pack(chunk(symbols@, i)),
        decreases count - b,
    {
        let start: usize = b * 125;
        let end: usize = if n - start > 125 {
            start + 125
        } else {
            n
        };
        let block = pack_block(symbols, start, end);
        blocks.push(block);
        b = b + 1;
    }
    assert(felt_values(blocks@) =~= encode_spec(symbols@));
    blocks
}

/// Whether the padding bits of a block, those from bit 250 up, are all zero.
pub fn block_is_padded(block: &Felt) -> (r: bool)
    ensures
        r == (block@ < block_limit()),
{
    block.limbs[3] < 0x0400_0000_0000_0000
}

/// The 125 symbols in the low 250 bits of a block, lowest first.
pub fn decode_block(block: &Felt) -> (symbols: Vec<usize>)
    ensures
        symbols@ == unpack(block@, 125),
{
    let mut r0: u64 = block.limbs[0];
    let mut r1: u64 = block.limbs[1];
    let mut r2: u64 = block.limbs[2];
    let mut r3: u64 = block.limbs[3];
    let mut out: Vec<usize> = Vec::new();
    let mut j: usize = 0;
    while j < 125
        invariant
            j <= 125,
            out@.len() == j,
            out@ + unpack(limbs4(r0, r1, r2, r3), (125 - j) as nat) == unpack(block@, 125),
        decreases 125 - j,
    {
        let q: u64 = 0x4000_0000_0000_0000;
        let s: usize = (r0 % 4) as usize;
        let n0: u64 = r0 / 4 + (r1 % 4) * q;
        let n1: u64 = r1 / 4 + (r2 % 4) * q;
        let n2: u64 = r2 / 4 + (r3 % 4) * q;
        let n3: u64 = r3 / 4;
        proof {
            let rest = limbs4(r0, r1, r2, r3);
            assert(rest == 4 * limbs4(n0, n1, n2, n3) + s);
            assert(rest % 4 == s);
            assert(rest / 4 == limbs4(n0, n1, n2, n3));
            assert(out@.push(s) + unpack(rest / 4, (124 - j) as nat) =~= out@ + unpack(
                rest,
                (125 - j) as nat,
            ));
        }
        out.push(s);
        r0 = n0;
        r1 = n1;
        r2 = n2;
        r3 = n3;
        j = j + 1;
    }
    assert(out@ + Seq::<usize>::empty() =~= out@);
    out
}

/// Whether every block of a sequence has its padding bits at zero.
pub fn blocks_are_padded(blocks: &Vec<Felt>) -> (r: bool)
    ensures
        r == blocks_padded(felt_values(blocks@)),
{
    let mut i: usize = 0;
    while i < blocks.len()
        invariant
            i <= blocks.len(),
            forall|k: int| 0 <= k < i ==> (#[trigger] blocks@[k])@ < block_limit(),
        decreases blocks.len() - i,
    {
        if !block_is_padded(&blocks[i]) {
            assert(felt_values(blocks@)[i as int] == blocks@[i as int]@);
            return false;
        }
        i = i + 1;
    }
    assert forall|k: int| 0 <= k < blocks.len() implies felt_values(blocks@)[k] < block_limit() by {
        assert(felt_values(blocks@)[k] == blocks@[k]@);
    }
    true
}

/// The symbols in the low 250 bits of each block, block after block.
pub fn decode_symbols(blocks: &Vec<Felt>) -> (symbols: Vec<usize>)
    ensures
        symbols@ == decode_spec(felt_values(blocks@)),
{
    let mut out: Vec<usize> = Vec::new();
    let mut i: usize = 0;
    while i < blocks.len()
        invariant
            i <= blocks.len(),
            out@ == decode_spec(felt_values(blocks@).take(i as int)),
        decreases blocks.len() - i,
    {
        let mut part = decode_block(&blocks[i]);
        proof {
            let all = felt_values(blocks@);
            assert(all.take(i + 1).drop_last() =~= all.take(i as int));
            assert(all.take(i + 1).last() == blocks@[i as int]@);
        }
        out.append(&mut part);
        i = i + 1;
    }
    assert(felt_values(blocks@).take(blocks.len() as int) =~= felt_values(blocks@));
    out
}

/// Recovers the symbols of a block sequence, 125 from each block. A block
/// with a padding bit set is malformed and makes the whole result `None`.
pub fn decode_sequence(blocks: &Vec<Felt>) -> (r: Option<Vec<usize>>)
    ensures
        r.is_some() == blocks_padded(felt_values(blocks@)),
        r.is_some() ==> r.unwrap()@ == decode_spec(felt_values(blocks@)),
{
    if blocks_are_padded(blocks) {
        Some(decode_symbols(blocks))
    } else {
        None
    }
}

/// Decoding an encoded sequence gives the sequence back, followed by the
/// zero symbols that fill up its last block.
pub proof fn lemma_decode_encode(s: Seq<usize>)
    requires
        valid_symbols(s),
    ensures
        blocks_padded(encode_spec(s)),
        decode_spec(encode_spec(s)) == s + zeros((125 * block_count(s.len()) - s.len()) as nat),
{
    let blocks = encode_spec(s);
    let decoded = decode_spec(blocks);
    let padded = s + zeros((125 * block_count(s.len()) - s.len()) as nat);
    lemma_pow4_values();
    assert forall|b: int| 0 <= b < blocks.len() implies blocks[b] < block_limit() by {
        lemma_pack_bound(chunk(s, b));
        lemma_pow4_monotone(chunk(s, b).len(), 125);
    }
    lemma_decode_len(blocks);
    assert forall|i: int| 0 <= i < decoded.len() implies decoded[i] == padded[i] by {
        lemma_decode_index(blocks, i);
        let b = i / 125;
        lemma_unpack_pack(chunk(s, b), 125);
    }
    assert(decoded =~= padded);
}

/// Round trip: a valid sequence that fills its blocks exactly is what
/// decoding its encoding returns.
pub proof fn lemma_round_trip(s: Seq<usize>)
    requires
        valid_symbols(s),
        s.len() % 125 == 0,
    ensures
        blocks_padded(encode_spec(s)),
        decode_spec(encode_spec(s)) == s,
{
    lemma_decode_encode(s);
    assert(s + zeros(0) =~= s);
}

} // verus!
