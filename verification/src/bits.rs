//! Bit strings, most significant bit first, and the numbers and bytes they spell.

use vstd::arithmetic::power2::{
    lemma2_to64, lemma2_to64_rest, lemma_pow2_strictly_increases, lemma_pow2_unfold, pow2,
};
use vstd::prelude::*;

verus! {

/// The `width` low-order binary digits of `value`, most significant first.
pub open spec fn uint_bits(value: nat, width: nat) -> Seq<bool>
    decreases width,
{
    if width == 0 {
        Seq::empty()
    } else {
        uint_bits(value / 2, (width - 1) as nat).push(value % 2 == 1)
    }
}

/// The number that a bit string spells.
pub open spec fn bits_value(bits: Seq<bool>) -> nat
    decreases bits.len(),
{
    if bits.len() == 0 {
        0
    } else {
        2 * bits_value(bits.drop_last()) + if bits.last() { 1nat } else { 0nat }
    }
}

/// The bits of a byte string, eight for each byte.
pub open spec fn bytes_bits(bytes: Seq<u8>) -> Seq<bool>
    decreases bytes.len(),
{
    if bytes.len() == 0 {
        Seq::empty()
    } else {
        bytes_bits(bytes.drop_last()) + uint_bits(bytes.last() as nat, 8)
    }
}

/// The bytes that a bit string of whole bytes spells, eight bits at a time.
pub open spec fn bits_bytes(bits: Seq<bool>) -> Seq<u8>
    recommends
        bits.len() % 8 == 0,
    decreases bits.len(),
{
    if bits.len() < 8 {
        Seq::empty()
    } else {
        bits_bytes(bits.subrange(0, bits.len() - 8)).push(
            bits_value(bits.subrange(bits.len() - 8, bits.len() as int)) as u8,
        )
    }
}

/// The bits of a cell as they are hashed: whole bytes, an incomplete last
/// byte being closed by a one and filled with zeros.
pub open spec fn padded_bits(bits: Seq<bool>) -> Seq<bool> {
    if bits.len() % 8 == 0 {
        bits
    } else {
        bits.push(true) + Seq::new((7 - bits.len() % 8) as nat, |i: int| false)
    }
}

/// A bit string of `width` bits has `width` bits.
pub proof fn lemma_uint_bits_len(value: nat, width: nat)
    ensures
        uint_bits(value, width).len() == width,
    decreases width,
{
    if width > 0 {
        lemma_uint_bits_len(value / 2, (width - 1) as nat);
    }
}

/// A bit string spells a number below two to the power of its length.
pub proof fn lemma_bits_value_bound(bits: Seq<bool>)
    ensures
        bits_value(bits) < pow2(bits.len()),
    decreases bits.len(),
{
    if bits.len() == 0 {
        lemma2_to64();
    } else {
        lemma_bits_value_bound(bits.drop_last());
        lemma_pow2_unfold(bits.len());
    }
}

/// Writing a number that fits and reading it back gives the number.
pub proof fn lemma_bits_value_of_uint(value: nat, width: nat)
    requires
        value < pow2(width),
    ensures
        bits_value(uint_bits(value, width)) == value,
    decreases width,
{
    if width == 0 {
        lemma2_to64();
    } else {
        lemma_pow2_unfold(width);
        lemma_bits_value_of_uint(value / 2, (width - 1) as nat);
        let rest = uint_bits(value / 2, (width - 1) as nat);
        assert(uint_bits(value, width).drop_last() =~= rest);
    }
}

/// Reading a bit string and writing the number back in as many bits gives
/// the bit string.
pub proof fn lemma_uint_bits_of_value(bits: Seq<bool>)
    ensures
        uint_bits(bits_value(bits), bits.len()) == bits,
    decreases bits.len(),
{
    if bits.len() > 0 {
        lemma_uint_bits_of_value(bits.drop_last());
        assert(bits.drop_last().push(bits.last()) =~= bits);
    }
}

/// A prefix of a bit string spells no more than the whole.
pub proof fn lemma_bits_value_prefix(bits: Seq<bool>, len: int)
    requires
        0 <= len <= bits.len(),
    ensures
        bits_value(bits.take(len)) <= bits_value(bits),
    decreases bits.len(),
{
    if len == bits.len() {
        assert(bits.take(len) =~= bits);
    } else {
        lemma_bits_value_prefix(bits.drop_last(), len);
        assert(bits.drop_last().take(len) =~= bits.take(len));
    }
}

/// Eight bits for each byte.
pub proof fn lemma_bytes_bits_len(bytes: Seq<u8>)
    ensures
        bytes_bits(bytes).len() == 8 * bytes.len(),
    decreases bytes.len(),
{
    if bytes.len() > 0 {
        lemma_bytes_bits_len(bytes.drop_last());
        lemma_uint_bits_len(bytes.last() as nat, 8);
    }
}

/// One byte for each eight bits.
pub proof fn lemma_bits_bytes_len(bits: Seq<bool>)
    ensures
        bits_bytes(bits).len() == bits.len() / 8,
    decreases bits.len(),
{
    if bits.len() >= 8 {
        lemma_bits_bytes_len(bits.subrange(0, bits.len() - 8));
    }
}

/// The bits of two byte strings joined are the bits of each, joined.
pub proof fn lemma_bytes_bits_concat(a: Seq<u8>, b: Seq<u8>)
    ensures
        bytes_bits(a + b) == bytes_bits(a) + bytes_bits(b),
    decreases b.len(),
{
    if b.len() == 0 {
        assert(a + b =~= a);
    } else {
        lemma_bytes_bits_concat(a, b.drop_last());
        assert((a + b).drop_last() =~= a + b.drop_last());
    }
}

/// Unpacking bytes into bits and packing the bits again gives the bytes.
pub proof fn lemma_bits_bytes_of_bytes(bytes: Seq<u8>)
    ensures
        bits_bytes(bytes_bits(bytes)) == bytes,
    decreases bytes.len(),
{
    if bytes.len() > 0 {
        let bits = bytes_bits(bytes);
        let last = uint_bits(bytes.last() as nat, 8);
        lemma_bytes_bits_len(bytes);
        lemma_bytes_bits_len(bytes.drop_last());
        lemma_uint_bits_len(bytes.last() as nat, 8);
        assert(bits.subrange(0, bits.len() - 8) =~= bytes_bits(bytes.drop_last()));
        assert(bits.subrange(bits.len() - 8, bits.len() as int) =~= last);
        lemma_bits_bytes_of_bytes(bytes.drop_last());
        lemma2_to64();
        lemma_bits_value_of_uint(bytes.last() as nat, 8);
        assert(bits_bytes(bits) =~= bytes);
    }
}

/// Packing whole bytes of bits and unpacking them again gives the bits.
pub proof fn lemma_bytes_bits_of_bits(bits: Seq<bool>)
    requires
        bits.len() % 8 == 0,
    ensures
        bytes_bits(bits_bytes(bits)) == bits,
    decreases bits.len(),
{
    if bits.len() >= 8 {
        let head = bits.subrange(0, bits.len() - 8);
        let tail = bits.subrange(bits.len() - 8, bits.len() as int);
        lemma_bytes_bits_of_bits(head);
        lemma_bits_value_bound(tail);
        lemma2_to64();
        lemma_uint_bits_of_value(tail);
        assert(bits_bytes(bits).drop_last() =~= bits_bytes(head));
        assert(head + tail =~= bits);
    } else {
        assert(bits =~= Seq::<bool>::empty());
    }
}

/// Appends the `width` low-order binary digits of `value`, most significant
/// first.
pub fn push_uint(bits: &mut Vec<bool>, value: u64, width: usize)
    ensures
        final(bits)@ == old(bits)@ + uint_bits(value as nat, width as nat),
    decreases width,
{
    if width > 0 {
        push_uint(bits, value / 2, width - 1);
        bits.push(value % 2 == 1);
        assert(bits@ =~= old(bits)@ + uint_bits(value as nat, width as nat));
    } else {
        assert(bits@ =~= old(bits)@ + uint_bits(value as nat, width as nat));
    }
}

/// Unpacks bytes into their bits.
pub fn bits_of_bytes(bytes: &[u8]) -> (bits: Vec<bool>)
    ensures
        bits@ == bytes_bits(bytes@),
{
    let mut bits: Vec<bool> = Vec::new();
    let mut i: usize = 0;
    while i < bytes.len()
        invariant
            i <= bytes@.len(),
            bits@ == bytes_bits(bytes@.take(i as int)),
        decreases bytes@.len() - i,
    {
        push_uint(&mut bits, bytes[i] as u64, 8);
        assert(bytes@.take(i + 1).drop_last() =~= bytes@.take(i as int));
        i += 1;
    }
    assert(bytes@.take(i as int) =~= bytes@);
    bits
}

/// Reads the number that `width` bits of `bits` spell, from `start` on.
/// `None` where the number is too large for 64 bits.
pub(crate) fn value_at(bits: &Vec<bool>, start: usize, width: usize) -> (value: Option<u64>)
    requires
        start + width <= bits.len(),
    ensures
        match value {
            Some(v) => v == bits_value(bits@.subrange(start as int, start + width)),
            None => bits_value(bits@.subrange(start as int, start + width)) > u64::MAX,
        },
{
    let ghost field = bits@.subrange(start as int, start + width);
    let mut acc: u64 = 0;
    let mut i: usize = 0;
    while i < width
        invariant
            i <= width,
            start + width <= bits.len(),
            field == bits@.subrange(start as int, start + width),
            acc == bits_value(field.take(i as int)),
        decreases width - i,
    {
        let bit: u64 = if bits[start + i] { 1 } else { 0 };
        proof {
            assert(field.take(i + 1).drop_last() =~= field.take(i as int));
            lemma_bits_value_prefix(field, i + 1);
        }
        if acc > (u64::MAX - bit) / 2 {
            return None;
        }
        acc = 2 * acc + bit;
        i += 1;
    }
    assert(field.take(i as int) =~= field);
    Some(acc)
}

/// Packs `count` bytes of bits, from bit `start` on.
pub(crate) fn pack_bytes(bits: &Vec<bool>, start: usize, count: usize) -> (bytes: Vec<u8>)
    requires
        start + 8 * count <= bits.len(),
    ensures
        bytes@ == bits_bytes(bits@.subrange(start as int, start + 8 * count)),
{
    let mut bytes: Vec<u8> = Vec::new();
    let mut i: usize = 0;
    while i < count
        invariant
            i <= count,
            start + 8 * count <= bits.len(),
            bytes@ == bits_bytes(bits@.subrange(start as int, start + 8 * i)),
        decreases count - i,
    {
        let value = value_at(bits, start + 8 * i, 8);
        proof {
            let next = bits@.subrange(start as int, start + 8 * (i + 1));
            let byte = bits@.subrange(start + 8 * i, start + 8 * i + 8);
            assert(next.subrange(0, next.len() - 8) =~= bits@.subrange(
                start as int,
                start + 8 * i,
            ));
            assert(next.subrange(next.len() - 8, next.len() as int) =~= byte);
            lemma_bits_value_bound(byte);
            lemma2_to64();
        }
        match value {
            Some(v) => {
                bytes.push(v as u8);
            },
            None => {
                assert(false);
            },
        }
        i += 1;
    }
    bytes
}

/// Closes a bit string to whole bytes, as it is hashed.
pub fn pad_bits(bits: &Vec<bool>) -> (padded: Vec<bool>)
    ensures
        padded@ == padded_bits(bits@),
{
    let mut padded: Vec<bool> = bits.clone();
    assert(padded@ =~= bits@);
    if bits.len() % 8 != 0 {
        padded.push(true);
        while padded.len() % 8 != 0
            invariant
                bits.len() % 8 != 0,
                bits.len() < padded.len() <= bits.len() - bits.len() % 8 + 8,
                padded@ == bits@.push(true) + Seq::new(
                    (padded.len() - bits.len() - 1) as nat,
                    |i: int| false,
                ),
            decreases bits.len() - bits.len() % 8 + 8 - padded.len(),
        {
            padded.push(false);
        }
    }
    padded
}

/// Packs a bit string into the bytes that are hashed for it.
pub fn pack_padded(bits: &Vec<bool>) -> (bytes: Vec<u8>)
    ensures
        bytes@ == bits_bytes(padded_bits(bits@)),
{
    let padded = pad_bits(bits);
    assert(padded@.subrange(0, 8 * (padded.len() / 8)) =~= padded@);
    pack_bytes(&padded, 0, padded.len() / 8)
}

/// The bits of the first bytes of a byte string are the first bits of the
/// whole.
pub proof fn lemma_bytes_bits_take(bytes: Seq<u8>, count: int, width: int)
    requires
        0 <= count <= bytes.len(),
        0 <= width <= 8 * count,
    ensures
        bytes_bits(bytes.take(count)).take(width) == bytes_bits(bytes).take(width),
{
    lemma_bytes_bits_concat(bytes.take(count), bytes.skip(count));
    lemma_bytes_bits_len(bytes.take(count));
    assert(bytes.take(count) + bytes.skip(count) =~= bytes);
    assert(bytes_bits(bytes.take(count)).take(width) =~= bytes_bits(bytes).take(width));
}

/// Whether `value` can be written in `width` binary digits.
pub fn fits(value: u64, width: usize) -> (r: bool)
    ensures
        r == ((value as nat) < pow2(width as nat)),
{
    proof {
        lemma2_to64();
        lemma2_to64_rest();
    }
    if width >= 64 {
        proof {
            if width > 64 {
                lemma_pow2_strictly_increases(64, width as nat);
            }
        }
        true
    } else {
        let mut limit: u64 = 1;
        let mut i: usize = 0;
        while i < width
            invariant
                i <= width < 64,
                limit == pow2(i as nat),
                pow2(63) == 0x8000_0000_0000_0000,
            decreases width - i,
        {
            proof {
                lemma_pow2_unfold((i + 1) as nat);
                if i + 1 < 63 {
                    lemma_pow2_strictly_increases((i + 1) as nat, 63);
                }
            }
            limit = 2 * limit;
            i += 1;
        }
        value < limit
    }
}

/// The first `width` bits of `bytes`.
pub(crate) fn leading_bits(bytes: &[u8], width: usize) -> (bits: Vec<bool>)
    requires
        width <= 8 * bytes@.len(),
        width <= usize::MAX - 7,
    ensures
        bits@ == bytes_bits(bytes@).take(width as int),
{
    let count: usize = (width + 7) / 8;
    let head = vstd::slice::slice_subrange(bytes, 0, count);
    let all = bits_of_bytes(head);
    proof {
        assert(head@ =~= bytes@.take(count as int));
        lemma_bytes_bits_take(bytes@, count as int, width as int);
        lemma_bytes_bits_len(head@);
    }
    let mut bits: Vec<bool> = Vec::new();
    let mut i: usize = 0;
    while i < width
        invariant
            i <= width <= all.len(),
            bits@ == all@.take(i as int),
        decreases width - i,
    {
        bits.push(all[i]);
        assert(bits@ =~= all@.take(i + 1));
        i += 1;
    }
    bits
}

/// Appends `more` to `bytes`.
pub(crate) fn extend_bytes(bytes: &mut Vec<u8>, more: &[u8])
    ensures
        final(bytes)@ == old(bytes)@ + more@,
{
    let mut i: usize = 0;
    while i < more.len()
        invariant
            i <= more@.len(),
            bytes@ == old(bytes)@ + more@.take(i as int),
        decreases more@.len() - i,
    {
        bytes.push(more[i]);
        assert(bytes@ =~= old(bytes)@ + more@.take(i + 1));
        i += 1;
    }
    assert(more@.take(i as int) =~= more@);
}

} // verus!
