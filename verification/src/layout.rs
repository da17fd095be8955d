//! How addresses and coin amounts are laid out in the bits of a cell.

use crate::bits::{
    bytes_bits, lemma_bytes_bits_len, lemma_uint_bits_len, uint_bits,
};
use crate::cell::{Builder, MAX_BITS};
use crate::error::CollectorError;
use vstd::arithmetic::power2::{lemma2_to64, lemma_pow2_adds, pow2};
use vstd::prelude::*;

verus! {

/// The address of an account: the chain it lives on and the digest of the
/// state it was deployed with.
#[derive(Clone, Copy, Debug)]
pub struct Address {
    pub workchain_id: i8,
    pub address: [u8; 32],
}

/// What an address is.
pub struct AddressView {
    pub workchain_id: i8,
    pub address: Seq<u8>,
}

impl View for Address {
    type V = AddressView;

    open spec fn view(&self) -> AddressView {
        AddressView { workchain_id: self.workchain_id, address: self.address@ }
    }
}

/// The number of bits that an address takes.
pub const ADDRESS_BITS: usize = 267;

/// The byte that stands for a chain id in two's complement.
pub open spec fn chain_byte(workchain_id: i8) -> nat {
    if workchain_id >= 0 {
        workchain_id as nat
    } else {
        (workchain_id + 256) as nat
    }
}

/// An address in bits: the tag of a standard address, no anycast, the chain
/// id in eight bits and the 256 bits of the account.
pub open spec fn address_bits(address: AddressView) -> Seq<bool> {
    seq![true, false, false] + uint_bits(chain_byte(address.workchain_id), 8) + bytes_bits(
        address.address,
    )
}

/// The number of bytes that it takes to write `amount`.
pub open spec fn byte_len(amount: nat) -> nat
    decreases amount,
{
    if amount == 0 {
        0
    } else {
        1 + byte_len(amount / 256)
    }
}

/// A coin amount in bits: the number of its bytes in four bits, then the
/// bytes.
pub open spec fn grams_bits(amount: nat) -> Seq<bool> {
    uint_bits(byte_len(amount), 4) + uint_bits(amount, 8 * byte_len(amount))
}

/// An address takes 267 bits.
pub proof fn lemma_address_bits_len(address: AddressView)
    requires
        address.address.len() == 32,
    ensures
        address_bits(address).len() == ADDRESS_BITS,
{
    lemma_uint_bits_len(chain_byte(address.workchain_id), 8);
    lemma_bytes_bits_len(address.address);
}

/// An amount is below 256 to the power of the number of its bytes, and an
/// amount below 256 to the power of `bytes` takes no more than `bytes` bytes.
pub proof fn lemma_byte_len(amount: nat, bytes: nat)
    ensures
        amount < pow2(8 * byte_len(amount)),
        amount < pow2(8 * bytes) ==> byte_len(amount) <= bytes,
    decreases amount,
{
    lemma2_to64();
    if amount > 0 {
        let rest = byte_len(amount / 256);
        lemma_byte_len(amount / 256, (bytes - 1) as nat);
        lemma_pow2_adds(8, 8 * rest);
        if bytes > 0 {
            lemma_pow2_adds(8, (8 * (bytes - 1)) as nat);
        }
    }
}

/// A coin amount of 64 bits takes four bits and the bits of its bytes, at
/// most 68 in all.
pub proof fn lemma_grams_bits_len(amount: nat)
    requires
        amount <= u64::MAX,
    ensures
        grams_bits(amount).len() == 4 + 8 * byte_len(amount),
        byte_len(amount) <= 8,
{
    lemma2_to64();
    lemma_byte_len(amount, 8);
    lemma_uint_bits_len(byte_len(amount), 4);
    lemma_uint_bits_len(amount, 8 * byte_len(amount));
}

/// Writes `address` after the bits that `builder` holds.
pub fn store_address(builder: &mut Builder, address: &Address) -> (r: Result<(), CollectorError>)
    ensures
        match old(builder)@.append_bits(address_bits(address@)) {
            Ok(after) => r is Ok && final(builder)@ == after,
            Err(e) => r == Err::<(), CollectorError>(e) && final(builder)@ == old(builder)@,
        },
{
    proof {
        lemma_address_bits_len(address@);
        lemma_uint_bits_len(chain_byte(address.workchain_id), 8);
        lemma_bytes_bits_len(address.address@);
        lemma2_to64();
    }
    if builder.bit_len() > MAX_BITS - ADDRESS_BITS {
        return Err(CollectorError::CapacityExceeded);
    }
    let chain: u64 = if address.workchain_id >= 0 {
        address.workchain_id as u64
    } else {
        (address.workchain_id as i64 + 256) as u64
    };
    let tag = [true, false, false];
    let _ = builder.append_bits(tag.as_slice());
    let _ = builder.append_uint(chain, 8);
    let _ = builder.append_raw(address.address.as_slice(), 256);
    proof {
        assert(tag@ =~= seq![true, false, false]);
        assert(bytes_bits(address.address@).take(256) =~= bytes_bits(address.address@));
        assert(builder@.bits =~= old(builder)@.bits + address_bits(address@));
    }
    Ok(())
}

/// Writes a coin amount after the bits that `builder` holds.
pub fn store_grams(builder: &mut Builder, amount: u64) -> (r: Result<(), CollectorError>)
    ensures
        match old(builder)@.append_bits(grams_bits(amount as nat)) {
            Ok(after) => r is Ok && final(builder)@ == after,
            Err(e) => r == Err::<(), CollectorError>(e) && final(builder)@ == old(builder)@,
        },
{
    proof {
        lemma_grams_bits_len(amount as nat);
    }
    let mut bytes: usize = 0;
    let mut rest: u64 = amount;
    while rest > 0
        invariant
            bytes + byte_len(rest as nat) == byte_len(amount as nat),
            byte_len(amount as nat) <= 8,
        decreases rest,
    {
        rest = rest / 256;
        bytes += 1;
    }
    proof {
        lemma_byte_len(amount as nat, 8);
        lemma_uint_bits_len(byte_len(amount as nat), 4);
        lemma_uint_bits_len(amount as nat, 8 * byte_len(amount as nat));
        lemma2_to64();
    }
    if 4 + 8 * bytes > MAX_BITS - builder.bit_len() {
        return Err(CollectorError::CapacityExceeded);
    }
    let _ = builder.append_uint(bytes as u64, 4);
    let _ = builder.append_uint(amount, 8 * bytes);
    proof {
        assert(builder@.bits =~= old(builder)@.bits + grams_bits(amount as nat));
    }
    Ok(())
}

} // verus!
