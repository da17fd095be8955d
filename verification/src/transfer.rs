//! Transfers: the messages that a wallet is asked to send, and the signed
//! body that carries them to the wallet.

use crate::bits::{
    bits_bytes, bytes_bits, lemma_bits_bytes_of_bytes, lemma_bytes_bits_len, lemma_uint_bits_len,
    uint_bits,
};
use crate::cell::{cell_depth, cell_hash, Builder, Cell, CellView, MAX_BITS};
use crate::clock::now;
use crate::error::CollectorError;
use crate::keys::{signature_of, KeyPair, SIGNATURE_LENGTH};
use crate::layout::{
    address_bits, grams_bits, lemma_address_bits_len, lemma_grams_bits_len, store_address,
    store_grams, Address, AddressView,
};
use crate::wallet::InitData;
use vstd::arithmetic::power2::{lemma2_to64, pow2};
use vstd::prelude::*;

verus! {

/// One message holds fewer transfers than this.
pub const MAX_GIFT_COUNT: usize = 4;

/// The flag that asks for the wallet to be destroyed once it is empty.
pub const DESTROY_IF_EMPTY: u8 = 32;

/// The flag that asks for the whole balance to be sent in place of the amount.
pub const SEND_ALL_BALANCE: u8 = 128;

/// The number of bits that a signature takes.
pub const SIGNATURE_BITS: usize = 512;

/// One transfer: where the coins go, how many, and how the wallet sends them.
#[derive(Clone, Copy, Debug)]
pub struct Gift {
    pub flags: u8,
    pub bounce: bool,
    pub destination: Address,
    pub amount: u64,
}

/// What a transfer is.
pub struct GiftView {
    pub flags: u8,
    pub bounce: bool,
    pub destination: AddressView,
    pub amount: u64,
}

impl View for Gift {
    type V = GiftView;

    open spec fn view(&self) -> GiftView {
        GiftView {
            flags: self.flags,
            bounce: self.bounce,
            destination: self.destination@,
            amount: self.amount,
        }
    }
}

/// The views of some transfers, in order.
pub open spec fn gifts_view(gifts: Seq<Gift>) -> Seq<GiftView> {
    Seq::new(gifts.len(), |i: int| gifts[i]@)
}

/// The bits of the message that a wallet sends for a transfer: an internal
/// message with forwarding through the hypercube switched off, the bounce
/// flag, not bounced itself, no sender, the destination, the amount, no other
/// currencies, no fees, no creation time, no state and an empty body in
/// place.
pub open spec fn transfer_bits(bounce: bool, destination: AddressView, amount: nat) -> Seq<bool> {
    seq![false, true, bounce, false, false, false] + address_bits(destination) + grams_bits(
        amount,
    ) + seq![false] + grams_bits(0) + grams_bits(0) + uint_bits(0, 64) + uint_bits(0, 32)
        + seq![false, false]
}

impl GiftView {
    /// The cell of the message that the wallet sends for this transfer.
    pub open spec fn cell(self) -> CellView {
        CellView {
            bits: transfer_bits(self.bounce, self.destination, self.amount as nat),
            refs: Seq::empty(),
        }
    }
}

/// The flag bytes of some transfers, eight bits each.
pub open spec fn flags_bits(gifts: Seq<GiftView>) -> Seq<bool>
    decreases gifts.len(),
{
    if gifts.len() == 0 {
        Seq::empty()
    } else {
        flags_bits(gifts.drop_last()) + uint_bits(gifts.last().flags as nat, 8)
    }
}

/// The cells of some transfers, in order.
pub open spec fn gift_cells(gifts: Seq<GiftView>) -> Seq<CellView> {
    Seq::new(gifts.len(), |i: int| gifts[i].cell())
}

/// The body of a wallet message before it is signed: the wallet id, the time
/// at which it expires and the sequence number, 32 bits each, then one byte
/// of flags for each transfer; the transfers' messages are its references.
pub open spec fn unsigned_body(
    wallet_id: u32,
    expires_at: u32,
    seqno: u32,
    gifts: Seq<GiftView>,
) -> CellView {
    CellView {
        bits: uint_bits(wallet_id as nat, 32) + uint_bits(expires_at as nat, 32) + uint_bits(
            seqno as nat,
            32,
        ) + flags_bits(gifts),
        refs: gift_cells(gifts),
    }
}

/// A body with its signature in front.
pub open spec fn signed_body(unsigned: CellView, signature: Seq<u8>) -> CellView {
    CellView { bits: bytes_bits(signature) + unsigned.bits, refs: unsigned.refs }
}

/// What is left of a signed body once the signature is taken off.
pub open spec fn stripped_body(signed: CellView) -> CellView {
    CellView { bits: signed.bits.skip(SIGNATURE_BITS as int), refs: signed.refs }
}

/// The signature in front of a signed body.
pub open spec fn body_signature(signed: CellView) -> Seq<u8> {
    bits_bytes(signed.bits.take(SIGNATURE_BITS as int))
}

/// Whether the signature in front of `signed` is the one that `key` makes
/// over the digest of what follows it.
pub open spec fn signed_over_rest(key: KeyPair, signed: CellView) -> bool {
    signature_of(key, cell_hash(stripped_body(signed))) == Ok::<Seq<u8>, CollectorError>(
        body_signature(signed),
    )
}

/// The time at which a message made at `now` expires: refused where it
/// does not fit the 32 bits that the body has for it.
pub open spec fn expiry(now: u32, ttl: u32) -> Result<u32, CollectorError> {
    if now + ttl > u32::MAX {
        Err(CollectorError::ValueTooWide)
    } else {
        Ok((now + ttl) as u32)
    }
}

/// Whether a result is the refusal of the clock's reading.
pub open spec fn clock_refused<T>(r: Result<T, CollectorError>) -> bool {
    r matches Err(e) && (e == CollectorError::ClockBeforeEpoch || e
        == CollectorError::ValueTooWide)
}

/// The signed body for some transfers, as a message made at `now` that
/// lives for `ttl` seconds: refused where the transfers are too many, else
/// where the time at which it expires does not fit, and else where the key
/// pair is refused.
pub open spec fn transfer_body_at(
    wallet_id: u32,
    key: KeyPair,
    now: u32,
    ttl: u32,
    seqno: u32,
    gifts: Seq<GiftView>,
) -> Result<CellView, CollectorError> {
    if gifts.len() >= MAX_GIFT_COUNT {
        Err(CollectorError::TooManyGifts)
    } else {
        match expiry(now, ttl) {
            Ok(expires_at) => transfer_body(wallet_id, key, expires_at, seqno, gifts),
            Err(e) => Err(e),
        }
    }
}

/// The signed body for some transfers: refused where they are too many, and
/// else where the key pair is; the signature is made over the digest of the
/// unsigned body.
pub open spec fn transfer_body(
    wallet_id: u32,
    key: KeyPair,
    expires_at: u32,
    seqno: u32,
    gifts: Seq<GiftView>,
) -> Result<CellView, CollectorError> {
    if gifts.len() >= MAX_GIFT_COUNT {
        Err(CollectorError::TooManyGifts)
    } else {
        let unsigned = unsigned_body(wallet_id, expires_at, seqno, gifts);
        match signature_of(key, cell_hash(unsigned)) {
            Ok(signature) => Ok(signed_body(unsigned, signature)),
            Err(e) => Err(e),
        }
    }
}

/// Each transfer puts one byte of flags into the body.
pub proof fn lemma_flags_bits_len(gifts: Seq<GiftView>)
    ensures
        flags_bits(gifts).len() == 8 * gifts.len(),
    decreases gifts.len(),
{
    if gifts.len() > 0 {
        lemma_flags_bits_len(gifts.drop_last());
        lemma_uint_bits_len(gifts.last().flags as nat, 8);
    }
}

/// Taking the signature off a signed body leaves the body that was signed,
/// and the bits taken off spell the signature.
pub proof fn lemma_signature_placement(unsigned: CellView, signature: Seq<u8>)
    requires
        signature.len() == SIGNATURE_LENGTH,
    ensures
        stripped_body(signed_body(unsigned, signature)) == unsigned,
        body_signature(signed_body(unsigned, signature)) == signature,
        cell_hash(stripped_body(signed_body(unsigned, signature))) == cell_hash(unsigned),
{
    let signed = signed_body(unsigned, signature);
    lemma_bytes_bits_len(signature);
    assert(signed.bits.skip(SIGNATURE_BITS as int) =~= unsigned.bits);
    assert(signed.bits.take(SIGNATURE_BITS as int) =~= bytes_bits(signature));
    lemma_bits_bytes_of_bytes(signature);
}

/// Four or more transfers are refused whatever else is given. Up to three
/// are signed exactly where the time at which the message expires fits 32
/// bits and the key pair is accepted, and the signed body refers to one
/// message for each of them.
pub proof fn lemma_gift_bound(
    wallet_id: u32,
    key: KeyPair,
    now: u32,
    ttl: u32,
    seqno: u32,
    gifts: Seq<GiftView>,
)
    ensures
        gifts.len() >= 4 <==> transfer_body_at(wallet_id, key, now, ttl, seqno, gifts) == Err::<
            CellView,
            CollectorError,
        >(CollectorError::TooManyGifts),
        gifts.len() <= 3 && now + ttl > u32::MAX ==> transfer_body_at(
            wallet_id,
            key,
            now,
            ttl,
            seqno,
            gifts,
        ) == Err::<CellView, CollectorError>(CollectorError::ValueTooWide),
        gifts.len() <= 3 && now + ttl <= u32::MAX ==> (transfer_body_at(
            wallet_id,
            key,
            now,
            ttl,
            seqno,
            gifts,
        ) is Ok <==> signature_of(
            key,
            cell_hash(unsigned_body(wallet_id, (now + ttl) as u32, seqno, gifts)),
        ) is Ok),
        transfer_body_at(wallet_id, key, now, ttl, seqno, gifts) matches Ok(signed)
            ==> signed.refs.len() == gifts.len(),
{
}

/// Builds the message that the wallet sends for `gift`, and hands it back
/// with the flags under which the wallet is to send it.
pub fn encode_gift(gift: &Gift) -> (r: (u8, Cell))
    ensures
        r.0 == gift.flags,
        r.1@ == gift@.cell(),
{
    proof {
        lemma_address_bits_len(gift.destination@);
        lemma_grams_bits_len(gift.amount as nat);
        lemma_grams_bits_len(0);
        lemma_uint_bits_len(0, 64);
        lemma_uint_bits_len(0, 32);
        lemma2_to64();
    }
    // The message takes 448 bits at most, so each part has room.
    let mut message = Builder::new();
    let head = [false, true, gift.bounce, false, false, false];
    let _ = message.append_bits(head.as_slice());
    let _ = store_address(&mut message, &gift.destination);
    let _ = store_grams(&mut message, gift.amount);
    let _ = message.append_bit(false);
    let _ = store_grams(&mut message, 0);
    let _ = store_grams(&mut message, 0);
    let _ = message.append_uint(0, 64);
    let _ = message.append_uint(0, 32);
    let tail = [false, false];
    let _ = message.append_bits(tail.as_slice());
    proof {
        assert(head@ =~= seq![false, true, gift.bounce, false, false, false]);
        assert(tail@ =~= seq![false, false]);
        assert(message@.bits =~= gift@.cell().bits);
    }
    (gift.flags, message.finalize())
}

/// Builds the body for `gifts` that is still to be signed.
pub fn unsigned_transfer(wallet_id: u32, expires_at: u32, seqno: u32, gifts: &[Gift]) -> (r: Result<
    Builder,
    CollectorError,
>)
    ensures
        match r {
            Ok(body) => gifts@.len() < MAX_GIFT_COUNT && body@ == unsigned_body(
                wallet_id,
                expires_at,
                seqno,
                gifts_view(gifts@),
            ),
            Err(e) => gifts@.len() >= MAX_GIFT_COUNT && e == CollectorError::TooManyGifts,
        },
{
    if gifts.len() >= MAX_GIFT_COUNT {
        return Err(CollectorError::TooManyGifts);
    }
    proof {
        lemma_uint_bits_len(wallet_id as nat, 32);
        lemma_uint_bits_len(expires_at as nat, 32);
        lemma_uint_bits_len(seqno as nat, 32);
        lemma2_to64();
    }
    // With three transfers at most the body takes 120 bits and three
    // references, so each part has room.
    let ghost all = gifts_view(gifts@);
    let mut body = Builder::new();
    let _ = body.append_uint(wallet_id as u64, 32);
    let _ = body.append_uint(expires_at as u64, 32);
    let _ = body.append_uint(seqno as u64, 32);
    assert(body@.bits =~= unsigned_body(wallet_id, expires_at, seqno, all.take(0)).bits);
    assert(body@.refs =~= unsigned_body(wallet_id, expires_at, seqno, all.take(0)).refs);
    let mut i: usize = 0;
    while i < gifts.len()
        invariant
            i <= gifts@.len() < MAX_GIFT_COUNT,
            all == gifts_view(gifts@),
            body@ == unsigned_body(wallet_id, expires_at, seqno, all.take(i as int)),
            pow2(8) == 256,
        decreases gifts@.len() - i,
    {
        let (flags, cell) = encode_gift(&gifts[i]);
        proof {
            lemma_flags_bits_len(all.take(i as int));
            lemma_uint_bits_len(wallet_id as nat, 32);
            lemma_uint_bits_len(expires_at as nat, 32);
            lemma_uint_bits_len(seqno as nat, 32);
            lemma_uint_bits_len(flags as nat, 8);
            assert(cell_depth(cell@) == 0);
            assert(all.take(i + 1).drop_last() =~= all.take(i as int));
            assert(all.take(i + 1).last() == gifts@[i as int]@);
        }
        let _ = body.append_uint(flags as u64, 8);
        let _ = body.append_reference(cell);
        proof {
            assert(body@.bits =~= unsigned_body(
                wallet_id,
                expires_at,
                seqno,
                all.take(i + 1),
            ).bits);
            assert(body@.refs =~= unsigned_body(
                wallet_id,
                expires_at,
                seqno,
                all.take(i + 1),
            ).refs);
        }
        i += 1;
    }
    assert(all.take(i as int) =~= all);
    Ok(body)
}

/// Puts `signature` in front of `body` and closes it.
pub fn attach_signature(body: Builder, signature: &[u8; 64]) -> (r: Result<Cell, CollectorError>)
    ensures
        match r {
            Ok(cell) => body@.bits.len() + SIGNATURE_BITS <= MAX_BITS && cell@ == signed_body(
                body@,
                signature@,
            ),
            Err(e) => body@.bits.len() + SIGNATURE_BITS > MAX_BITS && e
                == CollectorError::CapacityExceeded,
        },
{
    let mut body = body;
    proof {
        lemma_bytes_bits_len(signature@);
        assert(bytes_bits(signature@).take(512) =~= bytes_bits(signature@));
    }
    match body.prepend_raw(signature.as_slice(), SIGNATURE_BITS) {
        Ok(()) => Ok(body.finalize()),
        Err(e) => Err(e),
    }
}

/// The time at which a message made at `now` expires.
pub fn expires_at(now: u32, ttl: u32) -> (r: Result<u32, CollectorError>)
    ensures
        r == expiry(now, ttl),
{
    match now.checked_add(ttl) {
        Some(at) => Ok(at),
        None => Err(CollectorError::ValueTooWide),
    }
}

/// Builds and signs the body that asks the wallet of `init_data` for `gifts`,
/// as a message made at `now`.
pub fn make_gift_message_at(
    init_data: &InitData,
    key: &KeyPair,
    now: u32,
    seqno: u32,
    ttl: u32,
    gifts: &[Gift],
) -> (r: Result<Cell, CollectorError>)
    ensures
        match transfer_body_at(
            init_data.wallet_id,
            *key,
            now,
            ttl,
            seqno,
            gifts_view(gifts@),
        ) {
            Ok(cell) => r is Ok && r->Ok_0@ == cell,
            Err(e) => r == Err::<Cell, CollectorError>(e),
        },
        r matches Ok(cell) ==> {
            &&& signed_over_rest(*key, cell@)
            &&& cell@.bits.len() == SIGNATURE_BITS + 96 + 8 * gifts@.len()
            &&& expiry(now, ttl) matches Ok(at) && stripped_body(cell@) == unsigned_body(
                init_data.wallet_id,
                at,
                seqno,
                gifts_view(gifts@),
            )
        },
{
    if gifts.len() >= MAX_GIFT_COUNT {
        return Err(CollectorError::TooManyGifts);
    }
    let at = match expires_at(now, ttl) {
        Ok(at) => at,
        Err(e) => { return Err(e); },
    };
    let body = match unsigned_transfer(init_data.wallet_id, at, seqno, gifts) {
        Ok(body) => body,
        Err(e) => { return Err(e); },
    };
    let digest = body.clone().finalize().repr_hash();
    let signature = match key.sign(digest.as_slice()) {
        Ok(signature) => signature,
        Err(e) => { return Err(e); },
    };
    proof {
        lemma_flags_bits_len(gifts_view(gifts@));
        lemma_uint_bits_len(init_data.wallet_id as nat, 32);
        lemma_uint_bits_len(at as nat, 32);
        lemma_uint_bits_len(seqno as nat, 32);
        lemma_bytes_bits_len(signature@);
        lemma_signature_placement(body@, signature@);
    }
    attach_signature(body, &signature)
}

/// Builds and signs the body that asks the wallet of `init_data` for `gifts`,
/// as a message made now. Too many transfers are refused before the clock is
/// read.
pub fn make_gift_message(
    init_data: &InitData,
    key: &KeyPair,
    seqno: u32,
    ttl: u32,
    gifts: &[Gift],
) -> (r: Result<Cell, CollectorError>)
    ensures
        gifts@.len() >= MAX_GIFT_COUNT <==> r matches Err(CollectorError::TooManyGifts),
        clock_refused(r) || exists|now: u32|
            match #[trigger] transfer_body_at(
                init_data.wallet_id,
                *key,
                now,
                ttl,
                seqno,
                gifts_view(gifts@),
            ) {
                Ok(cell) => r is Ok && r->Ok_0@ == cell,
                Err(e) => r == Err::<Cell, CollectorError>(e),
            },
        r matches Ok(cell) ==> {
            &&& signed_over_rest(*key, cell@)
            &&& cell@.bits.len() == SIGNATURE_BITS + 96 + 8 * gifts@.len()
        },
{
    if gifts.len() >= MAX_GIFT_COUNT {
        proof {
            assert(transfer_body_at(
                init_data.wallet_id,
                *key,
                0,
                ttl,
                seqno,
                gifts_view(gifts@),
            ) == Err::<CellView, CollectorError>(CollectorError::TooManyGifts));
        }
        return Err(CollectorError::TooManyGifts);
    }
    let made = match now() {
        Ok(made) => made,
        Err(e) => { return Err(e); },
    };
    let r = make_gift_message_at(init_data, key, made, seqno, ttl, gifts);
    proof {
        let outcome = transfer_body_at(
            init_data.wallet_id,
            *key,
            made,
            ttl,
            seqno,
            gifts_view(gifts@),
        );
        assert(match outcome {
            Ok(cell) => r is Ok && r->Ok_0@ == cell,
            Err(e) => r == Err::<Cell, CollectorError>(e),
        });
    }
    r
}

} // verus!
