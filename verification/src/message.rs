//! The envelope in which a signed body reaches the wallet from outside the
//! ledger, and the message that collects a wallet's balance.

use crate::cell::{cell_depth, Builder, Cell, CellView, MAX_BITS, MAX_DEPTH, MAX_REFS};
use crate::clock::now;
use crate::error::CollectorError;
use crate::keys::KeyPair;
use crate::layout::{
    address_bits, byte_len, grams_bits, lemma_address_bits_len, lemma_grams_bits_len,
    store_address, store_grams, Address, AddressView,
};
use crate::transfer::{
    clock_refused, gifts_view, make_gift_message_at, signed_over_rest, transfer_body_at,
    Gift, GiftView, DESTROY_IF_EMPTY, SEND_ALL_BALANCE,
};
use crate::wallet::{
    state_init_bits, wallet_address, wallet_state, InitData, StateInit, StateInitView,
};
use vstd::prelude::*;

verus! {

/// A message to an account from outside the ledger.
pub struct Message {
    pub dst: Address,
    pub init: Option<StateInit>,
    pub body: Cell,
}

/// What a message from outside is: where it goes, the state it deploys, if
/// any, and its body.
pub struct MessageView {
    pub dst: AddressView,
    pub init: Option<StateInitView>,
    pub body: CellView,
}

impl View for Message {
    type V = MessageView;

    open spec fn view(&self) -> MessageView {
        MessageView {
            dst: self.dst@,
            init: match self.init {
                Some(state) => Some(state@),
                None => None,
            },
            body: self.body@,
        }
    }
}

/// The header of a message from outside: its tag, no sender, the
/// destination and no import fee.
pub open spec fn inbound_bits(dst: AddressView) -> Seq<bool> {
    seq![true, false, false, false] + address_bits(dst) + grams_bits(0)
}

impl MessageView {
    /// The header, followed by the state: a zero bit where there is none, and
    /// else a one, a zero for "in this cell", and the state with its code
    /// and data as references. Refused where code or data is too deep to be
    /// referenced.
    pub open spec fn head(self) -> Result<CellView, CollectorError> {
        match self.init {
            None => Ok(
                CellView { bits: inbound_bits(self.dst) + seq![false], refs: Seq::empty() },
            ),
            Some(state) => if cell_depth(state.code) >= MAX_DEPTH || cell_depth(state.data)
                >= MAX_DEPTH {
                Err(CollectorError::DepthExceeded)
            } else {
                Ok(
                    CellView {
                        bits: inbound_bits(self.dst) + seq![true, false] + state_init_bits(),
                        refs: seq![state.code, state.data],
                    },
                )
            },
        }
    }

    /// Whether the body has room behind `head` in the same cell.
    pub open spec fn body_in_place(head: CellView, body: CellView) -> bool {
        head.bits.len() + 1 + body.bits.len() <= MAX_BITS && head.refs.len() + body.refs.len()
            <= MAX_REFS
    }

    /// The cell of the message. The body follows the head in the same cell
    /// after a zero bit where it has room there; else a one bit follows and
    /// the body is the last reference, which is refused where the body is too
    /// deep to be referenced.
    pub open spec fn cell(self) -> Result<CellView, CollectorError> {
        match self.head() {
            Err(e) => Err(e),
            Ok(head) => if Self::body_in_place(head, self.body) {
                Ok(
                    CellView {
                        bits: head.bits + seq![false] + self.body.bits,
                        refs: head.refs + self.body.refs,
                    },
                )
            } else if cell_depth(self.body) >= MAX_DEPTH {
                Err(CollectorError::DepthExceeded)
            } else {
                Ok(CellView { bits: head.bits + seq![true], refs: head.refs.push(self.body) })
            },
        }
    }
}

/// What is asked of the wallet: to send its whole balance to `to`, and to
/// destroy itself afterwards where `destroy` is set.
pub struct CollectorMessageParams {
    pub key: KeyPair,
    pub to: Address,
    pub init: bool,
    pub destroy: bool,
    pub seqno: u32,
    pub id: u32,
    pub ttl: u32,
}

/// The flags of the transfer that collects a balance.
pub open spec fn transfer_flags(destroy: bool) -> u8 {
    if destroy {
        160
    } else {
        128
    }
}

/// The transfer that collects a balance: everything the wallet has, not to
/// be bounced, to `to`.
pub open spec fn collecting_gift(to: AddressView, destroy: bool) -> GiftView {
    GiftView { flags: transfer_flags(destroy), bounce: false, destination: to, amount: 0 }
}

/// The number of bits of the body that carries one transfer: the signature,
/// three numbers of 32 bits and one byte of flags.
pub const COLLECTING_BODY_BITS: usize = 616;

/// The message that `params` ask for, made at `now`: addressed to the wallet
/// of the key and the id, with the wallet's state where it is to be
/// deployed, and with the signed transfer as its body. Refused where the
/// wallet has no address, else where the time at which the message expires
/// does not fit 32 bits, and else where the key pair is refused.
pub open spec fn collector_message(
    params: CollectorMessageParams,
    code: CellView,
    now: u32,
) -> Result<MessageView, CollectorError> {
    match wallet_address(params.key.public@, params.id, code) {
        Err(e) => Err(e),
        Ok(dst) => match transfer_body_at(
            params.id,
            params.key,
            now,
            params.ttl,
            params.seqno,
            seq![collecting_gift(params.to@, params.destroy)],
        ) {
            Err(e) => Err(e),
            Ok(body) => Ok(
                MessageView {
                    dst,
                    init: if params.init {
                        Some(wallet_state(params.key.public@, params.id, code))
                    } else {
                        None
                    },
                    body,
                },
            ),
        },
    }
}

/// The flags of the collecting transfer always ask for the whole balance,
/// and ask for the wallet's destruction exactly where `destroy` is set.
pub proof fn lemma_transfer_flags(destroy: bool)
    ensures
        transfer_flags(destroy) & SEND_ALL_BALANCE == SEND_ALL_BALANCE,
        (transfer_flags(destroy) & DESTROY_IF_EMPTY == DESTROY_IF_EMPTY) == destroy,
        transfer_flags(destroy) == SEND_ALL_BALANCE + if destroy {
            DESTROY_IF_EMPTY as int
        } else {
            0
        },
{
    assert(160u8 & 128u8 == 128u8) by (bit_vector);
    assert(128u8 & 128u8 == 128u8) by (bit_vector);
    assert(160u8 & 32u8 == 32u8) by (bit_vector);
    assert(128u8 & 32u8 == 0u8) by (bit_vector);
}

/// A collecting message goes to the wallet's own address; the state it
/// deploys, if it deploys one, is the state that this address is the digest
/// of; and its body refers to one transfer, the collecting one.
pub proof fn lemma_collector_message(params: CollectorMessageParams, code: CellView, now: u32)
    ensures
        collector_message(params, code, now) matches Ok(message) ==> {
            &&& wallet_address(params.key.public@, params.id, code) == Ok::<
                AddressView,
                CollectorError,
            >(message.dst)
            &&& message.dst.workchain_id == 0
            &&& params.init ==> (message.init matches Some(state) && state.address() == Ok::<
                AddressView,
                CollectorError,
            >(message.dst))
            &&& !params.init ==> message.init is None
            &&& message.body.refs == seq![collecting_gift(params.to@, params.destroy).cell()]
        },
        collector_message(params, code, now) matches Err(e) ==> e
            == CollectorError::DepthExceeded || e == CollectorError::ValueTooWide || e
            == CollectorError::SigningFailed,
        collector_message(params, code, now) == Err::<MessageView, CollectorError>(
            CollectorError::ValueTooWide,
        ) <==> cell_depth(code) < MAX_DEPTH && now + params.ttl > u32::MAX,
        collector_message(params, code, now) == Err::<MessageView, CollectorError>(
            CollectorError::DepthExceeded,
        ) <==> cell_depth(code) >= MAX_DEPTH,
{
    let gifts = seq![collecting_gift(params.to@, params.destroy)];
    let data = wallet_state(params.key.public@, params.id, code).data;
    assert(data.refs.len() == 0);
    assert(cell_depth(data) == 0);
    assert(crate::transfer::gift_cells(gifts) =~= seq![gifts[0].cell()]);
}

/// The header of a message from outside takes 275 bits.
pub proof fn lemma_inbound_bits_len(dst: AddressView)
    requires
        dst.address.len() == 32,
    ensures
        inbound_bits(dst).len() == 275,
{
    lemma_address_bits_len(dst);
    lemma_grams_bits_len(0);
    assert(byte_len(0) == 0);
}

impl Message {
    /// Writes the message into its cell.
    pub fn serialize(&self) -> (r: Result<Cell, CollectorError>)
        ensures
            match self@.cell() {
                Ok(cell) => r is Ok && r->Ok_0@ == cell,
                Err(e) => r == Err::<Cell, CollectorError>(e),
            },
    {
        proof {
            lemma_inbound_bits_len(self.dst@);
            lemma_address_bits_len(self.dst@);
            lemma_grams_bits_len(0);
        }
        // Header and state take 283 bits and two references at most, so each
        // part of them has room.
        let mut builder = Builder::new();
        let tag = [true, false, false, false];
        let _ = builder.append_bits(tag.as_slice());
        let _ = store_address(&mut builder, &self.dst);
        let _ = store_grams(&mut builder, 0);
        proof {
            assert(tag@ =~= seq![true, false, false, false]);
            assert(builder@.bits =~= inbound_bits(self.dst@));
        }
        match &self.init {
            None => {
                let _ = builder.append_bit(false);
                assert(builder@.refs =~= Seq::<CellView>::empty());
            },
            Some(state) => {
                let cell = match state.serialize() {
                    Ok(cell) => cell,
                    Err(e) => { return Err(e); },
                };
                let marks = [true, false];
                let _ = builder.append_bits(marks.as_slice());
                let _ = builder.append_cell(&cell);
                proof {
                    assert(marks@ =~= seq![true, false]);
                    assert(builder@.bits =~= inbound_bits(self.dst@) + seq![true, false]
                        + state_init_bits());
                    assert(builder@.refs =~= seq![state@.code, state@.data]);
                }
            },
        }
        assert(self@.head() == Ok::<CellView, CollectorError>(builder@));
        let ghost head = builder@;
        if self.body.bit_len() < MAX_BITS - builder.bit_len() && self.body.references_count()
            <= MAX_REFS - builder.references_count() {
            let _ = builder.append_bit(false);
            let _ = builder.append_cell(&self.body);
            assert(builder@.bits =~= head.bits + seq![false] + self.body@.bits);
        } else {
            if self.body.depth() >= MAX_DEPTH {
                return Err(CollectorError::DepthExceeded);
            }
            let _ = builder.append_bit(true);
            let _ = builder.append_reference(self.body.clone());
        }
        Ok(builder.finalize())
    }
}

/// The flags of the transfer that collects a balance.
pub fn gift_flags(destroy: bool) -> (flags: u8)
    ensures
        flags == transfer_flags(destroy),
{
    if destroy {
        SEND_ALL_BALANCE + DESTROY_IF_EMPTY
    } else {
        SEND_ALL_BALANCE
    }
}

/// Builds the message that `params` ask for, as a message made at `now`.
/// `code` is the code of the wallet contract.
pub fn create_message_at(params: CollectorMessageParams, code: &Cell, now: u32) -> (r: Result<
    Message,
    CollectorError,
>)
    ensures
        match collector_message(params, code@, now) {
            Ok(message) => r is Ok && r->Ok_0@ == message,
            Err(e) => r is Err && r->Err_0 == e,
        },
        r matches Ok(message) ==> {
            &&& signed_over_rest(params.key, message@.body)
            &&& message@.body.bits.len() == COLLECTING_BODY_BITS
        },
{
    let init_data = InitData::from_key(&params.key).with_wallet_id(params.id);
    let dst = match init_data.compute_addr(code) {
        Ok(dst) => dst,
        Err(e) => { return Err(e); },
    };
    let init = if params.init {
        match init_data.make_state_init(code) {
            Ok(state) => Some(state),
            Err(e) => { return Err(e); },
        }
    } else {
        None
    };
    let gifts = [
        Gift {
            flags: gift_flags(params.destroy),
            bounce: false,
            destination: params.to,
            amount: 0,
        },
    ];
    proof {
        assert(gifts_view(gifts@) =~= seq![collecting_gift(params.to@, params.destroy)]);
    }
    let body = match make_gift_message_at(
        &init_data,
        &params.key,
        now,
        params.seqno,
        params.ttl,
        gifts.as_slice(),
    ) {
        Ok(body) => body,
        Err(e) => { return Err(e); },
    };
    Ok(Message { dst, init, body })
}

/// Builds the message that `params` ask for, as a message made now. `code`
/// is the code of the wallet contract. A wallet without an address is
/// refused before the clock's reading is.
pub fn create_message(params: CollectorMessageParams, code: &Cell) -> (r: Result<
    Message,
    CollectorError,
>)
    ensures
        clock_refused(r) || exists|now: u32|
            match #[trigger] collector_message(params, code@, now) {
                Ok(message) => r is Ok && r->Ok_0@ == message,
                Err(e) => r is Err && r->Err_0 == e,
            },
        r matches Ok(message) ==> {
            &&& wallet_address(params.key.public@, params.id, code@) == Ok::<
                AddressView,
                CollectorError,
            >(message@.dst)
            &&& message.init is Some == params.init
            &&& signed_over_rest(params.key, message@.body)
            &&& message@.body.bits.len() == COLLECTING_BODY_BITS
        },
        r matches Err(CollectorError::DepthExceeded) <==> cell_depth(code@) >= MAX_DEPTH,
{
    proof {
        lemma_collector_message(params, code@, 0);
    }
    let made = match now() {
        Ok(made) => made,
        Err(e) => {
            return match compute_deposit_address(params.key, params.id, code) {
                Ok(_) => Err(e),
                Err(unaddressed) => {
                    proof {
                        assert(collector_message(params, code@, 0) == Err::<
                            MessageView,
                            CollectorError,
                        >(unaddressed));
                    }
                    Err(unaddressed)
                },
            };
        },
    };
    let r = create_message_at(params, code, made);
    proof {
        lemma_collector_message(params, code@, made);
        let outcome = collector_message(params, code@, made);
        assert(match outcome {
            Ok(message) => r is Ok && r->Ok_0@ == message,
            Err(e) => r is Err && r->Err_0 == e,
        });
    }
    r
}

/// The address of the wallet of `key` and `id`. `code` is the code of the
/// wallet contract.
pub fn compute_deposit_address(key: KeyPair, id: u32, code: &Cell) -> (r: Result<
    Address,
    CollectorError,
>)
    ensures
        match wallet_address(key.public@, id, code@) {
            Ok(address) => r is Ok && r->Ok_0@ == address,
            Err(e) => r == Err::<Address, CollectorError>(e),
        },
{
    InitData::from_key(&key).with_wallet_id(id).compute_addr(code)
}

} // verus!
