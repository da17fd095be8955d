//! The wallet's persistent data, its deployable state and its address.

use crate::bits::{
    bits_bytes, bits_value, bytes_bits, lemma_bits_bytes_len, lemma_bits_bytes_of_bytes,
    lemma_bits_value_bound, lemma_bits_value_of_uint, lemma_bytes_bits_len, lemma_uint_bits_len,
    uint_bits,
};
use crate::cell::{cell_depth, cell_hash, Builder, Cell, CellView, Slice, MAX_DEPTH};
use crate::error::CollectorError;
use crate::keys::KeyPair;
use crate::layout::{Address, AddressView};
use vstd::arithmetic::power2::lemma2_to64;
use vstd::prelude::*;

verus! {

/// The number of bits of a wallet's data: two numbers of 32 bits and a key
/// of 256.
pub const INIT_DATA_BITS: usize = 320;

/// The chain on which wallets are deployed.
pub const WALLET_WORKCHAIN: i8 = 0;

/// The data that the wallet contract keeps.
#[derive(Clone, Copy, Debug)]
pub struct InitData {
    pub seqno: u32,
    pub wallet_id: u32,
    pub public_key: [u8; 32],
}

/// What the wallet's data is.
pub struct InitDataView {
    pub seqno: u32,
    pub wallet_id: u32,
    pub public_key: Seq<u8>,
}

impl View for InitData {
    type V = InitDataView;

    open spec fn view(&self) -> InitDataView {
        InitDataView {
            seqno: self.seqno,
            wallet_id: self.wallet_id,
            public_key: self.public_key@,
        }
    }
}

impl InitDataView {
    /// The cell that holds the data: the sequence number, the wallet id and
    /// the public key, in this order, and no reference.
    pub open spec fn cell(self) -> CellView {
        CellView {
            bits: uint_bits(self.seqno as nat, 32) + uint_bits(self.wallet_id as nat, 32)
                + bytes_bits(self.public_key),
            refs: Seq::empty(),
        }
    }

    /// The data that a cell holds in its first 320 bits; what follows them is
    /// not looked at.
    pub open spec fn parse(cell: CellView) -> Result<InitDataView, CollectorError> {
        if cell.bits.len() < INIT_DATA_BITS {
            Err(CollectorError::UnexpectedEnd)
        } else {
            Ok(
                InitDataView {
                    seqno: bits_value(cell.bits.subrange(0, 32)) as u32,
                    wallet_id: bits_value(cell.bits.subrange(32, 64)) as u32,
                    public_key: bits_bytes(cell.bits.subrange(64, 320)),
                },
            )
        }
    }
}

/// The contract as it is deployed: its code and its first data.
pub struct StateInit {
    pub code: Cell,
    pub data: Cell,
}

/// What a deployable state is.
pub struct StateInitView {
    pub code: CellView,
    pub data: CellView,
}

impl View for StateInit {
    type V = StateInitView;

    open spec fn view(&self) -> StateInitView {
        StateInitView { code: self.code@, data: self.data@ }
    }
}

/// The bits of a deployable state with code and data and nothing else: no
/// split depth, no special flags, code present, data present, no libraries.
pub open spec fn state_init_bits() -> Seq<bool> {
    seq![false, false, true, true, false]
}

impl StateInitView {
    /// The cell of a deployable state, with the code and the data as its two
    /// references; refused where one of them is too deep to be referenced.
    pub open spec fn cell(self) -> Result<CellView, CollectorError> {
        if cell_depth(self.code) >= MAX_DEPTH || cell_depth(self.data) >= MAX_DEPTH {
            Err(CollectorError::DepthExceeded)
        } else {
            Ok(CellView { bits: state_init_bits(), refs: seq![self.code, self.data] })
        }
    }

    /// The address of the account that is deployed with this state.
    pub open spec fn address(self) -> Result<AddressView, CollectorError> {
        match self.cell() {
            Ok(cell) => Ok(
                AddressView { workchain_id: WALLET_WORKCHAIN, address: cell_hash(cell) },
            ),
            Err(e) => Err(e),
        }
    }
}

/// The state with which a wallet of `public_key` and `wallet_id` is deployed.
pub open spec fn wallet_state(public_key: Seq<u8>, wallet_id: u32, code: CellView) -> StateInitView {
    StateInitView { code, data: InitDataView { seqno: 0, wallet_id, public_key }.cell() }
}

/// The address of the wallet of `public_key` and `wallet_id`.
pub open spec fn wallet_address(public_key: Seq<u8>, wallet_id: u32, code: CellView) -> Result<
    AddressView,
    CollectorError,
> {
    wallet_state(public_key, wallet_id, code).address()
}

/// The cell of a wallet's data has 320 bits.
pub proof fn lemma_init_data_len(data: InitDataView)
    requires
        data.public_key.len() == 32,
    ensures
        data.cell().bits.len() == INIT_DATA_BITS,
{
    lemma_uint_bits_len(data.seqno as nat, 32);
    lemma_uint_bits_len(data.wallet_id as nat, 32);
    lemma_bytes_bits_len(data.public_key);
}

/// Reading the cell that was written for a wallet's data gives the data back.
pub proof fn lemma_init_data_round_trip(data: InitDataView)
    requires
        data.public_key.len() == 32,
    ensures
        InitDataView::parse(data.cell()) == Ok::<InitDataView, CollectorError>(data),
{
    let bits = data.cell().bits;
    lemma_init_data_len(data);
    lemma_uint_bits_len(data.seqno as nat, 32);
    lemma_uint_bits_len(data.wallet_id as nat, 32);
    lemma_bytes_bits_len(data.public_key);
    assert(bits.subrange(0, 32) =~= uint_bits(data.seqno as nat, 32));
    assert(bits.subrange(32, 64) =~= uint_bits(data.wallet_id as nat, 32));
    assert(bits.subrange(64, 320) =~= bytes_bits(data.public_key));
    lemma2_to64();
    lemma_bits_value_of_uint(data.seqno as nat, 32);
    lemma_bits_value_of_uint(data.wallet_id as nat, 32);
    lemma_bits_bytes_of_bytes(data.public_key);
}

/// The address of a wallet is settled by its public key, its wallet id and
/// the code of the contract: the secret key and the sequence number that the
/// wallet has reached play no part in it.
pub proof fn lemma_address_of_key_and_id(a: KeyPair, b: KeyPair, wallet_id: u32, code: CellView)
    requires
        a.public@ == b.public@,
    ensures
        wallet_address(a.public@, wallet_id, code) == wallet_address(b.public@, wallet_id, code),
        wallet_state(a.public@, wallet_id, code).data == (InitDataView {
            seqno: 0,
            wallet_id,
            public_key: b.public@,
        }).cell(),
{
}

/// Wallets of one key with different wallet ids keep different data, and the
/// representations of their data cells, which are what is hashed, differ.
pub proof fn lemma_wallet_ids_apart(public_key: Seq<u8>, first: u32, second: u32, code: CellView)
    requires
        public_key.len() == 32,
        first != second,
    ensures
        wallet_state(public_key, first, code).data != wallet_state(public_key, second, code).data,
        crate::cell::cell_repr(wallet_state(public_key, first, code).data)
            != crate::cell::cell_repr(wallet_state(public_key, second, code).data),
{
    let a = InitDataView { seqno: 0, wallet_id: first, public_key };
    let b = InitDataView { seqno: 0, wallet_id: second, public_key };
    lemma_init_data_round_trip(a);
    lemma_init_data_round_trip(b);
    lemma_init_data_len(a);
    lemma_init_data_len(b);
    assert(a.cell().bits != b.cell().bits);
    let ra = crate::cell::cell_repr(a.cell());
    let rb = crate::cell::cell_repr(b.cell());
    let da = bits_bytes(a.cell().bits);
    let db = bits_bytes(b.cell().bits);
    crate::bits::lemma_bytes_bits_of_bits(a.cell().bits);
    crate::bits::lemma_bytes_bits_of_bits(b.cell().bits);
    assert(da != db);
    lemma_bits_bytes_len(a.cell().bits);
    lemma_bits_bytes_len(b.cell().bits);
    assert(crate::cell::refs_depth_bytes(a.cell().refs) =~= Seq::<u8>::empty());
    assert(crate::cell::refs_hashes(a.cell().refs) =~= Seq::<u8>::empty());
    assert(ra.subrange(2, 42) =~= da);
    assert(rb.subrange(2, 42) =~= db);
}

impl StateInit {
    /// Writes the state into its cell.
    pub fn serialize(&self) -> (r: Result<Cell, CollectorError>)
        ensures
            match self@.cell() {
                Ok(cell) => r is Ok && r->Ok_0@ == cell,
                Err(e) => r == Err::<Cell, CollectorError>(e),
            },
    {
        if self.code.depth() >= MAX_DEPTH || self.data.depth() >= MAX_DEPTH {
            return Err(CollectorError::DepthExceeded);
        }
        let mut builder = Builder::new();
        let bits = [false, false, true, true, false];
        let _ = builder.append_bits(bits.as_slice());
        let _ = builder.append_reference(self.code.clone());
        let _ = builder.append_reference(self.data.clone());
        proof {
            assert(bits@ =~= state_init_bits());
            assert(builder@.bits =~= state_init_bits());
            assert(builder@.refs =~= seq![self.code@, self.data@]);
        }
        Ok(builder.finalize())
    }
}

impl InitData {
    /// The data of a wallet that has sent nothing yet, with wallet id 0.
    pub fn from_key(key: &KeyPair) -> (data: InitData)
        ensures
            data@ == (InitDataView { seqno: 0, wallet_id: 0, public_key: key.public@ }),
    {
        InitData { seqno: 0, wallet_id: 0, public_key: key.public }
    }

    /// The same data with another wallet id.
    pub fn with_wallet_id(self, id: u32) -> (data: InitData)
        ensures
            data@ == (InitDataView { wallet_id: id, ..self@ }),
    {
        InitData { seqno: self.seqno, wallet_id: id, public_key: self.public_key }
    }

    /// The address of the wallet that is deployed with this data and `code`.
    pub fn compute_addr(&self, code: &Cell) -> (r: Result<Address, CollectorError>)
        ensures
            match (StateInitView { code: code@, data: self@.cell() }).address() {
                Ok(address) => r is Ok && r->Ok_0@ == address,
                Err(e) => r == Err::<Address, CollectorError>(e),
            },
    {
        let state = match self.make_state_init(code) {
            Ok(state) => state,
            Err(e) => { return Err(e); },
        };
        match state.serialize() {
            Ok(cell) => Ok(Address { workchain_id: WALLET_WORKCHAIN, address: cell.repr_hash() }),
            Err(e) => Err(e),
        }
    }

    /// The state with which the wallet is deployed: `code` and this data.
    pub fn make_state_init(&self, code: &Cell) -> (r: Result<StateInit, CollectorError>)
        ensures
            r is Ok,
            r->Ok_0@ == (StateInitView { code: code@, data: self@.cell() }),
    {
        match self.serialize() {
            Ok(data) => Ok(StateInit { code: code.clone(), data }),
            Err(e) => Err(e),
        }
    }

    /// Reads the data from the first 320 bits of a cell.
    pub fn deserialize(data: Cell) -> (r: Result<InitData, CollectorError>)
        ensures
            match InitDataView::parse(data@) {
                Ok(view) => r is Ok && r->Ok_0@ == view,
                Err(e) => r == Err::<InitData, CollectorError>(e),
            },
    {
        let mut slice = Slice::new(data);
        if slice.remaining_bits() < INIT_DATA_BITS {
            return Err(CollectorError::UnexpectedEnd);
        }
        proof {
            lemma_bits_value_bound(data@.bits.subrange(0, 32));
            lemma_bits_value_bound(data@.bits.subrange(32, 64));
            lemma_bits_bytes_len(data@.bits.subrange(64, 320));
            lemma2_to64();
            assert(data@.bits.take(32) =~= data@.bits.subrange(0, 32));
            assert(data@.bits.skip(32).take(32) =~= data@.bits.subrange(32, 64));
            assert(data@.bits.skip(32).skip(32).take(256) =~= data@.bits.subrange(64, 320));
        }
        let seqno = match slice.read_uint(32) {
            Ok(value) => value as u32,
            Err(e) => { return Err(e); },
        };
        let wallet_id = match slice.read_uint(32) {
            Ok(value) => value as u32,
            Err(e) => { return Err(e); },
        };
        let bytes = match slice.read_raw(32) {
            Ok(bytes) => bytes,
            Err(e) => { return Err(e); },
        };
        let mut public_key = [0u8; 32];
        let mut i: usize = 0;
        while i < 32
            invariant
                i <= 32,
                bytes.len() == 32,
                forall|j: int| 0 <= j < i ==> public_key@[j] == bytes@[j],
            decreases 32 - i,
        {
            public_key[i] = bytes[i];
            i += 1;
        }
        assert(public_key@ =~= bytes@);
        Ok(InitData { seqno, wallet_id, public_key })
    }

    /// Writes the data into its cell.
    pub fn serialize(&self) -> (r: Result<Cell, CollectorError>)
        ensures
            r is Ok,
            r->Ok_0@ == self@.cell(),
    {
        proof {
            lemma_uint_bits_len(self.seqno as nat, 32);
            lemma_uint_bits_len(self.wallet_id as nat, 32);
            lemma_bytes_bits_len(self.public_key@);
            lemma2_to64();
        }
        // The three fields take 320 bits, so each has room.
        let mut data = Builder::new();
        let _ = data.append_uint(self.seqno as u64, 32);
        let _ = data.append_uint(self.wallet_id as u64, 32);
        let _ = data.append_raw(self.public_key.as_slice(), 256);
        proof {
            assert(bytes_bits(self.public_key@).take(256) =~= bytes_bits(self.public_key@));
            assert(data@.bits =~= self@.cell().bits);
        }
        Ok(data.finalize())
    }
}

} // verus!
