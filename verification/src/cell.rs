//! Cells: bit strings of bounded length with up to four child cells, addressed
//! by the digest of their canonical representation.

use crate::bits::{
    bits_bytes, bits_value, bytes_bits, extend_bytes, fits, leading_bits, pack_padded,
    padded_bits, push_uint, uint_bits,
};
use crate::digest::{sha256, sha256_digest};
use crate::error::CollectorError;
use vstd::arithmetic::power2::pow2;
use vstd::prelude::*;

verus! {

/// The most bits that one cell holds.
pub const MAX_BITS: usize = 1023;

/// The most references that one cell holds.
pub const MAX_REFS: usize = 4;

/// The deepest tree of cells that the ledger accepts.
pub const MAX_DEPTH: u16 = 1024;

/// What a cell is: its bits and its children, in order.
pub struct CellView {
    pub bits: Seq<bool>,
    pub refs: Seq<CellView>,
}

impl CellView {
    /// The cell without bits or references.
    pub open spec fn empty() -> CellView {
        CellView { bits: Seq::empty(), refs: Seq::empty() }
    }

    /// The cell with `bits` after its own, where the cell has room for them.
    pub open spec fn append_bits(self, bits: Seq<bool>) -> Result<CellView, CollectorError> {
        if self.bits.len() + bits.len() > MAX_BITS {
            Err(CollectorError::CapacityExceeded)
        } else {
            Ok(CellView { bits: self.bits + bits, refs: self.refs })
        }
    }

    /// The cell with `bits` before its own, where the cell has room for them.
    pub open spec fn prepend_bits(self, bits: Seq<bool>) -> Result<CellView, CollectorError> {
        if self.bits.len() + bits.len() > MAX_BITS {
            Err(CollectorError::CapacityExceeded)
        } else {
            Ok(CellView { bits: bits + self.bits, refs: self.refs })
        }
    }

    /// The cell with `value` appended in `width` bits: refused where the cell
    /// lacks the room, and else where `value` needs more than `width` bits.
    pub open spec fn append_uint(self, value: nat, width: nat) -> Result<CellView, CollectorError> {
        if self.bits.len() + width > MAX_BITS {
            Err(CollectorError::CapacityExceeded)
        } else if value >= pow2(width) {
            Err(CollectorError::ValueTooWide)
        } else {
            Ok(CellView { bits: self.bits + uint_bits(value, width), refs: self.refs })
        }
    }

    /// The first `width` bits of `bytes`: refused where the cell has no room
    /// for as many, and else where `bytes` holds fewer.
    pub open spec fn raw_bits(self, bytes: Seq<u8>, width: nat) -> Result<
        Seq<bool>,
        CollectorError,
    > {
        if self.bits.len() + width > MAX_BITS {
            Err(CollectorError::CapacityExceeded)
        } else if width > 8 * bytes.len() {
            Err(CollectorError::UnexpectedEnd)
        } else {
            Ok(bytes_bits(bytes).take(width as int))
        }
    }

    /// The cell with the first `width` bits of `bytes` after its own.
    pub open spec fn append_raw(self, bytes: Seq<u8>, width: nat) -> Result<
        CellView,
        CollectorError,
    > {
        match self.raw_bits(bytes, width) {
            Ok(bits) => Ok(CellView { bits: self.bits + bits, refs: self.refs }),
            Err(e) => Err(e),
        }
    }

    /// The cell with the first `width` bits of `bytes` before its own.
    pub open spec fn prepend_raw(self, bytes: Seq<u8>, width: nat) -> Result<
        CellView,
        CollectorError,
    > {
        match self.raw_bits(bytes, width) {
            Ok(bits) => Ok(CellView { bits: bits + self.bits, refs: self.refs }),
            Err(e) => Err(e),
        }
    }

    /// The cell with one more reference, `child`: refused where the cell has
    /// four already, and else where `child` is as deep as a cell may be.
    pub open spec fn append_reference(self, child: CellView) -> Result<CellView, CollectorError> {
        if self.refs.len() >= MAX_REFS {
            Err(CollectorError::TooManyReferences)
        } else if cell_depth(child) >= MAX_DEPTH {
            Err(CollectorError::DepthExceeded)
        } else {
            Ok(CellView { bits: self.bits, refs: self.refs.push(child) })
        }
    }

    /// The cell with the bits and the references of `other` after its own:
    /// refused where the bits do not fit, and else where the references do not.
    pub open spec fn append_cell(self, other: CellView) -> Result<CellView, CollectorError> {
        if self.bits.len() + other.bits.len() > MAX_BITS {
            Err(CollectorError::CapacityExceeded)
        } else if self.refs.len() + other.refs.len() > MAX_REFS {
            Err(CollectorError::TooManyReferences)
        } else {
            Ok(CellView { bits: self.bits + other.bits, refs: self.refs + other.refs })
        }
    }

    /// What is left after the first `width` bits.
    pub open spec fn skip_bits(self, width: nat) -> CellView {
        CellView { bits: self.bits.skip(width as int), refs: self.refs }
    }

    /// The number that the first `width` bits spell: refused where fewer bits
    /// are left, and else where the number is too large for 64 bits.
    pub open spec fn read_uint(self, width: nat) -> Result<nat, CollectorError> {
        if width > self.bits.len() {
            Err(CollectorError::UnexpectedEnd)
        } else if bits_value(self.bits.take(width as int)) > u64::MAX {
            Err(CollectorError::ValueTooWide)
        } else {
            Ok(bits_value(self.bits.take(width as int)))
        }
    }

    /// The first `count` bytes: refused where fewer bits are left.
    pub open spec fn read_raw(self, count: nat) -> Result<Seq<u8>, CollectorError> {
        if 8 * count > self.bits.len() {
            Err(CollectorError::UnexpectedEnd)
        } else {
            Ok(bits_bytes(self.bits.take(8 * count as int)))
        }
    }
}

/// The length of the longest chain of references below a cell.
pub open spec fn cell_depth(cell: CellView) -> nat
    decreases cell, 1nat,
{
    if cell.refs.len() == 0 {
        0
    } else {
        1 + refs_depth(cell.refs)
    }
}

/// The greatest depth among `refs`.
pub open spec fn refs_depth(refs: Seq<CellView>) -> nat
    decreases refs, 0nat,
{
    if refs.len() == 0 {
        0
    } else {
        let rest = refs_depth(refs.drop_last());
        let last = cell_depth(refs.last());
        if last > rest { last } else { rest }
    }
}

/// None of `refs` is deeper than the deepest of them.
pub proof fn lemma_refs_depth(refs: Seq<CellView>, i: int)
    requires
        0 <= i < refs.len(),
    ensures
        cell_depth(refs[i]) <= refs_depth(refs),
    decreases refs.len(),
{
    if i < refs.len() - 1 {
        lemma_refs_depth(refs.drop_last(), i);
    }
}

/// The depths of `refs`, two bytes each, high byte first.
pub open spec fn refs_depth_bytes(refs: Seq<CellView>) -> Seq<u8>
    decreases refs.len(),
{
    if refs.len() == 0 {
        Seq::empty()
    } else {
        let depth = cell_depth(refs.last());
        refs_depth_bytes(refs.drop_last()).push((depth / 256) as u8).push((depth % 256) as u8)
    }
}

/// The two descriptor bytes of a cell: its number of references, and the
/// number of its whole bytes plus the number of its bytes begun.
pub open spec fn descriptors(cell: CellView) -> Seq<u8> {
    seq![cell.refs.len() as u8, (cell.bits.len() / 8 + (cell.bits.len() + 7) / 8) as u8]
}

/// The canonical representation of a cell: descriptors, padded bits, then the
/// depths and the digests of its children.
pub open spec fn cell_repr(cell: CellView) -> Seq<u8>
    decreases cell, 1nat,
{
    descriptors(cell) + bits_bytes(padded_bits(cell.bits)) + refs_depth_bytes(cell.refs)
        + refs_hashes(cell.refs)
}

/// The digests of `refs`, one after the other.
pub open spec fn refs_hashes(refs: Seq<CellView>) -> Seq<u8>
    decreases refs, 0nat,
{
    if refs.len() == 0 {
        Seq::empty()
    } else {
        refs_hashes(refs.drop_last()) + cell_hash(refs.last())
    }
}

/// The digest that addresses a cell.
pub open spec fn cell_hash(cell: CellView) -> Seq<u8>
    decreases cell, 2nat,
{
    sha256_digest(cell_repr(cell))
}

/// Children enter the representation of their parent by their depths and
/// their digests alone.
pub proof fn lemma_refs_by_digest(a: Seq<CellView>, b: Seq<CellView>)
    requires
        a.len() == b.len(),
        forall|i: int|
            0 <= i < a.len() ==> cell_depth(#[trigger] a[i]) == cell_depth(b[i]) && cell_hash(
                a[i],
            ) == cell_hash(b[i]),
    ensures
        refs_depth(a) == refs_depth(b),
        refs_depth_bytes(a) == refs_depth_bytes(b),
        refs_hashes(a) == refs_hashes(b),
    decreases a.len(),
{
    if a.len() > 0 {
        assert(cell_depth(a[a.len() - 1]) == cell_depth(b[a.len() - 1]));
        assert forall|i: int| 0 <= i < a.drop_last().len() implies cell_depth(
            #[trigger] a.drop_last()[i],
        ) == cell_depth(b.drop_last()[i]) && cell_hash(a.drop_last()[i]) == cell_hash(
            b.drop_last()[i],
        ) by {
            assert(a.drop_last()[i] == a[i]);
        }
        lemma_refs_by_digest(a.drop_last(), b.drop_last());
    }
}

/// Two cells with the same bits, whose children agree one by one in depth
/// and digest, have the same depth and the same digest.
pub proof fn lemma_hash_by_content(a: CellView, b: CellView)
    requires
        a.bits == b.bits,
        a.refs.len() == b.refs.len(),
        forall|i: int|
            0 <= i < a.refs.len() ==> cell_depth(#[trigger] a.refs[i]) == cell_depth(b.refs[i])
                && cell_hash(a.refs[i]) == cell_hash(b.refs[i]),
    ensures
        cell_depth(a) == cell_depth(b),
        cell_repr(a) == cell_repr(b),
        cell_hash(a) == cell_hash(b),
{
    lemma_refs_by_digest(a.refs, b.refs);
}

/// An immutable cell. It keeps its digest and its depth, which are fixed when
/// it is made.
pub struct Cell {
    bits: Vec<bool>,
    refs: Vec<Cell>,
    hash: [u8; 32],
    depth: u16,
}

impl View for Cell {
    type V = CellView;

    closed spec fn view(&self) -> CellView
        decreases self,
    {
        CellView {
            bits: self.bits@,
            refs: Seq::new(
                self.refs.len() as nat,
                |i: int|
                    if 0 <= i < self.refs.len() {
                        self.refs[i].view()
                    } else {
                        CellView { bits: Seq::empty(), refs: Seq::empty() }
                    },
            ),
        }
    }
}

impl Cell {
    #[verifier::type_invariant]
    spec fn inv(self) -> bool {
        &&& self.bits@.len() <= MAX_BITS
        &&& self.refs@.len() <= MAX_REFS
        &&& cell_depth(self@) <= MAX_DEPTH
        &&& self.depth == cell_depth(self@)
        &&& self.hash@ == cell_hash(self@)
    }

    /// The number of bits in the cell.
    pub fn bit_len(&self) -> (n: usize)
        ensures
            n == self@.bits.len(),
            n <= MAX_BITS,
    {
        proof {
            use_type_invariant(self);
        }
        self.bits.len()
    }

    /// The length of the longest chain of references below the cell.
    pub fn depth(&self) -> (d: u16)
        ensures
            d == cell_depth(self@),
            d <= MAX_DEPTH,
    {
        proof {
            use_type_invariant(self);
        }
        self.depth
    }

    /// The number of references in the cell.
    pub fn references_count(&self) -> (n: usize)
        ensures
            n == self@.refs.len(),
            n <= MAX_REFS,
    {
        proof {
            use_type_invariant(self);
        }
        self.refs.len()
    }

    /// The bits of the cell.
    pub fn bits(&self) -> (bits: Vec<bool>)
        ensures
            bits@ == self@.bits,
    {
        let bits = self.bits.clone();
        assert(bits@ =~= self.bits@);
        bits
    }

    /// The bits of the cell packed into bytes, an incomplete last byte being
    /// closed by a one and filled with zeros.
    pub fn data(&self) -> (bytes: Vec<u8>)
        ensures
            bytes@ == bits_bytes(padded_bits(self@.bits)),
    {
        pack_padded(&self.bits)
    }

    /// The child at `index`, if the cell has as many.
    pub fn reference(&self, index: usize) -> (child: Option<&Cell>)
        ensures
            match child {
                Some(cell) => index < self@.refs.len() && cell@ == self@.refs[index as int],
                None => index >= self@.refs.len(),
            },
    {
        if index < self.refs.len() {
            Some(&self.refs[index])
        } else {
            None
        }
    }

    /// The digest that addresses the cell.
    pub fn repr_hash(&self) -> (h: [u8; 32])
        ensures
            h@ == cell_hash(self@),
    {
        proof {
            use_type_invariant(self);
        }
        self.hash
    }
}

impl Clone for Cell {
    fn clone(&self) -> (copy: Cell)
        ensures
            copy@ == self@,
        decreases self,
    {
        proof {
            use_type_invariant(self);
        }
        let mut refs: Vec<Cell> = Vec::new();
        let mut i: usize = 0;
        while i < self.refs.len()
            invariant
                i <= self.refs.len(),
                refs.len() == i,
                forall|j: int| 0 <= j < i ==> (#[trigger] refs[j])@ == self.refs[j]@,
            decreases self.refs.len() - i,
        {
            let child = self.refs[i].clone();
            refs.push(child);
            i += 1;
        }
        let bits = self.bits.clone();
        proof {
            let copy = Cell { bits, refs, hash: self.hash, depth: self.depth };
            assert(copy.bits@ =~= self.bits@);
            assert(copy@.refs =~= self@.refs);
        }
        Cell { bits, refs, hash: self.hash, depth: self.depth }
    }
}

/// The views of some cells, in order.
pub open spec fn cells_view(cells: Seq<Cell>) -> Seq<CellView> {
    Seq::new(cells.len(), |i: int| cells[i]@)
}

/// A cell in the making: bits and references are added until it is finalized.
pub struct Builder {
    bits: Vec<bool>,
    refs: Vec<Cell>,
}

impl View for Builder {
    type V = CellView;

    closed spec fn view(&self) -> CellView {
        CellView { bits: self.bits@, refs: cells_view(self.refs@) }
    }
}

impl Clone for Builder {
    fn clone(&self) -> (copy: Builder)
        ensures
            copy@ == self@,
    {
        proof {
            use_type_invariant(self);
        }
        let mut refs: Vec<Cell> = Vec::new();
        let mut i: usize = 0;
        while i < self.refs.len()
            invariant
                i <= self.refs.len(),
                refs.len() == i,
                forall|j: int| 0 <= j < i ==> (#[trigger] refs[j])@ == self.refs[j]@,
            decreases self.refs.len() - i,
        {
            let child = self.refs[i].clone();
            refs.push(child);
            i += 1;
        }
        let bits = self.bits.clone();
        proof {
            let copy = Builder { bits, refs };
            assert(copy.bits@ =~= self.bits@);
            assert(copy@.refs =~= self@.refs);
        }
        Builder { bits, refs }
    }
}

impl Builder {
    #[verifier::type_invariant]
    spec fn inv(self) -> bool {
        &&& self.bits@.len() <= MAX_BITS
        &&& self.refs@.len() <= MAX_REFS
        &&& forall|i: int|
            0 <= i < self.refs@.len() ==> cell_depth(#[trigger] self.refs@[i]@) < MAX_DEPTH
    }

    /// A builder that holds nothing yet.
    pub fn new() -> (builder: Builder)
        ensures
            builder@ == CellView::empty(),
    {
        let builder = Builder { bits: Vec::new(), refs: Vec::new() };
        assert(builder@.refs =~= Seq::empty());
        builder
    }

    /// The number of bits added so far.
    pub fn bit_len(&self) -> (n: usize)
        ensures
            n == self@.bits.len(),
            n <= MAX_BITS,
    {
        proof {
            use_type_invariant(self);
        }
        self.bits.len()
    }

    /// The number of references added so far.
    pub fn references_count(&self) -> (n: usize)
        ensures
            n == self@.refs.len(),
            n <= MAX_REFS,
    {
        proof {
            use_type_invariant(self);
        }
        self.refs.len()
    }

    /// Adds `cell` as the next reference.
    pub fn append_reference(&mut self, cell: Cell) -> (r: Result<(), CollectorError>)
        ensures
            match old(self)@.append_reference(cell@) {
                Ok(after) => r is Ok && final(self)@ == after,
                Err(e) => r == Err::<(), CollectorError>(e) && final(self)@ == old(self)@,
            },
    {
        proof {
            use_type_invariant(&*self);
        }
        if self.refs.len() >= MAX_REFS {
            return Err(CollectorError::TooManyReferences);
        }
        if cell.depth() >= MAX_DEPTH {
            return Err(CollectorError::DepthExceeded);
        }
        let mut refs = self.take_refs();
        refs.push(cell);
        self.refs = refs;
        assert(self@.refs =~= old(self)@.refs.push(cell@));
        Ok(())
    }

    /// Adds `bits` after those that the builder holds.
    pub fn append_bits(&mut self, bits: &[bool]) -> (r: Result<(), CollectorError>)
        ensures
            match old(self)@.append_bits(bits@) {
                Ok(after) => r is Ok && final(self)@ == after,
                Err(e) => r == Err::<(), CollectorError>(e) && final(self)@ == old(self)@,
            },
    {
        proof {
            use_type_invariant(&*self);
        }
        if bits.len() > MAX_BITS - self.bits.len() {
            return Err(CollectorError::CapacityExceeded);
        }
        let mut own = self.take_bits();
        let mut i: usize = 0;
        while i < bits.len()
            invariant
                i <= bits@.len(),
                own@ == old(self).bits@ + bits@.take(i as int),
            decreases bits@.len() - i,
        {
            own.push(bits[i]);
            assert(own@ =~= old(self).bits@ + bits@.take(i + 1));
            i += 1;
        }
        assert(bits@.take(i as int) =~= bits@);
        self.bits = own;
        Ok(())
    }

    /// Adds `bits` before those that the builder holds.
    pub fn prepend_bits(&mut self, bits: &[bool]) -> (r: Result<(), CollectorError>)
        ensures
            match old(self)@.prepend_bits(bits@) {
                Ok(after) => r is Ok && final(self)@ == after,
                Err(e) => r == Err::<(), CollectorError>(e) && final(self)@ == old(self)@,
            },
    {
        proof {
            use_type_invariant(&*self);
        }
        if bits.len() > MAX_BITS - self.bits.len() {
            return Err(CollectorError::CapacityExceeded);
        }
        let own = self.take_bits();
        let mut joined: Vec<bool> = Vec::new();
        let mut i: usize = 0;
        while i < bits.len()
            invariant
                i <= bits@.len(),
                joined@ == bits@.take(i as int),
            decreases bits@.len() - i,
        {
            joined.push(bits[i]);
            assert(joined@ =~= bits@.take(i + 1));
            i += 1;
        }
        assert(bits@.take(i as int) =~= bits@);
        let mut j: usize = 0;
        while j < own.len()
            invariant
                j <= own.len(),
                joined@ == bits@ + own@.take(j as int),
            decreases own.len() - j,
        {
            joined.push(own[j]);
            assert(joined@ =~= bits@ + own@.take(j + 1));
            j += 1;
        }
        assert(own@.take(j as int) =~= own@);
        self.bits = joined;
        Ok(())
    }

    /// Adds one bit.
    pub fn append_bit(&mut self, bit: bool) -> (r: Result<(), CollectorError>)
        ensures
            match old(self)@.append_bits(seq![bit]) {
                Ok(after) => r is Ok && final(self)@ == after,
                Err(e) => r == Err::<(), CollectorError>(e) && final(self)@ == old(self)@,
            },
    {
        proof {
            use_type_invariant(&*self);
        }
        if self.bits.len() >= MAX_BITS {
            return Err(CollectorError::CapacityExceeded);
        }
        let mut own = self.take_bits();
        own.push(bit);
        assert(own@ =~= old(self).bits@ + seq![bit]);
        self.bits = own;
        Ok(())
    }

    /// Adds `value` as an unsigned number of `width` bits, most significant
    /// bit first.
    pub fn append_uint(&mut self, value: u64, width: usize) -> (r: Result<(), CollectorError>)
        ensures
            match old(self)@.append_uint(value as nat, width as nat) {
                Ok(after) => r is Ok && final(self)@ == after,
                Err(e) => r == Err::<(), CollectorError>(e) && final(self)@ == old(self)@,
            },
    {
        proof {
            use_type_invariant(&*self);
            crate::bits::lemma_uint_bits_len(value as nat, width as nat);
        }
        if width > MAX_BITS - self.bits.len() {
            return Err(CollectorError::CapacityExceeded);
        }
        if !fits(value, width) {
            return Err(CollectorError::ValueTooWide);
        }
        let mut own = self.take_bits();
        push_uint(&mut own, value, width);
        self.bits = own;
        Ok(())
    }

    /// Adds the first `width_bits` bits of `bytes`.
    pub fn append_raw(&mut self, bytes: &[u8], width_bits: usize) -> (r: Result<
        (),
        CollectorError,
    >)
        ensures
            match old(self)@.append_raw(bytes@, width_bits as nat) {
                Ok(after) => r is Ok && final(self)@ == after,
                Err(e) => r == Err::<(), CollectorError>(e) && final(self)@ == old(self)@,
            },
    {
        proof {
            use_type_invariant(&*self);
        }
        if width_bits > MAX_BITS - self.bits.len() {
            return Err(CollectorError::CapacityExceeded);
        }
        if (width_bits + 7) / 8 > bytes.len() {
            return Err(CollectorError::UnexpectedEnd);
        }
        let bits = leading_bits(bytes, width_bits);
        proof {
            crate::bits::lemma_bytes_bits_len(bytes@);
        }
        self.append_bits(bits.as_slice())
    }

    /// Puts the first `width_bits` bits of `bytes` before the bits that the
    /// builder holds.
    pub fn prepend_raw(&mut self, bytes: &[u8], width_bits: usize) -> (r: Result<
        (),
        CollectorError,
    >)
        ensures
            match old(self)@.prepend_raw(bytes@, width_bits as nat) {
                Ok(after) => r is Ok && final(self)@ == after,
                Err(e) => r == Err::<(), CollectorError>(e) && final(self)@ == old(self)@,
            },
    {
        proof {
            use_type_invariant(&*self);
        }
        if width_bits > MAX_BITS - self.bits.len() {
            return Err(CollectorError::CapacityExceeded);
        }
        if (width_bits + 7) / 8 > bytes.len() {
            return Err(CollectorError::UnexpectedEnd);
        }
        let bits = leading_bits(bytes, width_bits);
        proof {
            crate::bits::lemma_bytes_bits_len(bytes@);
        }
        self.prepend_bits(bits.as_slice())
    }

    /// Adds the bits and the references of `cell`.
    pub fn append_cell(&mut self, cell: &Cell) -> (r: Result<(), CollectorError>)
        ensures
            match old(self)@.append_cell(cell@) {
                Ok(after) => r is Ok && final(self)@ == after,
                Err(e) => r == Err::<(), CollectorError>(e) && final(self)@ == old(self)@,
            },
    {
        proof {
            use_type_invariant(&*self);
            use_type_invariant(cell);
        }
        if cell.bits.len() > MAX_BITS - self.bits.len() {
            return Err(CollectorError::CapacityExceeded);
        }
        if cell.refs.len() > MAX_REFS - self.refs.len() {
            return Err(CollectorError::TooManyReferences);
        }
        let mut refs = self.take_refs();
        let mut i: usize = 0;
        while i < cell.refs.len()
            invariant
                i <= cell.refs.len(),
                refs@.len() == old(self).refs@.len() + i,
                cells_view(refs@) == cells_view(old(self).refs@) + cell@.refs.take(i as int),
                forall|j: int| 0 <= j < refs@.len() ==> cell_depth(#[trigger] refs@[j]@) < MAX_DEPTH,
                cell_depth(cell@) <= MAX_DEPTH,
            decreases cell.refs.len() - i,
        {
            let child = cell.refs[i].clone();
            proof {
                lemma_refs_depth(cell@.refs, i as int);
            }
            let ghost before = cells_view(refs@);
            refs.push(child);
            assert(cell@.refs[i as int] == cell.refs@[i as int]@);
            assert(cells_view(refs@) =~= before.push(child@));
            assert(cell@.refs.take(i + 1) =~= cell@.refs.take(i as int).push(child@));
            assert(cells_view(refs@) =~= cells_view(old(self).refs@) + cell@.refs.take(i + 1));
            i += 1;
        }
        assert(cell@.refs.take(i as int) =~= cell@.refs);
        self.refs = refs;
        self.append_bits(cell.bits.as_slice())
    }

    /// Closes the builder: the cell holds what was added, and its digest and
    /// depth are fixed.
    pub fn finalize(self) -> (cell: Cell)
        ensures
            cell@ == self@,
    {
        proof {
            use_type_invariant(&self);
        }
        let ghost kids = cells_view(self.refs@);
        let count: usize = self.refs.len();
        let len: usize = self.bits.len();
        let mut repr: Vec<u8> = Vec::new();
        repr.push(count as u8);
        repr.push((len / 8 + (len + 7) / 8) as u8);
        let data = pack_padded(&self.bits);
        extend_bytes(&mut repr, data.as_slice());
        let ghost head = repr@;
        assert(head =~= descriptors(self@) + bits_bytes(padded_bits(self@.bits)));
        let mut deepest: u16 = 0;
        let mut i: usize = 0;
        while i < count
            invariant
                i <= count == self.refs.len(),
                kids == cells_view(self.refs@),
                forall|j: int| 0 <= j < count ==> cell_depth(#[trigger] self.refs@[j]@) < MAX_DEPTH,
                deepest == refs_depth(kids.take(i as int)),
                deepest < MAX_DEPTH,
                repr@ == head + refs_depth_bytes(kids.take(i as int)),
            decreases count - i,
        {
            let depth: u16 = self.refs[i].depth();
            repr.push((depth / 256) as u8);
            repr.push((depth % 256) as u8);
            if depth > deepest {
                deepest = depth;
            }
            proof {
                assert(kids.take(i + 1).drop_last() =~= kids.take(i as int));
                assert(kids.take(i + 1).last() == self.refs@[i as int]@);
                assert(repr@ =~= head + refs_depth_bytes(kids.take(i + 1)));
            }
            i += 1;
        }
        assert(kids.take(count as int) =~= kids);
        let ghost middle = repr@;
        let mut k: usize = 0;
        while k < count
            invariant
                k <= count == self.refs.len(),
                kids == cells_view(self.refs@),
                repr@ == middle + refs_hashes(kids.take(k as int)),
            decreases count - k,
        {
            let digest: [u8; 32] = self.refs[k].repr_hash();
            extend_bytes(&mut repr, digest.as_slice());
            proof {
                assert(kids.take(k + 1).drop_last() =~= kids.take(k as int));
                assert(kids.take(k + 1).last() == self.refs@[k as int]@);
                assert(repr@ =~= middle + refs_hashes(kids.take(k + 1)));
            }
            k += 1;
        }
        let hash = sha256(repr.as_slice());
        let depth: u16 = if count == 0 { 0 } else { deepest + 1 };
        proof {
            assert(repr@ =~= cell_repr(self@));
            let cell = Cell { bits: self.bits, refs: self.refs, hash, depth };
            assert(cell@.refs =~= kids);
            assert(cell@ == self@);
        }
        Cell { bits: self.bits, refs: self.refs, hash, depth }
    }

    /// Moves the bits out, leaving none.
    fn take_bits(&mut self) -> (bits: Vec<bool>)
        ensures
            bits@ == old(self).bits@,
            final(self).bits@ == Seq::<bool>::empty(),
            final(self).refs == old(self).refs,
    {
        proof {
            use_type_invariant(&*self);
        }
        let mut bits: Vec<bool> = Vec::new();
        core::mem::swap(&mut self.bits, &mut bits);
        bits
    }

    /// Moves the references out, leaving none.
    fn take_refs(&mut self) -> (refs: Vec<Cell>)
        ensures
            refs == old(self).refs,
            final(self).refs@ == Seq::<Cell>::empty(),
            final(self).bits == old(self).bits,
    {
        proof {
            use_type_invariant(&*self);
        }
        let mut refs: Vec<Cell> = Vec::new();
        core::mem::swap(&mut self.refs, &mut refs);
        refs
    }
}

/// A cursor over a cell, which hands out its bits and its references in
/// order. Its view is what is left to read.
pub struct Slice {
    cell: Cell,
    bit_pos: usize,
    ref_pos: usize,
}

impl View for Slice {
    type V = CellView;

    closed spec fn view(&self) -> CellView {
        CellView {
            bits: self.cell@.bits.skip(self.bit_pos as int),
            refs: self.cell@.refs.skip(self.ref_pos as int),
        }
    }
}

impl Slice {
    #[verifier::type_invariant]
    spec fn inv(self) -> bool {
        &&& self.bit_pos <= self.cell@.bits.len()
        &&& self.ref_pos <= self.cell@.refs.len()
    }

    /// A cursor at the start of `cell`.
    pub fn new(cell: Cell) -> (slice: Slice)
        ensures
            slice@ == cell@,
    {
        let slice = Slice { cell, bit_pos: 0, ref_pos: 0 };
        assert(slice@.bits =~= cell@.bits);
        assert(slice@.refs =~= cell@.refs);
        slice
    }

    /// The number of bits left.
    pub fn remaining_bits(&self) -> (n: usize)
        ensures
            n == self@.bits.len(),
    {
        proof {
            use_type_invariant(self);
        }
        self.cell.bit_len() - self.bit_pos
    }

    /// The number of references left.
    pub fn remaining_references(&self) -> (n: usize)
        ensures
            n == self@.refs.len(),
    {
        proof {
            use_type_invariant(self);
        }
        self.cell.references_count() - self.ref_pos
    }

    /// Reads an unsigned number of `width` bits, most significant bit first.
    /// Nothing is consumed where the read is refused.
    pub fn read_uint(&mut self, width: usize) -> (r: Result<u64, CollectorError>)
        ensures
            match old(self)@.read_uint(width as nat) {
                Ok(value) => r == Ok::<u64, CollectorError>(value as u64) && final(self)@ == old(self)@.skip_bits(width as nat),
                Err(e) => r == Err::<u64, CollectorError>(e) && final(self)@ == old(self)@,
            },
    {
        proof {
            use_type_invariant(&*self);
            use_type_invariant(&self.cell);
        }
        if width > self.cell.bits.len() - self.bit_pos {
            return Err(CollectorError::UnexpectedEnd);
        }
        assert(self.cell@.bits.subrange(self.bit_pos as int, self.bit_pos + width) =~= self@.bits.take(
            width as int,
        ));
        match crate::bits::value_at(&self.cell.bits, self.bit_pos, width) {
            Some(value) => {
                self.bit_pos = self.bit_pos + width;
                assert(self@.bits =~= old(self)@.bits.skip(width as int));
                Ok(value)
            },
            None => Err(CollectorError::ValueTooWide),
        }
    }

    /// Reads `count` bytes. Nothing is consumed where the read is refused.
    pub fn read_raw(&mut self, count: usize) -> (r: Result<Vec<u8>, CollectorError>)
        ensures
            match old(self)@.read_raw(count as nat) {
                Ok(bytes) => r is Ok && r->Ok_0@ == bytes && final(self)@ == old(self)@.skip_bits(
                    8 * count as nat,
                ),
                Err(e) => r == Err::<Vec<u8>, CollectorError>(e) && final(self)@ == old(self)@,
            },
    {
        proof {
            use_type_invariant(&*self);
            use_type_invariant(&self.cell);
        }
        if count > (self.cell.bits.len() - self.bit_pos) / 8 {
            return Err(CollectorError::UnexpectedEnd);
        }
        assert(self.cell@.bits.subrange(self.bit_pos as int, self.bit_pos + 8 * count)
            =~= self@.bits.take(8 * count));
        let bytes = crate::bits::pack_bytes(&self.cell.bits, self.bit_pos, count);
        self.bit_pos = self.bit_pos + 8 * count;
        assert(self@.bits =~= old(self)@.bits.skip(8 * count));
        Ok(bytes)
    }

    /// Reads the next reference. Nothing is consumed where none is left.
    pub fn read_reference(&mut self) -> (r: Result<Cell, CollectorError>)
        ensures
            match r {
                Ok(cell) => old(self)@.refs.len() > 0 && cell@ == old(self)@.refs[0] && final(self)@ == (CellView { bits: old(self)@.bits, refs: old(self)@.refs.skip(1) }),
                Err(e) => e == CollectorError::UnexpectedEnd && old(self)@.refs.len() == 0
                    && final(self)@ == old(self)@,
            },
    {
        proof {
            use_type_invariant(&*self);
            use_type_invariant(&self.cell);
        }
        if self.ref_pos >= self.cell.refs.len() {
            return Err(CollectorError::UnexpectedEnd);
        }
        let cell = self.cell.refs[self.ref_pos].clone();
        self.ref_pos = self.ref_pos + 1;
        assert(self@.refs =~= old(self)@.refs.skip(1));
        Ok(cell)
    }
}

} // verus!
