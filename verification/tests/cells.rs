use collector_lib::bits::{bits_of_bytes, fits, pack_padded, pad_bits, push_uint};
use collector_lib::cell::{Builder, Cell, Slice, MAX_BITS, MAX_DEPTH, MAX_REFS};
use collector_lib::error::CollectorError;
use sha2::{Digest, Sha256};

fn cell_of_bytes(bytes: &[u8], width: usize) -> Cell {
    let mut builder = Builder::new();
    builder.append_raw(bytes, width).unwrap();
    builder.finalize()
}

fn wallet_code() -> Cell {
    let boc = base64::decode(
        "te6cckEBAQEAcQAA3v8AIN0gggFMl7ohggEznLqxn3Gw7UTQ0x/THzHXC//jBOCk8mCDCNcYINMf0x/TH/gjE7vyY+1E0NMf0x/T/9FRMrryoVFEuvKiBPkBVBBV+RDyo/gAkyDXSpbTB9QC+wDo0QGkyMsfyx/L/8ntVBC9ba0=",
    )
    .unwrap();
    cell_of_bytes(&boc[13..124], 888)
}

#[test]
fn empty_cell_has_the_known_digest() {
    let cell = Builder::new().finalize();
    assert_eq!(
        hex::encode(cell.repr_hash()),
        "96a296d224f285c67bee93c30f8a309157f0daa35dc5b87e410b78630a09cfc7"
    );
    assert_eq!(cell.depth(), 0);
    assert_eq!(cell.bit_len(), 0);
    assert_eq!(cell.references_count(), 0);
}

#[test]
fn wallet_code_has_the_known_digest() {
    let code = wallet_code();
    assert_eq!(code.bit_len(), 888);
    assert_eq!(
        hex::encode(code.repr_hash()),
        "84dafa449f98a6987789ba232358072bc0f76dc4524002a5d0918b9a75d2d599"
    );
}

#[test]
fn digest_covers_descriptors_and_padded_bits() {
    let mut builder = Builder::new();
    builder.append_bits(&[false, false, true, true, false]).unwrap();
    let cell = builder.finalize();
    let expected = Sha256::digest(&[0x00, 0x01, 0x34]);
    assert_eq!(cell.repr_hash().to_vec(), expected.to_vec());
}

#[test]
fn digest_covers_depths_and_digests_of_children() {
    let leaf = cell_of_bytes(&[0xab], 8);
    let mut middle = Builder::new();
    middle.append_reference(leaf.clone()).unwrap();
    let middle = middle.finalize();
    assert_eq!(middle.depth(), 1);
    let mut top = Builder::new();
    top.append_uint(0x1234, 16).unwrap();
    top.append_reference(middle.clone()).unwrap();
    top.append_reference(leaf.clone()).unwrap();
    let top = top.finalize();
    assert_eq!(top.depth(), 2);
    let mut repr = vec![0x02, 0x04, 0x12, 0x34, 0x00, 0x01, 0x00, 0x00];
    repr.extend_from_slice(&middle.repr_hash());
    repr.extend_from_slice(&leaf.repr_hash());
    assert_eq!(top.repr_hash().to_vec(), Sha256::digest(&repr).to_vec());
    let leaf_repr = [0x00, 0x02, 0xab];
    assert_eq!(leaf.repr_hash().to_vec(), Sha256::digest(&leaf_repr).to_vec());
}

#[test]
fn equal_contents_give_equal_digests() {
    let a = cell_of_bytes(&[1, 2, 3], 20);
    let b = cell_of_bytes(&[1, 2, 3], 20);
    let c = cell_of_bytes(&[1, 2, 3], 21);
    assert_eq!(a.repr_hash(), b.repr_hash());
    assert_ne!(a.repr_hash(), c.repr_hash());
    assert_eq!(a.clone().repr_hash(), a.repr_hash());
}

#[test]
fn append_uint_writes_most_significant_bit_first() {
    let mut builder = Builder::new();
    builder.append_uint(5, 3).unwrap();
    builder.append_uint(1, 4).unwrap();
    builder.append_uint(0, 0).unwrap();
    let cell = builder.finalize();
    assert_eq!(cell.bits(), vec![true, false, true, false, false, false, true]);
}

#[test]
fn append_uint_pads_wide_fields_with_zeros() {
    let mut builder = Builder::new();
    builder.append_uint(u64::MAX, 66).unwrap();
    let bits = builder.finalize().bits();
    assert_eq!(bits.len(), 66);
    assert_eq!(&bits[..2], &[false, false]);
    assert!(bits[2..].iter().all(|bit| *bit));
}

#[test]
fn append_uint_refuses_a_value_that_is_too_wide() {
    let mut builder = Builder::new();
    assert_eq!(builder.append_uint(8, 3), Err(CollectorError::ValueTooWide));
    assert_eq!(builder.append_uint(1, 0), Err(CollectorError::ValueTooWide));
    assert_eq!(builder.append_uint(256, 8), Err(CollectorError::ValueTooWide));
    assert_eq!(builder.bit_len(), 0);
    assert_eq!(builder.append_uint(7, 3), Ok(()));
    assert_eq!(builder.append_uint(255, 8), Ok(()));
    assert_eq!(builder.append_uint(u64::MAX, 64), Ok(()));
    assert_eq!(builder.bit_len(), 75);
}

#[test]
fn append_uint_refuses_what_exceeds_the_capacity() {
    let mut builder = Builder::new();
    builder.append_raw(&[0u8; 128], 1000).unwrap();
    assert_eq!(builder.append_uint(0, 24), Err(CollectorError::CapacityExceeded));
    assert_eq!(builder.append_uint(1 << 30, 24), Err(CollectorError::CapacityExceeded));
    assert_eq!(builder.bit_len(), 1000);
    assert_eq!(builder.append_uint(0, 23), Ok(()));
    assert_eq!(builder.bit_len(), MAX_BITS);
    assert_eq!(builder.append_bit(true), Err(CollectorError::CapacityExceeded));
    assert_eq!(builder.append_uint(0, 0), Ok(()));
}

#[test]
fn append_raw_takes_an_exact_number_of_bits() {
    let mut builder = Builder::new();
    builder.append_raw(&[0b1010_0000, 0xff], 3).unwrap();
    builder.append_raw(&[0b1100_0001], 8).unwrap();
    let cell = builder.finalize();
    assert_eq!(
        cell.bits(),
        vec![true, false, true, true, true, false, false, false, false, false, true]
    );
}

#[test]
fn append_raw_refuses_more_bits_than_the_buffer_holds() {
    let mut builder = Builder::new();
    assert_eq!(builder.append_raw(&[1, 2], 17), Err(CollectorError::UnexpectedEnd));
    assert_eq!(builder.append_raw(&[], 1), Err(CollectorError::UnexpectedEnd));
    assert_eq!(builder.append_raw(&[0u8; 200], 1024), Err(CollectorError::CapacityExceeded));
    assert_eq!(builder.append_raw(&[1, 2], 1024), Err(CollectorError::CapacityExceeded));
    assert_eq!(builder.bit_len(), 0);
    assert_eq!(builder.append_raw(&[1, 2], 16), Ok(()));
    assert_eq!(builder.append_raw(&[], 0), Ok(()));
    assert_eq!(builder.bit_len(), 16);
}

#[test]
fn prepend_raw_puts_bits_in_front() {
    let mut builder = Builder::new();
    builder.append_uint(1, 2).unwrap();
    builder.prepend_raw(&[0b1110_0000], 3).unwrap();
    let mut copy = builder.clone();
    assert_eq!(builder.finalize().bits(), vec![true, true, true, false, true]);
    assert_eq!(copy.prepend_raw(&[0u8; 128], 1019), Err(CollectorError::CapacityExceeded));
    assert_eq!(copy.prepend_raw(&[0u8], 9), Err(CollectorError::UnexpectedEnd));
    assert_eq!(copy.prepend_bits(&[false]), Ok(()));
    assert_eq!(copy.finalize().bits(), vec![false, true, true, true, false, true]);
}

#[test]
fn fifth_reference_is_refused() {
    let leaf = Builder::new().finalize();
    let mut builder = Builder::new();
    for _ in 0..MAX_REFS {
        assert_eq!(builder.append_reference(leaf.clone()), Ok(()));
    }
    assert_eq!(builder.append_reference(leaf.clone()), Err(CollectorError::TooManyReferences));
    assert_eq!(builder.references_count(), 4);
    let cell = builder.finalize();
    assert_eq!(cell.references_count(), 4);
    assert_eq!(cell.depth(), 1);
    assert!(cell.reference(3).is_some());
    assert!(cell.reference(4).is_none());
}

#[test]
fn a_cell_at_the_depth_limit_cannot_be_referenced() {
    let mut cell = Builder::new().finalize();
    for _ in 0..MAX_DEPTH {
        let mut parent = Builder::new();
        assert_eq!(parent.append_reference(cell), Ok(()));
        cell = parent.finalize();
    }
    assert_eq!(cell.depth(), MAX_DEPTH);
    let mut parent = Builder::new();
    assert_eq!(parent.append_reference(cell.clone()), Err(CollectorError::DepthExceeded));
    assert_eq!(parent.references_count(), 0);
    let mut sibling = Builder::new();
    assert_eq!(sibling.append_cell(&cell), Ok(()));
    assert_eq!(sibling.finalize().depth(), MAX_DEPTH);
}

#[test]
fn append_cell_copies_bits_and_references() {
    let leaf = cell_of_bytes(&[0x0f], 8);
    let mut inner = Builder::new();
    inner.append_uint(3, 2).unwrap();
    inner.append_reference(leaf.clone()).unwrap();
    inner.append_reference(leaf.clone()).unwrap();
    let inner = inner.finalize();
    let mut outer = Builder::new();
    outer.append_bit(false).unwrap();
    outer.append_reference(Builder::new().finalize()).unwrap();
    assert_eq!(outer.append_cell(&inner), Ok(()));
    assert_eq!(outer.bit_len(), 3);
    assert_eq!(outer.references_count(), 3);
    assert_eq!(outer.append_cell(&inner), Err(CollectorError::TooManyReferences));
    assert_eq!(outer.bit_len(), 3);
    assert_eq!(outer.references_count(), 3);
    let cell = outer.finalize();
    assert_eq!(cell.bits(), vec![false, true, true]);
    assert_eq!(cell.reference(1).unwrap().repr_hash(), leaf.repr_hash());
    let mut full = Builder::new();
    full.append_raw(&[0u8; 128], 1022).unwrap();
    assert_eq!(full.append_cell(&inner), Err(CollectorError::CapacityExceeded));
}

#[test]
fn slice_reads_back_what_was_written() {
    let leaf = cell_of_bytes(&[0x0f], 8);
    let mut builder = Builder::new();
    builder.append_uint(0xdead_beef, 32).unwrap();
    builder.append_raw(&[1, 2, 3], 24).unwrap();
    builder.append_uint(5, 3).unwrap();
    builder.append_reference(leaf.clone()).unwrap();
    let mut slice = Slice::new(builder.finalize());
    assert_eq!(slice.remaining_bits(), 59);
    assert_eq!(slice.remaining_references(), 1);
    assert_eq!(slice.read_uint(32), Ok(0xdead_beef));
    assert_eq!(slice.read_raw(3), Ok(vec![1, 2, 3]));
    assert_eq!(slice.read_raw(1), Err(CollectorError::UnexpectedEnd));
    assert_eq!(slice.read_uint(4), Err(CollectorError::UnexpectedEnd));
    assert_eq!(slice.remaining_bits(), 3);
    assert_eq!(slice.read_uint(3), Ok(5));
    assert_eq!(slice.read_uint(0), Ok(0));
    assert_eq!(slice.read_raw(0), Ok(vec![]));
    assert_eq!(slice.read_reference().unwrap().repr_hash(), leaf.repr_hash());
    assert!(matches!(slice.read_reference(), Err(CollectorError::UnexpectedEnd)));
    assert_eq!(slice.remaining_references(), 0);
}

#[test]
fn slice_refuses_a_number_beyond_64_bits() {
    let mut builder = Builder::new();
    builder.append_bit(true).unwrap();
    builder.append_uint(7, 64).unwrap();
    let mut wide = Slice::new(builder.finalize());
    assert_eq!(wide.read_uint(65), Err(CollectorError::ValueTooWide));
    assert_eq!(wide.remaining_bits(), 65);
    assert_eq!(wide.read_uint(1), Ok(1));
    assert_eq!(wide.read_uint(64), Ok(7));
    let mut builder = Builder::new();
    builder.append_uint(9, 70).unwrap();
    let mut padded = Slice::new(builder.finalize());
    assert_eq!(padded.read_uint(70), Ok(9));
}

#[test]
fn data_is_packed_with_a_closing_one() {
    let mut builder = Builder::new();
    builder.append_bits(&[false, false, true, true, false]).unwrap();
    assert_eq!(builder.finalize().data(), vec![0x34]);
    assert_eq!(cell_of_bytes(&[0xab, 0xcd], 16).data(), vec![0xab, 0xcd]);
    assert_eq!(cell_of_bytes(&[0xab, 0xcd], 15).data(), vec![0xab, 0xcd]);
    assert_eq!(cell_of_bytes(&[0xab, 0xcd], 9).data(), vec![0xab, 0xc0]);
    assert_eq!(Builder::new().finalize().data(), Vec::<u8>::new());
}

#[test]
fn bit_helpers_agree_with_hand_computed_values() {
    assert!(fits(0, 0));
    assert!(!fits(1, 0));
    assert!(fits(255, 8));
    assert!(!fits(256, 8));
    assert!(fits(u64::MAX, 64));
    assert!(!fits(u64::MAX, 63));
    assert!(fits(u64::MAX, 1000));
    let mut bits = vec![true];
    push_uint(&mut bits, 6, 4);
    assert_eq!(bits, vec![true, false, true, true, false]);
    push_uint(&mut bits, 7, 2);
    assert_eq!(bits, vec![true, false, true, true, false, true, true]);
    assert_eq!(
        bits_of_bytes(&[0x81, 0x0f]),
        vec![
            true, false, false, false, false, false, false, true, false, false, false, false,
            true, true, true, true
        ]
    );
    assert_eq!(pad_bits(&vec![true, true]), vec![true, true, true, false, false, false, false, false]);
    assert_eq!(pad_bits(&vec![false; 8]), vec![false; 8]);
    assert_eq!(pad_bits(&vec![false; 7]), vec![false, false, false, false, false, false, false, true]);
    assert_eq!(pack_padded(&vec![true, true]), vec![0xe0]);
    assert_eq!(pack_padded(&vec![]), Vec::<u8>::new());
}
