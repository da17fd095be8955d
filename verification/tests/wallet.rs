use collector_lib::cell::{Builder, Cell, Slice, MAX_DEPTH};
use collector_lib::error::CollectorError;
use collector_lib::keys::KeyPair;
use collector_lib::message::compute_deposit_address;
use collector_lib::wallet::{InitData, StateInit};
use std::collections::HashSet;

fn code_cell() -> Cell {
    let boc = base64::decode(
        "te6cckEBAQEAcQAA3v8AIN0gggFMl7ohggEznLqxn3Gw7UTQ0x/THzHXC//jBOCk8mCDCNcYINMf0x/TH/gjE7vyY+1E0NMf0x/T/9FRMrryoVFEuvKiBPkBVBBV+RDyo/gAkyDXSpbTB9QC+wDo0QGkyMsfyx/L/8ntVBC9ba0=",
    )
    .unwrap();
    let mut builder = Builder::new();
    builder.append_raw(&boc[13..124], 888).unwrap();
    builder.finalize()
}

fn test_key() -> KeyPair {
    let mut secret = [0u8; 32];
    hex::decode_to_slice(
        "9d61b19deffd5a60ba844af492ec2cc44449c5697b326919703bac031cae7f60",
        &mut secret,
    )
    .unwrap();
    KeyPair::from_secret(secret)
}

#[test]
fn public_key_is_derived_from_the_secret_key() {
    let key = test_key();
    assert_eq!(
        hex::encode(key.public),
        "d75a980182b10ab7d54bfed3c964073a0ee172f3daa62325af021a68f707511a"
    );
    assert_ne!(key.public, key.secret);
}

#[test]
fn init_data_round_trip() {
    let samples = [
        InitData { seqno: 0, wallet_id: 0, public_key: [0u8; 32] },
        InitData { seqno: 1, wallet_id: 2, public_key: [3u8; 32] },
        InitData { seqno: u32::MAX, wallet_id: u32::MAX, public_key: [0xff; 32] },
        InitData { seqno: 0x8000_0001, wallet_id: 698_983_191, public_key: test_key().public },
    ];
    for data in samples.iter() {
        let cell = data.serialize().unwrap();
        let back = InitData::deserialize(cell).unwrap();
        assert_eq!(back.seqno, data.seqno);
        assert_eq!(back.wallet_id, data.wallet_id);
        assert_eq!(back.public_key, data.public_key);
    }
}

#[test]
fn init_data_is_laid_out_field_by_field() {
    let data = InitData { seqno: 1, wallet_id: 0x0102_0304, public_key: [0xa5; 32] };
    let cell = data.serialize().unwrap();
    assert_eq!(cell.bit_len(), 320);
    assert_eq!(cell.references_count(), 0);
    let mut expected = vec![0, 0, 0, 1, 1, 2, 3, 4];
    expected.extend_from_slice(&[0xa5; 32]);
    assert_eq!(Slice::new(cell).read_raw(40), Ok(expected));
}

#[test]
fn deserialize_refuses_a_short_cell() {
    let mut builder = Builder::new();
    builder.append_raw(&[0u8; 40], 319).unwrap();
    assert!(matches!(
        InitData::deserialize(builder.finalize()),
        Err(CollectorError::UnexpectedEnd)
    ));
    assert!(matches!(
        InitData::deserialize(Builder::new().finalize()),
        Err(CollectorError::UnexpectedEnd)
    ));
}

#[test]
fn deserialize_ignores_what_follows_the_data() {
    let mut builder = Builder::new();
    builder.append_uint(7, 32).unwrap();
    builder.append_uint(9, 32).unwrap();
    builder.append_raw(&[0x11; 32], 256).unwrap();
    builder.append_uint(0xffff, 16).unwrap();
    builder.append_reference(Builder::new().finalize()).unwrap();
    let data = InitData::deserialize(builder.finalize()).unwrap();
    assert_eq!(data.seqno, 7);
    assert_eq!(data.wallet_id, 9);
    assert_eq!(data.public_key, [0x11; 32]);
}

#[test]
fn fresh_data_starts_at_zero() {
    let key = test_key();
    let data = InitData::from_key(&key);
    assert_eq!(data.seqno, 0);
    assert_eq!(data.wallet_id, 0);
    assert_eq!(data.public_key, key.public);
    let other = data.with_wallet_id(77);
    assert_eq!(other.seqno, 0);
    assert_eq!(other.wallet_id, 77);
    assert_eq!(other.public_key, key.public);
}

#[test]
fn state_init_holds_code_and_data() {
    let code = code_cell();
    let data = InitData::from_key(&test_key()).with_wallet_id(5);
    let state = data.make_state_init(&code).unwrap();
    assert_eq!(state.code.repr_hash(), code.repr_hash());
    assert_eq!(state.data.repr_hash(), data.serialize().unwrap().repr_hash());
    let cell = state.serialize().unwrap();
    assert_eq!(cell.bits(), vec![false, false, true, true, false]);
    assert_eq!(cell.references_count(), 2);
    assert_eq!(cell.reference(0).unwrap().repr_hash(), code.repr_hash());
    assert_eq!(cell.reference(1).unwrap().repr_hash(), state.data.repr_hash());
    assert_eq!(cell.depth(), 1);
}

#[test]
fn address_is_the_digest_of_the_state() {
    let code = code_cell();
    let data = InitData::from_key(&test_key()).with_wallet_id(3);
    let address = data.compute_addr(&code).unwrap();
    let state = data.make_state_init(&code).unwrap().serialize().unwrap();
    assert_eq!(address.workchain_id, 0);
    assert_eq!(address.address, state.repr_hash());
}

#[test]
fn address_is_a_function_of_key_and_wallet_id() {
    let code = code_cell();
    let key = test_key();
    let first = compute_deposit_address(key, 42, &code).unwrap();
    let second = compute_deposit_address(key, 42, &code).unwrap();
    assert_eq!(first.address, second.address);
    assert_eq!(first.workchain_id, second.workchain_id);
    let stranger = KeyPair { secret: [9u8; 32], public: key.public };
    let third = compute_deposit_address(stranger, 42, &code).unwrap();
    assert_eq!(first.address, third.address);
    let spent = InitData { seqno: 17, wallet_id: 42, public_key: key.public };
    assert_ne!(spent.compute_addr(&code).unwrap().address, first.address);
}

#[test]
fn wallet_ids_do_not_collide() {
    let code = code_cell();
    let key = test_key();
    let mut seen = HashSet::new();
    for id in 0..10_000u32 {
        let address = compute_deposit_address(key, id, &code).unwrap();
        assert!(seen.insert(address.address));
    }
    assert_eq!(seen.len(), 10_000);
}

#[test]
fn code_at_the_depth_limit_is_refused() {
    let mut code = Builder::new().finalize();
    for _ in 0..MAX_DEPTH {
        let mut parent = Builder::new();
        parent.append_reference(code).unwrap();
        code = parent.finalize();
    }
    let data = InitData::from_key(&test_key());
    assert!(matches!(data.compute_addr(&code), Err(CollectorError::DepthExceeded)));
    assert!(matches!(
        compute_deposit_address(test_key(), 0, &code),
        Err(CollectorError::DepthExceeded)
    ));
    let state = StateInit { code: code.clone(), data: Builder::new().finalize() };
    assert!(matches!(state.serialize(), Err(CollectorError::DepthExceeded)));
    assert!(data.make_state_init(&code).is_ok());
}
