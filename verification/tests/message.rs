use collector_lib::cell::{Builder, Cell, MAX_DEPTH};
use collector_lib::error::CollectorError;
use collector_lib::keys::KeyPair;
use collector_lib::layout::Address;
use collector_lib::message::{
    compute_deposit_address, create_message, create_message_at, gift_flags,
    CollectorMessageParams, Message,
};
use collector_lib::transfer::{encode_gift, Gift};
use collector_lib::wallet::{InitData, StateInit};
use ed25519_dalek::{PublicKey, Signature, Verifier};

fn contract_code() -> Cell {
    let boc = base64::decode(
        "te6cckEBAQEAcQAA3v8AIN0gggFMl7ohggEznLqxn3Gw7UTQ0x/THzHXC//jBOCk8mCDCNcYINMf0x/TH/gjE7vyY+1E0NMf0x/T/9FRMrryoVFEuvKiBPkBVBBV+RDyo/gAkyDXSpbTB9QC+wDo0QGkyMsfyx/L/8ntVBC9ba0=",
    )
    .unwrap();
    let mut builder = Builder::new();
    builder.append_raw(&boc[13..124], 888).unwrap();
    builder.finalize()
}

fn fixed_key() -> KeyPair {
    let mut secret = [0u8; 32];
    hex::decode_to_slice(
        "c5aa8df43f9f837bedb7442f31dcb7b166d38535076f094b85ce3a2e0b4458f7",
        &mut secret,
    )
    .unwrap();
    KeyPair::from_secret(secret)
}

fn destination() -> Address {
    Address { workchain_id: 0, address: [0x42; 32] }
}

fn params(init: bool, destroy: bool) -> CollectorMessageParams {
    CollectorMessageParams {
        key: fixed_key(),
        to: destination(),
        init,
        destroy,
        seqno: 0,
        id: 0,
        ttl: 60,
    }
}

fn field(bits: &[bool]) -> u64 {
    bits.iter().fold(0, |acc, bit| acc * 2 + if *bit { 1 } else { 0 })
}

fn cell_of(bits: &[bool], refs: &[Cell]) -> Cell {
    let mut builder = Builder::new();
    builder.append_bits(bits).unwrap();
    for cell in refs.iter() {
        builder.append_reference(cell.clone()).unwrap();
    }
    builder.finalize()
}

#[test]
fn flags_ask_for_the_whole_balance() {
    assert_eq!(gift_flags(false), 128);
    assert_eq!(gift_flags(true), 160);
    assert_eq!(gift_flags(true) & 32, 32);
    assert_eq!(gift_flags(false) & 32, 0);
    assert_eq!(gift_flags(true) & 128, 128);
    assert_eq!(gift_flags(false) & 128, 128);
}

#[test]
fn transfer_without_deployment() {
    let code = contract_code();
    let message = create_message_at(params(false, false), &code, 1_700_000_000).unwrap();
    assert!(message.init.is_none());
    let address = compute_deposit_address(fixed_key(), 0, &code).unwrap();
    assert_eq!(message.dst.workchain_id, 0);
    assert_eq!(message.dst.address, address.address);
    let body = &message.body;
    assert_eq!(body.references_count(), 1);
    let bits = body.bits();
    assert_eq!(bits.len(), 512 + 96 + 8);
    assert_eq!(field(&bits[512..544]), 0);
    assert_eq!(field(&bits[544..576]), 1_700_000_060);
    assert_eq!(field(&bits[576..608]), 0);
    assert_eq!(field(&bits[608..616]), 128);
    let gift = Gift { flags: 128, bounce: false, destination: destination(), amount: 0 };
    assert_eq!(body.reference(0).unwrap().repr_hash(), encode_gift(&gift).1.repr_hash());
    let unsigned = cell_of(&bits[512..], &[body.reference(0).unwrap().clone()]);
    let mut signature = [0u8; 64];
    for (i, byte) in signature.iter_mut().enumerate() {
        *byte = field(&bits[8 * i..8 * i + 8]) as u8;
    }
    let public = PublicKey::from_bytes(&fixed_key().public).unwrap();
    let signature = Signature::from_bytes(&signature).unwrap();
    assert!(public.verify(&unsigned.repr_hash(), &signature).is_ok());
}

#[test]
fn transfer_with_destruction() {
    let code = contract_code();
    let message = create_message_at(params(false, true), &code, 10).unwrap();
    let bits = message.body.bits();
    assert_eq!(field(&bits[608..616]), 160);
    let gift = Gift { flags: 160, bounce: false, destination: destination(), amount: 0 };
    assert_eq!(
        message.body.reference(0).unwrap().repr_hash(),
        encode_gift(&gift).1.repr_hash()
    );
}

#[test]
fn transfer_with_deployment() {
    let code = contract_code();
    let message = create_message_at(params(true, false), &code, 1_700_000_000).unwrap();
    let address = compute_deposit_address(fixed_key(), 0, &code).unwrap();
    let state = message.init.as_ref().unwrap();
    assert_eq!(state.serialize().unwrap().repr_hash(), address.address);
    assert_eq!(message.dst.address, address.address);
    assert_eq!(message.dst.workchain_id, address.workchain_id);
    assert_eq!(state.code.repr_hash(), code.repr_hash());
    let data = InitData::deserialize(state.data.clone()).unwrap();
    assert_eq!(data.seqno, 0);
    assert_eq!(data.wallet_id, 0);
    assert_eq!(data.public_key, fixed_key().public);
    let plain = create_message_at(params(false, false), &code, 1_700_000_000).unwrap();
    assert_eq!(plain.body.repr_hash(), message.body.repr_hash());
}

#[test]
fn wallet_id_and_sequence_number_reach_the_body() {
    let code = contract_code();
    let mut asked = params(false, false);
    asked.id = 0x0102_0304;
    asked.seqno = 9;
    asked.ttl = 5;
    let message = create_message_at(asked, &code, u32::MAX - 5).unwrap();
    let bits = message.body.bits();
    assert_eq!(field(&bits[512..544]), 0x0102_0304);
    assert_eq!(field(&bits[544..576]), u32::MAX as u64);
    assert_eq!(field(&bits[576..608]), 9);
    let address = compute_deposit_address(fixed_key(), 0x0102_0304, &code).unwrap();
    assert_eq!(message.dst.address, address.address);
}

#[test]
fn envelope_holds_the_body_in_place() {
    let code = contract_code();
    let message = create_message_at(params(false, false), &code, 77).unwrap();
    let cell = message.serialize().unwrap();
    let bits = cell.bits();
    assert_eq!(bits.len(), 275 + 1 + 1 + 616);
    assert_eq!(&bits[..7], &[true, false, false, false, true, false, false][..]);
    assert_eq!(field(&bits[7..15]), 0);
    for i in 0..32 {
        assert_eq!(field(&bits[15 + 8 * i..23 + 8 * i]) as u8, message.dst.address[i]);
    }
    assert_eq!(field(&bits[271..275]), 0);
    assert!(!bits[275]);
    assert!(!bits[276]);
    assert_eq!(&bits[277..], &message.body.bits()[..]);
    assert_eq!(cell.references_count(), 1);
    assert_eq!(
        cell.reference(0).unwrap().repr_hash(),
        message.body.reference(0).unwrap().repr_hash()
    );
}

#[test]
fn envelope_holds_the_state_in_place() {
    let code = contract_code();
    let message = create_message_at(params(true, true), &code, 77).unwrap();
    let cell = message.serialize().unwrap();
    let bits = cell.bits();
    assert_eq!(bits.len(), 275 + 2 + 5 + 1 + 616);
    assert_eq!(&bits[275..283], &[true, false, false, false, true, true, false, false][..]);
    assert_eq!(&bits[283..], &message.body.bits()[..]);
    assert_eq!(cell.references_count(), 3);
    let state = message.init.as_ref().unwrap();
    assert_eq!(cell.reference(0).unwrap().repr_hash(), code.repr_hash());
    assert_eq!(cell.reference(1).unwrap().repr_hash(), state.data.repr_hash());
    assert_eq!(
        cell.reference(2).unwrap().repr_hash(),
        message.body.reference(0).unwrap().repr_hash()
    );
}

#[test]
fn envelope_refers_to_a_body_that_has_no_room() {
    let leaf = Builder::new().finalize();
    let long = cell_of(&vec![true; 746], &[]);
    let message = Message { dst: destination(), init: None, body: long.clone() };
    let cell = message.serialize().unwrap();
    assert_eq!(cell.bit_len(), 1023);
    assert_eq!(cell.references_count(), 0);
    let longer = cell_of(&vec![true; 747], &[]);
    let message = Message { dst: destination(), init: None, body: longer.clone() };
    let cell = message.serialize().unwrap();
    assert_eq!(cell.bit_len(), 277);
    assert!(cell.bits()[276]);
    assert_eq!(cell.references_count(), 1);
    assert_eq!(cell.reference(0).unwrap().repr_hash(), longer.repr_hash());
    let state = StateInit { code: leaf.clone(), data: leaf.clone() };
    let wide = cell_of(&[true], &[leaf.clone(), leaf.clone(), leaf.clone()]);
    let message = Message { dst: destination(), init: Some(state), body: wide.clone() };
    let cell = message.serialize().unwrap();
    assert_eq!(cell.bit_len(), 283);
    assert!(cell.bits()[282]);
    assert_eq!(cell.references_count(), 3);
    assert_eq!(cell.reference(2).unwrap().repr_hash(), wide.repr_hash());
    assert_eq!(cell.depth(), 2);
}

#[test]
fn envelope_refuses_what_is_too_deep() {
    let mut deep = Builder::new().finalize();
    for _ in 0..MAX_DEPTH {
        deep = cell_of(&[], &[deep]);
    }
    let leaf = Builder::new().finalize();
    let state = StateInit { code: deep.clone(), data: leaf.clone() };
    let message = Message { dst: destination(), init: Some(state), body: leaf.clone() };
    assert!(matches!(message.serialize(), Err(CollectorError::DepthExceeded)));
    let message = Message { dst: destination(), init: None, body: deep.clone() };
    assert_eq!(message.serialize().unwrap().depth(), MAX_DEPTH);
    let heavy = cell_of(&vec![false; 800], &[deep.reference(0).unwrap().clone()]);
    assert_eq!(heavy.depth(), MAX_DEPTH);
    let message = Message { dst: destination(), init: None, body: heavy };
    assert!(matches!(message.serialize(), Err(CollectorError::DepthExceeded)));
    assert!(matches!(
        create_message_at(params(true, false), &deep, 0),
        Err(CollectorError::DepthExceeded)
    ));
}

#[test]
fn a_message_that_would_expire_past_32_bits_is_refused() {
    let code = contract_code();
    let mut asked = params(true, false);
    asked.ttl = 1_000_000_000;
    assert!(matches!(
        create_message_at(asked, &code, 4_000_000_000),
        Err(CollectorError::ValueTooWide)
    ));
    let mut asked = params(false, true);
    asked.ttl = 1;
    assert!(matches!(
        create_message_at(asked, &code, u32::MAX),
        Err(CollectorError::ValueTooWide)
    ));
    let mut asked = params(false, true);
    asked.ttl = 0;
    assert!(create_message_at(asked, &code, u32::MAX).is_ok());
    let mut deep = Builder::new().finalize();
    for _ in 0..MAX_DEPTH {
        deep = cell_of(&[], &[deep]);
    }
    let mut asked = params(true, false);
    asked.ttl = u32::MAX;
    assert!(matches!(
        create_message_at(asked, &deep, u32::MAX),
        Err(CollectorError::DepthExceeded)
    ));
}

#[test]
fn a_broken_key_pair_cannot_send() {
    let code = contract_code();
    let mut found = false;
    for first in 0..=255u8 {
        let mut public = [0u8; 32];
        public[0] = first;
        if PublicKey::from_bytes(&public).is_err() {
            let mut asked = params(true, false);
            asked.key = KeyPair { secret: [1u8; 32], public };
            assert!(matches!(
                create_message_at(asked, &code, 0),
                Err(CollectorError::SigningFailed)
            ));
            found = true;
            break;
        }
    }
    assert!(found);
}

#[test]
fn message_made_now_is_addressed_to_the_wallet() {
    let code = contract_code();
    let message = create_message(params(true, false), &code).unwrap();
    let address = compute_deposit_address(fixed_key(), 0, &code).unwrap();
    assert_eq!(message.dst.address, address.address);
    assert!(message.init.is_some());
    assert_eq!(message.body.references_count(), 1);
    assert_eq!(message.body.bit_len(), 616);
    assert!(message.serialize().is_ok());
}
