use transaction::api::{
    add_gas_object, build_transaction, command_make_move_vec, command_merge_coins, command_move_call,
    command_publish, command_split_coins, command_transfer_objects, command_upgrade, gas_argument,
    input_object, nested_result, new_builder, pure_address, pure_bool, pure_raw_bcs, pure_u128,
    pure_u16, pure_u32, pure_u64, pure_u8, set_config, CallArg,
};
use transaction::builder::TransactionBuilder;
use transaction::encoding::{address_from_text, digest_from_text, encode_uint, frame_payload};
use transaction::error::{Error, ErrorKind};
use transaction::model::{
    Address, Argument, Command, Digest, FlatArg, Input, Intent, Limits, ObjectInput, ObjectKind,
    ObjectRef,
};

fn addr(b: u8) -> Address {
    Address { bytes: [b; 32] }
}

fn digest(b: u8) -> Digest {
    Digest { bytes: [b; 32] }
}

fn configured() -> TransactionBuilder {
    let mut b = new_builder();
    set_config(&mut b, addr(0xAA), Some(10_000_000), Some(1_000));
    add_gas_object(&mut b, addr(0x11), 2, digest(0x22)).unwrap();
    b
}

fn pure_of(input: &Input) -> Vec<u8> {
    match input {
        Input::Pure(b) => b.clone(),
        Input::Object(_) => panic!("expected a pure input"),
    }
}

#[test]
fn identifiers_are_dense_in_call_order() {
    let mut b = new_builder();
    let a0 = pure_u64(&mut b, 1);
    let a1 = gas_argument(&mut b);
    let a2 = pure_bool(&mut b, 1);
    let a3 = command_split_coins(&mut b, a1, &vec![a0]).unwrap();
    let a4 = nested_result(&mut b, a3, 0).unwrap();
    let a5 = input_object(&mut b, ObjectKind::Shared, addr(1), 7, None, None).unwrap();
    assert_eq!(vec![a0, a1, a2, a3, a4, a5], vec![0, 1, 2, 3, 4, 5]);
    assert_eq!(b.num_arguments(), 6);
}

#[test]
fn gas_argument_is_idempotent() {
    let mut b = new_builder();
    let p = pure_u8(&mut b, 3);
    let g1 = gas_argument(&mut b);
    let g2 = gas_argument(&mut b);
    let g3 = gas_argument(&mut b);
    assert_eq!(p, 0);
    assert_eq!(g1, 1);
    assert_eq!(g2, g1);
    assert_eq!(g3, g1);
    assert_eq!(b.num_arguments(), 2);
    assert_eq!(b.resolve(Argument::new(g1)), Ok(FlatArg::GasCoin));
}

#[test]
fn nested_results_resolve_to_distinct_sub_results() {
    let mut b = configured();
    let g = gas_argument(&mut b);
    let x = pure_u64(&mut b, 1);
    let y = pure_u64(&mut b, 2);
    let z = pure_u64(&mut b, 3);
    let other = command_split_coins(&mut b, g, &vec![x]).unwrap();
    let base = command_split_coins(&mut b, g, &vec![x, y, z]).unwrap();
    let subs: Vec<usize> = (0..3).map(|k| nested_result(&mut b, base, k).unwrap()).collect();
    let resolved: Vec<FlatArg> = subs.iter().map(|&s| b.resolve(Argument::new(s)).unwrap()).collect();
    assert_eq!(
        resolved,
        vec![FlatArg::NestedResult(1, 0), FlatArg::NestedResult(1, 1), FlatArg::NestedResult(1, 2)]
    );
    assert_eq!(b.resolve(Argument::new(base)), Ok(FlatArg::Result(1)));
    assert_eq!(b.resolve(Argument::new(other)), Ok(FlatArg::Result(0)));
}

#[test]
fn nested_result_of_unknown_base_fails() {
    let mut b = new_builder();
    assert_eq!(nested_result(&mut b, 4, 0), Err(Error::UnknownArgument(4)));
    assert_eq!(b.num_arguments(), 0);
}

#[test]
fn sub_index_on_an_input_is_rejected() {
    let mut b = new_builder();
    let x = pure_u64(&mut b, 1);
    let n = nested_result(&mut b, x, 0).unwrap();
    assert_eq!(b.resolve(Argument::new(n)), Err(Error::InvalidSubIndex(x)));
}

#[test]
fn alias_chain_resolves_like_a_direct_alias() {
    let mut b = new_builder();
    let target = pure_u64(&mut b, 9);
    let i0 = b.add_intent(Intent::CoinWithBalance { coin_type: "0x2::sui::SUI".to_string(), balance: 5 }).id;
    let i1 = b.add_intent(Intent::CoinWithBalance { coin_type: "0x2::sui::SUI".to_string(), balance: 6 }).id;
    let i2 = b.add_intent(Intent::CoinWithBalance { coin_type: "0x2::sui::SUI".to_string(), balance: 7 }).id;
    let direct = b.add_intent(Intent::CoinWithBalance { coin_type: "0x2::sui::SUI".to_string(), balance: 8 }).id;
    b.resolve_intent(i0, Argument::new(i1)).unwrap();
    b.resolve_intent(i1, Argument::new(i2)).unwrap();
    b.resolve_intent(i2, Argument::new(target)).unwrap();
    b.resolve_intent(direct, Argument::new(target)).unwrap();
    assert_eq!(b.resolve(Argument::new(i0)), Ok(FlatArg::Input(0)));
    assert_eq!(b.resolve(Argument::new(i0)), b.resolve(Argument::new(direct)));
    assert!(b.pending_intents().is_empty());
}

#[test]
fn self_alias_is_cyclic() {
    let mut b = new_builder();
    let i = b.add_intent(Intent::CoinWithBalance { coin_type: "0x2::sui::SUI".to_string(), balance: 1 }).id;
    b.resolve_intent(i, Argument::new(i)).unwrap();
    assert_eq!(b.resolve(Argument::new(i)), Err(Error::CyclicReference(i)));
}

#[test]
fn mutual_aliases_are_cyclic() {
    let mut b = new_builder();
    let i = b.add_intent(Intent::CoinWithBalance { coin_type: "0x2::sui::SUI".to_string(), balance: 1 }).id;
    let j = b.add_intent(Intent::CoinWithBalance { coin_type: "0x2::sui::SUI".to_string(), balance: 2 }).id;
    b.resolve_intent(i, Argument::new(j)).unwrap();
    b.resolve_intent(j, Argument::new(i)).unwrap();
    let r = b.resolve(Argument::new(i));
    assert!(matches!(r, Err(Error::CyclicReference(_))));
    assert_eq!(r.unwrap_err().kind(), ErrorKind::Reference);
}

#[test]
fn unbound_intent_does_not_resolve() {
    let mut b = new_builder();
    let i = b.add_intent(Intent::CoinWithBalance { coin_type: "0x2::sui::SUI".to_string(), balance: 1 }).id;
    assert_eq!(b.resolve(Argument::new(i)), Err(Error::UnresolvedArgument(i)));
    assert_eq!(b.pending_intents(), vec![i]);
    let (id, intent) = b.pending_intent(0);
    assert_eq!(*id, i);
    match intent {
        Intent::CoinWithBalance { coin_type, balance } => {
            assert_eq!(coin_type, "0x2::sui::SUI");
            assert_eq!(*balance, 1);
        }
    }
    assert_eq!(b.resolve_intent(i, Argument::new(9)), Err(Error::UnknownArgument(9)));
    assert_eq!(b.resolve_intent(7, Argument::new(0)), Err(Error::NotAnIntent(7)));
}

#[test]
fn gas_objects_up_to_the_ceiling() {
    let limits = Limits { max_gas_objects: 2, ..Limits::standard() };
    let mut b = TransactionBuilder::with_limits(limits);
    assert_eq!(add_gas_object(&mut b, addr(1), 1, digest(1)), Ok(()));
    assert_eq!(add_gas_object(&mut b, addr(2), 1, digest(2)), Ok(()));
    assert_eq!(add_gas_object(&mut b, addr(3), 1, digest(3)), Err(Error::TooManyGasObjects));
    assert_eq!(b.num_gas_objects(), 2);
    let batch = vec![ObjectRef { id: addr(4), version: 1, digest: digest(4) }];
    assert_eq!(b.add_gas_objects(batch), Err(Error::TooManyGasObjects));
    assert_eq!(b.num_gas_objects(), 2);
}

#[test]
fn standard_gas_ceiling_is_two_hundred_fifty() {
    let mut b = new_builder();
    let objs: Vec<ObjectRef> = (0..250u64).map(|v| ObjectRef { id: addr(1), version: v, digest: digest(1) }).collect();
    assert_eq!(b.add_gas_objects(objs), Ok(()));
    assert_eq!(add_gas_object(&mut b, addr(2), 1, digest(2)), Err(Error::TooManyGasObjects));
    assert_eq!(b.num_gas_objects(), 250);
}

#[test]
fn end_to_end_split_and_transfer() {
    let mut b = configured();
    let amount = pure_u64(&mut b, 5);
    let gas = gas_argument(&mut b);
    let base = command_split_coins(&mut b, gas, &vec![amount]).unwrap();
    let coin = nested_result(&mut b, base, 0).unwrap();
    let recipient = pure_address(&mut b, addr(0xBB));
    command_transfer_objects(&mut b, &vec![coin], recipient).unwrap();
    let tx = build_transaction(b).unwrap();
    assert_eq!(tx.gas_objects.len(), 1);
    assert_eq!(tx.gas_objects[0].version, 2);
    assert_eq!(tx.gas_budget, 10_000_000);
    assert_eq!(tx.gas_price, 1_000);
    assert_eq!(tx.sender.bytes, [0xAA; 32]);
    assert_eq!(tx.inputs.len(), 2);
    assert_eq!(tx.commands.len(), 2);
    assert_eq!(pure_of(&tx.inputs[0]), vec![5, 0, 0, 0, 0, 0, 0, 0]);
    assert_eq!(pure_of(&tx.inputs[1]), vec![0xBB; 32]);
    match &tx.commands[0] {
        Command::SplitCoins { coin, amounts } => {
            assert_eq!(*coin, FlatArg::GasCoin);
            assert_eq!(amounts, &vec![FlatArg::Input(0)]);
        }
        _ => panic!("expected a split"),
    }
    match &tx.commands[1] {
        Command::TransferObjects { objects, address } => {
            assert_eq!(objects, &vec![FlatArg::NestedResult(0, 0)]);
            assert_eq!(*address, FlatArg::Input(1));
        }
        _ => panic!("expected a transfer"),
    }
}

#[test]
fn split_with_no_amounts_leaves_builder_intact() {
    let mut b = configured();
    let amount = pure_u64(&mut b, 5);
    let gas = gas_argument(&mut b);
    command_split_coins(&mut b, gas, &vec![amount]).unwrap();
    let r = command_split_coins(&mut b, gas, &vec![]);
    assert_eq!(r, Err(Error::EmptyOperands));
    assert_eq!(r.unwrap_err().kind(), ErrorKind::Input);
    assert_eq!(b.num_inputs(), 1);
    assert_eq!(b.num_commands(), 1);
    assert_eq!(b.num_arguments(), 3);
}

#[test]
fn pending_intent_blocks_offline_finalization() {
    let mut b = configured();
    let i = b.add_intent(Intent::CoinWithBalance { coin_type: "0x2::sui::SUI".to_string(), balance: 100 }).id;
    let r = pure_address(&mut b, addr(3));
    command_transfer_objects(&mut b, &vec![i], r).unwrap();
    assert_eq!(build_transaction(b).unwrap_err(), Error::UnresolvedIntentsOffline);
}

#[test]
fn resolved_intent_lets_finalization_proceed() {
    let mut b = configured();
    let i = b.add_intent(Intent::CoinWithBalance { coin_type: "0x2::sui::SUI".to_string(), balance: 100 }).id;
    let r = pure_address(&mut b, addr(3));
    command_transfer_objects(&mut b, &vec![i], r).unwrap();
    let coin = input_object(&mut b, ObjectKind::Owned, addr(4), 3, Some(digest(4)), None).unwrap();
    b.resolve_intent(i, Argument::new(coin)).unwrap();
    let tx = b.try_build().unwrap();
    match &tx.commands[0] {
        Command::TransferObjects { objects, .. } => assert_eq!(objects, &vec![FlatArg::Input(1)]),
        _ => panic!("expected a transfer"),
    }
}

#[test]
fn missing_metadata_is_reported_in_order() {
    let b = new_builder();
    assert_eq!(build_transaction(b).unwrap_err(), Error::MissingSender);
    let mut b = new_builder();
    set_config(&mut b, addr(1), None, Some(1));
    assert_eq!(build_transaction(b).unwrap_err(), Error::MissingGasBudget);
    let mut b = new_builder();
    set_config(&mut b, addr(1), Some(1), None);
    assert_eq!(build_transaction(b).unwrap_err(), Error::MissingGasPrice);
    let mut b = new_builder();
    set_config(&mut b, addr(1), Some(1), Some(1));
    assert_eq!(build_transaction(b).unwrap_err(), Error::MissingGasObjects);
}

#[test]
fn finalization_limits() {
    let limits = Limits { max_inputs: 1, ..Limits::standard() };
    let mut b = TransactionBuilder::with_limits(limits);
    pure_u8(&mut b, 1);
    pure_u8(&mut b, 2);
    assert_eq!(b.try_build().unwrap_err(), Error::TooManyInputs);

    let limits = Limits { max_arguments: 1, ..Limits::standard() };
    let mut b = TransactionBuilder::with_limits(limits);
    pure_u8(&mut b, 1);
    pure_u8(&mut b, 2);
    assert_eq!(b.try_build().unwrap_err(), Error::TooManyArguments);

    let limits = Limits { max_commands: 0, ..Limits::standard() };
    let mut b = TransactionBuilder::with_limits(limits);
    command_publish(&mut b, vec![vec![1]], vec![]).unwrap();
    assert_eq!(b.try_build().unwrap_err(), Error::TooManyCommands);
}

#[test]
fn unknown_operands_are_rejected_at_once() {
    let mut b = new_builder();
    let x = pure_u64(&mut b, 1);
    assert_eq!(command_split_coins(&mut b, 9, &vec![x]), Err(Error::UnknownArgument(9)));
    assert_eq!(command_merge_coins(&mut b, x, &vec![x, 8]), Err(Error::UnknownArgument(8)));
    assert_eq!(command_merge_coins(&mut b, x, &vec![]), Err(Error::EmptyOperands));
    assert_eq!(command_transfer_objects(&mut b, &vec![], x), Err(Error::EmptyOperands));
    assert_eq!(command_transfer_objects(&mut b, &vec![x], 5), Err(Error::UnknownArgument(5)));
    assert_eq!(command_make_move_vec(&mut b, None, &vec![]), Err(Error::EmptyOperands));
    assert_eq!(command_make_move_vec(&mut b, None, &vec![3]), Err(Error::UnknownArgument(3)));
    assert_eq!(command_publish(&mut b, vec![], vec![]), Err(Error::EmptyOperands));
    assert_eq!(command_upgrade(&mut b, vec![], vec![], addr(1), x), Err(Error::EmptyOperands));
    assert_eq!(command_upgrade(&mut b, vec![vec![1]], vec![], addr(1), 4), Err(Error::UnknownArgument(4)));
    assert_eq!(b.num_commands(), 0);
    assert_eq!(b.num_arguments(), 1);
}

#[test]
fn move_call_checks_names() {
    let mut b = new_builder();
    let bad_module = command_move_call(&mut b, addr(2), "1coin".to_string(), "split".to_string(), vec![], vec![]);
    assert_eq!(bad_module, Err(Error::InvalidModuleName));
    assert_eq!(bad_module.unwrap_err().kind(), ErrorKind::Naming);
    let bad_fn = command_move_call(&mut b, addr(2), "coin".to_string(), "sp-lit".to_string(), vec![], vec![]);
    assert_eq!(bad_fn, Err(Error::InvalidFunctionName));
    let lone_underscore = command_move_call(&mut b, addr(2), "_".to_string(), "f".to_string(), vec![], vec![]);
    assert_eq!(lone_underscore, Err(Error::InvalidModuleName));
    let bad_tag = command_move_call(
        &mut b,
        addr(2),
        "coin".to_string(),
        "split".to_string(),
        vec!["not a type".to_string()],
        vec![],
    );
    assert_eq!(bad_tag, Err(Error::InvalidTypeTag));
    let unknown = command_move_call(&mut b, addr(2), "coin".to_string(), "split".to_string(), vec![], vec![
        CallArg::PureBcs(vec![1]),
        CallArg::Id(7),
    ]);
    assert_eq!(unknown, Err(Error::UnknownArgument(7)));
    assert_eq!(b.num_arguments(), 0);
    assert_eq!(b.num_inputs(), 0);
}

#[test]
fn move_call_adds_pure_operands_first() {
    let mut b = configured();
    let coin = input_object(&mut b, ObjectKind::Owned, addr(5), 1, Some(digest(5)), None).unwrap();
    let r = command_move_call(
        &mut b,
        addr(2),
        "coin".to_string(),
        "split".to_string(),
        vec!["0x2::sui::SUI".to_string()],
        vec![CallArg::Id(coin), CallArg::PureBcs(vec![1, 0, 0, 0, 0, 0, 0, 0])],
    );
    assert_eq!(r, Ok(2));
    let tx = b.try_build().unwrap();
    assert_eq!(tx.inputs.len(), 2);
    assert_eq!(pure_of(&tx.inputs[1]), vec![1, 0, 0, 0, 0, 0, 0, 0]);
    match &tx.commands[0] {
        Command::MoveCall { module, function, type_args, arguments, .. } => {
            assert_eq!(module, "coin");
            assert_eq!(function, "split");
            assert_eq!(type_args, &vec!["0x2::sui::SUI".to_string()]);
            assert_eq!(arguments, &vec![FlatArg::Input(0), FlatArg::Input(1)]);
        }
        _ => panic!("expected a move call"),
    }
}

#[test]
fn make_move_vec_checks_type_tag() {
    let mut b = new_builder();
    let x = pure_u64(&mut b, 1);
    assert_eq!(command_make_move_vec(&mut b, Some("u64".to_string()), &vec![x]), Ok(1));
    assert_eq!(command_make_move_vec(&mut b, Some("u64>".to_string()), &vec![x]), Err(Error::InvalidTypeTag));
    assert_eq!(command_make_move_vec(&mut b, Some("u64".to_string()), &vec![]), Err(Error::EmptyOperands));
    assert_eq!(b.num_commands(), 1);
}

#[test]
fn publish_and_upgrade_results() {
    let mut b = configured();
    let cap = command_publish(&mut b, vec![vec![0xA1, 0x1C]], vec![addr(1), addr(2)]).unwrap();
    let ticket = command_move_call(&mut b, addr(2), "package".to_string(), "authorize_upgrade".to_string(), vec![], vec![
        CallArg::Id(cap),
    ])
    .unwrap();
    let receipt = command_upgrade(&mut b, vec![vec![0xA1]], vec![addr(1)], addr(9), ticket).unwrap();
    assert_eq!((cap, ticket, receipt), (0, 1, 2));
    let tx = b.try_build().unwrap();
    match &tx.commands[2] {
        Command::Upgrade { ticket, package, .. } => {
            assert_eq!(*ticket, FlatArg::Result(1));
            assert_eq!(package.bytes, [9; 32]);
        }
        _ => panic!("expected an upgrade"),
    }
}

#[test]
fn object_inputs_need_digests() {
    let mut b = new_builder();
    for kind in [ObjectKind::Owned, ObjectKind::Immutable, ObjectKind::Receiving] {
        assert_eq!(input_object(&mut b, kind, addr(1), 1, None, None), Err(Error::MissingDigest));
    }
    assert_eq!(input_object(&mut b, ObjectKind::Shared, addr(1), 4, None, None), Ok(0));
    assert_eq!(input_object(&mut b, ObjectKind::Receiving, addr(1), 4, Some(digest(3)), None), Ok(1));
    match ObjectInput::from_parts(ObjectKind::Shared, addr(1), 4, None, Some(false)) {
        Ok(ObjectInput::Shared { mutable, version, .. }) => {
            assert!(!mutable);
            assert_eq!(version, 4);
        }
        _ => panic!("expected a shared object"),
    }
    match ObjectInput::from_parts(ObjectKind::Shared, addr(1), 4, None, None) {
        Ok(ObjectInput::Shared { mutable, .. }) => assert!(mutable),
        _ => panic!("expected a shared object"),
    }
}

#[test]
fn pure_values_are_little_endian() {
    let mut b = configured();
    pure_bool(&mut b, 0);
    pure_bool(&mut b, 7);
    pure_u8(&mut b, 0xAB);
    pure_u16(&mut b, 0x0102);
    pure_u32(&mut b, 0x0102_0304);
    pure_u64(&mut b, u64::MAX);
    pure_u128(&mut b, 1, 2);
    pure_raw_bcs(&mut b, vec![9, 9]);
    let tx = b.try_build().unwrap();
    let bytes: Vec<Vec<u8>> = tx.inputs.iter().map(pure_of).collect();
    assert_eq!(bytes[0], vec![0]);
    assert_eq!(bytes[1], vec![1]);
    assert_eq!(bytes[2], vec![0xAB]);
    assert_eq!(bytes[3], vec![2, 1]);
    assert_eq!(bytes[4], vec![4, 3, 2, 1]);
    assert_eq!(bytes[5], vec![0xFF; 8]);
    assert_eq!(bytes[6], vec![1, 0, 0, 0, 0, 0, 0, 0, 2, 0, 0, 0, 0, 0, 0, 0]);
    assert_eq!(bytes[7], vec![9, 9]);
}

#[test]
fn encode_uint_widths() {
    assert_eq!(encode_uint(0x0A0B, 4), vec![0x0B, 0x0A, 0, 0]);
    assert_eq!(encode_uint(0x1FF, 1), vec![0xFF]);
    assert_eq!(encode_uint(5, 0), Vec::<u8>::new());
}

#[test]
fn payload_is_framed_with_its_length() {
    assert_eq!(frame_payload(&vec![7, 8, 9]), Ok(vec![3, 0, 0, 0, 7, 8, 9]));
    assert_eq!(frame_payload(&vec![]), Ok(vec![0, 0, 0, 0]));
    let big = vec![1u8; 300];
    let framed = frame_payload(&big).unwrap();
    assert_eq!(&framed[..4], &[44, 1, 0, 0]);
    assert_eq!(framed.len(), 304);
}

#[test]
fn addresses_read_from_hex_text() {
    let mut two = [0u8; 32];
    two[31] = 2;
    assert_eq!(address_from_text("0x2").unwrap().bytes, two);
    let mut full = [0u8; 32];
    full[30] = 0xAB;
    full[31] = 0xCD;
    assert_eq!(address_from_text("abcd").unwrap().bytes, full);
    assert_eq!(address_from_text("0x").unwrap_err(), Error::InvalidAddress);
    assert_eq!(address_from_text("0xzz").unwrap_err(), Error::InvalidAddress);
    assert_eq!(address_from_text("").unwrap_err(), Error::InvalidAddress);
}

#[test]
fn digests_read_from_base58_text() {
    assert_eq!(digest_from_text("11111111111111111111111111111111").unwrap().bytes, [0u8; 32]);
    assert_eq!(digest_from_text("0OIl").unwrap_err(), Error::InvalidDigest);
    assert_eq!(digest_from_text(&"z".repeat(60)).unwrap_err(), Error::InvalidDigest);
    assert_eq!(Error::InvalidDigest.kind(), ErrorKind::Input);
}

#[test]
fn nested_results_follow_the_split() {
    let mut b = new_builder();
    assert_eq!(gas_argument(&mut b), 0);
    assert_eq!(pure_u64(&mut b, 1), 1);
    assert_eq!(pure_u64(&mut b, 2), 2);
    assert_eq!(command_split_coins(&mut b, 0, &vec![1, 2]), Ok(3));
    assert_eq!(nested_result(&mut b, 3, 0), Ok(4));
    assert_eq!(nested_result(&mut b, 3, 1), Ok(5));
}
