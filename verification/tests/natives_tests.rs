use fastcrypto::hash::{Keccak256, Sha256};
use fastcrypto::secp256k1::recoverable::Secp256k1RecoverableSignature;
use fastcrypto::secp256k1::{Secp256k1KeyPair, Secp256k1PublicKey};
use fastcrypto::traits::{KeyPair, RecoverableSigner, ToFromBytes};
use rooch_sequencer::natives::ecdsa_k1::{
    make_all, native_decompress_pubkey, native_ecrecover, native_verify,
    FromBytesGasParameters, GasParameters, NativeFunction, E_FAIL_TO_RECOVER_PUBKEY,
    E_INVALID_HASH_TYPE, E_INVALID_PUBKEY, E_INVALID_SIGNATURE, KECCAK256, SHA256,
};
use rooch_sequencer::natives::{
    add_gas, args_count_error, mul_gas, NativeResult, PartialVMError, Value,
    E_INCORRECT_LENGTH_OF_ARGS,
};

fn key_pair() -> Secp256k1KeyPair {
    Secp256k1KeyPair::from_bytes(&[3u8; 32]).unwrap()
}

fn gas() -> FromBytesGasParameters {
    FromBytesGasParameters { base: 1000, per_byte: 7 }
}

fn bytes(b: &[u8]) -> Value {
    Value::VectorU8(b.to_vec())
}

fn success(cost: u64, value: Value) -> Result<NativeResult, PartialVMError> {
    Ok(NativeResult::Success { cost, ret_vals: vec![value] })
}

fn abort(cost: u64, abort_code: u64) -> Result<NativeResult, PartialVMError> {
    Ok(NativeResult::Abort { cost, abort_code })
}

#[test]
fn ecrecover_returns_the_signer() {
    let pair = key_pair();
    let message = b"hello sequencer";
    let public_key = pair.public().as_bytes().to_vec();
    assert_eq!(public_key.len(), 33);
    for (hash, signature) in [
        (KECCAK256, pair.sign_recoverable_with_hash::<Keccak256>(message)),
        (SHA256, pair.sign_recoverable_with_hash::<Sha256>(message)),
    ] {
        let signature = signature.as_bytes().to_vec();
        assert_eq!(signature.len(), 65);
        let cost = 1000 + 7 * (message.len() as u64 + 65);
        let args = vec![bytes(&signature), bytes(message), Value::U8(hash)];
        assert_eq!(
            native_ecrecover(&gas(), 0, args),
            success(cost, Value::VectorU8(public_key.clone()))
        );
        // Another message gives another key, or none.
        let other = vec![bytes(&signature), bytes(b"another message"), Value::U8(hash)];
        assert_ne!(
            native_ecrecover(&gas(), 0, other),
            success(cost, Value::VectorU8(public_key.clone()))
        );
    }
}

#[test]
fn ecrecover_aborts() {
    let pair = key_pair();
    let message = b"m";
    let signature = pair.sign_recoverable_with_hash::<Keccak256>(message).as_bytes().to_vec();
    let cost = 1000 + 7 * 66;

    let wrong_count = vec![bytes(&signature), bytes(message)];
    assert_eq!(native_ecrecover(&gas(), 0, wrong_count), abort(1000, E_INCORRECT_LENGTH_OF_ARGS));
    let args = vec![bytes(&signature), bytes(message), Value::U8(KECCAK256)];
    assert_eq!(
        native_ecrecover(&gas(), 1, args.clone()),
        abort(1000, E_INCORRECT_LENGTH_OF_ARGS)
    );

    let short = vec![bytes(&signature[..64]), bytes(message), Value::U8(KECCAK256)];
    assert_eq!(native_ecrecover(&gas(), 0, short), abort(1000 + 7 * 65, E_INVALID_SIGNATURE));

    let unknown_hash = vec![bytes(&signature), bytes(message), Value::U8(2)];
    assert_eq!(native_ecrecover(&gas(), 0, unknown_hash), abort(cost, E_INVALID_HASH_TYPE));
    // An invalid signature is found before an unknown hash function.
    let both = vec![bytes(&[0u8; 3]), bytes(message), Value::U8(2)];
    assert_eq!(native_ecrecover(&gas(), 0, both), abort(1000 + 7 * 4, E_INVALID_SIGNATURE));

    // A signature that parses but belongs to no key.
    let mut zero = vec![0u8; 65];
    zero[64] = 0;
    if Secp256k1RecoverableSignature::from_bytes(&zero).is_ok() {
        let args = vec![bytes(&zero), bytes(message), Value::U8(KECCAK256)];
        assert_eq!(native_ecrecover(&gas(), 0, args), abort(cost, E_FAIL_TO_RECOVER_PUBKEY));
    }

    let wrong_type = vec![bytes(&signature), bytes(message), Value::Bool(true)];
    assert_eq!(native_ecrecover(&gas(), 0, wrong_type), Err(PartialVMError::InternalTypeError));
    let wrong_type = vec![Value::U8(1), bytes(message), Value::U8(KECCAK256)];
    assert_eq!(native_ecrecover(&gas(), 0, wrong_type), Err(PartialVMError::InternalTypeError));
}

#[test]
fn decompress_pubkey_gives_the_uncompressed_key() {
    let pair = key_pair();
    let compressed = pair.public().as_bytes().to_vec();
    let uncompressed =
        Secp256k1PublicKey::from_bytes(&compressed).unwrap().pubkey.serialize_uncompressed();
    assert_eq!(uncompressed.len(), 65);
    assert_eq!(uncompressed[0], 4);
    assert_eq!(compressed.len(), 33);
    assert_eq!(uncompressed[1..33], compressed[1..]);
    assert_eq!(
        native_decompress_pubkey(&gas(), 0, vec![bytes(&compressed)]),
        success(1000 + 7 * 33, Value::VectorU8(uncompressed.to_vec()))
    );
    // An uncompressed key stays as it is.
    assert_eq!(
        native_decompress_pubkey(&gas(), 0, vec![bytes(&uncompressed)]),
        success(1000 + 7 * 65, Value::VectorU8(uncompressed.to_vec()))
    );
    assert_eq!(
        native_decompress_pubkey(&gas(), 0, vec![bytes(&[1, 2, 3])]),
        abort(1000 + 7 * 3, E_INVALID_PUBKEY)
    );
    assert_eq!(
        native_decompress_pubkey(&gas(), 0, vec![]),
        abort(1000, E_INCORRECT_LENGTH_OF_ARGS)
    );
    assert_eq!(
        native_decompress_pubkey(&gas(), 2, vec![bytes(&compressed)]),
        abort(1000, E_INCORRECT_LENGTH_OF_ARGS)
    );
    assert_eq!(
        native_decompress_pubkey(&gas(), 0, vec![Value::U8(0)]),
        Err(PartialVMError::InternalTypeError)
    );
}

#[test]
fn verify_accepts_only_the_right_signature() {
    let pair = key_pair();
    let message = b"pay 5 to bob";
    let public_key = pair.public().as_bytes().to_vec();
    let keccak = pair.sign_with_hash::<Keccak256>(message).as_bytes().to_vec();
    let sha = pair.sign_with_hash::<Sha256>(message).as_bytes().to_vec();
    assert_eq!(keccak.len(), 64);
    let cost = 1000 + 7 * message.len() as u64 + 7 * 64 + 7 * 33;
    let call = |signature: &[u8], key: &[u8], message: &[u8], hash: u8| {
        native_verify(
            &gas(),
            0,
            vec![bytes(signature), bytes(key), bytes(message), Value::U8(hash)],
        )
    };
    assert_eq!(call(&keccak, &public_key, message, KECCAK256), success(cost, Value::Bool(true)));
    assert_eq!(call(&sha, &public_key, message, SHA256), success(cost, Value::Bool(true)));
    // The wrong hash function, an unknown one, another message.
    assert_eq!(call(&keccak, &public_key, message, SHA256), success(cost, Value::Bool(false)));
    assert_eq!(call(&keccak, &public_key, message, 9), success(cost, Value::Bool(false)));
    assert_eq!(
        call(&keccak, &public_key, b"pay 6 to bob", KECCAK256),
        success(cost, Value::Bool(false))
    );

    assert_eq!(
        call(&keccak[..63], &public_key, message, KECCAK256),
        abort(cost - 7, E_INVALID_SIGNATURE)
    );
    assert_eq!(
        call(&keccak, &public_key[..32], message, KECCAK256),
        abort(cost - 7, E_INVALID_PUBKEY)
    );
    // An invalid signature is found before an invalid key.
    assert_eq!(call(&[], &[], message, KECCAK256), abort(cost - 7 * 97, E_INVALID_SIGNATURE));
    assert_eq!(native_verify(&gas(), 0, vec![]), abort(1000, E_INCORRECT_LENGTH_OF_ARGS));
    assert_eq!(
        native_verify(
            &gas(),
            0,
            vec![bytes(&keccak), bytes(&public_key), Value::Bool(false), Value::U8(0)]
        ),
        Err(PartialVMError::InternalTypeError)
    );
}

#[test]
fn gas_stops_at_the_largest_amount() {
    assert_eq!(add_gas(1, 2), 3);
    assert_eq!(add_gas(u64::MAX, 1), u64::MAX);
    assert_eq!(add_gas(u64::MAX - 1, 1), u64::MAX);
    assert_eq!(mul_gas(6, 7), 42);
    assert_eq!(mul_gas(u64::MAX / 2 + 1, 2), u64::MAX);
    let expensive = FromBytesGasParameters { base: u64::MAX - 10, per_byte: 1 << 62 };
    assert_eq!(
        native_decompress_pubkey(&expensive, 0, vec![bytes(&[0u8; 8])]),
        abort(u64::MAX, E_INVALID_PUBKEY)
    );
    assert_eq!(args_count_error(17), abort(17, 1));
    assert_eq!(E_INCORRECT_LENGTH_OF_ARGS, 1);
}

#[test]
fn zero_parameters_and_the_table_of_functions() {
    let zeros = GasParameters::zeros();
    assert_eq!((zeros.verify.base, zeros.verify.per_byte), (0, 0));
    assert_eq!((zeros.ecrecover.base, zeros.ecrecover.per_byte), (0, 0));
    assert_eq!((zeros.decompress_pubkey.base, zeros.decompress_pubkey.per_byte), (0, 0));
    let one = FromBytesGasParameters::zeros();
    assert_eq!((one.base, one.per_byte), (0, 0));

    let natives = make_all(GasParameters {
        ecrecover: FromBytesGasParameters { base: 1, per_byte: 0 },
        decompress_pubkey: FromBytesGasParameters { base: 2, per_byte: 0 },
        verify: FromBytesGasParameters { base: 3, per_byte: 0 },
    });
    let names: Vec<&str> = natives.iter().map(|(name, _)| *name).collect();
    assert_eq!(names, vec!["verify", "decompress_pubkey", "ecrecover"]);
    assert!(matches!(&natives[0].1, NativeFunction::Verify(p) if p.base == 3));
    assert!(matches!(&natives[1].1, NativeFunction::DecompressPubkey(p) if p.base == 2));
    assert!(matches!(&natives[2].1, NativeFunction::Ecrecover(p) if p.base == 1));
    // Each entry calls its function: with no arguments each charges its base.
    assert_eq!(natives[0].1.call(0, vec![]), abort(3, E_INCORRECT_LENGTH_OF_ARGS));
    assert_eq!(natives[1].1.call(0, vec![]), abort(2, E_INCORRECT_LENGTH_OF_ARGS));
    assert_eq!(natives[2].1.call(0, vec![]), abort(1, E_INCORRECT_LENGTH_OF_ARGS));
}
