//! ECDSA over secp256k1 for smart contracts: recovering the signer's public
//! key, decompressing a public key, and verifying a signature.

use crate::natives::{
    add_gas, args_count_error, gas_add, gas_mul, mul_gas, num_bytes, pop_bytes, pop_u8,
    value_views, InternalGas, InternalGasPerByte, NativeResult, NativeResultView, PartialVMError,
    PartialVMResult, Value, ValueView, E_INCORRECT_LENGTH_OF_ARGS,
};
use fastcrypto::hash::{Keccak256, Sha256};
use fastcrypto::secp256k1::recoverable::Secp256k1RecoverableSignature;
use fastcrypto::secp256k1::{Secp256k1PublicKey, Secp256k1Signature};
use fastcrypto::traits::{RecoverableSignature, ToFromBytes};
use vstd::prelude::*;

verus! {

pub const E_FAIL_TO_RECOVER_PUBKEY: u64 = 1;

pub const E_INVALID_SIGNATURE: u64 = 2;

pub const E_INVALID_PUBKEY: u64 = 3;

pub const E_INVALID_HASH_TYPE: u64 = 4;

pub const KECCAK256: u8 = 0;

pub const SHA256: u8 = 1;

/// Whether 65 bytes are a signature with a recovery id.
pub uninterp spec fn secp256k1_recoverable_signature_valid(signature: Seq<u8>) -> bool;

/// The compressed public key that a recoverable signature over the
/// Keccak-256 digest of a message belongs to, if one can be recovered.
pub uninterp spec fn secp256k1_recover_keccak256(message: Seq<u8>, signature: Seq<u8>) -> Option<
    Seq<u8>,
>;

/// The compressed public key that a recoverable signature over the SHA-256
/// digest of a message belongs to, if one can be recovered.
pub uninterp spec fn secp256k1_recover_sha256(message: Seq<u8>, signature: Seq<u8>) -> Option<
    Seq<u8>,
>;

/// Whether bytes are a signature.
pub uninterp spec fn secp256k1_signature_valid(signature: Seq<u8>) -> bool;

/// Whether bytes are a public key, compressed or not.
pub uninterp spec fn secp256k1_public_key_valid(public_key: Seq<u8>) -> bool;

/// The uncompressed form of a public key.
pub uninterp spec fn secp256k1_decompressed(public_key: Seq<u8>) -> Seq<u8>;

/// The shape of an uncompressed public key: 65 bytes, of which the first is
/// the tag 4.
pub open spec fn is_uncompressed(key: Seq<u8>) -> bool {
    key.len() == 65 && key[0] == 4
}

/// Whether a signature over the Keccak-256 digest of a message verifies
/// under a public key.
pub uninterp spec fn secp256k1_verifies_keccak256(
    message: Seq<u8>,
    public_key: Seq<u8>,
    signature: Seq<u8>,
) -> bool;

/// Whether a signature over the SHA-256 digest of a message verifies under a
/// public key.
pub uninterp spec fn secp256k1_verifies_sha256(
    message: Seq<u8>,
    public_key: Seq<u8>,
    signature: Seq<u8>,
) -> bool;

/// Parses with `Secp256k1RecoverableSignature::from_bytes` of `fastcrypto`.
/// The contract claims that whether the bytes parse depends on them alone.
#[verifier::external_body]
fn recoverable_signature_parses(signature: &[u8]) -> (valid: bool)
    ensures
        valid == secp256k1_recoverable_signature_valid(signature@),
{
    <Secp256k1RecoverableSignature as ToFromBytes>::from_bytes(signature).is_ok()
}

/// Recovers with `recover_with_hash::<Keccak256>` of `fastcrypto`, after
/// parsing the signature. The contract claims that the recovered key, in its
/// compressed form, depends on message and signature alone.
#[verifier::external_body]
fn recover_keccak256(message: &[u8], signature: &[u8]) -> (r: Option<Vec<u8>>)
    ensures
        match secp256k1_recover_keccak256(message@, signature@) {
            Some(key) => r matches Some(k) && k@ == key,
            None => r is None,
        },
{
    match <Secp256k1RecoverableSignature as ToFromBytes>::from_bytes(signature) {
        Ok(sig) => sig.recover_with_hash::<Keccak256>(message).ok().map(|key| key.as_bytes().to_vec()),
        Err(_) => None,
    }
}

/// Recovers with `recover_with_hash::<Sha256>` of `fastcrypto`, after parsing
/// the signature. The contract claims that the recovered key, in its
/// compressed form, depends on message and signature alone.
#[verifier::external_body]
fn recover_sha256(message: &[u8], signature: &[u8]) -> (r: Option<Vec<u8>>)
    ensures
        match secp256k1_recover_sha256(message@, signature@) {
            Some(key) => r matches Some(k) && k@ == key,
            None => r is None,
        },
{
    match <Secp256k1RecoverableSignature as ToFromBytes>::from_bytes(signature) {
        Ok(sig) => sig.recover_with_hash::<Sha256>(message).ok().map(|key| key.as_bytes().to_vec()),
        Err(_) => None,
    }
}

/// Parses with `Secp256k1Signature::from_bytes` of `fastcrypto`. The
/// contract claims that whether the bytes parse depends on them alone.
#[verifier::external_body]
fn signature_parses(signature: &[u8]) -> (valid: bool)
    ensures
        valid == secp256k1_signature_valid(signature@),
{
    <Secp256k1Signature as ToFromBytes>::from_bytes(signature).is_ok()
}

/// Parses with `Secp256k1PublicKey::from_bytes` of `fastcrypto`. The
/// contract claims that whether the bytes parse depends on them alone.
#[verifier::external_body]
fn public_key_parses(public_key: &[u8]) -> (valid: bool)
    ensures
        valid == secp256k1_public_key_valid(public_key@),
{
    <Secp256k1PublicKey as ToFromBytes>::from_bytes(public_key).is_ok()
}

/// Parses with `Secp256k1PublicKey::from_bytes` of `fastcrypto` and
/// serialises the key with `serialize_uncompressed`. The contract claims that
/// a key comes back exactly for bytes that parse, that it depends on them
/// alone, and that it has the uncompressed form: an array of 65 bytes that
/// begins with the tag 4.
#[verifier::external_body]
fn decompress(public_key: &[u8]) -> (r: Option<Vec<u8>>)
    ensures
        r is Some == secp256k1_public_key_valid(public_key@),
        r matches Some(key) ==> key@ == secp256k1_decompressed(public_key@) && is_uncompressed(
            key@,
        ),
{
    match <Secp256k1PublicKey as ToFromBytes>::from_bytes(public_key) {
        Ok(key) => Some(key.pubkey.serialize_uncompressed().to_vec()),
        Err(_) => None,
    }
}

/// Verifies with `verify_with_hash::<Keccak256>` of `fastcrypto`, after
/// parsing key and signature. The contract claims that the answer depends
/// on the three byte strings alone; bytes that do not parse do not verify.
#[verifier::external_body]
fn verify_keccak256(message: &[u8], public_key: &[u8], signature: &[u8]) -> (accepted: bool)
    ensures
        accepted == secp256k1_verifies_keccak256(message@, public_key@, signature@),
{
    match (
        <Secp256k1PublicKey as ToFromBytes>::from_bytes(public_key),
        <Secp256k1Signature as ToFromBytes>::from_bytes(signature),
    ) {
        (Ok(key), Ok(sig)) => key.verify_with_hash::<Keccak256>(message, &sig).is_ok(),
        _ => false,
    }
}

/// Verifies with `verify_with_hash::<Sha256>` of `fastcrypto`, after parsing
/// key and signature. The contract claims that the answer depends on the
/// three byte strings alone; bytes that do not parse do not verify.
#[verifier::external_body]
fn verify_sha256(message: &[u8], public_key: &[u8], signature: &[u8]) -> (accepted: bool)
    ensures
        accepted == secp256k1_verifies_sha256(message@, public_key@, signature@),
{
    match (
        <Secp256k1PublicKey as ToFromBytes>::from_bytes(public_key),
        <Secp256k1Signature as ToFromBytes>::from_bytes(signature),
    ) {
        (Ok(key), Ok(sig)) => key.verify_with_hash::<Sha256>(message, &sig).is_ok(),
        _ => false,
    }
}

/// What a function of this module costs: a base and an amount per byte of
/// its arguments.
#[derive(Debug, Clone)]
pub struct FromBytesGasParameters {
    pub base: InternalGas,
    pub per_byte: InternalGasPerByte,
}

impl FromBytesGasParameters {
    /// Parameters under which everything is free.
    pub fn zeros() -> (p: Self)
        ensures
            p.base == 0,
            p.per_byte == 0,
    {
        Self { base: 0, per_byte: 0 }
    }

    /// The cost of arguments with `bytes` bytes in all.
    pub open spec fn cost(self, bytes: nat) -> u64 {
        gas_add(self.base, gas_mul(self.per_byte, num_bytes(bytes)))
    }
}

/// The abort with which a native function answers a wrong number of
/// arguments.
pub open spec fn wrong_args(gas_params: FromBytesGasParameters) -> PartialVMResult<
    NativeResultView,
> {
    Ok(NativeResultView::Abort { cost: gas_params.base, abort_code: E_INCORRECT_LENGTH_OF_ARGS })
}

/// What `native_ecrecover` answers. It takes no type arguments and three
/// arguments: signature, message, and hash function. The cost grows with
/// the bytes of message and signature.
pub open spec fn ecrecover(
    gas_params: FromBytesGasParameters,
    ty_args: nat,
    args: Seq<ValueView>,
) -> PartialVMResult<NativeResultView> {
    if ty_args != 0 || args.len() != 3 {
        wrong_args(gas_params)
    } else {
        match (args[0], args[1], args[2]) {
            (ValueView::VectorU8(signature), ValueView::VectorU8(message), ValueView::U8(hash)) => {
                let cost = gas_params.cost(message.len() + signature.len());
                if !secp256k1_recoverable_signature_valid(signature) {
                    Ok(NativeResultView::Abort { cost, abort_code: E_INVALID_SIGNATURE })
                } else if hash != KECCAK256 && hash != SHA256 {
                    Ok(NativeResultView::Abort { cost, abort_code: E_INVALID_HASH_TYPE })
                } else {
                    let recovered = if hash == KECCAK256 {
                        secp256k1_recover_keccak256(message, signature)
                    } else {
                        secp256k1_recover_sha256(message, signature)
                    };
                    match recovered {
                        Some(key) => Ok(
                            NativeResultView::Success {
                                cost,
                                ret_vals: seq![ValueView::VectorU8(key)],
                            },
                        ),
                        None => Ok(
                            NativeResultView::Abort { cost, abort_code: E_FAIL_TO_RECOVER_PUBKEY },
                        ),
                    }
                }
            },
            _ => Err(PartialVMError::InternalTypeError),
        }
    }
}

/// What `native_decompress_pubkey` answers. It takes no type arguments and
/// one argument, the public key. The cost grows with its bytes.
pub open spec fn decompress_pubkey(
    gas_params: FromBytesGasParameters,
    ty_args: nat,
    args: Seq<ValueView>,
) -> PartialVMResult<NativeResultView> {
    if ty_args != 0 || args.len() != 1 {
        wrong_args(gas_params)
    } else {
        match args[0] {
            ValueView::VectorU8(public_key) => {
                let cost = gas_params.cost(public_key.len());
                if secp256k1_public_key_valid(public_key) {
                    Ok(
                        NativeResultView::Success {
                            cost,
                            ret_vals: seq![
                                ValueView::VectorU8(secp256k1_decompressed(public_key)),
                            ],
                        },
                    )
                } else {
                    Ok(NativeResultView::Abort { cost, abort_code: E_INVALID_PUBKEY })
                }
            },
            _ => Err(PartialVMError::InternalTypeError),
        }
    }
}

/// What `native_verify` costs: the base and, each on its own, the bytes of
/// message, signature and public key.
pub open spec fn verify_cost(
    gas_params: FromBytesGasParameters,
    message: Seq<u8>,
    signature: Seq<u8>,
    public_key: Seq<u8>,
) -> u64 {
    gas_add(
        gas_add(
            gas_add(gas_params.base, gas_mul(gas_params.per_byte, num_bytes(message.len()))),
            gas_mul(gas_params.per_byte, num_bytes(signature.len())),
        ),
        gas_mul(gas_params.per_byte, num_bytes(public_key.len())),
    )
}

/// What `native_verify` answers. It takes no type arguments and four
/// arguments: signature, public key, message, and hash function. With a
/// hash function that it does not know the signature does not verify.
pub open spec fn verify(
    gas_params: FromBytesGasParameters,
    ty_args: nat,
    args: Seq<ValueView>,
) -> PartialVMResult<NativeResultView> {
    if ty_args != 0 || args.len() != 4 {
        wrong_args(gas_params)
    } else {
        match (args[0], args[1], args[2], args[3]) {
            (
                ValueView::VectorU8(signature),
                ValueView::VectorU8(public_key),
                ValueView::VectorU8(message),
                ValueView::U8(hash),
            ) => {
                let cost = verify_cost(gas_params, message, signature, public_key);
                if !secp256k1_signature_valid(signature) {
                    Ok(NativeResultView::Abort { cost, abort_code: E_INVALID_SIGNATURE })
                } else if !secp256k1_public_key_valid(public_key) {
                    Ok(NativeResultView::Abort { cost, abort_code: E_INVALID_PUBKEY })
                } else {
                    let accepted = if hash == KECCAK256 {
                        secp256k1_verifies_keccak256(message, public_key, signature)
                    } else if hash == SHA256 {
                        secp256k1_verifies_sha256(message, public_key, signature)
                    } else {
                        false
                    };
                    Ok(
                        NativeResultView::Success {
                            cost,
                            ret_vals: seq![ValueView::Bool(accepted)],
                        },
                    )
                }
            },
            _ => Err(PartialVMError::InternalTypeError),
        }
    }
}

/// The number of bytes of a vector as a 64-bit amount.
fn byte_count(bytes: &Vec<u8>) -> (n: u64)
    ensures
        n == num_bytes(bytes@.len()),
{
    bytes.len() as u64
}

/// Where the last argument has the wrong type, so has the whole list.
proof fn lemma_last_view(args: Seq<Value>)
    requires
        args.len() > 0,
    ensures
        value_views(args).last() == args.last()@,
        value_views(args.drop_last()) == value_views(args).drop_last(),
{
    assert(value_views(args.drop_last()) =~= value_views(args).drop_last());
}

/// Recovers the public key of the signer of a message.
pub fn native_ecrecover(
    gas_params: &FromBytesGasParameters,
    ty_args: usize,
    args: Vec<Value>,
) -> (r: PartialVMResult<NativeResult>)
    ensures
        match ecrecover(*gas_params, ty_args as nat, value_views(args@)) {
            Ok(result) => r matches Ok(x) && x@ == result,
            Err(e) => r matches Err(x) && x == e,
        },
{
    let mut args = args;
    let ghost all = args@;
    if ty_args != 0 {
        return args_count_error(gas_params.base);
    }
    if args.len() != 3 {
        return args_count_error(gas_params.base);
    }
    proof {
        lemma_last_view(all);
        lemma_last_view(all.drop_last());
        lemma_last_view(all.drop_last().drop_last());
    }
    let hash = match pop_u8(&mut args) {
        Ok(hash) => hash,
        Err(e) => { return Err(e); },
    };
    let msg = match pop_bytes(&mut args) {
        Ok(msg) => msg,
        Err(e) => { return Err(e); },
    };
    let signature = match pop_bytes(&mut args) {
        Ok(signature) => signature,
        Err(e) => { return Err(e); },
    };
    let size = add_gas(byte_count(&msg), byte_count(&signature));
    let cost = add_gas(gas_params.base, mul_gas(gas_params.per_byte, size));
    assert(size == num_bytes(msg@.len() + signature@.len()));

    if !recoverable_signature_parses(signature.as_slice()) {
        return Ok(NativeResult::err(cost, E_INVALID_SIGNATURE));
    }
    let pk = if hash == KECCAK256 {
        recover_keccak256(msg.as_slice(), signature.as_slice())
    } else if hash == SHA256 {
        recover_sha256(msg.as_slice(), signature.as_slice())
    } else {
        return Ok(NativeResult::err(cost, E_INVALID_HASH_TYPE));
    };
    match pk {
        Some(pk) => Ok(NativeResult::ok(cost, Value::VectorU8(pk))),
        None => Ok(NativeResult::err(cost, E_FAIL_TO_RECOVER_PUBKEY)),
    }
}

/// Turns a public key into its uncompressed form. What it returns on
/// success is one vector of bytes in the shape of an uncompressed key.
pub fn native_decompress_pubkey(
    gas_params: &FromBytesGasParameters,
    ty_args: usize,
    args: Vec<Value>,
) -> (r: PartialVMResult<NativeResult>)
    ensures
        match decompress_pubkey(*gas_params, ty_args as nat, value_views(args@)) {
            Ok(result) => r matches Ok(x) && x@ == result,
            Err(e) => r matches Err(x) && x == e,
        },
        r matches Ok(x) ==> (x@ matches NativeResultView::Success { ret_vals, .. }
            ==> ret_vals.len() == 1 && (ret_vals[0] matches ValueView::VectorU8(key)
            && is_uncompressed(key))),
{
    let mut args = args;
    let ghost all = args@;
    if ty_args != 0 {
        return args_count_error(gas_params.base);
    }
    if args.len() != 1 {
        return args_count_error(gas_params.base);
    }
    proof {
        lemma_last_view(all);
    }
    let pubkey = match pop_bytes(&mut args) {
        Ok(pubkey) => pubkey,
        Err(e) => { return Err(e); },
    };
    let cost = add_gas(gas_params.base, mul_gas(gas_params.per_byte, byte_count(&pubkey)));
    match decompress(pubkey.as_slice()) {
        Some(uncompressed) => Ok(NativeResult::ok(cost, Value::VectorU8(uncompressed))),
        None => Ok(NativeResult::err(cost, E_INVALID_PUBKEY)),
    }
}

/// Verifies a signature of a message under a public key.
pub fn native_verify(
    gas_params: &FromBytesGasParameters,
    ty_args: usize,
    args: Vec<Value>,
) -> (r: PartialVMResult<NativeResult>)
    ensures
        match verify(*gas_params, ty_args as nat, value_views(args@)) {
            Ok(result) => r matches Ok(x) && x@ == result,
            Err(e) => r matches Err(x) && x == e,
        },
{
    let mut args = args;
    let ghost all = args@;
    if ty_args != 0 {
        return args_count_error(gas_params.base);
    }
    if args.len() != 4 {
        return args_count_error(gas_params.base);
    }
    proof {
        lemma_last_view(all);
        lemma_last_view(all.drop_last());
        lemma_last_view(all.drop_last().drop_last());
        lemma_last_view(all.drop_last().drop_last().drop_last());
    }
    let hash = match pop_u8(&mut args) {
        Ok(hash) => hash,
        Err(e) => { return Err(e); },
    };
    let msg = match pop_bytes(&mut args) {
        Ok(msg) => msg,
        Err(e) => { return Err(e); },
    };
    let public_key_bytes = match pop_bytes(&mut args) {
        Ok(bytes) => bytes,
        Err(e) => { return Err(e); },
    };
    let signature_bytes = match pop_bytes(&mut args) {
        Ok(bytes) => bytes,
        Err(e) => { return Err(e); },
    };
    let cost = add_gas(
        add_gas(
            add_gas(gas_params.base, mul_gas(gas_params.per_byte, byte_count(&msg))),
            mul_gas(gas_params.per_byte, byte_count(&signature_bytes)),
        ),
        mul_gas(gas_params.per_byte, byte_count(&public_key_bytes)),
    );

    if !signature_parses(signature_bytes.as_slice()) {
        return Ok(NativeResult::err(cost, E_INVALID_SIGNATURE));
    }
    if !public_key_parses(public_key_bytes.as_slice()) {
        return Ok(NativeResult::err(cost, E_INVALID_PUBKEY));
    }
    let result = if hash == KECCAK256 {
        verify_keccak256(msg.as_slice(), public_key_bytes.as_slice(), signature_bytes.as_slice())
    } else if hash == SHA256 {
        verify_sha256(msg.as_slice(), public_key_bytes.as_slice(), signature_bytes.as_slice())
    } else {
        false
    };
    Ok(NativeResult::ok(cost, Value::Bool(result)))
}

/// What the functions of this module cost.
#[derive(Debug, Clone)]
pub struct GasParameters {
    pub ecrecover: FromBytesGasParameters,
    pub decompress_pubkey: FromBytesGasParameters,
    pub verify: FromBytesGasParameters,
}

impl GasParameters {
    /// Parameters under which everything is free.
    pub fn zeros() -> (p: Self)
        ensures
            p.ecrecover.base == 0 && p.ecrecover.per_byte == 0,
            p.decompress_pubkey.base == 0 && p.decompress_pubkey.per_byte == 0,
            p.verify.base == 0 && p.verify.per_byte == 0,
    {
        Self {
            ecrecover: FromBytesGasParameters::zeros(),
            decompress_pubkey: FromBytesGasParameters::zeros(),
            verify: FromBytesGasParameters::zeros(),
        }
    }
}

/// A function of this module together with what it costs.
#[derive(Debug, Clone)]
pub enum NativeFunction {
    Verify(FromBytesGasParameters),
    DecompressPubkey(FromBytesGasParameters),
    Ecrecover(FromBytesGasParameters),
}

impl NativeFunction {
    /// What the function answers.
    pub open spec fn result(self, ty_args: nat, args: Seq<ValueView>) -> PartialVMResult<
        NativeResultView,
    > {
        match self {
            NativeFunction::Verify(gas_params) => verify(gas_params, ty_args, args),
            NativeFunction::DecompressPubkey(gas_params) => decompress_pubkey(
                gas_params,
                ty_args,
                args,
            ),
            NativeFunction::Ecrecover(gas_params) => ecrecover(gas_params, ty_args, args),
        }
    }

    /// Calls the function.
    pub fn call(&self, ty_args: usize, args: Vec<Value>) -> (r: PartialVMResult<NativeResult>)
        ensures
            match self.result(ty_args as nat, value_views(args@)) {
                Ok(result) => r matches Ok(x) && x@ == result,
                Err(e) => r matches Err(x) && x == e,
            },
    {
        match self {
            NativeFunction::Verify(gas_params) => native_verify(gas_params, ty_args, args),
            NativeFunction::DecompressPubkey(gas_params) => native_decompress_pubkey(
                gas_params,
                ty_args,
                args,
            ),
            NativeFunction::Ecrecover(gas_params) => native_ecrecover(gas_params, ty_args, args),
        }
    }
}

/// The functions of this module under their names: `verify`,
/// `decompress_pubkey` and `ecrecover`, each with its gas parameters.
pub fn make_all(gas_params: GasParameters) -> (natives: Vec<(&'static str, NativeFunction)>)
    ensures
        natives@.len() == 3,
        natives@[0].0@ == "verify"@,
        natives@[0].1 == NativeFunction::Verify(gas_params.verify),
        natives@[1].0@ == "decompress_pubkey"@,
        natives@[1].1 == NativeFunction::DecompressPubkey(gas_params.decompress_pubkey),
        natives@[2].0@ == "ecrecover"@,
        natives@[2].1 == NativeFunction::Ecrecover(gas_params.ecrecover),
{
    let mut natives: Vec<(&'static str, NativeFunction)> = Vec::new();
    natives.push(("verify", NativeFunction::Verify(gas_params.verify)));
    natives.push(("decompress_pubkey", NativeFunction::DecompressPubkey(gas_params.decompress_pubkey)));
    natives.push(("ecrecover", NativeFunction::Ecrecover(gas_params.ecrecover)));
    natives
}

} // verus!
