//! Native functions offered to smart contracts, with the values and gas
//! accounting that they work on.

pub mod ecdsa_k1;

use vstd::prelude::*;

verus! {

/// Gas in internal units.
pub type InternalGas = u64;

/// Gas in internal units for every byte of an argument.
pub type InternalGasPerByte = u64;

/// The abort code of a native function that was called with the wrong
/// number of arguments or type arguments.
pub const E_INCORRECT_LENGTH_OF_ARGS: u64 = 1;

/// A value that a native function takes or returns.
#[derive(Clone, Debug, PartialEq, Eq)]
pub enum Value {
    U8(u8),
    Bool(bool),
    VectorU8(Vec<u8>),
}

/// Mathematical value of a `Value`.
pub enum ValueView {
    U8(u8),
    Bool(bool),
    VectorU8(Seq<u8>),
}

impl View for Value {
    type V = ValueView;

    open spec fn view(&self) -> ValueView {
        match self {
            Value::U8(x) => ValueView::U8(*x),
            Value::Bool(b) => ValueView::Bool(*b),
            Value::VectorU8(bytes) => ValueView::VectorU8(bytes@),
        }
    }
}

/// The values of a list.
pub open spec fn value_views(values: Seq<Value>) -> Seq<ValueView> {
    values.map_values(|v: Value| v@)
}

/// How a native function ended: with values, or aborted with a code. Either
/// way it charges gas.
#[derive(Clone, Debug, PartialEq, Eq)]
pub enum NativeResult {
    Success { cost: InternalGas, ret_vals: Vec<Value> },
    Abort { cost: InternalGas, abort_code: u64 },
}

/// Mathematical value of a `NativeResult`.
pub enum NativeResultView {
    Success { cost: InternalGas, ret_vals: Seq<ValueView> },
    Abort { cost: InternalGas, abort_code: u64 },
}

impl View for NativeResult {
    type V = NativeResultView;

    open spec fn view(&self) -> NativeResultView {
        match self {
            NativeResult::Success { cost, ret_vals } => NativeResultView::Success {
                cost: *cost,
                ret_vals: value_views(ret_vals@),
            },
            NativeResult::Abort { cost, abort_code } => NativeResultView::Abort {
                cost: *cost,
                abort_code: *abort_code,
            },
        }
    }
}

/// An error of the virtual machine itself, which no contract can catch.
#[derive(Clone, Copy, Debug, PartialEq, Eq, Structural)]
pub enum PartialVMError {
    /// An argument does not have the type that the function takes.
    InternalTypeError,
}

/// What a native function hands back to the virtual machine.
pub type PartialVMResult<T> = Result<T, PartialVMError>;

impl NativeResult {
    /// Success with one value.
    pub fn ok(cost: InternalGas, value: Value) -> (r: NativeResult)
        ensures
            r@ == (NativeResultView::Success { cost, ret_vals: seq![value@] }),
    {
        let mut ret_vals: Vec<Value> = Vec::new();
        ret_vals.push(value);
        let r = NativeResult::Success { cost, ret_vals };
        assert(value_views(ret_vals@) =~= seq![value@]);
        r
    }

    /// An abort.
    pub fn err(cost: InternalGas, abort_code: u64) -> (r: NativeResult)
        ensures
            r == (NativeResult::Abort { cost, abort_code }),
    {
        NativeResult::Abort { cost, abort_code }
    }
}

/// The sum of two amounts of gas, which stops at the largest amount.
pub open spec fn gas_add(a: u64, b: u64) -> u64 {
    if a + b > u64::MAX {
        u64::MAX
    } else {
        (a + b) as u64
    }
}

/// The product of two amounts, which stops at the largest amount.
pub open spec fn gas_mul(a: u64, b: u64) -> u64 {
    if a * b > u64::MAX {
        u64::MAX
    } else {
        (a * b) as u64
    }
}

/// A number of bytes as a 64-bit amount, which stops at the largest amount.
pub open spec fn num_bytes(n: nat) -> u64 {
    if n > u64::MAX {
        u64::MAX
    } else {
        n as u64
    }
}

/// Adds two amounts of gas.
pub fn add_gas(a: u64, b: u64) -> (sum: u64)
    ensures
        sum == gas_add(a, b),
{
    match a.checked_add(b) {
        Some(sum) => sum,
        None => u64::MAX,
    }
}

/// Multiplies an amount per byte by a number of bytes.
pub fn mul_gas(a: u64, b: u64) -> (product: u64)
    ensures
        product == gas_mul(a, b),
{
    match a.checked_mul(b) {
        Some(product) => product,
        None => u64::MAX,
    }
}

/// The result of a native function that was called with the wrong number of
/// arguments: an abort that charges the base gas.
pub fn args_count_error(base_gas: InternalGas) -> (r: PartialVMResult<NativeResult>)
    ensures
        r == Ok::<NativeResult, PartialVMError>(
            NativeResult::Abort { cost: base_gas, abort_code: E_INCORRECT_LENGTH_OF_ARGS },
        ),
{
    Ok(NativeResult::err(base_gas, E_INCORRECT_LENGTH_OF_ARGS))
}

/// Takes the last argument, which must be a byte.
pub fn pop_u8(args: &mut Vec<Value>) -> (r: PartialVMResult<u8>)
    requires
        old(args)@.len() > 0,
    ensures
        final(args)@ == old(args)@.drop_last(),
        match old(args)@.last() {
            Value::U8(x) => r == Ok::<u8, PartialVMError>(x),
            _ => r == Err::<u8, PartialVMError>(PartialVMError::InternalTypeError),
        },
{
    match args.pop() {
        Some(Value::U8(x)) => Ok(x),
        _ => Err(PartialVMError::InternalTypeError),
    }
}

/// Takes the last argument, which must be a vector of bytes.
pub fn pop_bytes(args: &mut Vec<Value>) -> (r: PartialVMResult<Vec<u8>>)
    requires
        old(args)@.len() > 0,
    ensures
        final(args)@ == old(args)@.drop_last(),
        match old(args)@.last() {
            Value::VectorU8(bytes) => r matches Ok(b) && b@ == bytes@,
            _ => r matches Err(e) && e == PartialVMError::InternalTypeError,
        },
{
    match args.pop() {
        Some(Value::VectorU8(bytes)) => Ok(bytes),
        _ => Err(PartialVMError::InternalTypeError),
    }
}

} // verus!
