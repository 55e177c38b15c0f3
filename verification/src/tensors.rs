//! Quantized tensors as mining sees them: a size, bytes, and an address on a device.
use candle_core::quantized::QTensor;
use vstd::prelude::*;

verus! {

/// A quantized tensor of `candle_core`.
#[verifier::external_type_specification]
#[verifier::external_body]
pub struct ExQTensor(candle_core::quantized::QTensor);

/// The error of `candle_core`.
#[verifier::external_type_specification]
#[verifier::external_body]
pub struct ExCandleError(candle_core::Error);

/// The quantized bytes that a tensor holds.
pub uninterp spec fn tensor_data(t: QTensor) -> Seq<u8>;

/// Calls `QTensor::storage_size_in_bytes`, which gives the number of quantized bytes that the
/// tensor holds.
#[verifier::external_body]
pub(crate) fn storage_size(t: &QTensor) -> (n: usize)
    ensures
        n == tensor_data(*t).len(),
{
    t.storage_size_in_bytes()
}

/// Calls `QTensor::data`, which copies the quantized bytes to the host where they are not there
/// already. When that succeeds the bytes are those that the tensor holds. Whether it succeeds is up
/// to the device, and is left open.
#[verifier::external_body]
fn data(t: &QTensor) -> (r: Result<Vec<u8>, candle_core::Error>)
    ensures
        r matches Ok(data) ==> data@ == tensor_data(*t),
{
    Ok(t.data()?.into_owned())
}

/// Calls `QTensor::device_ptr`, and gives the pointer as a number. The address is the device's
/// choice, and only some devices have one, so nothing is said of the result.
#[verifier::external_body]
fn device_ptr(t: &QTensor) -> (r: Result<u64, candle_core::Error>) {
    Ok(t.device_ptr()? as usize as u64)
}

/// Whether `QTensor::device_ptr` gave this address for a tensor.
pub closed spec fn is_address(t: QTensor, address: u64) -> bool {
    call_ensures(device_ptr, (&t,), Ok::<u64, candle_core::Error>(address))
}

/// Whether `QTensor::device_ptr` gave an address for a tensor.
pub open spec fn has_address(t: QTensor) -> bool {
    exists|address: u64| is_address(t, address)
}

/// Whether `QTensor::device_ptr` failed with this error for a tensor.
pub closed spec fn address_refused(t: QTensor, e: candle_core::Error) -> bool {
    call_ensures(device_ptr, (&t,), Err::<u64, candle_core::Error>(e))
}

/// Whether `QTensor::data` gave the bytes of a tensor.
pub closed spec fn was_read(t: QTensor) -> bool {
    exists|bytes: Vec<u8>|
        #[trigger] call_ensures(data, (&t,), Ok::<Vec<u8>, candle_core::Error>(bytes))
}

/// Whether `QTensor::data` failed with this error for a tensor.
pub closed spec fn read_refused(t: QTensor, e: candle_core::Error) -> bool {
    call_ensures(data, (&t,), Err::<Vec<u8>, candle_core::Error>(e))
}

/// Puts a question to a tensor. The answer is one that the question has for this tensor.
fn ask<R, F: Fn(&QTensor) -> R>(question: F, t: &QTensor) -> (r: R)
    requires
        call_requires(question, (t,)),
    ensures
        call_ensures(question, (t,), r),
{
    question(t)
}

/// The bytes of a tensor, on the host.
pub(crate) fn read_data(t: &QTensor) -> (r: Result<Vec<u8>, candle_core::Error>)
    ensures
        match r {
            Ok(data) => data@ == tensor_data(*t) && was_read(*t),
            Err(e) => read_refused(*t, e),
        },
{
    ask(data, t)
}

/// The address of a tensor on its device.
pub(crate) fn device_address(t: &QTensor) -> (r: Result<u64, candle_core::Error>)
    ensures
        match r {
            Ok(address) => is_address(*t, address),
            Err(e) => address_refused(*t, e),
        },
{
    ask(device_ptr, t)
}

} // verus!
