//! The calls this library makes into `uuid`, `rand` and std, each behind a
//! small item whose contract is taken on trust.
use vstd::prelude::*;
use rand::Rng;
use rand::rngs::ThreadRng;
use std::sync::mpsc::{Receiver, Sender};

verus! {

/// The bits that a random (version 4, RFC 4122 variant) identifier always has set a fixed way.
pub open spec fn random_id_fixed_bits(id: u128) -> bool {
    id & 0xF000C000000000000000u128 == 0x40008000000000000000u128
}

/// Calls `uuid::Uuid::new_v4` and hands back the identifier as its big-endian
/// `u128` (`Uuid::as_u128`). The value is random; the only thing claimed is
/// what `new_v4` always forces: the version nibble reads 4 and the two top
/// variant bits read `10`.
#[verifier::external_body]
pub(crate) fn new_random_id() -> (id: u128)
    ensures
        random_id_fixed_bits(id),
{
    uuid::Uuid::new_v4().as_u128()
}

#[verifier::external_type_specification]
#[verifier::external_body]
pub struct ExThreadRng(ThreadRng);

/// Calls `rand::thread_rng`, a handle on the thread-local generator. Nothing is
/// claimed of its state.
#[verifier::external_body]
pub(crate) fn new_thread_rng() -> ThreadRng {
    rand::thread_rng()
}

/// Calls `Rng::gen_range(0..bound)` on the thread-local generator. The value is
/// random; its documentation promises that it lies in the half-open range, and
/// it panics on an empty range, which `requires` leaves out.
#[verifier::external_body]
pub(crate) fn random_index_below(rng: &mut ThreadRng, bound: usize) -> (r: usize)
    requires
        bound > 0,
    ensures
        r < bound,
{
    rng.gen_range(0..bound)
}

/// Calls `Rng::gen_range(low..=high)` on the thread-local generator. The value
/// is random; its documentation promises that it lies in the closed range, and
/// it panics on an empty range, which `requires` leaves out.
#[verifier::external_body]
pub(crate) fn random_between_inclusive(rng: &mut ThreadRng, low: u32, high: u32) -> (r: u32)
    requires
        low <= high,
    ensures
        low <= r <= high,
{
    rng.gen_range(low..=high)
}

#[verifier::external_type_specification]
#[verifier::external_body]
#[verifier::reject_recursive_types(T)]
pub struct ExSender<T>(Sender<T>);

#[verifier::external_type_specification]
#[verifier::external_body]
#[verifier::reject_recursive_types(T)]
pub struct ExReceiver<T>(Receiver<T>);

/// Calls `std::sync::mpsc::channel`, which opens a fresh channel and hands back
/// both of its ends. Nothing is claimed of the two handles.
#[verifier::external_body]
pub(crate) fn new_channel<T>() -> (Sender<T>, Receiver<T>) {
    std::sync::mpsc::channel()
}

/// The character of a decimal digit.
pub open spec fn digit_char(d: nat) -> char {
    (d + 48) as char
}

/// The decimal digits of `n`, most significant first, with no leading zeros.
pub open spec fn decimal_text(n: nat) -> Seq<char>
    decreases n,
{
    if n < 10 {
        seq![digit_char(n)]
    } else {
        decimal_text(n / 10).push(digit_char(n % 10))
    }
}

/// Calls `ToString::to_string` on a `usize`, whose `Display` writes the number
/// in decimal: the claim is that the text is exactly its decimal digits.
#[verifier::external_body]
pub(crate) fn usize_text(n: usize) -> (s: String)
    ensures
        s@ == decimal_text(n as nat),
{
    n.to_string()
}

} // verus!
