//! What the buffered parser assumes of `heapless::Deque`, the bounded
//! double-ended queue that holds its bytes. Nothing in this file is proved:
//! each contract restates what the queue's source shows.

use vstd::prelude::*;

verus! {

/// Capacity of the queue of the buffered parser, in bytes.
pub const MAX_PACKET_SIZE: usize = 50;

/// `heapless::Deque`, a queue of at most `N` items held in place.
#[verifier::external_type_specification]
#[verifier::external_body]
#[verifier::reject_recursive_types(T)]
pub struct ExDeque<T, const N: usize>(heapless::Deque<T, N>);

/// The bytes that a queue holds, front first.
pub uninterp spec fn deque_bytes(deque: heapless::Deque<u8, MAX_PACKET_SIZE>) -> Seq<u8>;

/// `heapless::Deque::new`: a queue that holds nothing.
#[verifier::external_body]
pub(crate) fn deque_new() -> (deque: heapless::Deque<u8, MAX_PACKET_SIZE>)
    ensures
        deque_bytes(deque) == Seq::<u8>::empty(),
{
    heapless::Deque::new()
}

/// `heapless::Deque::len`: the number of bytes held.
#[verifier::external_body]
pub(crate) fn deque_len(deque: &heapless::Deque<u8, MAX_PACKET_SIZE>) -> (len: usize)
    ensures
        len == deque_bytes(*deque).len(),
{
    deque.len()
}

/// `heapless::Deque::front`: the byte at the front, if the queue holds any.
#[verifier::external_body]
pub(crate) fn deque_front(deque: &heapless::Deque<u8, MAX_PACKET_SIZE>) -> (front: Option<u8>)
    ensures
        front == (if deque_bytes(*deque).len() == 0 {
            None
        } else {
            Some(deque_bytes(*deque)[0])
        }),
{
    deque.front().copied()
}

/// `heapless::Deque::iter`: the bytes held, front first, each copied out.
#[verifier::external_body]
pub(crate) fn deque_iter(deque: &heapless::Deque<u8, MAX_PACKET_SIZE>) -> (bytes: Vec<u8>)
    ensures
        bytes@ == deque_bytes(*deque),
{
    deque.iter().copied().collect()
}

/// `heapless::Deque::push_back`: appends the byte at the back if the queue
/// holds fewer bytes than its capacity; hands the byte back, and leaves the
/// queue as it is, if the queue is full.
#[verifier::external_body]
pub(crate) fn deque_push_back(deque: &mut heapless::Deque<u8, MAX_PACKET_SIZE>, byte: u8) -> (pushed:
    Result<(), u8>)
    ensures
        pushed == (if deque_bytes(*old(deque)).len() < MAX_PACKET_SIZE {
            Ok::<(), u8>(())
        } else {
            Err::<(), u8>(byte)
        }),
        deque_bytes(*final(deque)) == (if deque_bytes(*old(deque)).len() < MAX_PACKET_SIZE {
            deque_bytes(*old(deque)).push(byte)
        } else {
            deque_bytes(*old(deque))
        }),
{
    deque.push_back(byte)
}

/// `heapless::Deque::pop_front`: takes the byte at the front out of the
/// queue and returns it; returns nothing, and leaves the queue as it is, if
/// the queue holds nothing.
#[verifier::external_body]
pub(crate) fn deque_pop_front(deque: &mut heapless::Deque<u8, MAX_PACKET_SIZE>) -> (front: Option<
    u8,
>)
    ensures
        front == (if deque_bytes(*old(deque)).len() == 0 {
            None
        } else {
            Some(deque_bytes(*old(deque))[0])
        }),
        deque_bytes(*final(deque)) == (if deque_bytes(*old(deque)).len() == 0 {
            deque_bytes(*old(deque))
        } else {
            deque_bytes(*old(deque)).skip(1)
        }),
{
    deque.pop_front()
}

} // verus!
