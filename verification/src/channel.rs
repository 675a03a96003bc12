//! The channel over which a subscriber hears of publishers to join.
use crossbeam::channel::{Receiver, Sender};
use vstd::prelude::*;

verus! {

/// Where a publisher listens.
#[derive(Debug, Clone, Copy, PartialEq, Eq, Structural)]
pub enum SocketAddress {
    V4 { ipv4: u32, port: u16 },
    V6 { ipv6: u128, port: u16, flowinfo: u32, scope_id: u32 },
}

/// The sending end of a channel of `crossbeam`, which nothing here looks into.
#[verifier::external_type_specification]
#[verifier::external_body]
#[verifier::reject_recursive_types(T)]
pub struct ExSender<T>(Sender<T>);

/// The receiving end of a channel of `crossbeam`, which nothing here looks into.
#[verifier::external_type_specification]
#[verifier::external_body]
#[verifier::reject_recursive_types(T)]
pub struct ExReceiver<T>(Receiver<T>);

/// What the channel has accepted through this sending end, in order, whether or not
/// it has been taken out on the other side.
pub uninterp spec fn accepted(sender: Sender<SocketAddress>) -> Seq<SocketAddress>;

/// Which channel this is the sending end of.
pub uninterp spec fn channel_into(sender: Sender<SocketAddress>) -> int;

/// Which channel this is the receiving end of.
pub uninterp spec fn channel_out_of(receiver: Receiver<SocketAddress>) -> int;

/// Whether the channel has given back something sent through this sending end, as it
/// does once its receiving end is gone.
pub uninterp spec fn refused(sender: Sender<SocketAddress>) -> bool;

/// `crossbeam::channel::unbounded`: the two ends of one channel of any capacity, into
/// which nothing has been sent and which has refused nothing.
#[verifier::external_body]
pub(crate) fn unbounded() -> (ends: (Sender<SocketAddress>, Receiver<SocketAddress>))
    ensures
        channel_into(ends.0) == channel_out_of(ends.1),
        accepted(ends.0) == Seq::<SocketAddress>::empty(),
        !refused(ends.0),
{
    crossbeam::channel::unbounded()
}

/// `crossbeam::channel::Sender::send`: the channel takes the address in behind those
/// before it, or it takes nothing, refuses, and the address comes back. It refuses only
/// once its receiving end is gone, so it takes the address when that end is at hand
/// during the call; and what has refused once refuses from then on. Which of the two
/// happens otherwise is not stated: it hangs on whether the receiving end is still
/// there, and that end is in another thread.
#[verifier::external_body]
pub(crate) fn send(
    sender: &mut Sender<SocketAddress>,
    address: SocketAddress,
    _at_hand: Option<&Receiver<SocketAddress>>,
) -> (result: Result<(), SocketAddress>)
    ensures
        channel_into(*final(sender)) == channel_into(*old(sender)),
        match result {
            Ok(_) => {
                &&& accepted(*final(sender)) == accepted(*old(sender)).push(address)
                &&& !refused(*final(sender))
                &&& !refused(*old(sender))
            },
            Err(returned) => {
                &&& returned == address
                &&& accepted(*final(sender)) == accepted(*old(sender))
                &&& refused(*final(sender))
            },
        },
        _at_hand matches Some(receiver) && channel_out_of(*receiver) == channel_into(*old(sender))
            && !refused(*old(sender)) ==> result is Ok,
{
    sender.send(address).map_err(|refused| refused.0)
}

} // verus!
