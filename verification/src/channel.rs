//! The channel over which results go to whoever made a request.
//!
//! The two halves are opaque here. The names below stand for what a half is good for: which
//! channel it belongs to, what this crate has handed to it, and what of that was sent.
use tokio::sync::mpsc::{UnboundedReceiver, UnboundedSender};
use vstd::prelude::*;

use crate::types::{StepResults, StepResultsView};

verus! {

/// The sending half of an unbounded `tokio` channel.
#[verifier::external_type_specification]
#[verifier::external_body]
#[verifier::reject_recursive_types(T)]
pub struct ExUnboundedSender<T>(tokio::sync::mpsc::UnboundedSender<T>);

/// The receiving half of an unbounded `tokio` channel.
#[verifier::external_type_specification]
#[verifier::external_body]
#[verifier::reject_recursive_types(T)]
pub struct ExUnboundedReceiver<T>(tokio::sync::mpsc::UnboundedReceiver<T>);

/// The channel of a sending half.
pub uninterp spec fn channel_of(tx: UnboundedSender<StepResults>) -> int;

/// The channel of a receiving half.
pub uninterp spec fn channel_at(rx: UnboundedReceiver<StepResults>) -> int;

/// What has been handed to a sending half, sent or not, in its order.
pub uninterp spec fn offered_through(tx: UnboundedSender<StepResults>) -> Seq<StepResultsView>;

/// What has been sent through a sending half, in its order.
pub uninterp spec fn sent_through(tx: UnboundedSender<StepResults>) -> Seq<StepResultsView>;

/// At some time, a sending half of a channel had been handed exactly `offered`, and had sent `sent`
/// of it. What may have followed is not said.
pub open spec fn went_out(
    channel: int,
    offered: Seq<StepResultsView>,
    sent: Seq<StepResultsView>,
) -> bool {
    exists|tx: UnboundedSender<StepResults>|
        {
            &&& #[trigger] offered_through(tx) == offered
            &&& sent_through(tx) == sent
            &&& channel_of(tx) == channel
        }
}

/// Calls `tokio::sync::mpsc::unbounded_channel`. The two halves belong to one channel, and nothing
/// has been handed to it yet.
#[verifier::external_body]
pub(crate) fn results_channel() -> (res: (
    UnboundedSender<StepResults>,
    UnboundedReceiver<StepResults>,
))
    ensures
        channel_of(res.0) == channel_at(res.1),
        offered_through(res.0) == Seq::<StepResultsView>::empty(),
        sent_through(res.0) == Seq::<StepResultsView>::empty(),
{
    tokio::sync::mpsc::unbounded_channel()
}

/// Calls `UnboundedSender::send`. The message has been handed to the channel, after those before,
/// whatever comes back. On success it has also been sent, after those sent before.
/// A message that could not be sent, because the receiving half is gone, comes back. Whether it
/// is gone is up to the other side, and is not stated.
#[verifier::external_body]
pub(crate) fn send_results(tx: &mut UnboundedSender<StepResults>, results: StepResults) -> (res:
    Result<(), StepResults>)
    ensures
        channel_of(*final(tx)) == channel_of(*old(tx)),
        offered_through(*final(tx)) == offered_through(*old(tx)).push(results@),
        match res {
            Ok(_) => sent_through(*final(tx)) == sent_through(*old(tx)).push(results@),
            Err(unsent) => {
                &&& unsent == results
                &&& sent_through(*final(tx)) == sent_through(*old(tx))
            },
        },
{
    tx.send(results).map_err(|err| err.0)
}

} // verus!
