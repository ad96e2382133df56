//! What is asked of the coordination service, and what it answers.

use futures::channel::oneshot;
use tokio::sync::watch;
use vstd::prelude::*;

use crate::failure::Failure;

verus! {

/// The error of a state that nobody receives, of the `tokio` crate.
#[verifier::external_type_specification]
#[verifier::external_body]
#[verifier::reject_recursive_types(T)]
pub struct ExWatchSendError<T>(tokio::sync::watch::error::SendError<T>);

/// The error of a watch that will not fire any more, of the `futures` crate.
#[verifier::external_type_specification]
#[verifier::external_body]
pub struct ExOneshotCanceled(futures::channel::oneshot::Canceled);

/// What happened to a watched node.
#[derive(Debug)]
pub enum WatchedEventType {
    /// The node was deleted.
    NodeDeleted,
    /// Something else, under the name that the service's client gives it.
    Other(String),
}

impl WatchedEventType {
    /// The name of the event.
    pub open spec fn name(self) -> Seq<char> {
        match self {
            WatchedEventType::NodeDeleted => "NodeDeleted"@,
            WatchedEventType::Other(name) => name@,
        }
    }

    /// The name of the event, as a text.
    pub fn to_name(&self) -> (name: String)
        ensures
            name@ == self.name(),
    {
        match self {
            WatchedEventType::NodeDeleted => "NodeDeleted".to_owned(),
            WatchedEventType::Other(name) => name.clone(),
        }
    }
}

/// How long a new node lives, and who completes its name.
#[derive(Debug, Clone, Copy)]
pub enum CreateMode {
    /// The node stays until it is deleted.
    Persistent,
    /// The node goes with the connection that made it, and the service appends
    /// a sequence number to its name.
    EphemeralSequential,
}

/// A request for a new node, with access rights of type `C`.
#[derive(Debug)]
pub struct CreateRequest<C> {
    pub path: String,
    pub data: Vec<u8>,
    pub acl: C,
    pub mode: CreateMode,
}

/// The answer to a request for a new node.
#[derive(Debug)]
pub enum CreateReply {
    /// The node was made, with this path.
    Created(String),
    /// The service refused to make the node, for this reason.
    Refused(Failure),
    /// The answer did not arrive: the node may have been made or not.
    Lost,
}

/// Says what is wrong with a state that was not sent, by the `Display` of
/// `tokio::sync::watch::error::SendError`.
///
/// Trusted: the text is the same for every such error.
#[verifier::external_body]
pub(crate) fn describe_send_error<T>(error: &watch::error::SendError<T>) -> (words: String)
    ensures
        words@ == "channel closed"@,
{
    error.to_string()
}

/// Says what is wrong with a watch that was lost, by the `Display` of
/// `futures::channel::oneshot::Canceled`.
///
/// Trusted: the text is the same for every such error.
#[verifier::external_body]
pub(crate) fn describe_canceled(error: &oneshot::Canceled) -> (words: String)
    ensures
        words@ == "oneshot canceled"@,
{
    error.to_string()
}

/// A removal is called by its name, and any other event as it was named.
pub proof fn law_events_keep_their_names(event: WatchedEventType, name: String)
    requires
        call_ensures(WatchedEventType::to_name, (&event,), name),
    ensures
        match event {
            WatchedEventType::NodeDeleted => name@ == "NodeDeleted"@,
            WatchedEventType::Other(given) => name@ == given@,
        },
{
}

} // verus!
