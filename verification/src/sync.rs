//! The channels and cancellation tokens of tokio, as the library uses them.
//!
//! A handle to a channel or a token is carried through the library as an
//! opaque value. What arrives at the other end of a channel, and when a token
//! fires, depends on the other tasks of the program: nothing is claimed of
//! that here. The contracts of the library state which calls are made, with
//! which arguments.

use vstd::prelude::*;

use std::ops::Deref;
use tokio::sync::{mpsc, oneshot, watch};
use tokio_util::sync::CancellationToken;

verus! {

/// `tokio_util::sync::CancellationToken`.
#[verifier::external_type_specification]
#[verifier::external_body]
pub struct ExCancellationToken(CancellationToken);

/// `tokio::sync::mpsc::UnboundedSender`.
#[verifier::external_type_specification]
#[verifier::external_body]
#[verifier::reject_recursive_types(T)]
pub struct ExUnboundedSender<T>(mpsc::UnboundedSender<T>);

/// `tokio::sync::mpsc::UnboundedReceiver`.
#[verifier::external_type_specification]
#[verifier::external_body]
#[verifier::reject_recursive_types(T)]
pub struct ExUnboundedReceiver<T>(mpsc::UnboundedReceiver<T>);

/// `tokio::sync::mpsc::error::SendError`.
#[verifier::external_type_specification]
#[verifier::external_body]
#[verifier::reject_recursive_types(T)]
pub struct ExSendError<T>(mpsc::error::SendError<T>);

/// `tokio::sync::oneshot::Sender`.
#[verifier::external_type_specification]
#[verifier::external_body]
#[verifier::reject_recursive_types(T)]
pub struct ExOneshotSender<T>(oneshot::Sender<T>);

/// `tokio::sync::oneshot::Receiver`.
#[verifier::external_type_specification]
#[verifier::external_body]
#[verifier::reject_recursive_types(T)]
pub struct ExOneshotReceiver<T>(oneshot::Receiver<T>);

/// `tokio::sync::oneshot::error::RecvError`: what `oneshot::Receiver` yields as
/// a future. Verus knows no `Receiver` without it.
#[verifier::external_type_specification]
#[verifier::external_body]
pub struct ExRecvError(oneshot::error::RecvError);

/// `tokio::sync::watch::Sender`.
#[verifier::external_type_specification]
#[verifier::external_body]
#[verifier::reject_recursive_types(T)]
pub struct ExWatchSender<T>(watch::Sender<T>);

/// `tokio::sync::watch::Receiver`.
#[verifier::external_type_specification]
#[verifier::external_body]
#[verifier::reject_recursive_types(T)]
pub struct ExWatchReceiver<T>(watch::Receiver<T>);

/// `tokio::sync::watch::Ref`.
#[verifier::external_type_specification]
#[verifier::external_body]
#[verifier::reject_recursive_types(T)]
pub struct ExWatchRef<'a, T>(watch::Ref<'a, T>);

/// `tokio::sync::OwnedMutexGuard`.
#[verifier::external_type_specification]
#[verifier::external_body]
#[verifier::reject_recursive_types(T)]
pub struct ExOwnedMutexGuard<T: ?Sized>(tokio::sync::OwnedMutexGuard<T>);

// ── Cancellation ──────────────────────────────────────────────────────────────

/// `CancellationToken::new` makes a token that is cancelled on its own.
pub assume_specification[ CancellationToken::new ]() -> (r: CancellationToken);

/// `CancellationToken::clone` hands out the same token once more: cancelling
/// one of the two cancels the other.
pub assume_specification[ <CancellationToken as Clone>::clone ](token: &CancellationToken) -> (r:
    CancellationToken)
    ensures
        r == *token,
;

/// `CancellationToken::child_token` makes a token that is cancelled with its
/// parent, or alone.
pub assume_specification[ CancellationToken::child_token ](token: &CancellationToken) -> (r:
    CancellationToken);

/// `CancellationToken::is_cancelled` tells whether the token has fired by now.
pub assume_specification[ CancellationToken::is_cancelled ](token: &CancellationToken) -> (r: bool);

// ── Channels ──────────────────────────────────────────────────────────────────

/// `mpsc::unbounded_channel` makes a channel and hands out its two ends.
pub assume_specification<T>[ mpsc::unbounded_channel::<T> ]() -> (r: (
    mpsc::UnboundedSender<T>,
    mpsc::UnboundedReceiver<T>,
));

/// `UnboundedSender::send` puts a message into the channel, or fails if the
/// receiving end is gone.
pub assume_specification<T>[ mpsc::UnboundedSender::<T>::send ](
    tx: &mpsc::UnboundedSender<T>,
    message: T,
) -> (r: Result<(), mpsc::error::SendError<T>>);

/// `oneshot::channel` makes a channel for one value and hands out its two
/// ends.
pub assume_specification<T>[ oneshot::channel::<T> ]() -> (r: (
    oneshot::Sender<T>,
    oneshot::Receiver<T>,
));

/// `oneshot::Sender::send` sends the value, or hands it back if the receiving
/// end is gone.
pub assume_specification<T>[ oneshot::Sender::<T>::send ](tx: oneshot::Sender<T>, t: T) -> (r:
    Result<(), T>)
    ensures
        r matches Err(back) ==> back == t,
;

// ── Watched values ────────────────────────────────────────────────────────────

/// `watch::channel` makes a watched value and hands out its two ends.
pub assume_specification<T>[ watch::channel::<T> ](init: T) -> (r: (
    watch::Sender<T>,
    watch::Receiver<T>,
));

/// `watch::Sender::send_replace` sets the watched value, wakes the receivers
/// and hands back the value before.
pub assume_specification<T>[ watch::Sender::<T>::send_replace ](
    tx: &watch::Sender<T>,
    value: T,
) -> (r: T);

/// `watch::Sender::subscribe` makes one more receiver.
pub assume_specification<T>[ watch::Sender::<T>::subscribe ](tx: &watch::Sender<T>) -> (r:
    watch::Receiver<T>);

/// `watch::Sender::borrow` locks the watched value for reading.
pub assume_specification<'a, T>[ watch::Sender::<T>::borrow ](tx: &'a watch::Sender<T>) -> (r:
    watch::Ref<'a, T>);

/// `watch::Receiver::borrow` locks the watched value for reading.
pub assume_specification<'a, T>[ watch::Receiver::<T>::borrow ](rx: &'a watch::Receiver<T>) -> (r:
    watch::Ref<'a, T>);

/// `watch::Receiver::clone` makes one more receiver of the same value.
pub assume_specification<T>[ <watch::Receiver<T> as Clone>::clone ](rx: &watch::Receiver<T>) -> (r:
    watch::Receiver<T>);

/// `Deref` of `watch::Ref` reads the locked value.
pub assume_specification<'a, 'b, T>[ <watch::Ref<'a, T> as Deref>::deref ](
    guard: &'b watch::Ref<'a, T>,
) -> (r: &'b T);

} // verus!
