use vstd::prelude::*;

verus! {

/// `oneshot::Sender`, the sending end of a channel that carries at most one
/// message. Nothing is known of a value of this type.
#[verifier::external_type_specification]
#[verifier::external_body]
#[verifier::reject_recursive_types(T)]
pub struct ExReplySender<T>(oneshot::Sender<T>);

/// `oneshot::Receiver`, the receiving end of a channel that carries at most
/// one message. Nothing is known of a value of this type.
#[verifier::external_type_specification]
#[verifier::external_body]
#[verifier::reject_recursive_types(T)]
pub struct ExReplyReceiver<T>(oneshot::Receiver<T>);

/// `oneshot::SendError`, returned by a send whose receiver is gone.
#[verifier::external_type_specification]
#[verifier::external_body]
#[verifier::reject_recursive_types(T)]
pub struct ExReplySendError<T>(oneshot::SendError<T>);

/// `oneshot::RecvError`, returned by a receive whose sender went away
/// without sending.
#[verifier::external_type_specification]
#[verifier::external_body]
pub struct ExReplyRecvError(oneshot::RecvError);

/// `std::sync::mpsc::Sender`, the sending end of an unbounded queue.
#[verifier::external_type_specification]
#[verifier::external_body]
#[verifier::reject_recursive_types(T)]
pub struct ExQueueSender<T>(std::sync::mpsc::Sender<T>);

/// `std::sync::mpsc::Receiver`, the receiving end of an unbounded queue.
#[verifier::external_type_specification]
#[verifier::external_body]
#[verifier::reject_recursive_types(T)]
pub struct ExQueueReceiver<T>(std::sync::mpsc::Receiver<T>);

/// `std::sync::mpsc::SendError`, returned by a send on a queue whose
/// receiver is gone.
#[verifier::external_type_specification]
#[verifier::external_body]
#[verifier::reject_recursive_types(T)]
pub struct ExQueueSendError<T>(std::sync::mpsc::SendError<T>);

/// `std::sync::mpsc::RecvError`, returned by a receive on an empty queue
/// all of whose senders are gone.
#[verifier::external_type_specification]
#[verifier::external_body]
pub struct ExQueueRecvError(std::sync::mpsc::RecvError);

/// `oneshot::channel` makes a fresh channel and returns its two ends.
/// Nothing is claimed of them.
pub assume_specification<T>[ oneshot::channel::<T> ]() -> (ends: (
    oneshot::Sender<T>,
    oneshot::Receiver<T>,
));

/// `oneshot::Sender::send` hands the message to the channel, or returns an
/// error when the receiver has been dropped. It does not block. Which of the
/// two happens depends on the other end, so nothing is claimed of the result.
pub assume_specification<T>[ oneshot::Sender::<T>::send ](
    sender: oneshot::Sender<T>,
    message: T,
) -> (sent: Result<(), oneshot::SendError<T>>);

/// `oneshot::Receiver::recv` blocks until the sender has sent its message or
/// has been dropped, and returns the message or an error. What comes back
/// is decided by whoever holds the sender, so nothing is claimed of the
/// result; while the sender stays alive and silent the call does not return.
pub assume_specification<T>[ oneshot::Receiver::<T>::recv ](
    receiver: oneshot::Receiver<T>,
) -> (received: Result<T, oneshot::RecvError>);

/// `std::sync::mpsc::channel` makes a fresh unbounded queue and returns its
/// two ends. Nothing is claimed of them.
pub assume_specification<T>[ std::sync::mpsc::channel::<T> ]() -> (ends: (
    std::sync::mpsc::Sender<T>,
    std::sync::mpsc::Receiver<T>,
));

/// `std::sync::mpsc::Sender::send` appends the message to the queue without
/// blocking, or returns an error when the receiver has been dropped.
/// Nothing is claimed of the result.
pub assume_specification<T>[ std::sync::mpsc::Sender::<T>::send ](
    sender: &std::sync::mpsc::Sender<T>,
    message: T,
) -> (sent: Result<(), std::sync::mpsc::SendError<T>>);

/// `std::sync::mpsc::Receiver::recv` blocks until the queue holds a message
/// or every sender has been dropped, and returns the oldest message or an
/// error. Nothing is claimed of the result; while a sender stays alive and
/// the queue stays empty the call does not return.
pub assume_specification<T>[ std::sync::mpsc::Receiver::<T>::recv ](
    receiver: &std::sync::mpsc::Receiver<T>,
) -> (received: Result<T, std::sync::mpsc::RecvError>);

} // verus!
