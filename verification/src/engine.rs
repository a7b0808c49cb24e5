//! The two sides of the request/response exchange that a product is spread
//! over: the caller hands out one message for each output cell and later
//! collects the replies; a worker serves one message at a time.
//!
//! Each message carries the sending end of a channel of its own, made for one
//! reply. Who serves a message, and when, is up to the caller: the functions
//! here start no thread and wait for nothing but a reply.

use crate::error::MatrixError;
use crate::matrix::{lemma_cell_index, lemma_flat_index, lemma_row_bounds, Matrix, MatrixView};
use crate::product::{
    answer, answered, answers_cell, assemble, is_answer, is_assembly, is_cell, is_product,
    lemma_answers_assemble, lemma_cell_is_dot, placed, request, MsgInput, MsgOutput,
};
use crate::vector::{dot_prefix, dot_ready, is_default};
use std::ops::{Add, Mul};
use vstd::prelude::*;

verus! {

/// How many workers a product is spread over.
pub const NUM_THREADS: usize = 4;

/// The worker that the cell at flat index `idx` is assigned to, out of
/// `workers`: cells go round by their own index, not by when they are handed
/// out.
pub fn worker_of(idx: usize, workers: usize) -> (w: usize)
    requires
        workers > 0,
    ensures
        w == idx % workers,
        w < workers,
{
    idx % workers
}

/// `oneshot::Sender`, the sending end of a channel for one message. The type
/// is opaque here: nothing is known of what a value of it holds.
#[verifier::external_type_specification]
#[verifier::external_body]
#[verifier::reject_recursive_types(T)]
pub struct ExSender<T>(oneshot::Sender<T>);

/// `oneshot::Receiver`, the receiving end of a channel for one message. The
/// type is opaque here: nothing is known of what a value of it holds.
#[verifier::external_type_specification]
#[verifier::external_body]
#[verifier::reject_recursive_types(T)]
pub struct ExReceiver<T>(oneshot::Receiver<T>);

/// `oneshot::SendError`, which `oneshot::Sender::send` returns when the
/// receiving end is gone; it holds the message that was not sent. Opaque
/// here.
#[verifier::external_type_specification]
#[verifier::external_body]
#[verifier::reject_recursive_types(T)]
pub struct ExSendError<T>(oneshot::SendError<T>);

/// `oneshot::RecvError`, which `oneshot::Receiver::recv` returns when no
/// message can arrive any more. Opaque here.
#[verifier::external_type_specification]
#[verifier::external_body]
pub struct ExRecvError(oneshot::RecvError);

/// `oneshot::channel` makes a channel and returns its two ends. Nothing is
/// claimed of them.
pub assume_specification<T>[ oneshot::channel::<T> ]() -> (ends: (
    oneshot::Sender<T>,
    oneshot::Receiver<T>,
));

/// `oneshot::Sender::send` puts `message` into the channel without waiting.
/// Whether it succeeds depends on whether the receiving end is still held
/// somewhere, so nothing is claimed of the result.
pub assume_specification<T>[ oneshot::Sender::<T>::send ](
    sender: oneshot::Sender<T>,
    message: T,
) -> (sent: Result<(), oneshot::SendError<T>>);

/// `oneshot::Receiver::recv` waits until the message is there or the sending
/// end is gone. What arrives is up to whoever holds the sending end, so
/// nothing is claimed of the result; while that end is held and unused, the
/// call does not return. The crate is built without its `async` feature, and
/// so without the one case in which this call panics.
pub assume_specification<T>[ oneshot::Receiver::<T>::recv ](receiver: oneshot::Receiver<T>) -> (received:
    Result<T, oneshot::RecvError>);

/// `std::sync::mpsc::Sender`, the sending end of a queue; a worker's queue
/// of messages here. The type is opaque here.
#[verifier::external_type_specification]
#[verifier::external_body]
#[verifier::reject_recursive_types(T)]
pub struct ExQueue<T>(std::sync::mpsc::Sender<T>);

/// `std::sync::mpsc::SendError`, which `std::sync::mpsc::Sender::send`
/// returns when the queue's receiving end is gone; it holds the value that
/// was not sent. Opaque here.
#[verifier::external_type_specification]
#[verifier::external_body]
#[verifier::reject_recursive_types(T)]
pub struct ExQueueError<T>(std::sync::mpsc::SendError<T>);

/// `std::sync::mpsc::Sender::send` puts `t` into the queue without waiting.
/// Whether it succeeds depends on whether the queue's receiving end is still
/// held somewhere, so nothing is claimed of the result.
pub assume_specification<T>[ std::sync::mpsc::Sender::<T>::send ](
    queue: &std::sync::mpsc::Sender<T>,
    t: T,
) -> (sent: Result<(), std::sync::mpsc::SendError<T>>);

/// One unit of work on its way to a worker: the request and the channel end
/// that takes its one reply.
#[verifier::reject_recursive_types(T)]
pub struct Msg<T> {
    pub input: MsgInput<T>,
    pub sender: oneshot::Sender<MsgOutput<T>>,
}

impl<T> Msg<T> {
    /// The message that asks for `input` and takes the reply on `sender`.
    pub fn new(input: MsgInput<T>, sender: oneshot::Sender<MsgOutput<T>>) -> (msg: Self)
        ensures
            msg.input == input,
            msg.sender == sender,
    {
        Self { input, sender }
    }
}

/// What became of a message that a worker served.
#[derive(Debug, Clone, Copy, PartialEq, Eq, Structural)]
pub enum Served {
    /// The answer was computed and put into the reply channel.
    Delivered,
    /// The answer was computed, but nobody waits for it any more.
    Unclaimed,
    /// The request's operands differ in length. No reply was sent, and the
    /// one who waits for it finds the channel closed.
    Rejected,
}

/// Serves one message as a worker does: computes the answer to the request
/// and sends it as the message's one reply.
///
/// A request that cannot be answered, or an answer that nobody waits for,
/// is reported to the caller and does no other harm: the worker can go on
/// with its next message.
pub fn serve<T>(msg: Msg<T>) -> (served: Served) where
    T: Copy + Default + Add<Output = T> + Mul<Output = T>,

    requires
        msg.input.row@.len() == msg.input.col@.len() ==> dot_ready(
            msg.input.row@,
            msg.input.col@,
        ),
    ensures
        msg.input.row@.len() != msg.input.col@.len() <==> served == Served::Rejected,
{
    let Msg { input, sender } = msg;
    match answer(input) {
        Ok(output) => match sender.send(output) {
            Ok(_) => Served::Delivered,
            Err(_) => Served::Unclaimed,
        },
        Err(_) => Served::Rejected,
    }
}

/// A product made ready for workers: the messages, one for each output cell
/// in row-major order; for each message, at the same position, the channel
/// end on which its reply will arrive; and the shape of the product.
#[verifier::reject_recursive_types(T)]
pub struct Dispatch<T> {
    pub requests: Vec<Msg<T>>,
    pub replies: Vec<oneshot::Receiver<MsgOutput<T>>>,
    pub row: usize,
    pub col: usize,
}

/// Whether `requests` ask, in row-major order, for every cell of the product
/// of `a` and `b`: request `k` is tagged `k` and carries the row of `a` and
/// the column of `b` that meet in cell `k`.
pub open spec fn asks_for_product<T>(
    requests: Seq<Msg<T>>,
    a: MatrixView<T>,
    b: MatrixView<T>,
) -> bool {
    &&& requests.len() == a.row * b.col
    &&& forall|k: int|
        0 <= k < requests.len() ==> {
            &&& (#[trigger] requests[k]).input.idx == k
            &&& requests[k].input.row@ == a.row_at(k / (b.col as int))
            &&& requests[k].input.col@ == b.col_at(k % (b.col as int))
        }
}

/// Prepares the product of `a` and `b` for workers: one message for each
/// output cell, each with a reply channel of its own.
///
/// Shapes that do not fit, `a`'s columns against `b`'s rows, are rejected
/// with [`MatrixError::ShapeMismatch`], and then nothing is made.
pub fn dispatch<T: Copy>(a: &Matrix<T>, b: &Matrix<T>) -> (r: Result<Dispatch<T>, MatrixError>)
    requires
        a@.col == b@.row ==> a@.wf() && b@.wf() && a@.row * b@.col <= usize::MAX,
    ensures
        a@.col != b@.row <==> r is Err,
        r is Err ==> r->Err_0 == MatrixError::ShapeMismatch,
        r is Ok ==> {
            &&& asks_for_product(r->Ok_0.requests@, a@, b@)
            &&& r->Ok_0.replies@.len() == r->Ok_0.requests@.len()
            &&& r->Ok_0.row == a@.row
            &&& r->Ok_0.col == b@.col
        },
{
    if a.cols() != b.rows() {
        return Err(MatrixError::ShapeMismatch);
    }
    let rows: usize = a.rows();
    let cols: usize = b.cols();
    let len: usize = rows * cols;
    let mut requests: Vec<Msg<T>> = Vec::with_capacity(len);
    let mut replies: Vec<oneshot::Receiver<MsgOutput<T>>> = Vec::with_capacity(len);
    let mut i: usize = 0;
    while i < rows
        invariant
            a@.wf(),
            b@.wf(),
            rows == a@.row,
            cols == b@.col,
            rows * cols <= usize::MAX,
            i <= rows,
            requests@.len() == i * cols,
            replies@.len() == requests@.len(),
            forall|k: int|
                0 <= k < requests@.len() ==> {
                    &&& (#[trigger] requests@[k]).input.idx == k
                    &&& requests@[k].input.row@ == a@.row_at(k / (cols as int))
                    &&& requests@[k].input.col@ == b@.col_at(k % (cols as int))
                },
        decreases rows - i,
    {
        let mut j: usize = 0;
        while j < cols
            invariant
                a@.wf(),
                b@.wf(),
                rows == a@.row,
                cols == b@.col,
                rows * cols <= usize::MAX,
                i < rows,
                j <= cols,
                requests@.len() == i * cols + j,
                replies@.len() == requests@.len(),
                forall|k: int|
                    0 <= k < requests@.len() ==> {
                        &&& (#[trigger] requests@[k]).input.idx == k
                        &&& requests@[k].input.row@ == a@.row_at(k / (cols as int))
                        &&& requests@[k].input.col@ == b@.col_at(k % (cols as int))
                    },
            decreases cols - j,
        {
            proof {
                lemma_cell_index(rows as nat, cols as nat, i as nat, j as nat);
            }
            let input = request(a, b, i, j);
            let (sender, receiver) = oneshot::channel();
            requests.push(Msg::new(input, sender));
            replies.push(receiver);
            j = j + 1;
        }
        proof {
            lemma_row_bounds(rows as nat, cols as nat, i as nat);
        }
        i = i + 1;
    }
    Ok(Dispatch { requests, replies, row: rows, col: cols })
}

/// Waits for the replies in the order given and puts each answer into a
/// `row` by `col` matrix at the position that its own index names.
///
/// The first reply that cannot be had, or that names a position outside the
/// matrix, fails the whole with
/// [`MatrixError::WorkerCommunicationFailure`]; no partial result is
/// returned. What the replies hold is up to those who sent them: a result
/// is the assembly of one answer for each reply.
pub fn collect<T: Copy + Default>(
    replies: Vec<oneshot::Receiver<MsgOutput<T>>>,
    row: usize,
    col: usize,
) -> (r: Result<Matrix<T>, MatrixError>)
    requires
        row * col <= usize::MAX,
    ensures
        replies@.len() == 0 ==> r is Ok,
        r is Err ==> r->Err_0 == MatrixError::WorkerCommunicationFailure,
        r is Ok ==> exists|outputs: Seq<MsgOutput<T>>|
            outputs.len() == replies@.len() && #[trigger] is_assembly(
                r->Ok_0@,
                outputs,
                row as nat,
                col as nat,
            ),
{
    let mut outputs: Vec<MsgOutput<T>> = Vec::with_capacity(replies.len());
    for receiver in waiting: replies
        invariant
            outputs@.len() == waiting.index(),
    {
        match receiver.recv() {
            Ok(output) => {
                outputs.push(output);
            },
            Err(_) => {
                return Err(MatrixError::WorkerCommunicationFailure);
            },
        }
    }
    let ghost answers = outputs@;
    assert(answers.len() == replies@.len());
    assemble(outputs, row, col)
}

/// The queues of a fixed set of workers, one queue for each worker.
///
/// The pool starts no worker and stops none: whoever makes it keeps a worker
/// on the receiving end of each queue, which serves the messages that
/// arrive there until the queue is closed.
#[verifier::reject_recursive_types(T)]
pub struct WorkerPool<T> {
    queues: Vec<std::sync::mpsc::Sender<Msg<T>>>,
}

impl<T> WorkerPool<T> {
    /// The workers' queues, the queue of worker `w` at position `w`.
    pub closed spec fn queues(&self) -> Seq<std::sync::mpsc::Sender<Msg<T>>> {
        self.queues@
    }

    /// The number of workers.
    pub open spec fn size(&self) -> nat {
        self.queues().len()
    }

    /// The pool of the workers that receive from `queues`, worker `w` from
    /// the queue at position `w`.
    pub fn new(queues: Vec<std::sync::mpsc::Sender<Msg<T>>>) -> (pool: Self)
        requires
            queues@.len() > 0,
        ensures
            pool.queues() == queues@,
    {
        WorkerPool { queues }
    }

    /// The number of workers.
    pub fn len(&self) -> (n: usize)
        ensures
            n == self.size(),
    {
        self.queues.len()
    }

    /// The queue that the cell at flat index `idx` goes to: that of the
    /// worker that the cell is assigned to.
    pub fn queue_of(&self, idx: usize) -> (queue: &std::sync::mpsc::Sender<Msg<T>>)
        requires
            self.size() > 0,
        ensures
            *queue == self.queues()[idx as int % self.size() as int],
    {
        let worker = worker_of(idx, self.queues.len());
        &self.queues[worker]
    }

    /// Puts `msg` into the queue of the worker that its cell is assigned
    /// to, and says whether the queue took it. A message that the queue did
    /// not take is dropped, so that whoever waits for its reply finds the
    /// reply channel closed.
    pub fn submit(&self, msg: Msg<T>) -> (taken: bool)
        requires
            self.size() > 0,
    {
        queue_took(self.queue_of(msg.input.idx).send(msg))
    }
}

/// Whether a queue took what was sent to it, by what the sending returned.
pub fn queue_took<T>(sent: Result<(), std::sync::mpsc::SendError<T>>) -> (taken: bool)
    ensures
        taken == sent is Ok,
{
    match sent {
        Ok(_) => true,
        Err(_) => false,
    }
}

impl<T: Copy + Default> WorkerPool<T> {
    /// Carries out work that was made ready: hands every message to its
    /// worker, then waits for the replies, without a time limit, in the
    /// order in which the cells were handed out, and assembles them. A reply
    /// that cannot be had fails the whole with
    /// [`MatrixError::WorkerCommunicationFailure`].
    pub fn complete(&self, work: Dispatch<T>) -> (r: Result<Matrix<T>, MatrixError>)
        requires
            self.size() > 0,
            work.row * work.col <= usize::MAX,
        ensures
            work.replies@.len() == 0 ==> r is Ok,
            r is Err ==> r->Err_0 == MatrixError::WorkerCommunicationFailure,
            r is Ok ==> exists|outputs: Seq<MsgOutput<T>>|
                outputs.len() == work.replies@.len() && #[trigger] is_assembly(
                    r->Ok_0@,
                    outputs,
                    work.row as nat,
                    work.col as nat,
                ),
    {
        let Dispatch { requests, replies, row, col } = work;
        for msg in requests
            invariant
                self.size() > 0,
        {
            self.submit(msg);
        }
        collect(replies, row, col)
    }

    /// The product of `a` and `b`, computed by the pool's workers.
    ///
    /// Shapes that do not fit, `a`'s columns against `b`'s rows, are
    /// rejected with [`MatrixError::ShapeMismatch`] before any message is
    /// made. Otherwise the work is made ready and carried out.
    pub fn multiply(&self, a: &Matrix<T>, b: &Matrix<T>) -> (r: Result<Matrix<T>, MatrixError>)
        requires
            self.size() > 0,
            a@.col == b@.row ==> a@.wf() && b@.wf() && a@.row * b@.col <= usize::MAX,
        ensures
            a@.col != b@.row <==> r is Err && r->Err_0 == MatrixError::ShapeMismatch,
            a@.col == b@.row && a@.row * b@.col == 0 ==> r is Ok,
            r is Err ==> r->Err_0 == MatrixError::ShapeMismatch || r->Err_0
                == MatrixError::WorkerCommunicationFailure,
            r is Ok ==> exists|outputs: Seq<MsgOutput<T>>|
                outputs.len() == a@.row * b@.col && #[trigger] is_assembly(
                    r->Ok_0@,
                    outputs,
                    a@.row,
                    b@.col,
                ),
    {
        match dispatch(a, b) {
            Ok(work) => self.complete(work),
            Err(e) => Err(e),
        }
    }
}

/// Whether `output` answers one of `requests`.
pub open spec fn answers_one<T: Default + Add<Output = T> + Mul<Output = T>>(
    output: MsgOutput<T>,
    requests: Seq<Msg<T>>,
) -> bool {
    exists|k: int| 0 <= k < requests.len() && is_answer(output, (#[trigger] requests[k]).input)
}

/// Workers that answer as [`answer`] does give the product, whoever serves
/// which message and whenever: if every reply answers one of the requests
/// that were made ready for the product of `a` and `b`, and every request
/// has an answer among the replies, then the replies, placed by index in
/// whatever order they came, are the product.
pub proof fn lemma_replies_assemble<T: Default + Add<Output = T> + Mul<Output = T>>(
    a: MatrixView<T>,
    b: MatrixView<T>,
    requests: Seq<Msg<T>>,
    outputs: Seq<MsgOutput<T>>,
    base: Seq<T>,
)
    requires
        a.wf(),
        b.wf(),
        a.col == b.row,
        asks_for_product(requests, a, b),
        base.len() == a.row * b.col,
        forall|n: int| 0 <= n < outputs.len() ==> answers_one(#[trigger] outputs[n], requests),
        forall|k: int| 0 <= k < requests.len() ==> #[trigger] answered(outputs, k),
    ensures
        is_product(MatrixView { data: placed(base, outputs), row: a.row, col: b.col }, a, b),
{
    assert forall|n: int| 0 <= n < outputs.len() implies answers_cell(
        #[trigger] outputs[n],
        a,
        b,
    ) by {
        let output = outputs[n];
        assert(answers_one(output, requests));
        let k = choose|k: int|
            0 <= k < requests.len() && is_answer(output, (#[trigger] requests[k]).input);
        let input = requests[k].input;
        lemma_flat_index(a.row, b.col, k);
        let i = k / (b.col as int);
        let j = k % (b.col as int);
        lemma_row_bounds(a.row, a.col, i as nat);
        let z = choose|z: T| #[trigger]
            is_default(z) && output.value == dot_prefix(z, input.row@, input.col@, input.row@.len());
        lemma_cell_is_dot(z, a, b, i, j, a.col);
        assert(is_cell(output.value, a, b, i, j));
    }
    lemma_answers_assemble(a, b, base, outputs);
}

} // verus!
