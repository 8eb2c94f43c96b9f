use vstd::prelude::*;
use vstd::pervasive::unreached;
use crate::error::Error;
use crate::matrix::{
    lemma_flat_index, lemma_row_shape, multiply_outcome, product, product_cell, product_fits,
    Matrix, MatrixView,
};
use crate::scalar::{values, Scalar};
use crate::vector::{dot, dot_fits, dot_product, Vector};

verus! {

/// The number of workers that share the cells of one multiplication.
pub const WORKERS: usize = 4;

/// What a task stands for: the two sequences to multiply and the flat
/// position of the output cell that the result belongs to.
pub struct TaskView {
    pub row: Seq<int>,
    pub col: Seq<int>,
    pub index: nat,
}

/// What a reply stands for: a value and the flat position it belongs to.
pub struct ReplyView {
    pub value: int,
    pub index: nat,
}

/// One unit of work: a row, a column of the same length, and the flat
/// position of the output cell. Its dot product is computable in `T`.
pub struct Task<T: Scalar> {
    row: Vector<T>,
    col: Vector<T>,
    index: usize,
}

/// The result of one task, tagged with the position it belongs to.
pub struct Reply<T> {
    pub value: T,
    pub index: usize,
}

/// A task together with the sending end of the channel on which its reply
/// is expected.
#[verifier::reject_recursive_types(T)]
pub struct TaskEnvelope<T: Scalar> {
    task: Task<T>,
    reply_to: oneshot::Sender<Reply<T>>,
}

/// One worker of a pool: the receiving end of its task queue, the number
/// of tasks that were routed to it and, for contracts to speak of, those
/// tasks in the order in which they were submitted.
#[verifier::reject_recursive_types(T)]
pub struct Worker<T: Scalar> {
    queue: std::sync::mpsc::Receiver<TaskEnvelope<T>>,
    assigned: usize,
    routed: Ghost<Seq<TaskView>>,
}

/// A multiplication whose tasks have all been handed out: the shape of the
/// result, and one reply channel for each of its cells, in the order in
/// which the tasks were submitted.
#[verifier::reject_recursive_types(T)]
pub struct Pending<T: Scalar> {
    rows: usize,
    cols: usize,
    replies: Vec<oneshot::Receiver<Reply<T>>>,
}

/// The task for flat position `k` of the product of `a` and `b`.
pub open spec fn task_at(a: MatrixView, b: MatrixView, k: int) -> TaskView {
    TaskView { row: a.row(k / (b.cols as int)), col: b.col(k % (b.cols as int)), index: k as nat }
}

/// The reply that answers a task: the dot product of its row and column,
/// under the task's own position.
pub open spec fn answer_of(t: TaskView) -> ReplyView {
    ReplyView { value: dot(t.row, t.col), index: t.index }
}

/// The worker that the task for flat position `k` is routed to.
pub open spec fn worker_of(k: int) -> int {
    k % (WORKERS as int)
}

/// The cells after one reply has been written to the position it names; a
/// reply that names no position of the buffer changes nothing.
pub open spec fn placed(cells: Seq<int>, r: ReplyView) -> Seq<int> {
    if r.index < cells.len() {
        cells.update(r.index as int, r.value)
    } else {
        cells
    }
}

/// The cells after the replies have been written one after the other.
pub open spec fn gathered(cells: Seq<int>, replies: Seq<ReplyView>) -> Seq<int>
    decreases replies.len(),
{
    if replies.len() == 0 {
        cells
    } else {
        placed(gathered(cells, replies.drop_last()), replies.last())
    }
}

/// The tasks among those for the first `n` flat positions that are routed
/// to worker `w`, in the order of their positions.
pub open spec fn routed_tasks(a: MatrixView, b: MatrixView, n: nat, w: int) -> Seq<TaskView>
    decreases n,
{
    if n == 0 {
        Seq::empty()
    } else {
        let earlier = routed_tasks(a, b, (n - 1) as nat, w);
        if worker_of(n - 1) == w {
            earlier.push(task_at(a, b, n - 1))
        } else {
            earlier
        }
    }
}

/// Whether `cells` is what collecting the `replies` into a zeroed buffer of
/// `n` cells leaves, each reply naming a position of the buffer.
pub open spec fn assembled_from(cells: Seq<int>, n: nat, replies: Seq<ReplyView>) -> bool {
    &&& replies.len() == n
    &&& forall|i: int| 0 <= i < replies.len() ==> (#[trigger] replies[i]).index < n
    &&& cells == gathered(zeros(n), replies)
}

/// Whether a reply is the answer to one of the tasks of the product of `a`
/// and `b`: the task for the position that the reply names.
pub open spec fn answers_task(a: MatrixView, b: MatrixView, r: ReplyView) -> bool {
    r.index < a.rows * b.cols && r == answer_of(task_at(a, b, r.index as int))
}

/// Whether some reply of the sequence names position `k`.
pub open spec fn answered(replies: Seq<ReplyView>, k: int) -> bool {
    exists|i: int| 0 <= i < replies.len() && (#[trigger] replies[i]).index == k
}

/// The replies of a run in which every task is answered and the replies
/// arrive in the order in which the tasks were submitted.
pub open spec fn answers(a: MatrixView, b: MatrixView) -> Seq<ReplyView> {
    Seq::new(a.rows * b.cols, |k: int| answer_of(task_at(a, b, k)))
}

/// What the pool yields when every task is answered: the matrix that the
/// answers assemble to where the inner dimensions agree, a dimension
/// mismatch otherwise.
pub open spec fn pool_outcome(a: MatrixView, b: MatrixView) -> Result<MatrixView, Error> {
    if a.cols == b.rows {
        Ok(
            MatrixView {
                rows: a.rows,
                cols: b.cols,
                cells: gathered(zeros(a.rows * b.cols), answers(a, b)),
            },
        )
    } else {
        Err(Error::DimensionMismatch)
    }
}

/// A buffer of `n` zeros.
pub open spec fn zeros(n: nat) -> Seq<int> {
    Seq::new(n, |k: int| 0int)
}

impl<T: Scalar> View for Task<T> {
    type V = TaskView;

    closed spec fn view(&self) -> TaskView {
        TaskView { row: self.row@, col: self.col@, index: self.index as nat }
    }
}

impl<T: Scalar> View for Reply<T> {
    type V = ReplyView;

    open spec fn view(&self) -> ReplyView {
        ReplyView { value: self.value.value(), index: self.index as nat }
    }
}

impl<T: Scalar> Task<T> {
    #[verifier::type_invariant]
    spec fn computable(self) -> bool {
        self.row@.len() == self.col@.len() && dot_fits::<T>(self.row@, self.col@)
    }

    /// A task over a row and a column of equal length whose dot product is
    /// computable in `T`.
    pub fn new(row: Vector<T>, col: Vector<T>, index: usize) -> (t: Self)
        requires
            row@.len() == col@.len(),
            dot_fits::<T>(row@, col@),
        ensures
            t@ == (TaskView { row: row@, col: col@, index: index as nat }),
    {
        Task { row, col, index }
    }

    /// What a worker does with a task: the dot product of its row and
    /// column, tagged with the task's position.
    pub fn answer(self) -> (reply: Reply<T>)
        ensures
            reply@ == answer_of(self@),
    {
        proof {
            use_type_invariant(&self);
        }
        let index = self.index;
        match dot_product(self.row, self.col) {
            Ok(value) => Reply { value, index },
            Err(_) => unreached(),
        }
    }
}

/// The worker that the task for flat position `index` is routed to.
pub fn worker_for(index: usize) -> (w: usize)
    ensures
        w == worker_of(index as int),
        w < WORKERS,
{
    index % WORKERS
}

/// Writes a reply to the position it names. Returns whether the buffer has
/// that position; if not, the buffer is left as it was.
pub fn place<T: Scalar>(cells: &mut Vec<T>, reply: Reply<T>) -> (fitted: bool)
    ensures
        fitted == (reply@.index < old(cells)@.len()),
        final(cells)@.len() == old(cells)@.len(),
        values(final(cells)@) == placed(values(old(cells)@), reply@),
{
    if reply.index < cells.len() {
        cells[reply.index] = reply.value;
        assert(values(cells@) =~= placed(values(old(cells)@), reply@));
        true
    } else {
        false
    }
}

/// The task for the output cell in row `i` and column `j`: a copy of row `i`
/// of `a`, a copy of column `j` of `b`, and the cell's flat position.
pub fn task_for<T: Scalar>(a: &Matrix<T>, b: &Matrix<T>, i: usize, j: usize) -> (t: Task<T>)
    requires
        a@.cols == b@.rows,
        i < a@.rows,
        j < b@.cols,
        a@.rows * b@.cols <= usize::MAX,
        product_fits::<T>(a@, b@),
    ensures
        t@ == task_at(a@, b@, i * b@.cols + j),
{
    let rows = a.rows();
    let cols = b.cols();
    proof {
        lemma_flat_index(i as int, j as int, rows as int, cols as int);
        lemma_row_shape(a@, i as int);
        assert(dot_fits::<T>(a@.row(i as int), b@.col(j as int)));
    }
    let row = a.row(i);
    let col = b.col(j);
    Task::new(row, col, i * cols + j)
}

impl<T: Scalar> TaskEnvelope<T> {
    /// What a worker does with an envelope: it computes the task's answer
    /// and sends it on the envelope's reply channel. Returns whether the
    /// reply could be handed over; it cannot once the other end of the
    /// channel has been dropped.
    fn serve(self) -> (delivered: bool) {
        let TaskEnvelope { task, reply_to } = self;
        let reply = task.answer();
        match reply_to.send(reply) {
            Ok(_) => true,
            Err(_) => false,
        }
    }
}

impl<T: Scalar> Worker<T> {
    #[verifier::type_invariant]
    spec fn counted(self) -> bool {
        self.assigned == self.routed@.len()
    }

    /// The tasks that were routed to this worker, in the order in which
    /// they were submitted to its queue.
    pub closed spec fn routed(&self) -> Seq<TaskView> {
        self.routed@
    }

    /// Serves the tasks of this worker's queue in the order in which they
    /// were submitted, until the queue is closed and empty or every task
    /// that was routed to the worker has been served. Returns the number of
    /// replies that nobody was left to receive; such a reply is dropped and
    /// the worker goes on.
    ///
    /// The call blocks while the queue is empty and one of its senders is
    /// still alive.
    pub fn run(self) -> (undelivered: usize)
        ensures
            undelivered <= self.routed().len(),
    {
        proof {
            use_type_invariant(&self);
        }
        let mut undelivered: usize = 0;
        let mut left: usize = self.assigned;
        while left > 0
            invariant
                self.assigned == self.routed().len(),
                undelivered + left <= self.assigned,
            decreases left,
        {
            match self.queue.recv() {
                Ok(envelope) => {
                    if !envelope.serve() {
                        undelivered = undelivered + 1;
                    }
                },
                Err(_) => {
                    return undelivered;
                },
            }
            left = left - 1;
        }
        undelivered
    }
}

impl<T: Scalar> Pending<T> {
    #[verifier::type_invariant]
    spec fn one_reply_per_cell(self) -> bool {
        self.replies@.len() == self.rows * self.cols
    }

    /// The number of rows of the result.
    pub closed spec fn rows(&self) -> nat {
        self.rows as nat
    }

    /// The number of columns of the result.
    pub closed spec fn cols(&self) -> nat {
        self.cols as nat
    }

    /// Waits for the reply of every task, in the order in which the tasks
    /// were submitted, and writes each value to the position that its reply
    /// names in a zeroed buffer.
    ///
    /// Fails with a collection failure when a reply channel closes without a
    /// reply, or when a reply names a position outside the result; no
    /// partial matrix is returned. A result without cells waits for nothing
    /// and cannot fail. What the replies hold is decided by
    /// whoever serves the tasks: the result is the matrix that the replies
    /// received assemble to.
    ///
    /// The call blocks while a task is neither answered nor dropped.
    pub fn collect(self) -> (result: Result<Matrix<T>, Error>)
        ensures
            match result {
                Ok(m) => {
                    &&& m@.rows == self.rows()
                    &&& m@.cols == self.cols()
                    &&& m@.well_formed()
                    &&& exists|replies: Seq<ReplyView>|
                        #[trigger] assembled_from(m@.cells, self.rows() * self.cols(), replies)
                },
                Err(e) => e == Error::CollectionFailure && self.rows() * self.cols() > 0,
            },
    {
        proof {
            use_type_invariant(&self);
        }
        let ghost total = self.rows() * self.cols();
        let rows = self.rows;
        let cols = self.cols;
        let receivers = self.replies;
        let n = receivers.len();
        let mut cells: Vec<T> = Vec::new();
        let mut k: usize = 0;
        while k < n
            invariant
                k <= n,
                cells@.len() == k,
                values(cells@) == zeros(k as nat),
            decreases n - k,
        {
            let zero = T::zero();
            let ghost before = cells@;
            cells.push(zero);
            k = k + 1;
            assert(values(cells@) =~= values(before).push(zero.value()));
        }
        let ghost mut seen: Seq<ReplyView> = Seq::empty();
        for receiver in it: receivers
            invariant
                cells@.len() == n,
                n == total,
                total == self.rows() * self.cols(),
                it.seq().len() == n,
                seen.len() == it.index(),
                forall|i: int| 0 <= i < seen.len() ==> (#[trigger] seen[i]).index < n,
                values(cells@) == gathered(zeros(n as nat), seen),
        {
            match receiver.recv() {
                Ok(reply) => {
                    let ghost arrived = reply@;
                    let ghost before = seen;
                    if !place(&mut cells, reply) {
                        return Err(Error::CollectionFailure);
                    }
                    proof {
                        seen = before.push(arrived);
                        assert(seen.drop_last() =~= before);
                    }
                },
                Err(_) => {
                    return Err(Error::CollectionFailure);
                },
            }
        }
        let m = Matrix::new(rows, cols, cells);
        proof {
            assert(assembled_from(m@.cells, total, seen));
        }
        Ok(m)
    }
}

/// No worker is routed more tasks than there are.
pub proof fn lemma_routed_bound(a: MatrixView, b: MatrixView, n: nat, w: int)
    ensures
        routed_tasks(a, b, n, w).len() <= n,
    decreases n,
{
    if n > 0 {
        lemma_routed_bound(a, b, (n - 1) as nat, w);
    }
}

/// Starts the multiplication of `a` by `b` on a pool of `WORKERS` workers.
///
/// Fails with a dimension mismatch, before anything else is done, unless
/// `a` has as many columns as `b` has rows. Otherwise it sets up one task
/// queue per worker and submits one task per output cell, row by row: the
/// task for flat position `k` goes to worker `k % WORKERS`, with a reply
/// channel of its own. The queues are closed when all tasks are in them.
/// Each worker records the tasks that were submitted to its queue.
///
/// Returns the workers, each to be run once, on a thread of its own or one
/// after the other, and the pending multiplication, on which `collect`
/// then assembles the product. A task that cannot be queued is a dispatch
/// failure; nothing is returned then. A product without cells has no task
/// and cannot fail.
///
/// For matching shapes the caller must rule out overflow: the number of
/// cells of the product has to fit in `usize`, and every cell has to be
/// computable in `T`.
pub fn parallel_multiply<T: Scalar>(a: &Matrix<T>, b: &Matrix<T>) -> (result: Result<
    (Vec<Worker<T>>, Pending<T>),
    Error,
>)
    requires
        a@.cols == b@.rows ==> a@.rows * b@.cols <= usize::MAX && product_fits::<T>(a@, b@),
    ensures
        match result {
            Ok((workers, pending)) => {
                &&& a@.cols == b@.rows
                &&& pending.rows() == a@.rows
                &&& pending.cols() == b@.cols
                &&& workers@.len() == WORKERS
                &&& forall|w: int|
                    0 <= w < WORKERS ==> (#[trigger] workers@[w]).routed() == routed_tasks(
                        a@,
                        b@,
                        a@.rows * b@.cols,
                        w,
                    )
            },
            Err(e) => if a@.cols == b@.rows {
                e == Error::DispatchFailure && a@.rows * b@.cols > 0
            } else {
                e == Error::DimensionMismatch
            },
        },
{
    if a.cols() != b.rows() {
        return Err(Error::DimensionMismatch);
    }
    let rows = a.rows();
    let cols = b.cols();

    let mut senders: Vec<std::sync::mpsc::Sender<TaskEnvelope<T>>> = Vec::new();
    let mut queues: Vec<std::sync::mpsc::Receiver<TaskEnvelope<T>>> = Vec::new();
    let mut loads: Vec<usize> = Vec::new();
    let mut w: usize = 0;
    while w < WORKERS
        invariant
            w <= WORKERS,
            senders@.len() == w,
            queues@.len() == w,
            loads@.len() == w,
            forall|v: int| 0 <= v < w ==> #[trigger] loads@[v] == 0,
        decreases WORKERS - w,
    {
        let (sender, queue) = std::sync::mpsc::channel();
        senders.push(sender);
        queues.push(queue);
        loads.push(0);
        w = w + 1;
    }

    let ghost mut routed: Seq<Seq<TaskView>> = Seq::new(
        WORKERS as nat,
        |v: int| Seq::<TaskView>::empty(),
    );
    let mut replies: Vec<oneshot::Receiver<Reply<T>>> = Vec::new();
    let mut i: usize = 0;
    while i < rows
        invariant
            rows == a@.rows,
            cols == b@.cols,
            a@.cols == b@.rows,
            rows * cols <= usize::MAX,
            product_fits::<T>(a@, b@),
            i <= rows,
            senders@.len() == WORKERS,
            loads@.len() == WORKERS,
            replies@.len() == i * cols,
            routed.len() == WORKERS,
            forall|v: int|
                0 <= v < WORKERS ==> #[trigger] routed[v] == routed_tasks(
                    a@,
                    b@,
                    (i * cols) as nat,
                    v,
                ),
            forall|v: int| 0 <= v < WORKERS ==> #[trigger] loads@[v] == routed[v].len(),
        decreases rows - i,
    {
        let mut j: usize = 0;
        while j < cols
            invariant
                rows == a@.rows,
                cols == b@.cols,
                a@.cols == b@.rows,
                rows * cols <= usize::MAX,
                product_fits::<T>(a@, b@),
                i < rows,
                j <= cols,
                senders@.len() == WORKERS,
                loads@.len() == WORKERS,
                replies@.len() == i * cols + j,
                routed.len() == WORKERS,
                forall|v: int|
                    0 <= v < WORKERS ==> #[trigger] routed[v] == routed_tasks(
                        a@,
                        b@,
                        (i * cols + j) as nat,
                        v,
                    ),
                forall|v: int| 0 <= v < WORKERS ==> #[trigger] loads@[v] == routed[v].len(),
            decreases cols - j,
        {
            proof {
                lemma_flat_index(i as int, j as int, rows as int, cols as int);
            }
            let index = i * cols + j;
            let task = task_for(a, b, i, j);
            let ghost submitted = task@;
            let (reply_to, reply) = oneshot::channel();
            let target = worker_for(index);
            match senders[target].send(TaskEnvelope { task, reply_to }) {
                Ok(_) => {},
                Err(_) => {
                    return Err(Error::DispatchFailure);
                },
            }
            proof {
                lemma_routed_bound(a@, b@, index as nat, target as int);
                routed = routed.update(target as int, routed[target as int].push(submitted));
            }
            loads[target] = loads[target] + 1;
            replies.push(reply);
            j = j + 1;
        }
        proof {
            assert((i + 1) * cols == i * cols + cols) by (nonlinear_arith);
        }
        i = i + 1;
    }

    let mut workers: Vec<Worker<T>> = Vec::new();
    let mut w: usize = 0;
    while w < WORKERS
        invariant
            w <= WORKERS,
            loads@.len() == WORKERS,
            queues@.len() == WORKERS - w,
            workers@.len() == w,
            routed.len() == WORKERS,
            forall|v: int| 0 <= v < WORKERS ==> #[trigger] loads@[v] == routed[v].len(),
            forall|v: int| 0 <= v < w ==> (#[trigger] workers@[v]).routed() == routed[v],
        decreases WORKERS - w,
    {
        let queue = queues.remove(0);
        workers.push(Worker { queue, assigned: loads[w], routed: Ghost(routed[w as int]) });
        w = w + 1;
    }
    Ok((workers, Pending { rows, cols, replies }))
}

/// Collecting replies that answer tasks of the product leaves, at every
/// position that some reply names, the product's cell, and at every other
/// position what the buffer held before.
pub proof fn lemma_gathered_cell(
    a: MatrixView,
    b: MatrixView,
    cells: Seq<int>,
    replies: Seq<ReplyView>,
    k: int,
)
    requires
        forall|i: int| 0 <= i < replies.len() ==> answers_task(a, b, #[trigger] replies[i]),
        0 <= k < cells.len(),
    ensures
        gathered(cells, replies).len() == cells.len(),
        gathered(cells, replies)[k] == if answered(replies, k) {
            product_cell(a, b, k)
        } else {
            cells[k]
        },
    decreases replies.len(),
{
    if replies.len() > 0 {
        let earlier = replies.drop_last();
        let last = replies.last();
        lemma_gathered_cell(a, b, cells, earlier, k);
        assert(answers_task(a, b, last));
        if last.index == k {
            assert(replies[replies.len() - 1].index == k);
        } else if answered(earlier, k) {
            let i = choose|i: int| 0 <= i < earlier.len() && (#[trigger] earlier[i]).index == k;
            assert(replies[i].index == k);
        } else if answered(replies, k) {
            let i = choose|i: int| 0 <= i < replies.len() && (#[trigger] replies[i]).index == k;
            assert(earlier[i].index == k);
        }
    }
}

/// Replies that each answer a task, with every task answered, assemble to
/// the product: the matrix that `collect` returns for them is the very
/// result of `sequential_multiply`. The order in which the replies
/// arrive, and whether one arrives twice, makes no difference.
pub proof fn law_collected_answers_give_the_product(
    a: MatrixView,
    b: MatrixView,
    m: MatrixView,
    replies: Seq<ReplyView>,
)
    requires
        a.cols == b.rows,
        m.rows == a.rows,
        m.cols == b.cols,
        assembled_from(m.cells, a.rows * b.cols, replies),
        forall|i: int| 0 <= i < replies.len() ==> answers_task(a, b, #[trigger] replies[i]),
        forall|k: int| 0 <= k < a.rows * b.cols ==> #[trigger] answered(replies, k),
    ensures
        multiply_outcome(a, b) == Ok::<MatrixView, Error>(m),
{
    lemma_gathered_is_product(a, b, replies);
}

/// Collecting replies never changes the size of the buffer.
pub proof fn lemma_gathered_length(cells: Seq<int>, replies: Seq<ReplyView>)
    ensures
        gathered(cells, replies).len() == cells.len(),
    decreases replies.len(),
{
    if replies.len() > 0 {
        lemma_gathered_length(cells, replies.drop_last());
    }
}

/// Replies that each answer a task, with every task answered, leave the
/// cells of the product in a zeroed buffer.
pub proof fn lemma_gathered_is_product(a: MatrixView, b: MatrixView, replies: Seq<ReplyView>)
    requires
        forall|i: int| 0 <= i < replies.len() ==> answers_task(a, b, #[trigger] replies[i]),
        forall|k: int| 0 <= k < a.rows * b.cols ==> #[trigger] answered(replies, k),
    ensures
        gathered(zeros(a.rows * b.cols), replies) == product(a, b).cells,
{
    let n = a.rows * b.cols;
    let cells = gathered(zeros(n), replies);
    lemma_gathered_length(zeros(n), replies);
    assert forall|k: int| 0 <= k < n implies cells[k] == product(a, b).cells[k] by {
        lemma_gathered_cell(a, b, zeros(n), replies, k);
        assert(answered(replies, k));
    }
    assert(cells =~= product(a, b).cells);
}

/// The answers to the tasks, in the order of submission, each answer a
/// task, and every task is answered.
pub proof fn lemma_answers_cover_the_tasks(a: MatrixView, b: MatrixView)
    ensures
        forall|i: int|
            0 <= i < answers(a, b).len() ==> answers_task(a, b, #[trigger] answers(a, b)[i]),
        forall|k: int| 0 <= k < a.rows * b.cols ==> #[trigger] answered(answers(a, b), k),
{
    let replies = answers(a, b);
    assert forall|k: int| 0 <= k < a.rows * b.cols implies #[trigger] answered(replies, k) by {
        assert(replies[k].index == k);
    }
}

/// The parallel path agrees with the sequential one, on every pair of
/// matrices: where the shapes fit, the answers to the tasks assemble to
/// the product that `sequential_multiply` returns, cell for cell; where
/// they do not, both paths fail with a dimension mismatch.
pub proof fn law_parallel_matches_sequential(a: MatrixView, b: MatrixView)
    ensures
        pool_outcome(a, b) == multiply_outcome(a, b),
{
    if a.cols == b.rows {
        lemma_answers_cover_the_tasks(a, b);
        lemma_gathered_is_product(a, b, answers(a, b));
    }
}

/// Repeated runs give the same matrix: however the replies of a run are
/// ordered, and even if some arrive twice, as long as each answers a task
/// and every task is answered they assemble to the cells that the answers
/// in order of submission assemble to.
pub proof fn law_result_is_determined(a: MatrixView, b: MatrixView, replies: Seq<ReplyView>)
    requires
        forall|i: int| 0 <= i < replies.len() ==> answers_task(a, b, #[trigger] replies[i]),
        forall|k: int| 0 <= k < a.rows * b.cols ==> #[trigger] answered(replies, k),
    ensures
        gathered(zeros(a.rows * b.cols), replies) == gathered(
            zeros(a.rows * b.cols),
            answers(a, b),
        ),
{
    lemma_answers_cover_the_tasks(a, b);
    lemma_gathered_is_product(a, b, replies);
    lemma_gathered_is_product(a, b, answers(a, b));
}

} // verus!
