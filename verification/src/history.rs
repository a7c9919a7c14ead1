//! The append-only operation log: batches of executed moves and
//! deletes, a bounded history, and the undo plan for a batch.
//!
//! Persisting the history as JSON is input/output and lives outside
//! this crate; the log's structure and its laws are here.

use vstd::prelude::*;
use crate::timeutil::now_unix_secs;

verus! {

/// The kind of one executed mutation.
#[derive(Clone, Copy, Debug, PartialEq, Eq, Structural)]
pub enum OperationType {
    Move,
    Delete,
}

/// One executed mutation: a move from `from` to `to`, or a delete of
/// `from` (with an empty `to`).
#[derive(Debug)]
pub struct FileOperation {
    pub from: String,
    pub to: String,
    pub operation_type: OperationType,
}

impl Clone for FileOperation {
    /// An exact copy of the operation.
    fn clone(&self) -> (r: Self)
        ensures
            r == *self,
    {
        FileOperation {
            from: self.from.clone(),
            to: self.to.clone(),
            operation_type: self.operation_type,
        }
    }
}

/// One logical user action: the operations it performed, in execution
/// order, with a timestamp and the originating command.
#[derive(Debug)]
pub struct OperationBatch {
    /// Seconds since the Unix epoch when the batch was recorded.
    pub timestamp: u64,
    /// The command that produced the batch.
    pub command: String,
    /// The executed operations, in execution order.
    pub operations: Vec<FileOperation>,
}

impl Clone for OperationBatch {
    /// A copy of the batch, equal in every field.
    fn clone(&self) -> (r: Self)
        ensures
            r.timestamp == self.timestamp,
            r.command@ == self.command@,
            r.operations@ == self.operations@,
    {
        let mut operations: Vec<FileOperation> = Vec::new();
        let mut i: usize = 0;
        while i < self.operations.len()
            invariant
                i <= self.operations@.len(),
                operations@ =~= self.operations@.subrange(0, i as int),
            decreases self.operations@.len() - i,
        {
            operations.push(self.operations[i].clone());
            assert(operations@ =~= self.operations@.subrange(0, i + 1));
            i += 1;
        }
        assert(operations@ =~= self.operations@);
        OperationBatch { timestamp: self.timestamp, command: self.command.clone(), operations }
    }
}

/// The most recent batches, oldest first, never more than 50.
#[derive(Debug)]
pub struct History {
    pub batches: Vec<OperationBatch>,
}

/// The number of batches the history retains.
pub const HISTORY_CAP: usize = 50;

impl History {
    /// An empty history.
    pub fn new() -> (r: History)
        ensures
            r.batches@.len() == 0,
    {
        History { batches: Vec::new() }
    }

    /// Records one batch under the given command, stamped with the
    /// clock. When the history already holds 50 batches, the oldest is
    /// evicted; the new batch is always last, and at most 50 remain.
    pub fn add_batch(&mut self, command: String, operations: Vec<FileOperation>)
        requires
            old(self).batches@.len() <= HISTORY_CAP,
        ensures
            final(self).batches@.len() <= HISTORY_CAP,
            final(self).batches@.len() > 0,
            final(self).batches@.last().command == command,
            final(self).batches@.last().operations == operations,
            old(self).batches@.len() < HISTORY_CAP ==> final(self).batches@.drop_last() == old(self).batches@,
            old(self).batches@.len() == HISTORY_CAP ==> final(self).batches@.drop_last() == old(self).batches@.drop_first(),
    {
        let timestamp = now_unix_secs();
        let batch = OperationBatch { timestamp, command, operations };
        self.batches.push(batch);
        if self.batches.len() > HISTORY_CAP {
            self.batches.remove(0);
            assert(final(self).batches@.drop_last() =~= old(self).batches@.drop_first());
            assert(final(self).batches@.last() == old(self).batches@.push(batch).last());
        } else {
            assert(final(self).batches@.drop_last() =~= old(self).batches@);
        }
    }

    /// Removes and returns the most recent batch, if any.
    pub fn pop_last(&mut self) -> (r: Option<OperationBatch>)
        ensures
            match r {
                Some(b) => {
                    &&& old(self).batches@.len() > 0
                    &&& b == old(self).batches@.last()
                    &&& final(self).batches@ == old(self).batches@.drop_last()
                },
                None => {
                    &&& old(self).batches@.len() == 0
                    &&& final(self).batches@ == old(self).batches@
                },
            },
    {
        self.batches.pop()
    }

    /// Whether no batch is recorded.
    pub fn is_empty(&self) -> (r: bool)
        ensures
            r == (self.batches@.len() == 0),
    {
        self.batches.len() == 0
    }
}

impl Default for History {
    fn default() -> Self {
        History::new()
    }
}

/// Collects the operations of one command before they are committed to
/// the history as a single batch.
#[derive(Debug)]
pub struct Logger {
    operations: Vec<FileOperation>,
    command: String,
}

impl Logger {
    /// The operations logged so far, in order.
    pub closed spec fn ops(self) -> Seq<FileOperation> {
        self.operations@
    }

    /// The command this logger records for.
    pub closed spec fn spec_command(self) -> Seq<char> {
        self.command@
    }

    /// A fresh logger for one command.
    pub fn new(command: &str) -> (r: Logger)
        ensures
            r.ops().len() == 0,
            r.spec_command() == command@,
    {
        Logger { operations: Vec::new(), command: command.to_owned() }
    }

    /// Records one executed move.
    pub fn log_move(&mut self, from: String, to: String)
        ensures
            final(self).ops() == old(self).ops().push(
                FileOperation { from, to, operation_type: OperationType::Move },
            ),
            final(self).spec_command() == old(self).spec_command(),
    {
        self.operations.push(FileOperation { from, to, operation_type: OperationType::Move });
    }

    /// Records one executed delete.
    pub fn log_delete(&mut self, path: String)
        ensures
            final(self).ops().len() == old(self).ops().len() + 1,
            final(self).ops().drop_last() == old(self).ops(),
            final(self).ops().last().from == path,
            final(self).ops().last().to@ == Seq::<char>::empty(),
            final(self).ops().last().operation_type == OperationType::Delete,
            final(self).spec_command() == old(self).spec_command(),
    {
        self.operations.push(
            FileOperation { from: path, to: String::new(), operation_type: OperationType::Delete },
        );
        assert(final(self).ops().drop_last() =~= old(self).ops());
    }

    /// The number of logged operations.
    pub fn count(&self) -> (r: usize)
        ensures
            r == self.ops().len(),
    {
        self.operations.len()
    }

    /// Commits the logged operations to the history as one batch; a
    /// logger that recorded nothing leaves the history unchanged.
    pub fn save(self, history: &mut History)
        requires
            old(history).batches@.len() <= HISTORY_CAP,
        ensures
            final(history).batches@.len() <= HISTORY_CAP,
            self.ops().len() == 0 ==> final(history).batches@ == old(history).batches@,
            self.ops().len() > 0 ==> {
                &&& final(history).batches@.len() > 0
                &&& final(history).batches@.last().command@ == self.spec_command()
                &&& final(history).batches@.last().operations@ == self.ops()
                &&& (old(history).batches@.len() < HISTORY_CAP ==> final(history).batches@.drop_last() == old(history).batches@)
                &&& (old(history).batches@.len() == HISTORY_CAP ==> final(history).batches@.drop_last() == old(history).batches@.drop_first())
            },
    {
        if self.operations.len() == 0 {
            return ;
        }
        history.add_batch(self.command, self.operations);
    }
}

/// The operation that reverses `op`: a move is renamed back; a delete
/// cannot be reversed and is kept as is, for the caller to report.
pub open spec fn undo_op(op: FileOperation) -> FileOperation {
    match op.operation_type {
        OperationType::Move => FileOperation {
            from: op.to,
            to: op.from,
            operation_type: OperationType::Move,
        },
        OperationType::Delete => op,
    }
}

/// The undo plan for a sequence of operations: each operation reversed,
/// in reverse order.
pub open spec fn undo_ops(ops: Seq<FileOperation>) -> Seq<FileOperation>
    decreases ops.len(),
{
    if ops.len() == 0 {
        Seq::empty()
    } else {
        undo_ops(ops.drop_first()).push(undo_op(ops.first()))
    }
}

proof fn lemma_undo_ops_index(ops: Seq<FileOperation>, i: int)
    requires
        0 <= i < ops.len(),
    ensures
        undo_ops(ops).len() == ops.len(),
        undo_ops(ops)[i] == undo_op(ops[ops.len() - 1 - i]),
    decreases ops.len(),
{
    lemma_undo_ops_len(ops);
    if ops.len() == 1 {
    } else {
        if i < ops.len() - 1 {
            lemma_undo_ops_index(ops.drop_first(), i);
            lemma_undo_ops_len(ops.drop_first());
        } else {
            lemma_undo_ops_len(ops.drop_first());
        }
    }
}

proof fn lemma_undo_ops_len(ops: Seq<FileOperation>)
    ensures
        undo_ops(ops).len() == ops.len(),
    decreases ops.len(),
{
    if ops.len() > 0 {
        lemma_undo_ops_len(ops.drop_first());
    }
}

/// The undo plan for a batch: its operations reversed, most recent
/// first, so that later moves are undone before the earlier moves they
/// may depend on.
pub fn plan_undo(batch: &OperationBatch) -> (r: Vec<FileOperation>)
    ensures
        r@ == undo_ops(batch.operations@),
{
    let n = batch.operations.len();
    let mut r: Vec<FileOperation> = Vec::new();
    let mut i: usize = n;
    while i > 0
        invariant
            n == batch.operations@.len(),
            i <= n,
            r@.len() == n - i,
            forall|k: int|
                0 <= k < r@.len() ==> r@[k] == undo_op(batch.operations@[n - 1 - k]),
        decreases i,
    {
        i -= 1;
        let op = &batch.operations[i];
        match op.operation_type {
            OperationType::Move => {
                r.push(
                    FileOperation {
                        from: op.to.clone(),
                        to: op.from.clone(),
                        operation_type: OperationType::Move,
                    },
                );
            },
            OperationType::Delete => {
                r.push(op.clone());
            },
        }
    }
    proof {
        lemma_undo_ops_len(batch.operations@);
        assert forall|k: int| 0 <= k < r@.len() implies r@[k] == undo_ops(batch.operations@)[k] by {
            lemma_undo_ops_index(batch.operations@, k);
        }
        assert(r@ =~= undo_ops(batch.operations@));
    }
    r
}

/// A model of the filesystem as a map from paths to contents.
pub open spec fn apply_op(fs: Map<Seq<char>, Seq<u8>>, op: FileOperation) -> Map<
    Seq<char>,
    Seq<u8>,
> {
    match op.operation_type {
        OperationType::Move => {
            if fs.contains_key(op.from@) {
                fs.remove(op.from@).insert(op.to@, fs[op.from@])
            } else {
                fs
            }
        },
        OperationType::Delete => fs.remove(op.from@),
    }
}

/// The filesystem after a sequence of operations, applied in order.
pub open spec fn apply_ops(fs: Map<Seq<char>, Seq<u8>>, ops: Seq<FileOperation>) -> Map<
    Seq<char>,
    Seq<u8>,
>
    decreases ops.len(),
{
    if ops.len() == 0 {
        fs
    } else {
        apply_ops(apply_op(fs, ops.first()), ops.drop_first())
    }
}

/// A batch of moves that can be executed on `fs` without interference:
/// every operation is a move, sources are distinct, destinations are
/// distinct, no destination is also a source, every source exists, and
/// no destination exists beforehand.
pub open spec fn moves_applicable(fs: Map<Seq<char>, Seq<u8>>, ops: Seq<FileOperation>) -> bool {
    &&& forall|i: int|
        0 <= i < ops.len() ==> (#[trigger] ops[i].operation_type) == OperationType::Move
    &&& forall|i: int, j: int|
        0 <= i < j < ops.len() ==> ops[i].from@ != ops[j].from@ && ops[i].to@ != ops[j].to@
    &&& forall|i: int, j: int|
        0 <= i < ops.len() && 0 <= j < ops.len() ==> ops[i].to@ != ops[j].from@
    &&& forall|i: int|
        0 <= i < ops.len() ==> fs.contains_key(#[trigger] ops[i].from@) && !fs.contains_key(
            ops[i].to@,
        )
}

/// Undoing a batch of moves restores the original filesystem: for any
/// filesystem state and any batch of move operations with distinct
/// sources and destinations, all applicable and with no interference
/// between them, applying the batch and then its undo plan yields the
/// state the filesystem started in — the same path set with the same
/// contents.
pub proof fn lemma_undo_restores_moves(fs: Map<Seq<char>, Seq<u8>>, ops: Seq<FileOperation>)
    requires
        moves_applicable(fs, ops),
    ensures
        apply_ops(apply_ops(fs, ops), undo_ops(ops)) == fs,
    decreases ops.len(),
{
    if ops.len() == 0 {
    } else {
        let op = ops.first();
        let rest = ops.drop_first();
        let v = fs[op.from@];
        let fs1 = apply_op(fs, op);
        assert(fs1 == fs.remove(op.from@).insert(op.to@, v));
        assert(moves_applicable(fs1, rest)) by {
            assert(forall|i: int|
                0 <= i < rest.len() ==> rest[i] == ops[i + 1] && (#[trigger] rest[i].from@)
                    == ops[i + 1].from@ && rest[i].to@ == ops[i + 1].to@);
        }
        lemma_undo_restores_moves(fs1, rest);
        // the undo plan runs the undo of `rest` first, then reverses `op`
        let fs2 = apply_ops(fs1, rest);
        assert(apply_ops(fs2, undo_ops(rest)) == fs1);
        lemma_apply_ops_snoc(fs2, undo_ops(rest), undo_op(op));
        assert(undo_ops(ops) =~= undo_ops(rest).push(undo_op(op)));
        // reversing the first move on the restored intermediate state
        let back = undo_op(op);
        assert(back.operation_type == OperationType::Move);
        assert(back.from@ == op.to@ && back.to@ == op.from@);
        assert(fs1.contains_key(op.to@));
        assert(fs1[op.to@] == v);
        assert(apply_op(fs1, back) == fs1.remove(op.to@).insert(op.from@, v));
        assert(apply_op(fs1, back) =~= fs);
        assert(apply_ops(apply_ops(fs, ops), undo_ops(ops)) == fs);
    }
}

proof fn lemma_apply_ops_snoc(fs: Map<Seq<char>, Seq<u8>>, ops: Seq<FileOperation>, op: FileOperation)
    ensures
        apply_ops(fs, ops.push(op)) == apply_op(apply_ops(fs, ops), op),
    decreases ops.len(),
{
    let s = ops.push(op);
    assert(s.len() == ops.len() + 1);
    assert(apply_ops(fs, s) == apply_ops(apply_op(fs, s.first()), s.drop_first()));
    if ops.len() == 0 {
        assert(s.drop_first() =~= Seq::<FileOperation>::empty());
        assert(s.first() == op);
        assert(apply_ops(apply_op(fs, op), Seq::<FileOperation>::empty()) == apply_op(fs, op));
        assert(apply_ops(fs, ops) == fs);
    } else {
        assert(s.first() == ops.first());
        assert(s.drop_first() =~= ops.drop_first().push(op));
        lemma_apply_ops_snoc(apply_op(fs, ops.first()), ops.drop_first(), op);
        assert(apply_ops(fs, ops) == apply_ops(apply_op(fs, ops.first()), ops.drop_first()));
    }
}

} // verus!
