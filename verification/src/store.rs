//! The datastore as the indexer sees it: a cursor and three keyed tables,
//! and what each write does to them.

use crate::writes::WriteOpView;
use vstd::prelude::*;

verus! {

/// The row of a block.
#[derive(Debug, Clone, Copy, PartialEq, Eq)]
pub struct BlockRow {
    pub tx_count: u64,
    pub err_count: u64,
}

/// The row of a transaction.
#[derive(Debug, Clone, Copy, PartialEq, Eq)]
pub struct TransactionRow {
    pub slot: u64,
    pub is_error: bool,
    pub fee_lamports: Option<i64>,
    pub compute_units: Option<i64>,
}

/// The contents of the datastore. Blocks are keyed by slot, transactions by
/// signature, associations by signature and program; each association holds
/// the slot it was first written with.
pub struct Store {
    pub cursor: u64,
    pub blocks: Map<u64, BlockRow>,
    pub transactions: Map<Seq<char>, TransactionRow>,
    pub associations: Map<(Seq<char>, Seq<char>), u64>,
}

/// Two writes go to the same row.
pub open spec fn same_key(a: WriteOpView, b: WriteOpView) -> bool {
    match (a, b) {
        (WriteOpView::Block { slot: s1, .. }, WriteOpView::Block { slot: s2, .. }) => s1 == s2,
        (
            WriteOpView::Transaction { signature: g1, .. },
            WriteOpView::Transaction { signature: g2, .. },
        ) => g1 == g2,
        (
            WriteOpView::Association { signature: g1, program_id: p1, .. },
            WriteOpView::Association { signature: g2, program_id: p2, .. },
        ) => g1 == g2 && p1 == p2,
        (WriteOpView::Cursor { .. }, WriteOpView::Cursor { .. }) => true,
        _ => false,
    }
}

impl Store {
    /// The datastore after its schema is set up: no rows, the cursor at 0.
    pub open spec fn empty() -> Store {
        Store {
            cursor: 0,
            blocks: Map::empty(),
            transactions: Map::empty(),
            associations: Map::empty(),
        }
    }

    /// The datastore after one write. A block or a transaction is inserted or
    /// overwritten, an association is inserted unless it is there, and the
    /// cursor is set.
    pub open spec fn apply(self, op: WriteOpView) -> Store {
        match op {
            WriteOpView::Block { slot, tx_count, err_count } => Store {
                blocks: self.blocks.insert(slot, BlockRow { tx_count, err_count }),
                ..self
            },
            WriteOpView::Transaction { signature, slot, is_error, fee_lamports, compute_units } => {
                Store {
                    transactions: self.transactions.insert(
                        signature,
                        TransactionRow { slot, is_error, fee_lamports, compute_units },
                    ),
                    ..self
                }
            },
            WriteOpView::Association { signature, slot, program_id } => {
                if self.associations.contains_key((signature, program_id)) {
                    self
                } else {
                    Store {
                        associations: self.associations.insert((signature, program_id), slot),
                        ..self
                    }
                }
            },
            WriteOpView::Cursor { slot } => Store { cursor: slot, ..self },
        }
    }

    /// The datastore after the writes `ops`, made in order.
    pub open spec fn apply_all(self, ops: Seq<WriteOpView>) -> Store
        decreases ops.len(),
    {
        if ops.len() == 0 {
            self
        } else {
            self.apply_all(ops.drop_last()).apply(ops.last())
        }
    }
}

/// A write that is made twice leaves what it left the first time.
pub proof fn lemma_write_is_idempotent(store: Store, op: WriteOpView)
    ensures
        store.apply(op).apply(op) == store.apply(op),
{
    match op {
        WriteOpView::Block { slot, tx_count, err_count } => {
            assert(store.apply(op).apply(op).blocks =~= store.apply(op).blocks);
        },
        WriteOpView::Transaction { signature, .. } => {
            assert(store.apply(op).apply(op).transactions =~= store.apply(op).transactions);
        },
        WriteOpView::Association { .. } => {},
        WriteOpView::Cursor { .. } => {},
    }
}

/// Of two writes to the same row the later one decides what the row holds,
/// except for an association, which keeps what it was first written with.
pub proof fn lemma_later_write_wins(store: Store, first: WriteOpView, second: WriteOpView)
    requires
        same_key(first, second),
    ensures
        second is Association ==> store.apply(first).apply(second) == store.apply(first),
        !(second is Association) ==> store.apply(first).apply(second) == store.apply(second),
{
    match second {
        WriteOpView::Block { .. } => {
            assert(store.apply(first).apply(second).blocks =~= store.apply(second).blocks);
        },
        WriteOpView::Transaction { .. } => {
            assert(store.apply(first).apply(second).transactions =~= store.apply(
                second,
            ).transactions);
        },
        WriteOpView::Association { .. } => {},
        WriteOpView::Cursor { .. } => {},
    }
}

/// A write touches one row: its table gains at most the key of the write,
/// every other row stays as it was, and the other tables are untouched.
pub proof fn lemma_write_touches_one_row(store: Store, op: WriteOpView)
    ensures
        match op {
            WriteOpView::Block { slot, tx_count, err_count } => {
                &&& store.apply(op).blocks.dom() == store.blocks.dom().insert(slot)
                &&& store.apply(op).blocks[slot] == BlockRow { tx_count, err_count }
                &&& forall|k: u64|
                    k != slot && store.blocks.contains_key(k) ==> store.apply(op).blocks[k]
                        == store.blocks[k]
                &&& store.apply(op) == Store { blocks: store.apply(op).blocks, ..store }
            },
            WriteOpView::Transaction { signature, slot, is_error, fee_lamports, compute_units } => {
                &&& store.apply(op).transactions.dom() == store.transactions.dom().insert(
                    signature,
                )
                &&& store.apply(op).transactions[signature] == TransactionRow {
                    slot,
                    is_error,
                    fee_lamports,
                    compute_units,
                }
                &&& forall|k: Seq<char>|
                    k != signature && store.transactions.contains_key(k) ==> store.apply(
                        op,
                    ).transactions[k] == store.transactions[k]
                &&& store.apply(op) == Store { transactions: store.apply(op).transactions, ..store }
            },
            WriteOpView::Association { signature, slot, program_id } => {
                &&& store.apply(op).associations.dom() == store.associations.dom().insert(
                    (signature, program_id),
                )
                &&& forall|k: (Seq<char>, Seq<char>)|
                    store.associations.contains_key(k) ==> store.apply(op).associations[k]
                        == store.associations[k]
                &&& !store.associations.contains_key((signature, program_id)) ==> store.apply(
                    op,
                ).associations[(signature, program_id)] == slot
                &&& store.apply(op) == Store { associations: store.apply(op).associations, ..store }
            },
            WriteOpView::Cursor { slot } => store.apply(op) == Store { cursor: slot, ..store },
        },
{
}

/// The row that the last write of `ops` to the block at `slot` gives, if
/// any write goes there.
pub open spec fn last_block(ops: Seq<WriteOpView>, slot: u64) -> Option<BlockRow>
    decreases ops.len(),
{
    if ops.len() == 0 {
        None
    } else {
        match ops.last() {
            WriteOpView::Block { slot: s, tx_count, err_count } if s == slot => Some(
                BlockRow { tx_count, err_count },
            ),
            _ => last_block(ops.drop_last(), slot),
        }
    }
}

/// The row that the last write of `ops` to the transaction `signature`
/// gives, if any write goes there.
pub open spec fn last_transaction(ops: Seq<WriteOpView>, signature: Seq<char>) -> Option<
    TransactionRow,
>
    decreases ops.len(),
{
    if ops.len() == 0 {
        None
    } else {
        match ops.last() {
            WriteOpView::Transaction { signature: g, slot, is_error, fee_lamports, compute_units }
                if g == signature => Some(
                TransactionRow { slot, is_error, fee_lamports, compute_units },
            ),
            _ => last_transaction(ops.drop_last(), signature),
        }
    }
}

/// The slot that the first write of `ops` to the association `key` carries,
/// if any write goes there.
pub open spec fn first_association(ops: Seq<WriteOpView>, key: (Seq<char>, Seq<char>)) -> Option<
    u64,
>
    decreases ops.len(),
{
    if ops.len() == 0 {
        None
    } else {
        match first_association(ops.drop_last(), key) {
            Some(slot) => Some(slot),
            None => match ops.last() {
                WriteOpView::Association { signature, slot, program_id } if (signature, program_id)
                    == key => Some(slot),
                _ => None,
            },
        }
    }
}

/// The slot that the last cursor write of `ops` carries, if there is one.
pub open spec fn last_cursor(ops: Seq<WriteOpView>) -> Option<u64>
    decreases ops.len(),
{
    if ops.len() == 0 {
        None
    } else {
        match ops.last() {
            WriteOpView::Cursor { slot } => Some(slot),
            _ => last_cursor(ops.drop_last()),
        }
    }
}

/// The datastore that holds, over `store`, what the writes `ops` leave: for
/// the cursor, a block or a transaction what the last write to it gives, for
/// an association that was not there what the first write to it gives.
pub open spec fn overlaid(store: Store, ops: Seq<WriteOpView>) -> Store {
    Store {
        cursor: match last_cursor(ops) {
            Some(slot) => slot,
            None => store.cursor,
        },
        blocks: Map::new(
            |slot: u64| store.blocks.contains_key(slot) || last_block(ops, slot) is Some,
            |slot: u64|
                match last_block(ops, slot) {
                    Some(row) => row,
                    None => store.blocks[slot],
                },
        ),
        transactions: Map::new(
            |g: Seq<char>| store.transactions.contains_key(g) || last_transaction(ops, g) is Some,
            |g: Seq<char>|
                match last_transaction(ops, g) {
                    Some(row) => row,
                    None => store.transactions[g],
                },
        ),
        associations: Map::new(
            |key: (Seq<char>, Seq<char>)|
                store.associations.contains_key(key) || first_association(ops, key) is Some,
            |key: (Seq<char>, Seq<char>)|
                if store.associations.contains_key(key) {
                    store.associations[key]
                } else {
                    first_association(ops, key)->0
                },
        ),
    }
}

/// After a list of writes each row holds what the last write to it gave, and
/// each association what it was first written with.
pub proof fn lemma_rows_after_writes(store: Store, ops: Seq<WriteOpView>)
    ensures
        store.apply_all(ops) == overlaid(store, ops),
    decreases ops.len(),
{
    let after = store.apply_all(ops);
    let over = overlaid(store, ops);
    if ops.len() == 0 {
        assert(over.blocks =~= store.blocks);
        assert(over.transactions =~= store.transactions);
        assert(over.associations =~= store.associations);
    } else {
        let init = ops.drop_last();
        lemma_rows_after_writes(store, init);
        assert(after.blocks =~= over.blocks);
        assert(after.transactions =~= over.transactions);
        assert(after.associations =~= over.associations);
    }
}

/// Writes that are made again, all of them and in their order, leave the
/// datastore as it was after they were first made.
pub proof fn lemma_replay_changes_nothing(store: Store, ops: Seq<WriteOpView>)
    ensures
        store.apply_all(ops).apply_all(ops) == store.apply_all(ops),
{
    let once = store.apply_all(ops);
    let twice = once.apply_all(ops);
    lemma_rows_after_writes(store, ops);
    lemma_rows_after_writes(once, ops);
    assert(twice.blocks =~= once.blocks);
    assert(twice.transactions =~= once.transactions);
    assert(twice.associations =~= once.associations);
}

} // verus!
