//! A datastore in memory that keeps the contract of the writes: for dry runs
//! of the indexer, and to try the contract on.

use crate::store::{BlockRow, Store, TransactionRow};
use crate::text::str_same;
use crate::writes::WriteOp;
use vstd::prelude::*;

verus! {

/// The table that holds `values[i]` under `keys[i]`.
pub open spec fn table_of<K, V>(keys: Seq<K>, values: Seq<V>) -> Map<K, V> {
    Map::new(|k: K| keys.contains(k), |k: K| values[keys.index_of(k)])
}

/// A new key with its value at the end of the rows is an insertion into
/// the table.
proof fn lemma_table_push<K, V>(keys: Seq<K>, values: Seq<V>, k: K, v: V)
    requires
        keys.len() == values.len(),
        keys.no_duplicates(),
        !keys.contains(k),
    ensures
        keys.push(k).no_duplicates(),
        table_of(keys.push(k), values.push(v)) == table_of(keys, values).insert(k, v),
{
    let keys2 = keys.push(k);
    let values2 = values.push(v);
    assert forall|x: K| #[trigger]
        table_of(keys2, values2).contains_key(x) <==> table_of(keys, values).insert(
            k,
            v,
        ).contains_key(x) by {
        if keys.contains(x) {
            let i = choose|i: int| 0 <= i < keys.len() && keys[i] == x;
            assert(keys2[i] == x);
        }
        if x == k {
            assert(keys2[keys.len() as int] == x);
        }
    }
}

/// A new value in the place of row `i` is an insertion under the key of
/// that row.
proof fn lemma_table_update<K, V>(keys: Seq<K>, values: Seq<V>, i: int, v: V)
    requires
        keys.len() == values.len(),
        keys.no_duplicates(),
        0 <= i < keys.len(),
    ensures
        table_of(keys, values.update(i, v)) == table_of(keys, values).insert(keys[i], v),
{
}

/// A table has as many rows as keys.
proof fn lemma_table_len<K, V>(keys: Seq<K>, values: Seq<V>)
    requires
        keys.no_duplicates(),
    ensures
        table_of(keys, values).dom().finite(),
        table_of(keys, values).dom().len() == keys.len(),
{
    keys.unique_seq_to_set();
}

/// A block row with its key.
struct BlockEntry {
    slot: u64,
    row: BlockRow,
}

/// A transaction row with its key.
struct TransactionEntry {
    signature: String,
    row: TransactionRow,
}

/// An association with the slot that it was first written with.
struct AssociationEntry {
    signature: String,
    program_id: String,
    slot: u64,
}

/// The keys of the block rows.
spec fn block_keys(rows: Seq<BlockEntry>) -> Seq<u64> {
    Seq::new(rows.len(), |i: int| rows[i].slot)
}

/// The block rows without their keys.
spec fn block_rows(rows: Seq<BlockEntry>) -> Seq<BlockRow> {
    Seq::new(rows.len(), |i: int| rows[i].row)
}

/// The keys of the transaction rows.
spec fn transaction_keys(rows: Seq<TransactionEntry>) -> Seq<Seq<char>> {
    Seq::new(rows.len(), |i: int| rows[i].signature@)
}

/// The transaction rows without their keys.
spec fn transaction_rows(rows: Seq<TransactionEntry>) -> Seq<TransactionRow> {
    Seq::new(rows.len(), |i: int| rows[i].row)
}

/// The keys of the associations.
spec fn association_keys(rows: Seq<AssociationEntry>) -> Seq<(Seq<char>, Seq<char>)> {
    Seq::new(rows.len(), |i: int| (rows[i].signature@, rows[i].program_id@))
}

/// The slots of the associations.
spec fn association_rows(rows: Seq<AssociationEntry>) -> Seq<u64> {
    Seq::new(rows.len(), |i: int| rows[i].slot)
}

/// Finds the row of the block at `slot`.
fn find_block(rows: &Vec<BlockEntry>, slot: u64) -> (r: Option<usize>)
    ensures
        match r {
            Some(i) => i < rows@.len() && block_keys(rows@)[i as int] == slot,
            None => !block_keys(rows@).contains(slot),
        },
{
    let n = rows.len();
    let mut i: usize = 0;
    while i < n
        invariant
            n == rows@.len(),
            i <= n,
            forall|j: int| 0 <= j < i ==> block_keys(rows@)[j] != slot,
        decreases n - i,
    {
        if rows[i].slot == slot {
            return Some(i);
        }
        i += 1;
    }
    None
}

/// Finds the row of the transaction with the signature `signature`.
fn find_transaction(rows: &Vec<TransactionEntry>, signature: &str) -> (r: Option<usize>)
    ensures
        match r {
            Some(i) => i < rows@.len() && transaction_keys(rows@)[i as int] == signature@,
            None => !transaction_keys(rows@).contains(signature@),
        },
{
    let n = rows.len();
    let mut i: usize = 0;
    while i < n
        invariant
            n == rows@.len(),
            i <= n,
            forall|j: int| 0 <= j < i ==> transaction_keys(rows@)[j] != signature@,
        decreases n - i,
    {
        if str_same(rows[i].signature.as_str(), signature) {
            return Some(i);
        }
        i += 1;
    }
    None
}

/// Finds the association of `signature` with `program_id`.
fn find_association(rows: &Vec<AssociationEntry>, signature: &str, program_id: &str) -> (r: Option<
    usize,
>)
    ensures
        match r {
            Some(i) => i < rows@.len() && association_keys(rows@)[i as int] == (
                signature@,
                program_id@,
            ),
            None => !association_keys(rows@).contains((signature@, program_id@)),
        },
{
    let n = rows.len();
    let mut i: usize = 0;
    while i < n
        invariant
            n == rows@.len(),
            i <= n,
            forall|j: int|
                0 <= j < i ==> association_keys(rows@)[j] != (signature@, program_id@),
        decreases n - i,
    {
        if str_same(rows[i].signature.as_str(), signature) && str_same(
            rows[i].program_id.as_str(),
            program_id,
        ) {
            return Some(i);
        }
        i += 1;
    }
    None
}

/// A datastore in memory.
pub struct MemoryStore {
    cursor: u64,
    blocks: Vec<BlockEntry>,
    transactions: Vec<TransactionEntry>,
    associations: Vec<AssociationEntry>,
}

impl View for MemoryStore {
    type V = Store;

    closed spec fn view(&self) -> Store {
        Store {
            cursor: self.cursor,
            blocks: table_of(block_keys(self.blocks@), block_rows(self.blocks@)),
            transactions: table_of(
                transaction_keys(self.transactions@),
                transaction_rows(self.transactions@),
            ),
            associations: table_of(
                association_keys(self.associations@),
                association_rows(self.associations@),
            ),
        }
    }
}

impl MemoryStore {
    /// No table holds two rows under one key.
    #[verifier::type_invariant]
    spec fn keyed(&self) -> bool {
        &&& block_keys(self.blocks@).no_duplicates()
        &&& transaction_keys(self.transactions@).no_duplicates()
        &&& association_keys(self.associations@).no_duplicates()
    }

    /// The datastore after its schema is set up: no rows, the cursor at 0.
    pub fn new() -> (r: MemoryStore)
        ensures
            r@ == Store::empty(),
    {
        let r = MemoryStore {
            cursor: 0,
            blocks: Vec::new(),
            transactions: Vec::new(),
            associations: Vec::new(),
        };
        assert(r@.blocks =~= Map::empty());
        assert(r@.transactions =~= Map::empty());
        assert(r@.associations =~= Map::empty());
        r
    }

    /// The datastore after the write `op`.
    pub fn apply(self, op: &WriteOp) -> (r: MemoryStore)
        ensures
            r@ == self@.apply(op@),
    {
        proof {
            use_type_invariant(&self);
        }
        let MemoryStore { cursor, blocks, transactions, associations } = self;
        let mut cursor = cursor;
        let mut blocks = blocks;
        let mut transactions = transactions;
        let mut associations = associations;
        match op {
            WriteOp::Block { slot, tx_count, err_count } => {
                let ghost keys = block_keys(blocks@);
                let ghost rows = block_rows(blocks@);
                let row = BlockRow { tx_count: *tx_count, err_count: *err_count };
                let entry = BlockEntry { slot: *slot, row };
                match find_block(&blocks, *slot) {
                    Some(i) => {
                        blocks.set(i, entry);
                        proof {
                            lemma_table_update(keys, rows, i as int, row);
                            assert(block_keys(blocks@) =~= keys);
                            assert(block_rows(blocks@) =~= rows.update(i as int, row));
                        }
                    },
                    None => {
                        blocks.push(entry);
                        proof {
                            lemma_table_push(keys, rows, *slot, row);
                            assert(block_keys(blocks@) =~= keys.push(*slot));
                            assert(block_rows(blocks@) =~= rows.push(row));
                        }
                    },
                }
            },
            WriteOp::Transaction { signature, slot, is_error, fee_lamports, compute_units } => {
                let ghost keys = transaction_keys(transactions@);
                let ghost rows = transaction_rows(transactions@);
                let row = TransactionRow {
                    slot: *slot,
                    is_error: *is_error,
                    fee_lamports: *fee_lamports,
                    compute_units: *compute_units,
                };
                let entry = TransactionEntry { signature: signature.clone(), row };
                match find_transaction(&transactions, signature.as_str()) {
                    Some(i) => {
                        transactions.set(i, entry);
                        proof {
                            lemma_table_update(keys, rows, i as int, row);
                            assert(transaction_keys(transactions@) =~= keys);
                            assert(transaction_rows(transactions@) =~= rows.update(i as int, row));
                        }
                    },
                    None => {
                        transactions.push(entry);
                        proof {
                            lemma_table_push(keys, rows, signature@, row);
                            assert(transaction_keys(transactions@) =~= keys.push(signature@));
                            assert(transaction_rows(transactions@) =~= rows.push(row));
                        }
                    },
                }
            },
            WriteOp::Association { signature, slot, program_id } => {
                let ghost keys = association_keys(associations@);
                let ghost rows = association_rows(associations@);
                match find_association(&associations, signature.as_str(), program_id.as_str()) {
                    Some(_) => {},
                    None => {
                        associations.push(
                            AssociationEntry {
                                signature: signature.clone(),
                                program_id: program_id.clone(),
                                slot: *slot,
                            },
                        );
                        proof {
                            lemma_table_push(keys, rows, (signature@, program_id@), *slot);
                            assert(association_keys(associations@) =~= keys.push(
                                (signature@, program_id@),
                            ));
                            assert(association_rows(associations@) =~= rows.push(*slot));
                        }
                    },
                }
            },
            WriteOp::Cursor { slot } => {
                cursor = *slot;
            },
        }
        MemoryStore { cursor, blocks, transactions, associations }
    }

    /// The datastore after the writes `ops`, made in order.
    pub fn apply_all(self, ops: &Vec<WriteOp>) -> (r: MemoryStore)
        ensures
            r@ == self@.apply_all(crate::writes::write_views(ops@)),
    {
        let ghost views = crate::writes::write_views(ops@);
        let ghost start = self@;
        let n = ops.len();
        let mut store = self;
        let mut i: usize = 0;
        while i < n
            invariant
                n == ops@.len(),
                i <= n,
                views == crate::writes::write_views(ops@),
                store@ == start.apply_all(views.take(i as int)),
            decreases n - i,
        {
            store = store.apply(&ops[i]);
            proof {
                assert(views.take(i + 1).drop_last() =~= views.take(i as int));
            }
            i += 1;
        }
        assert(views.take(n as int) =~= views);
        store
    }

    /// The stored cursor.
    pub fn cursor(&self) -> (slot: u64)
        ensures
            slot == self@.cursor,
    {
        self.cursor
    }

    /// The row of the block at `slot`, if there is one.
    pub fn block(&self, slot: u64) -> (r: Option<BlockRow>)
        ensures
            r == if self@.blocks.contains_key(slot) {
                Some(self@.blocks[slot])
            } else {
                None
            },
    {
        proof {
            use_type_invariant(self);
        }
        match find_block(&self.blocks, slot) {
            Some(i) => {
                Some(self.blocks[i].row)
            },
            None => None,
        }
    }

    /// The row of the transaction with the signature `signature`, if there is one.
    pub fn transaction(&self, signature: &str) -> (r: Option<TransactionRow>)
        ensures
            r == if self@.transactions.contains_key(signature@) {
                Some(self@.transactions[signature@])
            } else {
                None
            },
    {
        proof {
            use_type_invariant(self);
        }
        match find_transaction(&self.transactions, signature) {
            Some(i) => {
                Some(self.transactions[i].row)
            },
            None => None,
        }
    }

    /// The slot that the association of `signature` with `program_id` was
    /// first written with, if there is such an association.
    pub fn association(&self, signature: &str, program_id: &str) -> (r: Option<u64>)
        ensures
            r == if self@.associations.contains_key((signature@, program_id@)) {
                Some(self@.associations[(signature@, program_id@)])
            } else {
                None
            },
    {
        proof {
            use_type_invariant(self);
        }
        match find_association(&self.associations, signature, program_id) {
            Some(i) => {
                Some(self.associations[i].slot)
            },
            None => None,
        }
    }

    /// The number of block rows.
    pub fn block_count(&self) -> (n: usize)
        ensures
            self@.blocks.dom().finite(),
            n == self@.blocks.dom().len(),
    {
        proof {
            use_type_invariant(self);
            lemma_table_len(block_keys(self.blocks@), block_rows(self.blocks@));
        }
        self.blocks.len()
    }

    /// The number of transaction rows.
    pub fn transaction_count(&self) -> (n: usize)
        ensures
            self@.transactions.dom().finite(),
            n == self@.transactions.dom().len(),
    {
        proof {
            use_type_invariant(self);
            lemma_table_len(
                transaction_keys(self.transactions@),
                transaction_rows(self.transactions@),
            );
        }
        self.transactions.len()
    }

    /// The number of association rows.
    pub fn association_count(&self) -> (n: usize)
        ensures
            self@.associations.dom().finite(),
            n == self@.associations.dom().len(),
    {
        proof {
            use_type_invariant(self);
            lemma_table_len(
                association_keys(self.associations@),
                association_rows(self.associations@),
            );
        }
        self.associations.len()
    }
}

} // verus!
