//! The writes that the datastore is asked for, one slot at a time.

use crate::decode::{BlockSummary, DecodedBlock, TxSummary, TxSummaryView};
use crate::idset::{strictly_sorted, texts};
use crate::targets::{passes, TargetProgramSet};
use crate::text::text_less;
use vstd::prelude::*;

verus! {

/// One keyed write. Each overwrites or inserts; none deletes.
#[derive(Debug, Clone, PartialEq, Eq)]
pub enum WriteOp {
    /// The summary of the block at `slot`, keyed by the slot.
    Block { slot: u64, tx_count: u64, err_count: u64 },
    /// The summary of a transaction, keyed by its signature.
    Transaction {
        signature: String,
        slot: u64,
        is_error: bool,
        fee_lamports: Option<i64>,
        compute_units: Option<i64>,
    },
    /// A transaction references a program, keyed by the two.
    Association { signature: String, slot: u64, program_id: String },
    /// The cursor moves to `slot`.
    Cursor { slot: u64 },
}

/// A write as a mathematical value.
pub enum WriteOpView {
    Block { slot: u64, tx_count: u64, err_count: u64 },
    Transaction {
        signature: Seq<char>,
        slot: u64,
        is_error: bool,
        fee_lamports: Option<i64>,
        compute_units: Option<i64>,
    },
    Association { signature: Seq<char>, slot: u64, program_id: Seq<char> },
    Cursor { slot: u64 },
}

impl View for WriteOp {
    type V = WriteOpView;

    open spec fn view(&self) -> WriteOpView {
        match *self {
            WriteOp::Block { slot, tx_count, err_count } => WriteOpView::Block {
                slot,
                tx_count,
                err_count,
            },
            WriteOp::Transaction { signature, slot, is_error, fee_lamports, compute_units } => {
                WriteOpView::Transaction {
                    signature: signature@,
                    slot,
                    is_error,
                    fee_lamports,
                    compute_units,
                }
            },
            WriteOp::Association { signature, slot, program_id } => WriteOpView::Association {
                signature: signature@,
                slot,
                program_id: program_id@,
            },
            WriteOp::Cursor { slot } => WriteOpView::Cursor { slot },
        }
    }
}

/// What a list of writes says, write by write.
pub open spec fn write_views(ops: Seq<WriteOp>) -> Seq<WriteOpView> {
    Seq::new(ops.len(), |i: int| ops[i]@)
}

/// The associations of one transaction that pass the filter, in the order
/// of its programs.
pub open spec fn association_writes(
    signature: Seq<char>,
    slot: u64,
    programs: Seq<Seq<char>>,
    targets: Set<Seq<char>>,
) -> Seq<WriteOpView> {
    programs.filter(|id: Seq<char>| passes(targets, id)).map_values(
        |id: Seq<char>| WriteOpView::Association { signature, slot, program_id: id },
    )
}

/// The writes of one transaction: its summary, whatever the filter says, and
/// then its associations that pass.
pub open spec fn transaction_writes(tx: TxSummaryView, slot: u64, targets: Set<Seq<char>>) -> Seq<
    WriteOpView,
> {
    seq![
        WriteOpView::Transaction {
            signature: tx.signature,
            slot,
            is_error: tx.is_error,
            fee_lamports: tx.fee_lamports,
            compute_units: tx.compute_units,
        },
    ] + association_writes(tx.signature, slot, tx.program_ids, targets)
}

/// The writes of the transactions of a block, in the block's order.
pub open spec fn transactions_writes(
    txs: Seq<TxSummaryView>,
    slot: u64,
    targets: Set<Seq<char>>,
) -> Seq<WriteOpView> {
    txs.flat_map(|t: TxSummaryView| transaction_writes(t, slot, targets))
}

/// The writes of a block that was fetched: the block's summary, the writes
/// of each transaction in the block's order, and last the cursor.
pub open spec fn block_writes_of(
    summary: BlockSummary,
    txs: Seq<TxSummaryView>,
    targets: Set<Seq<char>>,
) -> Seq<WriteOpView> {
    seq![
        WriteOpView::Block {
            slot: summary.slot,
            tx_count: summary.tx_count,
            err_count: summary.err_count,
        },
    ] + transactions_writes(txs, summary.slot, targets) + seq![
        WriteOpView::Cursor { slot: summary.slot },
    ]
}

/// The writes of a slot whose block stayed unavailable: the cursor alone.
pub open spec fn skip_writes_of(slot: u64) -> Seq<WriteOpView> {
    seq![WriteOpView::Cursor { slot }]
}

/// One more program adds its association where it passes the filter, and
/// nothing where it does not.
proof fn lemma_association_writes_push(
    signature: Seq<char>,
    slot: u64,
    programs: Seq<Seq<char>>,
    id: Seq<char>,
    targets: Set<Seq<char>>,
)
    ensures
        association_writes(signature, slot, programs.push(id), targets) == if passes(targets, id) {
            association_writes(signature, slot, programs, targets).push(
                WriteOpView::Association { signature, slot, program_id: id },
            )
        } else {
            association_writes(signature, slot, programs, targets)
        },
{
    reveal(Seq::filter);
    assert(programs.push(id).drop_last() =~= programs);
}

/// One more transaction adds its writes at the end.
proof fn lemma_transactions_writes_push(
    txs: Seq<TxSummaryView>,
    tx: TxSummaryView,
    slot: u64,
    targets: Set<Seq<char>>,
)
    ensures
        transactions_writes(txs.push(tx), slot, targets) == transactions_writes(txs, slot, targets)
            + transaction_writes(tx, slot, targets),
{
    let each = |t: TxSummaryView| transaction_writes(t, slot, targets);
    assert(txs.push(tx).map_values(each) =~= txs.map_values(each).push(each(tx)));
    txs.map_values(each).lemma_flatten_push(each(tx));
}

/// The summary of a transaction is written first, whatever the filter says.
pub proof fn lemma_summary_is_written(tx: TxSummaryView, slot: u64, targets: Set<Seq<char>>)
    ensures
        transaction_writes(tx, slot, targets).len() == 1 + association_writes(
            tx.signature,
            slot,
            tx.program_ids,
            targets,
        ).len(),
        transaction_writes(tx, slot, targets)[0] == (WriteOpView::Transaction {
            signature: tx.signature,
            slot,
            is_error: tx.is_error,
            fee_lamports: tx.fee_lamports,
            compute_units: tx.compute_units,
        }),
        forall|i: int|
            0 <= i < association_writes(tx.signature, slot, tx.program_ids, targets).len()
                ==> transaction_writes(tx, slot, targets)[i + 1] == #[trigger] association_writes(
                tx.signature,
                slot,
                tx.program_ids,
                targets,
            )[i],
{
}

/// Every write among the associations is the association of the given
/// signature and slot with one of the programs.
pub proof fn lemma_associations_are_of_programs(
    signature: Seq<char>,
    slot: u64,
    programs: Seq<Seq<char>>,
    targets: Set<Seq<char>>,
    i: int,
)
    requires
        0 <= i < association_writes(signature, slot, programs, targets).len(),
    ensures
        association_writes(signature, slot, programs, targets)[i] matches WriteOpView::Association {
            signature: g,
            slot: s,
            program_id,
        } && g == signature && s == slot && programs.contains(program_id) && passes(
            targets,
            program_id,
        ),
{
    let keep = |id: Seq<char>| passes(targets, id);
    let kept = programs.filter(keep);
    programs.lemma_filter_contains_rev(keep, kept[i]);
}

/// The association with a program is written exactly when the transaction
/// references the program and the program passes the filter.
pub proof fn lemma_associations_follow_filter(
    signature: Seq<char>,
    slot: u64,
    programs: Seq<Seq<char>>,
    targets: Set<Seq<char>>,
    id: Seq<char>,
)
    ensures
        association_writes(signature, slot, programs, targets).contains(
            WriteOpView::Association { signature, slot, program_id: id },
        ) <==> programs.contains(id) && passes(targets, id),
{
    let keep = |id: Seq<char>| passes(targets, id);
    let kept = programs.filter(keep);
    let writes = association_writes(signature, slot, programs, targets);
    let wanted = WriteOpView::Association { signature, slot, program_id: id };
    if writes.contains(wanted) {
        let i = choose|i: int| 0 <= i < writes.len() && writes[i] == wanted;
        lemma_associations_are_of_programs(signature, slot, programs, targets, i);
    }
    if programs.contains(id) && passes(targets, id) {
        let j = choose|j: int| 0 <= j < programs.len() && programs[j] == id;
        programs.lemma_filter_contains(keep, j);
        let i = choose|i: int| 0 <= i < kept.len() && kept[i] == id;
        assert(writes[i] == wanted);
    }
}

/// With no target configured every program of the transaction gets its
/// association, in the order of the programs.
pub proof fn lemma_no_target_keeps_all(signature: Seq<char>, slot: u64, programs: Seq<Seq<char>>)
    ensures
        association_writes(signature, slot, programs, Set::empty()).len() == programs.len(),
        forall|i: int|
            0 <= i < programs.len() ==> #[trigger] association_writes(
                signature,
                slot,
                programs,
                Set::empty(),
            )[i] == (WriteOpView::Association { signature, slot, program_id: programs[i] }),
    decreases programs.len(),
{
    if programs.len() > 0 {
        lemma_no_target_keeps_all(signature, slot, programs.drop_last());
        lemma_association_writes_push(
            signature,
            slot,
            programs.drop_last(),
            programs.last(),
            Set::empty(),
        );
        assert(programs =~= programs.drop_last().push(programs.last()));
    }
}

/// The program of an association write.
pub open spec fn program_of(op: WriteOpView) -> Seq<char> {
    match op {
        WriteOpView::Association { program_id, .. } => program_id,
        _ => Seq::empty(),
    }
}

/// Where the programs come in increasing order, each once, so do their
/// associations: no program is written twice.
pub proof fn lemma_associations_keep_order(
    signature: Seq<char>,
    slot: u64,
    programs: Seq<Seq<char>>,
    targets: Set<Seq<char>>,
)
    requires
        strictly_sorted(programs),
    ensures
        forall|i: int, j: int|
            0 <= i < j < association_writes(signature, slot, programs, targets).len()
                ==> text_less(
                program_of(#[trigger] association_writes(signature, slot, programs, targets)[i]),
                program_of(#[trigger] association_writes(signature, slot, programs, targets)[j]),
            ),
    decreases programs.len(),
{
    let writes = association_writes(signature, slot, programs, targets);
    if programs.len() > 0 {
        let init = programs.drop_last();
        let last = programs.last();
        let earlier = association_writes(signature, slot, init, targets);
        assert(programs =~= init.push(last));
        lemma_associations_keep_order(signature, slot, init, targets);
        lemma_association_writes_push(signature, slot, init, last, targets);
        assert forall|i: int, j: int| 0 <= i < j < writes.len() implies text_less(
            program_of(writes[i]),
            program_of(writes[j]),
        ) by {
            if j == earlier.len() {
                lemma_associations_are_of_programs(signature, slot, init, targets, i);
            }
        }
    }
}

/// The writes move the cursor once, with their last write, to `slot`.
pub open spec fn advances_last(writes: Seq<WriteOpView>, slot: u64) -> bool {
    &&& writes.len() > 0
    &&& writes.last() == WriteOpView::Cursor { slot }
    &&& forall|i: int| 0 <= i < writes.len() - 1 ==> !(#[trigger] writes[i] is Cursor)
}

/// The writes of transactions are summaries and associations: none writes
/// a block or moves the cursor.
pub proof fn lemma_transactions_writes_are_rows(
    txs: Seq<TxSummaryView>,
    slot: u64,
    targets: Set<Seq<char>>,
)
    ensures
        forall|i: int|
            0 <= i < transactions_writes(txs, slot, targets).len() ==> {
                ||| #[trigger] transactions_writes(txs, slot, targets)[i] is Transaction
                ||| transactions_writes(txs, slot, targets)[i] is Association
            },
    decreases txs.len(),
{
    if txs.len() > 0 {
        let init = txs.drop_last();
        lemma_transactions_writes_are_rows(init, slot, targets);
        lemma_transactions_writes_push(init, txs.last(), slot, targets);
        assert(txs =~= init.push(txs.last()));
    }
}

/// The summary of every transaction of the block is among the writes of
/// the block's transactions.
pub proof fn lemma_every_summary_is_written(
    txs: Seq<TxSummaryView>,
    slot: u64,
    targets: Set<Seq<char>>,
    i: int,
)
    requires
        0 <= i < txs.len(),
    ensures
        transactions_writes(txs, slot, targets).contains(
            WriteOpView::Transaction {
                signature: txs[i].signature,
                slot,
                is_error: txs[i].is_error,
                fee_lamports: txs[i].fee_lamports,
                compute_units: txs[i].compute_units,
            },
        ),
    decreases txs.len(),
{
    let init = txs.drop_last();
    let all = transactions_writes(txs, slot, targets);
    let earlier = transactions_writes(init, slot, targets);
    let wanted = WriteOpView::Transaction {
        signature: txs[i].signature,
        slot,
        is_error: txs[i].is_error,
        fee_lamports: txs[i].fee_lamports,
        compute_units: txs[i].compute_units,
    };
    lemma_transactions_writes_push(init, txs.last(), slot, targets);
    assert(txs =~= init.push(txs.last()));
    if i < txs.len() - 1 {
        lemma_every_summary_is_written(init, slot, targets, i);
        let j = choose|j: int| 0 <= j < earlier.len() && earlier[j] == wanted;
        assert(all[j] == wanted);
    } else {
        assert(all[earlier.len() as int] == wanted);
    }
}

/// The writes of a fetched block move the cursor once, at their end, to the
/// block's slot: whatever is written of the block is written before.
pub proof fn lemma_block_writes_advance_last(
    summary: BlockSummary,
    txs: Seq<TxSummaryView>,
    targets: Set<Seq<char>>,
)
    ensures
        advances_last(block_writes_of(summary, txs, targets), summary.slot),
{
    lemma_transactions_writes_are_rows(txs, summary.slot, targets);
}

/// Appends the writes of one transaction.
fn push_transaction_writes(
    out: &mut Vec<WriteOp>,
    tx: &TxSummary,
    slot: u64,
    targets: &TargetProgramSet,
)
    ensures
        write_views(final(out)@) == write_views(old(out)@) + transaction_writes(
            tx@,
            slot,
            targets@,
        ),
{
    let ghost programs = texts(tx.program_ids@);
    out.push(
        WriteOp::Transaction {
            signature: tx.signature.clone(),
            slot,
            is_error: tx.is_error,
            fee_lamports: tx.fee_lamports,
            compute_units: tx.compute_units,
        },
    );
    let ghost head = write_views(out@);
    let n = tx.program_ids.len();
    let mut k: usize = 0;
    while k < n
        invariant
            n == tx.program_ids@.len(),
            k <= n,
            programs == texts(tx.program_ids@),
            write_views(out@) == head + association_writes(
                tx.signature@,
                slot,
                programs.take(k as int),
                targets@,
            ),
        decreases n - k,
    {
        let ghost views = write_views(out@);
        proof {
            lemma_association_writes_push(
                tx.signature@,
                slot,
                programs.take(k as int),
                programs[k as int],
                targets@,
            );
            assert(programs.take(k + 1) =~= programs.take(k as int).push(programs[k as int]));
        }
        if targets.tracks(tx.program_ids[k].as_str()) {
            out.push(
                WriteOp::Association {
                    signature: tx.signature.clone(),
                    slot,
                    program_id: tx.program_ids[k].clone(),
                },
            );
            assert(write_views(out@) =~= views.push(
                WriteOpView::Association {
                    signature: tx.signature@,
                    slot,
                    program_id: programs[k as int],
                },
            ));
        }
        k += 1;
    }
    assert(programs.take(n as int) =~= programs);
}

/// Lists the writes of a decoded block, in the order in which they are made.
pub fn block_writes(decoded: &DecodedBlock, targets: &TargetProgramSet) -> (writes: Vec<WriteOp>)
    ensures
        write_views(writes@) == block_writes_of(decoded.summary, decoded.summaries(), targets@),
{
    let slot = decoded.summary.slot;
    let ghost txs = decoded.summaries();
    let mut writes: Vec<WriteOp> = Vec::new();
    writes.push(
        WriteOp::Block {
            slot,
            tx_count: decoded.summary.tx_count,
            err_count: decoded.summary.err_count,
        },
    );
    let ghost head = write_views(writes@);
    let n = decoded.transactions.len();
    let mut i: usize = 0;
    while i < n
        invariant
            n == decoded.transactions@.len(),
            i <= n,
            slot == decoded.summary.slot,
            txs == decoded.summaries(),
            write_views(writes@) == head + transactions_writes(txs.take(i as int), slot, targets@),
        decreases n - i,
    {
        push_transaction_writes(&mut writes, &decoded.transactions[i], slot, targets);
        proof {
            lemma_transactions_writes_push(txs.take(i as int), txs[i as int], slot, targets@);
            assert(txs.take(i + 1) =~= txs.take(i as int).push(txs[i as int]));
        }
        i += 1;
    }
    assert(txs.take(n as int) =~= txs);
    writes.push(WriteOp::Cursor { slot });
    assert(head =~= seq![
        WriteOpView::Block {
            slot,
            tx_count: decoded.summary.tx_count,
            err_count: decoded.summary.err_count,
        },
    ]);
    writes
}

/// Lists the writes of a slot whose block stayed unavailable.
pub fn skip_writes(slot: u64) -> (writes: Vec<WriteOp>)
    ensures
        write_views(writes@) == skip_writes_of(slot),
{
    let mut writes: Vec<WriteOp> = Vec::new();
    writes.push(WriteOp::Cursor { slot });
    writes
}

} // verus!
