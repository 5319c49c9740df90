//! The block decoder: from a fetched block to its summary and one summary
//! per transaction.

use crate::block::{
    count_failed, key_at, narrowed, EncodedTransaction, Instruction, Message, RawBlock,
    RawTransaction,
};
use crate::idset::{lemma_sorted_seq_exists, sorted_seq_of, strictly_sorted, texts, IdSet};
use crate::text::{decimal, is_digit, lemma_decimal_writes_its_number, push_decimal};
use vstd::prelude::*;
use vstd::string::*;

verus! {

/// What is kept of one transaction.
#[derive(Debug, Clone, PartialEq, Eq)]
pub struct TxSummary {
    pub signature: String,
    pub is_error: bool,
    pub fee_lamports: Option<i64>,
    pub compute_units: Option<i64>,
    pub program_ids: Vec<String>,
}

/// A transaction summary as a mathematical value.
pub struct TxSummaryView {
    pub signature: Seq<char>,
    pub is_error: bool,
    pub fee_lamports: Option<i64>,
    pub compute_units: Option<i64>,
    pub program_ids: Seq<Seq<char>>,
}

impl View for TxSummary {
    type V = TxSummaryView;

    open spec fn view(&self) -> TxSummaryView {
        TxSummaryView {
            signature: self.signature@,
            is_error: self.is_error,
            fee_lamports: self.fee_lamports,
            compute_units: self.compute_units,
            program_ids: texts(self.program_ids@),
        }
    }
}

/// What is kept of one block.
#[derive(Debug, Clone, Copy, PartialEq, Eq, Structural)]
pub struct BlockSummary {
    pub slot: u64,
    pub tx_count: u64,
    pub err_count: u64,
}

/// A decoded block: its summary and the summaries of its transactions, in
/// the block's order.
#[derive(Debug, Clone, PartialEq, Eq)]
pub struct DecodedBlock {
    pub summary: BlockSummary,
    pub transactions: Vec<TxSummary>,
}

impl DecodedBlock {
    /// The transaction summaries as mathematical values.
    pub open spec fn summaries(self) -> Seq<TxSummaryView> {
        Seq::new(self.transactions@.len(), |i: int| self.transactions@[i]@)
    }
}

/// The key that stands for the signature of the transaction at position
/// `index` of the block at `slot`, where none can be read.
pub open spec fn placeholder_text(slot: nat, index: nat) -> Seq<char> {
    "missing-signature-"@ + decimal(slot) + "-"@ + decimal(index)
}

/// The summary of the transaction at position `index` of the block at `slot`.
pub open spec fn summary_of(tx: RawTransaction, slot: u64, index: nat) -> TxSummaryView {
    TxSummaryView {
        signature: match tx.first_signature() {
            Some(s) => s,
            None => placeholder_text(slot as nat, index),
        },
        is_error: tx.failed(),
        fee_lamports: tx.fee_lamports(),
        compute_units: tx.compute_units(),
        program_ids: sorted_seq_of(tx.referenced_programs()),
    }
}

/// The summaries of a block's transactions.
pub open spec fn summaries_of(block: RawBlock, slot: u64) -> Seq<TxSummaryView> {
    Seq::new(
        block.transactions@.len(),
        |i: int| summary_of(block.transactions@[i], slot, i as nat),
    )
}

/// The summary of a block.
pub open spec fn block_summary_of(block: RawBlock, slot: u64) -> BlockSummary {
    BlockSummary {
        slot,
        tx_count: block.transactions@.len() as u64,
        err_count: count_failed(block.transactions@) as u64,
    }
}

/// Different positions have different placeholders: within a block, and
/// from block to block, each transaction without a signature has a key of
/// its own.
pub proof fn lemma_placeholders_differ(slot1: nat, index1: nat, slot2: nat, index2: nat)
    requires
        placeholder_text(slot1, index1) == placeholder_text(slot2, index2),
    ensures
        slot1 == slot2,
        index1 == index2,
{
    reveal_strlit("-");
    let head = "missing-signature-"@;
    let s1 = decimal(slot1);
    let s2 = decimal(slot2);
    let i1 = decimal(index1);
    let i2 = decimal(index2);
    lemma_decimal_writes_its_number(slot1);
    lemma_decimal_writes_its_number(slot2);
    lemma_decimal_writes_its_number(index1);
    lemma_decimal_writes_its_number(index2);
    let whole = placeholder_text(slot1, index1);
    let tail = whole.skip(head.len() as int);
    assert(!is_digit('-'));
    if s1.len() < s2.len() {
        assert(tail[s1.len() as int] == s2[s1.len() as int]);
    }
    if s2.len() < s1.len() {
        assert(tail[s2.len() as int] == s1[s2.len() as int]);
    }
    assert(s1 =~= tail.take(s1.len() as int));
    assert(s2 =~= tail.take(s2.len() as int));
    assert(i1 =~= tail.skip(s1.len() as int + 1));
    assert(i2 =~= tail.skip(s2.len() as int + 1));
}

/// Builds the key that stands for a signature that cannot be read.
pub fn placeholder_signature(slot: u64, index: u64) -> (r: String)
    ensures
        r@ == placeholder_text(slot as nat, index as nat),
{
    let mut r = "missing-signature-".to_owned();
    push_decimal(&mut r, slot);
    r.append("-");
    push_decimal(&mut r, index);
    r
}

/// Reads the transaction's first signature.
pub fn extract_signature(tx: &RawTransaction) -> (r: Option<String>)
    ensures
        match r {
            Some(s) => tx.first_signature() == Some(s@),
            None => tx.first_signature() is None,
        },
{
    match &tx.transaction {
        EncodedTransaction::Json { signatures, .. } => first_of(signatures),
        EncodedTransaction::Accounts { signatures } => first_of(signatures),
        EncodedTransaction::Binary => None,
    }
}

/// The first entry of a list, if it has one.
fn first_of(list: &Vec<String>) -> (r: Option<String>)
    ensures
        match r {
            Some(s) => key_at(list@, 0) == Some(s@),
            None => key_at(list@, 0) is None,
        },
{
    if list.len() > 0 {
        Some(list[0].clone())
    } else {
        None
    }
}

/// Resolves the program of one instruction over the account keys.
fn resolve(ix: &Instruction, keys: &Vec<String>) -> (r: Option<String>)
    ensures
        match r {
            Some(s) => ix.program(keys@) == Some(s@),
            None => ix.program(keys@) is None,
        },
{
    match ix {
        Instruction::Compiled { program_id_index } => key_of(keys, *program_id_index),
        Instruction::PartiallyDecoded { program_id } => Some(program_id.clone()),
        Instruction::Parsed { program_id } => Some(program_id.clone()),
    }
}

/// The key at a position, if the position is within the list.
fn key_of(keys: &Vec<String>, index: u8) -> (r: Option<String>)
    ensures
        match r {
            Some(s) => key_at(keys@, index as int) == Some(s@),
            None => key_at(keys@, index as int) is None,
        },
{
    let i = index as usize;
    if i < keys.len() {
        Some(keys[i].clone())
    } else {
        None
    }
}

/// Collects the programs that the instructions of a message name.
fn message_programs(message: &Message) -> (set: IdSet)
    ensures
        forall|id: Seq<char>| set@.contains(id) <==> message.references(id),
{
    let mut set = IdSet::new();
    match message {
        Message::Raw { account_keys, program_id_indexes } => {
            let n = program_id_indexes.len();
            let mut k: usize = 0;
            while k < n
                invariant
                    *message == (Message::Raw {
                        account_keys: *account_keys,
                        program_id_indexes: *program_id_indexes,
                    }),
                    n == program_id_indexes@.len(),
                    k <= n,
                    forall|id: Seq<char>|
                        set@.contains(id) <==> message.references_before(id, k as int),
                decreases n - k,
            {
                let found = key_of(account_keys, program_id_indexes[k]);
                proof {
                    lemma_references_step(*message, k as int);
                }
                match found {
                    Some(id) => {
                        set = set.insert(id);
                    },
                    None => {},
                }
                k += 1;
            }
        },
        Message::Parsed { account_keys, instructions } => {
            let n = instructions.len();
            let mut k: usize = 0;
            while k < n
                invariant
                    *message == (Message::Parsed {
                        account_keys: *account_keys,
                        instructions: *instructions,
                    }),
                    n == instructions@.len(),
                    k <= n,
                    forall|id: Seq<char>|
                        set@.contains(id) <==> message.references_before(id, k as int),
                decreases n - k,
            {
                let found = resolve(&instructions[k], account_keys);
                proof {
                    lemma_references_step(*message, k as int);
                }
                match found {
                    Some(id) => {
                        set = set.insert(id);
                    },
                    None => {},
                }
                k += 1;
            }
        },
    }
    set
}

/// A program is named among the first `k + 1` instructions when it is named
/// among the first `k` or by instruction `k`.
proof fn lemma_references_step(message: Message, k: int)
    requires
        0 <= k < message.instruction_count(),
    ensures
        forall|id: Seq<char>|
            message.references_before(id, k + 1) <==> (message.references_before(id, k)
                || message.program_at(k) == Some(id)),
{
}

/// The first `n` instructions name finitely many programs.
proof fn lemma_references_finite(message: Message, n: int)
    requires
        0 <= n <= message.instruction_count(),
    ensures
        Set::new(|id: Seq<char>| message.references_before(id, n)).finite(),
    decreases n,
{
    let now = Set::new(|id: Seq<char>| message.references_before(id, n));
    if n == 0 {
        assert(now =~= Set::<Seq<char>>::empty());
    } else {
        let before = Set::new(|id: Seq<char>| message.references_before(id, n - 1));
        lemma_references_finite(message, n - 1);
        match message.program_at(n - 1) {
            Some(p) => {
                assert(now =~= before.insert(p));
            },
            None => {
                assert(now =~= before);
            },
        }
    }
}

/// The programs of a summary are the programs that the transaction
/// references, each once, in increasing order.
pub proof fn lemma_summary_programs(tx: RawTransaction, slot: u64, index: nat)
    ensures
        tx.referenced_programs().finite(),
        strictly_sorted(summary_of(tx, slot, index).program_ids),
        summary_of(tx, slot, index).program_ids.to_set() == tx.referenced_programs(),
{
    match tx.transaction {
        EncodedTransaction::Json { message, .. } => {
            let n = message.instruction_count() as int;
            lemma_references_finite(message, n);
            assert(tx.referenced_programs() =~= Set::new(
                |id: Seq<char>| message.references_before(id, n),
            ));
        },
        _ => {},
    }
    lemma_sorted_seq_exists(tx.referenced_programs());
}

/// Collects the programs that the transaction's instructions name, each
/// once, in increasing order.
pub fn extract_program_ids(tx: &RawTransaction) -> (ids: Vec<String>)
    ensures
        texts(ids@) == sorted_seq_of(tx.referenced_programs()),
        strictly_sorted(texts(ids@)),
        texts(ids@).to_set() == tx.referenced_programs(),
{
    let set = match &tx.transaction {
        EncodedTransaction::Json { message, .. } => message_programs(message),
        _ => IdSet::new(),
    };
    assert(set@ =~= tx.referenced_programs());
    set.into_vec()
}

/// Narrows a count to what the datastore holds.
fn narrow(v: Option<u64>) -> (r: Option<i64>)
    ensures
        r == narrowed(v),
{
    match v {
        Some(x) => if x <= 0x7fff_ffff_ffff_ffff {
            Some(x as i64)
        } else {
            None
        },
        None => None,
    }
}

/// Summarizes the transaction at position `index` of the block at `slot`.
pub fn summarize_transaction(tx: &RawTransaction, slot: u64, index: usize) -> (r: TxSummary)
    ensures
        r@ == summary_of(*tx, slot, index as nat),
{
    let signature = match extract_signature(tx) {
        Some(s) => s,
        None => placeholder_signature(slot, index as u64),
    };
    let (is_error, fee_lamports, compute_units) = match &tx.meta {
        Some(m) => (m.failed, narrow(m.fee), narrow(m.compute_units)),
        None => (false, None, None),
    };
    TxSummary {
        signature,
        is_error,
        fee_lamports,
        compute_units,
        program_ids: extract_program_ids(tx),
    }
}

/// Decodes a fetched block.
pub fn decode_block(block: &RawBlock, slot: u64) -> (d: DecodedBlock)
    ensures
        d.summary == block_summary_of(*block, slot),
        d.summaries() == summaries_of(*block, slot),
{
    let n = block.transactions.len();
    let mut transactions: Vec<TxSummary> = Vec::new();
    let mut err_count: u64 = 0;
    let mut i: usize = 0;
    while i < n
        invariant
            n == block.transactions@.len(),
            i <= n,
            err_count == count_failed(block.transactions@.take(i as int)),
            err_count <= i,
            transactions@.len() == i,
            forall|j: int|
                0 <= j < i ==> (#[trigger] transactions@[j])@ == summary_of(
                    block.transactions@[j],
                    slot,
                    j as nat,
                ),
        decreases n - i,
    {
        let tx = &block.transactions[i];
        let summary = summarize_transaction(tx, slot, i);
        proof {
            let txs = block.transactions@;
            reveal(Seq::filter);
            assert(txs.take(i + 1).drop_last() =~= txs.take(i as int));
        }
        if summary.is_error {
            err_count += 1;
        }
        transactions.push(summary);
        i += 1;
    }
    assert(block.transactions@.take(n as int) =~= block.transactions@);
    DecodedBlock { summary: BlockSummary { slot, tx_count: n as u64, err_count }, transactions }
}

} // verus!
