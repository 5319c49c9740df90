//! A fetched block as the decoder reads it: transactions in their encodings,
//! with the execution metadata that the node reported.

use vstd::prelude::*;

verus! {

/// One instruction of a decoded message.
#[derive(Debug, Clone, PartialEq, Eq)]
pub enum Instruction {
    /// Names its program by position in the message's account keys.
    Compiled { program_id_index: u8 },
    /// Names its program directly; its data is left undecoded.
    PartiallyDecoded { program_id: String },
    /// Names its program directly; its data is decoded.
    Parsed { program_id: String },
}

/// The message of a structured transaction.
#[derive(Debug, Clone, PartialEq, Eq)]
pub enum Message {
    /// Every instruction names its program by position in `account_keys`.
    Raw { account_keys: Vec<String>, program_id_indexes: Vec<u8> },
    /// Instructions in decoded form, over the keys of the listed accounts.
    Parsed { account_keys: Vec<String>, instructions: Vec<Instruction> },
}

/// A transaction in one of the encodings that a node answers with.
#[derive(Debug, Clone, PartialEq, Eq)]
pub enum EncodedTransaction {
    /// A structured message with its list of signatures.
    Json { signatures: Vec<String>, message: Message },
    /// The account list with the transaction's signatures.
    Accounts { signatures: Vec<String> },
    /// Any encoding that is not decoded here.
    Binary,
}

/// What the node reported of a transaction's execution.
#[derive(Debug, Clone, Copy, PartialEq, Eq)]
pub struct TransactionMeta {
    pub failed: bool,
    pub fee: Option<u64>,
    pub compute_units: Option<u64>,
}

/// A transaction of a fetched block.
#[derive(Debug, Clone, PartialEq, Eq)]
pub struct RawTransaction {
    pub transaction: EncodedTransaction,
    pub meta: Option<TransactionMeta>,
}

/// A fetched block.
#[derive(Debug, Clone, PartialEq, Eq)]
pub struct RawBlock {
    pub transactions: Vec<RawTransaction>,
}

/// The key at position `i`, if there is one.
pub open spec fn key_at(keys: Seq<String>, i: int) -> Option<Seq<char>> {
    if 0 <= i < keys.len() {
        Some(keys[i]@)
    } else {
        None
    }
}

/// A count as the datastore holds it: absent when it does not fit.
pub open spec fn narrowed(v: Option<u64>) -> Option<i64> {
    match v {
        Some(x) => if x <= i64::MAX {
            Some(x as i64)
        } else {
            None
        },
        None => None,
    }
}

impl Instruction {
    /// The program that the instruction names, resolved over `keys`.
    pub open spec fn program(self, keys: Seq<String>) -> Option<Seq<char>> {
        match self {
            Instruction::Compiled { program_id_index } => key_at(keys, program_id_index as int),
            Instruction::PartiallyDecoded { program_id } => Some(program_id@),
            Instruction::Parsed { program_id } => Some(program_id@),
        }
    }
}

impl Message {
    /// The number of instructions.
    pub open spec fn instruction_count(self) -> nat {
        match self {
            Message::Raw { program_id_indexes, .. } => program_id_indexes@.len(),
            Message::Parsed { instructions, .. } => instructions@.len(),
        }
    }

    /// The program that instruction `k` names, if it resolves.
    pub open spec fn program_at(self, k: int) -> Option<Seq<char>> {
        match self {
            Message::Raw { account_keys, program_id_indexes } => key_at(
                account_keys@,
                program_id_indexes@[k] as int,
            ),
            Message::Parsed { account_keys, instructions } => instructions@[k].program(
                account_keys@,
            ),
        }
    }

    /// One of the first `n` instructions names the program `id`.
    pub open spec fn references_before(self, id: Seq<char>, n: int) -> bool {
        exists|k: int| 0 <= k < n && k < self.instruction_count() && self.program_at(k) == Some(id)
    }

    /// Some instruction names the program `id`.
    pub open spec fn references(self, id: Seq<char>) -> bool {
        self.references_before(id, self.instruction_count() as int)
    }
}

impl RawTransaction {
    /// The first signature of the transaction, where its encoding carries any.
    pub open spec fn first_signature(self) -> Option<Seq<char>> {
        match self.transaction {
            EncodedTransaction::Json { signatures, .. } => key_at(signatures@, 0),
            EncodedTransaction::Accounts { signatures } => key_at(signatures@, 0),
            EncodedTransaction::Binary => None,
        }
    }

    /// The programs that the transaction's instructions name.
    pub open spec fn referenced_programs(self) -> Set<Seq<char>> {
        match self.transaction {
            EncodedTransaction::Json { message, .. } => Set::new(
                |id: Seq<char>| message.references(id),
            ),
            _ => Set::empty(),
        }
    }

    /// The execution metadata carries an error.
    pub open spec fn failed(self) -> bool {
        self.meta matches Some(m) && m.failed
    }

    /// The fee as the datastore holds it.
    pub open spec fn fee_lamports(self) -> Option<i64> {
        match self.meta {
            Some(m) => narrowed(m.fee),
            None => None,
        }
    }

    /// The consumed compute units as the datastore holds them.
    pub open spec fn compute_units(self) -> Option<i64> {
        match self.meta {
            Some(m) => narrowed(m.compute_units),
            None => None,
        }
    }
}

/// The number of transactions whose execution failed.
pub open spec fn count_failed(txs: Seq<RawTransaction>) -> nat {
    txs.filter(|t: RawTransaction| t.failed()).len()
}

} // verus!
