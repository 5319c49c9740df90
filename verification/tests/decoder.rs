use slot_observer::block::{
    EncodedTransaction, Instruction, Message, RawBlock, RawTransaction, TransactionMeta,
};
use slot_observer::decode::{
    decode_block, extract_program_ids, extract_signature, placeholder_signature,
    summarize_transaction, BlockSummary, TxSummary,
};
use slot_observer::idset::IdSet;
use std::collections::BTreeSet;

fn strings(items: &[&str]) -> Vec<String> {
    items.iter().map(|s| s.to_string()).collect()
}

fn parsed(ids: &[&str]) -> RawTransaction {
    RawTransaction {
        transaction: EncodedTransaction::Json {
            signatures: strings(&["sig"]),
            message: Message::Parsed {
                account_keys: Vec::new(),
                instructions: ids
                    .iter()
                    .map(|id| Instruction::Parsed { program_id: id.to_string() })
                    .collect(),
            },
        },
        meta: None,
    }
}

fn raw(keys: &[&str], indexes: &[u8]) -> RawTransaction {
    RawTransaction {
        transaction: EncodedTransaction::Json {
            signatures: strings(&["sig"]),
            message: Message::Raw {
                account_keys: strings(keys),
                program_id_indexes: indexes.to_vec(),
            },
        },
        meta: None,
    }
}

fn binary(meta: Option<TransactionMeta>) -> RawTransaction {
    RawTransaction { transaction: EncodedTransaction::Binary, meta }
}

#[test]
fn placeholder_names_slot_and_index() {
    assert_eq!(placeholder_signature(42, 3), "missing-signature-42-3");
    assert_eq!(placeholder_signature(0, 0), "missing-signature-0-0");
    assert_eq!(
        placeholder_signature(u64::MAX, 10),
        "missing-signature-18446744073709551615-10"
    );
}

#[test]
fn undecodable_transaction_gets_the_placeholder() {
    let summary = summarize_transaction(&binary(None), 42, 3);
    assert_eq!(summary.signature, "missing-signature-42-3");
    assert_eq!(summary.program_ids, Vec::<String>::new());
    assert!(!summary.is_error);
    assert_eq!(summary.fee_lamports, None);
    assert_eq!(summary.compute_units, None);
}

#[test]
fn empty_signature_list_gets_the_placeholder() {
    let tx = RawTransaction {
        transaction: EncodedTransaction::Accounts { signatures: Vec::new() },
        meta: None,
    };
    assert_eq!(extract_signature(&tx), None);
    assert_eq!(summarize_transaction(&tx, 7, 0).signature, "missing-signature-7-0");
}

#[test]
fn first_signature_is_taken() {
    let json = RawTransaction {
        transaction: EncodedTransaction::Json {
            signatures: strings(&["first", "second"]),
            message: Message::Raw { account_keys: Vec::new(), program_id_indexes: Vec::new() },
        },
        meta: None,
    };
    assert_eq!(extract_signature(&json), Some("first".to_string()));
    let accounts = RawTransaction {
        transaction: EncodedTransaction::Accounts { signatures: strings(&["only"]) },
        meta: None,
    };
    assert_eq!(extract_signature(&accounts), Some("only".to_string()));
    assert_eq!(extract_signature(&binary(None)), None);
    assert_eq!(summarize_transaction(&json, 1, 1).signature, "first");
}

#[test]
fn program_ids_are_deduplicated_and_sorted() {
    let tx = parsed(&["ProgB", "ProgA", "ProgB"]);
    assert_eq!(extract_program_ids(&tx), strings(&["ProgA", "ProgB"]));
}

#[test]
fn raw_instructions_resolve_through_account_keys() {
    let tx = raw(&["payer", "ProgB", "ProgA"], &[1, 2, 1]);
    assert_eq!(extract_program_ids(&tx), strings(&["ProgA", "ProgB"]));
}

#[test]
fn unresolvable_indexes_are_passed_over() {
    let tx = raw(&["payer", "ProgA"], &[5, 1, 2, 255]);
    assert_eq!(extract_program_ids(&tx), strings(&["ProgA"]));
    let none = raw(&[], &[0]);
    assert_eq!(extract_program_ids(&none), Vec::<String>::new());
}

#[test]
fn all_instruction_shapes_resolve() {
    let tx = RawTransaction {
        transaction: EncodedTransaction::Json {
            signatures: strings(&["sig"]),
            message: Message::Parsed {
                account_keys: strings(&["payer", "Compiled"]),
                instructions: vec![
                    Instruction::Parsed { program_id: "Parsed".to_string() },
                    Instruction::Compiled { program_id_index: 1 },
                    Instruction::PartiallyDecoded { program_id: "Partial".to_string() },
                    Instruction::Compiled { program_id_index: 9 },
                    Instruction::Compiled { program_id_index: 1 },
                ],
            },
        },
        meta: None,
    };
    assert_eq!(extract_program_ids(&tx), strings(&["Compiled", "Parsed", "Partial"]));
}

#[test]
fn other_encodings_reference_no_program() {
    let accounts = RawTransaction {
        transaction: EncodedTransaction::Accounts { signatures: strings(&["sig"]) },
        meta: None,
    };
    assert_eq!(extract_program_ids(&accounts), Vec::<String>::new());
    assert_eq!(extract_program_ids(&binary(None)), Vec::<String>::new());
}

#[test]
fn program_ids_come_in_the_order_of_an_ordered_set() {
    let ids = ["b", "a", "é", "Z", "a", "", "zz", "z", "日本", "B", "b"];
    let expected: Vec<String> =
        ids.iter().map(|s| s.to_string()).collect::<BTreeSet<String>>().into_iter().collect();
    assert_eq!(extract_program_ids(&parsed(&ids)), expected);
}

#[test]
fn metadata_is_read_when_present() {
    let meta = TransactionMeta { failed: true, fee: Some(5000), compute_units: Some(150) };
    let summary = summarize_transaction(&binary(Some(meta)), 1, 0);
    assert!(summary.is_error);
    assert_eq!(summary.fee_lamports, Some(5000));
    assert_eq!(summary.compute_units, Some(150));
}

#[test]
fn fee_and_compute_units_are_absent_independently() {
    let no_units = TransactionMeta { failed: false, fee: Some(1), compute_units: None };
    let summary = summarize_transaction(&binary(Some(no_units)), 1, 0);
    assert_eq!((summary.fee_lamports, summary.compute_units), (Some(1), None));
    let no_fee = TransactionMeta { failed: false, fee: None, compute_units: Some(2) };
    let summary = summarize_transaction(&binary(Some(no_fee)), 1, 0);
    assert_eq!((summary.fee_lamports, summary.compute_units), (None, Some(2)));
}

#[test]
fn counts_that_do_not_fit_are_absent() {
    let edge = TransactionMeta {
        failed: false,
        fee: Some(i64::MAX as u64),
        compute_units: Some(i64::MAX as u64 + 1),
    };
    let summary = summarize_transaction(&binary(Some(edge)), 1, 0);
    assert_eq!(summary.fee_lamports, Some(i64::MAX));
    assert_eq!(summary.compute_units, None);
    let top = TransactionMeta { failed: false, fee: Some(u64::MAX), compute_units: Some(0) };
    let summary = summarize_transaction(&binary(Some(top)), 1, 0);
    assert_eq!(summary.fee_lamports, None);
    assert_eq!(summary.compute_units, Some(0));
}

#[test]
fn block_counts_are_exact() {
    let failed = TransactionMeta { failed: true, fee: Some(1), compute_units: None };
    let fine = TransactionMeta { failed: false, fee: Some(1), compute_units: None };
    let block = RawBlock {
        transactions: vec![
            binary(Some(failed)),
            binary(Some(fine)),
            binary(None),
            binary(Some(failed)),
            parsed(&["ProgA"]),
        ],
    };
    let decoded = decode_block(&block, 9);
    assert_eq!(decoded.summary, BlockSummary { slot: 9, tx_count: 5, err_count: 2 });
    assert_eq!(decoded.transactions.len(), 5);
    assert_eq!(decoded.transactions[2].signature, "missing-signature-9-2");
    assert_eq!(
        decoded.transactions[4],
        TxSummary {
            signature: "sig".to_string(),
            is_error: false,
            fee_lamports: None,
            compute_units: None,
            program_ids: strings(&["ProgA"]),
        }
    );
}

#[test]
fn empty_block_decodes_to_zero_counts() {
    let decoded = decode_block(&RawBlock { transactions: Vec::new() }, 3);
    assert_eq!(decoded.summary, BlockSummary { slot: 3, tx_count: 0, err_count: 0 });
    assert!(decoded.transactions.is_empty());
}

#[test]
fn id_set_keeps_each_element_once_in_order() {
    let mut set = IdSet::new();
    assert!(set.is_empty());
    for id in ["m", "c", "x", "c", "a", "m", "z", "a"] {
        set = set.insert(id.to_string());
    }
    assert_eq!(set.len(), 5);
    assert!(!set.is_empty());
    assert!(set.contains("a"));
    assert!(set.contains("z"));
    assert!(set.contains("m"));
    assert!(!set.contains("b"));
    assert!(!set.contains(""));
    assert_eq!(set.into_vec(), strings(&["a", "c", "m", "x", "z"]));
}
