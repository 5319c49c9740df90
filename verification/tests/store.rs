use slot_observer::block::{EncodedTransaction, Instruction, Message, RawBlock, RawTransaction};
use slot_observer::indexer::{Action, Event, Indexer};
use slot_observer::memory::MemoryStore;
use slot_observer::store::{BlockRow, TransactionRow};
use slot_observer::targets::TargetProgramSet;
use slot_observer::writes::WriteOp;

fn block(slot: u64, tx_count: u64, err_count: u64) -> WriteOp {
    WriteOp::Block { slot, tx_count, err_count }
}

fn transaction(signature: &str, slot: u64, is_error: bool, fee: Option<i64>) -> WriteOp {
    WriteOp::Transaction {
        signature: signature.to_string(),
        slot,
        is_error,
        fee_lamports: fee,
        compute_units: None,
    }
}

fn association(signature: &str, slot: u64, program_id: &str) -> WriteOp {
    WriteOp::Association {
        signature: signature.to_string(),
        slot,
        program_id: program_id.to_string(),
    }
}

fn counts(store: &MemoryStore) -> (usize, usize, usize) {
    (store.block_count(), store.transaction_count(), store.association_count())
}

fn raw_transaction(signature: &str, ids: &[&str]) -> RawTransaction {
    RawTransaction {
        transaction: EncodedTransaction::Json {
            signatures: vec![signature.to_string()],
            message: Message::Parsed {
                account_keys: Vec::new(),
                instructions: ids
                    .iter()
                    .map(|id| Instruction::Parsed { program_id: id.to_string() })
                    .collect(),
            },
        },
        meta: None,
    }
}

#[test]
fn new_store_is_empty_with_cursor_zero() {
    let store = MemoryStore::new();
    assert_eq!(store.cursor(), 0);
    assert_eq!(counts(&store), (0, 0, 0));
    assert_eq!(store.block(0), None);
    assert_eq!(store.transaction("sig"), None);
    assert_eq!(store.association("sig", "ProgA"), None);
}

#[test]
fn same_block_twice_leaves_one_row() {
    let store = MemoryStore::new().apply(&block(7, 3, 1)).apply(&block(7, 3, 1));
    assert_eq!(counts(&store), (1, 0, 0));
    assert_eq!(store.block(7), Some(BlockRow { tx_count: 3, err_count: 1 }));
}

#[test]
fn updated_block_overwrites_its_row() {
    let store =
        MemoryStore::new().apply(&block(7, 3, 1)).apply(&block(8, 1, 0)).apply(&block(7, 5, 2));
    assert_eq!(counts(&store), (2, 0, 0));
    assert_eq!(store.block(7), Some(BlockRow { tx_count: 5, err_count: 2 }));
    assert_eq!(store.block(8), Some(BlockRow { tx_count: 1, err_count: 0 }));
    assert_eq!(store.block(9), None);
}

#[test]
fn same_transaction_twice_leaves_one_row() {
    let op = transaction("sig", 7, false, Some(5000));
    let store = MemoryStore::new().apply(&op).apply(&op);
    assert_eq!(counts(&store), (0, 1, 0));
    assert_eq!(
        store.transaction("sig"),
        Some(TransactionRow {
            slot: 7,
            is_error: false,
            fee_lamports: Some(5000),
            compute_units: None,
        })
    );
}

#[test]
fn updated_transaction_overwrites_its_row() {
    let store = MemoryStore::new()
        .apply(&transaction("sig", 7, false, Some(5000)))
        .apply(&transaction("other", 7, false, None))
        .apply(&transaction("sig", 9, true, None));
    assert_eq!(counts(&store), (0, 2, 0));
    assert_eq!(
        store.transaction("sig"),
        Some(TransactionRow { slot: 9, is_error: true, fee_lamports: None, compute_units: None })
    );
    assert_eq!(
        store.transaction("other"),
        Some(TransactionRow { slot: 7, is_error: false, fee_lamports: None, compute_units: None })
    );
}

#[test]
fn association_is_inserted_once() {
    let store = MemoryStore::new()
        .apply(&association("sig", 7, "ProgA"))
        .apply(&association("sig", 7, "ProgA"))
        .apply(&association("sig", 9, "ProgA"))
        .apply(&association("sig", 7, "ProgB"))
        .apply(&association("gis", 8, "ProgA"));
    assert_eq!(counts(&store), (0, 0, 3));
    assert_eq!(store.association("sig", "ProgA"), Some(7));
    assert_eq!(store.association("sig", "ProgB"), Some(7));
    assert_eq!(store.association("gis", "ProgA"), Some(8));
    assert_eq!(store.association("gis", "ProgB"), None);
    assert_eq!(store.association("sigProg", "A"), None);
}

#[test]
fn cursor_write_sets_the_cursor() {
    let store = MemoryStore::new().apply(&WriteOp::Cursor { slot: 120 });
    assert_eq!(store.cursor(), 120);
    assert_eq!(counts(&store), (0, 0, 0));
    let store = store.apply(&WriteOp::Cursor { slot: 120 });
    assert_eq!(store.cursor(), 120);
}

#[test]
fn replayed_writes_change_nothing() {
    let writes = vec![
        block(7, 2, 1),
        transaction("a", 7, true, Some(1)),
        association("a", 7, "ProgA"),
        association("a", 7, "ProgB"),
        transaction("b", 7, false, Some(2)),
        transaction("a", 7, false, Some(3)),
        association("a", 8, "ProgA"),
        WriteOp::Cursor { slot: 7 },
    ];
    let once = MemoryStore::new().apply_all(&writes);
    assert_eq!(counts(&once), (1, 2, 2));
    assert_eq!(once.cursor(), 7);
    let twice = once.apply_all(&writes);
    assert_eq!(counts(&twice), (1, 2, 2));
    assert_eq!(twice.cursor(), 7);
    assert_eq!(twice.block(7), Some(BlockRow { tx_count: 2, err_count: 1 }));
    assert_eq!(
        twice.transaction("a"),
        Some(TransactionRow {
            slot: 7,
            is_error: false,
            fee_lamports: Some(3),
            compute_units: None,
        })
    );
    assert_eq!(twice.association("a", "ProgA"), Some(7));
    assert_eq!(twice.association("a", "ProgB"), Some(7));
}

#[test]
fn indexer_fills_the_store_slot_by_slot() {
    let targets = TargetProgramSet::from_list(&vec!["ProgA".to_string()]);
    let (mut indexer, mut action) = Indexer::start(targets);
    let mut store = MemoryStore::new().apply(&WriteOp::Cursor { slot: 100 });
    let mut cursors: Vec<u64> = Vec::new();
    let mut passes = 0;
    while passes < 1 {
        let event = match action {
            Action::Probe => Event::ProbeFailed,
            Action::LoadCursor => Event::CursorLoaded { cursor: store.cursor() },
            Action::LoadHead => Event::HeadLoaded { head: 500 },
            Action::FetchBlock { slot } => {
                if slot == 105 {
                    Event::FetchFailed { message: "Block not available for slot 105".to_string() }
                } else {
                    let signature = format!("sig-{slot}");
                    Event::BlockFetched {
                        block: RawBlock {
                            transactions: vec![raw_transaction(&signature, &["ProgB", "ProgA"])],
                        },
                    }
                }
            }
            Action::Persist { writes } => {
                store = store.apply_all(&writes);
                cursors.push(store.cursor());
                Event::Persisted
            }
            Action::Sleep { millis } => {
                if millis == 200 {
                    passes += 1;
                }
                Event::Woke
            }
            Action::Halt => panic!("the machine halted"),
        };
        action = indexer.step(event);
    }
    assert_eq!(cursors, (101..=120).collect::<Vec<u64>>());
    assert_eq!(store.cursor(), 120);
    assert_eq!(counts(&store), (19, 19, 19));
    assert_eq!(store.block(105), None);
    assert_eq!(store.transaction("sig-105"), None);
    assert_eq!(store.block(104), Some(BlockRow { tx_count: 1, err_count: 0 }));
    assert_eq!(store.association("sig-104", "ProgA"), Some(104));
    assert_eq!(store.association("sig-104", "ProgB"), None);
    assert_eq!(store.block(121), None);
}

/// Drives one pass over `store` with the head three slots past the cursor.
/// With `fail` set to a slot and a number, only that many of the slot's
/// writes are made before the write path fails.
fn one_pass(mut store: MemoryStore, fail: Option<(u64, usize)>) -> (MemoryStore, bool) {
    let head = store.cursor() + 3;
    let targets = TargetProgramSet::from_list(&Vec::new());
    let (mut indexer, mut action) = Indexer::start(targets);
    loop {
        let event = match action {
            Action::Probe => Event::ProbeFinished { last_slot: Some(head) },
            Action::LoadCursor => Event::CursorLoaded { cursor: store.cursor() },
            Action::LoadHead => Event::HeadLoaded { head },
            Action::FetchBlock { slot } => {
                let first = format!("first-{slot}");
                let second = format!("second-{slot}");
                Event::BlockFetched {
                    block: RawBlock {
                        transactions: vec![
                            raw_transaction(&first, &["ProgA", "ProgB"]),
                            raw_transaction(&second, &["ProgA"]),
                        ],
                    },
                }
            }
            Action::Persist { writes } => {
                let slot = store.cursor() + 1;
                match fail {
                    Some((at, made)) if at == slot => {
                        store = store.apply_all(&writes[..made].to_vec());
                        Event::Failed
                    }
                    _ => {
                        store = store.apply_all(&writes);
                        Event::Persisted
                    }
                }
            }
            Action::Sleep { .. } => return (store, true),
            Action::Halt => return (store, false),
        };
        action = indexer.step(event);
    }
}

#[test]
fn failed_write_leaves_the_cursor_before_the_slot() {
    let start = MemoryStore::new().apply(&WriteOp::Cursor { slot: 10 });
    let (store, finished) = one_pass(start, Some((12, 4)));
    assert!(!finished);
    assert_eq!(store.cursor(), 11);
    assert_eq!(store.block(11), Some(BlockRow { tx_count: 2, err_count: 0 }));
    assert_eq!(store.block(12), Some(BlockRow { tx_count: 2, err_count: 0 }));
    assert_eq!(store.association("first-12", "ProgB"), Some(12));
    assert_eq!(store.transaction("second-12"), None);
    assert_eq!(store.block(13), None);
}

#[test]
fn restart_replays_the_slot_in_hand() {
    let start = MemoryStore::new().apply(&WriteOp::Cursor { slot: 10 });
    let (clean, finished) = one_pass(start, None);
    assert!(finished);
    assert_eq!(clean.cursor(), 13);
    assert_eq!(counts(&clean), (3, 6, 9));

    for made in 0..7 {
        let start = MemoryStore::new().apply(&WriteOp::Cursor { slot: 10 });
        let (broken, finished) = one_pass(start, Some((12, made)));
        assert!(!finished);
        assert_eq!(broken.cursor(), 11);
        let (resumed, finished) = one_pass(broken, None);
        assert!(finished);
        assert_eq!(resumed.cursor(), 14);
        assert_eq!(counts(&resumed), (4, 8, 12));
        for slot in 11..=13u64 {
            assert_eq!(resumed.block(slot), clean.block(slot));
            for name in ["first", "second"] {
                let signature = format!("{name}-{slot}");
                assert_eq!(resumed.transaction(&signature), clean.transaction(&signature));
                assert!(resumed.transaction(&signature).is_some());
                for program in ["ProgA", "ProgB"] {
                    assert_eq!(
                        resumed.association(&signature, program),
                        clean.association(&signature, program)
                    );
                }
            }
        }
    }
}
