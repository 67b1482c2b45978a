use backend_showdown::ledger::{apply_transaction, Ledger};
use backend_showdown::v1;
use backend_showdown::model::{
    AccountSummary, AccountSummaryInfo, ClientInfo, CoreTransaction, DbError, RespTransaction,
    Transaction,
};

/// The clients of the competition: ids 1 to 5 with their limits, balance 0.
fn seeded() -> Ledger {
    let mut ledger = Ledger::new();
    for (id, limite) in [(1, 100000), (2, 80000), (3, 1000000), (4, 10000000), (5, 500000)] {
        ledger.open_account(id, limite, 0).unwrap();
    }
    ledger
}

/// The first version's data: client 1 opens with a balance equal to its limit.
fn seeded_v1() -> Ledger {
    let mut ledger = Ledger::new();
    ledger.open_account(1, 100000, 100000).unwrap();
    ledger
}

fn txn(valor: i32, tipo: &str, descricao: &str) -> CoreTransaction {
    CoreTransaction { valor, tipo: tipo.to_string(), descricao: descricao.to_string() }
}

#[test]
fn db_add_transaction_valid_id() {
    let mut ledger = seeded();
    let core_txn = txn(1000000, "d", "test");
    let r = ledger.add_transaction(&core_txn, 3, 1).unwrap();
    assert_eq!(r, ClientInfo { limite: 1000000, saldo: -1000000 });
}

#[test]
fn db_add_transaction_invalid_id() {
    let mut ledger = seeded();
    let core_txn = txn(50000, "d", "test");
    let r = ledger.add_transaction(&core_txn, 6, 1);
    assert!(matches!(r, Err(DbError::RowNotFound)), "Expected RowNotFound error, but got {:?}", r);
}

#[test]
fn db_add_transaction_balance_exceeded() {
    let mut ledger = seeded();
    let core_txn = txn(1000001, "d", "test");
    let r = ledger.add_transaction(&core_txn, 3, 1);
    assert!(matches!(r, Err(DbError::Database)), "Expected Database error, but got {:?}", r);
}

#[test]
fn db_get_account_summary_empty_valid_id() {
    let ledger = seeded();
    let account_s = ledger.get_account_summary(4, 77).unwrap();
    assert_eq!(
        account_s,
        AccountSummary {
            saldo: AccountSummaryInfo { total: 0, data_extrato: 77, limite: 10000000 },
            ultimas_transacoes: Vec::new(),
        }
    );
}

#[test]
fn db_get_account_summary_single_valid_id() {
    let mut ledger = seeded();
    let core_txn = txn(100, "d", "test");
    let _ = ledger.add_transaction(&core_txn, 4, 5).unwrap();
    let account_s = ledger.get_account_summary(4, 9).unwrap();
    assert_eq!(
        account_s,
        AccountSummary {
            saldo: AccountSummaryInfo { total: -100, data_extrato: 9, limite: 10000000 },
            ultimas_transacoes: vec![Transaction {
                valor: core_txn.valor,
                tipo: core_txn.tipo.clone(),
                descricao: core_txn.descricao.clone(),
                realizada_em: 5,
            }],
        }
    );
}

#[test]
fn db_get_account_summary_invalid_id() {
    let ledger = seeded();
    let account_s = ledger.get_account_summary(6, 1);
    assert!(
        matches!(account_s, Err(DbError::RowNotFound)),
        "Expected RowNotFound error, but got {:?}",
        account_s
    );
}

fn v1_txn(txn_value: i32, txn_type: &str, txn_description: &str) -> v1::CoreTransaction {
    v1::CoreTransaction {
        txn_value,
        txn_type: txn_type.to_string(),
        txn_description: txn_description.to_string(),
    }
}

#[test]
fn v1_db_add_transaction_valid_id() {
    let mut ledger = seeded_v1();
    let core_txn = v1_txn(50000, "d", "test");
    let r = v1::add_transaction(&mut ledger, &core_txn, 1, 1);
    assert!(
        matches!(r, Ok(RespTransaction { limit: 100000, balance: 50000 })),
        "Expected a RespTransaction instance with an updated balance, but got {:?}",
        r
    );
}

#[test]
fn v1_db_add_transaction_invalid_id() {
    let mut ledger = seeded_v1();
    let core_txn = v1_txn(50000, "d", "test");
    let r = v1::add_transaction(&mut ledger, &core_txn, 6, 1);
    assert!(matches!(r, Err(DbError::RowNotFound)), "Expected RowNotFound error, but got {:?}", r);
}

#[test]
fn v1_db_add_transaction_balance_exceeded() {
    let mut ledger = seeded_v1();
    let core_txn = v1_txn(200001, "d", "test");
    let r = v1::add_transaction(&mut ledger, &core_txn, 1, 1);
    assert!(matches!(r, Err(DbError::Database)), "Expected Database error, but got {:?}", r);
}

#[test]
fn get_bank_statement_valid_id() {
    let mut ledger = seeded_v1();
    let core_txn = v1_txn(50000, "d", "test");
    let _ = v1::add_transaction(&mut ledger, &core_txn, 1, 42).unwrap();
    let r = v1::get_bank_statement(&ledger, 1).unwrap();
    let t = vec![v1::Transaction {
        client_id: 1,
        txn_value: 50000,
        txn_type: "d".to_string(),
        txn_description: "test".to_string(),
        executed_at: r[0].executed_at.clone(),
    }];
    assert_eq!(r, t, "Expected bank statement, but got {:?}", r);
    assert_eq!(r[0].executed_at, 42);
}

#[test]
fn get_bank_statement_invalid_id() {
    let ledger = seeded_v1();
    let r = v1::get_bank_statement(&ledger, 6);
    assert!(matches!(r, Err(DbError::RowNotFound)), "Expected RowNotFound error, but got {:?}", r);
}

#[test]
fn store_statement_in_current_shape() {
    let mut ledger = seeded_v1();
    ledger.add_transaction(&txn(50000, "d", "test"), 1, 42).unwrap();
    let r = ledger.get_bank_statement(1).unwrap();
    assert_eq!(
        r,
        vec![Transaction {
            valor: 50000,
            tipo: "d".to_string(),
            descricao: "test".to_string(),
            realizada_em: 42,
        }]
    );
    assert!(matches!(ledger.get_bank_statement(6), Err(DbError::RowNotFound)));
}

#[test]
fn credit_adds_to_the_balance() {
    let mut ledger = seeded();
    let r = ledger.add_transaction(&txn(250, "c", "deposit"), 2, 1).unwrap();
    assert_eq!(r, ClientInfo { limite: 80000, saldo: 250 });
    let r = ledger.add_transaction(&txn(100, "d", "coffee"), 2, 2).unwrap();
    assert_eq!(r, ClientInfo { limite: 80000, saldo: 150 });
}

#[test]
fn debit_down_to_the_limit_exactly_is_accepted() {
    let mut ledger = seeded();
    assert_eq!(
        ledger.add_transaction(&txn(80000, "d", "all"), 2, 1),
        Ok(ClientInfo { limite: 80000, saldo: -80000 })
    );
    assert_eq!(ledger.add_transaction(&txn(1, "d", "one more"), 2, 2), Err(DbError::Database));
}

#[test]
fn rejected_transaction_changes_nothing() {
    let mut ledger = seeded();
    ledger.add_transaction(&txn(10, "d", "first"), 1, 1).unwrap();
    let before = ledger.get_account_summary(1, 3).unwrap();
    assert_eq!(ledger.add_transaction(&txn(100000, "d", "too much"), 1, 2), Err(DbError::Database));
    assert_eq!(ledger.add_transaction(&txn(5, "x", "bad kind"), 1, 2), Err(DbError::Database));
    assert_eq!(ledger.add_transaction(&txn(5, "c", ""), 1, 2), Err(DbError::Database));
    assert_eq!(ledger.get_account_summary(1, 3).unwrap(), before);
}

#[test]
fn unknown_client_is_reported_before_the_form_of_the_transaction() {
    let mut ledger = seeded();
    assert_eq!(ledger.add_transaction(&txn(-5, "x", ""), 9, 1), Err(DbError::RowNotFound));
}

#[test]
fn statement_lists_the_latest_ten_newest_first() {
    let mut ledger = seeded();
    for k in 0..12 {
        ledger.add_transaction(&txn(k + 1, "c", "n"), 5, k as i64).unwrap();
        ledger.add_transaction(&txn(1, "d", "other"), 3, 100 + k as i64).unwrap();
    }
    let statement = ledger.get_bank_statement(5).unwrap();
    assert_eq!(statement.len(), 10);
    let values: Vec<i32> = statement.iter().map(|t| t.valor).collect();
    assert_eq!(values, vec![12, 11, 10, 9, 8, 7, 6, 5, 4, 3]);
    let summary = ledger.get_account_summary(5, 1000).unwrap();
    assert_eq!(summary.saldo.total, 78);
    assert_eq!(summary.ultimas_transacoes, statement);
}

#[test]
fn new_transaction_heads_the_statement() {
    let mut ledger = seeded();
    for k in 0..10 {
        ledger.add_transaction(&txn(k + 1, "c", "n"), 1, k as i64).unwrap();
    }
    let before = ledger.get_bank_statement(1).unwrap();
    ledger.add_transaction(&txn(99, "d", "latest"), 1, 50).unwrap();
    let after = ledger.get_bank_statement(1).unwrap();
    assert_eq!(after.len(), 10);
    assert_eq!(after[0], Transaction {
        valor: 99,
        tipo: "d".to_string(),
        descricao: "latest".to_string(),
        realizada_em: 50,
    });
    assert_eq!(&after[1..], &before[..9]);
}

#[test]
fn transaction_leaves_other_clients_unchanged() {
    let mut ledger = seeded();
    ledger.add_transaction(&txn(7, "c", "a"), 2, 1).unwrap();
    let other_before = ledger.get_account_summary(2, 10).unwrap();
    ledger.add_transaction(&txn(500, "d", "b"), 3, 2).unwrap();
    assert_eq!(ledger.get_account_summary(2, 10).unwrap(), other_before);
}

#[test]
fn balance_beyond_i32_is_refused() {
    let mut ledger = Ledger::new();
    ledger.open_account(7, 0, i32::MAX - 5).unwrap();
    assert_eq!(ledger.add_transaction(&txn(6, "c", "overflow"), 7, 1), Err(DbError::Database));
    assert_eq!(
        ledger.add_transaction(&txn(5, "c", "fits"), 7, 1),
        Ok(ClientInfo { limite: 0, saldo: i32::MAX })
    );
}

#[test]
fn open_account_refuses_duplicates_and_balances_below_the_limit() {
    let mut ledger = Ledger::new();
    assert_eq!(ledger.open_account(1, 100, -100), Ok(()));
    assert_eq!(ledger.open_account(1, 500, 0), Err(DbError::Database));
    assert_eq!(ledger.open_account(2, 100, -101), Err(DbError::Database));
    assert_eq!(ledger.client_info(1), Some(ClientInfo { limite: 100, saldo: -100 }));
    assert_eq!(ledger.client_info(2), None);
}

#[test]
fn apply_transaction_moves_balance_by_signed_value() {
    let client = ClientInfo { limite: 1000, saldo: 10 };
    assert_eq!(apply_transaction(client, &txn(30, "c", "x")), Ok(ClientInfo { limite: 1000, saldo: 40 }));
    assert_eq!(apply_transaction(client, &txn(30, "d", "x")), Ok(ClientInfo { limite: 1000, saldo: -20 }));
    assert_eq!(apply_transaction(client, &txn(1011, "d", "x")), Err(DbError::Database));
    assert_eq!(apply_transaction(client, &txn(-1, "c", "x")), Err(DbError::Database));
}

#[test]
fn resp_transaction_from_client_info() {
    let r = RespTransaction::from(ClientInfo { limite: 3, saldo: -2 });
    assert_eq!(r, RespTransaction { limit: 3, balance: -2 });
}

#[test]
fn newest_transactions_of_a_history() {
    let history: Vec<Transaction> = (0..13)
        .map(|k| Transaction { valor: k, tipo: "c".to_string(), descricao: "h".to_string(), realizada_em: k as i64 })
        .collect();
    let latest = backend_showdown::ledger::newest_transactions(&history);
    let values: Vec<i32> = latest.iter().map(|t| t.valor).collect();
    assert_eq!(values, vec![12, 11, 10, 9, 8, 7, 6, 5, 4, 3]);
    let short: Vec<Transaction> = history[..2].to_vec();
    let values: Vec<i32> = backend_showdown::ledger::newest_transactions(&short).iter().map(|t| t.valor).collect();
    assert_eq!(values, vec![1, 0]);
}

#[test]
fn statement_is_ordered_by_time_not_by_arrival() {
    let mut ledger = seeded();
    ledger.add_transaction(&txn(1, "d", "late"), 1, 100).unwrap();
    ledger.add_transaction(&txn(2, "d", "early"), 1, 5).unwrap();
    ledger.add_transaction(&txn(3, "d", "middle"), 1, 50).unwrap();
    let times: Vec<i64> =
        ledger.get_bank_statement(1).unwrap().iter().map(|t| t.realizada_em).collect();
    assert_eq!(times, vec![100, 50, 5]);
}

#[test]
fn statement_keeps_the_ten_newest_by_time() {
    let mut ledger = seeded();
    // eleven transactions, the oldest by time arriving last
    for k in 0..10 {
        ledger.add_transaction(&txn(k + 1, "c", "n"), 4, 1000 + k as i64).unwrap();
    }
    ledger.add_transaction(&txn(99, "c", "old"), 4, 1).unwrap();
    let statement = ledger.get_account_summary(4, 2000).unwrap().ultimas_transacoes;
    let values: Vec<i32> = statement.iter().map(|t| t.valor).collect();
    assert_eq!(values, vec![10, 9, 8, 7, 6, 5, 4, 3, 2, 1]);
}

#[test]
fn account_summary_from_a_history() {
    let history: Vec<Transaction> = (0..3)
        .map(|k| Transaction { valor: k, tipo: "d".to_string(), descricao: "h".to_string(), realizada_em: 10 * k as i64 })
        .collect();
    let s = backend_showdown::ledger::account_summary(ClientInfo { limite: 50, saldo: -3 }, 77, &history);
    assert_eq!(s.saldo, AccountSummaryInfo { total: -3, data_extrato: 77, limite: 50 });
    let times: Vec<i64> = s.ultimas_transacoes.iter().map(|t| t.realizada_em).collect();
    assert_eq!(times, vec![20, 10, 0]);
}
