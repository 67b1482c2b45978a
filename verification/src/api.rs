//! The service's answers: which requests it refuses, and which HTTP status
//! answers each error of the account store.
use vstd::prelude::*;

use crate::ledger::{lists_newest, Ledger};
use crate::model::{AccountSummary, ClientInfo, CoreTransaction, DbError, Transaction};

verus! {

/// The client id is not found.
pub const NOT_FOUND: u16 = 404;

/// The request, or the write that it asks for, breaks a rule.
pub const UNPROCESSABLE_ENTITY: u16 = 422;

/// Any other failure.
pub const INTERNAL_SERVER_ERROR: u16 = 500;

/// The status that answers a store error on a transaction.
pub open spec fn write_error_status(e: DbError) -> u16 {
    match e {
        DbError::RowNotFound => NOT_FOUND,
        DbError::Database => UNPROCESSABLE_ENTITY,
        DbError::Other => INTERNAL_SERVER_ERROR,
    }
}

/// The status that answers a store error on a read.
pub open spec fn read_error_status(e: DbError) -> u16 {
    match e {
        DbError::RowNotFound => NOT_FOUND,
        _ => INTERNAL_SERVER_ERROR,
    }
}

/// Refuses a transaction request that breaks the request rule
/// (`CoreTransaction::is_valid`) with `UNPROCESSABLE_ENTITY`.
pub fn check_transaction(core_txn: &CoreTransaction) -> (r: Result<(), u16>)
    ensures
        r is Ok <==> core_txn.is_valid(),
        r is Ok <==> (core_txn.valor >= 0 && (core_txn.tipo@ == seq!['c'] || core_txn.tipo@ == seq![
            'd',
        ]) && 1 <= vstd::utf8::encode_utf8(core_txn.descricao@).len() <= 10),
        r is Err ==> r == Err::<(), u16>(422),
{
    if core_txn.validate() {
        Ok(())
    } else {
        Err(UNPROCESSABLE_ENTITY)
    }
}

/// The answer to a transaction, from what the store answered.
pub fn transaction_response(res: Result<ClientInfo, DbError>) -> (r: Result<ClientInfo, u16>)
    ensures
        match res {
            Ok(info) => r == Ok::<ClientInfo, u16>(info),
            Err(e) => r == Err::<ClientInfo, u16>(write_error_status(e)),
        },
        res == Err::<ClientInfo, DbError>(DbError::RowNotFound) ==> r == Err::<ClientInfo, u16>(404),
        res == Err::<ClientInfo, DbError>(DbError::Database) ==> r == Err::<ClientInfo, u16>(422),
        res == Err::<ClientInfo, DbError>(DbError::Other) ==> r == Err::<ClientInfo, u16>(500),
{
    match res {
        Ok(info) => Ok(info),
        Err(DbError::RowNotFound) => Err(NOT_FOUND),
        Err(DbError::Database) => Err(UNPROCESSABLE_ENTITY),
        Err(DbError::Other) => Err(INTERNAL_SERVER_ERROR),
    }
}

/// The answer to a read, from what the store answered.
pub fn read_response<T>(res: Result<T, DbError>) -> (r: Result<T, u16>)
    ensures
        match res {
            Ok(value) => r == Ok::<T, u16>(value),
            Err(e) => r == Err::<T, u16>(read_error_status(e)),
        },
        res == Err::<T, DbError>(DbError::RowNotFound) ==> r == Err::<T, u16>(404),
        res matches Err(e) && e != DbError::RowNotFound ==> r == Err::<T, u16>(500),
{
    match res {
        Ok(value) => Ok(value),
        Err(DbError::RowNotFound) => Err(NOT_FOUND),
        Err(_) => Err(INTERNAL_SERVER_ERROR),
    }
}

/// Handles a transaction request for client `id` at time `now`: refuses a
/// request that breaks the request rule before it reaches the store, and
/// answers with the client's limit and new balance, or with the status of
/// the store's error.
pub fn add_transaction(ledger: &mut Ledger, id: i32, core_txn: &CoreTransaction, now: i64) -> (r:
    Result<ClientInfo, u16>)
    ensures
        !core_txn.is_valid() ==> r == Err::<ClientInfo, u16>(UNPROCESSABLE_ENTITY) && final(ledger)@
            == old(ledger)@,
        core_txn.is_valid() ==> match old(ledger)@.add_result(id, *core_txn) {
            Ok(info) => r == Ok::<ClientInfo, u16>(info) && final(ledger)@ == old(ledger)@.record(
                id,
                info,
                *core_txn,
                now,
            ),
            Err(e) => r == Err::<ClientInfo, u16>(write_error_status(e)) && final(ledger)@ == old(
                ledger,
            )@,
        },
{
    match check_transaction(core_txn) {
        Err(status) => Err(status),
        Ok(()) => transaction_response(ledger.add_transaction(core_txn, id, now)),
    }
}

/// Handles a request for the account summary of client `id` at time `now`.
pub fn get_account_summary(ledger: &Ledger, id: i32, now: i64) -> (r: Result<AccountSummary, u16>)
    ensures
        r is Err <==> !ledger@.clients.dom().contains(id),
        r is Err ==> r == Err::<AccountSummary, u16>(NOT_FOUND),
        r matches Ok(summary) ==> {
            &&& summary.saldo.total == ledger@.clients[id].saldo
            &&& summary.saldo.limite == ledger@.clients[id].limite
            &&& summary.saldo.data_extrato == now
            &&& summary.ultimas_transacoes@ == ledger@.statement(id)
            &&& lists_newest(summary.ultimas_transacoes@, ledger@.history(id))
        },
{
    read_response(ledger.get_account_summary(id, now))
}

/// Handles a request for the bank statement of client `id`: its latest
/// transactions, newest first.
pub fn get_bank_statement(ledger: &Ledger, id: i32) -> (r: Result<Vec<Transaction>, u16>)
    ensures
        r is Err <==> !ledger@.clients.dom().contains(id),
        r is Err ==> r == Err::<Vec<Transaction>, u16>(NOT_FOUND),
        r matches Ok(statement) ==> statement@ == ledger@.statement(id) && lists_newest(
            statement@,
            ledger@.history(id),
        ),
{
    read_response(ledger.get_bank_statement(id))
}

} // verus!
