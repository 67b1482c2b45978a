//! The shapes of the service's first version: its request and its recorded
//! transactions name their fields `txn_*`, and each recorded transaction
//! carries its client's id.
use vstd::prelude::*;

use crate::ledger::Ledger;
use crate::model::{ClientInfo, DbError, RespTransaction};

verus! {

/// The information a client provides to write a transaction, in the first
/// version's shape.
#[derive(Debug, PartialEq, Eq)]
pub struct CoreTransaction {
    pub txn_value: i32,
    pub txn_type: String,
    pub txn_description: String,
}

impl CoreTransaction {
    /// The same request in the current shape.
    pub open spec fn spec_current(self) -> crate::model::CoreTransaction {
        crate::model::CoreTransaction {
            valor: self.txn_value,
            tipo: self.txn_type,
            descricao: self.txn_description,
        }
    }

    /// Converts the request to the current shape.
    pub fn to_current(&self) -> (r: crate::model::CoreTransaction)
        ensures
            r == self.spec_current(),
            r.valor == self.txn_value,
            r.tipo == self.txn_type,
            r.descricao == self.txn_description,
    {
        crate::model::CoreTransaction {
            valor: self.txn_value,
            tipo: self.txn_type.clone(),
            descricao: self.txn_description.clone(),
        }
    }
}

/// A recorded transaction in the first version's shape: the client's id and
/// the time at which it was made, in microseconds since the Unix epoch.
#[derive(Debug, PartialEq, Eq)]
pub struct Transaction {
    pub client_id: i32,
    pub txn_value: i32,
    pub txn_type: String,
    pub txn_description: String,
    pub executed_at: i64,
}

impl Transaction {
    /// The record `t` of client `client_id` in the first version's shape.
    pub open spec fn spec_from_record(client_id: i32, t: crate::model::Transaction) -> Transaction {
        Transaction {
            client_id,
            txn_value: t.valor,
            txn_type: t.tipo,
            txn_description: t.descricao,
            executed_at: t.realizada_em,
        }
    }

    /// Converts the record `t` of client `client_id` to the first version's
    /// shape.
    pub fn from_record(client_id: i32, t: &crate::model::Transaction) -> (r: Transaction)
        ensures
            r == Transaction::spec_from_record(client_id, *t),
            r.client_id == client_id,
            r.txn_value == t.valor,
            r.txn_type == t.tipo,
            r.txn_description == t.descricao,
            r.executed_at == t.realizada_em,
    {
        Transaction {
            client_id,
            txn_value: t.valor,
            txn_type: t.tipo.clone(),
            txn_description: t.descricao.clone(),
            executed_at: t.realizada_em,
        }
    }
}

/// A first-version request is the current request with the same value, type
/// and description.
pub proof fn lemma_request_fields(core_txn: CoreTransaction)
    ensures
        core_txn.spec_current().valor == core_txn.txn_value,
        core_txn.spec_current().tipo == core_txn.txn_type,
        core_txn.spec_current().descricao == core_txn.txn_description,
{
}

/// A first-version statement entry carries the client's id and the
/// record's value, type, description and time as they are.
pub proof fn lemma_entry_fields(client_id: i32, t: crate::model::Transaction)
    ensures
        Transaction::spec_from_record(client_id, t).client_id == client_id,
        Transaction::spec_from_record(client_id, t).txn_value == t.valor,
        Transaction::spec_from_record(client_id, t).txn_type == t.tipo,
        Transaction::spec_from_record(client_id, t).txn_description == t.descricao,
        Transaction::spec_from_record(client_id, t).executed_at == t.realizada_em,
{
}

/// Adds a transaction for client `id` at `now` and answers with the
/// client's limit and updated balance, as the first version does.
pub fn add_transaction(ledger: &mut Ledger, core_txn: &CoreTransaction, id: i32, now: i64) -> (r:
    Result<RespTransaction, DbError>)
    ensures
        match old(ledger)@.add_result(id, core_txn.spec_current()) {
            Ok(info) => r == Ok::<RespTransaction, DbError>(
                RespTransaction { limit: info.limite, balance: info.saldo },
            ) && final(ledger)@ == old(ledger)@.record(id, info, core_txn.spec_current(), now),
            Err(e) => r == Err::<RespTransaction, DbError>(e) && final(ledger)@ == old(ledger)@,
        },
{
    let current = core_txn.to_current();
    match ledger.add_transaction(&current, id, now) {
        Ok(info) => Ok(RespTransaction::from(info)),
        Err(e) => Err(e),
    }
}

/// The bank statement of client `id` in the first version's shape: its
/// latest transactions, newest first, each with the client's id. Answers
/// `DbError::RowNotFound` where there is no client `id`.
pub fn get_bank_statement(ledger: &Ledger, id: i32) -> (r: Result<Vec<Transaction>, DbError>)
    ensures
        r is Err <==> !ledger@.clients.dom().contains(id),
        r is Err ==> r == Err::<Vec<Transaction>, DbError>(DbError::RowNotFound),
        r matches Ok(entries) ==> {
            &&& entries@.len() == ledger@.statement(id).len()
            &&& forall|i: int|
                0 <= i < entries@.len() ==> #[trigger] entries@[i] == Transaction::spec_from_record(
                    id,
                    ledger@.statement(id)[i],
                )
            &&& forall|i: int|
                0 <= i < entries@.len() ==> {
                    &&& (#[trigger] entries@[i]).client_id == id
                    &&& entries@[i].txn_value == ledger@.statement(id)[i].valor
                    &&& entries@[i].txn_type == ledger@.statement(id)[i].tipo
                    &&& entries@[i].txn_description == ledger@.statement(id)[i].descricao
                    &&& entries@[i].executed_at == ledger@.statement(id)[i].realizada_em
                }
        },
{
    match ledger.get_bank_statement(id) {
        Err(e) => Err(e),
        Ok(records) => {
            let mut entries: Vec<Transaction> = Vec::new();
            let mut i: usize = 0;
            while i < records.len()
                invariant
                    i <= records@.len(),
                    entries@.len() == i,
                    forall|k: int|
                        0 <= k < i ==> #[trigger] entries@[k] == Transaction::spec_from_record(
                            id,
                            records@[k],
                        ),
                decreases records@.len() - i,
            {
                entries.push(Transaction::from_record(id, &records[i]));
                i = i + 1;
            }
            Ok(entries)
        },
    }
}

} // verus!
