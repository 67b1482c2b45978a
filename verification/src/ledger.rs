//! The rules of the account store, and a verified model of the store that
//! keeps the clients' limits and balances and the record of their
//! transactions under those rules.
use vstd::prelude::*;

use crate::model::{
    AccountSummary, AccountSummaryInfo, ClientInfo, CoreTransaction, DbError, Transaction,
    STATEMENT_SIZE,
};

verus! {

/// What a transaction does to a client: the client's new limit and balance,
/// or the error with which the store refuses it.
///
/// A transaction that breaks the form of a request, or that would take the
/// balance below `-limite` or above the largest `i32`, is refused with
/// `DbError::Database`.
pub open spec fn transaction_outcome(client: ClientInfo, core_txn: CoreTransaction) -> Result<
    ClientInfo,
    DbError,
> {
    let balance = client.saldo + core_txn.signed_value();
    if !core_txn.is_valid() {
        Err(DbError::Database)
    } else if balance < -client.limite || balance > i32::MAX {
        Err(DbError::Database)
    } else {
        Ok(ClientInfo { limite: client.limite, saldo: balance as i32 })
    }
}

/// The store takes a transaction exactly when its value is not negative, its
/// type is `"c"` or `"d"`, its description takes 1 to 10 bytes, and the
/// balance it leaves (the old balance plus the value for `"c"`, minus it for
/// `"d"`) is at least `-limite` and fits in an `i32`. It then answers the
/// client's limit and that balance; it refuses every other transaction with
/// `DbError::Database`. So a valid credit whose new balance fits in an `i32`
/// is always taken, however large next to the limit, and a debit is refused
/// exactly when it would take the balance below `-limite`.
pub proof fn lemma_transaction_outcome(client: ClientInfo, core_txn: CoreTransaction)
    ensures
        ({
            let balance = if core_txn.tipo@ == seq!['c'] {
                client.saldo + core_txn.valor
            } else {
                client.saldo - core_txn.valor
            };
            let takes = core_txn.valor >= 0 && (core_txn.tipo@ == seq!['c'] || core_txn.tipo@
                == seq!['d']) && 1 <= vstd::utf8::encode_utf8(core_txn.descricao@).len() <= 10
                && -client.limite <= balance <= i32::MAX;
            &&& takes ==> transaction_outcome(client, core_txn) == Ok::<ClientInfo, DbError>(
                ClientInfo { limite: client.limite, saldo: balance as i32 },
            )
            &&& !takes ==> transaction_outcome(client, core_txn) == Err::<ClientInfo, DbError>(
                DbError::Database,
            )
        }),
{
    crate::model::lemma_valid_request(core_txn);
    crate::model::lemma_signed_value(core_txn);
}

/// Applies a transaction to a client's limit and balance.
pub fn apply_transaction(client: ClientInfo, core_txn: &CoreTransaction) -> (r: Result<
    ClientInfo,
    DbError,
>)
    ensures
        r == transaction_outcome(client, *core_txn),
        r matches Ok(info) ==> {
            &&& info.within_limit()
            &&& info.limite == client.limite
            &&& info.saldo == client.saldo + core_txn.signed_value()
        },
        ({
            let balance = if core_txn.tipo@ == seq!['c'] {
                client.saldo + core_txn.valor
            } else {
                client.saldo - core_txn.valor
            };
            let takes = core_txn.valor >= 0 && (core_txn.tipo@ == seq!['c'] || core_txn.tipo@
                == seq!['d']) && 1 <= vstd::utf8::encode_utf8(core_txn.descricao@).len() <= 10
                && -client.limite <= balance <= i32::MAX;
            &&& takes ==> r == Ok::<ClientInfo, DbError>(
                ClientInfo { limite: client.limite, saldo: balance as i32 },
            )
            &&& !takes ==> r == Err::<ClientInfo, DbError>(DbError::Database)
        }),
{
    proof {
        lemma_transaction_outcome(client, *core_txn);
    }
    if !core_txn.validate() {
        return Err(DbError::Database);
    }
    let saldo = client.saldo as i64;
    let valor = core_txn.valor as i64;
    let balance: i64 = if core_txn.is_credit() {
        saldo + valor
    } else {
        saldo - valor
    };
    if balance < -(client.limite as i64) || balance > i32::MAX as i64 {
        Err(DbError::Database)
    } else {
        Ok(ClientInfo { limite: client.limite, saldo: balance as i32 })
    }
}

/// The transactions of client `id` in `rows`, oldest first.
pub open spec fn history_of(rows: Seq<(i32, Transaction)>, id: i32) -> Seq<Transaction>
    decreases rows.len(),
{
    if rows.len() == 0 {
        Seq::empty()
    } else {
        let prev = history_of(rows.drop_last(), id);
        if rows.last().0 == id {
            prev.push(rows.last().1)
        } else {
            prev
        }
    }
}

/// The latest `STATEMENT_SIZE` transactions of a history, newest first.
pub open spec fn newest_first(history: Seq<Transaction>) -> Seq<Transaction> {
    let n = history.len();
    let k = if n < STATEMENT_SIZE {
        n
    } else {
        STATEMENT_SIZE as nat
    };
    Seq::new(k, |i: int| history[n - 1 - i])
}

/// A history whose transactions are ordered by their time, oldest first.
pub open spec fn sorted_by_time(history: Seq<Transaction>) -> bool {
    forall|i: int, j: int|
        0 <= i <= j < history.len() ==> #[trigger] history[i].realizada_em
            <= #[trigger] history[j].realizada_em
}

/// `statement` lists the newest transactions of `history`: as many as
/// `STATEMENT_SIZE` allows, each a distinct entry of `history` (the `i`-th
/// from its end), ordered by time, newest first, and none of the entries left
/// out is newer than the last one listed.
pub open spec fn lists_newest(statement: Seq<Transaction>, history: Seq<Transaction>) -> bool {
    let n = history.len();
    &&& statement.len() == (if n < STATEMENT_SIZE {
        n
    } else {
        STATEMENT_SIZE as nat
    })
    &&& forall|i: int| 0 <= i < statement.len() ==> #[trigger] statement[i] == history[n - 1 - i]
    &&& forall|i: int, j: int|
        0 <= i <= j < statement.len() ==> #[trigger] statement[j].realizada_em
            <= #[trigger] statement[i].realizada_em
    &&& forall|k: int|
        0 <= k < n - statement.len() ==> #[trigger] history[k].realizada_em
            <= statement[statement.len() - 1].realizada_em
}

/// Of a history ordered by time, `newest_first` lists the newest transactions.
pub proof fn lemma_newest_first_lists_newest(history: Seq<Transaction>)
    requires
        sorted_by_time(history),
    ensures
        lists_newest(newest_first(history), history),
{
    let st = newest_first(history);
    let n = history.len();
    assert forall|i: int, j: int| 0 <= i <= j < st.len() implies #[trigger] st[j].realizada_em
        <= #[trigger] st[i].realizada_em by {
        assert(history[n - 1 - j].realizada_em <= history[n - 1 - i].realizada_em);
    }
    assert forall|k: int| 0 <= k < n - st.len() implies #[trigger] history[k].realizada_em
        <= st[st.len() - 1].realizada_em by {
        assert(history[k].realizada_em <= history[n - st.len()].realizada_em);
    }
}

/// The latest `STATEMENT_SIZE` transactions of `history` (oldest first),
/// newest first.
pub fn newest_transactions(history: &Vec<Transaction>) -> (r: Vec<Transaction>)
    ensures
        r@ == newest_first(history@),
        sorted_by_time(history@) ==> lists_newest(r@, history@),
{
    proof {
        if sorted_by_time(history@) {
            lemma_newest_first_lists_newest(history@);
        }
    }
    let n = history.len();
    let mut result: Vec<Transaction> = Vec::new();
    let mut k: usize = 0;
    while k < n && k < STATEMENT_SIZE
        invariant
            n == history@.len(),
            k <= n,
            k <= STATEMENT_SIZE,
            result@.len() == k,
            forall|i: int| 0 <= i < k ==> #[trigger] result@[i] == history@[n - 1 - i],
        decreases n - k,
    {
        result.push(history[n - 1 - k].clone());
        k = k + 1;
    }
    assert(result@ =~= newest_first(history@));
    result
}

/// The summary of a client with limit and balance `client`, at time `now`,
/// whose transactions are `history`, oldest first.
pub fn account_summary(client: ClientInfo, now: i64, history: &Vec<Transaction>) -> (r:
    AccountSummary)
    ensures
        r.saldo == (AccountSummaryInfo { total: client.saldo, data_extrato: now, limite: client.limite }),
        r.ultimas_transacoes@ == newest_first(history@),
        sorted_by_time(history@) ==> lists_newest(r.ultimas_transacoes@, history@),
{
    AccountSummary {
        saldo: AccountSummaryInfo { total: client.saldo, data_extrato: now, limite: client.limite },
        ultimas_transacoes: newest_transactions(history),
    }
}

/// Transaction rows ordered by their time, oldest first.
pub open spec fn rows_by_time(rows: Seq<(i32, Transaction)>) -> bool {
    forall|i: int, j: int|
        0 <= i <= j < rows.len() ==> #[trigger] rows[i].1.realizada_em
            <= #[trigger] rows[j].1.realizada_em
}

/// `history` with `t` put after every transaction that is not newer than it
/// and before every one that is.
pub open spec fn insert_by_time(history: Seq<Transaction>, t: Transaction) -> Seq<Transaction>
    decreases history.len(),
{
    if history.len() == 0 || history.last().realizada_em <= t.realizada_em {
        history.push(t)
    } else {
        insert_by_time(history.drop_last(), t).push(history.last())
    }
}

/// `rows` with `row` put after every row that is not newer than it and
/// before every one that is.
pub open spec fn insert_row_by_time(rows: Seq<(i32, Transaction)>, row: (i32, Transaction)) -> Seq<
    (i32, Transaction),
>
    decreases rows.len(),
{
    if rows.len() == 0 || rows.last().1.realizada_em <= row.1.realizada_em {
        rows.push(row)
    } else {
        insert_row_by_time(rows.drop_last(), row).push(rows.last())
    }
}

proof fn lemma_history_times_bounded(rows: Seq<(i32, Transaction)>, id: i32, bound: i64)
    requires
        forall|k: int| 0 <= k < rows.len() ==> #[trigger] rows[k].1.realizada_em <= bound,
    ensures
        forall|k: int|
            0 <= k < history_of(rows, id).len() ==> #[trigger] history_of(rows, id)[k].realizada_em
                <= bound,
    decreases rows.len(),
{
    if rows.len() > 0 {
        let prev = rows.drop_last();
        assert forall|k: int| 0 <= k < prev.len() implies #[trigger] prev[k].1.realizada_em
            <= bound by {
            assert(prev[k] == rows[k]);
        }
        lemma_history_times_bounded(prev, id, bound);
        assert(rows[rows.len() - 1].1.realizada_em <= bound);
        let h = history_of(rows, id);
        let hp = history_of(prev, id);
        assert forall|k: int| 0 <= k < h.len() implies #[trigger] h[k].realizada_em <= bound by {
            if k < hp.len() {
                assert(h[k] == hp[k]);
            }
        }
    }
}

/// The history of a client in rows ordered by time is ordered by time.
proof fn lemma_history_sorted(rows: Seq<(i32, Transaction)>, id: i32)
    requires
        rows_by_time(rows),
    ensures
        sorted_by_time(history_of(rows, id)),
    decreases rows.len(),
{
    if rows.len() > 0 {
        let prev_rows = rows.drop_last();
        assert(rows_by_time(prev_rows));
        lemma_history_sorted(prev_rows, id);
        let last = rows.last().1.realizada_em;
        assert forall|k: int| 0 <= k < prev_rows.len() implies #[trigger] prev_rows[k].1.realizada_em
            <= last by {
            assert(rows[k].1.realizada_em <= rows[rows.len() - 1].1.realizada_em);
        }
        lemma_history_times_bounded(prev_rows, id, last);
    }
}

proof fn lemma_insert_row_bounded(rows: Seq<(i32, Transaction)>, row: (i32, Transaction), bound: i64)
    requires
        forall|k: int| 0 <= k < rows.len() ==> #[trigger] rows[k].1.realizada_em <= bound,
        row.1.realizada_em <= bound,
    ensures
        forall|k: int|
            0 <= k < insert_row_by_time(rows, row).len() ==> #[trigger] insert_row_by_time(
                rows,
                row,
            )[k].1.realizada_em <= bound,
    decreases rows.len(),
{
    let r = insert_row_by_time(rows, row);
    if rows.len() > 0 && rows.last().1.realizada_em > row.1.realizada_em {
        let prev = rows.drop_last();
        assert forall|k: int| 0 <= k < prev.len() implies #[trigger] prev[k].1.realizada_em
            <= bound by {
            assert(prev[k] == rows[k]);
        }
        lemma_insert_row_bounded(prev, row, bound);
        assert(rows[rows.len() - 1].1.realizada_em <= bound);
        let r0 = insert_row_by_time(prev, row);
        assert forall|k: int| 0 <= k < r.len() implies #[trigger] r[k].1.realizada_em <= bound by {
            if k < r0.len() {
                assert(r[k] == r0[k]);
            }
        }
    } else {
        assert forall|k: int| 0 <= k < r.len() implies #[trigger] r[k].1.realizada_em <= bound by {
            if k < rows.len() {
                assert(r[k] == rows[k]);
            }
        }
    }
}

/// Inserting a row by its time keeps rows ordered by time.
proof fn lemma_insert_row_sorted(rows: Seq<(i32, Transaction)>, row: (i32, Transaction))
    requires
        rows_by_time(rows),
    ensures
        rows_by_time(insert_row_by_time(rows, row)),
        insert_row_by_time(rows, row).len() == rows.len() + 1,
    decreases rows.len(),
{
    if rows.len() > 0 && rows.last().1.realizada_em > row.1.realizada_em {
        let prev = rows.drop_last();
        assert(rows_by_time(prev));
        lemma_insert_row_sorted(prev, row);
        let last = rows.last().1.realizada_em;
        assert forall|k: int| 0 <= k < prev.len() implies #[trigger] prev[k].1.realizada_em
            <= last by {
            assert(rows[k].1.realizada_em <= rows[rows.len() - 1].1.realizada_em);
        }
        lemma_insert_row_bounded(prev, row, last);
        let r = insert_row_by_time(rows, row);
        let r0 = insert_row_by_time(prev, row);
        assert forall|i: int, j: int| 0 <= i <= j < r.len() implies #[trigger] r[i].1.realizada_em
            <= #[trigger] r[j].1.realizada_em by {
            if j < r.len() - 1 {
                assert(r[i] == r0[i] && r[j] == r0[j]);
            } else if i < r.len() - 1 {
                assert(r[i] == r0[i]);
            }
        }
    } else if rows.len() > 0 {
        let r = insert_row_by_time(rows, row);
        assert forall|i: int, j: int| 0 <= i <= j < r.len() implies #[trigger] r[i].1.realizada_em
            <= #[trigger] r[j].1.realizada_em by {
            if j == r.len() - 1 && i < j {
                assert(rows[i].1.realizada_em <= rows[rows.len() - 1].1.realizada_em);
            }
        }
    }
}

/// Inserting a row of client `id` by its time inserts its transaction by
/// time into the client's history, and changes no other client's history.
proof fn lemma_history_of_insert(rows: Seq<(i32, Transaction)>, row: (i32, Transaction), id: i32)
    requires
        rows_by_time(rows),
    ensures
        history_of(insert_row_by_time(rows, row), id) == (if row.0 == id {
            insert_by_time(history_of(rows, id), row.1)
        } else {
            history_of(rows, id)
        }),
    decreases rows.len(),
{
    let r = insert_row_by_time(rows, row);
    if rows.len() == 0 || rows.last().1.realizada_em <= row.1.realizada_em {
        assert(r.drop_last() =~= rows);
        if row.0 == id {
            let h = history_of(rows, id);
            if h.len() > 0 {
                let bound = row.1.realizada_em;
                assert forall|k: int| 0 <= k < rows.len() implies #[trigger] rows[k].1.realizada_em
                    <= bound by {
                    assert(rows[k].1.realizada_em <= rows[rows.len() - 1].1.realizada_em);
                }
                lemma_history_times_bounded(rows, id, bound);
                assert(h.last().realizada_em <= bound);
            }
        }
    } else {
        let prev = rows.drop_last();
        assert(rows_by_time(prev));
        lemma_history_of_insert(prev, row, id);
        assert(r.drop_last() =~= insert_row_by_time(prev, row));
        if rows.last().0 == id && row.0 == id {
            let h = history_of(rows, id);
            assert(h.drop_last() =~= history_of(prev, id));
        }
    }
}

/// Inserting `row` at `p`, where the rows from `p` on are newer than it and
/// the one before `p` is not, is inserting it by its time.
proof fn lemma_insert_row_at(rows: Seq<(i32, Transaction)>, row: (i32, Transaction), p: int)
    requires
        0 <= p <= rows.len(),
        forall|k: int| p <= k < rows.len() ==> #[trigger] rows[k].1.realizada_em > row.1.realizada_em,
        p > 0 ==> rows[p - 1].1.realizada_em <= row.1.realizada_em,
    ensures
        insert_row_by_time(rows, row) == rows.insert(p, row),
    decreases rows.len(),
{
    if p == rows.len() {
        assert(rows.insert(p, row) =~= rows.push(row));
    } else {
        let prev = rows.drop_last();
        assert(rows.last().1.realizada_em > row.1.realizada_em);
        lemma_insert_row_at(prev, row, p);
        assert(rows.insert(p, row) =~= prev.insert(p, row).push(rows.last()));
    }
}

/// The state of the store: each client's limit and balance, and the
/// transactions made, each with its client's id, ordered by their time.
pub struct LedgerView {
    pub clients: Map<i32, ClientInfo>,
    pub transactions: Seq<(i32, Transaction)>,
}

impl LedgerView {
    /// The transactions of client `id`, oldest first.
    pub open spec fn history(self, id: i32) -> Seq<Transaction> {
        history_of(self.transactions, id)
    }

    /// The statement of client `id`: its latest transactions, newest first.
    pub open spec fn statement(self, id: i32) -> Seq<Transaction> {
        newest_first(self.history(id))
    }

    /// What the store answers to a transaction for client `id`.
    pub open spec fn add_result(self, id: i32, core_txn: CoreTransaction) -> Result<
        ClientInfo,
        DbError,
    > {
        if !self.clients.dom().contains(id) {
            Err(DbError::RowNotFound)
        } else {
            transaction_outcome(self.clients[id], core_txn)
        }
    }

    /// The state after client `id` got the limit and balance `info` from
    /// `core_txn`, made at `now`.
    pub open spec fn record(
        self,
        id: i32,
        info: ClientInfo,
        core_txn: CoreTransaction,
        now: i64,
    ) -> LedgerView {
        LedgerView {
            clients: self.clients.insert(id, info),
            transactions: insert_row_by_time(
                self.transactions,
                (id, Transaction::recorded(core_txn, now)),
            ),
        }
    }

    /// Every client's balance respects its limit.
    pub open spec fn all_within_limit(self) -> bool {
        forall|id: i32| #[trigger] self.clients.dom().contains(id) ==> self.clients[id].within_limit()
    }

    /// What every state of the store keeps: balances within their limits and
    /// transactions ordered by time.
    pub open spec fn well_formed(self) -> bool {
        &&& self.all_within_limit()
        &&& rows_by_time(self.transactions)
    }
}

/// In every state of the store, a client's statement lists its newest
/// transactions by time, newest first.
pub proof fn lemma_statement_lists_newest(v: LedgerView, id: i32)
    requires
        v.well_formed(),
    ensures
        sorted_by_time(v.history(id)),
        lists_newest(v.statement(id), v.history(id)),
{
    lemma_history_sorted(v.transactions, id);
    lemma_newest_first_lists_newest(v.history(id));
}

/// After a transaction that the store accepts, the client has the new limit
/// and balance, and the transaction joins its history by its time. Where it
/// is not older than any earlier transaction of the client, it heads the
/// client's statement, followed by what the statement listed before, cut to
/// `STATEMENT_SIZE`.
pub proof fn lemma_statement_after_add(v: LedgerView, id: i32, core_txn: CoreTransaction, now: i64)
    requires
        v.well_formed(),
        v.add_result(id, core_txn) is Ok,
    ensures
        ({
            let info = v.add_result(id, core_txn)->Ok_0;
            let w = v.record(id, info, core_txn, now);
            let before = v.statement(id);
            let after = w.statement(id);
            let h = v.history(id);
            &&& w.clients.dom().contains(id)
            &&& w.clients[id] == info
            &&& w.history(id) == insert_by_time(h, Transaction::recorded(core_txn, now))
            &&& Transaction::recorded(core_txn, now).valor == core_txn.valor
            &&& Transaction::recorded(core_txn, now).tipo == core_txn.tipo
            &&& Transaction::recorded(core_txn, now).descricao == core_txn.descricao
            &&& Transaction::recorded(core_txn, now).realizada_em == now
            &&& (h.len() == 0 || h.last().realizada_em <= now) ==> {
                &&& w.history(id) == h.push(Transaction::recorded(core_txn, now))
                &&& after.len() == (if before.len() < STATEMENT_SIZE {
                    before.len() + 1
                } else {
                    STATEMENT_SIZE as nat
                })
                &&& after[0] == Transaction::recorded(core_txn, now)
                &&& forall|i: int| 1 <= i < after.len() ==> #[trigger] after[i] == before[i - 1]
            }
        }),
{
    let info = v.add_result(id, core_txn)->Ok_0;
    let t = Transaction::recorded(core_txn, now);
    lemma_history_of_insert(v.transactions, (id, t), id);
    let h = v.history(id);
    if h.len() == 0 || h.last().realizada_em <= now {
        assert(insert_by_time(h, t) == h.push(t));
    }
}

/// A transaction for client `id` changes no other client: neither its
/// limit and balance nor its transactions.
pub proof fn lemma_add_leaves_other_clients(
    v: LedgerView,
    id: i32,
    other: i32,
    core_txn: CoreTransaction,
    now: i64,
)
    requires
        v.well_formed(),
        v.add_result(id, core_txn) is Ok,
        other != id,
    ensures
        ({
            let w = v.record(id, v.add_result(id, core_txn)->Ok_0, core_txn, now);
            &&& w.clients.dom().contains(other) == v.clients.dom().contains(other)
            &&& w.clients[other] == v.clients[other]
            &&& w.history(other) == v.history(other)
            &&& w.statement(other) == v.statement(other)
        }),
{
    lemma_history_of_insert(v.transactions, (id, Transaction::recorded(core_txn, now)), other);
}

/// A transaction that the store accepts moves the client's balance by its
/// signed value, keeps its limit, and leaves the store well formed: every
/// balance within its limit and the transactions ordered by time.
pub proof fn lemma_add_keeps_limits(v: LedgerView, id: i32, core_txn: CoreTransaction, now: i64)
    requires
        v.well_formed(),
        v.add_result(id, core_txn) is Ok,
    ensures
        ({
            let info = v.add_result(id, core_txn)->Ok_0;
            &&& info.saldo == v.clients[id].saldo + core_txn.signed_value()
            &&& info.limite == v.clients[id].limite
            &&& v.record(id, info, core_txn, now).well_formed()
        }),
{
    let info = v.add_result(id, core_txn)->Ok_0;
    let w = v.record(id, info, core_txn, now);
    assert forall|k: i32| #[trigger] w.clients.dom().contains(k) implies w.clients[k].within_limit() by {
        if k != id {
            assert(v.clients.dom().contains(k));
        }
    }
    lemma_insert_row_sorted(v.transactions, (id, Transaction::recorded(core_txn, now)));
}

/// A client's row in the store.
#[derive(Clone, Copy)]
struct ClientRow {
    id: i32,
    info: ClientInfo,
}

/// The limits and balances of `rows`, by client id.
spec fn client_map(rows: Seq<ClientRow>) -> Map<i32, ClientInfo>
    decreases rows.len(),
{
    if rows.len() == 0 {
        Map::empty()
    } else {
        client_map(rows.drop_last()).insert(rows.last().id, rows.last().info)
    }
}

spec fn ids_distinct(rows: Seq<ClientRow>) -> bool {
    forall|i: int, j: int| 0 <= i < j < rows.len() ==> rows[i].id != rows[j].id
}

proof fn lemma_client_map_absent(rows: Seq<ClientRow>, id: i32)
    requires
        forall|i: int| 0 <= i < rows.len() ==> rows[i].id != id,
    ensures
        !client_map(rows).dom().contains(id),
    decreases rows.len(),
{
    if rows.len() > 0 {
        lemma_client_map_absent(rows.drop_last(), id);
    }
}

proof fn lemma_client_map_at(rows: Seq<ClientRow>, i: int)
    requires
        ids_distinct(rows),
        0 <= i < rows.len(),
    ensures
        client_map(rows).dom().contains(rows[i].id),
        client_map(rows)[rows[i].id] == rows[i].info,
    decreases rows.len(),
{
    if i < rows.len() - 1 {
        lemma_client_map_at(rows.drop_last(), i);
    }
}

proof fn lemma_client_map_domain(rows: Seq<ClientRow>, id: i32)
    requires
        client_map(rows).dom().contains(id),
    ensures
        exists|i: int| 0 <= i < rows.len() && rows[i].id == id,
    decreases rows.len(),
{
    if rows.len() > 0 && rows.last().id != id {
        lemma_client_map_domain(rows.drop_last(), id);
        let i = choose|i: int| 0 <= i < rows.drop_last().len() && rows.drop_last()[i].id == id;
        assert(rows[i].id == id);
    }
}

proof fn lemma_client_map_update(rows: Seq<ClientRow>, i: int, info: ClientInfo)
    requires
        ids_distinct(rows),
        0 <= i < rows.len(),
    ensures
        client_map(rows.update(i, ClientRow { id: rows[i].id, info })) == client_map(rows).insert(
            rows[i].id,
            info,
        ),
    decreases rows.len(),
{
    let new_rows = rows.update(i, ClientRow { id: rows[i].id, info });
    if i == rows.len() - 1 {
        assert(new_rows.drop_last() =~= rows.drop_last());
        assert(client_map(new_rows) =~= client_map(rows).insert(rows[i].id, info));
    } else {
        lemma_client_map_update(rows.drop_last(), i, info);
        assert(new_rows.drop_last() =~= rows.drop_last().update(i, ClientRow { id: rows[i].id, info }));
        assert(rows.last().id != rows[i].id);
        assert(client_map(new_rows) =~= client_map(rows).insert(rows[i].id, info));
    }
}

proof fn lemma_history_split(a: Seq<(i32, Transaction)>, b: Seq<(i32, Transaction)>, id: i32)
    ensures
        history_of(a + b, id) == history_of(a, id) + history_of(b, id),
    decreases b.len(),
{
    if b.len() == 0 {
        assert(a + b =~= a);
        assert(history_of(a, id) + history_of(b, id) =~= history_of(a, id));
    } else {
        lemma_history_split(a, b.drop_last(), id);
        assert((a + b).drop_last() =~= a + b.drop_last());
        assert(history_of(a + b, id) =~= history_of(a, id) + history_of(b, id));
    }
}

/// A verified model of the account store: the clients' rows and the
/// transaction rows, written under the store's rules.
pub struct Ledger {
    clients: Vec<ClientRow>,
    transactions: Vec<(i32, Transaction)>,
}

impl View for Ledger {
    type V = LedgerView;

    closed spec fn view(&self) -> LedgerView {
        LedgerView { clients: client_map(self.clients@), transactions: self.transactions@ }
    }
}

impl Ledger {
    #[verifier::type_invariant]
    spec fn inv(self) -> bool {
        &&& ids_distinct(self.clients@)
        &&& forall|i: int| 0 <= i < self.clients@.len() ==> (#[trigger] self.clients@[i]).info.within_limit()
        &&& rows_by_time(self.transactions@)
    }

    proof fn lemma_view_well_formed(&self)
        requires
            self.inv(),
        ensures
            self@.well_formed(),
    {
        assert forall|id: i32| #[trigger] self@.clients.dom().contains(id) implies self@.clients[id].within_limit() by {
            lemma_client_map_domain(self.clients@, id);
            let i = choose|i: int| 0 <= i < self.clients@.len() && self.clients@[i].id == id;
            lemma_client_map_at(self.clients@, i);
        }
    }

    /// A model with no clients and no transactions.
    pub fn new() -> (r: Ledger)
        ensures
            r@.well_formed(),
            r@.clients == Map::<i32, ClientInfo>::empty(),
            r@.transactions == Seq::<(i32, Transaction)>::empty(),
    {
        Ledger { clients: Vec::new(), transactions: Vec::new() }
    }

    /// The position of client `id`'s row, if it has one.
    fn find(&self, id: i32) -> (r: Option<usize>)
        ensures
            match r {
                Some(i) => i < self.clients@.len() && self.clients@[i as int].id == id,
                None => forall|i: int| 0 <= i < self.clients@.len() ==> self.clients@[i].id != id,
            },
    {
        let mut i: usize = 0;
        while i < self.clients.len()
            invariant
                i <= self.clients@.len(),
                forall|j: int| 0 <= j < i ==> self.clients@[j].id != id,
            decreases self.clients@.len() - i,
        {
            if self.clients[i].id == id {
                return Some(i);
            }
            i = i + 1;
        }
        None
    }

    /// The limit and balance of client `id`, or `None` where there is no
    /// such client.
    pub fn client_info(&self, id: i32) -> (r: Option<ClientInfo>)
        ensures
            r == (if self@.clients.dom().contains(id) {
                Some(self@.clients[id])
            } else {
                None::<ClientInfo>
            }),
            r matches Some(info) ==> info.within_limit(),
            self@.well_formed(),
    {
        proof {
            use_type_invariant(self);
            self.lemma_view_well_formed();
        }
        match self.find(id) {
            Some(i) => {
                proof {
                    lemma_client_map_at(self.clients@, i as int);
                }
                Some(self.clients[i].info)
            },
            None => {
                proof {
                    lemma_client_map_absent(self.clients@, id);
                }
                None
            },
        }
    }

    /// Opens the account of client `id` with limit `limite` and balance
    /// `saldo`. The store refuses an id that it holds already, or a balance
    /// below `-limite`, with `DbError::Database`, and is then unchanged.
    pub fn open_account(&mut self, id: i32, limite: i32, saldo: i32) -> (r: Result<(), DbError>)
        ensures
            r is Err <==> (old(self)@.clients.dom().contains(id) || saldo < -limite),
            r is Err ==> r == Err::<(), DbError>(DbError::Database) && final(self)@ == old(self)@,
            r is Ok ==> final(self)@ == (LedgerView {
                clients: old(self)@.clients.insert(id, ClientInfo { limite, saldo }),
                transactions: old(self)@.transactions,
            }),
            final(self)@.well_formed(),
    {
        proof {
            use_type_invariant(&*self);
            self.lemma_view_well_formed();
        }
        match self.find(id) {
            Some(i) => {
                proof {
                    lemma_client_map_at(self.clients@, i as int);
                }
                Err(DbError::Database)
            },
            None => {
                proof {
                    lemma_client_map_absent(self.clients@, id);
                }
                if (saldo as i64) < -(limite as i64) {
                    return Err(DbError::Database);
                }
                let row = ClientRow { id, info: ClientInfo { limite, saldo } };
                let mut rows: Vec<ClientRow> = Vec::new();
                std::mem::swap(&mut rows, &mut self.clients);
                let ghost old_rows = rows@;
                rows.push(row);
                proof {
                    assert(rows@.drop_last() =~= old_rows);
                }
                self.clients = rows;
                proof {
                    use_type_invariant(&*self);
                    self.lemma_view_well_formed();
                }
                Ok(())
            },
        }
    }

    /// Makes transaction `core_txn` for client `id` at time `now`
    /// (microseconds since the Unix epoch): updates the client's balance and
    /// records the transaction, both or neither.
    ///
    /// The store answers `DbError::RowNotFound` where there is no client
    /// `id`, and `DbError::Database` where the transaction breaks a rule (see
    /// `transaction_outcome`); it is then unchanged.
    pub fn add_transaction(&mut self, core_txn: &CoreTransaction, id: i32, now: i64) -> (r: Result<
        ClientInfo,
        DbError,
    >)
        ensures
            r == old(self)@.add_result(id, *core_txn),
            !old(self)@.clients.dom().contains(id) ==> r == Err::<ClientInfo, DbError>(
                DbError::RowNotFound,
            ),
            old(self)@.clients.dom().contains(id) ==> r == transaction_outcome(
                old(self)@.clients[id],
                *core_txn,
            ),
            r matches Ok(info) ==> final(self)@ == old(self)@.record(id, info, *core_txn, now),
            r matches Ok(info) ==> final(self)@.clients == old(self)@.clients.insert(id, info),
            r is Err ==> final(self)@ == old(self)@,
            final(self)@.well_formed(),
    {
        proof {
            use_type_invariant(&*self);
            self.lemma_view_well_formed();
        }
        let i = match self.find(id) {
            Some(i) => i,
            None => {
                proof {
                    lemma_client_map_absent(self.clients@, id);
                }
                return Err(DbError::RowNotFound);
            },
        };
        proof {
            lemma_client_map_at(self.clients@, i as int);
        }
        let info = match apply_transaction(self.clients[i].info, core_txn) {
            Ok(info) => info,
            Err(e) => {
                return Err(e);
            },
        };
        let txn = Transaction::record(core_txn, now);
        let mut rows: Vec<ClientRow> = Vec::new();
        std::mem::swap(&mut rows, &mut self.clients);
        let ghost old_rows = rows@;
        rows.set(i, ClientRow { id, info });
        proof {
            lemma_client_map_update(old_rows, i as int, info);
            assert forall|a: int, b: int| 0 <= a < b < rows@.len() implies rows@[a].id
                != rows@[b].id by {
                assert(old_rows[a].id != old_rows[b].id);
            }
        }
        self.clients = rows;
        let mut records: Vec<(i32, Transaction)> = Vec::new();
        std::mem::swap(&mut records, &mut self.transactions);
        let ghost old_records = records@;
        // The new row goes after every row that is not newer than it.
        let mut p: usize = records.len();
        while p > 0 && records[p - 1].1.realizada_em > now
            invariant
                records@ == old_records,
                p <= records@.len(),
                forall|k: int|
                    p <= k < records@.len() ==> #[trigger] records@[k].1.realizada_em > now,
            decreases p,
        {
            p = p - 1;
        }
        proof {
            lemma_insert_row_at(old_records, (id, txn), p as int);
            lemma_insert_row_sorted(old_records, (id, txn));
        }
        records.insert(p, (id, txn));
        self.transactions = records;
        proof {
            use_type_invariant(&*self);
            self.lemma_view_well_formed();
        }
        Ok(info)
    }

    /// The latest transactions of client `id`, newest first.
    fn latest_transactions(&self, id: i32) -> (r: Vec<Transaction>)
        ensures
            r@ == self@.statement(id),
    {
        let rows_len = self.transactions.len();
        let ghost rows = self.transactions@;
        let mut result: Vec<Transaction> = Vec::new();
        let mut j: usize = rows_len;
        assert(rows.subrange(j as int, rows_len as int) =~= Seq::<(i32, Transaction)>::empty());
        while j > 0 && result.len() < STATEMENT_SIZE
            invariant
                rows == self.transactions@,
                rows_len == rows.len(),
                j <= rows_len,
                result@.len() <= STATEMENT_SIZE,
                result@.len() == history_of(rows.subrange(j as int, rows_len as int), id).len(),
                forall|k: int|
                    0 <= k < result@.len() ==> #[trigger] result@[k] == history_of(
                        rows.subrange(j as int, rows_len as int),
                        id,
                    )[result@.len() - 1 - k],
            decreases j,
        {
            let ghost tail = rows.subrange(j as int, rows_len as int);
            let ghost h = history_of(tail, id);
            j = j - 1;
            let ghost head = seq![rows[j as int]];
            proof {
                assert(rows.subrange(j as int, rows_len as int) =~= head + tail);
                lemma_history_split(head, tail, id);
                assert(head.drop_last() =~= Seq::<(i32, Transaction)>::empty());
                assert(history_of(head.drop_last(), id) =~= Seq::<Transaction>::empty());
                assert(head.last() == rows[j as int]);
            }
            if self.transactions[j].0 == id {
                let t = self.transactions[j].1.clone();
                let ghost prev = result@;
                result.push(t);
                proof {
                    let h2 = history_of(rows.subrange(j as int, rows_len as int), id);
                    assert(history_of(head, id) =~= seq![rows[j as int].1]);
                    assert(h2 =~= seq![rows[j as int].1] + h);
                    assert forall|k: int| 0 <= k < result@.len() implies #[trigger] result@[k]
                        == h2[result@.len() - 1 - k] by {
                        if k < prev.len() {
                            assert(prev[k] == h[prev.len() - 1 - k]);
                        }
                    }
                }
            } else {
                proof {
                    let h2 = history_of(rows.subrange(j as int, rows_len as int), id);
                    assert(history_of(head, id) =~= Seq::<Transaction>::empty());
                    assert(h2 =~= h);
                }
            }
        }
        proof {
            let tail = rows.subrange(j as int, rows_len as int);
            let front = rows.subrange(0, j as int);
            assert(rows =~= front + tail);
            lemma_history_split(front, tail, id);
            let h = history_of(rows, id);
            let ht = history_of(tail, id);
            if j == 0 {
                assert(front.len() == 0);
                assert(history_of(front, id) =~= Seq::<Transaction>::empty());
                assert(h =~= ht);
            }
            assert(result@ =~= newest_first(h));
        }
        result
    }

    /// The account summary of client `id` at time `now` (microseconds since
    /// the Unix epoch): its balance, the time, its limit and its latest
    /// transactions, newest first. Answers `DbError::RowNotFound` where
    /// there is no client `id`.
    pub fn get_account_summary(&self, id: i32, now: i64) -> (r: Result<AccountSummary, DbError>)
        ensures
            r is Err <==> !self@.clients.dom().contains(id),
            r is Err ==> r == Err::<AccountSummary, DbError>(DbError::RowNotFound),
            r matches Ok(summary) ==> {
                &&& summary.saldo == (AccountSummaryInfo {
                    total: self@.clients[id].saldo,
                    data_extrato: now,
                    limite: self@.clients[id].limite,
                })
                &&& summary.ultimas_transacoes@ == self@.statement(id)
                &&& lists_newest(summary.ultimas_transacoes@, self@.history(id))
                &&& summary.saldo.total >= -summary.saldo.limite
            },
            self@.well_formed(),
    {
        proof {
            use_type_invariant(self);
            self.lemma_view_well_formed();
            lemma_statement_lists_newest(self@, id);
        }
        match self.client_info(id) {
            None => Err(DbError::RowNotFound),
            Some(info) => {
                let ultimas_transacoes = self.latest_transactions(id);
                Ok(
                    AccountSummary {
                        saldo: AccountSummaryInfo {
                            total: info.saldo,
                            data_extrato: now,
                            limite: info.limite,
                        },
                        ultimas_transacoes,
                    },
                )
            },
        }
    }

    /// The bank statement of client `id`: its latest transactions, newest
    /// first. Answers `DbError::RowNotFound` where there is no client `id`.
    pub fn get_bank_statement(&self, id: i32) -> (r: Result<Vec<Transaction>, DbError>)
        ensures
            r is Err <==> !self@.clients.dom().contains(id),
            r is Err ==> r == Err::<Vec<Transaction>, DbError>(DbError::RowNotFound),
            r matches Ok(statement) ==> statement@ == self@.statement(id) && lists_newest(
                statement@,
                self@.history(id),
            ),
            self@.well_formed(),
    {
        proof {
            use_type_invariant(self);
            self.lemma_view_well_formed();
            lemma_statement_lists_newest(self@, id);
        }
        match self.client_info(id) {
            None => Err(DbError::RowNotFound),
            Some(_) => Ok(self.latest_transactions(id)),
        }
    }
}

} // verus!
