//! The values that the service reads and answers with.
use vstd::prelude::*;

verus! {

/// Longest description, in bytes, that a transaction may carry.
pub const MAX_DESCRIPTION_BYTES: usize = 10;

/// Number of transactions that an account summary lists.
pub const STATEMENT_SIZE: usize = 10;

/// Length in bytes of the UTF-8 encoding of a text.
pub open spec fn byte_len(text: Seq<char>) -> nat {
    vstd::utf8::encode_utf8(text).len()
}

/// A text takes at least one byte and at most four bytes per character.
pub proof fn lemma_byte_len_bounds(text: Seq<char>)
    ensures
        text.len() <= byte_len(text) <= 4 * text.len(),
    decreases text.len(),
{
    if text.len() > 0 {
        lemma_byte_len_bounds(text.drop_first());
    }
}

/// A transaction type of `"c"`: a credit, which adds to the balance.
pub open spec fn is_credit_kind(tipo: Seq<char>) -> bool {
    tipo == seq!['c']
}

/// A transaction type of `"d"`: a debit, which subtracts from the balance.
pub open spec fn is_debit_kind(tipo: Seq<char>) -> bool {
    tipo == seq!['d']
}

/// Whether `text` is the one-character text `c`.
pub fn is_single_char(text: &str, c: char) -> (r: bool)
    ensures
        r == (text@ == seq![c]),
{
    if text.unicode_len() == 1 {
        let first = text.get_char(0);
        if first == c {
            assert(text@ =~= seq![c]);
            true
        } else {
            false
        }
    } else {
        false
    }
}

/// Only the information that a client provides to write a transaction.
#[derive(Debug, PartialEq, Eq)]
pub struct CoreTransaction {
    pub valor: i32,
    pub tipo: String,
    pub descricao: String,
}

impl CoreTransaction {
    /// The rule that a transaction request must meet: a non-negative value, a
    /// type of `"c"` or `"d"`, and a description of 1 to 10 bytes.
    pub open spec fn is_valid(self) -> bool {
        &&& self.valor >= 0
        &&& (is_credit_kind(self.tipo@) || is_debit_kind(self.tipo@))
        &&& 1 <= byte_len(self.descricao@) <= MAX_DESCRIPTION_BYTES
    }

    /// What the transaction does to a balance: `+valor` for a credit and
    /// `-valor` otherwise.
    pub open spec fn signed_value(self) -> int {
        if is_credit_kind(self.tipo@) {
            self.valor as int
        } else {
            -(self.valor as int)
        }
    }

    /// Whether this transaction meets `is_valid`.
    pub fn validate(&self) -> (r: bool)
        ensures
            r == self.is_valid(),
            r == (self.valor >= 0 && (self.tipo@ == seq!['c'] || self.tipo@ == seq!['d'])
                && 1 <= vstd::utf8::encode_utf8(self.descricao@).len() <= 10),
    {
        proof {
            lemma_valid_request(*self);
        }
        if self.valor < 0 {
            return false;
        }
        let tipo = self.tipo.as_str();
        if !is_single_char(tipo, 'c') && !is_single_char(tipo, 'd') {
            return false;
        }
        let descricao = self.descricao.as_str();
        let chars = descricao.unicode_len();
        proof {
            lemma_byte_len_bounds(descricao@);
        }
        if chars == 0 || chars > MAX_DESCRIPTION_BYTES {
            return false;
        }
        let len = descricao.len();
        1 <= len && len <= MAX_DESCRIPTION_BYTES
    }

    /// Whether this transaction is a credit.
    pub fn is_credit(&self) -> (r: bool)
        ensures
            r == is_credit_kind(self.tipo@),
    {
        is_single_char(self.tipo.as_str(), 'c')
    }
}

impl Clone for CoreTransaction {
    fn clone(&self) -> (r: Self)
        ensures
            r == *self,
    {
        CoreTransaction {
            valor: self.valor,
            tipo: self.tipo.clone(),
            descricao: self.descricao.clone(),
        }
    }
}

/// A request is valid exactly when its value is not negative, its type is
/// `"c"` or `"d"`, and its description takes 1 to 10 bytes of UTF-8.
pub proof fn lemma_valid_request(core_txn: CoreTransaction)
    ensures
        core_txn.is_valid() <==> (core_txn.valor >= 0 && (core_txn.tipo@ == seq!['c']
            || core_txn.tipo@ == seq!['d']) && 1 <= vstd::utf8::encode_utf8(core_txn.descricao@).len()
            <= 10),
{
}

/// A credit (`"c"`) moves a balance up by its value; a debit (`"d"`) moves it
/// down by its value.
pub proof fn lemma_signed_value(core_txn: CoreTransaction)
    ensures
        core_txn.tipo@ == seq!['c'] ==> core_txn.signed_value() == core_txn.valor,
        core_txn.tipo@ == seq!['d'] ==> core_txn.signed_value() == -core_txn.valor,
{
    assert(seq!['c'] != seq!['d']) by {
        assert(seq!['c'][0] != seq!['d'][0]);
    }
}

/// The record that a request leaves carries the request's value, type and
/// description as given, and the time at which it was made.
pub proof fn lemma_recorded_fields(core_txn: CoreTransaction, now: i64)
    ensures
        Transaction::recorded(core_txn, now).valor == core_txn.valor,
        Transaction::recorded(core_txn, now).tipo == core_txn.tipo,
        Transaction::recorded(core_txn, now).descricao == core_txn.descricao,
        Transaction::recorded(core_txn, now).realizada_em == now,
{
}

/// Information associated to a client: its credit limit and its balance.
#[derive(Debug, Clone, Copy, PartialEq, Eq, Structural)]
pub struct ClientInfo {
    pub limite: i32,
    pub saldo: i32,
}

impl ClientInfo {
    /// The balance respects the limit: it never goes below `-limite`.
    pub open spec fn within_limit(self) -> bool {
        self.saldo >= -self.limite
    }
}

/// The answer of the first version of the service to a transaction: the
/// client's limit and its updated balance.
#[derive(Debug, Clone, Copy, PartialEq, Eq, Structural)]
pub struct RespTransaction {
    pub limit: i32,
    pub balance: i32,
}

impl From<ClientInfo> for RespTransaction {
    fn from(info: ClientInfo) -> (r: RespTransaction) {
        RespTransaction { limit: info.limite, balance: info.saldo }
    }
}

impl vstd::std_specs::convert::FromSpecImpl<ClientInfo> for RespTransaction {
    open spec fn obeys_from_spec() -> bool {
        true
    }

    open spec fn from_spec(info: ClientInfo) -> RespTransaction {
        RespTransaction { limit: info.limite, balance: info.saldo }
    }
}

/// A recorded transaction. `realizada_em` is the time at which it was made,
/// in microseconds since the Unix epoch.
#[derive(Debug, PartialEq, Eq)]
pub struct Transaction {
    pub valor: i32,
    pub tipo: String,
    pub descricao: String,
    pub realizada_em: i64,
}

impl Transaction {
    /// The record that a transaction request leaves when it is made at `now`.
    pub open spec fn recorded(core_txn: CoreTransaction, now: i64) -> Transaction {
        Transaction {
            valor: core_txn.valor,
            tipo: core_txn.tipo,
            descricao: core_txn.descricao,
            realizada_em: now,
        }
    }

    /// Builds the record of `core_txn` made at `now`.
    pub fn record(core_txn: &CoreTransaction, now: i64) -> (r: Transaction)
        ensures
            r == Transaction::recorded(*core_txn, now),
            r.valor == core_txn.valor,
            r.tipo == core_txn.tipo,
            r.descricao == core_txn.descricao,
            r.realizada_em == now,
    {
        Transaction {
            valor: core_txn.valor,
            tipo: core_txn.tipo.clone(),
            descricao: core_txn.descricao.clone(),
            realizada_em: now,
        }
    }
}

impl Clone for Transaction {
    fn clone(&self) -> (r: Self)
        ensures
            r == *self,
    {
        Transaction {
            valor: self.valor,
            tipo: self.tipo.clone(),
            descricao: self.descricao.clone(),
            realizada_em: self.realizada_em,
        }
    }
}

/// Information related to a client's account: its balance, the time of the
/// statement (microseconds since the Unix epoch) and its limit.
#[derive(Debug, Clone, Copy, PartialEq, Eq, Structural)]
pub struct AccountSummaryInfo {
    pub total: i32,
    pub data_extrato: i64,
    pub limite: i32,
}

/// A client's balance and its latest transactions, newest first.
#[derive(Debug, PartialEq, Eq)]
pub struct AccountSummary {
    pub saldo: AccountSummaryInfo,
    pub ultimas_transacoes: Vec<Transaction>,
}

/// Errors that the account store answers with.
#[derive(Debug, Clone, Copy, PartialEq, Eq, Structural)]
pub enum DbError {
    /// No client has the given id.
    RowNotFound,
    /// The write breaks a rule of the store: the limit, the range of a
    /// balance, or the form of a transaction.
    Database,
    /// Any other failure of the store.
    Other,
}

} // verus!
