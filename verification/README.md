# backend_showdown

A bank-account service for the 2024 Q1 backend showdown: clients with a credit
limit and a balance, transactions (`"c"` credits, `"d"` debits), and an account
summary with the latest ten transactions.

- `src/model.rs`: the values (requests, client information, records, summaries)
  and the request rule.
- `src/ledger.rs`: the rules of the account store (what a transaction does to a
  balance, when the store refuses it, which transactions a statement lists) and
  a verified model of the store, `Ledger`, that the tests run, with the laws
  that tie its operations together.
- `src/api.rs`: the service's answers: request checks and the HTTP status of each
  store error.
- `src/v1.rs`: the first version's shapes (`txn_*` fields, statement entries with
  the client's id) over the same model.
- `app/`: the HTTP server (axum) over a Postgres store (sqlx). It reads and writes
  rows; the rules of a write, the order of a statement and the status of each
  error come from the library. Its summary query picks the client's ten newest
  rows, and its handlers run the request check, the store and the error mapping
  in the order that `api::add_transaction` states for the model.
