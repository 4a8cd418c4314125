# netabase_redb_txn

Transactions over a [redb](https://docs.rs/redb) database that stores models.
A model has a main table, which maps each primary key to the stored form of
its entry, and four lists of multimap tables (secondary, blob, relational,
subscription) that hold the key-value pairs the entry lists as its index
entries.

The library is written in Verus; every function in `src/` has a contract
that Verus checks, except the thin wrappers around redb calls in
`src/storage.rs`, whose contracts state what redb's source shows.

- `relational.rs`: a model's table names and the permissions that decide,
  in a write transaction, whether a relational table may be written.
- `tables.rs`: a model's open tables, each with its access, and the plan
  that `open_model_tables` follows.
- `codec.rs`: the stored form of an entry, with the proof that decoding
  gives back what encoding stored.
- `crud.rs`: create, read, update, delete and list on open tables.
- `laws.rs`: what a read gives back after each write, what a delete undoes,
  and which operations keep the index tables consistent.
- `transaction.rs`: read and write transactions, opening tables, running
  code against the raw redb transaction, committing, and the model
  operations.
