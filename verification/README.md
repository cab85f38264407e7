# sei-nova

Tracks wallets on the Sei chain: the NFTs they hold, trade and have realised
income on, and the tokens they hold and swap. Transactions come in live from a
node's websocket, from a block explorer scan, or from an account's listed
history; they are read into NFT and swap records and kept per wallet in
Postgres, and an HTTPS API shows each wallet's holdings, income, top NFTs and
trading statistics.

## Layout

- `src/` is the library, verified with Verus: every rule that decides what a
  transaction records, what the store keeps after an update, and what the API
  shows, each with a contract.
  - `model`: the records (transactions, events, NFT and swap records).
  - `text`, `time`, `select`, `assoc`: amounts and numbers in text, RFC 3339
    times (read with `chrono`), attribute lookups, keyed lists.
  - `nft_parse`, `token_swap`: reading NFT trades and swaps out of logs.
  - `routing`, `history`, `scan`: where a transaction goes and which store
    updates it asks for, for the live searcher, the account history and the
    block scanner.
  - `store`: what a wallet's histories, holdings and a collection's listings
    become after an update.
  - `stats`, `holdings`, `income`, `trade_info`, `tokens`: what the API shows.
- `app/` is the program around it: HTTP and websocket I/O, the database, the
  JSON forms of the records, and the few floating-point figures (marketplace
  fees, price fluctuations).
- `tests/` runs the library on concrete inputs.

Run the API with `app backend`, the live searcher with `app searcher`, the
block scanner with `app scan`, and the synchronisations with
`app sync-holding` and `app sync-address <wallet>`.
