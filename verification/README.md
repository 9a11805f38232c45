# shardmeld

Reconstruct first. Transfer only what's missing.

ShardMeld rebuilds a target file from content-defined chunks already held in
locally authorized files, maps that local coverage onto standard BitTorrent v1
pieces, fetches only the missing blocks, and seeds verified pieces. Beside it
sits the SMD devnet economy: wallets, signed transfers, contribution receipts,
reward mining under a fixed supply cap, and an auditable ledger.

## Layout

- `src/` is the library, written in Verus. Data formats (bencode, torrent
  metadata, tracker replies, magnet links, descriptors, amounts), the chunker,
  the piece scheduler and block assembly, the bridge from chunks to pieces, and
  the ledger's accounting rules carry contracts that Verus proves. Hashing,
  signatures, bech32 and URL parsing are called in their crates through small
  trusted wrappers whose contracts name what the crates compute.
- `tests/` runs the library with the real crates linked.
- `app/` is the `shardmeld` command line: argument handling, files, sockets,
  the SQLite chunk index and JSON reports. The decisions it acts on (which
  piece a peer fetches, whether a verified piece is committed or cancelled,
  which tracker is asked next, which peers a tier offers and which trackers
  get a stopped announce, what a seed answers a peer, how long an upload
  pauses under a rate limit, whether a resume state belongs to a transfer,
  how a piece is rebuilt from chunks) come from the library; what it keeps is
  the plumbing around them: peer workers (up to four at a time) sharing the
  scheduler, loops over sockets and files, the resume pair beside a partial
  output, wallet storage in the Keychain or a test file, timeouts and error
  reports.

## Checks worth knowing

- `ledger::law_book_accounting`: balances always add up to the minted supply,
  which stays within 12,000,000 SMD.
- `ledger::law_transfer_conserves_supply`, `law_no_overdraft`,
  `law_transfer_not_replayed`, `law_reserve_never_decreases`,
  `law_only_rewards_mint`, `law_receipt_not_taken_twice`, `law_address_cap`.
- `emission::law_quote_never_crosses_cap` and the phase and subsidy laws.
- `audit::law_key_order_unique`: the audit orders rows one way only, by key
  and then by position, so its state root is fixed by the book.
- `chunker::law_chunks_cover_stream` and `law_chunk_sizes`.
- `amount::law_text_round_trip`, `amount::law_amount_text` (which texts are
  amounts, and their values) and `codec::law_hex_round_trip`.
- `ledger::law_epoch_mined_once`: once an epoch is mined, mining it again
  rewards nothing.
- `metadata::law_info_hash_of_info_bytes`: the info-hash depends only on the
  info dictionary's bytes.
- `peer::law_claim_keeps_commits` and `peer::law_finish_commits_once`: across
  all the workers of a fetch, only the first verified copy of a piece is
  committed.
- `devnet::run_devnet_scenario`: on a fresh devnet book the scenario succeeds
  with Alice at 20 SMD, Bob at 3 SMD and the reserve 2 SMD up, given what
  bech32 and SHA-256 decide: two distinct addresses and two distinct
  transfer ids.
