# sv2_tx_generator

Sends Bitcoin transactions to a node at regular intervals, out of a wallet that is derived from a
single BIP39 seed phrase. Meant for development against a node that should see traffic.

The library decides everything; it is written in Rust and verified with Verus. The program around
it talks to the node.

## How it works

A *tick* takes these steps:

1. The UTXO set of the node is scanned for both keychains of the wallet (`scantxoutset`, which a
   pruned node can do).
2. The mempool is read. Without the whole of it nothing protects against double spends, so the
   tick is given up.
3. A fresh in-memory BDK wallet is filled with the confirmed outputs, their transactions and the
   blocks that confirm them. What was fetched before is not fetched again, as long as the block
   stands at which the last scan ended. If the scan ends higher, the node is asked for the block at
   that height; if it ends lower, or in another block at that height, or if the node does not name
   the same block, everything confirmed is fetched again.
4. The wallet takes in the mempool, so that unconfirmed change can be spent.
5. One transaction is built in unit mode, or a batch of them in batch mode. None spends what the
   mempool spends, or what another one of the batch spends.
6. The transactions are broadcast.

`TxGenerator::run_tick` is a state machine over these steps. It takes a `Stage` and an `Event`, and
gives the next `Stage` and the `Action` that it wants done.

## Layout

| Path | Contents |
|---|---|
| `src/config.rs` | configuration and its validation |
| `src/derivation.rs` | descriptors and addresses |
| `src/scan.rs` | the scan of the UTXO set |
| `src/mempool.rs` | the reading of the mempool |
| `src/caches.rs` | what is remembered from tick to tick |
| `src/plan.rs` | what a wallet needs, and how it is filled |
| `src/wallet.rs` | the wallet of a tick |
| `src/bdk.rs` | the boundary to BDK |
| `src/batch.rs` | the transactions of a tick |
| `src/tick.rs`, `src/generator.rs` | the course of a tick |
| `src/laws.rs`, `src/repeats.rs` | what holds of the whole, and of doing a thing twice |
| `src/types.rs`, `src/table.rs`, `src/text.rs`, `src/tx.rs` | plain values |
| `app/` | the program: configuration file, RPC, logging |

## What is trusted

Calls into `bdk_wallet`, `bitcoin`, `bip39` and `rusqlite` are trusted to do what the contracts at
the functions marked `#[verifier::external_body]` say. Their doc comments name the calls. BDK's
choice of coins is random; what is proved of a transaction holds of every choice.

## Derivation paths

```
receive keychain         m/84'/coin'/sender'/0/*
change keychain          m/84'/coin'/sender'/1/*     if the change stays in the sender's account
                         m/84'/coin'/change'/0/*     otherwise
receiver                 m/84'/coin'/receiver'/0/0
change                   m/84'/coin'/change'/0/0
```

The coin type is 0 on mainnet and 1 elsewhere.

## Configuration

```toml
interval_secs = 30
mode = "batch"               # or "unit"
batch_size = 10              # in batch mode
seed_phrase = "abandon abandon abandon abandon abandon abandon abandon abandon abandon abandon abandon about"
sender_account_index = 0
receiver_account_index = 1
# change_account_index = 0   # the sender's account when omitted
amount_sat = 1000
fee_rate_sat_per_vb = 5
network = "regtest"          # or "bitcoin", "testnet", "signet"
rpc_address = "127.0.0.1"
rpc_port = 18443
rpc_username = "user"
rpc_password = "password"
```
