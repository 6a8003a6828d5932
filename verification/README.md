# auria-settlement

Usage accounting and settlement for a runtime that serves requests with expert
models. A node records a receipt for each request, builds a Merkle tree over its
receipts, and settles them under the root of the tree; it opens and settles
payments, holds funds in escrow, works out rewards and royalties, and hands
batches of receipts to a settlement contract.

```
receipts -> Merkle tree -> root submission -> distribution
```

## Layout

- `src/` is the library, verified with Verus.
  - `types`: identifiers, receipts and errors.
  - `text`: decimal and hexadecimal text.
  - `json`: the JSON form in which a receipt is hashed.
  - `merkle`: trees and inclusion proofs.
  - `client`: receipts, settlement, payments and escrow of one node.
  - `rewards`, `royalty`: what nodes and experts are owed.
  - `blockchain`: batches of receipts on their way to a settlement contract.
  - `laws`: what holds across operations.
  - `external`: calls into other crates and the system, with what is taken on
    trust of each.
- `app/` shares the library between tasks, talks to the chain, and computes with
  the rates that are floating-point numbers.
- `tests/` runs the library.

## Use

```rust
use auria_settlement::{RequestId, SettlementClient, SettlementConfig, UsageStats};

let mut client = SettlementClient::new(SettlementConfig::default());
let usage = UsageStats { tokens_generated: 100, tokens_processed: 50 };
let receipt = client.generate_receipt(RequestId([1; 16]), vec![], usage)?;
let root = client.build_merkle_tree()?;
let settlement = client.submit_settlement(root)?;
```

Operations that need the time come in two forms: one reads the system clock, and
one, whose name ends in `_at`, takes the time as an argument.
