//! Rewards of nodes for the tokens that their receipts record.
use crate::external::hex_encode;
use crate::types::{ReceiptView, UsageReceipt};
use vstd::prelude::*;

verus! {

/// The reward for one receipt at the given stake.
pub open spec fn reward(receipt: ReceiptView, node_stake: u64) -> int {
    (receipt.token_count * 1000) * (node_stake / 1000)
}

/// The key under which the rewards of a receipt are added up.
pub open spec fn node_key(receipt: ReceiptView) -> Seq<char> {
    crate::text::hex_text(receipt.request_id.0@)
}

/// What stands under `key`, or nothing.
pub open spec fn reward_under(rewards: Map<Seq<char>, int>, key: Seq<char>) -> int {
    if rewards.contains_key(key) {
        rewards[key]
    } else {
        0
    }
}

/// The rewards for `receipts`, added up by key.
pub open spec fn node_rewards(receipts: Seq<ReceiptView>, node_stake: u64) -> Map<Seq<char>, int>
    decreases receipts.len(),
{
    if receipts.len() == 0 {
        Map::empty()
    } else {
        let before = node_rewards(receipts.drop_last(), node_stake);
        let key = node_key(receipts.last());
        before.insert(key, reward_under(before, key) + reward(receipts.last(), node_stake))
    }
}

/// The rewards for `receipts`, added up.
pub open spec fn total_reward(receipts: Seq<ReceiptView>, node_stake: u64) -> int
    decreases receipts.len(),
{
    if receipts.len() == 0 {
        0
    } else {
        total_reward(receipts.drop_last(), node_stake) + reward(receipts.last(), node_stake)
    }
}

/// Every number on the way to the rewards is below 2^64.
pub open spec fn rewards_fit(receipts: Seq<ReceiptView>, node_stake: u64) -> bool {
    &&& forall|i: int|
        0 <= i < receipts.len() ==> (#[trigger] receipts[i]).token_count * 1000 <= u64::MAX
            && reward(receipts[i], node_stake) <= u64::MAX
    &&& forall|key: Seq<char>|
        #[trigger] reward_under(node_rewards(receipts, node_stake), key) <= u64::MAX
}

/// `entries` hold the rewards by key, each key once.
pub open spec fn lists(entries: Seq<(String, u64)>, rewards: Map<Seq<char>, int>) -> bool {
    &&& forall|i: int, j: int|
        0 <= i < j < entries.len() ==> (#[trigger] entries[i]).0@ != (#[trigger] entries[j]).0@
    &&& forall|i: int|
        0 <= i < entries.len() ==> rewards.contains_key((#[trigger] entries[i]).0@)
            && rewards[entries[i].0@] == entries[i].1
    &&& forall|key: Seq<char>| #[trigger]
        rewards.contains_key(key) ==> exists|i: int|
            0 <= i < entries.len() && (#[trigger] entries[i]).0@ == key
}

/// The sum of the rewards in `entries`.
pub open spec fn entries_total(entries: Seq<(String, u64)>) -> int
    decreases entries.len(),
{
    if entries.len() == 0 {
        0
    } else {
        entries_total(entries.drop_last()) + entries.last().1
    }
}

proof fn lemma_entries_total_update(entries: Seq<(String, u64)>, i: int, entry: (String, u64))
    requires
        0 <= i < entries.len(),
    ensures
        entries_total(entries.update(i, entry)) == entries_total(entries) - entries[i].1 + entry.1,
    decreases entries.len(),
{
    let updated = entries.update(i, entry);
    if i == entries.len() - 1 {
        assert(updated.drop_last() =~= entries.drop_last());
    } else {
        assert(updated.drop_last() =~= entries.drop_last().update(i, entry));
        lemma_entries_total_update(entries.drop_last(), i, entry);
    }
}

/// Rewards are not negative, and more receipts make none smaller.
proof fn lemma_rewards_grow(receipts: Seq<ReceiptView>, node_stake: u64, n: int, key: Seq<char>)
    requires
        0 <= n <= receipts.len(),
    ensures
        0 <= reward_under(node_rewards(receipts.take(n), node_stake), key) <= reward_under(
            node_rewards(receipts, node_stake),
            key,
        ),
    decreases receipts.len(),
{
    if receipts.len() == 0 {
        assert(receipts.take(n) =~= receipts);
    } else {
        let last = receipts.last();
        assert(reward(last, node_stake) >= 0) by (nonlinear_arith)
            requires
                reward(last, node_stake) == (last.token_count * 1000) * (node_stake / 1000),
        ;
        if n == receipts.len() {
            assert(receipts.take(n) =~= receipts);
            assert(receipts.drop_last().take(n - 1) =~= receipts.drop_last());
            lemma_rewards_grow(receipts.drop_last(), node_stake, n - 1, key);
        } else {
            assert(receipts.take(n) =~= receipts.drop_last().take(n));
            lemma_rewards_grow(receipts.drop_last(), node_stake, n, key);
        }
    }
}

/// The entry with the given key.
fn find_entry(entries: &Vec<(String, u64)>, key: &String) -> (found: Option<usize>)
    ensures
        match found {
            Some(i) => i < entries@.len() && entries@[i as int].0@ == key@,
            None => forall|i: int| 0 <= i < entries@.len() ==> (#[trigger] entries@[i]).0@ != key@,
        },
{
    let mut i: usize = 0;
    while i < entries.len()
        invariant
            i <= entries@.len(),
            forall|j: int| 0 <= j < i ==> (#[trigger] entries@[j]).0@ != key@,
        decreases entries@.len() - i,
    {
        if entries[i].0 == *key {
            return Some(i);
        }
        i += 1;
    }
    None
}

/// Adds `amount` to what stands under `key`, unless the sum is too large.
fn add_reward(
    entries: &mut Vec<(String, u64)>,
    key: String,
    amount: u64,
    Ghost(rewards): Ghost<Map<Seq<char>, int>>,
) -> (added: bool)
    requires
        lists(old(entries)@, rewards),
    ensures
        added == (reward_under(rewards, key@) + amount <= u64::MAX),
        !added ==> final(entries)@ == old(entries)@,
        added ==> lists(final(entries)@, rewards.insert(key@, reward_under(rewards, key@) + amount))
            && entries_total(final(entries)@) == entries_total(old(entries)@) + amount,
{
    let ghost before = entries@;
    let ghost after = rewards.insert(key@, reward_under(rewards, key@) + amount);
    match find_entry(entries, &key) {
        Some(i) => {
            match entries[i].1.checked_add(amount) {
                Some(sum) => {
                    proof {
                        lemma_entries_total_update(before, i as int, (key, sum));
                    }
                    entries[i] = (key, sum);
                    assert(entries@ =~= before.update(i as int, (key, sum)));
                    assert forall|k: Seq<char>| #[trigger] after.contains_key(k) implies exists|
                        j: int,
                    | 0 <= j < entries@.len() && (#[trigger] entries@[j]).0@ == k by {
                        assert(rewards.contains_key(k));
                        let j = choose|j: int| 0 <= j < before.len() && (#[trigger] before[j]).0@ == k;
                        assert(entries@[j].0@ == k);
                    }
                    true
                },
                None => false,
            }
        },
        None => {
            assert(!rewards.contains_key(key@));
            entries.push((key, amount));
            proof {
                assert(entries@.drop_last() =~= before);
                assert forall|k: Seq<char>| #[trigger] after.contains_key(k) implies exists|j: int|
                    0 <= j < entries@.len() && (#[trigger] entries@[j]).0@ == k by {
                    if k == key@ {
                        assert(entries@[before.len() as int].0@ == k);
                    } else {
                        assert(rewards.contains_key(k));
                        let j = choose|j: int| 0 <= j < before.len() && (#[trigger] before[j]).0@ == k;
                        assert(entries@[j].0@ == k);
                    }
                }
            }
            true
        },
    }
}

/// The rewards for `receipts` by key, each key once, in the order in which the
/// keys come first; `None` where a number on the way is too large.
pub fn checked_node_rewards(receipts: &[UsageReceipt], node_stake: u64) -> (rewards: Option<
    Vec<(String, u64)>,
>)
    ensures
        match rewards {
            Some(entries) => {
                let views = crate::types::receipt_views(receipts@);
                &&& rewards_fit(views, node_stake)
                &&& lists(entries@, node_rewards(views, node_stake))
                &&& entries_total(entries@) == total_reward(views, node_stake)
            },
            None => !rewards_fit(crate::types::receipt_views(receipts@), node_stake),
        },
{
    let ghost views = crate::types::receipt_views(receipts@);
    let mut entries: Vec<(String, u64)> = Vec::new();
    let mut i: usize = 0;
    while i < receipts.len()
        invariant
            i <= receipts@.len(),
            views == crate::types::receipt_views(receipts@),
            lists(entries@, node_rewards(views.take(i as int), node_stake)),
            entries_total(entries@) == total_reward(views.take(i as int), node_stake),
            forall|j: int|
                0 <= j < i ==> (#[trigger] views[j]).token_count * 1000 <= u64::MAX && reward(
                    views[j],
                    node_stake,
                ) <= u64::MAX,
        decreases receipts@.len() - i,
    {
        let receipt = &receipts[i];
        assert(receipt@ == views[i as int]);
        let scaled = match receipt.token_count.checked_mul(1000) {
            Some(scaled) => scaled,
            None => {
                return None;
            },
        };
        let amount = match scaled.checked_mul(node_stake / 1000) {
            Some(amount) => amount,
            None => {
                return None;
            },
        };
        let key = hex_encode(receipt.request_id.0.as_slice());
        let ghost so_far = views.take(i as int);
        let ghost next = views.take(i + 1);
        proof {
            assert(next.drop_last() =~= so_far);
            lemma_rewards_grow(views, node_stake, i + 1, key@);
        }
        let added = add_reward(&mut entries, key, amount, Ghost(node_rewards(so_far, node_stake)));
        if !added {
            assert(reward_under(node_rewards(views, node_stake), node_key(receipt@)) > u64::MAX);
            return None;
        }
        i += 1;
    }
    proof {
        assert(views.take(i as int) =~= views);
        assert forall|key: Seq<char>|
            #[trigger] reward_under(node_rewards(views, node_stake), key) <= u64::MAX by {
            let rewards = node_rewards(views, node_stake);
            if rewards.contains_key(key) {
                let j = choose|j: int| 0 <= j < entries@.len() && (#[trigger] entries@[j]).0@ == key;
                assert(rewards[key] == entries@[j].1);
            }
        }
    }
    Some(entries)
}

/// Stake counts in whole thousands, and each thousand earns 1000 for each
/// token: `k` thousands and a rest earn `k` times what one thousand earns.
pub proof fn law_reward_is_proportional_to_stake(
    receipt: ReceiptView,
    k: nat,
    rest: nat,
    node_stake: u64,
)
    requires
        rest < 1000,
        node_stake == k * 1000 + rest,
    ensures
        reward(receipt, 1000) == 1000 * receipt.token_count,
        reward(receipt, node_stake) == k * reward(receipt, 1000),
{
    let tokens = receipt.token_count as int;
    assert(node_stake / 1000 == k);
    assert(1000u64 / 1000 == 1);
    assert((tokens * 1000) * 1 == 1000 * tokens) by (nonlinear_arith);
    assert((tokens * 1000) * k == k * (1000 * tokens)) by (nonlinear_arith);
}

/// Each further thousand of stake adds 1000 for each token.
pub proof fn law_reward_grows_with_stake(receipt: ReceiptView, node_stake: u64, more: u64)
    requires
        more == node_stake + 1000,
    ensures
        reward(receipt, more) == reward(receipt, node_stake) + 1000 * receipt.token_count,
{
    let scaled: int = receipt.token_count * 1000;
    let units: int = (node_stake / 1000) as int;
    assert(more / 1000 == units + 1);
    assert(scaled * (units + 1) == scaled * units + scaled) by (nonlinear_arith);
}

/// Tokens are rewarded alike: a receipt for the tokens of two earns what the two
/// earn together.
pub proof fn law_reward_adds_tokens(a: ReceiptView, b: ReceiptView, both: ReceiptView, node_stake: u64)
    requires
        both.token_count == a.token_count + b.token_count,
    ensures
        reward(both, node_stake) == reward(a, node_stake) + reward(b, node_stake),
{
    let x = a.token_count as int;
    let y = b.token_count as int;
    let units: int = (node_stake / 1000) as int;
    assert(((x + y) * 1000) * units == (x * 1000) * units + (y * 1000) * units) by (nonlinear_arith);
}

/// The receipts whose request identifier is `key` in hexadecimal.
pub open spec fn receipts_of(receipts: Seq<ReceiptView>, key: Seq<char>) -> Seq<ReceiptView> {
    receipts.filter(|r: ReceiptView| crate::text::hex_text(r.request_id.0@) == key)
}

/// The rewards of receipts add up, whatever the order: those of two lists
/// together are the sum, and that of one receipt is its tokens' share.
pub proof fn law_total_reward_adds_up(
    a: Seq<ReceiptView>,
    b: Seq<ReceiptView>,
    receipt: ReceiptView,
    node_stake: u64,
)
    ensures
        total_reward(Seq::empty(), node_stake) == 0,
        total_reward(seq![receipt], node_stake) == (1000 * receipt.token_count) * (node_stake
            / 1000),
        total_reward(a + b, node_stake) == total_reward(a, node_stake) + total_reward(
            b,
            node_stake,
        ),
    decreases b.len(),
{
    let single = seq![receipt];
    assert(single.drop_last() =~= Seq::empty());
    assert(total_reward(single.drop_last(), node_stake) == 0);
    if b.len() == 0 {
        assert(a + b =~= a);
    } else {
        assert((a + b).drop_last() =~= a + b.drop_last());
        law_total_reward_adds_up(a, b.drop_last(), receipt, node_stake);
    }
}

/// Under a key stands the sum of the rewards of the receipts with that request
/// identifier, and there is an entry exactly where there is such a receipt.
pub proof fn law_rewards_are_sums_by_request(
    receipts: Seq<ReceiptView>,
    node_stake: u64,
    key: Seq<char>,
)
    ensures
        node_rewards(receipts, node_stake).contains_key(key) <==> receipts_of(receipts, key).len()
            > 0,
        node_rewards(receipts, node_stake).contains_key(key) ==> node_rewards(
            receipts,
            node_stake,
        )[key] == total_reward(receipts_of(receipts, key), node_stake),
        receipts_of(receipts, key).len() > 0 <==> exists|i: int|
            0 <= i < receipts.len() && crate::text::hex_text(
                (#[trigger] receipts[i]).request_id.0@,
            ) == key,
    decreases receipts.len(),
{
    reveal(Seq::filter);
    if receipts.len() > 0 {
        let before = receipts.drop_last();
        let last = receipts.last();
        law_rewards_are_sums_by_request(before, node_stake, key);
        assert forall|i: int|
            0 <= i < before.len() && crate::text::hex_text(
                (#[trigger] before[i]).request_id.0@,
            ) == key implies crate::text::hex_text(receipts[i].request_id.0@) == key by {}
        if receipts_of(before, key).len() > 0 {
            let i = choose|i: int|
                0 <= i < before.len() && crate::text::hex_text(
                    (#[trigger] before[i]).request_id.0@,
                ) == key;
            assert(crate::text::hex_text(receipts[i].request_id.0@) == key);
        }
        if crate::text::hex_text(last.request_id.0@) == key {
            let of_key = receipts_of(receipts, key);
            assert(of_key == receipts_of(before, key).push(last));
            assert(of_key.drop_last() =~= receipts_of(before, key));
            assert(receipts[receipts.len() - 1] == last);
            if receipts_of(before, key).len() == 0 {
                assert(total_reward(receipts_of(before, key), node_stake) == 0);
            }
        } else {
            assert(receipts_of(receipts, key) == receipts_of(before, key));
            if exists|i: int|
                0 <= i < receipts.len() && crate::text::hex_text(
                    (#[trigger] receipts[i]).request_id.0@,
                ) == key {
                let i = choose|i: int|
                    0 <= i < receipts.len() && crate::text::hex_text(
                        (#[trigger] receipts[i]).request_id.0@,
                    ) == key;
                assert(before[i] == receipts[i]);
            }
        }
    }
}

/// The rewards can be worked out exactly where each receipt's tokens and reward,
/// and the sum for each request, are below 2^64.
pub proof fn law_rewards_fit_where_sums_do(receipts: Seq<ReceiptView>, node_stake: u64)
    ensures
        rewards_fit(receipts, node_stake) <==> forall|i: int|
            0 <= i < receipts.len() ==> 1000 * (#[trigger] receipts[i]).token_count <= u64::MAX
                && (1000 * receipts[i].token_count) * (node_stake / 1000) <= u64::MAX
                && total_reward(
                receipts_of(receipts, crate::text::hex_text(receipts[i].request_id.0@)),
                node_stake,
            ) <= u64::MAX,
{
    let rewards = node_rewards(receipts, node_stake);
    if rewards_fit(receipts, node_stake) {
        assert forall|i: int| 0 <= i < receipts.len() implies 1000 * (
        #[trigger] receipts[i]).token_count <= u64::MAX && (1000 * receipts[i].token_count) * (
        node_stake / 1000) <= u64::MAX && total_reward(
            receipts_of(receipts, crate::text::hex_text(receipts[i].request_id.0@)),
            node_stake,
        ) <= u64::MAX by {
            let key = crate::text::hex_text(receipts[i].request_id.0@);
            law_rewards_are_sums_by_request(receipts, node_stake, key);
            assert(reward_under(rewards, key) <= u64::MAX);
        }
    }
    if forall|i: int|
        0 <= i < receipts.len() ==> 1000 * (#[trigger] receipts[i]).token_count <= u64::MAX && (1000
            * receipts[i].token_count) * (node_stake / 1000) <= u64::MAX && total_reward(
            receipts_of(receipts, crate::text::hex_text(receipts[i].request_id.0@)),
            node_stake,
        ) <= u64::MAX {
        assert forall|key: Seq<char>| #[trigger] reward_under(rewards, key) <= u64::MAX by {
            law_rewards_are_sums_by_request(receipts, node_stake, key);
            if rewards.contains_key(key) {
                let i = choose|i: int|
                    0 <= i < receipts.len() && crate::text::hex_text(
                        (#[trigger] receipts[i]).request_id.0@,
                    ) == key;
                assert(crate::text::hex_text(receipts[i].request_id.0@) == key);
            }
        }
    }
}

/// Entries that list rewards hold each key exactly once, with what stands under
/// it, and no other key.
pub proof fn law_listed_rewards_are_found_once(
    entries: Seq<(String, u64)>,
    rewards: Map<Seq<char>, int>,
    key: Seq<char>,
)
    requires
        lists(entries, rewards),
    ensures
        rewards.contains_key(key) <==> exists|i: int|
            0 <= i < entries.len() && (#[trigger] entries[i]).0@ == key && entries[i].1
                == rewards[key],
        forall|i: int, j: int|
            0 <= i < entries.len() && 0 <= j < entries.len() && (#[trigger] entries[i]).0@ == key && (
            #[trigger] entries[j]).0@ == key ==> i == j,
        forall|i: int|
            0 <= i < entries.len() && (#[trigger] entries[i]).0@ == key ==> entries[i].1
                == rewards[key],
{
    if rewards.contains_key(key) {
        let i = choose|i: int| 0 <= i < entries.len() && (#[trigger] entries[i]).0@ == key;
        assert(entries[i].1 == rewards[key]);
    }
    assert forall|i: int, j: int|
        0 <= i < entries.len() && 0 <= j < entries.len() && (#[trigger] entries[i]).0@ == key && (
        #[trigger] entries[j]).0@ == key implies i == j by {
        if i < j {
            assert(entries[i].0@ != entries[j].0@);
        } else if j < i {
            assert(entries[j].0@ != entries[i].0@);
        }
    }
}

/// The sum of entries adds up over parts.
pub proof fn law_entries_total_adds_up(
    a: Seq<(String, u64)>,
    b: Seq<(String, u64)>,
    entry: (String, u64),
)
    ensures
        entries_total(Seq::empty()) == 0,
        entries_total(seq![entry]) == entry.1,
        entries_total(a + b) == entries_total(a) + entries_total(b),
    decreases b.len(),
{
    let single = seq![entry];
    assert(single.drop_last() =~= Seq::empty());
    assert(entries_total(single.drop_last()) == 0);
    if b.len() == 0 {
        assert(a + b =~= a);
    } else {
        assert((a + b).drop_last() =~= a + b.drop_last());
        law_entries_total_adds_up(a, b.drop_last(), entry);
    }
}

} // verus!
