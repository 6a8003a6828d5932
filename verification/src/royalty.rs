//! Royalties: how revenue is split, and how shares are handed out to experts.
use crate::types::ExpertId;
use vstd::prelude::*;

verus! {

/// Splits revenue into the royalty and what remains.
pub fn split_revenue(total_revenue: u64, royalty: u64) -> (split: (u64, u64))
    requires
        royalty <= total_revenue,
    ensures
        split.0 == royalty,
        split.0 + split.1 == total_revenue,
{
    (royalty, total_revenue - royalty)
}

/// The revenue of all entries together.
pub open spec fn revenue_sum(expert_revenues: Seq<(ExpertId, u64)>) -> nat
    decreases expert_revenues.len(),
{
    if expert_revenues.len() == 0 {
        0
    } else {
        revenue_sum(expert_revenues.drop_last()) + expert_revenues.last().1 as nat
    }
}

proof fn lemma_revenue_sum_grows(expert_revenues: Seq<(ExpertId, u64)>, n: int)
    requires
        0 <= n <= expert_revenues.len(),
    ensures
        revenue_sum(expert_revenues.take(n)) <= revenue_sum(expert_revenues),
    decreases expert_revenues.len() - n,
{
    if n < expert_revenues.len() {
        lemma_revenue_sum_grows(expert_revenues, n + 1);
        assert(expert_revenues.take(n + 1).drop_last() =~= expert_revenues.take(n));
    } else {
        assert(expert_revenues.take(n) =~= expert_revenues);
    }
}

/// Adds up the revenue of all entries; `None` where the sum is too large.
pub fn total_revenue(expert_revenues: &[(ExpertId, u64)]) -> (total: Option<u64>)
    ensures
        match total {
            Some(total) => total == revenue_sum(expert_revenues@),
            None => revenue_sum(expert_revenues@) > u64::MAX,
        },
{
    let mut total: u64 = 0;
    let mut i: usize = 0;
    while i < expert_revenues.len()
        invariant
            i <= expert_revenues@.len(),
            total == revenue_sum(expert_revenues@.take(i as int)),
        decreases expert_revenues@.len() - i,
    {
        proof {
            assert(expert_revenues@.take(i + 1).drop_last() =~= expert_revenues@.take(i as int));
            lemma_revenue_sum_grows(expert_revenues@, i + 1);
        }
        total = match total.checked_add(expert_revenues[i].1) {
            Some(sum) => sum,
            None => {
                return None;
            },
        };
        i += 1;
    }
    assert(expert_revenues@.take(i as int) =~= expert_revenues@);
    Some(total)
}

/// The share of each expert: that of the expert's last entry, or nothing where
/// there is no revenue to share.
pub open spec fn expert_shares(
    expert_revenues: Seq<(ExpertId, u64)>,
    shares: Seq<u64>,
    shared: bool,
) -> Map<ExpertId, u64>
    decreases expert_revenues.len(),
{
    if expert_revenues.len() == 0 {
        Map::empty()
    } else {
        expert_shares(expert_revenues.drop_last(), shares, shared).insert(
            expert_revenues.last().0,
            if shared {
                shares[expert_revenues.len() - 1]
            } else {
                0
            },
        )
    }
}

/// `entries` hold the shares by expert, each expert once.
pub open spec fn lists(entries: Seq<(ExpertId, u64)>, shares: Map<ExpertId, u64>) -> bool {
    &&& forall|i: int, j: int|
        0 <= i < j < entries.len() ==> (#[trigger] entries[i]).0 != (#[trigger] entries[j]).0
    &&& forall|i: int|
        0 <= i < entries.len() ==> shares.contains_key((#[trigger] entries[i]).0)
            && shares[entries[i].0] == entries[i].1
    &&& forall|expert: ExpertId| #[trigger]
        shares.contains_key(expert) ==> exists|i: int|
            0 <= i < entries.len() && (#[trigger] entries[i]).0 == expert
}

/// Puts `share` under `expert`, in place of what stood there.
fn set_share(
    entries: &mut Vec<(ExpertId, u64)>,
    expert: ExpertId,
    share: u64,
    Ghost(shares): Ghost<Map<ExpertId, u64>>,
)
    requires
        lists(old(entries)@, shares),
    ensures
        lists(final(entries)@, shares.insert(expert, share)),
{
    let ghost before = entries@;
    let ghost after = shares.insert(expert, share);
    let mut i: usize = 0;
    while i < entries.len() && !(entries[i].0 == expert)
        invariant
            i <= entries@.len(),
            entries@ == before,
            forall|j: int| 0 <= j < i ==> (#[trigger] before[j]).0 != expert,
        decreases entries@.len() - i,
    {
        i += 1;
    }
    if i < entries.len() {
        entries[i] = (expert, share);
        assert(entries@ =~= before.update(i as int, (expert, share)));
    } else {
        entries.push((expert, share));
    }
    assert forall|e: ExpertId| #[trigger] after.contains_key(e) implies exists|j: int|
        0 <= j < entries@.len() && (#[trigger] entries@[j]).0 == e by {
        if e == expert {
            assert(entries@[i as int].0 == e);
        } else {
            assert(shares.contains_key(e));
            let j = choose|j: int| 0 <= j < before.len() && (#[trigger] before[j]).0 == e;
            assert(entries@[j].0 == e);
        }
    }
}

/// Hands out shares: `shares[i]` is that of `expert_revenues[i]` where there is
/// revenue at all. Each expert is listed once, with the share of the expert's
/// last entry.
pub fn distribute_to_experts(expert_revenues: &[(ExpertId, u64)], shares: &[u64]) -> (
distribution: Vec<(ExpertId, u64)>)
    requires
        revenue_sum(expert_revenues@) <= u64::MAX,
        shares@.len() == expert_revenues@.len(),
    ensures
        lists(
            distribution@,
            expert_shares(expert_revenues@, shares@, revenue_sum(expert_revenues@) > 0),
        ),
{
    let total: u64 = total_revenue(expert_revenues).unwrap();
    let shared = total > 0;
    let mut distribution: Vec<(ExpertId, u64)> = Vec::new();
    let mut i: usize = 0;
    while i < expert_revenues.len()
        invariant
            i <= expert_revenues@.len(),
            shares@.len() == expert_revenues@.len(),
            lists(
                distribution@,
                expert_shares(expert_revenues@.take(i as int), shares@, shared),
            ),
        decreases expert_revenues@.len() - i,
    {
        let ghost so_far = expert_revenues@.take(i as int);
        assert(expert_revenues@.take(i + 1).drop_last() =~= so_far);
        let share: u64 = if shared {
            shares[i]
        } else {
            0
        };
        set_share(
            &mut distribution,
            expert_revenues[i].0,
            share,
            Ghost(expert_shares(so_far, shares@, shared)),
        );
        i += 1;
    }
    assert(expert_revenues@.take(i as int) =~= expert_revenues@);
    distribution
}

/// Revenue adds up over parts.
pub proof fn law_revenue_adds_up(
    a: Seq<(ExpertId, u64)>,
    b: Seq<(ExpertId, u64)>,
    entry: (ExpertId, u64),
)
    ensures
        revenue_sum(Seq::empty()) == 0,
        revenue_sum(seq![entry]) == entry.1,
        revenue_sum(a + b) == revenue_sum(a) + revenue_sum(b),
    decreases b.len(),
{
    let single = seq![entry];
    assert(single.drop_last() =~= Seq::empty());
    assert(revenue_sum(single.drop_last()) == 0);
    if b.len() == 0 {
        assert(a + b =~= a);
    } else {
        assert((a + b).drop_last() =~= a + b.drop_last());
        law_revenue_adds_up(a, b.drop_last(), entry);
    }
}

/// An expert's share is that of the expert's last entry, or nothing where there
/// is no revenue to share.
pub proof fn law_last_entry_decides_share(
    expert_revenues: Seq<(ExpertId, u64)>,
    shares: Seq<u64>,
    shared: bool,
    i: int,
)
    requires
        0 <= i < expert_revenues.len(),
        forall|j: int|
            i < j < expert_revenues.len() ==> (#[trigger] expert_revenues[j]).0
                != expert_revenues[i].0,
    ensures
        expert_shares(expert_revenues, shares, shared).contains_key(expert_revenues[i].0),
        shared ==> expert_shares(expert_revenues, shares, shared)[expert_revenues[i].0]
            == shares[i],
        !shared ==> expert_shares(expert_revenues, shares, shared)[expert_revenues[i].0] == 0,
    decreases expert_revenues.len(),
{
    let before = expert_revenues.drop_last();
    if i < expert_revenues.len() - 1 {
        assert(before[i] == expert_revenues[i]);
        assert(expert_revenues[expert_revenues.len() - 1].0 != expert_revenues[i].0);
        assert forall|j: int| i < j < before.len() implies (#[trigger] before[j]).0
            != before[i].0 by {
            assert(before[j] == expert_revenues[j]);
        }
        law_last_entry_decides_share(before, shares, shared, i);
    }
}

/// Only experts with an entry have a share.
pub proof fn law_shares_are_of_listed_experts(
    expert_revenues: Seq<(ExpertId, u64)>,
    shares: Seq<u64>,
    shared: bool,
    expert: ExpertId,
)
    requires
        forall|i: int| 0 <= i < expert_revenues.len() ==> (#[trigger] expert_revenues[i]).0 != expert,
    ensures
        !expert_shares(expert_revenues, shares, shared).contains_key(expert),
    decreases expert_revenues.len(),
{
    if expert_revenues.len() > 0 {
        let before = expert_revenues.drop_last();
        assert(expert_revenues[expert_revenues.len() - 1].0 != expert);
        assert forall|i: int| 0 <= i < before.len() implies (#[trigger] before[i]).0 != expert by {
            assert(before[i] == expert_revenues[i]);
        }
        law_shares_are_of_listed_experts(before, shares, shared, expert);
    }
}

/// Entries that list shares hold each expert exactly once, with the expert's
/// share, and no other expert.
pub proof fn law_listed_shares_are_found_once(
    entries: Seq<(ExpertId, u64)>,
    shares: Map<ExpertId, u64>,
    expert: ExpertId,
)
    requires
        lists(entries, shares),
    ensures
        shares.contains_key(expert) <==> exists|i: int|
            0 <= i < entries.len() && (#[trigger] entries[i]).0 == expert && entries[i].1
                == shares[expert],
        forall|i: int, j: int|
            0 <= i < entries.len() && 0 <= j < entries.len() && (#[trigger] entries[i]).0 == expert
                && (#[trigger] entries[j]).0 == expert ==> i == j,
        forall|i: int|
            0 <= i < entries.len() && (#[trigger] entries[i]).0 == expert ==> entries[i].1
                == shares[expert],
{
    if shares.contains_key(expert) {
        let i = choose|i: int| 0 <= i < entries.len() && (#[trigger] entries[i]).0 == expert;
        assert(entries[i].1 == shares[expert]);
    }
    assert forall|i: int, j: int|
        0 <= i < entries.len() && 0 <= j < entries.len() && (#[trigger] entries[i]).0 == expert && (
        #[trigger] entries[j]).0 == expert implies i == j by {
        if i < j {
            assert(entries[i].0 != entries[j].0);
        } else if j < i {
            assert(entries[j].0 != entries[i].0);
        }
    }
}

} // verus!
