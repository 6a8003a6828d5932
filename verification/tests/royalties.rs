use auria_settlement::royalty::{distribute_to_experts, split_revenue, total_revenue};
use auria_settlement::ExpertId;

fn share_of(distribution: &[(ExpertId, u64)], expert: ExpertId) -> Option<u64> {
    distribution.iter().find(|(id, _)| *id == expert).map(|(_, share)| *share)
}

fn parts_per_million(revenues: &[(ExpertId, u64)]) -> Vec<u64> {
    let total = total_revenue(revenues).unwrap();
    revenues.iter().map(|(_, r)| (*r as f64 / total as f64 * 1_000_000.0) as u64).collect()
}

#[test]
fn lib_test_royalty_calculation() {
    let (royalty, remaining) = split_revenue(1_000_000, (1_000_000u64 as f32 * 0.05f32) as u64);

    assert_eq!(royalty, 50000);
    assert_eq!(remaining, 950000);
}

#[test]
fn integration_test_royalty_calculation() {
    let royalty_percentage: f32 = 0.05;
    let (royalty, remaining) =
        split_revenue(1_000_000, (1_000_000u64 as f32 * royalty_percentage) as u64);

    assert_eq!(royalty, 50000);
    assert_eq!(remaining, 950000);
}

#[test]
fn test_royalty_split() {
    let royalty_percentage: f32 = 0.05;
    let expected_royalty = (1_000_000.0 * royalty_percentage) as u64;

    let (royalty, remaining) = split_revenue(1_000_000, expected_royalty);

    assert_eq!(royalty, expected_royalty);
    assert_eq!(remaining, 1_000_000 - expected_royalty);
}

#[test]
fn test_expert_royalty_distribution() {
    let expert1 = ExpertId([1u8; 32]);
    let expert2 = ExpertId([2u8; 32]);

    let revenues = vec![(expert1, 600_000), (expert2, 400_000)];

    let distribution = distribute_to_experts(&revenues, &parts_per_million(&revenues));

    assert_eq!(share_of(&distribution, expert1), Some(600_000));
    assert_eq!(share_of(&distribution, expert2), Some(400_000));
}

#[test]
fn test_expert_distribution() {
    let expert1 = ExpertId([1u8; 32]);
    let expert2 = ExpertId([2u8; 32]);

    let revenues = vec![(expert1, 600_000), (expert2, 400_000)];

    let distribution = distribute_to_experts(&revenues, &parts_per_million(&revenues));

    assert_eq!(share_of(&distribution, expert1), Some(600_000));
    assert_eq!(share_of(&distribution, expert2), Some(400_000));
}

#[test]
fn royalty_and_rest_make_up_the_revenue() {
    assert_eq!(split_revenue(7, 7), (7, 0));
    assert_eq!(split_revenue(7, 0), (0, 7));
    assert_eq!(split_revenue(18446744073709551615, 1), (1, 18446744073709551614));
}

#[test]
fn the_last_entry_of_an_expert_counts() {
    let a = ExpertId([1u8; 32]);
    let b = ExpertId([2u8; 32]);
    let revenues = [(a, 1), (b, 2), (a, 3)];
    assert_eq!(distribute_to_experts(&revenues, &[10, 20, 30]), vec![(a, 30), (b, 20)]);
}

#[test]
fn without_revenue_every_share_is_nothing() {
    let a = ExpertId([1u8; 32]);
    assert_eq!(distribute_to_experts(&[(a, 0)], &[10]), vec![(a, 0)]);
    assert_eq!(distribute_to_experts(&[], &[]), vec![]);
}

#[test]
fn revenue_is_added_up_unless_it_is_too_large() {
    let a = ExpertId([1u8; 32]);
    assert_eq!(total_revenue(&[]), Some(0));
    assert_eq!(total_revenue(&[(a, 1), (a, 2)]), Some(3));
    assert_eq!(total_revenue(&[(a, 18446744073709551615), (a, 1)]), None);
}
