use grocery::household::parse_frequency_tier;
use grocery::types::FrequencyTier;

#[test]
fn test_frequency_tier_every_order() {
    assert_eq!(FrequencyTier::from_frequency(14, 18), FrequencyTier::EveryOrder);
    assert_eq!(FrequencyTier::from_frequency(12, 18), FrequencyTier::EveryOrder);
}

#[test]
fn test_frequency_tier_most_orders() {
    assert_eq!(FrequencyTier::from_frequency(11, 18), FrequencyTier::MostOrders);
    assert_eq!(FrequencyTier::from_frequency(7, 18), FrequencyTier::MostOrders);
}

#[test]
fn test_frequency_tier_occasional() {
    assert_eq!(FrequencyTier::from_frequency(6, 18), FrequencyTier::Occasional);
    assert_eq!(FrequencyTier::from_frequency(3, 18), FrequencyTier::Occasional);
}

#[test]
fn test_frequency_tier_rare() {
    assert_eq!(FrequencyTier::from_frequency(2, 18), FrequencyTier::Rare);
    assert_eq!(FrequencyTier::from_frequency(0, 18), FrequencyTier::Rare);
}

#[test]
fn test_frequency_tier_zero_total_orders() {
    assert_eq!(FrequencyTier::from_frequency(5, 0), FrequencyTier::Rare);
}

#[test]
fn frequency_tier_never_ranks_better_as_share_falls() {
    for t in 1u8..=30 {
        let mut prev = FrequencyTier::EveryOrder;
        for a in (0u8..=t).rev() {
            let tier = FrequencyTier::from_frequency(a, t);
            assert!(tier >= prev);
            prev = tier;
        }
    }
    assert_eq!(FrequencyTier::from_frequency(255, 0), FrequencyTier::Rare);
    assert_eq!(FrequencyTier::from_frequency(255, 255), FrequencyTier::EveryOrder);
}

#[test]
fn test_parse_frequency_tier_various_formats() {
    assert_eq!(parse_frequency_tier("18/18"), FrequencyTier::EveryOrder);
    assert_eq!(parse_frequency_tier("12/18"), FrequencyTier::EveryOrder);
    assert_eq!(parse_frequency_tier("11/18"), FrequencyTier::MostOrders);
    assert_eq!(parse_frequency_tier("7/18"), FrequencyTier::MostOrders);
    assert_eq!(parse_frequency_tier("6/18"), FrequencyTier::Occasional);
    assert_eq!(parse_frequency_tier("3/18"), FrequencyTier::Occasional);
    assert_eq!(parse_frequency_tier("2/18"), FrequencyTier::Rare);
    assert_eq!(parse_frequency_tier("invalid"), FrequencyTier::Rare);
    assert_eq!(parse_frequency_tier(""), FrequencyTier::Rare);
}

#[test]
fn frequency_text_trims_and_rejects_odd_shapes() {
    assert_eq!(parse_frequency_tier(" 14 / 18 "), FrequencyTier::EveryOrder);
    assert_eq!(parse_frequency_tier("14/18/2"), FrequencyTier::Rare);
    assert_eq!(parse_frequency_tier("x/18"), FrequencyTier::Rare);
    assert_eq!(parse_frequency_tier("300/18"), FrequencyTier::Rare);
    assert_eq!(parse_frequency_tier("14/0"), FrequencyTier::Rare);
}
