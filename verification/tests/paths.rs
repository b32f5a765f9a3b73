use forgia::paths::RoadTier;

#[test]
fn tier_names_parse_exactly() {
    assert_eq!(RoadTier::from_tier_name("primary"), RoadTier::Primary);
    assert_eq!(RoadTier::from_tier_name("secondary"), RoadTier::Secondary);
    assert_eq!(RoadTier::from_tier_name("trail"), RoadTier::Trail);
    assert_eq!(RoadTier::from_tier_name("urban"), RoadTier::Urban);
}

#[test]
fn unknown_tier_names_fall_back_to_secondary() {
    assert_eq!(RoadTier::from_tier_name(""), RoadTier::Secondary);
    assert_eq!(RoadTier::from_tier_name("Primary"), RoadTier::Secondary);
    assert_eq!(RoadTier::from_tier_name("highway"), RoadTier::Secondary);
}
