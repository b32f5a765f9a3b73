use forgia::biomes::{
    biome_supports_distant_trees, biome_type_from_id, default_grass_density, default_display_name_fr, default_preview_rgb, BiomePalette, BiomeStatus, BiomeType,
};

const ALL_BIOMES: [BiomeType; 10] = [
    BiomeType::Plains,
    BiomeType::Forest,
    BiomeType::Desert,
    BiomeType::Mountain,
    BiomeType::Swamp,
    BiomeType::Tundra,
    BiomeType::Savanna,
    BiomeType::Jungle,
    BiomeType::Volcanic,
    BiomeType::Canyon,
];

#[test]
fn from_id_covers_all_ten_biomes() {
    for (i, b) in ALL_BIOMES.iter().enumerate() {
        assert_eq!(BiomeType::from_id(i as u8), *b);
        assert_eq!(b.id(), i as u8);
    }
}

#[test]
fn from_id_out_of_range_defaults_to_plains() {
    assert_eq!(BiomeType::from_id(10), BiomeType::Plains);
    assert_eq!(BiomeType::from_id(255), BiomeType::Plains);
}

#[test]
fn from_name_case_insensitive() {
    assert_eq!(BiomeType::from_name("Forest"), BiomeType::Forest);
    assert_eq!(BiomeType::from_name("VOLCANIC"), BiomeType::Volcanic);
    assert_eq!(BiomeType::from_name("unknown"), BiomeType::Plains);
}

#[test]
fn as_str_names_every_biome() {
    for b in ALL_BIOMES {
        assert_eq!(BiomeType::from_name(b.as_str()), b);
    }
    assert_eq!(BiomeType::Canyon.as_str(), "Canyon");
}

#[test]
fn biome_type_from_id_covers_all_canonical_ids() {
    let ids = ["plains", "forest", "desert", "mountain", "swamp", "tundra", "savanna", "jungle", "volcanic", "canyon"];
    for id in ids {
        assert!(biome_type_from_id(id).is_some(), "canonical id {id} must map to a BiomeType");
    }
}

#[test]
fn biome_type_from_id_is_case_insensitive() {
    assert_eq!(biome_type_from_id("FOREST"), Some(BiomeType::Forest));
    assert_eq!(biome_type_from_id("ForEsT"), Some(BiomeType::Forest));
}

#[test]
fn biome_type_from_id_unknown_returns_none() {
    assert_eq!(biome_type_from_id("atlantis"), None);
    assert_eq!(biome_type_from_id(""), None);
}

#[test]
fn display_name_fr_non_empty_for_all_biomes() {
    for b in ALL_BIOMES {
        assert!(!default_display_name_fr(b).is_empty(), "empty display_name_fr for {b:?}");
    }
    assert_eq!(default_display_name_fr(BiomeType::Volcanic), "Volcanique");
}

#[test]
fn default_preview_rgb_values() {
    assert_eq!(default_preview_rgb(BiomeType::Plains), (115, 166, 64));
    assert_eq!(default_preview_rgb(BiomeType::Tundra), (209, 224, 235));
}

#[test]
fn biome_status_default_is_draft() {
    assert_eq!(BiomeStatus::default(), BiomeStatus::Draft);
}

#[test]
fn biome_palette_default_is_empty() {
    let p = BiomePalette::default();
    assert!(p.primary.is_empty() && p.secondary.is_empty() && p.accent.is_empty() && p.ground.is_empty());
}

#[test]
fn distant_trees_grow_in_six_biomes() {
    let with: Vec<BiomeType> = ALL_BIOMES.iter().copied().filter(|b| biome_supports_distant_trees(*b)).collect();
    assert_eq!(
        with,
        vec![
            BiomeType::Plains,
            BiomeType::Forest,
            BiomeType::Swamp,
            BiomeType::Tundra,
            BiomeType::Savanna,
            BiomeType::Jungle,
        ]
    );
    assert!(!biome_supports_distant_trees(BiomeType::Desert));
    assert!(!biome_supports_distant_trees(BiomeType::Volcanic));
}

#[test]
fn grass_density_default_is_positive() {
    assert_eq!(default_grass_density(), 200);
}
