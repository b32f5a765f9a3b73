use forgia::biome_registry::{BiomeIdentitySpec, BiomeRegistry};
use forgia::biomes::BiomeType;

fn spec(id: &str, name: &str, rgb: Option<[u8; 3]>) -> BiomeIdentitySpec {
    BiomeIdentitySpec { id: id.to_string(), display_name_fr: name.to_string(), preview_rgb: rgb }
}

#[test]
fn an_empty_registry_uses_the_built_in_identity() {
    let reg = BiomeRegistry::from_specs(vec![]);
    assert_eq!(reg.len(), 0);
    assert_eq!(reg.display_name_fr(BiomeType::Forest), "Foret");
    assert_eq!(reg.preview_rgb(BiomeType::Forest), (51, 107, 38));
}

#[test]
fn a_spec_overrides_name_and_colour() {
    let reg = BiomeRegistry::from_specs(vec![spec("Forest", "Forêt profonde", Some([1, 2, 3]))]);
    assert_eq!(reg.len(), 1);
    assert_eq!(reg.display_name_fr(BiomeType::Forest), "Forêt profonde");
    assert_eq!(reg.preview_rgb(BiomeType::Forest), (1, 2, 3));
    assert_eq!(reg.display_name_fr(BiomeType::Desert), "Desert");
}

#[test]
fn an_empty_name_or_missing_colour_falls_back() {
    let reg = BiomeRegistry::from_specs(vec![spec("canyon", "", None)]);
    assert_eq!(reg.display_name_fr(BiomeType::Canyon), "Canyon");
    assert_eq!(reg.preview_rgb(BiomeType::Canyon), (173, 107, 64));
}

#[test]
fn unknown_ids_are_skipped_and_later_specs_win() {
    let reg = BiomeRegistry::from_specs(vec![
        spec("swamp", "Marécage", None),
        spec("atlantis", "Atlantide", Some([9, 9, 9])),
        spec("SWAMP", "Bayou", Some([4, 5, 6])),
    ]);
    assert_eq!(reg.len(), 1);
    assert_eq!(reg.display_name_fr(BiomeType::Swamp), "Bayou");
    assert_eq!(reg.preview_rgb(BiomeType::Swamp), (4, 5, 6));
}
