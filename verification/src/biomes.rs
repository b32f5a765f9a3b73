//! Biome identities shared by terrain generation, biome specs and the editor:
//! the ten biome kinds with their stable ids and names, and the editorial
//! status and palette of a biome spec.

use vstd::prelude::*;

verus! {

/// The ten terrain biomes; their ids are 0 to 9 in this order.
#[derive(Debug, Clone, Copy, PartialEq, Eq, Hash, Structural)]
pub enum BiomeType {
    Plains,
    Forest,
    Desert,
    Mountain,
    Swamp,
    Tundra,
    Savanna,
    Jungle,
    Volcanic,
    Canyon,
}

/// The biome with id `id` (Plains for an unknown id).
pub open spec fn biome_of_id(id: u8) -> BiomeType {
    if id == 0 {
        BiomeType::Plains
    } else if id == 1 {
        BiomeType::Forest
    } else if id == 2 {
        BiomeType::Desert
    } else if id == 3 {
        BiomeType::Mountain
    } else if id == 4 {
        BiomeType::Swamp
    } else if id == 5 {
        BiomeType::Tundra
    } else if id == 6 {
        BiomeType::Savanna
    } else if id == 7 {
        BiomeType::Jungle
    } else if id == 8 {
        BiomeType::Volcanic
    } else if id == 9 {
        BiomeType::Canyon
    } else {
        BiomeType::Plains
    }
}

/// The id of biome `b` (its position in the enumeration).
pub open spec fn biome_id(b: BiomeType) -> u8 {
    match b {
        BiomeType::Plains => 0,
        BiomeType::Forest => 1,
        BiomeType::Desert => 2,
        BiomeType::Mountain => 3,
        BiomeType::Swamp => 4,
        BiomeType::Tundra => 5,
        BiomeType::Savanna => 6,
        BiomeType::Jungle => 7,
        BiomeType::Volcanic => 8,
        BiomeType::Canyon => 9,
    }
}

/// The display name of biome `b`.
pub open spec fn biome_name(b: BiomeType) -> Seq<char> {
    match b {
        BiomeType::Plains => "Plains"@,
        BiomeType::Forest => "Forest"@,
        BiomeType::Desert => "Desert"@,
        BiomeType::Mountain => "Mountain"@,
        BiomeType::Swamp => "Swamp"@,
        BiomeType::Tundra => "Tundra"@,
        BiomeType::Savanna => "Savanna"@,
        BiomeType::Jungle => "Jungle"@,
        BiomeType::Volcanic => "Volcanic"@,
        BiomeType::Canyon => "Canyon"@,
    }
}

/// The biome whose lower-case name is `lower` (Plains for an unknown name).
pub open spec fn biome_of_lower_name(lower: Seq<char>) -> BiomeType {
    if lower == "plains"@ {
        BiomeType::Plains
    } else if lower == "forest"@ {
        BiomeType::Forest
    } else if lower == "desert"@ {
        BiomeType::Desert
    } else if lower == "mountain"@ {
        BiomeType::Mountain
    } else if lower == "swamp"@ {
        BiomeType::Swamp
    } else if lower == "tundra"@ {
        BiomeType::Tundra
    } else if lower == "savanna"@ {
        BiomeType::Savanna
    } else if lower == "jungle"@ {
        BiomeType::Jungle
    } else if lower == "volcanic"@ {
        BiomeType::Volcanic
    } else if lower == "canyon"@ {
        BiomeType::Canyon
    } else {
        BiomeType::Plains
    }
}

/// What `str::to_lowercase` gives for `s` (Unicode lower-casing).
pub uninterp spec fn lowercase_of(s: Seq<char>) -> Seq<char>;

/// Every character of `s` is ASCII.
pub open spec fn all_ascii(s: Seq<char>) -> bool {
    forall|i: int| 0 <= i < s.len() ==> (#[trigger] s[i] as u32) < 128
}

/// `s` with the ASCII capitals `A`–`Z` turned into `a`–`z`, other characters kept.
pub open spec fn ascii_lower(s: Seq<char>) -> Seq<char> {
    s.map_values(|ch: char| if 65 <= (ch as u32) <= 90 { ((ch as u32) + 32) as char } else { ch })
}

/// `str::to_lowercase`: the Unicode lower-case form of `s`. Its result is named
/// by `lowercase_of`; for ASCII text it is claimed to be the ASCII lower-casing
/// (Unicode lower-cases exactly the ASCII capitals, one character each).
#[verifier::external_body]
fn to_lowercase(s: &str) -> (r: String)
    ensures
        r@ == lowercase_of(s@),
        all_ascii(s@) ==> r@ == ascii_lower(s@),
{
    s.to_lowercase()
}

/// Whether `a` spells `lit`.
pub(crate) fn same_text(a: &String, lit: &str) -> (b: bool)
    ensures
        b == (a@ == lit@),
{
    let owned = lit.to_owned();
    *a == owned
}

impl BiomeType {
    /// The biome stored under `id` in chunk data (Plains for an unknown id).
    pub fn from_id(id: u8) -> (b: Self)
        ensures
            b == biome_of_id(id),
    {
        match id {
            0 => BiomeType::Plains,
            1 => BiomeType::Forest,
            2 => BiomeType::Desert,
            3 => BiomeType::Mountain,
            4 => BiomeType::Swamp,
            5 => BiomeType::Tundra,
            6 => BiomeType::Savanna,
            7 => BiomeType::Jungle,
            8 => BiomeType::Volcanic,
            9 => BiomeType::Canyon,
            _ => BiomeType::Plains,
        }
    }

    /// The id under which chunk data stores this biome.
    pub fn id(self) -> (id: u8)
        ensures
            id == biome_id(self),
    {
        match self {
            BiomeType::Plains => 0,
            BiomeType::Forest => 1,
            BiomeType::Desert => 2,
            BiomeType::Mountain => 3,
            BiomeType::Swamp => 4,
            BiomeType::Tundra => 5,
            BiomeType::Savanna => 6,
            BiomeType::Jungle => 7,
            BiomeType::Volcanic => 8,
            BiomeType::Canyon => 9,
        }
    }

    /// The biome named `name`, case-insensitively (Plains for an unknown name).
    pub fn from_name(name: &str) -> (b: Self)
        ensures
            b == biome_of_lower_name(lowercase_of(name@)),
            all_ascii(name@) ==> b == biome_of_lower_name(ascii_lower(name@)),
    {
        let lower = to_lowercase(name);
        if same_text(&lower, "plains") {
            BiomeType::Plains
        } else if same_text(&lower, "forest") {
            BiomeType::Forest
        } else if same_text(&lower, "desert") {
            BiomeType::Desert
        } else if same_text(&lower, "mountain") {
            BiomeType::Mountain
        } else if same_text(&lower, "swamp") {
            BiomeType::Swamp
        } else if same_text(&lower, "tundra") {
            BiomeType::Tundra
        } else if same_text(&lower, "savanna") {
            BiomeType::Savanna
        } else if same_text(&lower, "jungle") {
            BiomeType::Jungle
        } else if same_text(&lower, "volcanic") {
            BiomeType::Volcanic
        } else if same_text(&lower, "canyon") {
            BiomeType::Canyon
        } else {
            BiomeType::Plains
        }
    }

    /// Display name of the biome.
    pub fn as_str(self) -> (s: &'static str)
        ensures
            s@ == biome_name(self),
    {
        match self {
            BiomeType::Plains => "Plains",
            BiomeType::Forest => "Forest",
            BiomeType::Desert => "Desert",
            BiomeType::Mountain => "Mountain",
            BiomeType::Swamp => "Swamp",
            BiomeType::Tundra => "Tundra",
            BiomeType::Savanna => "Savanna",
            BiomeType::Jungle => "Jungle",
            BiomeType::Volcanic => "Volcanic",
            BiomeType::Canyon => "Canyon",
        }
    }
}

/// The biome whose canonical id (lower-cased) is `lower`, if any.
pub open spec fn biome_of_canonical_id(lower: Seq<char>) -> Option<BiomeType> {
    if lower == "plains"@ {
        Some(BiomeType::Plains)
    } else if lower == "forest"@ {
        Some(BiomeType::Forest)
    } else if lower == "desert"@ {
        Some(BiomeType::Desert)
    } else if lower == "mountain"@ {
        Some(BiomeType::Mountain)
    } else if lower == "swamp"@ {
        Some(BiomeType::Swamp)
    } else if lower == "tundra"@ {
        Some(BiomeType::Tundra)
    } else if lower == "savanna"@ {
        Some(BiomeType::Savanna)
    } else if lower == "jungle"@ {
        Some(BiomeType::Jungle)
    } else if lower == "volcanic"@ {
        Some(BiomeType::Volcanic)
    } else if lower == "canyon"@ {
        Some(BiomeType::Canyon)
    } else {
        None
    }
}

/// The biome of a spec id, case-insensitively; `None` for an unknown id.
pub fn biome_type_from_id(id: &str) -> (b: Option<BiomeType>)
    ensures
        b == biome_of_canonical_id(lowercase_of(id@)),
        all_ascii(id@) ==> b == biome_of_canonical_id(ascii_lower(id@)),
{
    let lower = to_lowercase(id);
    if same_text(&lower, "plains") {
        Some(BiomeType::Plains)
    } else if same_text(&lower, "forest") {
        Some(BiomeType::Forest)
    } else if same_text(&lower, "desert") {
        Some(BiomeType::Desert)
    } else if same_text(&lower, "mountain") {
        Some(BiomeType::Mountain)
    } else if same_text(&lower, "swamp") {
        Some(BiomeType::Swamp)
    } else if same_text(&lower, "tundra") {
        Some(BiomeType::Tundra)
    } else if same_text(&lower, "savanna") {
        Some(BiomeType::Savanna)
    } else if same_text(&lower, "jungle") {
        Some(BiomeType::Jungle)
    } else if same_text(&lower, "volcanic") {
        Some(BiomeType::Volcanic)
    } else if same_text(&lower, "canyon") {
        Some(BiomeType::Canyon)
    } else {
        None
    }
}

/// A known id and its biome agree with the case-insensitive name lookup.
pub proof fn lemma_canonical_id_matches_name(lower: Seq<char>)
    ensures
        biome_of_canonical_id(lower) matches Some(b) ==> biome_of_lower_name(lower) == b,
        biome_of_canonical_id(lower) is None ==> biome_of_lower_name(lower) == BiomeType::Plains,
{
}

/// The French display name used when a biome has no spec.
pub open spec fn default_name_fr(b: BiomeType) -> Seq<char> {
    match b {
        BiomeType::Plains => "Plaines"@,
        BiomeType::Forest => "Foret"@,
        BiomeType::Desert => "Desert"@,
        BiomeType::Mountain => "Montagne"@,
        BiomeType::Swamp => "Marais"@,
        BiomeType::Tundra => "Toundra"@,
        BiomeType::Savanna => "Savane"@,
        BiomeType::Jungle => "Jungle"@,
        BiomeType::Volcanic => "Volcanique"@,
        BiomeType::Canyon => "Canyon"@,
    }
}

/// French display name of a biome without spec.
pub fn default_display_name_fr(b: BiomeType) -> (s: &'static str)
    ensures
        s@ == default_name_fr(b),
{
    match b {
        BiomeType::Plains => "Plaines",
        BiomeType::Forest => "Foret",
        BiomeType::Desert => "Desert",
        BiomeType::Mountain => "Montagne",
        BiomeType::Swamp => "Marais",
        BiomeType::Tundra => "Toundra",
        BiomeType::Savanna => "Savane",
        BiomeType::Jungle => "Jungle",
        BiomeType::Volcanic => "Volcanique",
        BiomeType::Canyon => "Canyon",
    }
}

/// The preview colour used when a biome has no spec.
pub open spec fn default_rgb(b: BiomeType) -> (u8, u8, u8) {
    match b {
        BiomeType::Plains => (115, 166, 64),
        BiomeType::Forest => (51, 107, 38),
        BiomeType::Desert => (199, 173, 107),
        BiomeType::Mountain => (133, 128, 122),
        BiomeType::Swamp => (77, 97, 56),
        BiomeType::Tundra => (209, 224, 235),
        BiomeType::Savanna => (184, 166, 89),
        BiomeType::Jungle => (25, 89, 20),
        BiomeType::Volcanic => (64, 46, 38),
        BiomeType::Canyon => (173, 107, 64),
    }
}

/// Map-preview colour of a biome without spec.
pub fn default_preview_rgb(b: BiomeType) -> (c: (u8, u8, u8))
    ensures
        c == default_rgb(b),
{
    match b {
        BiomeType::Plains => (115, 166, 64),
        BiomeType::Forest => (51, 107, 38),
        BiomeType::Desert => (199, 173, 107),
        BiomeType::Mountain => (133, 128, 122),
        BiomeType::Swamp => (77, 97, 56),
        BiomeType::Tundra => (209, 224, 235),
        BiomeType::Savanna => (184, 166, 89),
        BiomeType::Jungle => (25, 89, 20),
        BiomeType::Volcanic => (64, 46, 38),
        BiomeType::Canyon => (173, 107, 64),
    }
}

/// Ids round-trip: the biome stored under a biome's id is that biome.
pub proof fn lemma_biome_id_round_trip(b: BiomeType)
    ensures
        biome_of_id(biome_id(b)) == b,
        biome_id(b) < 10,
{
}

/// Editorial status of a biome spec.
#[derive(Debug, Clone, Copy, PartialEq, Eq, Structural)]
pub enum BiomeStatus {
    Draft,
    PendingReview,
    Approved,
    Rejected,
    NeedsAdjustment,
}

impl Default for BiomeStatus {
    /// A new spec starts as a draft.
    fn default() -> (s: Self)
        ensures
            s == BiomeStatus::Draft,
    {
        BiomeStatus::Draft
    }
}

/// Colour palette of a biome spec (colour names or hex codes).
#[derive(Debug, Clone)]
pub struct BiomePalette {
    pub primary: String,
    pub secondary: String,
    pub accent: String,
    pub ground: String,
}

impl Default for BiomePalette {
    /// The empty palette.
    fn default() -> (p: Self)
        ensures
            p.primary@ == Seq::<char>::empty(),
            p.secondary@ == Seq::<char>::empty(),
            p.accent@ == Seq::<char>::empty(),
            p.ground@ == Seq::<char>::empty(),
    {
        BiomePalette {
            primary: String::new(),
            secondary: String::new(),
            accent: String::new(),
            ground: String::new(),
        }
    }
}

/// Biomes whose distant (LOD2) tiles carry tree silhouettes.
pub open spec fn has_distant_trees(b: BiomeType) -> bool {
    b == BiomeType::Forest || b == BiomeType::Plains || b == BiomeType::Jungle || b == BiomeType::Tundra
        || b == BiomeType::Savanna || b == BiomeType::Swamp
}

/// Whether distant tiles of this biome show tree silhouettes (forests,
/// plains, jungles, tundras, savannas and swamps do).
pub fn biome_supports_distant_trees(b: BiomeType) -> (r: bool)
    ensures
        r == has_distant_trees(b),
{
    match b {
        BiomeType::Forest | BiomeType::Plains | BiomeType::Jungle | BiomeType::Tundra | BiomeType::Savanna
        | BiomeType::Swamp => true,
        _ => false,
    }
}

/// Grass blades per chunk when a biome spec does not set a density.
pub fn default_grass_density() -> (d: u32)
    ensures
        d == 200,
{
    200
}

} // verus!
