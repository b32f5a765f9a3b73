//! The identity part of the biome registry: the French display name and the
//! preview colour that a biome's spec may set, with the built-in fallbacks
//! for biomes whose spec is missing or leaves them empty.

use vstd::prelude::*;
use std::collections::HashMap;
use crate::biomes::{
    biome_id, biome_of_canonical_id, biome_type_from_id, default_display_name_fr, default_name_fr,
    default_preview_rgb, default_rgb, lowercase_of, BiomeType,
};

verus! {

/// What a biome spec says of the biome's identity.
pub struct BiomeIdentitySpec {
    /// Biome id of the spec (`forest`, `plains`, ... in any case).
    pub id: String,
    /// French display name; empty when the spec does not set one.
    pub display_name_fr: String,
    /// Map-preview colour, when the spec sets one.
    pub preview_rgb: Option<[u8; 3]>,
}

/// A spec's identity as plain values: its display name and preview colour.
pub open spec fn identity_of(s: BiomeIdentitySpec) -> (Seq<char>, Option<[u8; 3]>) {
    (s.display_name_fr@, s.preview_rgb)
}

/// The identities registered from `specs`, by biome id: a spec whose id names
/// no biome is skipped, and a later spec for the same biome replaces an
/// earlier one.
pub open spec fn registered(specs: Seq<BiomeIdentitySpec>) -> Map<u8, (Seq<char>, Option<[u8; 3]>)>
    decreases specs.len(),
{
    if specs.len() == 0 {
        Map::empty()
    } else {
        let m = registered(specs.drop_last());
        let s = specs.last();
        match biome_of_canonical_id(lowercase_of(s.id@)) {
            Some(b) => m.insert(biome_id(b), identity_of(s)),
            None => m,
        }
    }
}

/// Identities of the biomes that have a spec, by biome id.
pub struct BiomeRegistry {
    specs: HashMap<u8, BiomeIdentitySpec>,
}

impl View for BiomeRegistry {
    type V = Map<u8, (Seq<char>, Option<[u8; 3]>)>;

    closed spec fn view(&self) -> Map<u8, (Seq<char>, Option<[u8; 3]>)> {
        Map::new(|k: u8| self.specs@.contains_key(k), |k: u8| identity_of(self.specs@[k]))
    }
}

/// The display name shown for `b`: its spec's name when set, else the
/// built-in French name.
pub open spec fn shown_name(reg: Map<u8, (Seq<char>, Option<[u8; 3]>)>, b: BiomeType) -> Seq<char> {
    if reg.contains_key(biome_id(b)) && reg[biome_id(b)].0.len() > 0 {
        reg[biome_id(b)].0
    } else {
        default_name_fr(b)
    }
}

/// The preview colour shown for `b`: its spec's colour when set, else the
/// built-in one.
pub open spec fn shown_rgb(reg: Map<u8, (Seq<char>, Option<[u8; 3]>)>, b: BiomeType) -> (u8, u8, u8) {
    if reg.contains_key(biome_id(b)) && reg[biome_id(b)].1 is Some {
        let c = reg[biome_id(b)].1.unwrap();
        (c[0], c[1], c[2])
    } else {
        default_rgb(b)
    }
}

fn copy_spec(s: &BiomeIdentitySpec) -> (c: BiomeIdentitySpec)
    ensures
        c.id@ == s.id@,
        identity_of(c) == identity_of(*s),
{
    BiomeIdentitySpec { id: s.id.clone(), display_name_fr: s.display_name_fr.clone(), preview_rgb: s.preview_rgb }
}

impl BiomeRegistry {
    /// Registers the specs in order (see [`registered`]).
    pub fn from_specs(specs_vec: Vec<BiomeIdentitySpec>) -> (r: Self)
        ensures
            r@ == registered(specs_vec@),
    {
        broadcast use vstd::std_specs::hash::group_hash_axioms;
        let mut specs: HashMap<u8, BiomeIdentitySpec> = HashMap::new();
        let mut i: usize = 0;
        while i < specs_vec.len()
            invariant
                i <= specs_vec@.len(),
                Map::new(|k: u8| specs@.contains_key(k), |k: u8| identity_of(specs@[k]))
                    == registered(specs_vec@.take(i as int)),
            decreases specs_vec@.len() - i,
        {
            let ghost before = specs@;
            proof {
                assert(specs_vec@.take(i as int + 1).drop_last() =~= specs_vec@.take(i as int));
                assert(specs_vec@.take(i as int + 1).last() == specs_vec@[i as int]);
            }
            let s = copy_spec(&specs_vec[i]);
            match biome_type_from_id(s.id.as_str()) {
                Some(bt) => {
                    let key: u8 = bt.id();
                    specs.insert(key, s);
                    proof {
                        assert(Map::new(|k: u8| specs@.contains_key(k), |k: u8| identity_of(specs@[k]))
                            =~= registered(specs_vec@.take(i as int + 1)));
                    }
                },
                None => {
                    proof {
                        assert(Map::new(|k: u8| specs@.contains_key(k), |k: u8| identity_of(specs@[k]))
                            =~= registered(specs_vec@.take(i as int + 1)));
                    }
                },
            }
            i += 1;
        }
        proof {
            assert(specs_vec@.take(specs_vec@.len() as int) =~= specs_vec@);
        }
        BiomeRegistry { specs }
    }

    /// French display name of `b`: the spec's when it sets a non-empty one,
    /// else the built-in name.
    pub fn display_name_fr(&self, biome: BiomeType) -> (s: &str)
        ensures
            s@ == shown_name(self@, biome),
    {
        broadcast use vstd::std_specs::hash::group_hash_axioms;
        let key: u8 = biome.id();
        match self.specs.get(&key) {
            Some(spec) => {
                if spec.display_name_fr.as_str().unicode_len() > 0 {
                    return spec.display_name_fr.as_str();
                }
            },
            None => {},
        }
        default_display_name_fr(biome)
    }

    /// Map-preview colour of `b`: the spec's when it sets one, else the
    /// built-in colour.
    pub fn preview_rgb(&self, biome: BiomeType) -> (c: (u8, u8, u8))
        ensures
            c == shown_rgb(self@, biome),
    {
        broadcast use vstd::std_specs::hash::group_hash_axioms;
        let key: u8 = biome.id();
        match self.specs.get(&key) {
            Some(spec) => {
                match spec.preview_rgb {
                    Some(rgb) => {
                        return (rgb[0], rgb[1], rgb[2]);
                    },
                    None => {},
                }
            },
            None => {},
        }
        default_preview_rgb(biome)
    }

    /// Number of biomes with a spec.
    pub fn len(&self) -> (n: usize)
        ensures
            n == self@.dom().len(),
    {
        broadcast use vstd::std_specs::hash::group_hash_axioms;
        proof {
            assert(self@.dom() =~= self.specs@.dom());
        }
        self.specs.len()
    }
}

} // verus!
