use crate::artifacts::{affix_table_wf, is_percent_key, ArtifactData, Substat};
use crate::text::{ends_with_underscore, str_eq};
use std::collections::HashMap;
use vstd::prelude::*;

verus! {

broadcast use vstd::std_specs::hash::group_hash_axioms;

/// A gear template of the reliquary table.
pub struct ReliquaryEntry {
    pub equip_type: String,
    pub id: u32,
    pub rank_level: u32,
    pub set_id: u32,
}

/// An entry of the display-item table.
pub struct DisplayItemEntry {
    pub display_type: String,
    pub name_text_map_hash: u32,
    pub param: u32,
}

/// An entry of the main-stat table.
pub struct MainPropEntry {
    pub id: u32,
    pub prop_type: String,
}

/// An entry of the affix table; `prop_value` is fixed-point, scaled by `VALUE_SCALE`.
pub struct AffixEntry {
    pub id: u32,
    pub prop_type: String,
    pub prop_value: i64,
}

/// Why a lookup table could not be built.
#[derive(Clone, Copy, PartialEq, Eq, Structural, Debug)]
pub enum TableError {
    /// An affix value, scaled for a percentage-style key, does not fit in 64 bits.
    ValueOutOfRange,
}

/// Whether `c` has the Unicode `Alphabetic` property.
pub uninterp spec fn alphabetic(c: char) -> bool;

/// The upper-case mapping of `c`.
pub uninterp spec fn upper_of(c: char) -> Seq<char>;

/// The lower-case mapping of `c`.
pub uninterp spec fn lower_of(c: char) -> Seq<char>;

/// Relies on `char::is_alphabetic`.
#[verifier::external_body]
fn is_alphabetic(c: char) -> (r: bool)
    ensures
        r == alphabetic(c),
{
    c.is_alphabetic()
}

/// Relies on `char::to_uppercase`: the characters it yields, collected.
#[verifier::external_body]
fn to_upper(c: char) -> (r: String)
    ensures
        r@ == upper_of(c),
{
    c.to_uppercase().collect()
}

/// Relies on `char::to_lowercase`: the characters it yields, collected.
#[verifier::external_body]
fn to_lower(c: char) -> (r: String)
    ensures
        r@ == lower_of(c),
{
    c.to_lowercase().collect()
}

/// The canonical slot key of an equip-type name; unknown names pass through.
pub open spec fn equip_slot_key(s: Seq<char>) -> Seq<char> {
    if s == "EQUIP_BRACER"@ {
        "flower"@
    } else if s == "EQUIP_NECKLACE"@ {
        "plume"@
    } else if s == "EQUIP_SHOES"@ {
        "sands"@
    } else if s == "EQUIP_RING"@ {
        "goblet"@
    } else if s == "EQUIP_DRESS"@ {
        "circlet"@
    } else {
        s
    }
}

pub fn map_equip_type_to_good(input: &str) -> (r: String)
    ensures
        r@ == equip_slot_key(input@),
{
    let key = if str_eq(input, "EQUIP_BRACER") {
        "flower"
    } else if str_eq(input, "EQUIP_NECKLACE") {
        "plume"
    } else if str_eq(input, "EQUIP_SHOES") {
        "sands"
    } else if str_eq(input, "EQUIP_RING") {
        "goblet"
    } else if str_eq(input, "EQUIP_DRESS") {
        "circlet"
    } else {
        input
    };
    String::from_str(key)
}

/// The canonical stat key of a property name; unknown names pass through.
pub open spec fn prop_key(s: Seq<char>) -> Seq<char> {
    if s == "FIGHT_PROP_HP"@ {
        "hp"@
    } else if s == "FIGHT_PROP_HP_PERCENT"@ {
        "hp_"@
    } else if s == "FIGHT_PROP_ATTACK"@ {
        "atk"@
    } else if s == "FIGHT_PROP_ATTACK_PERCENT"@ {
        "atk_"@
    } else if s == "FIGHT_PROP_DEFENSE"@ {
        "def"@
    } else if s == "FIGHT_PROP_DEFENSE_PERCENT"@ {
        "def_"@
    } else if s == "FIGHT_PROP_ELEMENT_MASTERY"@ {
        "eleMas"@
    } else if s == "FIGHT_PROP_CHARGE_EFFICIENCY"@ {
        "enerRech_"@
    } else if s == "FIGHT_PROP_HEAL_ADD"@ {
        "heal_"@
    } else if s == "FIGHT_PROP_CRITICAL"@ {
        "critRate_"@
    } else if s == "FIGHT_PROP_CRITICAL_HURT"@ {
        "critDMG_"@
    } else if s == "FIGHT_PROP_PHYSICAL_ADD_HURT"@ {
        "physical_dmg_"@
    } else if s == "FIGHT_PROP_WIND_ADD_HURT"@ {
        "anemo_dmg_"@
    } else if s == "FIGHT_PROP_ROCK_ADD_HURT"@ {
        "geo_dmg_"@
    } else if s == "FIGHT_PROP_ELEC_ADD_HURT"@ {
        "electro_dmg_"@
    } else if s == "FIGHT_PROP_WATER_ADD_HURT"@ {
        "hydro_dmg_"@
    } else if s == "FIGHT_PROP_FIRE_ADD_HURT"@ {
        "pyro_dmg_"@
    } else if s == "FIGHT_PROP_ICE_ADD_HURT"@ {
        "cryo_dmg_"@
    } else if s == "FIGHT_PROP_GRASS_ADD_HURT"@ {
        "dendro_dmg_"@
    } else {
        s
    }
}

pub fn map_main_prop_to_good(input: &str) -> (r: String)
    ensures
        r@ == prop_key(input@),
{
    let key = if str_eq(input, "FIGHT_PROP_HP") {
        "hp"
    } else if str_eq(input, "FIGHT_PROP_HP_PERCENT") {
        "hp_"
    } else if str_eq(input, "FIGHT_PROP_ATTACK") {
        "atk"
    } else if str_eq(input, "FIGHT_PROP_ATTACK_PERCENT") {
        "atk_"
    } else if str_eq(input, "FIGHT_PROP_DEFENSE") {
        "def"
    } else if str_eq(input, "FIGHT_PROP_DEFENSE_PERCENT") {
        "def_"
    } else if str_eq(input, "FIGHT_PROP_ELEMENT_MASTERY") {
        "eleMas"
    } else if str_eq(input, "FIGHT_PROP_CHARGE_EFFICIENCY") {
        "enerRech_"
    } else if str_eq(input, "FIGHT_PROP_HEAL_ADD") {
        "heal_"
    } else if str_eq(input, "FIGHT_PROP_CRITICAL") {
        "critRate_"
    } else if str_eq(input, "FIGHT_PROP_CRITICAL_HURT") {
        "critDMG_"
    } else if str_eq(input, "FIGHT_PROP_PHYSICAL_ADD_HURT") {
        "physical_dmg_"
    } else if str_eq(input, "FIGHT_PROP_WIND_ADD_HURT") {
        "anemo_dmg_"
    } else if str_eq(input, "FIGHT_PROP_ROCK_ADD_HURT") {
        "geo_dmg_"
    } else if str_eq(input, "FIGHT_PROP_ELEC_ADD_HURT") {
        "electro_dmg_"
    } else if str_eq(input, "FIGHT_PROP_WATER_ADD_HURT") {
        "hydro_dmg_"
    } else if str_eq(input, "FIGHT_PROP_FIRE_ADD_HURT") {
        "pyro_dmg_"
    } else if str_eq(input, "FIGHT_PROP_ICE_ADD_HURT") {
        "cryo_dmg_"
    } else if str_eq(input, "FIGHT_PROP_GRASS_ADD_HURT") {
        "dendro_dmg_"
    } else {
        input
    };
    String::from_str(key)
}

/// Canonical set name of a prefix of a localized name, and whether the next
/// letter starts a word. Apostrophes are skipped without ending a word; any
/// other non-letter ends one.
pub open spec fn set_name_state(s: Seq<char>) -> (Seq<char>, bool)
    decreases s.len(),
{
    if s.len() == 0 {
        (seq![], true)
    } else {
        let prev = set_name_state(s.drop_last());
        let c = s.last();
        if alphabetic(c) {
            if prev.1 {
                (prev.0 + upper_of(c), false)
            } else {
                (prev.0 + lower_of(c), false)
            }
        } else if c != '\'' {
            (prev.0, true)
        } else {
            prev
        }
    }
}

/// The localized set name as one title-cased word.
pub open spec fn set_name_key(s: Seq<char>) -> Seq<char> {
    set_name_state(s).0
}

pub fn map_set_name_to_good(input: &str) -> (r: String)
    ensures
        r@ == set_name_key(input@),
{
    let mut result = String::new();
    let mut capitalize_next = true;
    let n = input.unicode_len();
    let mut i: usize = 0;
    while i < n
        invariant
            n == input@.len(),
            i <= n,
            (result@, capitalize_next) == set_name_state(input@.take(i as int)),
        decreases n - i,
    {
        let c = input.get_char(i);
        proof {
            assert(input@.take(i + 1).drop_last() == input@.take(i as int));
            assert(input@.take(i + 1).last() == c);
        }
        if is_alphabetic(c) {
            if capitalize_next {
                let up = to_upper(c);
                result.append(up.as_str());
                capitalize_next = false;
            } else {
                let low = to_lower(c);
                result.append(low.as_str());
            }
        } else if c != '\'' {
            capitalize_next = true;
        }
        i = i + 1;
    }
    assert(input@.take(n as int) == input@);
    result
}

/// A gear-template table as plain values: set key, slot key, rarity.
pub open spec fn types_view(m: Map<u32, ArtifactData>) -> Map<u32, (Seq<char>, Seq<char>, u32)> {
    m.map_values(|d: ArtifactData| (d.setKey@, d.slotKey@, d.rarity))
}

pub open spec fn strings_view(m: Map<u32, String>) -> Map<u32, Seq<char>> {
    m.map_values(|s: String| s@)
}

pub open spec fn substat_table_view(m: Map<u32, Substat>) -> Map<u32, (Seq<char>, int)> {
    m.map_values(|s: Substat| (s.key@, s.value as int))
}

/// Set id to name hash, from the display entries that are gear-set items; a later
/// entry for the same set wins.
pub open spec fn set_name_hashes(display: Seq<DisplayItemEntry>) -> Map<u32, u32>
    decreases display.len(),
{
    if display.len() == 0 {
        Map::empty()
    } else {
        let m = set_name_hashes(display.drop_last());
        let e = display.last();
        if e.display_type@ == "RELIQUARY_ITEM"@ {
            m.insert(e.param, e.name_text_map_hash)
        } else {
            m
        }
    }
}

/// Template id to set key, slot key and rarity, for the templates whose set name
/// resolves through `hashes` and `text`; a later entry for the same id wins.
pub open spec fn artifact_table(
    reliquary: Seq<ReliquaryEntry>,
    hashes: Map<u32, u32>,
    text: Map<u32, Seq<char>>,
) -> Map<u32, (Seq<char>, Seq<char>, u32)>
    decreases reliquary.len(),
{
    if reliquary.len() == 0 {
        Map::empty()
    } else {
        let m = artifact_table(reliquary.drop_last(), hashes, text);
        let e = reliquary.last();
        if hashes.contains_key(e.set_id) && text.contains_key(hashes[e.set_id]) {
            m.insert(
                e.id,
                (set_name_key(text[hashes[e.set_id]]), equip_slot_key(e.equip_type@), e.rank_level),
            )
        } else {
            m
        }
    }
}

/// Joins the reliquary, display-item and text tables into template id to set,
/// slot and rarity. The text table is keyed by name hash.
pub fn build_artifact_id_map(
    reliquary: &Vec<ReliquaryEntry>,
    display: &Vec<DisplayItemEntry>,
    text_map: &HashMap<u32, String>,
) -> (r: HashMap<u32, ArtifactData>)
    ensures
        types_view(r@) == artifact_table(reliquary@, set_name_hashes(display@), strings_view(text_map@)),
{
    let mut setid_to_hash: HashMap<u32, u32> = HashMap::new();
    let mut i: usize = 0;
    while i < display.len()
        invariant
            i <= display.len(),
            setid_to_hash@ == set_name_hashes(display@.take(i as int)),
        decreases display.len() - i,
    {
        proof {
            assert(display@.take(i + 1).drop_last() == display@.take(i as int));
            assert(display@.take(i + 1).last() == display@[i as int]);
        }
        let e = &display[i];
        if str_eq(e.display_type.as_str(), "RELIQUARY_ITEM") {
            setid_to_hash.insert(e.param, e.name_text_map_hash);
        }
        i = i + 1;
    }
    assert(display@.take(display.len() as int) == display@);
    let ghost text = strings_view(text_map@);
    let mut result: HashMap<u32, ArtifactData> = HashMap::new();
    let mut j: usize = 0;
    while j < reliquary.len()
        invariant
            j <= reliquary.len(),
            setid_to_hash@ == set_name_hashes(display@),
            text == strings_view(text_map@),
            types_view(result@) == artifact_table(reliquary@.take(j as int), setid_to_hash@, text),
        decreases reliquary.len() - j,
    {
        proof {
            assert(reliquary@.take(j + 1).drop_last() == reliquary@.take(j as int));
            assert(reliquary@.take(j + 1).last() == reliquary@[j as int]);
        }
        let e = &reliquary[j];
        match setid_to_hash.get(&e.set_id) {
            Some(hash) => {
                match text_map.get(hash) {
                    Some(name) => {
                        let data = ArtifactData {
                            setKey: map_set_name_to_good(name.as_str()),
                            slotKey: map_equip_type_to_good(e.equip_type.as_str()),
                            rarity: e.rank_level,
                        };
                        let ghost prev = result@;
                        result.insert(e.id, data);
                        assert(types_view(result@) =~= types_view(prev).insert(
                            e.id,
                            (data.setKey@, data.slotKey@, data.rarity),
                        ));
                    },
                    None => {},
                }
            },
            None => {},
        }
        j = j + 1;
    }
    assert(reliquary@.take(reliquary.len() as int) == reliquary@);
    result
}

/// Main-stat id to canonical key; a later entry for the same id wins.
pub open spec fn main_prop_table(entries: Seq<MainPropEntry>) -> Map<u32, Seq<char>>
    decreases entries.len(),
{
    if entries.len() == 0 {
        Map::empty()
    } else {
        let e = entries.last();
        main_prop_table(entries.drop_last()).insert(e.id, prop_key(e.prop_type@))
    }
}

pub fn build_main_prop_map(entries: &Vec<MainPropEntry>) -> (r: HashMap<u32, String>)
    ensures
        strings_view(r@) == main_prop_table(entries@),
{
    let mut result: HashMap<u32, String> = HashMap::new();
    let mut i: usize = 0;
    while i < entries.len()
        invariant
            i <= entries.len(),
            strings_view(result@) == main_prop_table(entries@.take(i as int)),
        decreases entries.len() - i,
    {
        proof {
            assert(entries@.take(i + 1).drop_last() == entries@.take(i as int));
            assert(entries@.take(i + 1).last() == entries@[i as int]);
        }
        let e = &entries[i];
        let key = map_main_prop_to_good(e.prop_type.as_str());
        let ghost prev = result@;
        result.insert(e.id, key);
        assert(strings_view(result@) =~= strings_view(prev).insert(e.id, key@));
        i = i + 1;
    }
    assert(entries@.take(entries.len() as int) == entries@);
    result
}

/// The stored value of an affix: scaled by one hundred for a percentage-style key.
pub open spec fn affix_value(key: Seq<char>, v: i64) -> int {
    if is_percent_key(key) {
        v * 100
    } else {
        v as int
    }
}

/// Every affix value, once scaled, fits in 64 bits.
pub open spec fn affix_values_fit(entries: Seq<AffixEntry>) -> bool {
    forall|i: int|
        0 <= i < entries.len() ==> i64::MIN <= #[trigger] affix_value(
            prop_key(entries[i].prop_type@),
            entries[i].prop_value,
        ) <= i64::MAX
}

/// Affix id to canonical key and stored value; a later entry for the same id wins.
pub open spec fn affix_table(entries: Seq<AffixEntry>) -> Map<u32, (Seq<char>, int)>
    decreases entries.len(),
{
    if entries.len() == 0 {
        Map::empty()
    } else {
        let e = entries.last();
        let k = prop_key(e.prop_type@);
        affix_table(entries.drop_last()).insert(e.id, (k, affix_value(k, e.prop_value)))
    }
}

/// Builds the affix table. Percentage-style values are scaled by one hundred here,
/// once; a value that then leaves 64 bits fails the whole build.
pub fn build_affix_prop_map(entries: &Vec<AffixEntry>) -> (r: Result<HashMap<u32, Substat>, TableError>)
    ensures
        r is Ok <==> affix_values_fit(entries@),
        r matches Ok(m) ==> affix_table_wf(m@) && substat_table_view(m@) == affix_table(entries@),
        r matches Err(e) ==> e == TableError::ValueOutOfRange,
{
    let mut result: HashMap<u32, Substat> = HashMap::new();
    let mut i: usize = 0;
    while i < entries.len()
        invariant
            i <= entries.len(),
            affix_values_fit(entries@.take(i as int)),
            affix_table_wf(result@),
            substat_table_view(result@) == affix_table(entries@.take(i as int)),
        decreases entries.len() - i,
    {
        proof {
            assert(entries@.take(i + 1).drop_last() == entries@.take(i as int));
            assert(entries@.take(i + 1).last() == entries@[i as int]);
        }
        let e = &entries[i];
        let key = map_main_prop_to_good(e.prop_type.as_str());
        let value: i64 = if ends_with_underscore(key.as_str()) {
            match e.prop_value.checked_mul(100) {
                Some(v) => v,
                None => {
                    assert(!affix_values_fit(entries@)) by {
                        assert(entries@[i as int] == *e);
                        let v = affix_value(prop_key(entries@[i as int].prop_type@), entries@[i as int].prop_value);
                        assert(v == e.prop_value * 100);
                        assert(!(i64::MIN <= v <= i64::MAX));
                    }
                    return Err(TableError::ValueOutOfRange);
                },
            }
        } else {
            e.prop_value
        };
        let ghost prev = result@;
        let ghost k = key@;
        result.insert(e.id, Substat { key, value: value as i128 });
        assert(substat_table_view(result@) =~= substat_table_view(prev).insert(e.id, (k, value as int)));
        assert(affix_values_fit(entries@.take(i + 1))) by {
            assert forall|t: int| 0 <= t < i + 1 implies i64::MIN <= #[trigger] affix_value(
                prop_key(entries@.take(i + 1)[t].prop_type@),
                entries@.take(i + 1)[t].prop_value,
            ) <= i64::MAX by {
                if t < i {
                    assert(entries@.take(i + 1)[t] == entries@.take(i as int)[t]);
                }
            }
        }
        i = i + 1;
    }
    assert(entries@.take(entries.len() as int) == entries@);
    Ok(result)
}

} // verus!
