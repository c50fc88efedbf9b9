use stardb_exporter::keys::{load_keys, KeyError};
use stardb_exporter::tables::{
    build_affix_prop_map, build_artifact_id_map, build_main_prop_map, map_equip_type_to_good,
    map_main_prop_to_good, map_set_name_to_good, AffixEntry, DisplayItemEntry, MainPropEntry,
    ReliquaryEntry, TableError,
};
use std::collections::HashMap;

#[test]
fn set_names_are_title_cased() {
    assert_eq!(map_set_name_to_good("Gladiator's Finale"), "GladiatorsFinale");
    assert_eq!(map_set_name_to_good("gladiator's finale"), "GladiatorsFinale");
    assert_eq!(map_set_name_to_good("VERMILLION hereafter"), "VermillionHereafter");
    assert_eq!(map_set_name_to_good("Echoes of an Offering"), "EchoesOfAnOffering");
    assert_eq!(map_set_name_to_good(""), "");
}

#[test]
fn slots_are_mapped() {
    assert_eq!(map_equip_type_to_good("EQUIP_BRACER"), "flower");
    assert_eq!(map_equip_type_to_good("EQUIP_NECKLACE"), "plume");
    assert_eq!(map_equip_type_to_good("EQUIP_SHOES"), "sands");
    assert_eq!(map_equip_type_to_good("EQUIP_RING"), "goblet");
    assert_eq!(map_equip_type_to_good("EQUIP_DRESS"), "circlet");
    assert_eq!(map_equip_type_to_good("EQUIP_OTHER"), "EQUIP_OTHER");
}

#[test]
fn props_are_mapped() {
    assert_eq!(map_main_prop_to_good("FIGHT_PROP_HP_PERCENT"), "hp_");
    assert_eq!(map_main_prop_to_good("FIGHT_PROP_CRITICAL"), "critRate_");
    assert_eq!(map_main_prop_to_good("FIGHT_PROP_ELEMENT_MASTERY"), "eleMas");
    assert_eq!(map_main_prop_to_good("FIGHT_PROP_GRASS_ADD_HURT"), "dendro_dmg_");
    assert_eq!(map_main_prop_to_good("FIGHT_PROP_UNKNOWN"), "FIGHT_PROP_UNKNOWN");
}

#[test]
fn artifact_table_joins_through_set_and_hash() {
    let reliquary = vec![
        ReliquaryEntry { equip_type: "EQUIP_BRACER".to_string(), id: 1, rank_level: 5, set_id: 15001 },
        ReliquaryEntry { equip_type: "EQUIP_RING".to_string(), id: 2, rank_level: 4, set_id: 15002 },
        ReliquaryEntry { equip_type: "EQUIP_DRESS".to_string(), id: 3, rank_level: 3, set_id: 15003 },
    ];
    let display = vec![
        DisplayItemEntry { display_type: "RELIQUARY_ITEM".to_string(), name_text_map_hash: 111, param: 15001 },
        DisplayItemEntry { display_type: "RELIQUARY_ITEM".to_string(), name_text_map_hash: 222, param: 15002 },
        DisplayItemEntry { display_type: "OTHER_ITEM".to_string(), name_text_map_hash: 111, param: 15003 },
    ];
    let mut text = HashMap::new();
    text.insert(111, "Gladiator's Finale".to_string());
    let map = build_artifact_id_map(&reliquary, &display, &text);
    assert_eq!(map.len(), 1);
    let d = &map[&1];
    assert_eq!(d.setKey, "GladiatorsFinale");
    assert_eq!(d.slotKey, "flower");
    assert_eq!(d.rarity, 5);
}

#[test]
fn main_prop_table_maps_keys() {
    let entries = vec![
        MainPropEntry { id: 1, prop_type: "FIGHT_PROP_HP".to_string() },
        MainPropEntry { id: 2, prop_type: "FIGHT_PROP_ATTACK_PERCENT".to_string() },
    ];
    let map = build_main_prop_map(&entries);
    assert_eq!(map[&1], "hp");
    assert_eq!(map[&2], "atk_");
}

#[test]
fn percent_affix_values_are_scaled_once() {
    let entries = vec![
        AffixEntry { id: 1, prop_type: "FIGHT_PROP_CRITICAL".to_string(), prop_value: 103_320_000 },
        AffixEntry { id: 2, prop_type: "FIGHT_PROP_ATTACK".to_string(), prop_value: 19_000_000_000 },
    ];
    let map = build_affix_prop_map(&entries).unwrap();
    assert_eq!(map[&1].key, "critRate_");
    assert_eq!(map[&1].value, 10_332_000_000);
    assert_eq!(map[&2].key, "atk");
    assert_eq!(map[&2].value, 19_000_000_000);
}

#[test]
fn oversized_affix_value_fails_build() {
    let entries = vec![AffixEntry { id: 1, prop_type: "FIGHT_PROP_CRITICAL".to_string(), prop_value: i64::MAX / 10 }];
    assert_eq!(build_affix_prop_map(&entries).err(), Some(TableError::ValueOutOfRange));
}

#[test]
fn keys_decode_from_base64() {
    let keys = load_keys(&vec![(3, "AAEC".to_string()), (4, "aGk=".to_string())]).unwrap();
    assert_eq!(keys[&3], vec![0, 1, 2]);
    assert_eq!(keys[&4], b"hi".to_vec());
    assert_eq!(load_keys(&vec![(1, "!!".to_string())]).err(), Some(KeyError::BadEncoding));
}
