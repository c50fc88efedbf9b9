use stardb_exporter::artifacts::{
    normalize_value, sniff_artifacts, Artifact, ArtifactData, ArtifactSniff, RawArtifact,
    SniffError, Substat, GOOD, VALUE_SCALE,
};
use std::collections::HashMap;

fn data(set: &str, slot: &str, rarity: u32) -> ArtifactData {
    ArtifactData { setKey: set.to_string(), slotKey: slot.to_string(), rarity }
}

fn sub(key: &str, value: i128) -> Substat {
    Substat { key: key.to_string(), value }
}

fn raw(id: u32, level: u32, main: u32, rolls: Vec<u32>, locked: bool) -> RawArtifact {
    RawArtifact { id, level, main_prop_id: main, append_prop_id_list: rolls, is_locked: locked }
}

fn tables() -> (HashMap<u32, ArtifactData>, HashMap<u32, String>, HashMap<u32, Substat>) {
    let mut types = HashMap::new();
    types.insert(1, data("GladiatorsFinale", "flower", 5));
    let mut main = HashMap::new();
    main.insert(10, "hp".to_string());
    let mut affix = HashMap::new();
    affix.insert(100, sub("critRate_", 3_300_000_000));
    affix.insert(200, sub("atk", 19_000_000_000));
    affix.insert(300, sub("def_", 5_830_000_000));
    (types, main, affix)
}

fn pairs(a: &Artifact) -> Vec<(String, i128)> {
    a.substats.iter().map(|s| (s.key.clone(), s.value)).collect()
}

#[test]
fn scenario_gladiator_flower() {
    let (types, main, affix) = tables();
    let batch = vec![raw(1, 5, 10, vec![100, 100, 200], false)];
    let out = sniff_artifacts(&types, &main, &affix, &vec![batch]).unwrap();
    assert_eq!(out.len(), 1);
    let a = &out[0];
    assert_eq!(a.setKey, "GladiatorsFinale");
    assert_eq!(a.slotKey, "flower");
    assert_eq!(a.level, 4);
    assert_eq!(a.rarity, 5);
    assert_eq!(a.mainStatKey, "hp");
    assert!(!a.lock);
    assert_eq!(
        pairs(a),
        vec![("critRate_".to_string(), 6_600_000_000), ("atk".to_string(), 19_000_000_000)]
    );
}

#[test]
fn percent_value_keeps_one_decimal() {
    let key = "critRate_".to_string();
    assert_eq!(normalize_value(&key, 10_332_000_000), 10_300_000_000);
    assert_eq!(normalize_value(&key, 10_350_000_000), 10_400_000_000);
    assert_eq!(normalize_value(&key, 10_345_000_000), 10_400_000_000);
}

#[test]
fn flat_value_rounds_to_whole() {
    let key = "atk".to_string();
    assert_eq!(normalize_value(&key, 18_500_000_000), 19 * VALUE_SCALE);
    assert_eq!(normalize_value(&key, 18_499_999_999), 18 * VALUE_SCALE);
    assert_eq!(normalize_value(&key, -2_500_000_000), -3 * VALUE_SCALE);
}

#[test]
fn level_is_decoded_minus_one() {
    let (types, main, affix) = tables();
    let out = sniff_artifacts(&types, &main, &affix, &vec![vec![raw(1, 5, 10, vec![], true)]]).unwrap();
    assert_eq!(out[0].level, 4);
    assert!(out[0].lock);
    let out = sniff_artifacts(&types, &main, &affix, &vec![vec![raw(1, 21, 10, vec![], true)]]).unwrap();
    assert_eq!(out[0].level, 20);
}

#[test]
fn unknown_template_is_dropped() {
    let (types, main, affix) = tables();
    let batch = vec![raw(7, 5, 10, vec![100], false), raw(1, 3, 10, vec![], false)];
    let out = sniff_artifacts(&types, &main, &affix, &vec![batch]).unwrap();
    assert_eq!(out.len(), 1);
    assert_eq!(out[0].level, 2);
}

#[test]
fn unknown_main_stat_is_null() {
    let (types, main, affix) = tables();
    let out = sniff_artifacts(&types, &main, &affix, &vec![vec![raw(1, 5, 99, vec![200], false)]]).unwrap();
    assert_eq!(out[0].mainStatKey, "null");
    assert_eq!(out[0].setKey, "GladiatorsFinale");
    assert_eq!(out[0].slotKey, "flower");
    assert_eq!(pairs(&out[0]), vec![("atk".to_string(), 19_000_000_000)]);
}

#[test]
fn unknown_affix_is_skipped() {
    let (types, main, affix) = tables();
    let out = sniff_artifacts(&types, &main, &affix, &vec![vec![raw(1, 1, 10, vec![555, 200], false)]]).unwrap();
    assert_eq!(pairs(&out[0]), vec![("atk".to_string(), 19_000_000_000)]);
}

#[test]
fn substat_order_does_not_matter() {
    let (types, main, affix) = tables();
    let a = sniff_artifacts(&types, &main, &affix, &vec![vec![raw(1, 1, 10, vec![100, 200, 300, 100], false)]]).unwrap();
    let b = sniff_artifacts(&types, &main, &affix, &vec![vec![raw(1, 1, 10, vec![300, 100, 100, 200], false)]]).unwrap();
    let mut pa = pairs(&a[0]);
    let mut pb = pairs(&b[0]);
    pa.sort();
    pb.sort();
    assert_eq!(pa, pb);
    assert_eq!(pa.len(), 3);
}

#[test]
fn later_artifact_batch_is_ignored() {
    let (types, main, affix) = tables();
    let first = vec![raw(1, 2, 10, vec![], false)];
    let second = vec![raw(1, 9, 10, vec![200], true), raw(1, 9, 10, vec![], true)];
    let out = sniff_artifacts(&types, &main, &affix, &vec![first, second]).unwrap();
    assert_eq!(out.len(), 1);
    assert_eq!(out[0].level, 1);
}

#[test]
fn batch_without_known_template_does_not_win() {
    let (types, main, affix) = tables();
    let first = vec![raw(8, 2, 10, vec![], false)];
    let second = vec![raw(1, 9, 10, vec![], true)];
    let out = sniff_artifacts(&types, &main, &affix, &vec![first, second]).unwrap();
    assert_eq!(out[0].level, 8);
}

#[test]
fn exhausted_artifact_source_is_not_found() {
    let (types, main, affix) = tables();
    assert_eq!(sniff_artifacts(&types, &main, &affix, &vec![]).err(), Some(SniffError::NotFound));
    let only_unknown = vec![vec![raw(8, 2, 10, vec![], false)], vec![]];
    assert_eq!(sniff_artifacts(&types, &main, &affix, &only_unknown).err(), Some(SniffError::NotFound));
}

#[test]
fn artifact_accumulator_stops_after_first_result() {
    let (types, main, affix) = tables();
    let mut sniff = ArtifactSniff::new();
    assert!(!sniff.is_done());
    sniff.on_batch(&types, &main, &affix, &vec![raw(1, 3, 10, vec![], false)]);
    assert!(sniff.is_done());
    sniff.on_batch(&types, &main, &affix, &vec![raw(1, 7, 10, vec![], false)]);
    let out = sniff.finish().unwrap();
    assert_eq!(out.len(), 1);
    assert_eq!(out[0].level, 2);
    assert_eq!(ArtifactSniff::new().finish().err(), Some(SniffError::NotFound));
}

#[test]
fn export_document_header() {
    let doc = GOOD::new(vec![]);
    assert_eq!(doc.format, "GOOD");
    assert_eq!(doc.version, 2);
    assert_eq!(doc.source, "stardb-exporter");
}
