use idle_engine::building::{BuildingAsset, RawAmount, RawProduction};
use idle_engine::modifier::{ModifierCalculationMethod, ModifierStorage, RawModifier};
use idle_engine::resource::ResourceAsset;
use idle_engine::things::{parse_load_kind, LoadKind, ThingManager, ThingManagerLoadError};
use idle_engine::upgrade::{UpgradeAsset, UpgradeManager};

fn wood_asset() -> ResourceAsset {
    ResourceAsset {
        name: "wood".to_string(),
        category: "raw".to_string(),
        base_capacity: 100_000,
        modifiers: Vec::new(),
    }
}

fn sawmill_asset() -> BuildingAsset {
    BuildingAsset {
        name: "sawmill".to_string(),
        category: "industry".to_string(),
        prices: vec![RawAmount { name: "wood".to_string(), value: 10_000 }],
        price_multiplier: 1_500,
        productions: vec![RawProduction {
            name: "default".to_string(),
            upkeeps: Vec::new(),
            outputs: vec![RawAmount { name: "wood".to_string(), value: 2_000 }],
            modifiers: Vec::new(),
            storages: Vec::new(),
        }],
    }
}

fn haste_upgrade() -> UpgradeAsset {
    UpgradeAsset {
        name: "haste".to_string(),
        category: "research".to_string(),
        price: vec![RawAmount { name: "wood".to_string(), value: 5_000 }],
        price_multiplier: 1_000,
        unlocks: Vec::new(),
        modifiers: vec![RawModifier {
            name: "building.global.output".to_string(),
            value: 500,
            calculation: "additive".to_string(),
        }],
    }
}

fn build_world() -> ThingManager {
    let mut t = ThingManager::new();
    t.load_resource_asset(wood_asset()).unwrap();
    t.load_building_asset(sawmill_asset()).unwrap();
    t.load_upgrade_asset(haste_upgrade()).unwrap();
    t.building_manager_mut().add_count("sawmill", 1);
    t.building_manager_mut().add_active_count("sawmill", 1);
    t
}

#[test]
fn parse_load_kind_accepts_the_three_kinds() {
    assert_eq!(parse_load_kind("building").unwrap(), LoadKind::Building);
    assert_eq!(parse_load_kind("resource").unwrap(), LoadKind::Resource);
    assert_eq!(parse_load_kind("upgrade").unwrap(), LoadKind::Upgrade);
}

#[test]
fn parse_load_kind_reports_the_unknown_string() {
    match parse_load_kind("potato") {
        Err(ThingManagerLoadError::WrongLoadType(s)) => assert_eq!(s, "potato"),
        _ => panic!("an unknown kind must be reported"),
    }
}

#[test]
fn load_error_variants_carry_their_messages() {
    let e = ThingManagerLoadError::ParseError("unexpected end of input".to_string());
    match e {
        ThingManagerLoadError::ParseError(s) => assert_eq!(s, "unexpected end of input"),
        _ => panic!(),
    }
    let mut t = ThingManager::new();
    let bad = ResourceAsset {
        name: "wood".to_string(),
        category: "raw".to_string(),
        base_capacity: 0,
        modifiers: vec![RawModifier {
            name: "x".to_string(),
            value: 1,
            calculation: "cubic".to_string(),
        }],
    };
    match t.load_resource_asset(bad) {
        Err(ThingManagerLoadError::UnknownModifierMethod(s)) => {
            assert_eq!(s, "wrong modifier calculation method")
        },
        _ => panic!("an unknown method must be reported"),
    }
}

#[test]
fn production_reaches_resources_with_one_tick_of_lag() {
    let mut t = build_world();
    t.tick();
    // The first tick computes outputs but the stock moved before they existed.
    assert_eq!(t.resource_manager().count("wood"), 0);
    assert_eq!(t.building_manager().calculated_outputs().value("wood"), 2_000);
    t.tick();
    assert_eq!(t.resource_manager().count("wood"), 2_000);
    t.tick();
    assert_eq!(t.resource_manager().count("wood"), 4_000);
}

#[test]
fn researched_upgrade_feeds_the_next_tick() {
    let mut t = build_world();
    t.upgrade_manager_mut().research("haste");
    t.tick();
    // The upgrade's +50% enters the snapshot used by the next tick.
    t.tick();
    assert_eq!(t.building_manager().calculated_outputs().value("wood"), 3_000);
}

#[test]
fn unresearched_upgrade_has_no_effect() {
    let mut t = build_world();
    t.tick();
    t.tick();
    assert_eq!(t.building_manager().calculated_outputs().value("wood"), 2_000);
}

#[test]
fn upgrade_prices_use_the_price_formula() {
    let mut um = UpgradeManager::new();
    um.load_from_asset(haste_upgrade()).unwrap();
    let empty = ModifierStorage::new();
    um.calculate(&empty);
    let u = um.get("haste").unwrap();
    assert_eq!(u.calculated_prices().value("wood"), 5_000);
    assert_eq!(
        u.calculated_modifiers().value("building.global.output", ModifierCalculationMethod::Additive),
        0
    );
}

#[test]
fn replaying_the_same_sequence_gives_identical_snapshots() {
    let mut a = build_world();
    let mut b = build_world();
    for _ in 0..4 {
        a.tick();
        b.tick();
    }
    assert_eq!(a.resource_manager().count("wood"), b.resource_manager().count("wood"));
    assert_eq!(
        a.building_manager().calculated_outputs().value("wood"),
        b.building_manager().calculated_outputs().value("wood")
    );
    let ba = a.building_manager().get("sawmill").unwrap();
    let bb = b.building_manager().get("sawmill").unwrap();
    assert_eq!(ba.calculated_prices().value("wood"), bb.calculated_prices().value("wood"));
    let ua = a.upgrade_manager().get("haste").unwrap();
    let ub = b.upgrade_manager().get("haste").unwrap();
    assert_eq!(ua.calculated_prices().value("wood"), ub.calculated_prices().value("wood"));
}

#[test]
fn first_tick_warm_up_is_not_cold() {
    // On the very first tick buildings are recalculated once more against
    // the fresh snapshot, so a resource-emitted modifier shows at once.
    let mut t = ThingManager::new();
    t.load_resource_asset(ResourceAsset {
        name: "crystal".to_string(),
        category: "rare".to_string(),
        base_capacity: 10_000,
        modifiers: vec![RawModifier {
            name: "building.global.output".to_string(),
            value: 1_000,
            calculation: "additive".to_string(),
        }],
    })
    .unwrap();
    t.load_building_asset(sawmill_asset()).unwrap();
    t.building_manager_mut().add_count("sawmill", 1);
    t.building_manager_mut().add_active_count("sawmill", 1);
    t.tick();
    // 2.0 * (1 + 1.0) = 4.0 already on the first tick.
    assert_eq!(t.building_manager().calculated_outputs().value("wood"), 4_000);
}

#[test]
fn loading_replaces_an_entity_of_the_same_name() {
    let mut t = ThingManager::new();
    t.load_resource_asset(wood_asset()).unwrap();
    let mut replacement = wood_asset();
    replacement.base_capacity = 5_000;
    t.load_resource_asset(replacement).unwrap();
    t.resource_manager_mut().set_production(&{
        let mut s = idle_engine::resource::ResourceStorage::new();
        s.add("wood".to_string(), 99_000);
        s
    });
    t.tick();
    assert_eq!(t.resource_manager().count("wood"), 5_000);
}
