use idle_engine::building::{
    Building, BuildingAsset, BuildingManager, RawAmount, RawProduction,
};
use idle_engine::modifier::{
    ModifierCalculationMethod, ModifierEntry, ModifierStorage, RawModifier,
};
use idle_engine::resource::{Resource, ResourceAsset, ResourceManager};

fn amount(name: &str, value: i64) -> RawAmount {
    RawAmount { name: name.to_string(), value }
}

fn default_production(
    upkeeps: Vec<RawAmount>,
    outputs: Vec<RawAmount>,
    modifiers: Vec<RawModifier>,
    storages: Vec<RawAmount>,
) -> RawProduction {
    RawProduction { name: "default".to_string(), upkeeps, outputs, modifiers, storages }
}

fn sawmill_asset() -> BuildingAsset {
    // price 10.0 wood, multiplier 1.5, output 2.0 wood.
    BuildingAsset {
        name: "sawmill".to_string(),
        category: "industry".to_string(),
        prices: vec![amount("wood", 10_000)],
        price_multiplier: 1_500,
        productions: vec![default_production(
            Vec::new(),
            vec![amount("wood", 2_000)],
            Vec::new(),
            Vec::new(),
        )],
    }
}

#[test]
fn first_purchase_costs_the_base_price() {
    let mut b = Building::from_asset(sawmill_asset()).unwrap();
    let empty = ModifierStorage::new();
    b.calculate(&empty);
    assert_eq!(b.calculated_prices().value("wood"), 10_000);
}

#[test]
fn second_purchase_costs_the_ramped_price() {
    let mut b = Building::from_asset(sawmill_asset()).unwrap();
    b.set_count(1);
    let empty = ModifierStorage::new();
    b.calculate(&empty);
    // floor(10 * 1.5^1) = 15
    assert_eq!(b.calculated_prices().value("wood"), 15_000);
}

#[test]
fn price_never_falls_as_count_grows() {
    let empty = ModifierStorage::new();
    let mut last: i64 = 0;
    for count in 0..8 {
        let mut b = Building::from_asset(sawmill_asset()).unwrap();
        b.set_count(count);
        b.calculate(&empty);
        let price = b.calculated_prices().value("wood");
        assert!(price >= last);
        last = price;
    }
}

#[test]
fn output_scales_with_active_count() {
    let mut b = Building::from_asset(sawmill_asset()).unwrap();
    b.add_count(3);
    b.add_active_count(3);
    let empty = ModifierStorage::new();
    b.calculate(&empty);
    assert_eq!(b.calculated_outputs().value("wood"), 6_000);
}

#[test]
fn additive_modifier_raises_output() {
    let mut b = Building::from_asset(sawmill_asset()).unwrap();
    b.add_count(1);
    b.add_active_count(1);
    let mut ms = ModifierStorage::new();
    // +50% on every building output.
    ms.add(ModifierEntry::new(
        "building.global.output".to_string(),
        500,
        ModifierCalculationMethod::Additive,
    ));
    b.calculate(&ms);
    // floor(2.0 * 1.5) = 3.0
    assert_eq!(b.calculated_outputs().value("wood"), 3_000);
}

#[test]
fn base_and_flat_terms_enter_in_order() {
    let mut b = Building::from_asset(sawmill_asset()).unwrap();
    b.add_count(1);
    b.add_active_count(1);
    let mut ms = ModifierStorage::new();
    // (2.0 + 1.0) * (1 + 0.5) + 0.25 = 4.75
    ms.add(ModifierEntry::new(
        "building.name.sawmill.output".to_string(),
        1_000,
        ModifierCalculationMethod::Base,
    ));
    ms.add(ModifierEntry::new(
        "building.category.industry.output".to_string(),
        500,
        ModifierCalculationMethod::Additive,
    ));
    ms.add(ModifierEntry::new(
        "building.global.output".to_string(),
        250,
        ModifierCalculationMethod::Flat,
    ));
    b.calculate(&ms);
    // floor(4.75) = 4.0
    assert_eq!(b.calculated_outputs().value("wood"), 4_000);
}

#[test]
fn global_speed_scales_flows() {
    let mut b = Building::from_asset(sawmill_asset()).unwrap();
    b.add_count(1);
    b.add_active_count(1);
    let mut ms = ModifierStorage::new();
    ms.add(ModifierEntry::new(
        "global.speed".to_string(),
        1_000,
        ModifierCalculationMethod::Additive,
    ));
    b.calculate(&ms);
    // 2.0 * (1 + 1.0) = 4.0
    assert_eq!(b.calculated_outputs().value("wood"), 4_000);
}

#[test]
fn default_production_cannot_be_deactivated() {
    let mut b = Building::from_asset(sawmill_asset()).unwrap();
    assert!(b.is_production_active("default"));
    b.set_active_production("default", false);
    assert!(b.is_production_active("default"));
}

#[test]
fn production_must_be_unlocked_before_activation() {
    let asset = BuildingAsset {
        name: "mill".to_string(),
        category: "industry".to_string(),
        prices: Vec::new(),
        price_multiplier: 1_000,
        productions: vec![
            default_production(Vec::new(), Vec::new(), Vec::new(), Vec::new()),
            RawProduction {
                name: "overdrive".to_string(),
                upkeeps: Vec::new(),
                outputs: vec![amount("wood", 9_000)],
                modifiers: Vec::new(),
                storages: Vec::new(),
            },
        ],
    };
    let mut b = Building::from_asset(asset).unwrap();
    b.set_active_production("overdrive", true);
    assert!(!b.is_production_active("overdrive"));
    b.unlock_production("overdrive");
    assert!(b.is_production_unlocked("overdrive"));
    b.set_active_production("overdrive", true);
    assert!(b.is_production_active("overdrive"));
    b.set_active_production("overdrive", false);
    assert!(!b.is_production_active("overdrive"));
}

#[test]
fn undeclared_production_stays_locked() {
    let mut b = Building::from_asset(sawmill_asset()).unwrap();
    b.unlock_production("ghostshift");
    assert!(!b.is_production_unlocked("ghostshift"));
}

#[test]
fn unknown_method_string_fails_building_load() {
    let asset = BuildingAsset {
        name: "mill".to_string(),
        category: "industry".to_string(),
        prices: Vec::new(),
        price_multiplier: 1_000,
        productions: vec![default_production(
            Vec::new(),
            Vec::new(),
            vec![RawModifier {
                name: "x".to_string(),
                value: 1,
                calculation: "quadratic".to_string(),
            }],
            Vec::new(),
        )],
    };
    let mut mgr = BuildingManager::new();
    let err = mgr.load_from_asset(asset).unwrap_err();
    assert_eq!(err, "wrong modifier calculation method");
    assert!(mgr.get("mill").is_none());
}

fn pump_asset() -> BuildingAsset {
    // upkeep 1.0 water, output 2.0 wood, emits a modifier, stores 5.0 wood.
    BuildingAsset {
        name: "pump".to_string(),
        category: "industry".to_string(),
        prices: Vec::new(),
        price_multiplier: 1_000,
        productions: vec![default_production(
            vec![amount("water", 1_000)],
            vec![amount("wood", 2_000)],
            vec![RawModifier {
                name: "building.global.output".to_string(),
                value: 100,
                calculation: "additive".to_string(),
            }],
            vec![amount("wood", 5_000)],
        )],
    }
}

fn water_manager(count: i64, production: i64, consumption: i64) -> ResourceManager {
    let mut r = Resource::from_asset(ResourceAsset {
        name: "water".to_string(),
        category: "raw".to_string(),
        base_capacity: 100_000,
        modifiers: Vec::new(),
    })
    .unwrap();
    r.set_count(count);
    r.set_production(production);
    r.set_consumption(consumption);
    let mut mgr = ResourceManager::new();
    mgr.add(r);
    mgr
}

#[test]
fn drained_upkeep_stalls_everything_but_the_demand() {
    let mut bm = BuildingManager::new();
    bm.load_from_asset(pump_asset()).unwrap();
    bm.add_count("pump", 1);
    bm.add_active_count("pump", 1);
    let rm = water_manager(0, 0, 5_000);
    let empty = ModifierStorage::new();
    bm.calculate(&empty, &rm);
    assert_eq!(bm.calculated_upkeeps().value("water"), 1_000);
    assert_eq!(bm.calculated_outputs().value("wood"), 0);
    assert_eq!(bm.calculated_storages().value("wood"), 0);
    assert_eq!(
        bm.calculated_modifiers().value("building.global.output", ModifierCalculationMethod::Additive),
        0
    );
}

#[test]
fn stocked_upkeep_lets_everything_through() {
    let mut bm = BuildingManager::new();
    bm.load_from_asset(pump_asset()).unwrap();
    bm.add_count("pump", 1);
    bm.add_active_count("pump", 1);
    let rm = water_manager(50_000, 0, 5_000);
    let empty = ModifierStorage::new();
    bm.calculate(&empty, &rm);
    assert_eq!(bm.calculated_upkeeps().value("water"), 1_000);
    assert_eq!(bm.calculated_outputs().value("wood"), 2_000);
    assert_eq!(bm.calculated_storages().value("wood"), 5_000);
    assert_eq!(
        bm.calculated_modifiers().value("building.global.output", ModifierCalculationMethod::Additive),
        100
    );
}

#[test]
fn upkeep_on_an_unknown_resource_counts_as_drained() {
    let mut bm = BuildingManager::new();
    bm.load_from_asset(pump_asset()).unwrap();
    bm.add_count("pump", 1);
    bm.add_active_count("pump", 1);
    let rm = ResourceManager::new();
    let empty = ModifierStorage::new();
    bm.calculate(&empty, &rm);
    assert_eq!(bm.calculated_upkeeps().value("water"), 1_000);
    assert_eq!(bm.calculated_outputs().value("wood"), 0);
}

#[test]
fn price_floor_is_one_unit() {
    let asset = BuildingAsset {
        name: "shed".to_string(),
        category: "storage".to_string(),
        prices: vec![amount("wood", 0)],
        price_multiplier: 2_000,
        productions: Vec::new(),
    };
    let mut b = Building::from_asset(asset).unwrap();
    let empty = ModifierStorage::new();
    b.calculate(&empty);
    assert_eq!(b.calculated_prices().value("wood"), 1_000);
}

#[test]
fn price_multiplier_under_one_counts_as_one() {
    let asset = BuildingAsset {
        name: "shed".to_string(),
        category: "storage".to_string(),
        prices: vec![amount("wood", 8_000)],
        price_multiplier: 500,
        productions: Vec::new(),
    };
    let empty = ModifierStorage::new();
    for count in 0..4 {
        let mut b = Building::from_asset(asset_clone(&asset, count)).unwrap();
        b.set_count(count);
        b.calculate(&empty);
        assert_eq!(b.calculated_prices().value("wood"), 8_000);
    }
}

fn asset_clone(asset: &BuildingAsset, _count: i32) -> BuildingAsset {
    BuildingAsset {
        name: asset.name.clone(),
        category: asset.category.clone(),
        prices: asset.prices.iter().map(|a| amount(&a.name, a.value)).collect(),
        price_multiplier: asset.price_multiplier,
        productions: Vec::new(),
    }
}

#[test]
fn negative_modifiers_floor_flows_at_zero() {
    let mut b = Building::from_asset(sawmill_asset()).unwrap();
    b.add_count(1);
    b.add_active_count(1);
    let mut ms = ModifierStorage::new();
    ms.add(ModifierEntry::new(
        "building.global.output".to_string(),
        -5_000,
        ModifierCalculationMethod::Base,
    ));
    b.calculate(&ms);
    assert_eq!(b.calculated_outputs().value("wood"), 0);
}

#[test]
fn price_division_scales_the_price_down() {
    let mut b = Building::from_asset(sawmill_asset()).unwrap();
    let mut ms = ModifierStorage::new();
    // A division term of 1 + 1.0 = 2.0 halves the flat price.
    ms.add(ModifierEntry::new(
        "building.global.price_division".to_string(),
        1_000,
        ModifierCalculationMethod::Base,
    ));
    b.calculate(&ms);
    assert_eq!(b.calculated_prices().value("wood"), 5_000);
}

#[test]
fn loaded_building_keeps_its_price_multiplier_and_category() {
    let mut mgr = BuildingManager::new();
    mgr.load_from_asset(sawmill_asset()).unwrap();
    mgr.set_count("sawmill", 1);
    let b = mgr.get("sawmill").unwrap();
    assert_eq!(b.category(), "industry");
    // A category-scoped modifier reaches the loaded building's output.
    let mut ms = ModifierStorage::new();
    ms.add(ModifierEntry::new(
        "building.category.industry.output".to_string(),
        500,
        ModifierCalculationMethod::Additive,
    ));
    mgr.add_active_count("sawmill", 1);
    let rm = ResourceManager::new();
    mgr.calculate(&ms, &rm);
    assert_eq!(mgr.calculated_outputs().value("wood"), 3_000);
    // The loaded multiplier of 1.5 ramps the second unit's price to 15.
    let b = mgr.get("sawmill").unwrap();
    assert_eq!(b.calculated_prices().value("wood"), 15_000);
}

#[test]
fn active_count_is_clamped_by_count() {
    let mut b = Building::from_asset(sawmill_asset()).unwrap();
    b.add_count(2);
    b.add_active_count(5);
    assert_eq!(b.active_count(), 2);
    b.set_count(1);
    assert_eq!(b.active_count(), 1);
    b.set_active_count(-3);
    assert_eq!(b.active_count(), 0);
}
