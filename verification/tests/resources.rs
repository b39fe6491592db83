use idle_engine::fixed::{fp_add, FP_MAX};
use idle_engine::modifier::{ModifierCalculationMethod, RawModifier};
use idle_engine::resource::{Resource, ResourceAsset, ResourceManager, ResourceStorage};

fn plain_asset(name: &str, base_capacity: i64) -> ResourceAsset {
    ResourceAsset {
        name: name.to_string(),
        category: "raw".to_string(),
        base_capacity,
        modifiers: Vec::new(),
    }
}

#[test]
fn produce_clamps_at_capacity() {
    // capacity 100.0, count 95.0, production 10.0, consumption 0.
    let mut r = Resource::from_asset(plain_asset("wood", 100_000)).unwrap();
    r.set_count(95_000);
    r.set_production(10_000);
    r.set_consumption(0);
    r.produce();
    assert_eq!(r.count(), 100_000);
}

#[test]
fn produce_never_goes_negative() {
    let mut r = Resource::from_asset(plain_asset("wood", 100_000)).unwrap();
    r.set_count(3_000);
    r.set_production(0);
    r.set_consumption(10_000);
    r.produce();
    assert_eq!(r.count(), 0);
    r.produce();
    assert_eq!(r.count(), 0);
}

#[test]
fn produce_applies_net_flow() {
    let mut r = Resource::from_asset(plain_asset("wood", 100_000)).unwrap();
    r.set_production(7_000);
    r.set_consumption(2_000);
    r.produce();
    assert_eq!(r.count(), 5_000);
    r.produce();
    assert_eq!(r.count(), 10_000);
}

#[test]
fn count_stays_inside_bounds_over_any_sequence() {
    let mut r = Resource::from_asset(plain_asset("wood", 10_000)).unwrap();
    let flows: [(i64, i64); 6] =
        [(20_000, 0), (0, 5_000), (0, 50_000), (3_000, 1_000), (0, 0), (100_000, 99_000)];
    for (p, c) in flows {
        r.set_production(p);
        r.set_consumption(c);
        r.produce();
        assert!(0 <= r.count() && r.count() <= r.capacity());
    }
}

#[test]
fn drained_exactly_when_starved_and_empty() {
    let mut r = Resource::from_asset(plain_asset("water", 100_000)).unwrap();
    r.set_production(2_000);
    r.set_consumption(5_000);
    r.set_count(0);
    assert!(r.is_drained());
    r.set_production(5_000);
    r.set_consumption(2_000);
    assert!(!r.is_drained());
    r.set_production(2_000);
    r.set_consumption(5_000);
    r.set_count(1_000);
    assert!(!r.is_drained());
}

#[test]
fn capacity_never_falls_under_base() {
    let mut r = Resource::from_asset(plain_asset("wood", 50_000)).unwrap();
    r.set_capacity(-200_000);
    assert_eq!(r.capacity(), 50_000);
    r.set_capacity(25_000);
    assert_eq!(r.capacity(), 75_000);
}

#[test]
fn resource_emits_its_asset_modifiers() {
    let asset = ResourceAsset {
        name: "crystal".to_string(),
        category: "rare".to_string(),
        base_capacity: 10_000,
        modifiers: vec![RawModifier {
            name: "building.global.output".to_string(),
            value: 500,
            calculation: "additive".to_string(),
        }],
    };
    let mut r = Resource::from_asset(asset).unwrap();
    r.calculate();
    assert_eq!(
        r.calculated_modifiers().value("building.global.output", ModifierCalculationMethod::Additive),
        500
    );
}

#[test]
fn unknown_method_string_fails_resource_load() {
    let asset = ResourceAsset {
        name: "crystal".to_string(),
        category: "rare".to_string(),
        base_capacity: 10_000,
        modifiers: vec![RawModifier {
            name: "building.global.output".to_string(),
            value: 500,
            calculation: "exponential".to_string(),
        }],
    };
    let mut mgr = ResourceManager::new();
    let err = mgr.load_from_asset(asset).unwrap_err();
    assert_eq!(err, "wrong modifier calculation method");
    assert_eq!(mgr.count("crystal"), 0);
    assert!(mgr.is_drained("crystal"));
}

#[test]
fn manager_defaults_for_unknown_names() {
    let mgr = ResourceManager::new();
    assert_eq!(mgr.count("nothing"), 0);
    assert!(mgr.is_drained("nothing"));
}

#[test]
fn manager_bulk_flows_skip_absent_names() {
    let mut mgr = ResourceManager::new();
    mgr.load_from_asset(plain_asset("wood", 100_000)).unwrap();
    mgr.load_from_asset(plain_asset("stone", 100_000)).unwrap();
    let mut flows = ResourceStorage::new();
    flows.add("wood".to_string(), 4_000);
    flows.add("iron".to_string(), 9_000);
    mgr.set_production(&flows);
    mgr.calculate();
    assert_eq!(mgr.count("wood"), 4_000);
    assert_eq!(mgr.count("stone"), 0);
    assert_eq!(mgr.count("iron"), 0);
}

#[test]
fn storage_accumulates_and_combines() {
    let mut a = ResourceStorage::new();
    a.add("wood".to_string(), 1_000);
    a.add("wood".to_string(), 2_500);
    assert_eq!(a.value("wood"), 3_500);
    assert_eq!(a.value("stone"), 0);
    let mut b = ResourceStorage::new();
    b.add("stone".to_string(), 700);
    b.add("wood".to_string(), 500);
    a.combine(&b);
    assert_eq!(a.value("wood"), 4_000);
    assert_eq!(a.value("stone"), 700);
}

#[test]
fn loaded_resource_keeps_its_base_capacity_and_modifiers() {
    let asset = ResourceAsset {
        name: "crystal".to_string(),
        category: "rare".to_string(),
        base_capacity: 25_000,
        modifiers: vec![RawModifier {
            name: "building.global.storage".to_string(),
            value: 750,
            calculation: "flat".to_string(),
        }],
    };
    let mut mgr = ResourceManager::new();
    mgr.load_from_asset(asset).unwrap();
    // The loaded capacity bounds production at once.
    let mut flows = ResourceStorage::new();
    flows.add("crystal".to_string(), 999_000);
    mgr.set_production(&flows);
    mgr.calculate();
    assert_eq!(mgr.count("crystal"), 25_000);
    // The loaded passive declarations are what the manager aggregates.
    assert_eq!(
        mgr.calculated_modifiers().value("building.global.storage", ModifierCalculationMethod::Flat),
        750
    );
}

#[test]
fn saturating_addition_stops_at_the_edge() {
    assert_eq!(fp_add(FP_MAX, 1), FP_MAX);
    assert_eq!(fp_add(-FP_MAX, -1), -FP_MAX);
    assert_eq!(fp_add(1, 2), 3);
}
