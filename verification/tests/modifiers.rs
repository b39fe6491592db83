use idle_engine::modifier::{ModifierCalculationMethod, ModifierEntry, ModifierStorage};

#[test]
fn method_from_str_round_trip() {
    let methods = [
        ModifierCalculationMethod::Base,
        ModifierCalculationMethod::Flat,
        ModifierCalculationMethod::Additive,
        ModifierCalculationMethod::Multiply,
    ];
    for m in methods {
        let key = m.key();
        assert_eq!(ModifierCalculationMethod::from_str(key), m);
        assert_eq!(ModifierCalculationMethod::from_str_safe(key).unwrap(), m);
    }
}

#[test]
fn method_keys_are_the_four_strings() {
    assert_eq!(ModifierCalculationMethod::Base.key(), "base");
    assert_eq!(ModifierCalculationMethod::Flat.key(), "flat");
    assert_eq!(ModifierCalculationMethod::Additive.key(), "additive");
    assert_eq!(ModifierCalculationMethod::Multiply.key(), "multiply");
}

#[test]
fn method_from_str_safe_rejects_unknown() {
    let err = ModifierCalculationMethod::from_str_safe("percentage").unwrap_err();
    assert_eq!(err, "wrong modifier calculation method");
}

#[test]
fn entry_key_joins_name_and_method() {
    let e = ModifierEntry::new("speed".to_string(), 250, ModifierCalculationMethod::Additive);
    assert_eq!(e.key(), "speed.additive");
    assert_eq!(e.name(), "speed");
    assert_eq!(e.value(), 250);
}

#[test]
fn entry_add_value_accumulates() {
    let mut e = ModifierEntry::new("speed".to_string(), 250, ModifierCalculationMethod::Flat);
    e.add_value(750);
    assert_eq!(e.value(), 1000);
    e.set_value(-100);
    assert_eq!(e.value(), -100);
}

#[test]
fn storage_empty_value_is_zero() {
    let s = ModifierStorage::new();
    assert_eq!(s.value("anything", ModifierCalculationMethod::Base), 0);
}

#[test]
fn storage_add_distinguishes_names_and_methods() {
    let mut s = ModifierStorage::new();
    s.add(ModifierEntry::new("a".to_string(), 100, ModifierCalculationMethod::Base));
    assert_eq!(s.value("a", ModifierCalculationMethod::Base), 100);
    assert_eq!(s.value("b", ModifierCalculationMethod::Base), 0);
    assert_eq!(s.value("a", ModifierCalculationMethod::Flat), 0);
}

#[test]
fn storage_duplicate_key_adds_values() {
    let mut s = ModifierStorage::new();
    s.add(ModifierEntry::new("a".to_string(), 100, ModifierCalculationMethod::Base));
    s.add(ModifierEntry::new("a".to_string(), 250, ModifierCalculationMethod::Base));
    assert_eq!(s.value("a", ModifierCalculationMethod::Base), 350);
}

#[test]
fn storage_combine_is_commutative() {
    let mut a = ModifierStorage::new();
    a.add(ModifierEntry::new("x".to_string(), 100, ModifierCalculationMethod::Base));
    a.add(ModifierEntry::new("y".to_string(), -40, ModifierCalculationMethod::Additive));
    let mut b = ModifierStorage::new();
    b.add(ModifierEntry::new("y".to_string(), 60, ModifierCalculationMethod::Additive));
    b.add(ModifierEntry::new("z".to_string(), 7, ModifierCalculationMethod::Multiply));

    let mut ab = ModifierStorage::new();
    ab.combine(&a);
    ab.combine(&b);
    let mut ba = ModifierStorage::new();
    ba.combine(&b);
    ba.combine(&a);

    for (n, m) in [
        ("x", ModifierCalculationMethod::Base),
        ("y", ModifierCalculationMethod::Additive),
        ("z", ModifierCalculationMethod::Multiply),
        ("w", ModifierCalculationMethod::Flat),
    ] {
        assert_eq!(ab.value(n, m), ba.value(n, m));
    }
    assert_eq!(ab.value("y", ModifierCalculationMethod::Additive), 20);
}

#[test]
fn storage_clear_resets_every_key() {
    let mut s = ModifierStorage::new();
    s.add(ModifierEntry::new("a".to_string(), 100, ModifierCalculationMethod::Base));
    s.clear();
    assert_eq!(s.value("a", ModifierCalculationMethod::Base), 0);
}
