//! The top-level tick orchestrator: owns the three managers and the
//! previous tick's modifier snapshot, and sequences resource, upgrade and
//! building calculation so that the building-to-modifier feedback loop is a
//! deterministic one-tick-delayed cycle.

use vstd::prelude::*;

use crate::building::{
    mgr_modifiers, mgr_outputs, mgr_storages, mgr_upkeeps, post_calc_building, Building,
    BuildingAsset, BuildingManager, lemma_mgr_folds_congruent,
};
use crate::fixed::{cadd, crange, csub};
use crate::modifier::{ModifierCalculationMethod, ModifierStorage};
use crate::resource::{
    agg_emitted, lemma_agg_emitted_congruent, Resource, ResourceAsset, ResourceManager,
};
use crate::text::str_eq;
use crate::upgrade::{post_calc_upgrade, upg_agg_modifiers, UpgradeAsset, UpgradeManager};

verus! {

/// Why loading an asset failed.
#[derive(Debug)]
pub enum ThingManagerLoadError {
    /// The caller named a kind of thing that does not exist.
    WrongLoadType(String),
    /// The payload could not be decoded into an asset.
    ParseError(String),
    /// An asset declared a modifier calculation method outside the four
    /// known ones.
    UnknownModifierMethod(String),
}

/// The kinds of thing an asset can describe.
#[derive(Copy, Clone, PartialEq, Eq, Structural, Debug)]
pub enum LoadKind {
    Building,
    Resource,
    Upgrade,
}

/// Which kind a load-type string names, if any.
pub open spec fn spec_load_kind(s: Seq<char>) -> Option<LoadKind> {
    if s == "building"@ {
        Some(LoadKind::Building)
    } else if s == "resource"@ {
        Some(LoadKind::Resource)
    } else if s == "upgrade"@ {
        Some(LoadKind::Upgrade)
    } else {
        None
    }
}

/// Decode a load-type string; an unknown string is reported with its own
/// text, and no state is touched.
pub fn parse_load_kind(load_type: &str) -> (r: Result<LoadKind, ThingManagerLoadError>)
    ensures
        match r {
            Ok(k) => spec_load_kind(load_type@) == Some(k),
            Err(e) => {
                &&& spec_load_kind(load_type@) is None
                &&& e matches ThingManagerLoadError::WrongLoadType(s) && s@ == load_type@
            },
        },
{
    if str_eq(load_type, "building") {
        Ok(LoadKind::Building)
    } else if str_eq(load_type, "resource") {
        Ok(LoadKind::Resource)
    } else if str_eq(load_type, "upgrade") {
        Ok(LoadKind::Upgrade)
    } else {
        Err(ThingManagerLoadError::WrongLoadType(load_type.to_owned()))
    }
}

/// The orchestrator: the three managers, last tick's modifier snapshot, and
/// whether the first tick is still ahead.
pub struct ThingManager {
    building_manager: BuildingManager,
    resource_manager: ResourceManager,
    upgrade_manager: UpgradeManager,
    prev_tick_modifiers: ModifierStorage,
    is_first_tick: bool,
}

/// The modifier snapshot buildings were calculated against: last tick's, or
/// on the very first tick the snapshot just computed (the warm-up pass).
pub open spec fn tick_ms_used(t0: ThingManager, t1: ThingManager) -> ModifierStorage {
    if t0.spec_first_tick() {
        t1.spec_prev_modifiers()
    } else {
        t0.spec_prev_modifiers()
    }
}

/// The production one resource runs this tick with: the buildings' last
/// aggregated output when there is one and this is not the first tick, else
/// the resource's prior production.
pub open spec fn tick_prod(t0: ThingManager, n: Seq<char>) -> int {
    if !t0.spec_first_tick() && t0.spec_building_manager().spec_calc_outputs().has_name(n) {
        t0.spec_building_manager().spec_calc_outputs().spec_value(n)
    } else {
        t0.spec_resource_manager().spec_res(n).spec_production()
    }
}

/// The consumption one resource runs this tick with, from the buildings'
/// last aggregated upkeep.
pub open spec fn tick_cons(t0: ThingManager, n: Seq<char>) -> int {
    if !t0.spec_first_tick() && t0.spec_building_manager().spec_calc_upkeeps().has_name(n) {
        t0.spec_building_manager().spec_calc_upkeeps().spec_value(n)
    } else {
        t0.spec_resource_manager().spec_res(n).spec_consumption()
    }
}

/// How one resource stands after the tick.
pub open spec fn tick_res_ok(t0: ThingManager, n: Seq<char>, r1: Resource) -> bool {
    let r0 = t0.spec_resource_manager().spec_res(n);
    &&& Resource::same_asset(r0, r1)
    &&& r1.spec_capacity() == r0.spec_capacity()
    &&& r1.spec_unlocked() == r0.spec_unlocked()
    &&& r1.spec_production() == tick_prod(t0, n)
    &&& r1.spec_consumption() == tick_cons(t0, n)
    &&& r1.spec_count() == crange(
        cadd(r0.spec_count(), csub(tick_prod(t0, n), tick_cons(t0, n))),
        0,
        r0.spec_capacity(),
    )
    &&& forall|k: Seq<char>, m: ModifierCalculationMethod| #[trigger]
        r1.spec_calculated().spec_value(k, m) == crate::modifier::emitted_from(
            0,
            r0.spec_defs(),
            1,
            k,
            m,
            r0.spec_defs().len() as int,
        )
}

/// What one tick does: every observable of the new state is a function of
/// the old one, step by step as the tick sequences them.
pub open spec fn tick_post(t0: ThingManager, t1: ThingManager) -> bool {
    let rm0 = t0.spec_resource_manager();
    let um0 = t0.spec_upgrade_manager();
    let bm0 = t0.spec_building_manager();
    let rm1 = t1.spec_resource_manager();
    let um1 = t1.spec_upgrade_manager();
    let bm1 = t1.spec_building_manager();
    let m_used = tick_ms_used(t0, t1);
    &&& !t1.spec_first_tick()
    // Resources: flows pushed in, stocks advanced, emitted modifiers rebuilt.
    &&& rm1.res_len() == rm0.res_len()
    &&& forall|n: Seq<char>| #[trigger] rm1.has_res(n) == rm0.has_res(n)
    &&& forall|n: Seq<char>| rm0.has_res(n) ==> tick_res_ok(t0, n, #[trigger] rm1.spec_res(n))
    &&& forall|n: Seq<char>, m: ModifierCalculationMethod| #[trigger]
        rm1.spec_calculated().spec_value(n, m) == agg_emitted(
            rm0.spec_resources(),
            n,
            m,
            rm0.res_len(),
        )
    // Upgrades: recalculated against last tick's snapshot.
    &&& um1.upg_len() == um0.upg_len()
    &&& forall|n: Seq<char>| #[trigger] um1.has_upg(n) == um0.has_upg(n)
    &&& forall|n: Seq<char>|
        um0.has_upg(n) ==> post_calc_upgrade(
            um0.spec_upg(n),
            #[trigger] um1.spec_upg(n),
            t0.spec_prev_modifiers(),
        )
    &&& forall|n: Seq<char>, m: ModifierCalculationMethod| #[trigger]
        um1.spec_calculated().spec_value(n, m) == upg_agg_modifiers(
            um0.spec_upgrades(),
            n,
            m,
            um0.upg_len(),
        )
    // The new snapshot: upgrades, resources and buildings combined.
    &&& forall|n: Seq<char>, m: ModifierCalculationMethod| #[trigger]
        t1.spec_prev_modifiers().spec_value(n, m) == cadd(
            cadd(
                upg_agg_modifiers(um0.spec_upgrades(), n, m, um0.upg_len()),
                agg_emitted(rm0.spec_resources(), n, m, rm0.res_len()),
            ),
            mgr_modifiers(bm0.spec_buildings(), rm1, n, m, bm0.bld_len()),
        )
    // Buildings: recalculated against `m_used`, throttled by the advanced
    // resource state.
    &&& bm1.bld_len() == bm0.bld_len()
    &&& forall|n: Seq<char>| #[trigger] bm1.has_bld(n) == bm0.has_bld(n)
    &&& forall|n: Seq<char>|
        bm0.has_bld(n) ==> post_calc_building(
            bm0.spec_bld(n),
            #[trigger] bm1.spec_bld(n),
            m_used,
        )
    &&& forall|n: Seq<char>| #[trigger]
        bm1.spec_calc_upkeeps().spec_value(n) == mgr_upkeeps(
            bm0.spec_buildings(),
            m_used,
            n,
            bm0.bld_len(),
        )
    &&& forall|n: Seq<char>| #[trigger]
        bm1.spec_calc_outputs().spec_value(n) == mgr_outputs(
            bm0.spec_buildings(),
            m_used,
            rm1,
            n,
            bm0.bld_len(),
        )
    &&& forall|n: Seq<char>, m: ModifierCalculationMethod| #[trigger]
        bm1.spec_calc_modifiers().spec_value(n, m) == mgr_modifiers(
            bm0.spec_buildings(),
            rm1,
            n,
            m,
            bm0.bld_len(),
        )
    &&& forall|n: Seq<char>| #[trigger]
        bm1.spec_calc_storages().spec_value(n) == mgr_storages(
            bm0.spec_buildings(),
            m_used,
            rm1,
            n,
            bm0.bld_len(),
        )
}

/// Do two resources present the same observable state?
pub open spec fn res_obs_eq(a: Resource, b: Resource) -> bool {
    &&& a.spec_name() == b.spec_name()
    &&& a.spec_count() == b.spec_count()
    &&& a.spec_capacity() == b.spec_capacity()
    &&& a.spec_production() == b.spec_production()
    &&& a.spec_consumption() == b.spec_consumption()
    &&& a.spec_unlocked() == b.spec_unlocked()
    &&& crate::modifier::ms_equiv(a.spec_calculated(), b.spec_calculated())
}

/// Do two buildings present the same observable state?
pub open spec fn bld_obs_eq(a: Building, b: Building) -> bool {
    &&& a.spec_name() == b.spec_name()
    &&& a.spec_count() == b.spec_count()
    &&& a.spec_active_count() == b.spec_active_count()
    &&& a.spec_unlocked() == b.spec_unlocked()
    &&& a.spec_active_list() == b.spec_active_list()
    &&& a.spec_unlocked_list() == b.spec_unlocked_list()
    &&& crate::resource::rs_equiv(a.spec_calc_upkeeps(), b.spec_calc_upkeeps())
    &&& crate::resource::rs_equiv(a.spec_calc_outputs(), b.spec_calc_outputs())
    &&& crate::modifier::ms_equiv(a.spec_calc_modifiers(), b.spec_calc_modifiers())
    &&& crate::resource::rs_equiv(a.spec_calc_storages(), b.spec_calc_storages())
    &&& crate::resource::rs_equiv(a.spec_calc_prices(), b.spec_calc_prices())
}

/// Do two upgrades present the same observable state?
pub open spec fn upg_obs_eq(a: crate::upgrade::Upgrade, b: crate::upgrade::Upgrade) -> bool {
    &&& a.spec_name() == b.spec_name()
    &&& a.spec_count() == b.spec_count()
    &&& a.spec_unlocked() == b.spec_unlocked()
    &&& a.spec_researched() == b.spec_researched()
    &&& crate::modifier::ms_equiv(a.spec_calc_modifiers(), b.spec_calc_modifiers())
    &&& crate::resource::rs_equiv(a.spec_calc_prices(), b.spec_calc_prices())
}

/// Do two engine states agree on everything an observer can read: every
/// entity's numbers and flags, every calculated snapshot, every aggregate,
/// and the stored modifier snapshot?
pub open spec fn same_observables(a: ThingManager, b: ThingManager) -> bool {
    let arm = a.spec_resource_manager();
    let brm = b.spec_resource_manager();
    let aum = a.spec_upgrade_manager();
    let bum = b.spec_upgrade_manager();
    let abm = a.spec_building_manager();
    let bbm = b.spec_building_manager();
    &&& a.spec_first_tick() == b.spec_first_tick()
    &&& crate::modifier::ms_equiv(a.spec_prev_modifiers(), b.spec_prev_modifiers())
    &&& forall|n: Seq<char>| #[trigger] arm.has_res(n) == brm.has_res(n)
    &&& forall|n: Seq<char>|
        arm.has_res(n) ==> res_obs_eq(#[trigger] arm.spec_res(n), brm.spec_res(n))
    &&& crate::modifier::ms_equiv(arm.spec_calculated(), brm.spec_calculated())
    &&& forall|n: Seq<char>| #[trigger] aum.has_upg(n) == bum.has_upg(n)
    &&& forall|n: Seq<char>|
        aum.has_upg(n) ==> upg_obs_eq(#[trigger] aum.spec_upg(n), bum.spec_upg(n))
    &&& crate::modifier::ms_equiv(aum.spec_calculated(), bum.spec_calculated())
    &&& forall|n: Seq<char>| #[trigger] abm.has_bld(n) == bbm.has_bld(n)
    &&& forall|n: Seq<char>|
        abm.has_bld(n) ==> bld_obs_eq(#[trigger] abm.spec_bld(n), bbm.spec_bld(n))
    &&& crate::resource::rs_equiv(abm.spec_calc_upkeeps(), bbm.spec_calc_upkeeps())
    &&& crate::resource::rs_equiv(abm.spec_calc_outputs(), bbm.spec_calc_outputs())
    &&& crate::modifier::ms_equiv(abm.spec_calc_modifiers(), bbm.spec_calc_modifiers())
    &&& crate::resource::rs_equiv(abm.spec_calc_storages(), bbm.spec_calc_storages())
}

/// Replaying a tick is deterministic: two states reached by one tick from
/// the same starting state agree on every observable. Replaying an identical
/// load and tick sequence therefore reproduces identical snapshots.
pub proof fn lemma_tick_deterministic(t0: ThingManager, y1: ThingManager, y2: ThingManager)
    requires
        tick_post(t0, y1),
        tick_post(t0, y2),
    ensures
        same_observables(y1, y2),
{
    let rm0 = t0.spec_resource_manager();
    let um0 = t0.spec_upgrade_manager();
    let bm0 = t0.spec_building_manager();
    let rm1 = y1.spec_resource_manager();
    let rm2 = y2.spec_resource_manager();
    let um1 = y1.spec_upgrade_manager();
    let um2 = y2.spec_upgrade_manager();
    let bm1 = y1.spec_building_manager();
    let bm2 = y2.spec_building_manager();

    // Resources agree: both are pinned by the same per-name formulas.
    assert forall|n: Seq<char>|
        rm1.has_res(n) implies res_obs_eq(#[trigger] rm1.spec_res(n), rm2.spec_res(n)) by {
        assert(rm0.has_res(n));
        assert(tick_res_ok(t0, n, rm1.spec_res(n)));
        assert(tick_res_ok(t0, n, rm2.spec_res(n)));
    }
    assert(crate::building::rm_equiv(rm1, rm2)) by {
        assert forall|n: Seq<char>| #[trigger]
            rm1.has_res(n) == rm2.has_res(n) && (rm1.has_res(n) ==> {
                &&& rm1.spec_res(n).spec_count() == rm2.spec_res(n).spec_count()
                &&& rm1.spec_res(n).spec_production() == rm2.spec_res(n).spec_production()
                &&& rm1.spec_res(n).spec_consumption() == rm2.spec_res(n).spec_consumption()
            }) by {
            if rm1.has_res(n) {
                assert(tick_res_ok(t0, n, rm1.spec_res(n)));
                assert(tick_res_ok(t0, n, rm2.spec_res(n)));
            }
        }
    }

    // Upgrades agree: calculated against the identical previous snapshot.
    assert forall|n: Seq<char>|
        um1.has_upg(n) implies upg_obs_eq(#[trigger] um1.spec_upg(n), um2.spec_upg(n)) by {
        assert(um0.has_upg(n));
        assert(post_calc_upgrade(um0.spec_upg(n), um1.spec_upg(n), t0.spec_prev_modifiers()));
        assert(post_calc_upgrade(um0.spec_upg(n), um2.spec_upg(n), t0.spec_prev_modifiers()));
    }

    // The stored snapshots agree: the building term reads the resource
    // managers only through their drain answers.
    assert forall|n: Seq<char>, m: ModifierCalculationMethod|
        #![trigger y1.spec_prev_modifiers().spec_value(n, m)]
        #![trigger y2.spec_prev_modifiers().spec_value(n, m)]
        y1.spec_prev_modifiers().spec_value(n, m) == y2.spec_prev_modifiers().spec_value(
            n,
            m,
        ) by {
        crate::building::lemma_mgr_folds_equiv(
            bm0.spec_buildings(),
            t0.spec_prev_modifiers(),
            t0.spec_prev_modifiers(),
            rm1,
            rm2,
            n,
            m,
            bm0.bld_len(),
        );
    }

    let mu1 = tick_ms_used(t0, y1);
    let mu2 = tick_ms_used(t0, y2);
    assert(crate::modifier::ms_equiv(mu1, mu2));

    // Buildings agree: the folds read the snapshot and the resource manager
    // only through aggregates and drain answers.
    assert forall|n: Seq<char>|
        bm1.has_bld(n) implies bld_obs_eq(#[trigger] bm1.spec_bld(n), bm2.spec_bld(n)) by {
        assert(bm0.has_bld(n));
        let b0 = bm0.spec_bld(n);
        let b1 = bm1.spec_bld(n);
        let b2 = bm2.spec_bld(n);
        assert(post_calc_building(b0, b1, mu1));
        assert(post_calc_building(b0, b2, mu2));
        assert forall|k: Seq<char>|
            #![trigger b1.spec_calc_upkeeps().spec_value(k)]
            #![trigger b2.spec_calc_upkeeps().spec_value(k)]
            b1.spec_calc_upkeeps().spec_value(k) == b2.spec_calc_upkeeps().spec_value(k) by {
            crate::building::lemma_prods_quantity_ms(
                mu1,
                mu2,
                b0.spec_productions(),
                b0.spec_active_list(),
                b0.spec_name(),
                b0.spec_category(),
                crate::building::QuantityKind::Upkeep,
                b0.spec_active_count(),
                k,
                b0.spec_productions().len() as int,
            );
        }
        assert forall|k: Seq<char>|
            #![trigger b1.spec_calc_outputs().spec_value(k)]
            #![trigger b2.spec_calc_outputs().spec_value(k)]
            b1.spec_calc_outputs().spec_value(k) == b2.spec_calc_outputs().spec_value(k) by {
            crate::building::lemma_prods_quantity_ms(
                mu1,
                mu2,
                b0.spec_productions(),
                b0.spec_active_list(),
                b0.spec_name(),
                b0.spec_category(),
                crate::building::QuantityKind::Output,
                b0.spec_active_count(),
                k,
                b0.spec_productions().len() as int,
            );
        }
        assert forall|k: Seq<char>|
            #![trigger b1.spec_calc_storages().spec_value(k)]
            #![trigger b2.spec_calc_storages().spec_value(k)]
            b1.spec_calc_storages().spec_value(k) == b2.spec_calc_storages().spec_value(k) by {
            crate::building::lemma_prods_quantity_ms(
                mu1,
                mu2,
                b0.spec_productions(),
                b0.spec_active_list(),
                b0.spec_name(),
                b0.spec_category(),
                crate::building::QuantityKind::Storage,
                b0.spec_active_count(),
                k,
                b0.spec_productions().len() as int,
            );
        }
        assert forall|k: Seq<char>|
            #![trigger b1.spec_calc_prices().spec_value(k)]
            #![trigger b2.spec_calc_prices().spec_value(k)]
            b1.spec_calc_prices().spec_value(k) == b2.spec_calc_prices().spec_value(k) by {
            crate::building::lemma_prices_value_ms(
                mu1,
                mu2,
                b0.spec_prices(),
                "building"@,
                b0.spec_name(),
                b0.spec_category(),
                b0.spec_price_multiplier(),
                b0.spec_count() as nat,
                k,
                b0.spec_prices().len() as int,
            );
        }
    }

    // The manager aggregates agree the same way.
    assert forall|n: Seq<char>|
        #![trigger bm1.spec_calc_upkeeps().spec_value(n)]
        #![trigger bm2.spec_calc_upkeeps().spec_value(n)]
        bm1.spec_calc_upkeeps().spec_value(n) == bm2.spec_calc_upkeeps().spec_value(n) by {
        crate::building::lemma_mgr_folds_equiv(
            bm0.spec_buildings(),
            mu1,
            mu2,
            rm1,
            rm2,
            n,
            ModifierCalculationMethod::Base,
            bm0.bld_len(),
        );
    }
    assert forall|n: Seq<char>|
        #![trigger bm1.spec_calc_outputs().spec_value(n)]
        #![trigger bm2.spec_calc_outputs().spec_value(n)]
        bm1.spec_calc_outputs().spec_value(n) == bm2.spec_calc_outputs().spec_value(n) by {
        crate::building::lemma_mgr_folds_equiv(
            bm0.spec_buildings(),
            mu1,
            mu2,
            rm1,
            rm2,
            n,
            ModifierCalculationMethod::Base,
            bm0.bld_len(),
        );
    }
    assert forall|n: Seq<char>|
        #![trigger bm1.spec_calc_storages().spec_value(n)]
        #![trigger bm2.spec_calc_storages().spec_value(n)]
        bm1.spec_calc_storages().spec_value(n) == bm2.spec_calc_storages().spec_value(n) by {
        crate::building::lemma_mgr_folds_equiv(
            bm0.spec_buildings(),
            mu1,
            mu2,
            rm1,
            rm2,
            n,
            ModifierCalculationMethod::Base,
            bm0.bld_len(),
        );
    }
    assert forall|n: Seq<char>, m: ModifierCalculationMethod|
        #![trigger bm1.spec_calc_modifiers().spec_value(n, m)]
        #![trigger bm2.spec_calc_modifiers().spec_value(n, m)]
        bm1.spec_calc_modifiers().spec_value(n, m) == bm2.spec_calc_modifiers().spec_value(
            n,
            m,
        ) by {
        crate::building::lemma_mgr_folds_equiv(
            bm0.spec_buildings(),
            mu1,
            mu2,
            rm1,
            rm2,
            n,
            m,
            bm0.bld_len(),
        );
    }
}

impl Default for ThingManager {
    fn default() -> (r: ThingManager)
        ensures
            r.wf(),
            r.spec_first_tick(),
    {
        ThingManager::new()
    }
}

impl ThingManager {
    pub closed spec fn spec_building_manager(self) -> BuildingManager {
        self.building_manager
    }

    pub closed spec fn spec_resource_manager(self) -> ResourceManager {
        self.resource_manager
    }

    pub closed spec fn spec_upgrade_manager(self) -> UpgradeManager {
        self.upgrade_manager
    }

    pub closed spec fn spec_prev_modifiers(self) -> ModifierStorage {
        self.prev_tick_modifiers
    }

    pub closed spec fn spec_first_tick(self) -> bool {
        self.is_first_tick
    }

    pub open spec fn wf(self) -> bool {
        &&& self.spec_building_manager().wf()
        &&& self.spec_resource_manager().wf()
        &&& self.spec_upgrade_manager().wf()
        &&& self.spec_prev_modifiers().wf()
    }

    pub fn new() -> (r: ThingManager)
        ensures
            r.wf(),
            r.spec_first_tick(),
            r.spec_building_manager().bld_len() == 0,
            r.spec_resource_manager().res_len() == 0,
            r.spec_upgrade_manager().upg_len() == 0,
            forall|n: Seq<char>, m: ModifierCalculationMethod| #[trigger]
                r.spec_prev_modifiers().spec_value(n, m) == 0,
    {
        ThingManager {
            building_manager: BuildingManager::new(),
            resource_manager: ResourceManager::new(),
            upgrade_manager: UpgradeManager::new(),
            prev_tick_modifiers: ModifierStorage::new(),
            is_first_tick: true,
        }
    }

    pub fn building_manager(&self) -> (r: &BuildingManager)
        ensures
            *r == self.spec_building_manager(),
    {
        &self.building_manager
    }

    pub fn resource_manager(&self) -> (r: &ResourceManager)
        ensures
            *r == self.spec_resource_manager(),
    {
        &self.resource_manager
    }

    pub fn upgrade_manager(&self) -> (r: &UpgradeManager)
        ensures
            *r == self.spec_upgrade_manager(),
    {
        &self.upgrade_manager
    }

    /// The building manager, for mutation between ticks.
    pub fn building_manager_mut(&mut self) -> (r: &mut BuildingManager)
        ensures
            *r == old(self).spec_building_manager(),
            final(self).spec_building_manager() == *final(r),
            final(self).spec_resource_manager() == old(self).spec_resource_manager(),
            final(self).spec_upgrade_manager() == old(self).spec_upgrade_manager(),
            final(self).spec_prev_modifiers() == old(self).spec_prev_modifiers(),
            final(self).spec_first_tick() == old(self).spec_first_tick(),
    {
        &mut self.building_manager
    }

    /// The resource manager, for mutation between ticks.
    pub fn resource_manager_mut(&mut self) -> (r: &mut ResourceManager)
        ensures
            *r == old(self).spec_resource_manager(),
            final(self).spec_resource_manager() == *final(r),
            final(self).spec_building_manager() == old(self).spec_building_manager(),
            final(self).spec_upgrade_manager() == old(self).spec_upgrade_manager(),
            final(self).spec_prev_modifiers() == old(self).spec_prev_modifiers(),
            final(self).spec_first_tick() == old(self).spec_first_tick(),
    {
        &mut self.resource_manager
    }

    /// The upgrade manager, for mutation between ticks.
    pub fn upgrade_manager_mut(&mut self) -> (r: &mut UpgradeManager)
        ensures
            *r == old(self).spec_upgrade_manager(),
            final(self).spec_upgrade_manager() == *final(r),
            final(self).spec_building_manager() == old(self).spec_building_manager(),
            final(self).spec_resource_manager() == old(self).spec_resource_manager(),
            final(self).spec_prev_modifiers() == old(self).spec_prev_modifiers(),
            final(self).spec_first_tick() == old(self).spec_first_tick(),
    {
        &mut self.upgrade_manager
    }

    /// Load a building asset; on an error nothing changes.
    pub fn load_building_asset(&mut self, asset: BuildingAsset) -> (r: Result<
        (),
        ThingManagerLoadError,
    >)
        requires
            old(self).wf(),
        ensures
            final(self).wf(),
            final(self).spec_resource_manager() == old(self).spec_resource_manager(),
            final(self).spec_upgrade_manager() == old(self).spec_upgrade_manager(),
            final(self).spec_prev_modifiers() == old(self).spec_prev_modifiers(),
            final(self).spec_first_tick() == old(self).spec_first_tick(),
            match r {
                Ok(()) => {
                    &&& !crate::building::prods_have_bad_method(asset.productions@)
                    &&& forall|n: Seq<char>| #[trigger]
                        final(self).spec_building_manager().has_bld(n) == (old(
                            self,
                        ).spec_building_manager().has_bld(n) || n == asset.name@)
                    &&& crate::building::building_fresh_from(
                        final(self).spec_building_manager().spec_bld(asset.name@),
                        asset,
                    )
                    &&& forall|n: Seq<char>|
                        n != asset.name@ && old(self).spec_building_manager().has_bld(n)
                            ==> #[trigger] final(self).spec_building_manager().spec_bld(n)
                            == old(self).spec_building_manager().spec_bld(n)
                },
                Err(e) => {
                    &&& crate::building::prods_have_bad_method(asset.productions@)
                    &&& e matches ThingManagerLoadError::UnknownModifierMethod(s) && s@
                        == "wrong modifier calculation method"@
                    &&& *final(self) == *old(self)
                },
            },
    {
        match self.building_manager.load_from_asset(asset) {
            Ok(()) => Ok(()),
            Err(e) => Err(ThingManagerLoadError::UnknownModifierMethod(e)),
        }
    }

    /// Load a resource asset; on an error nothing changes.
    pub fn load_resource_asset(&mut self, asset: ResourceAsset) -> (r: Result<
        (),
        ThingManagerLoadError,
    >)
        requires
            old(self).wf(),
        ensures
            final(self).wf(),
            final(self).spec_building_manager() == old(self).spec_building_manager(),
            final(self).spec_upgrade_manager() == old(self).spec_upgrade_manager(),
            final(self).spec_prev_modifiers() == old(self).spec_prev_modifiers(),
            final(self).spec_first_tick() == old(self).spec_first_tick(),
            match r {
                Ok(()) => {
                    &&& forall|i: int|
                        0 <= i < asset.modifiers@.len() ==> crate::modifier::is_method_key(
                            #[trigger] asset.modifiers@[i].calculation@,
                        )
                    &&& forall|n: Seq<char>| #[trigger]
                        final(self).spec_resource_manager().has_res(n) == (old(
                            self,
                        ).spec_resource_manager().has_res(n) || n == asset.name@)
                    &&& crate::resource::resource_fresh_from(
                        final(self).spec_resource_manager().spec_res(asset.name@),
                        asset,
                    )
                    &&& forall|n: Seq<char>|
                        n != asset.name@ && old(self).spec_resource_manager().has_res(n)
                            ==> #[trigger] final(self).spec_resource_manager().spec_res(n)
                            == old(self).spec_resource_manager().spec_res(n)
                },
                Err(e) => {
                    &&& exists|i: int|
                        0 <= i < asset.modifiers@.len() && !crate::modifier::is_method_key(
                            #[trigger] asset.modifiers@[i].calculation@,
                        )
                    &&& e matches ThingManagerLoadError::UnknownModifierMethod(s) && s@
                        == "wrong modifier calculation method"@
                    &&& *final(self) == *old(self)
                },
            },
    {
        match self.resource_manager.load_from_asset(asset) {
            Ok(()) => Ok(()),
            Err(e) => Err(ThingManagerLoadError::UnknownModifierMethod(e)),
        }
    }

    /// Load an upgrade asset; on an error nothing changes.
    pub fn load_upgrade_asset(&mut self, asset: UpgradeAsset) -> (r: Result<
        (),
        ThingManagerLoadError,
    >)
        requires
            old(self).wf(),
        ensures
            final(self).wf(),
            final(self).spec_building_manager() == old(self).spec_building_manager(),
            final(self).spec_resource_manager() == old(self).spec_resource_manager(),
            final(self).spec_prev_modifiers() == old(self).spec_prev_modifiers(),
            final(self).spec_first_tick() == old(self).spec_first_tick(),
            match r {
                Ok(()) => {
                    &&& !crate::upgrade::upgrade_has_bad_method(asset.modifiers@)
                    &&& forall|n: Seq<char>| #[trigger]
                        final(self).spec_upgrade_manager().has_upg(n) == (old(
                            self,
                        ).spec_upgrade_manager().has_upg(n) || n == asset.name@)
                    &&& crate::upgrade::upgrade_fresh_from(
                        final(self).spec_upgrade_manager().spec_upg(asset.name@),
                        asset,
                    )
                    &&& forall|n: Seq<char>|
                        n != asset.name@ && old(self).spec_upgrade_manager().has_upg(n)
                            ==> #[trigger] final(self).spec_upgrade_manager().spec_upg(n)
                            == old(self).spec_upgrade_manager().spec_upg(n)
                },
                Err(e) => {
                    &&& crate::upgrade::upgrade_has_bad_method(asset.modifiers@)
                    &&& e matches ThingManagerLoadError::UnknownModifierMethod(s) && s@
                        == "wrong modifier calculation method"@
                    &&& *final(self) == *old(self)
                },
            },
    {
        match self.upgrade_manager.load_from_asset(asset) {
            Ok(()) => Ok(()),
            Err(e) => Err(ThingManagerLoadError::UnknownModifierMethod(e)),
        }
    }

    /// One tick: push last tick's building flows into the resources, advance
    /// the stocks, recalculate upgrades and buildings against last tick's
    /// modifier snapshot, and store the freshly combined snapshot for the
    /// next tick. On the very first tick the buildings get a second pass
    /// against the fresh snapshot, so the first visible tick is not cold.
    pub fn tick(&mut self)
        requires
            old(self).wf(),
        ensures
            final(self).wf(),
            tick_post(*old(self), *final(self)),
    {
        let ghost t0 = *old(self);
        let mut current: ModifierStorage = ModifierStorage::new();
        let ghost mut rm_a = self.resource_manager;
        if !self.is_first_tick {
            let outputs = self.building_manager.calculated_outputs();
            self.resource_manager.set_production(outputs);
            proof {
                rm_a = self.resource_manager;
            }
            let upkeeps = self.building_manager.calculated_upkeeps();
            self.resource_manager.set_consumption(upkeeps);
        }
        let ghost rm_b = self.resource_manager;
        proof {
            let rm0 = t0.spec_resource_manager();
            if !t0.spec_first_tick() {
                let out_st = t0.spec_building_manager().spec_calc_outputs();
                let up_st = t0.spec_building_manager().spec_calc_upkeeps();
                assert forall|n: Seq<char>|
                    rm0.has_res(n) implies {
                    let r0 = rm0.spec_res(n);
                    let rb = #[trigger] rm_b.spec_res(n);
                    &&& Resource::same_asset(r0, rb)
                    &&& rb.spec_count() == r0.spec_count()
                    &&& rb.spec_capacity() == r0.spec_capacity()
                    &&& rb.spec_unlocked() == r0.spec_unlocked()
                    &&& rb.spec_production() == tick_prod(t0, n)
                    &&& rb.spec_consumption() == tick_cons(t0, n)
                } by {
                    rm0.lemma_spec_res_name(n);
                    let r0 = rm0.spec_res(n);
                    let ra = rm_a.spec_res(n);
                    let rb = rm_b.spec_res(n);
                    assert(crate::resource::set_flow_rel(r0, ra, out_st, true));
                    assert(crate::resource::set_flow_rel(ra, rb, up_st, false));
                }
                assert forall|i: int|
                    0 <= i < rm0.res_len() implies (#[trigger] rm_b.spec_resources()[
                    i
                ]).spec_defs() == rm0.spec_resources()[i].spec_defs() by {
                    assert(crate::resource::set_flow_rel(
                        rm0.spec_resources()[i],
                        rm_a.spec_resources()[i],
                        out_st,
                        true,
                    ));
                    assert(crate::resource::set_flow_rel(
                        rm_a.spec_resources()[i],
                        rm_b.spec_resources()[i],
                        up_st,
                        false,
                    ));
                }
            } else {
                assert(rm_b == rm0);
                assert forall|n: Seq<char>|
                    rm0.has_res(n) implies {
                    let r0 = rm0.spec_res(n);
                    let rb = #[trigger] rm_b.spec_res(n);
                    &&& Resource::same_asset(r0, rb)
                    &&& rb.spec_production() == tick_prod(t0, n)
                    &&& rb.spec_consumption() == tick_cons(t0, n)
                } by {}
                assert(forall|i: int|
                    0 <= i < rm0.res_len() ==> (#[trigger] rm_b.spec_resources()[
                        i
                    ]).spec_defs() == rm0.spec_resources()[i].spec_defs());
            }
        }
        self.resource_manager.calculate();
        let ghost rm_c = self.resource_manager;
        self.upgrade_manager.calculate(&self.prev_tick_modifiers);
        self.building_manager.calculate(&self.prev_tick_modifiers, &self.resource_manager);
        let ghost bm_mid = self.building_manager;
        current.combine(self.upgrade_manager.calculated_modifiers());
        current.combine(self.resource_manager.calculated_modifiers());
        current.combine(self.building_manager.calculated_modifiers());
        proof {
            lemma_tick_resources(t0, rm_b, rm_c);
            assert forall|n: Seq<char>, m: ModifierCalculationMethod| #[trigger]
                current.spec_value(n, m) == cadd(
                    cadd(
                        upg_agg_modifiers(
                            t0.spec_upgrade_manager().spec_upgrades(),
                            n,
                            m,
                            t0.spec_upgrade_manager().upg_len(),
                        ),
                        agg_emitted(
                            t0.spec_resource_manager().spec_resources(),
                            n,
                            m,
                            t0.spec_resource_manager().res_len(),
                        ),
                    ),
                    mgr_modifiers(
                        t0.spec_building_manager().spec_buildings(),
                        rm_c,
                        n,
                        m,
                        t0.spec_building_manager().bld_len(),
                    ),
                ) by {
                let um_v = self.upgrade_manager.spec_calculated().spec_value(n, m);
                self.upgrade_manager.spec_calculated().lemma_spec_value_valid(n, m);
                assert(cadd(0, um_v) == um_v);
            }
        }
        if self.is_first_tick {
            self.building_manager.calculate(&current, &self.resource_manager);
            proof {
                lemma_tick_buildings_second_pass(t0, bm_mid, self.building_manager, current, rm_c);
            }
        }
        self.prev_tick_modifiers = current;
        self.is_first_tick = false;
    }
}

/// The resource part of the tick's contract: composing the flow pushes with
/// the produce-and-recalculate step gives the per-name formulas of
/// `tick_res_ok`.
proof fn lemma_tick_resources(t0: ThingManager, rm_b: ResourceManager, rm_c: ResourceManager)
    requires
        t0.wf(),
        rm_b.res_len() == t0.spec_resource_manager().res_len(),
        forall|n: Seq<char>| #[trigger]
            rm_b.has_res(n) == t0.spec_resource_manager().has_res(n),
        forall|i: int|
            0 <= i < t0.spec_resource_manager().res_len()
                ==> (#[trigger] rm_b.spec_resources()[i]).spec_defs()
                == t0.spec_resource_manager().spec_resources()[i].spec_defs(),
        forall|n: Seq<char>|
            t0.spec_resource_manager().has_res(n) ==> {
                let r0 = t0.spec_resource_manager().spec_res(n);
                let rb = #[trigger] rm_b.spec_res(n);
                &&& Resource::same_asset(r0, rb)
                &&& rb.spec_count() == r0.spec_count()
                &&& rb.spec_capacity() == r0.spec_capacity()
                &&& rb.spec_unlocked() == r0.spec_unlocked()
                &&& rb.spec_production() == tick_prod(t0, n)
                &&& rb.spec_consumption() == tick_cons(t0, n)
            },
        rm_c.res_len() == rm_b.res_len(),
        forall|n: Seq<char>| #[trigger] rm_c.has_res(n) == rm_b.has_res(n),
        forall|n: Seq<char>|
            rm_b.has_res(n) ==> crate::resource::post_tick_resource(
                rm_b.spec_res(n),
                #[trigger] rm_c.spec_res(n),
            ),
        forall|n: Seq<char>, m: ModifierCalculationMethod| #[trigger]
            rm_c.spec_calculated().spec_value(n, m) == agg_emitted(
                rm_b.spec_resources(),
                n,
                m,
                rm_b.res_len(),
            ),
    ensures
        forall|n: Seq<char>|
            t0.spec_resource_manager().has_res(n) ==> tick_res_ok(
                t0,
                n,
                #[trigger] rm_c.spec_res(n),
            ),
        forall|n: Seq<char>, m: ModifierCalculationMethod| #[trigger]
            rm_c.spec_calculated().spec_value(n, m) == agg_emitted(
                t0.spec_resource_manager().spec_resources(),
                n,
                m,
                t0.spec_resource_manager().res_len(),
            ),
{
    assert forall|n: Seq<char>|
        t0.spec_resource_manager().has_res(n) implies tick_res_ok(
        t0,
        n,
        #[trigger] rm_c.spec_res(n),
    ) by {
        assert(rm_b.has_res(n));
        assert(crate::resource::post_tick_resource(rm_b.spec_res(n), rm_c.spec_res(n)));
    }
    assert forall|n: Seq<char>, m: ModifierCalculationMethod| #[trigger]
        rm_c.spec_calculated().spec_value(n, m) == agg_emitted(
            t0.spec_resource_manager().spec_resources(),
            n,
            m,
            t0.spec_resource_manager().res_len(),
        ) by {
        lemma_agg_emitted_congruent(
            rm_b.spec_resources(),
            t0.spec_resource_manager().spec_resources(),
            n,
            m,
            t0.spec_resource_manager().res_len(),
        );
    }
}

/// The first-tick warm-up pass: recalculating against the fresh snapshot
/// relates the final buildings to the pre-tick ones, because a calculation
/// only reads a building's state, which the first pass preserved.
proof fn lemma_tick_buildings_second_pass(
    t0: ThingManager,
    bm_mid: BuildingManager,
    bm_fin: BuildingManager,
    current: ModifierStorage,
    rm_c: ResourceManager,
)
    requires
        bm_mid.bld_len() == t0.spec_building_manager().bld_len(),
        forall|i: int|
            0 <= i < t0.spec_building_manager().bld_len() ==> Building::same_state(
                #[trigger] t0.spec_building_manager().spec_buildings()[i],
                bm_mid.spec_buildings()[i],
            ),
        forall|n: Seq<char>| #[trigger]
            bm_mid.has_bld(n) == t0.spec_building_manager().has_bld(n),
        forall|n: Seq<char>|
            t0.spec_building_manager().has_bld(n) ==> Building::same_state(
                t0.spec_building_manager().spec_bld(n),
                #[trigger] bm_mid.spec_bld(n),
            ),
        bm_fin.bld_len() == bm_mid.bld_len(),
        forall|n: Seq<char>| #[trigger] bm_fin.has_bld(n) == bm_mid.has_bld(n),
        forall|n: Seq<char>|
            bm_mid.has_bld(n) ==> post_calc_building(
                bm_mid.spec_bld(n),
                #[trigger] bm_fin.spec_bld(n),
                current,
            ),
        forall|n: Seq<char>| #[trigger]
            bm_fin.spec_calc_upkeeps().spec_value(n) == mgr_upkeeps(
                bm_mid.spec_buildings(),
                current,
                n,
                bm_mid.bld_len(),
            ),
        forall|n: Seq<char>| #[trigger]
            bm_fin.spec_calc_outputs().spec_value(n) == mgr_outputs(
                bm_mid.spec_buildings(),
                current,
                rm_c,
                n,
                bm_mid.bld_len(),
            ),
        forall|n: Seq<char>, m: ModifierCalculationMethod| #[trigger]
            bm_fin.spec_calc_modifiers().spec_value(n, m) == mgr_modifiers(
                bm_mid.spec_buildings(),
                rm_c,
                n,
                m,
                bm_mid.bld_len(),
            ),
        forall|n: Seq<char>| #[trigger]
            bm_fin.spec_calc_storages().spec_value(n) == mgr_storages(
                bm_mid.spec_buildings(),
                current,
                rm_c,
                n,
                bm_mid.bld_len(),
            ),
    ensures
        forall|n: Seq<char>|
            t0.spec_building_manager().has_bld(n) ==> post_calc_building(
                t0.spec_building_manager().spec_bld(n),
                #[trigger] bm_fin.spec_bld(n),
                current,
            ),
        forall|n: Seq<char>| #[trigger]
            bm_fin.spec_calc_upkeeps().spec_value(n) == mgr_upkeeps(
                t0.spec_building_manager().spec_buildings(),
                current,
                n,
                t0.spec_building_manager().bld_len(),
            ),
        forall|n: Seq<char>| #[trigger]
            bm_fin.spec_calc_outputs().spec_value(n) == mgr_outputs(
                t0.spec_building_manager().spec_buildings(),
                current,
                rm_c,
                n,
                t0.spec_building_manager().bld_len(),
            ),
        forall|n: Seq<char>, m: ModifierCalculationMethod| #[trigger]
            bm_fin.spec_calc_modifiers().spec_value(n, m) == mgr_modifiers(
                t0.spec_building_manager().spec_buildings(),
                rm_c,
                n,
                m,
                t0.spec_building_manager().bld_len(),
            ),
        forall|n: Seq<char>| #[trigger]
            bm_fin.spec_calc_storages().spec_value(n) == mgr_storages(
                t0.spec_building_manager().spec_buildings(),
                current,
                rm_c,
                n,
                t0.spec_building_manager().bld_len(),
            ),
{
    let bs0 = t0.spec_building_manager().spec_buildings();
    assert forall|n: Seq<char>|
        t0.spec_building_manager().has_bld(n) implies post_calc_building(
        t0.spec_building_manager().spec_bld(n),
        #[trigger] bm_fin.spec_bld(n),
        current,
    ) by {
        let b0 = t0.spec_building_manager().spec_bld(n);
        let bmid = bm_mid.spec_bld(n);
        assert(Building::same_state(b0, bmid));
        assert(post_calc_building(bmid, bm_fin.spec_bld(n), current));
        assert(b0.spec_productions() == bmid.spec_productions());
        assert(b0.spec_active_list() == bmid.spec_active_list());
        assert(b0.spec_prices() == bmid.spec_prices());
    }
    assert forall|i: int|
        0 <= i < bs0.len() implies Building::same_state(
        #[trigger] bm_mid.spec_buildings()[i],
        bs0[i],
    ) by {
        assert(Building::same_state(bs0[i], bm_mid.spec_buildings()[i]));
    }
    assert forall|n: Seq<char>| #[trigger]
        bm_fin.spec_calc_upkeeps().spec_value(n) == mgr_upkeeps(
            bs0,
            current,
            n,
            bs0.len() as int,
        ) by {
        lemma_mgr_folds_congruent(
            bm_mid.spec_buildings(),
            bs0,
            current,
            rm_c,
            n,
            ModifierCalculationMethod::Base,
            bs0.len() as int,
        );
    }
    assert forall|n: Seq<char>| #[trigger]
        bm_fin.spec_calc_outputs().spec_value(n) == mgr_outputs(
            bs0,
            current,
            rm_c,
            n,
            bs0.len() as int,
        ) by {
        lemma_mgr_folds_congruent(
            bm_mid.spec_buildings(),
            bs0,
            current,
            rm_c,
            n,
            ModifierCalculationMethod::Base,
            bs0.len() as int,
        );
    }
    assert forall|n: Seq<char>| #[trigger]
        bm_fin.spec_calc_storages().spec_value(n) == mgr_storages(
            bs0,
            current,
            rm_c,
            n,
            bs0.len() as int,
        ) by {
        lemma_mgr_folds_congruent(
            bm_mid.spec_buildings(),
            bs0,
            current,
            rm_c,
            n,
            ModifierCalculationMethod::Base,
            bs0.len() as int,
        );
    }
    assert forall|n: Seq<char>, m: ModifierCalculationMethod| #[trigger]
        bm_fin.spec_calc_modifiers().spec_value(n, m) == mgr_modifiers(
            bs0,
            rm_c,
            n,
            m,
            bs0.len() as int,
        ) by {
        lemma_mgr_folds_congruent(
            bm_mid.spec_buildings(),
            bs0,
            current,
            rm_c,
            n,
            m,
            bs0.len() as int,
        );
    }
}

} // verus!
