//! Upgrades: one-time or repeated purchases that, once researched, emit
//! modifiers; structurally a building without productions.

use vstd::prelude::*;

use crate::building::{
    amounts_decode, amounts_wf, compute_price, prices_value, AmountDef, RawAmount,
};
use crate::fixed::{cadd, crange, fp_sanitize, fp_valid, Fp};
use crate::modifier::{
    decode_modifier_defs, defs_wf, emitted_from, is_method_key, mods_decode,
    ModifierCalculationMethod, ModifierDef, ModifierStorage, RawModifier,
};
use crate::resource::ResourceStorage;
use crate::text::str_eq;

verus! {

/// One thing an upgrade unlocks: the kind of thing and its name.
pub struct UpgradeUnlock {
    pub thing: String,
    pub name: String,
}

/// An upgrade asset as the loader hands it over.
pub struct UpgradeAsset {
    pub name: String,
    pub category: String,
    pub price: Vec<RawAmount>,
    pub price_multiplier: i64,
    pub unlocks: Vec<UpgradeUnlock>,
    pub modifiers: Vec<RawModifier>,
}

/// Is some modifier method string of this list unknown?
pub open spec fn upgrade_has_bad_method(r: Seq<RawModifier>) -> bool {
    exists|i: int| 0 <= i < r.len() && !is_method_key(#[trigger] r[i].calculation@)
}

/// What a researched upgrade emits under one key; an unresearched upgrade
/// emits nothing.
pub open spec fn upgrade_emitted(
    researched: bool,
    defs: Seq<ModifierDef>,
    n: Seq<char>,
    m: ModifierCalculationMethod,
) -> int {
    if researched {
        emitted_from(0, defs, 1, n, m, defs.len() as int)
    } else {
        0
    }
}

/// Is this the upgrade a just-loaded asset yields: every field the asset
/// fixes decoded from it, not yet purchased, locked, unresearched, and both
/// snapshots empty?
pub open spec fn upgrade_fresh_from(u: Upgrade, asset: UpgradeAsset) -> bool {
    &&& u.wf()
    &&& u.spec_name() == asset.name@
    &&& u.spec_category() == asset.category@
    &&& u.spec_price_multiplier() == crate::fixed::fp_clamp(asset.price_multiplier as int)
    &&& amounts_decode(asset.price@, u.spec_prices())
    &&& u.spec_unlocks() == asset.unlocks@
    &&& mods_decode(asset.modifiers@, u.spec_defs())
    &&& u.spec_count() == 0
    &&& !u.spec_unlocked()
    &&& !u.spec_researched()
    &&& forall|n: Seq<char>, m: ModifierCalculationMethod| #[trigger]
        u.spec_calc_modifiers().spec_value(n, m) == 0
    &&& forall|n: Seq<char>| #[trigger] u.spec_calc_prices().spec_value(n) == 0
}

/// An upgrade: a purchase count, unlocked and researched flags, and the last
/// calculated snapshots.
pub struct Upgrade {
    name: String,
    category: String,
    prices: Vec<AmountDef>,
    price_multiplier: Fp,
    unlocks: Vec<UpgradeUnlock>,
    defs: Vec<ModifierDef>,
    count: i32,
    calculated_modifiers: ModifierStorage,
    calculated_prices: ResourceStorage,
    is_unlocked: bool,
    is_researched: bool,
}

impl Upgrade {
    pub closed spec fn spec_name(self) -> Seq<char> {
        self.name@
    }

    pub closed spec fn spec_category(self) -> Seq<char> {
        self.category@
    }

    pub closed spec fn spec_prices(self) -> Seq<AmountDef> {
        self.prices@
    }

    pub closed spec fn spec_price_multiplier(self) -> int {
        self.price_multiplier as int
    }

    pub closed spec fn spec_unlocks(self) -> Seq<UpgradeUnlock> {
        self.unlocks@
    }

    pub closed spec fn spec_defs(self) -> Seq<ModifierDef> {
        self.defs@
    }

    pub closed spec fn spec_count(self) -> int {
        self.count as int
    }

    pub closed spec fn spec_unlocked(self) -> bool {
        self.is_unlocked
    }

    pub closed spec fn spec_researched(self) -> bool {
        self.is_researched
    }

    pub closed spec fn spec_calc_modifiers(self) -> ModifierStorage {
        self.calculated_modifiers
    }

    pub closed spec fn spec_calc_prices(self) -> ResourceStorage {
        self.calculated_prices
    }

    pub open spec fn wf(self) -> bool {
        &&& 0 <= self.spec_count()
        &&& fp_valid(self.spec_price_multiplier())
        &&& amounts_wf(self.spec_prices())
        &&& defs_wf(self.spec_defs())
        &&& self.spec_calc_modifiers().wf()
        &&& self.spec_calc_prices().wf()
    }

    /// Do two upgrades agree on everything their asset fixed?
    pub open spec fn same_asset(a: Upgrade, b: Upgrade) -> bool {
        &&& a.spec_name() == b.spec_name()
        &&& a.spec_category() == b.spec_category()
        &&& a.spec_prices() == b.spec_prices()
        &&& a.spec_price_multiplier() == b.spec_price_multiplier()
        &&& a.spec_unlocks() == b.spec_unlocks()
        &&& a.spec_defs() == b.spec_defs()
    }

    /// Build a fresh upgrade from an asset: not yet purchased, locked and
    /// unresearched.
    pub fn from_asset(asset: UpgradeAsset) -> (r: Result<Upgrade, String>)
        ensures
            match r {
                Ok(u) => {
                    &&& !upgrade_has_bad_method(asset.modifiers@)
                    &&& upgrade_fresh_from(u, asset)
                },
                Err(e) => {
                    &&& upgrade_has_bad_method(asset.modifiers@)
                    &&& e@ == "wrong modifier calculation method"@
                },
            },
    {
        let defs = match decode_modifier_defs(&asset.modifiers) {
            Ok(d) => d,
            Err(e) => {
                return Err(e);
            },
        };
        Ok(
            (Upgrade {
                name: asset.name,
                category: asset.category,
                prices: crate::building::decode_amounts(&asset.price),
                price_multiplier: fp_sanitize(asset.price_multiplier),
                unlocks: asset.unlocks,
                defs,
                count: 0,
                calculated_modifiers: ModifierStorage::new(),
                calculated_prices: ResourceStorage::new(),
                is_unlocked: false,
                is_researched: false,
            }),
        )
    }

    pub fn name(&self) -> (r: &str)
        ensures
            r@ == self.spec_name(),
    {
        self.name.as_str()
    }

    pub fn category(&self) -> (r: &str)
        ensures
            r@ == self.spec_category(),
    {
        self.category.as_str()
    }

    pub fn count(&self) -> (r: i32)
        ensures
            r as int == self.spec_count(),
    {
        self.count
    }

    /// Add purchases; the count never falls under zero.
    pub fn add_count(&mut self, count: i32)
        requires
            old(self).wf(),
        ensures
            final(self).wf(),
            Upgrade::same_asset(*old(self), *final(self)),
            final(self).spec_count() == crange(
                old(self).spec_count() + count as int,
                0,
                i32::MAX as int,
            ),
            final(self).spec_unlocked() == old(self).spec_unlocked(),
            final(self).spec_researched() == old(self).spec_researched(),
            final(self).spec_calc_modifiers() == old(self).spec_calc_modifiers(),
            final(self).spec_calc_prices() == old(self).spec_calc_prices(),
    {
        let nc: i64 = self.count as i64 + count as i64;
        let clamped: i64 = if nc < 0 {
            0
        } else if nc > i32::MAX as i64 {
            i32::MAX as i64
        } else {
            nc
        };
        self.count = clamped as i32;
    }

    pub fn is_unlocked(&self) -> (r: bool)
        ensures
            r == self.spec_unlocked(),
    {
        self.is_unlocked
    }

    /// Unlock the upgrade; unlocking is permanent.
    pub fn unlock(&mut self)
        ensures
            Upgrade::same_asset(*old(self), *final(self)),
            final(self).spec_count() == old(self).spec_count(),
            final(self).spec_unlocked(),
            final(self).spec_researched() == old(self).spec_researched(),
            final(self).spec_calc_modifiers() == old(self).spec_calc_modifiers(),
            final(self).spec_calc_prices() == old(self).spec_calc_prices(),
            final(self).wf() == old(self).wf(),
    {
        self.is_unlocked = true;
    }

    pub fn is_researched(&self) -> (r: bool)
        ensures
            r == self.spec_researched(),
    {
        self.is_researched
    }

    /// Mark the upgrade researched; research never reverts.
    pub fn research(&mut self)
        ensures
            Upgrade::same_asset(*old(self), *final(self)),
            final(self).spec_count() == old(self).spec_count(),
            final(self).spec_unlocked() == old(self).spec_unlocked(),
            final(self).spec_researched(),
            final(self).spec_calc_modifiers() == old(self).spec_calc_modifiers(),
            final(self).spec_calc_prices() == old(self).spec_calc_prices(),
            final(self).wf() == old(self).wf(),
    {
        self.is_researched = true;
    }

    /// The things this upgrade unlocks.
    pub fn unlocks(&self) -> (r: &Vec<UpgradeUnlock>)
        ensures
            r@ == self.spec_unlocks(),
    {
        &self.unlocks
    }

    /// Recompute the snapshots: a researched upgrade emits its modifier
    /// declarations, an unresearched one emits nothing; the price always
    /// runs through the price formula under upgrade-scoped keys.
    #[verifier::loop_isolation(false)]
    pub fn calculate(&mut self, modifier_storage: &ModifierStorage)
        requires
            old(self).wf(),
            modifier_storage.wf(),
        ensures
            final(self).wf(),
            Upgrade::same_asset(*old(self), *final(self)),
            final(self).spec_count() == old(self).spec_count(),
            final(self).spec_unlocked() == old(self).spec_unlocked(),
            final(self).spec_researched() == old(self).spec_researched(),
            forall|n: Seq<char>, m: ModifierCalculationMethod| #[trigger]
                final(self).spec_calc_modifiers().spec_value(n, m) == upgrade_emitted(
                    old(self).spec_researched(),
                    old(self).spec_defs(),
                    n,
                    m,
                ),
            forall|n: Seq<char>| #[trigger]
                final(self).spec_calc_prices().spec_value(n) == prices_value(
                    old(self).spec_prices(),
                    *modifier_storage,
                    "upgrade"@,
                    old(self).spec_name(),
                    old(self).spec_category(),
                    old(self).spec_price_multiplier(),
                    old(self).spec_count() as nat,
                    n,
                    old(self).spec_prices().len() as int,
                ),
    {
        self.calculated_modifiers.clear();
        self.calculated_prices.clear();
        if self.is_researched {
            self.calculated_modifiers.add_defs(&self.defs, 1);
        }
        let ghost u0 = *old(self);
        let mut qi: usize = 0;
        while qi < self.prices.len()
            invariant
                0 <= qi <= u0.spec_prices().len(),
                self.name@ == u0.spec_name(),
                self.category@ == u0.spec_category(),
                self.prices@ == u0.spec_prices(),
                self.price_multiplier as int == u0.spec_price_multiplier(),
                self.unlocks@ == u0.spec_unlocks(),
                self.defs@ == u0.spec_defs(),
                self.count as int == u0.spec_count(),
                self.is_unlocked == u0.spec_unlocked(),
                self.is_researched == u0.spec_researched(),
                self.calculated_modifiers.wf(),
                forall|n: Seq<char>, m: ModifierCalculationMethod| #[trigger]
                    self.calculated_modifiers.spec_value(n, m) == upgrade_emitted(
                        u0.spec_researched(),
                        u0.spec_defs(),
                        n,
                        m,
                    ),
                self.calculated_prices.wf(),
                forall|n: Seq<char>| #[trigger]
                    self.calculated_prices.spec_value(n) == prices_value(
                        u0.spec_prices(),
                        *modifier_storage,
                        "upgrade"@,
                        u0.spec_name(),
                        u0.spec_category(),
                        u0.spec_price_multiplier(),
                        u0.spec_count() as nat,
                        n,
                        qi as int,
                    ),
            decreases u0.spec_prices().len() - qi,
        {
            let nm = self.prices[qi].name.as_str().to_owned();
            let v = compute_price(
                modifier_storage,
                "upgrade",
                self.name.as_str(),
                self.category.as_str(),
                self.price_multiplier,
                self.count as u32,
                self.prices[qi].value,
            );
            self.calculated_prices.add(nm, v);
            qi = qi + 1;
        }
    }

    /// The modifiers the last `calculate` computed.
    pub fn calculated_modifiers(&self) -> (r: &ModifierStorage)
        ensures
            *r == self.spec_calc_modifiers(),
    {
        &self.calculated_modifiers
    }

    /// The prices the last `calculate` computed.
    pub fn calculated_prices(&self) -> (r: &ResourceStorage)
        ensures
            *r == self.spec_calc_prices(),
    {
        &self.calculated_prices
    }
}

/// Are all upgrades of a list well-formed?
pub open spec fn upgrades_wf(us: Seq<Upgrade>) -> bool {
    forall|i: int| 0 <= i < us.len() ==> (#[trigger] us[i]).wf()
}

/// Does each upgrade of the list carry its own name?
pub open spec fn upg_names_unique(us: Seq<Upgrade>) -> bool {
    forall|i: int, j: int| 0 <= i < j < us.len() ==> us[i].spec_name() != us[j].spec_name()
}

/// How one upgrade relates to itself across one `calculate`.
pub open spec fn post_calc_upgrade(u0: Upgrade, u1: Upgrade, ms: ModifierStorage) -> bool {
    &&& Upgrade::same_asset(u0, u1)
    &&& u1.wf()
    &&& u1.spec_count() == u0.spec_count()
    &&& u1.spec_unlocked() == u0.spec_unlocked()
    &&& u1.spec_researched() == u0.spec_researched()
    &&& forall|n: Seq<char>, m: ModifierCalculationMethod| #[trigger]
        u1.spec_calc_modifiers().spec_value(n, m) == upgrade_emitted(
            u0.spec_researched(),
            u0.spec_defs(),
            n,
            m,
        )
    &&& forall|n: Seq<char>| #[trigger]
        u1.spec_calc_prices().spec_value(n) == prices_value(
            u0.spec_prices(),
            ms,
            "upgrade"@,
            u0.spec_name(),
            u0.spec_category(),
            u0.spec_price_multiplier(),
            u0.spec_count() as nat,
            n,
            u0.spec_prices().len() as int,
        )
}

/// The manager's aggregated emitted modifiers over the first `upto` upgrades.
pub open spec fn upg_agg_modifiers(
    us: Seq<Upgrade>,
    n: Seq<char>,
    m: ModifierCalculationMethod,
    upto: int,
) -> int
    decreases upto,
{
    if upto <= 0 {
        0
    } else {
        cadd(
            upg_agg_modifiers(us, n, m, upto - 1),
            upgrade_emitted(us[upto - 1].spec_researched(), us[upto - 1].spec_defs(), n, m),
        )
    }
}

/// Owns the upgrades and aggregates the modifiers they emit.
pub struct UpgradeManager {
    upgrades: Vec<Upgrade>,
    calculated_modifiers: ModifierStorage,
}

impl UpgradeManager {
    pub closed spec fn spec_upgrades(self) -> Seq<Upgrade> {
        self.upgrades@
    }

    pub closed spec fn spec_calculated(self) -> ModifierStorage {
        self.calculated_modifiers
    }

    pub open spec fn upg_len(self) -> int {
        self.spec_upgrades().len() as int
    }

    pub open spec fn has_upg(self, name: Seq<char>) -> bool {
        exists|i: int|
            0 <= i < self.upg_len() && (#[trigger] self.spec_upgrades()[i]).spec_name() == name
    }

    pub closed spec fn index_of_upg(self, name: Seq<char>) -> int {
        choose|i: int|
            0 <= i < self.upg_len() && (#[trigger] self.spec_upgrades()[i]).spec_name() == name
    }

    /// The upgrade registered under a name.
    pub open spec fn spec_upg(self, name: Seq<char>) -> Upgrade
        recommends
            self.has_upg(name),
    {
        self.spec_upgrades()[self.index_of_upg(name)]
    }

    pub open spec fn wf(self) -> bool {
        &&& upg_names_unique(self.spec_upgrades())
        &&& upgrades_wf(self.spec_upgrades())
        &&& self.spec_calculated().wf()
    }

    proof fn lemma_upg_at(self, i: int)
        requires
            upg_names_unique(self.spec_upgrades()),
            0 <= i < self.upg_len(),
        ensures
            self.has_upg(self.spec_upgrades()[i].spec_name()),
            self.spec_upg(self.spec_upgrades()[i].spec_name()) == self.spec_upgrades()[i],
    {
        let n = self.spec_upgrades()[i].spec_name();
        assert(self.has_upg(n));
        let j = self.index_of_upg(n);
        if i != j {
            assert(self.spec_upgrades()[i].spec_name() != self.spec_upgrades()[j].spec_name());
        }
    }

    /// The upgrade registered under a name carries that name.
    pub proof fn lemma_spec_upg_name(self, name: Seq<char>)
        requires
            self.has_upg(name),
        ensures
            self.spec_upg(name).spec_name() == name,
    {
    }

    pub fn new() -> (r: UpgradeManager)
        ensures
            r.wf(),
            r.upg_len() == 0,
            forall|n: Seq<char>| !(#[trigger] r.has_upg(n)),
            forall|n: Seq<char>, m: ModifierCalculationMethod| #[trigger]
                r.spec_calculated().spec_value(n, m) == 0,
    {
        UpgradeManager { upgrades: Vec::new(), calculated_modifiers: ModifierStorage::new() }
    }

    fn find_upg(&self, name: &str) -> (r: Option<usize>)
        ensures
            match r {
                Some(i) => i < self.spec_upgrades().len() && self.spec_upgrades()[
                    i as int
                ].spec_name() == name@,
                None => !self.has_upg(name@),
            },
    {
        let mut j: usize = 0;
        while j < self.upgrades.len()
            invariant
                0 <= j <= self.spec_upgrades().len(),
                forall|jj: int|
                    0 <= jj < j ==> (#[trigger] self.spec_upgrades()[jj]).spec_name() != name@,
            decreases self.spec_upgrades().len() - j,
        {
            if str_eq(self.upgrades[j].name(), name) {
                return Some(j);
            }
            j = j + 1;
        }
        None
    }

    /// The upgrade registered under a name, if any.
    pub fn get(&self, name: &str) -> (r: Option<&Upgrade>)
        requires
            self.wf(),
        ensures
            match r {
                Some(u) => self.has_upg(name@) && *u == self.spec_upg(name@),
                None => !self.has_upg(name@),
            },
    {
        match self.find_upg(name) {
            Some(i) => {
                proof {
                    self.lemma_upg_at(i as int);
                }
                Some(&self.upgrades[i])
            },
            None => None,
        }
    }

    /// Register an upgrade under its name, replacing one already there.
    pub fn add(&mut self, upgrade: Upgrade)
        requires
            old(self).wf(),
            upgrade.wf(),
        ensures
            final(self).wf(),
            forall|n: Seq<char>| #[trigger]
                final(self).has_upg(n) == (old(self).has_upg(n) || n == upgrade.spec_name()),
            final(self).spec_upg(upgrade.spec_name()) == upgrade,
            forall|n: Seq<char>|
                n != upgrade.spec_name() && old(self).has_upg(n)
                    ==> #[trigger] final(self).spec_upg(n) == old(self).spec_upg(n),
            final(self).spec_calculated() == old(self).spec_calculated(),
    {
        let ghost s0 = *self;
        match self.find_upg(upgrade.name()) {
            Some(i) => {
                let _old_entry = self.upgrades.swap_remove(i);
                self.upgrades.push(upgrade);
                proof {
                    self.lemma_add_upg_found(s0, i as int, upgrade);
                }
            },
            None => {
                self.upgrades.push(upgrade);
                proof {
                    self.lemma_add_upg_absent(s0, upgrade);
                }
            },
        }
    }

    proof fn lemma_add_upg_found(self, s0: UpgradeManager, i: int, upgrade: Upgrade)
        requires
            s0.wf(),
            upgrade.wf(),
            0 <= i < s0.upg_len(),
            s0.spec_upgrades()[i].spec_name() == upgrade.spec_name(),
            self.spec_upgrades() == s0.spec_upgrades().update(
                i,
                s0.spec_upgrades().last(),
            ).drop_last().push(upgrade),
            self.spec_calculated() == s0.spec_calculated(),
        ensures
            self.wf(),
            forall|n: Seq<char>| #[trigger]
                self.has_upg(n) == (s0.has_upg(n) || n == upgrade.spec_name()),
            self.spec_upg(upgrade.spec_name()) == upgrade,
            forall|n: Seq<char>|
                n != upgrade.spec_name() && s0.has_upg(n) ==> #[trigger] self.spec_upg(n)
                    == s0.spec_upg(n),
    {
        let len = s0.upg_len();
        let name = upgrade.spec_name();
        assert(self.upg_len() == len);
        assert forall|j: int| 0 <= j < len - 1 && j != i implies self.spec_upgrades()[j]
            == s0.spec_upgrades()[j] by {}
        if i < len - 1 {
            assert(self.spec_upgrades()[i] == s0.spec_upgrades()[len - 1]);
        }
        assert(self.spec_upgrades()[len - 1] == upgrade);
        assert forall|j1: int, j2: int| 0 <= j1 < j2 < len implies self.spec_upgrades()[
            j1
        ].spec_name() != self.spec_upgrades()[j2].spec_name() by {
            let o1 = if j1 == len - 1 { i } else if j1 == i && i < len - 1 { len - 1 } else { j1 };
            let o2 = if j2 == len - 1 { i } else if j2 == i && i < len - 1 { len - 1 } else { j2 };
            if j1 == len - 1 {
                assert(self.spec_upgrades()[j1].spec_name() == s0.spec_upgrades()[o1].spec_name());
            } else {
                assert(self.spec_upgrades()[j1] == s0.spec_upgrades()[o1]);
            }
            if j2 == len - 1 {
                assert(self.spec_upgrades()[j2].spec_name() == s0.spec_upgrades()[o2].spec_name());
            } else {
                assert(self.spec_upgrades()[j2] == s0.spec_upgrades()[o2]);
            }
            assert(o1 != o2);
        }
        assert(upg_names_unique(self.spec_upgrades()));
        assert forall|j: int| 0 <= j < len implies (#[trigger] self.spec_upgrades()[j]).wf() by {
            if j == len - 1 {
            } else if j == i && i < len - 1 {
                assert(self.spec_upgrades()[j] == s0.spec_upgrades()[len - 1]);
            } else {
                assert(self.spec_upgrades()[j] == s0.spec_upgrades()[j]);
            }
        }
        assert(self.wf());
        self.lemma_upg_at(len - 1);
        assert forall|n: Seq<char>| #[trigger]
            self.has_upg(n) == (s0.has_upg(n) || n == name) by {
            if n == name {
                assert(self.spec_upgrades()[len - 1].spec_name() == n);
                assert(s0.spec_upgrades()[i].spec_name() == n);
            } else {
                if s0.has_upg(n) {
                    let j = s0.index_of_upg(n);
                    let j_new = if j == len - 1 && i < len - 1 {
                        i
                    } else {
                        j
                    };
                    assert(j != i);
                    assert(self.spec_upgrades()[j_new].spec_name() == n);
                }
                if self.has_upg(n) {
                    let j = self.index_of_upg(n);
                    assert(j != len - 1);
                    let o = if j == i && i < len - 1 {
                        len - 1
                    } else {
                        j
                    };
                    assert(s0.spec_upgrades()[o].spec_name() == n);
                }
            }
        }
        assert forall|n: Seq<char>|
            n != name && s0.has_upg(n) implies #[trigger] self.spec_upg(n) == s0.spec_upg(n) by {
            let j = s0.index_of_upg(n);
            s0.lemma_upg_at(j);
            assert(j != i);
            let j_new = if j == len - 1 && i < len - 1 {
                i
            } else {
                j
            };
            assert(self.spec_upgrades()[j_new] == s0.spec_upgrades()[j]);
            self.lemma_upg_at(j_new);
        }
    }

    proof fn lemma_add_upg_absent(self, s0: UpgradeManager, upgrade: Upgrade)
        requires
            s0.wf(),
            upgrade.wf(),
            !s0.has_upg(upgrade.spec_name()),
            self.spec_upgrades() == s0.spec_upgrades().push(upgrade),
            self.spec_calculated() == s0.spec_calculated(),
        ensures
            self.wf(),
            forall|n: Seq<char>| #[trigger]
                self.has_upg(n) == (s0.has_upg(n) || n == upgrade.spec_name()),
            self.spec_upg(upgrade.spec_name()) == upgrade,
            forall|n: Seq<char>|
                n != upgrade.spec_name() && s0.has_upg(n) ==> #[trigger] self.spec_upg(n)
                    == s0.spec_upg(n),
    {
        let len = s0.upg_len();
        let name = upgrade.spec_name();
        assert(forall|j: int| 0 <= j < len ==> self.spec_upgrades()[j] == s0.spec_upgrades()[j]);
        assert(self.spec_upgrades()[len] == upgrade);
        assert forall|j1: int, j2: int| 0 <= j1 < j2 < len + 1 implies self.spec_upgrades()[
            j1
        ].spec_name() != self.spec_upgrades()[j2].spec_name() by {
            assert(self.spec_upgrades()[j1] == s0.spec_upgrades()[j1]);
            if j2 == len {
                if s0.spec_upgrades()[j1].spec_name() == name {
                    assert(s0.has_upg(name));
                }
            } else {
                assert(self.spec_upgrades()[j2] == s0.spec_upgrades()[j2]);
            }
        }
        assert forall|j: int| 0 <= j < len + 1 implies (#[trigger] self.spec_upgrades()[
            j
        ]).wf() by {
            if j < len {
                assert(self.spec_upgrades()[j] == s0.spec_upgrades()[j]);
            }
        }
        assert(self.wf());
        self.lemma_upg_at(len);
        assert forall|n: Seq<char>| #[trigger]
            self.has_upg(n) == (s0.has_upg(n) || n == name) by {
            if s0.has_upg(n) {
                let j = s0.index_of_upg(n);
                assert(self.spec_upgrades()[j].spec_name() == n);
            }
            if self.has_upg(n) && n != name {
                let j = self.index_of_upg(n);
                assert(j != len);
                assert(s0.spec_upgrades()[j].spec_name() == n);
            }
        }
        assert forall|n: Seq<char>|
            n != name && s0.has_upg(n) implies #[trigger] self.spec_upg(n) == s0.spec_upg(n) by {
            let j = s0.index_of_upg(n);
            s0.lemma_upg_at(j);
            assert(self.spec_upgrades()[j] == s0.spec_upgrades()[j]);
            self.lemma_upg_at(j);
        }
    }

    /// Build an upgrade from its asset and register it; an unknown modifier
    /// method string is reported and nothing changes.
    pub fn load_from_asset(&mut self, upgrade_asset: UpgradeAsset) -> (r: Result<(), String>)
        requires
            old(self).wf(),
        ensures
            final(self).wf(),
            match r {
                Ok(()) => {
                    &&& !upgrade_has_bad_method(upgrade_asset.modifiers@)
                    &&& forall|n: Seq<char>| #[trigger]
                        final(self).has_upg(n) == (old(self).has_upg(n) || n
                            == upgrade_asset.name@)
                    &&& upgrade_fresh_from(
                        final(self).spec_upg(upgrade_asset.name@),
                        upgrade_asset,
                    )
                    &&& forall|n: Seq<char>|
                        n != upgrade_asset.name@ && old(self).has_upg(n)
                            ==> #[trigger] final(self).spec_upg(n) == old(self).spec_upg(n)
                    &&& final(self).spec_calculated() == old(self).spec_calculated()
                },
                Err(e) => {
                    &&& upgrade_has_bad_method(upgrade_asset.modifiers@)
                    &&& e@ == "wrong modifier calculation method"@
                    &&& *final(self) == *old(self)
                },
            },
    {
        let upgrade = match Upgrade::from_asset(upgrade_asset) {
            Ok(u) => u,
            Err(e) => {
                return Err(e);
            },
        };
        self.add(upgrade);
        Ok(())
    }

    /// Mark the upgrade registered under a name as researched; an unknown
    /// name changes nothing.
    pub fn research(&mut self, name: &str)
        requires
            old(self).wf(),
        ensures
            final(self).wf(),
            forall|n: Seq<char>| #[trigger] final(self).has_upg(n) == old(self).has_upg(n),
            old(self).has_upg(name@) ==> {
                &&& Upgrade::same_asset(old(self).spec_upg(name@), final(self).spec_upg(name@))
                &&& final(self).spec_upg(name@).spec_count() == old(self).spec_upg(
                    name@,
                ).spec_count()
                &&& final(self).spec_upg(name@).spec_unlocked() == old(self).spec_upg(
                    name@,
                ).spec_unlocked()
                &&& final(self).spec_upg(name@).spec_calc_modifiers() == old(self).spec_upg(
                    name@,
                ).spec_calc_modifiers()
                &&& final(self).spec_upg(name@).spec_calc_prices() == old(self).spec_upg(
                    name@,
                ).spec_calc_prices()
                &&& final(self).spec_upg(name@).spec_researched()
            },
            forall|n: Seq<char>|
                n != name@ && old(self).has_upg(n)
                    ==> #[trigger] final(self).spec_upg(n) == old(self).spec_upg(n),
            final(self).spec_calculated() == old(self).spec_calculated(),
            !old(self).has_upg(name@) ==> *final(self) == *old(self),
    {
        let ghost s0 = *self;
        match self.find_upg(name) {
            Some(i) => {
                proof {
                    s0.lemma_upg_at(i as int);
                }
                let mut u = self.upgrades.remove(i);
                u.research();
                self.upgrades.push(u);
                proof {
                    self.lemma_upg_replace_at(s0, i as int, name@);
                }
            },
            None => {},
        }
    }

    /// Unlock the upgrade registered under a name; an unknown name changes
    /// nothing.
    pub fn unlock(&mut self, name: &str)
        requires
            old(self).wf(),
        ensures
            final(self).wf(),
            forall|n: Seq<char>| #[trigger] final(self).has_upg(n) == old(self).has_upg(n),
            old(self).has_upg(name@) ==> {
                &&& Upgrade::same_asset(old(self).spec_upg(name@), final(self).spec_upg(name@))
                &&& final(self).spec_upg(name@).spec_count() == old(self).spec_upg(
                    name@,
                ).spec_count()
                &&& final(self).spec_upg(name@).spec_researched() == old(self).spec_upg(
                    name@,
                ).spec_researched()
                &&& final(self).spec_upg(name@).spec_calc_modifiers() == old(self).spec_upg(
                    name@,
                ).spec_calc_modifiers()
                &&& final(self).spec_upg(name@).spec_calc_prices() == old(self).spec_upg(
                    name@,
                ).spec_calc_prices()
                &&& final(self).spec_upg(name@).spec_unlocked()
            },
            forall|n: Seq<char>|
                n != name@ && old(self).has_upg(n)
                    ==> #[trigger] final(self).spec_upg(n) == old(self).spec_upg(n),
            final(self).spec_calculated() == old(self).spec_calculated(),
            !old(self).has_upg(name@) ==> *final(self) == *old(self),
    {
        let ghost s0 = *self;
        match self.find_upg(name) {
            Some(i) => {
                proof {
                    s0.lemma_upg_at(i as int);
                }
                let mut u = self.upgrades.remove(i);
                u.unlock();
                self.upgrades.push(u);
                proof {
                    self.lemma_upg_replace_at(s0, i as int, name@);
                }
            },
            None => {},
        }
    }

    proof fn lemma_upg_replace_at(self, s0: UpgradeManager, i: int, name: Seq<char>)
        requires
            s0.wf(),
            0 <= i < s0.upg_len(),
            s0.spec_upgrades()[i].spec_name() == name,
            self.spec_upgrades() == s0.spec_upgrades().remove(i).push(
                self.spec_upgrades().last(),
            ),
            self.spec_upgrades().last().wf(),
            self.spec_upgrades().last().spec_name() == name,
            self.spec_calculated() == s0.spec_calculated(),
        ensures
            self.wf(),
            forall|n: Seq<char>| #[trigger] self.has_upg(n) == s0.has_upg(n),
            self.spec_upg(name) == self.spec_upgrades().last(),
            forall|n: Seq<char>|
                n != name && s0.has_upg(n) ==> #[trigger] self.spec_upg(n) == s0.spec_upg(n),
    {
        let len = s0.upg_len();
        let us1 = self.spec_upgrades();
        assert(us1.len() == len);
        assert forall|j: int| 0 <= j < len - 1 implies us1[j] == s0.spec_upgrades()[
            (if j < i {
                j
            } else {
                j + 1
            })
        ] by {}
        assert forall|j1: int, j2: int| 0 <= j1 < j2 < len implies us1[j1].spec_name() != us1[
            j2
        ].spec_name() by {
            let o1 = if j1 < i {
                j1
            } else {
                j1 + 1
            };
            if j2 == len - 1 {
                assert(us1[j1] == s0.spec_upgrades()[o1]);
                if o1 != i {
                    assert(s0.spec_upgrades()[o1].spec_name() != s0.spec_upgrades()[
                        i
                    ].spec_name());
                }
            } else {
                let o2 = if j2 < i {
                    j2
                } else {
                    j2 + 1
                };
                assert(us1[j1] == s0.spec_upgrades()[o1]);
                assert(us1[j2] == s0.spec_upgrades()[o2]);
            }
        }
        assert forall|j: int| 0 <= j < len implies (#[trigger] us1[j]).wf() by {
            if j < len - 1 {
                let o = if j < i {
                    j
                } else {
                    j + 1
                };
                assert(us1[j] == s0.spec_upgrades()[o]);
            }
        }
        assert(self.wf());
        self.lemma_upg_at(len - 1);
        assert forall|n: Seq<char>| #[trigger] self.has_upg(n) == s0.has_upg(n) by {
            if s0.has_upg(n) {
                let j = s0.index_of_upg(n);
                if j == i {
                    assert(us1[len - 1].spec_name() == n);
                } else {
                    let j_new = if j < i {
                        j
                    } else {
                        j - 1
                    };
                    assert(us1[j_new] == s0.spec_upgrades()[j]);
                }
            }
            if self.has_upg(n) {
                let j = self.index_of_upg(n);
                if j == len - 1 {
                    assert(s0.spec_upgrades()[i].spec_name() == n);
                } else {
                    let o = if j < i {
                        j
                    } else {
                        j + 1
                    };
                    assert(us1[j] == s0.spec_upgrades()[o]);
                }
            }
        }
        assert forall|n: Seq<char>|
            n != name && s0.has_upg(n) implies #[trigger] self.spec_upg(n) == s0.spec_upg(n) by {
            let j = s0.index_of_upg(n);
            s0.lemma_upg_at(j);
            assert(j != i);
            let j_new = if j < i {
                j
            } else {
                j - 1
            };
            assert(us1[j_new] == s0.spec_upgrades()[j]);
            self.lemma_upg_at(j_new);
        }
    }

    /// One tick's upgrade step: every upgrade recomputes its snapshots, and
    /// the manager aggregates the emitted modifiers.
    #[verifier::loop_isolation(false)]
    pub fn calculate(&mut self, modifier_storage: &ModifierStorage)
        requires
            old(self).wf(),
            modifier_storage.wf(),
        ensures
            final(self).wf(),
            final(self).upg_len() == old(self).upg_len(),
            forall|i: int|
                0 <= i < old(self).upg_len() ==> post_calc_upgrade(
                    #[trigger] old(self).spec_upgrades()[i],
                    final(self).spec_upgrades()[i],
                    *modifier_storage,
                ),
            forall|n: Seq<char>| #[trigger] final(self).has_upg(n) == old(self).has_upg(n),
            forall|n: Seq<char>|
                old(self).has_upg(n) ==> post_calc_upgrade(
                    old(self).spec_upg(n),
                    #[trigger] final(self).spec_upg(n),
                    *modifier_storage,
                ),
            forall|n: Seq<char>, m: ModifierCalculationMethod| #[trigger]
                final(self).spec_calculated().spec_value(n, m) == upg_agg_modifiers(
                    old(self).spec_upgrades(),
                    n,
                    m,
                    old(self).upg_len(),
                ),
    {
        let ghost us0 = self.spec_upgrades();
        self.calculated_modifiers.clear();
        let mut done: Vec<Upgrade> = Vec::new();
        while self.upgrades.len() > 0
            invariant
                done@.len() + self.upgrades@.len() == us0.len(),
                forall|i: int|
                    0 <= i < self.upgrades@.len() ==> self.upgrades@[i] == us0[done@.len() + i],
                forall|i: int|
                    0 <= i < done@.len() ==> post_calc_upgrade(
                        #[trigger] us0[i],
                        done@[i],
                        *modifier_storage,
                    ),
                self.calculated_modifiers.wf(),
                forall|n: Seq<char>, m: ModifierCalculationMethod| #[trigger]
                    self.calculated_modifiers.spec_value(n, m) == upg_agg_modifiers(
                        us0,
                        n,
                        m,
                        done@.len() as int,
                    ),
            decreases self.upgrades@.len(),
        {
            let mut u = self.upgrades.remove(0);
            u.calculate(modifier_storage);
            self.calculated_modifiers.combine(u.calculated_modifiers());
            done.push(u);
        }
        self.upgrades = done;
        proof {
            let us1 = self.spec_upgrades();
            assert(us1.len() == us0.len());
            assert forall|i: int| 0 <= i < us1.len() implies (#[trigger] us1[i]).wf() by {
                assert(post_calc_upgrade(us0[i], us1[i], *modifier_storage));
            }
            assert forall|j1: int, j2: int| 0 <= j1 < j2 < us1.len() implies us1[
                j1
            ].spec_name() != us1[j2].spec_name() by {
                assert(post_calc_upgrade(us0[j1], us1[j1], *modifier_storage));
                assert(post_calc_upgrade(us0[j2], us1[j2], *modifier_storage));
            }
            assert forall|n: Seq<char>| #[trigger]
                self.has_upg(n) == old(self).has_upg(n) by {
                if old(self).has_upg(n) {
                    let j = old(self).index_of_upg(n);
                    assert(post_calc_upgrade(us0[j], us1[j], *modifier_storage));
                    assert(us1[j].spec_name() == n);
                }
                if self.has_upg(n) {
                    let j = self.index_of_upg(n);
                    assert(post_calc_upgrade(us0[j], us1[j], *modifier_storage));
                    assert(us0[j].spec_name() == n);
                }
            }
            assert forall|n: Seq<char>|
                old(self).has_upg(n) implies post_calc_upgrade(
                old(self).spec_upg(n),
                #[trigger] self.spec_upg(n),
                *modifier_storage,
            ) by {
                let j = old(self).index_of_upg(n);
                old(self).lemma_upg_at(j);
                assert(post_calc_upgrade(us0[j], us1[j], *modifier_storage));
                assert(us1[j].spec_name() == n);
                self.lemma_upg_at(j);
            }
        }
    }

    /// The aggregated emitted modifiers the last `calculate` computed.
    pub fn calculated_modifiers(&self) -> (r: &ModifierStorage)
        ensures
            *r == self.spec_calculated(),
    {
        &self.calculated_modifiers
    }
}

} // verus!
