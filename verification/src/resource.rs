//! Resource stocks and the simple name-to-value accumulator that carries
//! aggregated flows (total upkeep, total output) between managers.

use vstd::prelude::*;

use crate::fixed::{cadd, crange, csub, fp_add, fp_crange, fp_max, fp_sanitize, fp_sub, fp_valid, Fp};
use crate::modifier::{
    decode_modifier_defs, defs_wf, emitted_from, is_method_key, mods_decode,
    ModifierCalculationMethod, ModifierDef, ModifierStorage, RawModifier,
};
use crate::text::str_eq;

verus! {

struct ResourceAmount {
    name: String,
    value: Fp,
}

/// A name-to-value accumulator: `add` accumulates, an absent name counts as
/// zero. Rebuilt each tick as an aggregation scratch-pad.
pub struct ResourceStorage {
    entries: Vec<ResourceAmount>,
}

impl ResourceStorage {
    pub closed spec fn name_at(self, i: int) -> Seq<char> {
        self.entries@[i].name@
    }

    pub closed spec fn spec_len(self) -> int {
        self.entries@.len() as int
    }

    /// Well-formed: one entry per name, every value representable.
    pub closed spec fn wf(self) -> bool {
        &&& forall|i: int, j: int|
            0 <= i < j < self.spec_len() ==> self.name_at(i) != self.name_at(j)
        &&& forall|i: int|
            0 <= i < self.spec_len() ==> fp_valid(#[trigger] self.entries@[i].value as int)
    }

    pub closed spec fn has_name(self, name: Seq<char>) -> bool {
        exists|i: int| 0 <= i < self.spec_len() && self.name_at(i) == name
    }

    spec fn index_of(self, name: Seq<char>) -> int {
        choose|i: int| 0 <= i < self.spec_len() && self.name_at(i) == name
    }

    /// The accumulated value under a name; absence is the neutral `0`.
    pub closed spec fn spec_value(self, name: Seq<char>) -> int {
        if self.has_name(name) {
            self.entries@[self.index_of(name)].value as int
        } else {
            0
        }
    }

    /// What one name holds after this storage absorbs `other`.
    pub open spec fn combined_value(self, other: ResourceStorage, name: Seq<char>) -> int {
        cadd(self.spec_value(name), other.spec_value(name))
    }

    proof fn lemma_value_at(self, i: int)
        requires
            self.wf(),
            0 <= i < self.spec_len(),
        ensures
            self.has_name(self.name_at(i)),
            self.spec_value(self.name_at(i)) == self.entries@[i].value as int,
    {
        let n = self.name_at(i);
        assert(self.has_name(n));
        let j = self.index_of(n);
        if i != j {
            assert(self.name_at(i) != self.name_at(j));
        }
    }

    /// A name is held exactly when some index carries it.
    pub proof fn lemma_has_name_iff(self, name: Seq<char>)
        ensures
            self.has_name(name) == exists|i: int|
                0 <= i < self.spec_len() && self.name_at(i) == name,
    {
    }

    /// A well-formed storage only ever holds representable values.
    pub proof fn lemma_spec_value_valid(self, name: Seq<char>)
        requires
            self.wf(),
        ensures
            fp_valid(self.spec_value(name)),
    {
    }

    pub fn new() -> (r: ResourceStorage)
        ensures
            r.wf(),
            forall|n: Seq<char>| #[trigger] r.spec_value(n) == 0,
            forall|n: Seq<char>| !(#[trigger] r.has_name(n)),
            r.spec_len() == 0,
    {
        ResourceStorage { entries: Vec::new() }
    }

    /// Empty the storage: every name returns to the neutral `0`.
    pub fn clear(&mut self)
        ensures
            final(self).wf(),
            forall|n: Seq<char>| #[trigger] final(self).spec_value(n) == 0,
            forall|n: Seq<char>| !(#[trigger] final(self).has_name(n)),
            final(self).spec_len() == 0,
    {
        self.entries.clear();
    }

    fn find_index(&self, name: &str) -> (r: Option<usize>)
        ensures
            match r {
                Some(i) => i < self.entries@.len() && self.name_at(i as int) == name@,
                None => !self.has_name(name@),
            },
    {
        let mut j: usize = 0;
        while j < self.entries.len()
            invariant
                0 <= j <= self.entries@.len(),
                forall|jj: int| 0 <= jj < j ==> self.name_at(jj) != name@,
            decreases self.entries@.len() - j,
        {
            if str_eq(self.entries[j].name.as_str(), name) {
                return Some(j);
            }
            j = j + 1;
        }
        None
    }

    /// The accumulated value under `name`, `0` when absent.
    pub fn value(&self, name: &str) -> (r: Fp)
        requires
            self.wf(),
        ensures
            r as int == self.spec_value(name@),
            fp_valid(r as int),
    {
        match self.find_index(name) {
            Some(i) => {
                proof {
                    self.lemma_value_at(i as int);
                }
                self.entries[i].value
            },
            None => 0,
        }
    }

    /// The value under `name`, or nothing when the name is absent.
    pub fn get(&self, name: &str) -> (r: Option<Fp>)
        requires
            self.wf(),
        ensures
            match r {
                Some(v) => self.has_name(name@) && v as int == self.spec_value(name@),
                None => !self.has_name(name@),
            },
    {
        match self.find_index(name) {
            Some(i) => {
                proof {
                    self.lemma_value_at(i as int);
                }
                Some(self.entries[i].value)
            },
            None => None,
        }
    }

    /// How many names hold a value.
    pub fn len(&self) -> (r: usize)
        ensures
            r as int == self.spec_len(),
    {
        self.entries.len()
    }

    /// The name stored at an index; the order carries no meaning.
    pub fn name_of(&self, i: usize) -> (r: &str)
        requires
            i < self.spec_len(),
        ensures
            r@ == self.name_at(i as int),
            self.wf() ==> self.has_name(r@),
    {
        proof {
            if self.wf() {
                self.lemma_value_at(i as int);
            }
        }
        self.entries[i].name.as_str()
    }

    /// Accumulate `value` onto `name`; an absent name starts from zero.
    pub fn add(&mut self, name: String, value: Fp)
        requires
            old(self).wf(),
            fp_valid(value as int),
        ensures
            final(self).wf(),
            forall|n: Seq<char>| #[trigger]
                final(self).spec_value(n) == if n == name@ {
                    cadd(old(self).spec_value(n), value as int)
                } else {
                    old(self).spec_value(n)
                },
            forall|n: Seq<char>| #[trigger]
                final(self).has_name(n) == (old(self).has_name(n) || n == name@),
    {
        let ghost s0 = *self;
        match self.find_index(name.as_str()) {
            Some(i) => {
                proof {
                    s0.lemma_value_at(i as int);
                }
                let mut en = self.entries.swap_remove(i);
                en.value = fp_add(en.value, value);
                self.entries.push(en);
                proof {
                    self.lemma_add_found(s0, i as int, name@, value as int);
                }
            },
            None => {
                self.entries.push(ResourceAmount { name, value });
                proof {
                    self.lemma_add_absent(s0, name@, value as int);
                }
            },
        }
    }

    proof fn lemma_add_found(self, s0: ResourceStorage, i: int, name: Seq<char>, value: int)
        requires
            s0.wf(),
            fp_valid(value),
            0 <= i < s0.spec_len(),
            s0.name_at(i) == name,
            self.entries@ == s0.entries@.update(i, s0.entries@.last()).drop_last().push(
                (ResourceAmount {
                    name: s0.entries@[i].name,
                    value: self.entries@.last().value,
                }),
            ),
            self.entries@.last().value as int == cadd(s0.entries@[i].value as int, value),
            self.entries@.last().name@ == name,
        ensures
            self.wf(),
            forall|n: Seq<char>| #[trigger]
                self.spec_value(n) == if n == name {
                    cadd(s0.spec_value(n), value)
                } else {
                    s0.spec_value(n)
                },
            forall|n: Seq<char>| #[trigger] self.has_name(n) == (s0.has_name(n) || n == name),
    {
        let len = s0.spec_len();
        assert(self.spec_len() == len);
        assert forall|j: int| 0 <= j < len - 1 && j != i implies self.entries@[j]
            == s0.entries@[j] by {}
        if i < len - 1 {
            assert(self.entries@[i] == s0.entries@[len - 1]);
        }
        assert(self.name_at(len - 1) == s0.name_at(i));

        assert forall|j1: int, j2: int| 0 <= j1 < j2 < len implies self.name_at(j1)
            != self.name_at(j2) by {
            let o1 = if j1 == len - 1 { i } else if j1 == i && i < len - 1 { len - 1 } else { j1 };
            let o2 = if j2 == len - 1 { i } else if j2 == i && i < len - 1 { len - 1 } else { j2 };
            assert(self.name_at(j1) == s0.name_at(o1));
            assert(self.name_at(j2) == s0.name_at(o2));
            assert(o1 != o2);
        }
        assert(self.wf());

        assert forall|n: Seq<char>| #[trigger]
            self.spec_value(n) == if n == name {
                cadd(s0.spec_value(n), value)
            } else {
                s0.spec_value(n)
            } by {
            if n == name {
                self.lemma_value_at(len - 1);
                s0.lemma_value_at(i);
            } else {
                if s0.has_name(n) {
                    let j = s0.index_of(n);
                    s0.lemma_value_at(j);
                    let j_new = if j == len - 1 && i < len - 1 {
                        i
                    } else {
                        j
                    };
                    assert(self.name_at(j_new) == n);
                    assert(self.entries@[j_new].value == s0.entries@[j].value);
                    self.lemma_value_at(j_new);
                } else {
                    if self.has_name(n) {
                        let j = self.index_of(n);
                        let o = if j == len - 1 {
                            i
                        } else if j == i && i < len - 1 {
                            len - 1
                        } else {
                            j
                        };
                        assert(s0.name_at(o) == n);
                    }
                }
            }
        }
        assert forall|n: Seq<char>| #[trigger] self.has_name(n) == (s0.has_name(n) || n
            == name) by {
            if n == name {
                assert(self.name_at(len - 1) == n);
            } else if s0.has_name(n) {
                let j = s0.index_of(n);
                s0.lemma_value_at(j);
                let j_new = if j == len - 1 && i < len - 1 {
                    i
                } else {
                    j
                };
                assert(self.name_at(j_new) == n);
            }
            if self.has_name(n) && n != name {
                let j = self.index_of(n);
                let o = if j == len - 1 {
                    i
                } else if j == i && i < len - 1 {
                    len - 1
                } else {
                    j
                };
                assert(s0.name_at(o) == n);
            }
        }
    }

    proof fn lemma_add_absent(self, s0: ResourceStorage, name: Seq<char>, value: int)
        requires
            s0.wf(),
            fp_valid(value),
            !s0.has_name(name),
            self.entries@.len() == s0.entries@.len() + 1,
            self.entries@ == s0.entries@.push(self.entries@.last()),
            self.entries@.last().name@ == name,
            self.entries@.last().value as int == value,
        ensures
            self.wf(),
            forall|n: Seq<char>| #[trigger]
                self.spec_value(n) == if n == name {
                    cadd(s0.spec_value(n), value)
                } else {
                    s0.spec_value(n)
                },
            forall|n: Seq<char>| #[trigger] self.has_name(n) == (s0.has_name(n) || n == name),
    {
        let len = s0.spec_len();
        assert(forall|j: int| 0 <= j < len ==> self.entries@[j] == s0.entries@[j]);
        assert forall|j1: int, j2: int| 0 <= j1 < j2 < len + 1 implies self.name_at(j1)
            != self.name_at(j2) by {
            assert(self.entries@[j1] == s0.entries@[j1]);
            assert(self.name_at(j1) == s0.name_at(j1));
            if j2 == len {
                if s0.name_at(j1) == name {
                    assert(s0.has_name(name));
                }
            } else {
                assert(self.name_at(j2) == s0.name_at(j2));
                assert(s0.name_at(j1) != s0.name_at(j2));
            }
        }
        assert(self.wf());
        assert(cadd(0, value) == value);
        assert forall|n: Seq<char>| #[trigger]
            self.spec_value(n) == if n == name {
                cadd(s0.spec_value(n), value)
            } else {
                s0.spec_value(n)
            } by {
            if n == name {
                self.lemma_value_at(len);
            } else {
                if s0.has_name(n) {
                    let j = s0.index_of(n);
                    s0.lemma_value_at(j);
                    assert(self.name_at(j) == n);
                    self.lemma_value_at(j);
                } else {
                    if self.has_name(n) {
                        let j = self.index_of(n);
                        assert(j != len);
                        assert(s0.name_at(j) == n);
                    }
                }
            }
        }
        assert forall|n: Seq<char>| #[trigger] self.has_name(n) == (s0.has_name(n) || n
            == name) by {
            if s0.has_name(n) {
                let j = s0.index_of(n);
                assert(self.name_at(j) == n);
            }
            if n == name {
                assert(self.name_at(len) == n);
            }
            if self.has_name(n) && n != name {
                let j = self.index_of(n);
                assert(j != len);
                assert(s0.name_at(j) == n);
            }
        }
    }

    /// Absorb every entry of `other`, name by name.
    pub fn combine(&mut self, other: &ResourceStorage)
        requires
            old(self).wf(),
            other.wf(),
        ensures
            final(self).wf(),
            forall|n: Seq<char>| #[trigger]
                final(self).spec_value(n) == old(self).combined_value(*other, n),
    {
        let ghost s0 = *self;
        let mut j: usize = 0;
        while j < other.entries.len()
            invariant
                s0.wf(),
                other.wf(),
                self.wf(),
                0 <= j <= other.spec_len(),
                forall|n: Seq<char>| #[trigger]
                    self.spec_value(n) == if exists|jj: int|
                        0 <= jj < j && other.name_at(jj) == n {
                        cadd(s0.spec_value(n), other.spec_value(n))
                    } else {
                        s0.spec_value(n)
                    },
            decreases other.spec_len() - j,
        {
            let e = &other.entries[j];
            proof {
                other.lemma_value_at(j as int);
            }
            self.add(e.name.as_str().to_owned(), e.value);
            proof {
                assert forall|jj: int| 0 <= jj < j && other.name_at(jj) == other.name_at(
                    j as int,
                ) implies false by {}
            }
            j = j + 1;
        }
        proof {
            assert forall|n: Seq<char>| #[trigger]
                self.spec_value(n) == s0.combined_value(*other, n) by {
                if other.has_name(n) {
                    let jj = other.index_of(n);
                    other.lemma_value_at(jj);
                } else {
                    s0.lemma_spec_value_valid(n);
                    assert(cadd(s0.spec_value(n), 0) == s0.spec_value(n));
                }
            }
        }
    }
}

/// A resource asset as the loader hands it over: raw numbers in thousandths,
/// modifier methods still strings.
pub struct ResourceAsset {
    pub name: String,
    pub category: String,
    pub base_capacity: i64,
    pub modifiers: Vec<RawModifier>,
}

/// A stock with capacity, per-tick production and consumption, and the
/// modifiers it passively emits.
pub struct Resource {
    name: String,
    category: String,
    base_capacity: Fp,
    defs: Vec<ModifierDef>,
    count: Fp,
    capacity: Fp,
    production: Fp,
    consumption: Fp,
    calculated_modifiers: ModifierStorage,
    is_unlocked: bool,
}

impl Resource {
    pub closed spec fn spec_name(self) -> Seq<char> {
        self.name@
    }

    pub closed spec fn spec_category(self) -> Seq<char> {
        self.category@
    }

    pub closed spec fn spec_base_capacity(self) -> int {
        self.base_capacity as int
    }

    pub closed spec fn spec_defs(self) -> Seq<ModifierDef> {
        self.defs@
    }

    pub closed spec fn spec_count(self) -> int {
        self.count as int
    }

    pub closed spec fn spec_capacity(self) -> int {
        self.capacity as int
    }

    pub closed spec fn spec_production(self) -> int {
        self.production as int
    }

    pub closed spec fn spec_consumption(self) -> int {
        self.consumption as int
    }

    pub closed spec fn spec_unlocked(self) -> bool {
        self.is_unlocked
    }

    pub closed spec fn spec_calculated(self) -> ModifierStorage {
        self.calculated_modifiers
    }

    /// The invariant every observation point sees: the stock is inside
    /// `[0, capacity]` and the capacity never falls under the asset's base.
    pub open spec fn wf(self) -> bool {
        &&& 0 <= self.spec_count() <= self.spec_capacity()
        &&& 0 <= self.spec_base_capacity() <= self.spec_capacity()
        &&& fp_valid(self.spec_capacity())
        &&& fp_valid(self.spec_production())
        &&& fp_valid(self.spec_consumption())
        &&& defs_wf(self.spec_defs())
        &&& self.spec_calculated().wf()
    }

    /// Do two resources agree on everything their asset fixed?
    pub open spec fn same_asset(a: Resource, b: Resource) -> bool {
        &&& a.spec_name() == b.spec_name()
        &&& a.spec_category() == b.spec_category()
        &&& a.spec_base_capacity() == b.spec_base_capacity()
        &&& a.spec_defs() == b.spec_defs()
    }

    /// Build a fresh resource from an asset: empty stock, capacity at the
    /// asset's base (never negative), nothing produced or consumed yet.
    pub fn from_asset(asset: ResourceAsset) -> (r: Result<Resource, String>)
        ensures
            match r {
                Ok(res) => {
                    &&& forall|i: int|
                        0 <= i < asset.modifiers@.len() ==> is_method_key(
                            #[trigger] asset.modifiers@[i].calculation@,
                        )
                    &&& resource_fresh_from(res, asset)
                },
                Err(e) => {
                    &&& exists|i: int|
                        0 <= i < asset.modifiers@.len() && !is_method_key(
                            #[trigger] asset.modifiers@[i].calculation@,
                        )
                    &&& e@ == "wrong modifier calculation method"@
                },
            },
    {
        let defs = match decode_modifier_defs(&asset.modifiers) {
            Ok(d) => d,
            Err(e) => {
                return Err(e);
            },
        };
        let base: Fp = fp_max(fp_sanitize(asset.base_capacity), 0);
        Ok(
            (Resource {
                name: asset.name,
                category: asset.category,
                base_capacity: base,
                defs,
                count: 0,
                capacity: base,
                production: 0,
                consumption: 0,
                calculated_modifiers: ModifierStorage::new(),
                is_unlocked: false,
            }),
        )
    }

    pub fn name(&self) -> (r: &str)
        ensures
            r@ == self.spec_name(),
    {
        self.name.as_str()
    }

    pub fn category(&self) -> (r: &str)
        ensures
            r@ == self.spec_category(),
    {
        self.category.as_str()
    }

    pub fn count(&self) -> (r: Fp)
        ensures
            r as int == self.spec_count(),
    {
        self.count
    }

    /// Add to the stock, clamping into `[0, capacity]`.
    pub fn add_count(&mut self, count: Fp)
        requires
            old(self).wf(),
            fp_valid(count as int),
        ensures
            final(self).wf(),
            Resource::same_asset(*old(self), *final(self)),
            final(self).spec_count() == crange(
                cadd(old(self).spec_count(), count as int),
                0,
                old(self).spec_capacity(),
            ),
            final(self).spec_capacity() == old(self).spec_capacity(),
            final(self).spec_production() == old(self).spec_production(),
            final(self).spec_consumption() == old(self).spec_consumption(),
            final(self).spec_unlocked() == old(self).spec_unlocked(),
            final(self).spec_calculated() == old(self).spec_calculated(),
    {
        let nc = fp_add(self.count, count);
        self.count = fp_crange(nc, 0, self.capacity);
    }

    /// Set the stock, clamping into `[0, capacity]`.
    pub fn set_count(&mut self, count: Fp)
        requires
            old(self).wf(),
        ensures
            final(self).wf(),
            Resource::same_asset(*old(self), *final(self)),
            final(self).spec_count() == crange(
                crate::fixed::fp_clamp(count as int),
                0,
                old(self).spec_capacity(),
            ),
            final(self).spec_capacity() == old(self).spec_capacity(),
            final(self).spec_production() == old(self).spec_production(),
            final(self).spec_consumption() == old(self).spec_consumption(),
            final(self).spec_unlocked() == old(self).spec_unlocked(),
            final(self).spec_calculated() == old(self).spec_calculated(),
    {
        self.count = fp_crange(fp_sanitize(count), 0, self.capacity);
    }

    pub fn capacity(&self) -> (r: Fp)
        ensures
            r as int == self.spec_capacity(),
    {
        self.capacity
    }

    /// Raise or lower the capacity by an offset on the asset's base; the
    /// capacity never falls under the base, and the stock is clamped to fit.
    pub fn set_capacity(&mut self, capacity: Fp)
        requires
            old(self).wf(),
        ensures
            final(self).wf(),
            Resource::same_asset(*old(self), *final(self)),
            final(self).spec_capacity() == if cadd(
                old(self).spec_base_capacity(),
                crate::fixed::fp_clamp(capacity as int),
            ) >= old(self).spec_base_capacity() {
                cadd(old(self).spec_base_capacity(), crate::fixed::fp_clamp(capacity as int))
            } else {
                old(self).spec_base_capacity()
            },
            final(self).spec_count() == if old(self).spec_count() <= final(self).spec_capacity() {
                old(self).spec_count()
            } else {
                final(self).spec_capacity()
            },
            final(self).spec_production() == old(self).spec_production(),
            final(self).spec_consumption() == old(self).spec_consumption(),
            final(self).spec_unlocked() == old(self).spec_unlocked(),
            final(self).spec_calculated() == old(self).spec_calculated(),
    {
        self.capacity = fp_max(fp_add(self.base_capacity, fp_sanitize(capacity)), self.base_capacity);
        self.count = crate::fixed::fp_min(self.count, self.capacity);
    }

    pub fn is_unlocked(&self) -> (r: bool)
        ensures
            r == self.spec_unlocked(),
    {
        self.is_unlocked
    }

    pub fn unlock(&mut self, is_unlocked: bool)
        ensures
            final(self).wf() == old(self).wf(),
            Resource::same_asset(*old(self), *final(self)),
            final(self).spec_count() == old(self).spec_count(),
            final(self).spec_capacity() == old(self).spec_capacity(),
            final(self).spec_production() == old(self).spec_production(),
            final(self).spec_consumption() == old(self).spec_consumption(),
            final(self).spec_unlocked() == is_unlocked,
            final(self).spec_calculated() == old(self).spec_calculated(),
    {
        self.is_unlocked = is_unlocked;
    }

    pub fn production(&self) -> (r: Fp)
        ensures
            r as int == self.spec_production(),
    {
        self.production
    }

    pub fn set_production(&mut self, production: Fp)
        requires
            old(self).wf(),
        ensures
            final(self).wf(),
            Resource::same_asset(*old(self), *final(self)),
            final(self).spec_count() == old(self).spec_count(),
            final(self).spec_capacity() == old(self).spec_capacity(),
            final(self).spec_production() == crate::fixed::fp_clamp(production as int),
            final(self).spec_consumption() == old(self).spec_consumption(),
            final(self).spec_unlocked() == old(self).spec_unlocked(),
            final(self).spec_calculated() == old(self).spec_calculated(),
    {
        self.production = fp_sanitize(production);
    }

    pub fn consumption(&self) -> (r: Fp)
        ensures
            r as int == self.spec_consumption(),
    {
        self.consumption
    }

    pub fn set_consumption(&mut self, consumption: Fp)
        requires
            old(self).wf(),
        ensures
            final(self).wf(),
            Resource::same_asset(*old(self), *final(self)),
            final(self).spec_count() == old(self).spec_count(),
            final(self).spec_capacity() == old(self).spec_capacity(),
            final(self).spec_production() == old(self).spec_production(),
            final(self).spec_consumption() == crate::fixed::fp_clamp(consumption as int),
            final(self).spec_unlocked() == old(self).spec_unlocked(),
            final(self).spec_calculated() == old(self).spec_calculated(),
    {
        self.consumption = fp_sanitize(consumption);
    }

    /// Advance the stock by one tick's net flow, saturating at the capacity
    /// and never falling under zero.
    pub fn produce(&mut self)
        requires
            old(self).wf(),
        ensures
            final(self).wf(),
            Resource::same_asset(*old(self), *final(self)),
            final(self).spec_count() == crange(
                cadd(
                    old(self).spec_count(),
                    csub(old(self).spec_production(), old(self).spec_consumption()),
                ),
                0,
                old(self).spec_capacity(),
            ),
            final(self).spec_capacity() == old(self).spec_capacity(),
            final(self).spec_production() == old(self).spec_production(),
            final(self).spec_consumption() == old(self).spec_consumption(),
            final(self).spec_unlocked() == old(self).spec_unlocked(),
            final(self).spec_calculated() == old(self).spec_calculated(),
    {
        let net = fp_sub(self.production, self.consumption);
        let nc = fp_add(self.count, net);
        self.count = fp_crange(nc, 0, self.capacity);
    }

    /// A resource is drained exactly when demand exceeds supply and the stock
    /// stands at zero.
    pub fn is_drained(&self) -> (r: bool)
        ensures
            r == (self.spec_consumption() > self.spec_production() && self.spec_count() == 0),
    {
        self.consumption > self.production && self.count == 0
    }

    /// Recompute the modifiers this resource passively emits, from scratch.
    pub fn calculate(&mut self)
        requires
            old(self).wf(),
        ensures
            final(self).wf(),
            Resource::same_asset(*old(self), *final(self)),
            final(self).spec_count() == old(self).spec_count(),
            final(self).spec_capacity() == old(self).spec_capacity(),
            final(self).spec_production() == old(self).spec_production(),
            final(self).spec_consumption() == old(self).spec_consumption(),
            final(self).spec_unlocked() == old(self).spec_unlocked(),
            forall|n: Seq<char>, m: ModifierCalculationMethod| #[trigger]
                final(self).spec_calculated().spec_value(n, m) == emitted_from(
                    0,
                    old(self).spec_defs(),
                    1,
                    n,
                    m,
                    old(self).spec_defs().len() as int,
                ),
    {
        self.calculated_modifiers.clear();
        self.calculated_modifiers.add_defs(&self.defs, 1);
    }

    /// The modifiers the last `calculate` computed.
    pub fn calculated_modifiers(&self) -> (r: &ModifierStorage)
        ensures
            *r == self.spec_calculated(),
    {
        &self.calculated_modifiers
    }
}

/// Is this the resource a just-loaded asset yields: name, category and
/// sanitized base capacity from the asset, its passive declarations decoded,
/// empty stock, no flows, locked, and an empty emitted snapshot?
pub open spec fn resource_fresh_from(r: Resource, asset: ResourceAsset) -> bool {
    &&& r.wf()
    &&& r.spec_name() == asset.name@
    &&& r.spec_category() == asset.category@
    &&& r.spec_base_capacity() == if crate::fixed::fp_clamp(asset.base_capacity as int) < 0 {
        0
    } else {
        crate::fixed::fp_clamp(asset.base_capacity as int)
    }
    &&& r.spec_capacity() == r.spec_base_capacity()
    &&& r.spec_count() == 0
    &&& r.spec_production() == 0
    &&& r.spec_consumption() == 0
    &&& !r.spec_unlocked()
    &&& mods_decode(asset.modifiers@, r.spec_defs())
    &&& forall|n: Seq<char>, m: ModifierCalculationMethod| #[trigger]
        r.spec_calculated().spec_value(n, m) == 0
}

/// Are all resources of a list well-formed?
pub open spec fn resources_wf(rs: Seq<Resource>) -> bool {
    forall|i: int| 0 <= i < rs.len() ==> (#[trigger] rs[i]).wf()
}

/// Does each resource of the list carry its own name?
pub open spec fn res_names_unique(rs: Seq<Resource>) -> bool {
    forall|i: int, j: int| 0 <= i < j < rs.len() ==> rs[i].spec_name() != rs[j].spec_name()
}

/// How one resource relates to itself across one `produce` + `calculate`.
pub open spec fn post_tick_resource(r0: Resource, r1: Resource) -> bool {
    &&& Resource::same_asset(r0, r1)
    &&& r1.spec_count() == crange(
        cadd(r0.spec_count(), csub(r0.spec_production(), r0.spec_consumption())),
        0,
        r0.spec_capacity(),
    )
    &&& r1.spec_capacity() == r0.spec_capacity()
    &&& r1.spec_production() == r0.spec_production()
    &&& r1.spec_consumption() == r0.spec_consumption()
    &&& r1.spec_unlocked() == r0.spec_unlocked()
    &&& forall|n: Seq<char>, m: ModifierCalculationMethod| #[trigger]
        r1.spec_calculated().spec_value(n, m) == emitted_from(
            0,
            r0.spec_defs(),
            1,
            n,
            m,
            r0.spec_defs().len() as int,
        )
}

/// What the first `upto` resources of a list together emit under one key.
pub open spec fn agg_emitted(
    rs: Seq<Resource>,
    n: Seq<char>,
    m: ModifierCalculationMethod,
    upto: int,
) -> int
    decreases upto,
{
    if upto <= 0 {
        0
    } else {
        cadd(
            agg_emitted(rs, n, m, upto - 1),
            emitted_from(0, rs[upto - 1].spec_defs(), 1, n, m, rs[upto - 1].spec_defs().len() as int),
        )
    }
}

/// Do two accumulators hold every name at the same value?
pub open spec fn rs_equiv(a: ResourceStorage, b: ResourceStorage) -> bool {
    forall|n: Seq<char>|
        #![trigger a.spec_value(n)]
        #![trigger b.spec_value(n)]
        a.spec_value(n) == b.spec_value(n)
}

/// What a list of resources emits depends only on their asset declarations.
pub proof fn lemma_agg_emitted_congruent(
    rs1: Seq<Resource>,
    rs2: Seq<Resource>,
    n: Seq<char>,
    m: ModifierCalculationMethod,
    upto: int,
)
    requires
        upto <= rs1.len(),
        upto <= rs2.len(),
        forall|i: int|
            0 <= i < upto ==> (#[trigger] rs1[i]).spec_defs() == rs2[i].spec_defs(),
    ensures
        agg_emitted(rs1, n, m, upto) == agg_emitted(rs2, n, m, upto),
    decreases upto,
{
    if upto > 0 {
        lemma_agg_emitted_congruent(rs1, rs2, n, m, upto - 1);
    }
}

/// Owns the resources and aggregates the modifiers they emit.
pub struct ResourceManager {
    resources: Vec<Resource>,
    calculated_modifiers: ModifierStorage,
}

impl ResourceManager {
    pub closed spec fn spec_resources(self) -> Seq<Resource> {
        self.resources@
    }

    pub closed spec fn spec_calculated(self) -> ModifierStorage {
        self.calculated_modifiers
    }

    pub open spec fn res_len(self) -> int {
        self.spec_resources().len() as int
    }

    pub open spec fn has_res(self, name: Seq<char>) -> bool {
        exists|i: int|
            0 <= i < self.res_len() && (#[trigger] self.spec_resources()[i]).spec_name() == name
    }

    pub closed spec fn index_of_res(self, name: Seq<char>) -> int {
        choose|i: int|
            0 <= i < self.res_len() && (#[trigger] self.spec_resources()[i]).spec_name() == name
    }

    /// The resource registered under a name.
    pub open spec fn spec_res(self, name: Seq<char>) -> Resource
        recommends
            self.has_res(name),
    {
        self.spec_resources()[self.index_of_res(name)]
    }

    pub open spec fn wf(self) -> bool {
        &&& res_names_unique(self.spec_resources())
        &&& resources_wf(self.spec_resources())
        &&& self.spec_calculated().wf()
    }

    proof fn lemma_res_at(self, i: int)
        requires
            res_names_unique(self.spec_resources()),
            0 <= i < self.res_len(),
        ensures
            self.has_res(self.spec_resources()[i].spec_name()),
            self.spec_res(self.spec_resources()[i].spec_name()) == self.spec_resources()[i],
    {
        let n = self.spec_resources()[i].spec_name();
        assert(self.has_res(n));
        let j = self.index_of_res(n);
        if i != j {
            assert(self.spec_resources()[i].spec_name() != self.spec_resources()[j].spec_name());
        }
    }

    /// The resource registered under a name carries that name.
    pub proof fn lemma_spec_res_name(self, name: Seq<char>)
        requires
            self.has_res(name),
        ensures
            self.spec_res(name).spec_name() == name,
    {
    }

    pub fn new() -> (r: ResourceManager)
        ensures
            r.wf(),
            r.res_len() == 0,
            forall|n: Seq<char>| !(#[trigger] r.has_res(n)),
            forall|n: Seq<char>, m: ModifierCalculationMethod| #[trigger]
                r.spec_calculated().spec_value(n, m) == 0,
    {
        ResourceManager { resources: Vec::new(), calculated_modifiers: ModifierStorage::new() }
    }

    fn find_res(&self, name: &str) -> (r: Option<usize>)
        ensures
            match r {
                Some(i) => i < self.spec_resources().len() && self.spec_resources()[
                    i as int
                ].spec_name() == name@,
                None => !self.has_res(name@),
            },
    {
        let mut j: usize = 0;
        while j < self.resources.len()
            invariant
                0 <= j <= self.spec_resources().len(),
                forall|jj: int|
                    0 <= jj < j ==> (#[trigger] self.spec_resources()[jj]).spec_name() != name@,
            decreases self.spec_resources().len() - j,
        {
            if str_eq(self.resources[j].name(), name) {
                return Some(j);
            }
            j = j + 1;
        }
        None
    }

    /// Register a resource under its name, replacing one already there.
    pub fn add(&mut self, resource: Resource)
        requires
            old(self).wf(),
            resource.wf(),
        ensures
            final(self).wf(),
            forall|n: Seq<char>| #[trigger]
                final(self).has_res(n) == (old(self).has_res(n) || n == resource.spec_name()),
            final(self).spec_res(resource.spec_name()) == resource,
            forall|n: Seq<char>|
                n != resource.spec_name() && old(self).has_res(n) ==> #[trigger] final(self).spec_res(n)
                    == old(self).spec_res(n),
            final(self).spec_calculated() == old(self).spec_calculated(),
    {
        let ghost s0 = *self;
        match self.find_res(resource.name()) {
            Some(i) => {
                let _old_entry = self.resources.swap_remove(i);
                self.resources.push(resource);
                proof {
                    self.lemma_add_res_found(s0, i as int, resource);
                }
            },
            None => {
                self.resources.push(resource);
                proof {
                    self.lemma_add_res_absent(s0, resource);
                }
            },
        }
    }

    proof fn lemma_add_res_found(self, s0: ResourceManager, i: int, resource: Resource)
        requires
            s0.wf(),
            resource.wf(),
            0 <= i < s0.res_len(),
            s0.spec_resources()[i].spec_name() == resource.spec_name(),
            self.spec_resources() == s0.spec_resources().update(
                i,
                s0.spec_resources().last(),
            ).drop_last().push(resource),
            self.spec_calculated() == s0.spec_calculated(),
        ensures
            self.wf(),
            forall|n: Seq<char>| #[trigger]
                self.has_res(n) == (s0.has_res(n) || n == resource.spec_name()),
            self.spec_res(resource.spec_name()) == resource,
            forall|n: Seq<char>|
                n != resource.spec_name() && s0.has_res(n) ==> #[trigger] self.spec_res(n)
                    == s0.spec_res(n),
            self.spec_calculated() == s0.spec_calculated(),
    {
        let len = s0.res_len();
        let name = resource.spec_name();
        assert(self.res_len() == len);
        assert forall|j: int| 0 <= j < len - 1 && j != i implies self.spec_resources()[j]
            == s0.spec_resources()[j] by {}
        if i < len - 1 {
            assert(self.spec_resources()[i] == s0.spec_resources()[len - 1]);
        }
        assert(self.spec_resources()[len - 1] == resource);

        assert forall|j1: int, j2: int| 0 <= j1 < j2 < len implies self.spec_resources()[
            j1
        ].spec_name() != self.spec_resources()[j2].spec_name() by {
            let o1 = if j1 == len - 1 { i } else if j1 == i && i < len - 1 { len - 1 } else { j1 };
            let o2 = if j2 == len - 1 { i } else if j2 == i && i < len - 1 { len - 1 } else { j2 };
            if j1 == len - 1 {
                assert(self.spec_resources()[j1].spec_name() == s0.spec_resources()[
                    o1
                ].spec_name());
            } else {
                assert(self.spec_resources()[j1] == s0.spec_resources()[o1]);
            }
            if j2 == len - 1 {
                assert(self.spec_resources()[j2].spec_name() == s0.spec_resources()[
                    o2
                ].spec_name());
            } else {
                assert(self.spec_resources()[j2] == s0.spec_resources()[o2]);
            }
            assert(o1 != o2);
        }
        assert(res_names_unique(self.spec_resources()));
        assert forall|j: int| 0 <= j < len implies (#[trigger] self.spec_resources()[j]).wf() by {
            if j == len - 1 {
            } else if j == i && i < len - 1 {
                assert(self.spec_resources()[j] == s0.spec_resources()[len - 1]);
            } else {
                assert(self.spec_resources()[j] == s0.spec_resources()[j]);
            }
        }
        assert(self.wf());

        self.lemma_res_at(len - 1);
        assert(self.spec_res(name) == resource);

        assert forall|n: Seq<char>| #[trigger]
            self.has_res(n) == (s0.has_res(n) || n == name) by {
            if n == name {
                assert(self.spec_resources()[len - 1].spec_name() == n);
                assert(s0.spec_resources()[i].spec_name() == n);
            } else {
                if s0.has_res(n) {
                    let j = s0.index_of_res(n);
                    let j_new = if j == len - 1 && i < len - 1 {
                        i
                    } else {
                        j
                    };
                    assert(j != i);
                    assert(self.spec_resources()[j_new].spec_name() == n);
                }
                if self.has_res(n) {
                    let j = self.index_of_res(n);
                    assert(j != len - 1);
                    let o = if j == i && i < len - 1 {
                        len - 1
                    } else {
                        j
                    };
                    assert(s0.spec_resources()[o].spec_name() == n);
                }
            }
        }
        assert forall|n: Seq<char>|
            n != name && s0.has_res(n) implies #[trigger] self.spec_res(n) == s0.spec_res(n) by {
            let j = s0.index_of_res(n);
            s0.lemma_res_at(j);
            assert(j != i);
            let j_new = if j == len - 1 && i < len - 1 {
                i
            } else {
                j
            };
            assert(self.spec_resources()[j_new] == s0.spec_resources()[j]);
            self.lemma_res_at(j_new);
        }
    }

    proof fn lemma_add_res_absent(self, s0: ResourceManager, resource: Resource)
        requires
            s0.wf(),
            resource.wf(),
            !s0.has_res(resource.spec_name()),
            self.spec_resources() == s0.spec_resources().push(resource),
            self.spec_calculated() == s0.spec_calculated(),
        ensures
            self.wf(),
            forall|n: Seq<char>| #[trigger]
                self.has_res(n) == (s0.has_res(n) || n == resource.spec_name()),
            self.spec_res(resource.spec_name()) == resource,
            forall|n: Seq<char>|
                n != resource.spec_name() && s0.has_res(n) ==> #[trigger] self.spec_res(n)
                    == s0.spec_res(n),
            self.spec_calculated() == s0.spec_calculated(),
    {
        let len = s0.res_len();
        let name = resource.spec_name();
        assert(forall|j: int| 0 <= j < len ==> self.spec_resources()[j] == s0.spec_resources()[j]);
        assert(self.spec_resources()[len] == resource);
        assert forall|j1: int, j2: int| 0 <= j1 < j2 < len + 1 implies self.spec_resources()[
            j1
        ].spec_name() != self.spec_resources()[j2].spec_name() by {
            assert(self.spec_resources()[j1] == s0.spec_resources()[j1]);
            if j2 == len {
                if s0.spec_resources()[j1].spec_name() == name {
                    assert(s0.has_res(name));
                }
            } else {
                assert(self.spec_resources()[j2] == s0.spec_resources()[j2]);
            }
        }
        assert forall|j: int| 0 <= j < len + 1 implies (#[trigger] self.spec_resources()[
            j
        ]).wf() by {
            if j < len {
                assert(self.spec_resources()[j] == s0.spec_resources()[j]);
            }
        }
        assert(self.wf());
        self.lemma_res_at(len);
        assert forall|n: Seq<char>| #[trigger]
            self.has_res(n) == (s0.has_res(n) || n == name) by {
            if s0.has_res(n) {
                let j = s0.index_of_res(n);
                assert(self.spec_resources()[j].spec_name() == n);
            }
            if self.has_res(n) && n != name {
                let j = self.index_of_res(n);
                assert(j != len);
                assert(s0.spec_resources()[j].spec_name() == n);
            }
        }
        assert forall|n: Seq<char>|
            n != name && s0.has_res(n) implies #[trigger] self.spec_res(n) == s0.spec_res(n) by {
            let j = s0.index_of_res(n);
            s0.lemma_res_at(j);
            assert(self.spec_resources()[j] == s0.spec_resources()[j]);
            self.lemma_res_at(j);
        }
    }

    /// Build a resource from its asset and register it; an unknown modifier
    /// method string is reported and nothing changes.
    pub fn load_from_asset(&mut self, resource_asset: ResourceAsset) -> (r: Result<(), String>)
        requires
            old(self).wf(),
        ensures
            final(self).wf(),
            match r {
                Ok(()) => {
                    &&& forall|i: int|
                        0 <= i < resource_asset.modifiers@.len() ==> is_method_key(
                            #[trigger] resource_asset.modifiers@[i].calculation@,
                        )
                    &&& forall|n: Seq<char>| #[trigger]
                        final(self).has_res(n) == (old(self).has_res(n) || n
                            == resource_asset.name@)
                    &&& resource_fresh_from(
                        final(self).spec_res(resource_asset.name@),
                        resource_asset,
                    )
                    &&& forall|n: Seq<char>|
                        n != resource_asset.name@ && old(self).has_res(n)
                            ==> #[trigger] final(self).spec_res(n) == old(self).spec_res(n)
                    &&& final(self).spec_calculated() == old(self).spec_calculated()
                },
                Err(e) => {
                    &&& exists|i: int|
                        0 <= i < resource_asset.modifiers@.len() && !is_method_key(
                            #[trigger] resource_asset.modifiers@[i].calculation@,
                        )
                    &&& e@ == "wrong modifier calculation method"@
                    &&& *final(self) == *old(self)
                },
            },
    {
        let resource = match Resource::from_asset(resource_asset) {
            Ok(res) => res,
            Err(e) => {
                return Err(e);
            },
        };
        self.add(resource);
        Ok(())
    }

    /// One tick's resource step: every resource advances its stock and
    /// recomputes its emitted modifiers; the manager aggregates them all.
    pub fn calculate(&mut self)
        requires
            old(self).wf(),
        ensures
            final(self).wf(),
            final(self).res_len() == old(self).res_len(),
            forall|i: int|
                0 <= i < old(self).res_len() ==> post_tick_resource(
                    #[trigger] old(self).spec_resources()[i],
                    final(self).spec_resources()[i],
                ),
            forall|n: Seq<char>| #[trigger] final(self).has_res(n) == old(self).has_res(n),
            forall|n: Seq<char>|
                old(self).has_res(n) ==> post_tick_resource(
                    old(self).spec_res(n),
                    #[trigger] final(self).spec_res(n),
                ),
            forall|n: Seq<char>, m: ModifierCalculationMethod| #[trigger]
                final(self).spec_calculated().spec_value(n, m) == agg_emitted(
                    old(self).spec_resources(),
                    n,
                    m,
                    old(self).res_len(),
                ),
    {
        let ghost rs0 = self.spec_resources();
        self.calculated_modifiers.clear();
        let mut done: Vec<Resource> = Vec::new();
        while self.resources.len() > 0
            invariant
                res_names_unique(rs0),
                resources_wf(rs0),
                done@.len() + self.resources@.len() == rs0.len(),
                forall|i: int|
                    0 <= i < self.resources@.len() ==> self.resources@[i] == rs0[
                        done@.len() + i
                    ],
                forall|i: int|
                    0 <= i < done@.len() ==> post_tick_resource(
                        #[trigger] rs0[i],
                        done@[i],
                    ),
                forall|i: int| 0 <= i < done@.len() ==> (#[trigger] done@[i]).wf(),
                self.calculated_modifiers.wf(),
                forall|n: Seq<char>, m: ModifierCalculationMethod| #[trigger]
                    self.calculated_modifiers.spec_value(n, m) == agg_emitted(
                        rs0,
                        n,
                        m,
                        done@.len() as int,
                    ),
            decreases self.resources@.len(),
        {
            let mut r = self.resources.remove(0);
            r.produce();
            r.calculate();
            self.calculated_modifiers.combine(r.calculated_modifiers());
            done.push(r);
        }
        self.resources = done;
        proof {
            let rs1 = self.spec_resources();
            assert(rs1.len() == rs0.len());
            assert forall|j1: int, j2: int| 0 <= j1 < j2 < rs1.len() implies rs1[
                j1
            ].spec_name() != rs1[j2].spec_name() by {
                assert(post_tick_resource(rs0[j1], rs1[j1]));
                assert(post_tick_resource(rs0[j2], rs1[j2]));
            }
            assert forall|n: Seq<char>| #[trigger]
                self.has_res(n) == old(self).has_res(n) by {
                if old(self).has_res(n) {
                    let j = old(self).index_of_res(n);
                    assert(post_tick_resource(rs0[j], rs1[j]));
                    assert(rs1[j].spec_name() == n);
                }
                if self.has_res(n) {
                    let j = self.index_of_res(n);
                    assert(post_tick_resource(rs0[j], rs1[j]));
                    assert(rs0[j].spec_name() == n);
                }
            }
            assert forall|n: Seq<char>|
                old(self).has_res(n) implies post_tick_resource(
                old(self).spec_res(n),
                #[trigger] self.spec_res(n),
            ) by {
                let j = old(self).index_of_res(n);
                old(self).lemma_res_at(j);
                assert(post_tick_resource(rs0[j], rs1[j]));
                assert(rs1[j].spec_name() == n);
                self.lemma_res_at(j);
            }
        }
    }

    /// Push aggregated production values into the matching resources;
    /// resources the storage does not name keep their prior production.
    pub fn set_production(&mut self, resource_storage: &ResourceStorage)
        requires
            old(self).wf(),
            resource_storage.wf(),
        ensures
            final(self).wf(),
            final(self).res_len() == old(self).res_len(),
            forall|n: Seq<char>| #[trigger] final(self).has_res(n) == old(self).has_res(n),
            forall|i: int|
                0 <= i < old(self).res_len() ==> set_flow_rel(
                    #[trigger] old(self).spec_resources()[i],
                    final(self).spec_resources()[i],
                    *resource_storage,
                    true,
                ),
            forall|n: Seq<char>|
                old(self).has_res(n) ==> set_flow_rel(
                    old(self).spec_res(n),
                    #[trigger] final(self).spec_res(n),
                    *resource_storage,
                    true,
                ),
            final(self).spec_calculated() == old(self).spec_calculated(),
    {
        let ghost rs0 = self.spec_resources();
        let mut done: Vec<Resource> = Vec::new();
        while self.resources.len() > 0
            invariant
                res_names_unique(rs0),
                resources_wf(rs0),
                resource_storage.wf(),
                done@.len() + self.resources@.len() == rs0.len(),
                forall|i: int|
                    0 <= i < self.resources@.len() ==> self.resources@[i] == rs0[
                        done@.len() + i
                    ],
                forall|i: int|
                    0 <= i < done@.len() ==> set_flow_rel(
                        #[trigger] rs0[i],
                        done@[i],
                        *resource_storage,
                        true,
                    ),
                forall|i: int| 0 <= i < done@.len() ==> (#[trigger] done@[i]).wf(),
                self.calculated_modifiers == old(self).calculated_modifiers,
            decreases self.resources@.len(),
        {
            let mut r = self.resources.remove(0);
            match resource_storage.get(r.name()) {
                Some(v) => {
                    r.set_production(v);
                },
                None => {},
            }
            done.push(r);
        }
        self.resources = done;
        proof {
            self.lemma_flow_post(*old(self), rs0, *resource_storage, true);
        }
    }

    /// Push aggregated consumption values into the matching resources;
    /// resources the storage does not name keep their prior consumption.
    pub fn set_consumption(&mut self, resource_storage: &ResourceStorage)
        requires
            old(self).wf(),
            resource_storage.wf(),
        ensures
            final(self).wf(),
            final(self).res_len() == old(self).res_len(),
            forall|n: Seq<char>| #[trigger] final(self).has_res(n) == old(self).has_res(n),
            forall|i: int|
                0 <= i < old(self).res_len() ==> set_flow_rel(
                    #[trigger] old(self).spec_resources()[i],
                    final(self).spec_resources()[i],
                    *resource_storage,
                    false,
                ),
            forall|n: Seq<char>|
                old(self).has_res(n) ==> set_flow_rel(
                    old(self).spec_res(n),
                    #[trigger] final(self).spec_res(n),
                    *resource_storage,
                    false,
                ),
            final(self).spec_calculated() == old(self).spec_calculated(),
    {
        let ghost rs0 = self.spec_resources();
        let mut done: Vec<Resource> = Vec::new();
        while self.resources.len() > 0
            invariant
                res_names_unique(rs0),
                resources_wf(rs0),
                resource_storage.wf(),
                done@.len() + self.resources@.len() == rs0.len(),
                forall|i: int|
                    0 <= i < self.resources@.len() ==> self.resources@[i] == rs0[
                        done@.len() + i
                    ],
                forall|i: int|
                    0 <= i < done@.len() ==> set_flow_rel(
                        #[trigger] rs0[i],
                        done@[i],
                        *resource_storage,
                        false,
                    ),
                forall|i: int| 0 <= i < done@.len() ==> (#[trigger] done@[i]).wf(),
                self.calculated_modifiers == old(self).calculated_modifiers,
            decreases self.resources@.len(),
        {
            let mut r = self.resources.remove(0);
            match resource_storage.get(r.name()) {
                Some(v) => {
                    r.set_consumption(v);
                },
                None => {},
            }
            done.push(r);
        }
        self.resources = done;
        proof {
            self.lemma_flow_post(*old(self), rs0, *resource_storage, false);
        }
    }

    proof fn lemma_flow_post(
        self,
        s0: ResourceManager,
        rs0: Seq<Resource>,
        st: ResourceStorage,
        is_production: bool,
    )
        requires
            rs0 == s0.spec_resources(),
            res_names_unique(rs0),
            self.res_len() == rs0.len(),
            forall|i: int|
                0 <= i < rs0.len() ==> set_flow_rel(
                    #[trigger] rs0[i],
                    self.spec_resources()[i],
                    st,
                    is_production,
                ),
        ensures
            forall|n: Seq<char>| #[trigger] self.has_res(n) == s0.has_res(n),
            forall|n: Seq<char>|
                s0.has_res(n) ==> set_flow_rel(
                    s0.spec_res(n),
                    #[trigger] self.spec_res(n),
                    st,
                    is_production,
                ),
            res_names_unique(self.spec_resources()),
    {
        let rs1 = self.spec_resources();
        assert forall|j1: int, j2: int| 0 <= j1 < j2 < rs1.len() implies rs1[j1].spec_name()
            != rs1[j2].spec_name() by {
            assert(set_flow_rel(rs0[j1], rs1[j1], st, is_production));
            assert(set_flow_rel(rs0[j2], rs1[j2], st, is_production));
        }
        assert forall|n: Seq<char>| #[trigger] self.has_res(n) == s0.has_res(n) by {
            if s0.has_res(n) {
                let j = s0.index_of_res(n);
                assert(set_flow_rel(rs0[j], rs1[j], st, is_production));
                assert(rs1[j].spec_name() == n);
            }
            if self.has_res(n) {
                let j = self.index_of_res(n);
                assert(set_flow_rel(rs0[j], rs1[j], st, is_production));
                assert(rs0[j].spec_name() == n);
            }
        }
        assert forall|n: Seq<char>| s0.has_res(n) implies set_flow_rel(
            s0.spec_res(n),
            #[trigger] self.spec_res(n),
            st,
            is_production,
        ) by {
            let j = s0.index_of_res(n);
            s0.lemma_res_at(j);
            assert(set_flow_rel(rs0[j], rs1[j], st, is_production));
            assert(rs1[j].spec_name() == n);
            self.lemma_res_at(j);
        }
    }

    /// Returns calculated modifiers of the resources.
    pub fn calculated_modifiers(&self) -> (r: &ModifierStorage)
        ensures
            *r == self.spec_calculated(),
    {
        &self.calculated_modifiers
    }

    /// A resource's drain state; an unknown name counts as drained, so that a
    /// misconfigured upkeep stalls its building instead of feeding it.
    pub fn is_drained(&self, name: &str) -> (r: bool)
        requires
            self.wf(),
        ensures
            r == if self.has_res(name@) {
                self.spec_res(name@).spec_consumption() > self.spec_res(name@).spec_production()
                    && self.spec_res(name@).spec_count() == 0
            } else {
                true
            },
    {
        match self.find_res(name) {
            Some(i) => {
                proof {
                    self.lemma_res_at(i as int);
                }
                self.resources[i].is_drained()
            },
            None => true,
        }
    }

    /// A resource's stock; an unknown name counts as empty.
    pub fn count(&self, name: &str) -> (r: Fp)
        requires
            self.wf(),
        ensures
            r as int == if self.has_res(name@) {
                self.spec_res(name@).spec_count()
            } else {
                0
            },
    {
        match self.find_res(name) {
            Some(i) => {
                proof {
                    self.lemma_res_at(i as int);
                }
                self.resources[i].count()
            },
            None => 0,
        }
    }

    /// Unlock or lock the resource registered under a name; an unknown name
    /// changes nothing.
    pub fn unlock(&mut self, name: &str, is_unlocked: bool)
        requires
            old(self).wf(),
        ensures
            final(self).wf(),
            forall|n: Seq<char>| #[trigger] final(self).has_res(n) == old(self).has_res(n),
            old(self).has_res(name@) ==> {
                &&& Resource::same_asset(old(self).spec_res(name@), final(self).spec_res(name@))
                &&& final(self).spec_res(name@).spec_count() == old(self).spec_res(
                    name@,
                ).spec_count()
                &&& final(self).spec_res(name@).spec_capacity() == old(self).spec_res(
                    name@,
                ).spec_capacity()
                &&& final(self).spec_res(name@).spec_production() == old(self).spec_res(
                    name@,
                ).spec_production()
                &&& final(self).spec_res(name@).spec_consumption() == old(self).spec_res(
                    name@,
                ).spec_consumption()
                &&& final(self).spec_res(name@).spec_calculated() == old(self).spec_res(
                    name@,
                ).spec_calculated()
                &&& final(self).spec_res(name@).spec_unlocked() == is_unlocked
            },
            forall|n: Seq<char>|
                n != name@ && old(self).has_res(n)
                    ==> #[trigger] final(self).spec_res(n) == old(self).spec_res(n),
            final(self).spec_calculated() == old(self).spec_calculated(),
            !old(self).has_res(name@) ==> *final(self) == *old(self),
    {
        let ghost s0 = *self;
        match self.find_res(name) {
            Some(i) => {
                proof {
                    s0.lemma_res_at(i as int);
                }
                let mut r = self.resources.remove(i);
                r.unlock(is_unlocked);
                self.resources.push(r);
                proof {
                    self.lemma_replace_at(s0, i as int, name@);
                }
            },
            None => {},
        }
    }

    proof fn lemma_replace_at(self, s0: ResourceManager, i: int, name: Seq<char>)
        requires
            s0.wf(),
            0 <= i < s0.res_len(),
            s0.spec_resources()[i].spec_name() == name,
            self.spec_resources() == s0.spec_resources().remove(i).push(
                self.spec_resources().last(),
            ),
            self.spec_resources().last().wf(),
            self.spec_resources().last().spec_name() == name,
            self.spec_calculated() == s0.spec_calculated(),
        ensures
            self.wf(),
            forall|n: Seq<char>| #[trigger] self.has_res(n) == s0.has_res(n),
            self.spec_res(name) == self.spec_resources().last(),
            forall|n: Seq<char>|
                n != name && s0.has_res(n) ==> #[trigger] self.spec_res(n) == s0.spec_res(n),
    {
        let len = s0.res_len();
        let rs1 = self.spec_resources();
        assert(rs1.len() == len);
        assert forall|j: int| 0 <= j < len - 1 implies rs1[j] == s0.spec_resources()[
            (if j < i {
                j
            } else {
                j + 1
            })
        ] by {}
        assert forall|j1: int, j2: int| 0 <= j1 < j2 < len implies rs1[j1].spec_name() != rs1[
            j2
        ].spec_name() by {
            let o1 = if j1 < i {
                j1
            } else {
                j1 + 1
            };
            if j2 == len - 1 {
                assert(rs1[j1] == s0.spec_resources()[o1]);
                if o1 != i {
                    assert(s0.spec_resources()[o1].spec_name() != s0.spec_resources()[
                        i
                    ].spec_name());
                }
            } else {
                let o2 = if j2 < i {
                    j2
                } else {
                    j2 + 1
                };
                assert(rs1[j1] == s0.spec_resources()[o1]);
                assert(rs1[j2] == s0.spec_resources()[o2]);
            }
        }
        assert forall|j: int| 0 <= j < len implies (#[trigger] rs1[j]).wf() by {
            if j < len - 1 {
                let o = if j < i {
                    j
                } else {
                    j + 1
                };
                assert(rs1[j] == s0.spec_resources()[o]);
            }
        }
        assert(self.wf());
        self.lemma_res_at(len - 1);
        assert forall|n: Seq<char>| #[trigger] self.has_res(n) == s0.has_res(n) by {
            if s0.has_res(n) {
                let j = s0.index_of_res(n);
                if j == i {
                    assert(rs1[len - 1].spec_name() == n);
                } else {
                    let j_new = if j < i {
                        j
                    } else {
                        j - 1
                    };
                    assert(rs1[j_new] == s0.spec_resources()[j]);
                }
            }
            if self.has_res(n) {
                let j = self.index_of_res(n);
                if j == len - 1 {
                    assert(s0.spec_resources()[i].spec_name() == n);
                } else {
                    let o = if j < i {
                        j
                    } else {
                        j + 1
                    };
                    assert(rs1[j] == s0.spec_resources()[o]);
                }
            }
        }
        assert forall|n: Seq<char>|
            n != name && s0.has_res(n) implies #[trigger] self.spec_res(n) == s0.spec_res(n) by {
            let j = s0.index_of_res(n);
            s0.lemma_res_at(j);
            assert(j != i);
            let j_new = if j < i {
                j
            } else {
                j - 1
            };
            assert(rs1[j_new] == s0.spec_resources()[j]);
            self.lemma_res_at(j_new);
        }
    }
}

/// How one resource relates to itself across one bulk flow update: when the
/// storage names it, the named flow is replaced, else it keeps its prior
/// value; everything else stands.
pub open spec fn set_flow_rel(
    r0: Resource,
    r1: Resource,
    st: ResourceStorage,
    is_production: bool,
) -> bool {
    &&& Resource::same_asset(r0, r1)
    &&& r1.spec_count() == r0.spec_count()
    &&& r1.spec_capacity() == r0.spec_capacity()
    &&& r1.spec_unlocked() == r0.spec_unlocked()
    &&& r1.spec_calculated() == r0.spec_calculated()
    &&& r1.spec_production() == if is_production && st.has_name(r0.spec_name()) {
        st.spec_value(r0.spec_name())
    } else {
        r0.spec_production()
    }
    &&& r1.spec_consumption() == if !is_production && st.has_name(r0.spec_name()) {
        st.spec_value(r0.spec_name())
    } else {
        r0.spec_consumption()
    }
}

} // verus!
