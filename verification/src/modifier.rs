//! Named, typed numeric contributions and their aggregation.
//!
//! A `ModifierEntry` is one contribution: a name, a fixed-point value and a
//! combination method. A `ModifierStorage` aggregates entries keyed by
//! `(name, method)`: adding an entry whose key is already present adds the
//! values together instead of replacing the entry.

use vstd::prelude::*;

use crate::fixed::{cadd, cmuli, fp_add, fp_muli, fp_valid, Fp};
use crate::text::str_eq;

verus! {

/// How a contribution combines into a scoped total.
#[derive(Copy, Clone, PartialEq, Eq, Structural, Debug)]
pub enum ModifierCalculationMethod {
    Base,
    Flat,
    Additive,
    Multiply,
}

/// The four method key strings, as character sequences.
pub open spec fn spec_method_key(m: ModifierCalculationMethod) -> Seq<char> {
    match m {
        ModifierCalculationMethod::Base => "base"@,
        ModifierCalculationMethod::Flat => "flat"@,
        ModifierCalculationMethod::Additive => "additive"@,
        ModifierCalculationMethod::Multiply => "multiply"@,
    }
}

/// Does the string name one of the four methods?
pub open spec fn is_method_key(s: Seq<char>) -> bool {
    ||| s == "base"@
    ||| s == "flat"@
    ||| s == "additive"@
    ||| s == "multiply"@
}

/// The method a valid method string names.
pub open spec fn spec_method_of(s: Seq<char>) -> ModifierCalculationMethod
    recommends
        is_method_key(s),
{
    if s == "base"@ {
        ModifierCalculationMethod::Base
    } else if s == "flat"@ {
        ModifierCalculationMethod::Flat
    } else if s == "additive"@ {
        ModifierCalculationMethod::Additive
    } else {
        ModifierCalculationMethod::Multiply
    }
}

impl ModifierCalculationMethod {
    /// Decode a method string.
    ///
    /// The caller must pass one of the four method keys; `from_str_safe` is
    /// the total variant that reports an unknown string instead.
    pub fn from_str(method: &str) -> (r: ModifierCalculationMethod)
        requires
            is_method_key(method@),
        ensures
            r == spec_method_of(method@),
    {
        if str_eq(method, "base") {
            ModifierCalculationMethod::Base
        } else if str_eq(method, "flat") {
            ModifierCalculationMethod::Flat
        } else if str_eq(method, "additive") {
            ModifierCalculationMethod::Additive
        } else {
            ModifierCalculationMethod::Multiply
        }
    }

    /// Decode a method string, reporting an unknown string as an error.
    pub fn from_str_safe(method: &str) -> (r: Result<ModifierCalculationMethod, String>)
        ensures
            match r {
                Ok(m) => is_method_key(method@) && m == spec_method_of(method@),
                Err(e) => !is_method_key(method@) && e@ == "wrong modifier calculation method"@,
            },
    {
        if str_eq(method, "base") {
            Ok(ModifierCalculationMethod::Base)
        } else if str_eq(method, "flat") {
            Ok(ModifierCalculationMethod::Flat)
        } else if str_eq(method, "additive") {
            Ok(ModifierCalculationMethod::Additive)
        } else if str_eq(method, "multiply") {
            Ok(ModifierCalculationMethod::Multiply)
        } else {
            Err("wrong modifier calculation method".to_owned())
        }
    }

    /// The method's key string.
    pub fn key(&self) -> (r: &'static str)
        ensures
            r@ == spec_method_key(*self),
    {
        match self {
            ModifierCalculationMethod::Base => "base",
            ModifierCalculationMethod::Flat => "flat",
            ModifierCalculationMethod::Additive => "additive",
            ModifierCalculationMethod::Multiply => "multiply",
        }
    }
}

/// One named, typed contribution.
pub struct ModifierEntry {
    name: String,
    value: Fp,
    calculation: ModifierCalculationMethod,
}

impl ModifierEntry {
    /// The entry's identity key: its name together with its method.
    pub closed spec fn spec_key(self) -> (Seq<char>, ModifierCalculationMethod) {
        (self.name@, self.calculation)
    }

    pub closed spec fn spec_name(self) -> Seq<char> {
        self.name@
    }

    pub closed spec fn spec_value(self) -> int {
        self.value as int
    }

    pub closed spec fn spec_method(self) -> ModifierCalculationMethod {
        self.calculation
    }

    pub fn new(name: String, value: Fp, calculation: ModifierCalculationMethod) -> (r:
        ModifierEntry)
        ensures
            r.spec_name() == name@,
            r.spec_value() == value as int,
            r.spec_method() == calculation,
    {
        ModifierEntry { name, value, calculation }
    }

    pub fn name(&self) -> (r: &str)
        ensures
            r@ == self.spec_name(),
    {
        self.name.as_str()
    }

    /// The identity key as one string: the name, a dot, the method key.
    pub fn key(&self) -> (r: String)
        ensures
            r@ == self.spec_name() + "."@ + spec_method_key(self.spec_method()),
    {
        let mut r: String = self.name.as_str().to_owned();
        r.append(".");
        r.append(self.calculation.key());
        r
    }

    pub fn value(&self) -> (r: Fp)
        ensures
            r as int == self.spec_value(),
    {
        self.value
    }

    pub fn set_value(&mut self, value: Fp)
        ensures
            final(self).spec_name() == old(self).spec_name(),
            final(self).spec_method() == old(self).spec_method(),
            final(self).spec_value() == value as int,
    {
        self.value = value;
    }

    /// Add to the entry's value, clamping into the representable range.
    pub fn add_value(&mut self, value: Fp)
        requires
            fp_valid(old(self).spec_value()),
            fp_valid(value as int),
        ensures
            final(self).spec_name() == old(self).spec_name(),
            final(self).spec_method() == old(self).spec_method(),
            final(self).spec_value() == cadd(old(self).spec_value(), value as int),
    {
        self.value = fp_add(self.value, value);
    }

    pub fn calculation_method(&self) -> (r: ModifierCalculationMethod)
        ensures
            r == self.spec_method(),
    {
        self.calculation
    }
}

/// Aggregated contributions, keyed by `(name, method)`.
pub struct ModifierStorage {
    entries: Vec<ModifierEntry>,
}

impl ModifierStorage {
    /// The key of the entry at an index.
    pub closed spec fn key_at(self, i: int) -> (Seq<char>, ModifierCalculationMethod) {
        self.entries@[i].spec_key()
    }

    pub closed spec fn spec_len(self) -> int {
        self.entries@.len() as int
    }

    /// Well-formed: one entry per key, every value representable.
    pub closed spec fn wf(self) -> bool {
        &&& forall|i: int, j: int|
            0 <= i < j < self.spec_len() ==> self.key_at(i) != self.key_at(j)
        &&& forall|i: int| 0 <= i < self.spec_len() ==> fp_valid(#[trigger] self.entries@[i].spec_value())
    }

    /// Is some entry stored under this key?
    pub closed spec fn has_key(self, name: Seq<char>, method: ModifierCalculationMethod) -> bool {
        exists|i: int| 0 <= i < self.spec_len() && self.key_at(i) == (name, method)
    }

    spec fn index_of(self, name: Seq<char>, method: ModifierCalculationMethod) -> int {
        choose|i: int| 0 <= i < self.spec_len() && self.key_at(i) == (name, method)
    }

    /// The aggregated value under a key; absence is the neutral `0`.
    pub closed spec fn spec_value(self, name: Seq<char>, method: ModifierCalculationMethod) -> int {
        if self.has_key(name, method) {
            self.entries@[self.index_of(name, method)].spec_value()
        } else {
            0
        }
    }

    /// What one aggregated key holds after this storage absorbs `other`.
    pub open spec fn combined_value(
        self,
        other: ModifierStorage,
        name: Seq<char>,
        method: ModifierCalculationMethod,
    ) -> int {
        cadd(self.spec_value(name, method), other.spec_value(name, method))
    }

    proof fn lemma_value_at(self, i: int)
        requires
            self.wf(),
            0 <= i < self.spec_len(),
        ensures
            self.has_key(self.key_at(i).0, self.key_at(i).1),
            self.spec_value(self.key_at(i).0, self.key_at(i).1) == self.entries@[i].spec_value(),
    {
        let (n, m) = self.key_at(i);
        assert(self.has_key(n, m));
        let j = self.index_of(n, m);
        if i != j {
            assert(self.key_at(i) != self.key_at(j));
        }
    }

    /// A well-formed storage only ever holds representable aggregates.
    pub proof fn lemma_spec_value_valid(
        self,
        name: Seq<char>,
        method: ModifierCalculationMethod,
    )
        requires
            self.wf(),
        ensures
            fp_valid(self.spec_value(name, method)),
    {
    }

    pub fn new() -> (r: ModifierStorage)
        ensures
            r.wf(),
            forall|n: Seq<char>, m: ModifierCalculationMethod| #[trigger] r.spec_value(n, m) == 0,
    {
        ModifierStorage { entries: Vec::new() }
    }

    /// Empty the storage: every aggregate returns to the neutral `0`.
    pub fn clear(&mut self)
        ensures
            final(self).wf(),
            forall|n: Seq<char>, m: ModifierCalculationMethod| #[trigger]
                final(self).spec_value(n, m) == 0,
    {
        self.entries.clear();
    }

    fn find_index(&self, name: &str, method: ModifierCalculationMethod) -> (r: Option<usize>)
        ensures
            match r {
                Some(i) => i < self.entries@.len() && self.key_at(i as int) == (name@, method),
                None => !self.has_key(name@, method),
            },
    {
        let mut j: usize = 0;
        while j < self.entries.len()
            invariant
                0 <= j <= self.entries@.len(),
                forall|jj: int| 0 <= jj < j ==> self.key_at(jj) != (name@, method),
            decreases self.entries@.len() - j,
        {
            let e = &self.entries[j];
            if str_eq(e.name.as_str(), name) && e.calculation == method {
                return Some(j);
            }
            j = j + 1;
        }
        None
    }

    /// The aggregated value under `(name, method)`, `0` when absent.
    pub fn value(&self, name: &str, method: ModifierCalculationMethod) -> (r: Fp)
        requires
            self.wf(),
        ensures
            r as int == self.spec_value(name@, method),
            fp_valid(r as int),
    {
        match self.find_index(name, method) {
            Some(i) => {
                proof {
                    self.lemma_value_at(i as int);
                }
                self.entries[i].value
            },
            None => 0,
        }
    }

    /// Absorb one entry: an absent key is inserted, a present key has the
    /// entry's value added onto its stored value.
    pub fn add(&mut self, entry: ModifierEntry)
        requires
            old(self).wf(),
            fp_valid(entry.spec_value()),
        ensures
            final(self).wf(),
            forall|n: Seq<char>, m: ModifierCalculationMethod| #[trigger]
                final(self).spec_value(n, m) == if (n, m) == entry.spec_key() {
                    cadd(old(self).spec_value(n, m), entry.spec_value())
                } else {
                    old(self).spec_value(n, m)
                },
    {
        let ghost s0 = *self;
        match self.find_index(entry.name.as_str(), entry.calculation) {
            Some(i) => {
                proof {
                    s0.lemma_value_at(i as int);
                }
                let mut en = self.entries.swap_remove(i);
                en.value = fp_add(en.value, entry.value);
                self.entries.push(en);
                proof {
                    self.lemma_add_found(s0, i as int, entry);
                }
            },
            None => {
                self.entries.push(entry);
                proof {
                    self.lemma_add_absent(s0, entry);
                }
            },
        }
    }

    proof fn lemma_add_found(self, s0: ModifierStorage, i: int, entry: ModifierEntry)
        requires
            s0.wf(),
            fp_valid(entry.spec_value()),
            0 <= i < s0.spec_len(),
            s0.key_at(i) == entry.spec_key(),
            self.entries@ == s0.entries@.update(i, s0.entries@.last()).drop_last().push(
                ModifierEntry {
                    name: s0.entries@[i].name,
                    value: self.entries@.last().value,
                    calculation: s0.entries@[i].calculation,
                },
            ),
            self.entries@.last().spec_value() == cadd(s0.entries@[i].spec_value(),
                entry.spec_value()),
            self.entries@.last().spec_key() == s0.key_at(i),
        ensures
            self.wf(),
            forall|n: Seq<char>, m: ModifierCalculationMethod| #[trigger]
                self.spec_value(n, m) == if (n, m) == entry.spec_key() {
                    cadd(s0.spec_value(n, m), entry.spec_value())
                } else {
                    s0.spec_value(n, m)
                },
    {
        let len = s0.spec_len();
        assert(self.spec_len() == len);
        // Where each old entry now stands: index i was swapped with the last
        // entry, and the key at i carries the freshly added value.
        assert forall|j: int| 0 <= j < len - 1 && j != i implies self.key_at(j) == s0.key_at(j)
            && self.entries@[j] == s0.entries@[j] by {}
        if i < len - 1 {
            assert(self.entries@[i] == s0.entries@[len - 1]);
        }
        assert(self.key_at(len - 1) == s0.key_at(i));

        assert forall|j1: int, j2: int| 0 <= j1 < j2 < len implies self.key_at(j1)
            != self.key_at(j2) by {
            let o1 = if j1 == len - 1 { i } else if j1 == i && i < len - 1 { len - 1 } else { j1 };
            let o2 = if j2 == len - 1 { i } else if j2 == i && i < len - 1 { len - 1 } else { j2 };
            assert(self.key_at(j1) == s0.key_at(o1));
            assert(self.key_at(j2) == s0.key_at(o2));
            assert(o1 != o2);
        }
        assert(self.wf());

        assert forall|n: Seq<char>, m: ModifierCalculationMethod| #[trigger]
            self.spec_value(n, m) == if (n, m) == entry.spec_key() {
                cadd(s0.spec_value(n, m), entry.spec_value())
            } else {
                s0.spec_value(n, m)
            } by {
            if (n, m) == entry.spec_key() {
                self.lemma_value_at(len - 1);
                s0.lemma_value_at(i);
            } else {
                if s0.has_key(n, m) {
                    let j = s0.index_of(n, m);
                    s0.lemma_value_at(j);
                    let j_new = if j == len - 1 && i < len - 1 { i } else { j };
                    assert(self.key_at(j_new) == (n, m));
                    assert(self.entries@[j_new].spec_value() == s0.entries@[j].spec_value());
                    self.lemma_value_at(j_new);
                } else {
                    if self.has_key(n, m) {
                        let j = self.index_of(n, m);
                        let o = if j == len - 1 { i } else if j == i && i < len - 1 { len - 1 } else { j };
                        assert(s0.key_at(o) == (n, m));
                    }
                }
            }
        }
    }

    proof fn lemma_add_absent(self, s0: ModifierStorage, entry: ModifierEntry)
        requires
            s0.wf(),
            fp_valid(entry.spec_value()),
            !s0.has_key(entry.spec_key().0, entry.spec_key().1),
            self.entries@ == s0.entries@.push(entry),
        ensures
            self.wf(),
            forall|n: Seq<char>, m: ModifierCalculationMethod| #[trigger]
                self.spec_value(n, m) == if (n, m) == entry.spec_key() {
                    cadd(s0.spec_value(n, m), entry.spec_value())
                } else {
                    s0.spec_value(n, m)
                },
    {
        let len = s0.spec_len();
        assert(self.spec_len() == len + 1);
        assert(forall|j: int| 0 <= j < len ==> self.entries@[j] == s0.entries@[j]);
        assert(self.entries@[len] == entry);
        assert forall|j1: int, j2: int| 0 <= j1 < j2 < len + 1 implies self.key_at(j1)
            != self.key_at(j2) by {
            assert(self.entries@[j1] == s0.entries@[j1]);
            assert(self.key_at(j1) == s0.key_at(j1));
            if j2 == len {
                assert(self.key_at(j2) == entry.spec_key());
                if s0.key_at(j1) == entry.spec_key() {
                    assert(entry.spec_key() == (entry.spec_key().0, entry.spec_key().1));
                    assert(s0.has_key(entry.spec_key().0, entry.spec_key().1));
                }
            } else {
                assert(self.key_at(j2) == s0.key_at(j2));
                assert(s0.key_at(j1) != s0.key_at(j2));
            }
        }
        assert(self.wf());
        assert forall|n: Seq<char>, m: ModifierCalculationMethod| #[trigger]
            self.spec_value(n, m) == if (n, m) == entry.spec_key() {
                cadd(s0.spec_value(n, m), entry.spec_value())
            } else {
                s0.spec_value(n, m)
            } by {
            if (n, m) == entry.spec_key() {
                self.lemma_value_at(len);
                assert(!s0.has_key(n, m));
            } else {
                if s0.has_key(n, m) {
                    let j = s0.index_of(n, m);
                    s0.lemma_value_at(j);
                    assert(self.key_at(j) == (n, m));
                    self.lemma_value_at(j);
                } else {
                    if self.has_key(n, m) {
                        let j = self.index_of(n, m);
                        assert(j != len);
                        assert(s0.key_at(j) == (n, m));
                    }
                }
            }
        }
    }

    /// Absorb every entry of `other`, key by key.
    pub fn combine(&mut self, other: &ModifierStorage)
        requires
            old(self).wf(),
            other.wf(),
        ensures
            final(self).wf(),
            forall|n: Seq<char>, m: ModifierCalculationMethod| #[trigger]
                final(self).spec_value(n, m) == old(self).combined_value(*other, n, m),
    {
        let ghost s0 = *self;
        let mut j: usize = 0;
        while j < other.entries.len()
            invariant
                s0.wf(),
                other.wf(),
                self.wf(),
                0 <= j <= other.spec_len(),
                forall|n: Seq<char>, m: ModifierCalculationMethod| #[trigger]
                    self.spec_value(n, m) == if exists|jj: int|
                        0 <= jj < j && other.key_at(jj) == (n, m) {
                        cadd(s0.spec_value(n, m), other.spec_value(n, m))
                    } else {
                        s0.spec_value(n, m)
                    },
            decreases other.spec_len() - j,
        {
            let e = &other.entries[j];
            let copied = ModifierEntry::new(e.name.as_str().to_owned(), e.value, e.calculation);
            proof {
                other.lemma_value_at(j as int);
            }
            self.add(copied);
            proof {
                assert forall|jj: int| 0 <= jj < j && other.key_at(jj) == other.key_at(
                    j as int,
                ) implies false by {}
            }
            j = j + 1;
        }
        proof {
            assert forall|n: Seq<char>, m: ModifierCalculationMethod| #[trigger]
                self.spec_value(n, m) == s0.combined_value(*other, n, m) by {
                if other.has_key(n, m) {
                    let jj = other.index_of(n, m);
                    other.lemma_value_at(jj);
                } else {
                    s0.lemma_spec_value_valid(n, m);
                    assert(cadd(s0.spec_value(n, m), 0) == s0.spec_value(n, m));
                }
            }
        }
    }
}

/// One modifier declaration of an asset, decoded: the method string has
/// already been turned into its closed enum.
pub struct ModifierDef {
    pub name: String,
    pub value: Fp,
    pub calculation: ModifierCalculationMethod,
}

impl ModifierDef {
    pub open spec fn wf(self) -> bool {
        fp_valid(self.value as int)
    }
}

/// One modifier declaration as an asset carries it: the combination method
/// still a raw string, the value a raw number of thousandths.
pub struct RawModifier {
    pub name: String,
    pub value: i64,
    pub calculation: String,
}

/// Does a decoded modifier declaration carry over a raw one?
pub open spec fn mod_decodes(r: RawModifier, d: ModifierDef) -> bool {
    &&& d.name@ == r.name@
    &&& d.value as int == crate::fixed::fp_clamp(r.value as int)
    &&& is_method_key(r.calculation@)
    &&& d.calculation == spec_method_of(r.calculation@)
}

pub open spec fn mods_decode(r: Seq<RawModifier>, d: Seq<ModifierDef>) -> bool {
    &&& d.len() == r.len()
    &&& forall|i: int| 0 <= i < r.len() ==> mod_decodes(r[i], #[trigger] d[i])
}

/// Decode a list of raw declarations, turning each method string into its
/// enum; an unknown method string is a load-time error and nothing is decoded.
pub fn decode_modifier_defs(raw: &Vec<RawModifier>) -> (r: Result<Vec<ModifierDef>, String>)
    ensures
        match r {
            Ok(defs) => {
                &&& forall|i: int|
                    0 <= i < raw@.len() ==> is_method_key(#[trigger] raw@[i].calculation@)
                &&& defs@.len() == raw@.len()
                &&& forall|i: int|
                    0 <= i < raw@.len() ==> {
                        &&& (#[trigger] defs@[i]).name@ == raw@[i].name@
                        &&& defs@[i].value as int == crate::fixed::fp_clamp(raw@[i].value as int)
                        &&& defs@[i].calculation == spec_method_of(raw@[i].calculation@)
                        &&& defs@[i].wf()
                    }
            },
            Err(e) => {
                &&& exists|i: int|
                    0 <= i < raw@.len() && !is_method_key(#[trigger] raw@[i].calculation@)
                &&& e@ == "wrong modifier calculation method"@
            },
        },
{
    let mut defs: Vec<ModifierDef> = Vec::new();
    let mut j: usize = 0;
    while j < raw.len()
        invariant
            0 <= j <= raw@.len(),
            defs@.len() == j,
            forall|i: int| 0 <= i < j ==> is_method_key(#[trigger] raw@[i].calculation@),
            forall|i: int|
                0 <= i < j ==> {
                    &&& (#[trigger] defs@[i]).name@ == raw@[i].name@
                    &&& defs@[i].value as int == crate::fixed::fp_clamp(raw@[i].value as int)
                    &&& defs@[i].calculation == spec_method_of(raw@[i].calculation@)
                    &&& defs@[i].wf()
                },
        decreases raw@.len() - j,
    {
        let m = &raw[j];
        match ModifierCalculationMethod::from_str_safe(m.calculation.as_str()) {
            Ok(method) => {
                defs.push(ModifierDef {
                    name: m.name.as_str().to_owned(),
                    value: crate::fixed::fp_sanitize(m.value),
                    calculation: method,
                });
            },
            Err(e) => {
                return Err(e);
            },
        }
        j = j + 1;
    }
    Ok(defs)
}

/// Are all declarations of a list representable?
pub open spec fn defs_wf(defs: Seq<ModifierDef>) -> bool {
    forall|i: int| 0 <= i < defs.len() ==> (#[trigger] defs[i]).wf()
}

/// What the key `(name, method)` aggregates to after the first `upto`
/// declarations of `defs`, each scaled by the plain count `scale`, have been
/// folded onto `base`.
pub open spec fn emitted_from(
    base: int,
    defs: Seq<ModifierDef>,
    scale: int,
    name: Seq<char>,
    method: ModifierCalculationMethod,
    upto: int,
) -> int
    decreases upto,
{
    if upto <= 0 {
        base
    } else {
        let prev = emitted_from(base, defs, scale, name, method, upto - 1);
        if defs[upto - 1].name@ == name && defs[upto - 1].calculation == method {
            cadd(prev, cmuli(defs[upto - 1].value as int, scale))
        } else {
            prev
        }
    }
}

impl ModifierStorage {
    /// Absorb every declaration of `defs`, each value scaled by `scale`.
    pub fn add_defs(&mut self, defs: &Vec<ModifierDef>, scale: i64)
        requires
            old(self).wf(),
            forall|i: int| 0 <= i < defs@.len() ==> (#[trigger] defs@[i]).wf(),
            fp_valid(scale as int),
        ensures
            final(self).wf(),
            forall|n: Seq<char>, m: ModifierCalculationMethod| #[trigger]
                final(self).spec_value(n, m) == emitted_from(
                    old(self).spec_value(n, m),
                    defs@,
                    scale as int,
                    n,
                    m,
                    defs@.len() as int,
                ),
    {
        let ghost s0 = *self;
        let mut j: usize = 0;
        while j < defs.len()
            invariant
                self.wf(),
                forall|i: int| 0 <= i < defs@.len() ==> (#[trigger] defs@[i]).wf(),
                fp_valid(scale as int),
                0 <= j <= defs@.len(),
                forall|n: Seq<char>, m: ModifierCalculationMethod| #[trigger]
                    self.spec_value(n, m) == emitted_from(
                        s0.spec_value(n, m),
                        defs@,
                        scale as int,
                        n,
                        m,
                        j as int,
                    ),
            decreases defs@.len() - j,
        {
            let d = &defs[j];
            let entry = ModifierEntry::new(
                d.name.as_str().to_owned(),
                fp_muli(d.value, scale),
                d.calculation,
            );
            self.add(entry);
            j = j + 1;
        }
    }
}

/// Do two storages aggregate every key to the same value?
pub open spec fn ms_equiv(a: ModifierStorage, b: ModifierStorage) -> bool {
    forall|n: Seq<char>, m: ModifierCalculationMethod|
        #![trigger a.spec_value(n, m)]
        #![trigger b.spec_value(n, m)]
        a.spec_value(n, m) == b.spec_value(n, m)
}

/// Combining two storages is commutative: whichever of the two absorbs the
/// other, every aggregated key holds the same value.
pub proof fn lemma_combine_commutative(a: ModifierStorage, b: ModifierStorage)
    ensures
        forall|n: Seq<char>, m: ModifierCalculationMethod| #[trigger]
            a.combined_value(b, n, m) == b.combined_value(a, n, m),
{
}

} // verus!
