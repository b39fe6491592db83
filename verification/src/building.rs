//! Buildings: production definitions that, under a modifier snapshot, compute
//! their upkeep, output, storage, emitted modifiers and price; the manager
//! aggregates across buildings and throttles the ones whose upkeep resource
//! is drained.

use vstd::prelude::*;

use crate::fixed::{
    cadd, cdiv, cfloor, cmul, cmuli, cpow, crange, csub, fp_add, fp_div, fp_floor, fp_max,
    fp_mul, fp_muli, fp_pow, fp_sanitize, fp_sub, fp_valid, Fp, FP_MAX, FP_SCALE,
};
use crate::modifier::{
    decode_modifier_defs, defs_wf, emitted_from, is_method_key, mod_decodes, mods_decode,
    spec_method_of, ModifierCalculationMethod, ModifierDef, ModifierStorage, RawModifier,
};
use crate::names::{list_has, list_insert, list_remove, names_has, names_unique};
use crate::resource::{ResourceManager, ResourceStorage};
use crate::text::str_eq;

verus! {

/// A named amount as an asset carries it: a resource name and a raw number of
/// thousandths.
pub struct RawAmount {
    pub name: String,
    pub value: i64,
}

/// One production of a building asset.
pub struct RawProduction {
    pub name: String,
    pub upkeeps: Vec<RawAmount>,
    pub outputs: Vec<RawAmount>,
    pub modifiers: Vec<RawModifier>,
    pub storages: Vec<RawAmount>,
}

/// A building asset as the loader hands it over.
pub struct BuildingAsset {
    pub name: String,
    pub category: String,
    pub prices: Vec<RawAmount>,
    pub price_multiplier: i64,
    pub productions: Vec<RawProduction>,
}

/// A named amount, its value inside the representable range.
pub struct AmountDef {
    pub name: String,
    pub value: Fp,
}

impl AmountDef {
    pub open spec fn wf(self) -> bool {
        fp_valid(self.value as int)
    }
}

/// Are all amounts of a list representable?
pub open spec fn amounts_wf(l: Seq<AmountDef>) -> bool {
    forall|i: int| 0 <= i < l.len() ==> (#[trigger] l[i]).wf()
}

/// One production, decoded.
pub struct ProductionDef {
    pub name: String,
    pub upkeeps: Vec<AmountDef>,
    pub outputs: Vec<AmountDef>,
    pub modifiers: Vec<ModifierDef>,
    pub storages: Vec<AmountDef>,
}

impl ProductionDef {
    pub open spec fn wf(self) -> bool {
        &&& amounts_wf(self.upkeeps@)
        &&& amounts_wf(self.outputs@)
        &&& defs_wf(self.modifiers@)
        &&& amounts_wf(self.storages@)
    }
}

/// Are all productions of a list well-formed?
pub open spec fn prods_wf(l: Seq<ProductionDef>) -> bool {
    forall|i: int| 0 <= i < l.len() ==> (#[trigger] l[i]).wf()
}

/// Is every name of `active` also a member of `unlocked`?
pub open spec fn active_subset(active: Seq<String>, unlocked: Seq<String>) -> bool {
    forall|m: Seq<char>| #[trigger] names_has(active, m) ==> names_has(unlocked, m)
}

/// Does a decoded amount carry over a raw one?
pub open spec fn amount_decodes(r: RawAmount, d: AmountDef) -> bool {
    &&& d.name@ == r.name@
    &&& d.value as int == crate::fixed::fp_clamp(r.value as int)
}

pub open spec fn amounts_decode(r: Seq<RawAmount>, d: Seq<AmountDef>) -> bool {
    &&& d.len() == r.len()
    &&& forall|i: int| 0 <= i < r.len() ==> amount_decodes(r[i], #[trigger] d[i])
}

/// Does a decoded production carry over a raw one?
pub open spec fn prod_decodes(r: RawProduction, d: ProductionDef) -> bool {
    &&& d.name@ == r.name@
    &&& amounts_decode(r.upkeeps@, d.upkeeps@)
    &&& amounts_decode(r.outputs@, d.outputs@)
    &&& mods_decode(r.modifiers@, d.modifiers@)
    &&& amounts_decode(r.storages@, d.storages@)
}

pub open spec fn prods_decode(r: Seq<RawProduction>, d: Seq<ProductionDef>) -> bool {
    &&& d.len() == r.len()
    &&& forall|i: int| 0 <= i < r.len() ==> prod_decodes(r[i], #[trigger] d[i])
}

/// Is some modifier method string of this production list unknown?
pub open spec fn prods_have_bad_method(r: Seq<RawProduction>) -> bool {
    exists|i: int, j: int|
        0 <= i < r.len() && 0 <= j < r[i].modifiers@.len() && !is_method_key(
            #[trigger] r[i].modifiers@[j].calculation@,
        )
}

pub(crate) fn decode_amounts(raw: &Vec<RawAmount>) -> (r: Vec<AmountDef>)
    ensures
        amounts_decode(raw@, r@),
        amounts_wf(r@),
{
    let mut out: Vec<AmountDef> = Vec::new();
    let mut j: usize = 0;
    while j < raw.len()
        invariant
            0 <= j <= raw@.len(),
            out@.len() == j,
            forall|i: int| 0 <= i < j ==> amount_decodes(raw@[i], #[trigger] out@[i]),
            amounts_wf(out@),
        decreases raw@.len() - j,
    {
        let a = &raw[j];
        out.push(AmountDef { name: a.name.as_str().to_owned(), value: fp_sanitize(a.value) });
        j = j + 1;
    }
    out
}

fn decode_productions(raw: &Vec<RawProduction>) -> (r: Result<Vec<ProductionDef>, String>)
    ensures
        match r {
            Ok(defs) => {
                &&& prods_decode(raw@, defs@)
                &&& prods_wf(defs@)
                &&& !prods_have_bad_method(raw@)
            },
            Err(e) => {
                &&& prods_have_bad_method(raw@)
                &&& e@ == "wrong modifier calculation method"@
            },
        },
{
    let mut out: Vec<ProductionDef> = Vec::new();
    let mut j: usize = 0;
    while j < raw.len()
        invariant
            0 <= j <= raw@.len(),
            out@.len() == j,
            forall|i: int| 0 <= i < j ==> prod_decodes(raw@[i], #[trigger] out@[i]),
            prods_wf(out@),
        decreases raw@.len() - j,
    {
        let p = &raw[j];
        let modifiers = match decode_modifier_defs(&p.modifiers) {
            Ok(m) => m,
            Err(e) => {
                proof {
                    let bad = choose|i: int|
                        0 <= i < p.modifiers@.len() && !is_method_key(
                            #[trigger] p.modifiers@[i].calculation@,
                        );
                    assert(!is_method_key(raw@[j as int].modifiers@[bad].calculation@));
                }
                return Err(e);
            },
        };
        out.push(
            (ProductionDef {
                name: p.name.as_str().to_owned(),
                upkeeps: decode_amounts(&p.upkeeps),
                outputs: decode_amounts(&p.outputs),
                modifiers,
                storages: decode_amounts(&p.storages),
            }),
        );
        j = j + 1;
    }
    proof {
        if prods_have_bad_method(raw@) {
            let (i, jj) = choose|i: int, jj: int|
                0 <= i < raw@.len() && 0 <= jj < raw@[i].modifiers@.len() && !is_method_key(
                    #[trigger] raw@[i].modifiers@[jj].calculation@,
                );
            assert(prod_decodes(raw@[i], out@[i]));
            assert(mods_decode(raw@[i].modifiers@, out@[i].modifiers@));
            assert(mod_decodes(raw@[i].modifiers@[jj], out@[i].modifiers@[jj]));
            assert(false);
        }
    }
    Ok(out)
}

/// The three per-tick quantities a production contributes to.
#[derive(Copy, Clone, PartialEq, Eq, Structural)]
pub enum QuantityKind {
    Upkeep,
    Output,
    Storage,
}

/// The key string a quantity is scoped under.
pub open spec fn quantity_key(q: QuantityKind) -> Seq<char> {
    match q {
        QuantityKind::Upkeep => "upkeep"@,
        QuantityKind::Output => "output"@,
        QuantityKind::Storage => "storage"@,
    }
}

/// The modifier key for one named thing's quantity.
pub open spec fn scope_name_key(scope: Seq<char>, n: Seq<char>, q: Seq<char>) -> Seq<char> {
    scope + ".name."@ + n + "."@ + q
}

/// The modifier key for one category's quantity.
pub open spec fn scope_category_key(scope: Seq<char>, c: Seq<char>, q: Seq<char>) -> Seq<char> {
    scope + ".category."@ + c + "."@ + q
}

/// The modifier key every thing of a scope shares.
pub open spec fn scope_global_key(scope: Seq<char>, q: Seq<char>) -> Seq<char> {
    scope + ".global."@ + q
}

/// One method's contribution, summed over the three scopes: the thing's own
/// name, its category, and the scope-wide key.
pub open spec fn scoped_value(
    ms: ModifierStorage,
    scope: Seq<char>,
    n: Seq<char>,
    c: Seq<char>,
    q: Seq<char>,
    m: ModifierCalculationMethod,
) -> int {
    cadd(
        cadd(
            ms.spec_value(scope_name_key(scope, n, q), m),
            ms.spec_value(scope_category_key(scope, c, q), m),
        ),
        ms.spec_value(scope_global_key(scope, q), m),
    )
}

/// The modifier-composition formula for upkeep, output and storage: base
/// terms added, one plus the additive terms multiplied in, flat terms added,
/// one plus the global speed multiplied in, scaled by the active count, and
/// the result never negative, rounded down to whole units.
pub open spec fn modified_quantity(
    ms: ModifierStorage,
    n: Seq<char>,
    c: Seq<char>,
    q: Seq<char>,
    v0: int,
    active_count: int,
) -> int {
    let s = FP_SCALE as int;
    let scope = "building"@;
    let b = scoped_value(ms, scope, n, c, q, ModifierCalculationMethod::Base);
    let a = scoped_value(ms, scope, n, c, q, ModifierCalculationMethod::Additive);
    let f = scoped_value(ms, scope, n, c, q, ModifierCalculationMethod::Flat);
    let sp = ms.spec_value("global.speed"@, ModifierCalculationMethod::Additive);
    let v1 = cadd(v0, b);
    let v2 = cmul(v1, cadd(s, a));
    let v3 = cadd(v2, f);
    let v4 = cmul(v3, cadd(s, sp));
    let v5 = cmuli(v4, active_count);
    cfloor(if v5 >= 0 { v5 } else { 0 })
}

/// The price formula: the flat price runs through the base/additive/flat
/// pipeline, a division term (never under one) scales it down, and the
/// asset's multiplier (never under one), dampened by its own division term,
/// is raised to the number already owned. A dampening divisor under one unit
/// leaves the ramp alone when negative and, when it vanishes, sends any real
/// ramp to the top of the range, as a vanishing float divisor would. The
/// result is at least one unit, rounded down.
pub open spec fn modified_price(
    ms: ModifierStorage,
    scope: Seq<char>,
    n: Seq<char>,
    c: Seq<char>,
    pm: int,
    count: nat,
    v0: int,
) -> int {
    let s = FP_SCALE as int;
    let q = "price"@;
    let b = scoped_value(ms, scope, n, c, q, ModifierCalculationMethod::Base);
    let a = scoped_value(ms, scope, n, c, q, ModifierCalculationMethod::Additive);
    let f = scoped_value(ms, scope, n, c, q, ModifierCalculationMethod::Flat);
    let v1 = cadd(v0, b);
    let v2 = cmul(v1, cadd(s, a));
    let v3 = cadd(v2, f);
    let qd = "price_division"@;
    let db = scoped_value(ms, scope, n, c, qd, ModifierCalculationMethod::Base);
    let da = scoped_value(ms, scope, n, c, qd, ModifierCalculationMethod::Additive);
    let df = scoped_value(ms, scope, n, c, qd, ModifierCalculationMethod::Flat);
    let d1 = cadd(s, db);
    let d2 = cmul(d1, cadd(s, da));
    let d3 = cadd(d2, df);
    let qm = "price_multiplier_division"@;
    let mb = scoped_value(ms, scope, n, c, qm, ModifierCalculationMethod::Base);
    let ma = scoped_value(ms, scope, n, c, qm, ModifierCalculationMethod::Additive);
    let mf = scoped_value(ms, scope, n, c, qm, ModifierCalculationMethod::Flat);
    let m1 = cadd(s, mb);
    let m2 = cmul(m1, cadd(s, ma));
    let m3 = cadd(m2, mf);
    let pm1 = if pm >= s {
        pm
    } else {
        s
    };
    let eff = if m3 >= 1 {
        let ratio = cdiv(csub(pm1, s), m3);
        cadd(if ratio >= 0 { ratio } else { 0 }, s)
    } else if m3 >= 0 {
        if pm1 > s {
            FP_MAX as int
        } else {
            s
        }
    } else {
        s
    };
    let divisor = if d3 >= s {
        d3
    } else {
        s
    };
    let base_price = cdiv(v3, divisor);
    let res = cmul(base_price, cpow(eff, count));
    cfloor(if res >= s { res } else { s })
}

/// With the same modifier snapshot, the price never falls as the owned count
/// grows: the effective multiplier is never under one, so each further unit
/// costs at least as much as the one before it.
pub proof fn lemma_price_monotonic(
    ms: ModifierStorage,
    scope: Seq<char>,
    n: Seq<char>,
    c: Seq<char>,
    pm: int,
    k1: nat,
    k2: nat,
    v0: int,
)
    requires
        k1 <= k2,
    ensures
        modified_price(ms, scope, n, c, pm, k1, v0) <= modified_price(ms, scope, n, c, pm, k2, v0),
{
    let s = FP_SCALE as int;
    let q = "price"@;
    let b = scoped_value(ms, scope, n, c, q, ModifierCalculationMethod::Base);
    let a = scoped_value(ms, scope, n, c, q, ModifierCalculationMethod::Additive);
    let f = scoped_value(ms, scope, n, c, q, ModifierCalculationMethod::Flat);
    let v3 = cadd(cmul(cadd(v0, b), cadd(s, a)), f);
    let qd = "price_division"@;
    let db = scoped_value(ms, scope, n, c, qd, ModifierCalculationMethod::Base);
    let da = scoped_value(ms, scope, n, c, qd, ModifierCalculationMethod::Additive);
    let df = scoped_value(ms, scope, n, c, qd, ModifierCalculationMethod::Flat);
    let d3 = cadd(cmul(cadd(s, db), cadd(s, da)), df);
    let qm = "price_multiplier_division"@;
    let mb = scoped_value(ms, scope, n, c, qm, ModifierCalculationMethod::Base);
    let ma = scoped_value(ms, scope, n, c, qm, ModifierCalculationMethod::Additive);
    let mf = scoped_value(ms, scope, n, c, qm, ModifierCalculationMethod::Flat);
    let m3 = cadd(cmul(cadd(s, mb), cadd(s, ma)), mf);
    let pm1 = if pm >= s {
        pm
    } else {
        s
    };
    let eff = if m3 >= 1 {
        let ratio = cdiv(csub(pm1, s), m3);
        cadd(if ratio >= 0 { ratio } else { 0 }, s)
    } else if m3 >= 0 {
        if pm1 > s {
            FP_MAX as int
        } else {
            s
        }
    } else {
        s
    };
    assert(s <= eff <= FP_MAX as int);
    let divisor = if d3 >= s {
        d3
    } else {
        s
    };
    let base_price = cdiv(v3, divisor);
    crate::fixed::lemma_cpow_monotone(eff, k1, k2);
    let p1 = cpow(eff, k1);
    let p2 = cpow(eff, k2);
    if base_price >= 0 {
        crate::fixed::lemma_cmul_monotone(base_price, p1, p2);
        let r1 = cmul(base_price, p1);
        let r2 = cmul(base_price, p2);
        if r1 >= s && r2 >= s {
            crate::fixed::lemma_cfloor_monotone(r1, r2);
        } else if r1 < s && r2 >= s {
            crate::fixed::lemma_cfloor_monotone(s, r2);
        } else if r1 >= s {
            assert(r1 <= r2);
        }
    } else {
        assert(base_price * p1 <= 0) by (nonlinear_arith)
            requires
                base_price < 0,
                p1 >= 0,
        ;
        assert(base_price * p2 <= 0) by (nonlinear_arith)
            requires
                base_price < 0,
                p2 >= 0,
        ;
        assert(crate::fixed::tdiv(base_price * p1, s) <= 0) by {
            crate::fixed::lemma_tdiv_monotone(base_price * p1, 0, s);
        }
        assert(crate::fixed::tdiv(base_price * p2, s) <= 0) by {
            crate::fixed::lemma_tdiv_monotone(base_price * p2, 0, s);
        }
    }
}

/// Which entry list of a production one quantity reads.
pub open spec fn quantity_entries(p: ProductionDef, q: QuantityKind) -> Seq<AmountDef> {
    match q {
        QuantityKind::Upkeep => p.upkeeps@,
        QuantityKind::Output => p.outputs@,
        QuantityKind::Storage => p.storages@,
    }
}

/// Do the first `upto` entries mention this resource name?
pub open spec fn amounts_has(entries: Seq<AmountDef>, n: Seq<char>, upto: int) -> bool {
    exists|j: int| 0 <= j < upto && (#[trigger] entries[j]).name@ == n
}

/// What one name accumulates to after the first `upto` entries, each run
/// through the modifier formula, have been folded onto `base`.
pub open spec fn amounts_emitted(
    base: int,
    entries: Seq<AmountDef>,
    ms: ModifierStorage,
    bn: Seq<char>,
    bc: Seq<char>,
    q: Seq<char>,
    ac: int,
    n: Seq<char>,
    upto: int,
) -> int
    decreases upto,
{
    if upto <= 0 {
        base
    } else {
        let prev = amounts_emitted(base, entries, ms, bn, bc, q, ac, n, upto - 1);
        if entries[upto - 1].name@ == n {
            cadd(prev, modified_quantity(ms, bn, bc, q, entries[upto - 1].value as int, ac))
        } else {
            prev
        }
    }
}

/// What one name accumulates to over the active productions among the first
/// `upto`, for one quantity.
pub open spec fn prods_quantity(
    prods: Seq<ProductionDef>,
    actives: Seq<String>,
    ms: ModifierStorage,
    bn: Seq<char>,
    bc: Seq<char>,
    qk: QuantityKind,
    ac: int,
    n: Seq<char>,
    upto: int,
) -> int
    decreases upto,
{
    if upto <= 0 {
        0
    } else {
        let prev = prods_quantity(prods, actives, ms, bn, bc, qk, ac, n, upto - 1);
        let p = prods[upto - 1];
        if names_has(actives, p.name@) {
            amounts_emitted(
                prev,
                quantity_entries(p, qk),
                ms,
                bn,
                bc,
                quantity_key(qk),
                ac,
                n,
                quantity_entries(p, qk).len() as int,
            )
        } else {
            prev
        }
    }
}

/// Does any active production among the first `upto` mention this name for
/// this quantity?
pub open spec fn prods_quantity_has(
    prods: Seq<ProductionDef>,
    actives: Seq<String>,
    qk: QuantityKind,
    n: Seq<char>,
    upto: int,
) -> bool
    decreases upto,
{
    if upto <= 0 {
        false
    } else {
        let p = prods[upto - 1];
        prods_quantity_has(prods, actives, qk, n, upto - 1) || (names_has(actives, p.name@)
            && amounts_has(quantity_entries(p, qk), n, quantity_entries(p, qk).len() as int))
    }
}

/// What one modifier key accumulates to over the active productions among the
/// first `upto`, each declaration scaled by the active count.
pub open spec fn prods_modifiers(
    prods: Seq<ProductionDef>,
    actives: Seq<String>,
    ac: int,
    n: Seq<char>,
    m: ModifierCalculationMethod,
    upto: int,
) -> int
    decreases upto,
{
    if upto <= 0 {
        0
    } else {
        let prev = prods_modifiers(prods, actives, ac, n, m, upto - 1);
        let p = prods[upto - 1];
        if names_has(actives, p.name@) {
            emitted_from(prev, p.modifiers@, ac, n, m, p.modifiers@.len() as int)
        } else {
            prev
        }
    }
}

/// What one resource name's price accumulates to over the first `upto` price
/// entries, each run through the price formula.
pub open spec fn prices_value(
    prices: Seq<AmountDef>,
    ms: ModifierStorage,
    scope: Seq<char>,
    bn: Seq<char>,
    bc: Seq<char>,
    pm: int,
    count: nat,
    n: Seq<char>,
    upto: int,
) -> int
    decreases upto,
{
    if upto <= 0 {
        0
    } else {
        let prev = prices_value(prices, ms, scope, bn, bc, pm, count, n, upto - 1);
        if prices[upto - 1].name@ == n {
            cadd(prev, modified_price(ms, scope, bn, bc, pm, count, prices[upto - 1].value as int))
        } else {
            prev
        }
    }
}

/// A whole calculated price never falls as the owned count grows: every
/// entry of the price list obeys the per-value monotonicity, and their
/// clamped sum keeps the order.
pub proof fn lemma_prices_value_monotonic(
    prices: Seq<AmountDef>,
    ms: ModifierStorage,
    scope: Seq<char>,
    bn: Seq<char>,
    bc: Seq<char>,
    pm: int,
    k1: nat,
    k2: nat,
    n: Seq<char>,
    upto: int,
)
    requires
        k1 <= k2,
    ensures
        prices_value(prices, ms, scope, bn, bc, pm, k1, n, upto) <= prices_value(
            prices,
            ms,
            scope,
            bn,
            bc,
            pm,
            k2,
            n,
            upto,
        ),
    decreases upto,
{
    if upto > 0 {
        lemma_prices_value_monotonic(prices, ms, scope, bn, bc, pm, k1, k2, n, upto - 1);
        lemma_price_monotonic(ms, scope, bn, bc, pm, k1, k2, prices[upto - 1].value as int);
    }
}

fn build_scope_key(scope: &str, part: &str, mid: &str, q: &str) -> (r: String)
    ensures
        r@ == scope@ + part@ + mid@ + "."@ + q@,
{
    let mut s: String = scope.to_owned();
    s.append(part);
    s.append(mid);
    s.append(".");
    s.append(q);
    proof {
        assert(s@ =~= scope@ + part@ + mid@ + "."@ + q@);
    }
    s
}

fn build_global_key(scope: &str, part: &str, q: &str) -> (r: String)
    ensures
        r@ == scope@ + part@ + q@,
{
    let mut s: String = scope.to_owned();
    s.append(part);
    s.append(q);
    proof {
        assert(s@ =~= scope@ + part@ + q@);
    }
    s
}

/// One price value run through the price formula, for one scope.
pub(crate) fn compute_price(
    modifier_storage: &ModifierStorage,
    scope: &str,
    name: &str,
    category: &str,
    price_multiplier: Fp,
    count: u32,
    original_value: Fp,
) -> (r: Fp)
    requires
        modifier_storage.wf(),
        fp_valid(price_multiplier as int),
        fp_valid(original_value as int),
    ensures
        r as int == modified_price(
            *modifier_storage,
            scope@,
            name@,
            category@,
            price_multiplier as int,
            count as nat,
            original_value as int,
        ),
        fp_valid(r as int),
        r >= 0,
{
    let nk = build_scope_key(scope, ".name.", name, "price");
    let ck = build_scope_key(scope, ".category.", category, "price");
    let gk = build_global_key(scope, ".global.", "price");
    let b = fp_add(
        fp_add(
            modifier_storage.value(nk.as_str(), ModifierCalculationMethod::Base),
            modifier_storage.value(ck.as_str(), ModifierCalculationMethod::Base),
        ),
        modifier_storage.value(gk.as_str(), ModifierCalculationMethod::Base),
    );
    let a = fp_add(
        fp_add(
            modifier_storage.value(nk.as_str(), ModifierCalculationMethod::Additive),
            modifier_storage.value(ck.as_str(), ModifierCalculationMethod::Additive),
        ),
        modifier_storage.value(gk.as_str(), ModifierCalculationMethod::Additive),
    );
    let f = fp_add(
        fp_add(
            modifier_storage.value(nk.as_str(), ModifierCalculationMethod::Flat),
            modifier_storage.value(ck.as_str(), ModifierCalculationMethod::Flat),
        ),
        modifier_storage.value(gk.as_str(), ModifierCalculationMethod::Flat),
    );
    let v1 = fp_add(original_value, b);
    let v2 = fp_mul(v1, fp_add(FP_SCALE, a));
    let v3 = fp_add(v2, f);

    let dnk = build_scope_key(scope, ".name.", name, "price_division");
    let dck = build_scope_key(
        scope,
        ".category.",
        category,
        "price_division",
    );
    let dgk = build_global_key(scope, ".global.", "price_division");
    let db = fp_add(
        fp_add(
            modifier_storage.value(dnk.as_str(), ModifierCalculationMethod::Base),
            modifier_storage.value(dck.as_str(), ModifierCalculationMethod::Base),
        ),
        modifier_storage.value(dgk.as_str(), ModifierCalculationMethod::Base),
    );
    let da = fp_add(
        fp_add(
            modifier_storage.value(dnk.as_str(), ModifierCalculationMethod::Additive),
            modifier_storage.value(dck.as_str(), ModifierCalculationMethod::Additive),
        ),
        modifier_storage.value(dgk.as_str(), ModifierCalculationMethod::Additive),
    );
    let df = fp_add(
        fp_add(
            modifier_storage.value(dnk.as_str(), ModifierCalculationMethod::Flat),
            modifier_storage.value(dck.as_str(), ModifierCalculationMethod::Flat),
        ),
        modifier_storage.value(dgk.as_str(), ModifierCalculationMethod::Flat),
    );
    let d1 = fp_add(FP_SCALE, db);
    let d2 = fp_mul(d1, fp_add(FP_SCALE, da));
    let d3 = fp_add(d2, df);

    let mnk = build_scope_key(
        scope,
        ".name.",
        name,
        "price_multiplier_division",
    );
    let mck = build_scope_key(
        scope,
        ".category.",
        category,
        "price_multiplier_division",
    );
    let mgk = build_global_key(scope, ".global.", "price_multiplier_division");
    let mb = fp_add(
        fp_add(
            modifier_storage.value(mnk.as_str(), ModifierCalculationMethod::Base),
            modifier_storage.value(mck.as_str(), ModifierCalculationMethod::Base),
        ),
        modifier_storage.value(mgk.as_str(), ModifierCalculationMethod::Base),
    );
    let ma = fp_add(
        fp_add(
            modifier_storage.value(mnk.as_str(), ModifierCalculationMethod::Additive),
            modifier_storage.value(mck.as_str(), ModifierCalculationMethod::Additive),
        ),
        modifier_storage.value(mgk.as_str(), ModifierCalculationMethod::Additive),
    );
    let mf = fp_add(
        fp_add(
            modifier_storage.value(mnk.as_str(), ModifierCalculationMethod::Flat),
            modifier_storage.value(mck.as_str(), ModifierCalculationMethod::Flat),
        ),
        modifier_storage.value(mgk.as_str(), ModifierCalculationMethod::Flat),
    );
    let m1 = fp_add(FP_SCALE, mb);
    let m2 = fp_mul(m1, fp_add(FP_SCALE, ma));
    let m3 = fp_add(m2, mf);

    let pm1 = fp_max(price_multiplier, FP_SCALE);
    let eff: Fp = if m3 >= 1 {
        let ratio = fp_div(fp_sub(pm1, FP_SCALE), m3);
        fp_add(fp_max(ratio, 0), FP_SCALE)
    } else if m3 >= 0 {
        if pm1 > FP_SCALE {
            FP_MAX
        } else {
            FP_SCALE
        }
    } else {
        FP_SCALE
    };
    let divisor = fp_max(d3, FP_SCALE);
    let base_price = fp_div(v3, divisor);
    let powed = fp_pow(eff, count);
    let res = fp_mul(base_price, powed);
    fp_floor(fp_max(res, FP_SCALE))
}

/// Is this the building a just-loaded asset yields: every field the asset
/// fixes decoded from it, nothing built yet, only `"default"` unlocked and
/// active, and all snapshots empty?
pub open spec fn building_fresh_from(b: Building, asset: BuildingAsset) -> bool {
    &&& b.wf()
    &&& b.spec_name() == asset.name@
    &&& b.spec_category() == asset.category@
    &&& b.spec_price_multiplier() == crate::fixed::fp_clamp(asset.price_multiplier as int)
    &&& amounts_decode(asset.prices@, b.spec_prices())
    &&& prods_decode(asset.productions@, b.spec_productions())
    &&& b.spec_count() == 0
    &&& b.spec_active_count() == 0
    &&& !b.spec_unlocked()
    &&& forall|m: Seq<char>| #[trigger] b.spec_active(m) == (m == "default"@)
    &&& forall|m: Seq<char>| #[trigger] b.spec_prod_unlocked(m) == (m == "default"@)
    &&& forall|n: Seq<char>| #[trigger] b.spec_calc_upkeeps().spec_value(n) == 0
    &&& forall|n: Seq<char>| !(#[trigger] b.spec_calc_upkeeps().has_name(n))
    &&& forall|n: Seq<char>| #[trigger] b.spec_calc_outputs().spec_value(n) == 0
    &&& forall|n: Seq<char>, m: ModifierCalculationMethod| #[trigger]
        b.spec_calc_modifiers().spec_value(n, m) == 0
    &&& forall|n: Seq<char>| #[trigger] b.spec_calc_storages().spec_value(n) == 0
    &&& forall|n: Seq<char>| #[trigger] b.spec_calc_prices().spec_value(n) == 0
}

/// A building: a count of built units, the active part of them, the unlocked
/// and active productions, and the last calculated snapshots.
pub struct Building {
    name: String,
    category: String,
    prices: Vec<AmountDef>,
    price_multiplier: Fp,
    productions: Vec<ProductionDef>,
    count: i32,
    active_count: i32,
    calculated_upkeeps: ResourceStorage,
    calculated_outputs: ResourceStorage,
    calculated_modifiers: ModifierStorage,
    calculated_storages: ResourceStorage,
    calculated_prices: ResourceStorage,
    active_productions: Vec<String>,
    unlocked_productions: Vec<String>,
    is_unlocked: bool,
}

impl Building {
    pub closed spec fn spec_name(self) -> Seq<char> {
        self.name@
    }

    pub closed spec fn spec_category(self) -> Seq<char> {
        self.category@
    }

    pub closed spec fn spec_prices(self) -> Seq<AmountDef> {
        self.prices@
    }

    pub closed spec fn spec_price_multiplier(self) -> int {
        self.price_multiplier as int
    }

    pub closed spec fn spec_productions(self) -> Seq<ProductionDef> {
        self.productions@
    }

    pub closed spec fn spec_count(self) -> int {
        self.count as int
    }

    pub closed spec fn spec_active_count(self) -> int {
        self.active_count as int
    }

    pub closed spec fn spec_active_list(self) -> Seq<String> {
        self.active_productions@
    }

    pub closed spec fn spec_unlocked_list(self) -> Seq<String> {
        self.unlocked_productions@
    }

    /// Is this production currently active?
    pub open spec fn spec_active(self, n: Seq<char>) -> bool {
        names_has(self.spec_active_list(), n)
    }

    /// Is this production unlocked?
    pub open spec fn spec_prod_unlocked(self, n: Seq<char>) -> bool {
        names_has(self.spec_unlocked_list(), n)
    }

    /// Does the asset declare a production of this name?
    pub open spec fn spec_has_production(self, n: Seq<char>) -> bool {
        exists|i: int|
            0 <= i < self.spec_productions().len() && (#[trigger] self.spec_productions()[
                i
            ]).name@ == n
    }

    pub closed spec fn spec_unlocked(self) -> bool {
        self.is_unlocked
    }

    pub closed spec fn spec_calc_upkeeps(self) -> ResourceStorage {
        self.calculated_upkeeps
    }

    pub closed spec fn spec_calc_outputs(self) -> ResourceStorage {
        self.calculated_outputs
    }

    pub closed spec fn spec_calc_modifiers(self) -> ModifierStorage {
        self.calculated_modifiers
    }

    pub closed spec fn spec_calc_storages(self) -> ResourceStorage {
        self.calculated_storages
    }

    pub closed spec fn spec_calc_prices(self) -> ResourceStorage {
        self.calculated_prices
    }

    /// The invariant: the active part never exceeds the built count, nothing
    /// is negative, `"default"` is always unlocked and active, a production
    /// must be unlocked to be active, and every stored value is representable.
    pub open spec fn wf(self) -> bool {
        &&& 0 <= self.spec_active_count() <= self.spec_count()
        &&& fp_valid(self.spec_price_multiplier())
        &&& amounts_wf(self.spec_prices())
        &&& prods_wf(self.spec_productions())
        &&& names_unique(self.spec_active_list())
        &&& names_unique(self.spec_unlocked_list())
        &&& self.spec_active("default"@)
        &&& self.spec_prod_unlocked("default"@)
        &&& active_subset(self.spec_active_list(), self.spec_unlocked_list())
        &&& self.spec_calc_upkeeps().wf()
        &&& self.spec_calc_outputs().wf()
        &&& self.spec_calc_modifiers().wf()
        &&& self.spec_calc_storages().wf()
        &&& self.spec_calc_prices().wf()
    }

    /// Do two buildings agree on everything their asset fixed?
    pub open spec fn same_asset(a: Building, b: Building) -> bool {
        &&& a.spec_name() == b.spec_name()
        &&& a.spec_category() == b.spec_category()
        &&& a.spec_prices() == b.spec_prices()
        &&& a.spec_price_multiplier() == b.spec_price_multiplier()
        &&& a.spec_productions() == b.spec_productions()
    }

    /// Do two buildings agree on everything but the calculated snapshots?
    pub open spec fn same_state(a: Building, b: Building) -> bool {
        &&& Building::same_asset(a, b)
        &&& a.spec_count() == b.spec_count()
        &&& a.spec_active_count() == b.spec_active_count()
        &&& a.spec_active_list() == b.spec_active_list()
        &&& a.spec_unlocked_list() == b.spec_unlocked_list()
        &&& a.spec_unlocked() == b.spec_unlocked()
    }

    /// Do two buildings agree on the calculated snapshots?
    pub open spec fn same_calculated(a: Building, b: Building) -> bool {
        &&& a.spec_calc_upkeeps() == b.spec_calc_upkeeps()
        &&& a.spec_calc_outputs() == b.spec_calc_outputs()
        &&& a.spec_calc_modifiers() == b.spec_calc_modifiers()
        &&& a.spec_calc_storages() == b.spec_calc_storages()
        &&& a.spec_calc_prices() == b.spec_calc_prices()
    }

    /// Build a fresh building from an asset: nothing built yet, only the
    /// `"default"` production unlocked and active.
    pub fn from_asset(asset: BuildingAsset) -> (r: Result<Building, String>)
        ensures
            match r {
                Ok(b) => {
                    &&& !prods_have_bad_method(asset.productions@)
                    &&& building_fresh_from(b, asset)
                },
                Err(e) => {
                    &&& prods_have_bad_method(asset.productions@)
                    &&& e@ == "wrong modifier calculation method"@
                },
            },
    {
        let productions = match decode_productions(&asset.productions) {
            Ok(p) => p,
            Err(e) => {
                return Err(e);
            },
        };
        let mut active_productions: Vec<String> = Vec::new();
        active_productions.push("default".to_owned());
        let mut unlocked_productions: Vec<String> = Vec::new();
        unlocked_productions.push("default".to_owned());
        proof {
            assert forall|m: Seq<char>| #[trigger]
                names_has(active_productions@, m) == (m == "default"@) by {
                if names_has(active_productions@, m) {
                    let i = choose|i: int|
                        0 <= i < active_productions@.len() && (#[trigger] active_productions@[
                            i
                        ])@ == m;
                    assert(i == 0);
                }
                if m == "default"@ {
                    assert(active_productions@[0]@ == m);
                }
            }
            assert forall|m: Seq<char>| #[trigger]
                names_has(unlocked_productions@, m) == (m == "default"@) by {
                if names_has(unlocked_productions@, m) {
                    let i = choose|i: int|
                        0 <= i < unlocked_productions@.len() && (#[trigger] unlocked_productions@[
                            i
                        ])@ == m;
                    assert(i == 0);
                }
                if m == "default"@ {
                    assert(unlocked_productions@[0]@ == m);
                }
            }
        }
        Ok(
            (Building {
                name: asset.name,
                category: asset.category,
                prices: decode_amounts(&asset.prices),
                price_multiplier: fp_sanitize(asset.price_multiplier),
                productions,
                count: 0,
                active_count: 0,
                calculated_upkeeps: ResourceStorage::new(),
                calculated_outputs: ResourceStorage::new(),
                calculated_modifiers: ModifierStorage::new(),
                calculated_storages: ResourceStorage::new(),
                calculated_prices: ResourceStorage::new(),
                active_productions,
                unlocked_productions,
                is_unlocked: false,
            }),
        )
    }

    pub fn name(&self) -> (r: &str)
        ensures
            r@ == self.spec_name(),
    {
        self.name.as_str()
    }

    pub fn category(&self) -> (r: &str)
        ensures
            r@ == self.spec_category(),
    {
        self.category.as_str()
    }

    pub fn is_unlocked(&self) -> (r: bool)
        ensures
            r == self.spec_unlocked(),
    {
        self.is_unlocked
    }

    /// Unlock the building; unlocking is permanent.
    pub fn unlock(&mut self)
        ensures
            Building::same_asset(*old(self), *final(self)),
            Building::same_calculated(*old(self), *final(self)),
            final(self).spec_count() == old(self).spec_count(),
            final(self).spec_active_count() == old(self).spec_active_count(),
            final(self).spec_active_list() == old(self).spec_active_list(),
            final(self).spec_unlocked_list() == old(self).spec_unlocked_list(),
            final(self).spec_unlocked(),
            final(self).wf() == old(self).wf(),
    {
        self.is_unlocked = true;
    }

    pub fn count(&self) -> (r: i32)
        ensures
            r as int == self.spec_count(),
    {
        self.count
    }

    /// Add built units; the count saturates at the type's bounds and never
    /// falls under zero, and the active part is trimmed to fit.
    pub fn add_count(&mut self, count: i32)
        requires
            old(self).wf(),
        ensures
            final(self).wf(),
            Building::same_asset(*old(self), *final(self)),
            Building::same_calculated(*old(self), *final(self)),
            final(self).spec_count() == crange(
                old(self).spec_count() + count as int,
                0,
                i32::MAX as int,
            ),
            final(self).spec_active_count() == if old(self).spec_active_count()
                <= final(self).spec_count() {
                old(self).spec_active_count()
            } else {
                final(self).spec_count()
            },
            final(self).spec_active_list() == old(self).spec_active_list(),
            final(self).spec_unlocked_list() == old(self).spec_unlocked_list(),
            final(self).spec_unlocked() == old(self).spec_unlocked(),
    {
        let nc: i64 = self.count as i64 + count as i64;
        let clamped: i64 = if nc < 0 {
            0
        } else if nc > i32::MAX as i64 {
            i32::MAX as i64
        } else {
            nc
        };
        self.count = clamped as i32;
        if self.active_count > self.count {
            self.active_count = self.count;
        }
    }

    /// Set the built count; a negative count counts as zero, and the active
    /// part is trimmed to fit.
    pub fn set_count(&mut self, count: i32)
        requires
            old(self).wf(),
        ensures
            final(self).wf(),
            Building::same_asset(*old(self), *final(self)),
            Building::same_calculated(*old(self), *final(self)),
            final(self).spec_count() == if count as int >= 0 {
                count as int
            } else {
                0
            },
            final(self).spec_active_count() == if old(self).spec_active_count()
                <= final(self).spec_count() {
                old(self).spec_active_count()
            } else {
                final(self).spec_count()
            },
            final(self).spec_active_list() == old(self).spec_active_list(),
            final(self).spec_unlocked_list() == old(self).spec_unlocked_list(),
            final(self).spec_unlocked() == old(self).spec_unlocked(),
    {
        self.count = if count < 0 {
            0
        } else {
            count
        };
        if self.active_count > self.count {
            self.active_count = self.count;
        }
    }

    pub fn active_count(&self) -> (r: i32)
        ensures
            r as int == self.spec_active_count(),
    {
        self.active_count
    }

    /// Add active units, clamped into `[0, count]`.
    pub fn add_active_count(&mut self, count: i32)
        requires
            old(self).wf(),
        ensures
            final(self).wf(),
            Building::same_asset(*old(self), *final(self)),
            Building::same_calculated(*old(self), *final(self)),
            final(self).spec_count() == old(self).spec_count(),
            final(self).spec_active_count() == crange(
                old(self).spec_active_count() + count as int,
                0,
                old(self).spec_count(),
            ),
            final(self).spec_active_list() == old(self).spec_active_list(),
            final(self).spec_unlocked_list() == old(self).spec_unlocked_list(),
            final(self).spec_unlocked() == old(self).spec_unlocked(),
    {
        let na: i64 = self.active_count as i64 + count as i64;
        let clamped: i64 = if na < 0 {
            0
        } else if na > self.count as i64 {
            self.count as i64
        } else {
            na
        };
        self.active_count = clamped as i32;
    }

    /// Set the active units, clamped into `[0, count]`.
    pub fn set_active_count(&mut self, count: i32)
        requires
            old(self).wf(),
        ensures
            final(self).wf(),
            Building::same_asset(*old(self), *final(self)),
            Building::same_calculated(*old(self), *final(self)),
            final(self).spec_count() == old(self).spec_count(),
            final(self).spec_active_count() == crange(count as int, 0, old(self).spec_count()),
            final(self).spec_active_list() == old(self).spec_active_list(),
            final(self).spec_unlocked_list() == old(self).spec_unlocked_list(),
            final(self).spec_unlocked() == old(self).spec_unlocked(),
    {
        self.active_count = if count < 0 {
            0
        } else if count > self.count {
            self.count
        } else {
            count
        };
    }

    pub fn is_production_unlocked(&self, key: &str) -> (r: bool)
        ensures
            r == self.spec_prod_unlocked(key@),
    {
        list_has(&self.unlocked_productions, key)
    }

    pub fn is_production_active(&self, key: &str) -> (r: bool)
        ensures
            r == self.spec_active(key@),
    {
        list_has(&self.active_productions, key)
    }

    fn asset_has_production(&self, key: &str) -> (r: bool)
        ensures
            r == self.spec_has_production(key@),
    {
        let mut j: usize = 0;
        while j < self.productions.len()
            invariant
                0 <= j <= self.productions@.len(),
                forall|jj: int|
                    0 <= jj < j ==> (#[trigger] self.productions@[jj]).name@ != key@,
            decreases self.productions@.len() - j,
        {
            if str_eq(self.productions[j].name.as_str(), key) {
                proof {
                    assert(self.spec_productions()[j as int].name@ == key@);
                }
                return true;
            }
            j = j + 1;
        }
        false
    }

    /// Unlock a production the asset declares; an undeclared key changes
    /// nothing.
    pub fn unlock_production(&mut self, key: &str)
        requires
            old(self).wf(),
        ensures
            final(self).wf(),
            Building::same_asset(*old(self), *final(self)),
            Building::same_calculated(*old(self), *final(self)),
            final(self).spec_count() == old(self).spec_count(),
            final(self).spec_active_count() == old(self).spec_active_count(),
            final(self).spec_active_list() == old(self).spec_active_list(),
            final(self).spec_unlocked() == old(self).spec_unlocked(),
            forall|m: Seq<char>| #[trigger]
                final(self).spec_prod_unlocked(m) == (old(self).spec_prod_unlocked(m) || (m
                    == key@ && old(self).spec_has_production(key@))),
    {
        if self.asset_has_production(key) {
            list_insert(&mut self.unlocked_productions, key.to_owned());
        }
    }

    /// Activate or deactivate an unlocked production; `"default"` can never
    /// be changed, and a locked production is left alone.
    pub fn set_active_production(&mut self, key: &str, active: bool)
        requires
            old(self).wf(),
        ensures
            final(self).wf(),
            Building::same_asset(*old(self), *final(self)),
            Building::same_calculated(*old(self), *final(self)),
            final(self).spec_count() == old(self).spec_count(),
            final(self).spec_active_count() == old(self).spec_active_count(),
            final(self).spec_unlocked_list() == old(self).spec_unlocked_list(),
            final(self).spec_unlocked() == old(self).spec_unlocked(),
            forall|m: Seq<char>| #[trigger]
                final(self).spec_active(m) == if m == key@ && key@ != "default"@
                    && old(self).spec_prod_unlocked(key@) {
                    active
                } else {
                    old(self).spec_active(m)
                },
    {
        if str_eq(key, "default") {
            return ;
        }
        if self.is_production_unlocked(key) {
            if active {
                list_insert(&mut self.active_productions, key.to_owned());
            } else {
                list_remove(&mut self.active_productions, key);
            }
        }
    }

    /// The last calculated upkeep, by resource name.
    pub fn calculated_upkeeps(&self) -> (r: &ResourceStorage)
        ensures
            *r == self.spec_calc_upkeeps(),
    {
        &self.calculated_upkeeps
    }

    /// The last calculated output, by resource name.
    pub fn calculated_outputs(&self) -> (r: &ResourceStorage)
        ensures
            *r == self.spec_calc_outputs(),
    {
        &self.calculated_outputs
    }

    /// The last calculated emitted modifiers.
    pub fn calculated_modifiers(&self) -> (r: &ModifierStorage)
        ensures
            *r == self.spec_calc_modifiers(),
    {
        &self.calculated_modifiers
    }

    /// The last calculated storage contribution, by resource name.
    pub fn calculated_storages(&self) -> (r: &ResourceStorage)
        ensures
            *r == self.spec_calc_storages(),
    {
        &self.calculated_storages
    }

    /// The last calculated price, by resource name.
    pub fn calculated_prices(&self) -> (r: &ResourceStorage)
        ensures
            *r == self.spec_calc_prices(),
    {
        &self.calculated_prices
    }

    /// One quantity value run through the modifier-composition formula.
    fn create_modified_value(
        &self,
        original_value: Fp,
        q: QuantityKind,
        modifier_storage: &ModifierStorage,
    ) -> (r: Fp)
        requires
            modifier_storage.wf(),
            fp_valid(original_value as int),
        ensures
            r as int == modified_quantity(
                *modifier_storage,
                self.spec_name(),
                self.spec_category(),
                quantity_key(q),
                original_value as int,
                self.spec_active_count(),
            ),
            fp_valid(r as int),
            r >= 0,
    {
        let qs: &str = match q {
            QuantityKind::Upkeep => "upkeep",
            QuantityKind::Output => "output",
            QuantityKind::Storage => "storage",
        };
        let nk = build_scope_key("building", ".name.", self.name.as_str(), qs);
        let ck = build_scope_key("building", ".category.", self.category.as_str(), qs);
        let gk = build_global_key("building", ".global.", qs);
        let b = fp_add(
            fp_add(
                modifier_storage.value(nk.as_str(), ModifierCalculationMethod::Base),
                modifier_storage.value(ck.as_str(), ModifierCalculationMethod::Base),
            ),
            modifier_storage.value(gk.as_str(), ModifierCalculationMethod::Base),
        );
        let a = fp_add(
            fp_add(
                modifier_storage.value(nk.as_str(), ModifierCalculationMethod::Additive),
                modifier_storage.value(ck.as_str(), ModifierCalculationMethod::Additive),
            ),
            modifier_storage.value(gk.as_str(), ModifierCalculationMethod::Additive),
        );
        let f = fp_add(
            fp_add(
                modifier_storage.value(nk.as_str(), ModifierCalculationMethod::Flat),
                modifier_storage.value(ck.as_str(), ModifierCalculationMethod::Flat),
            ),
            modifier_storage.value(gk.as_str(), ModifierCalculationMethod::Flat),
        );
        let sp = modifier_storage.value("global.speed", ModifierCalculationMethod::Additive);
        let v1 = fp_add(original_value, b);
        let v2 = fp_mul(v1, fp_add(FP_SCALE, a));
        let v3 = fp_add(v2, f);
        let v4 = fp_mul(v3, fp_add(FP_SCALE, sp));
        let v5 = fp_muli(v4, self.active_count as i64);
        fp_floor(fp_max(v5, 0))
    }

    /// One price value run through the price formula.
    fn create_modified_price(&self, original_value: Fp, modifier_storage: &ModifierStorage) -> (r:
        Fp)
        requires
            self.wf(),
            modifier_storage.wf(),
            fp_valid(original_value as int),
        ensures
            r as int == modified_price(
                *modifier_storage,
                "building"@,
                self.spec_name(),
                self.spec_category(),
                self.spec_price_multiplier(),
                self.spec_count() as nat,
                original_value as int,
            ),
            fp_valid(r as int),
            r >= 0,
    {
        compute_price(
            modifier_storage,
            "building",
            self.name.as_str(),
            self.category.as_str(),
            self.price_multiplier,
            self.count as u32,
            original_value,
        )
    }

    /// Recompute every snapshot from scratch under a modifier snapshot: the
    /// active productions' upkeeps, outputs and storages run through the
    /// modifier formula, their modifier declarations scaled by the active
    /// count, and the asset's prices run through the price formula.
    #[verifier::loop_isolation(false)]
    pub fn calculate(&mut self, modifier_storage: &ModifierStorage)
        requires
            old(self).wf(),
            modifier_storage.wf(),
        ensures
            final(self).wf(),
            Building::same_state(*old(self), *final(self)),
            upkeeps_at(
                *final(self),
                old(self).spec_productions(),
                old(self).spec_active_list(),
                *modifier_storage,
                old(self).spec_name(),
                old(self).spec_category(),
                old(self).spec_active_count(),
                old(self).spec_productions().len() as int,
            ),
            outputs_at(
                *final(self),
                old(self).spec_productions(),
                old(self).spec_active_list(),
                *modifier_storage,
                old(self).spec_name(),
                old(self).spec_category(),
                old(self).spec_active_count(),
                old(self).spec_productions().len() as int,
            ),
            storages_at(
                *final(self),
                old(self).spec_productions(),
                old(self).spec_active_list(),
                *modifier_storage,
                old(self).spec_name(),
                old(self).spec_category(),
                old(self).spec_active_count(),
                old(self).spec_productions().len() as int,
            ),
            modifiers_at(
                *final(self),
                old(self).spec_productions(),
                old(self).spec_active_list(),
                old(self).spec_active_count(),
                old(self).spec_productions().len() as int,
            ),
            prices_at(
                *final(self),
                old(self).spec_prices(),
                *modifier_storage,
                "building"@,
                old(self).spec_name(),
                old(self).spec_category(),
                old(self).spec_price_multiplier(),
                old(self).spec_count() as nat,
                old(self).spec_prices().len() as int,
            ),
    {
        let ghost prods = old(self).spec_productions();
        let ghost actives = old(self).spec_active_list();
        let ghost ms = *modifier_storage;
        let ghost bn = old(self).spec_name();
        let ghost bc = old(self).spec_category();
        let ghost ac = old(self).spec_active_count();

        self.calculated_upkeeps.clear();
        self.calculated_outputs.clear();
        self.calculated_modifiers.clear();
        self.calculated_storages.clear();
        self.calculated_prices.clear();

        let mut pi: usize = 0;
        while pi < self.productions.len()
            invariant
                0 <= pi <= prods.len(),
                Building::same_state(*old(self), *self),
                upkeeps_at(*self, prods, actives, ms, bn, bc, ac, pi as int),
                outputs_at(*self, prods, actives, ms, bn, bc, ac, pi as int),
                storages_at(*self, prods, actives, ms, bn, bc, ac, pi as int),
                modifiers_at(*self, prods, actives, ac, pi as int),
                prices_zero(*self),
            decreases prods.len() - pi,
        {
            let is_active = list_has(
                &self.active_productions,
                self.productions[pi].name.as_str(),
            );
            proof {
                assert(prods_wf(prods));
                assert(prods[pi as int].wf());
            }
            if is_active {
                let mut ei: usize = 0;
                while ei < self.productions[pi].upkeeps.len()
                    invariant
                        0 <= ei <= prods[pi as int].upkeeps@.len(),
                        pi < prods.len(),
                        names_has(actives, prods[pi as int].name@),
                        Building::same_state(*old(self), *self),
                        outputs_at(*self, prods, actives, ms, bn, bc, ac, pi as int),
                        storages_at(*self, prods, actives, ms, bn, bc, ac, pi as int),
                        modifiers_at(*self, prods, actives, ac, pi as int),
                        prices_zero(*self),
                        self.spec_calc_upkeeps().wf(),
                        forall|n: Seq<char>| #[trigger]
                            self.spec_calc_upkeeps().spec_value(n) == amounts_emitted(
                                prods_quantity(
                                    prods,
                                    actives,
                                    ms,
                                    bn,
                                    bc,
                                    QuantityKind::Upkeep,
                                    ac,
                                    n,
                                    pi as int,
                                ),
                                prods[pi as int].upkeeps@,
                                ms,
                                bn,
                                bc,
                                "upkeep"@,
                                ac,
                                n,
                                ei as int,
                            ),
                        forall|n: Seq<char>| #[trigger]
                            self.spec_calc_upkeeps().has_name(n) == (prods_quantity_has(
                                prods,
                                actives,
                                QuantityKind::Upkeep,
                                n,
                                pi as int,
                            ) || amounts_has(prods[pi as int].upkeeps@, n, ei as int)),
                    decreases prods[pi as int].upkeeps@.len() - ei,
                {
                    let nm = self.productions[pi].upkeeps[ei].name.as_str().to_owned();
                    let v = self.create_modified_value(
                        self.productions[pi].upkeeps[ei].value,
                        QuantityKind::Upkeep,
                        modifier_storage,
                    );
                    self.calculated_upkeeps.add(nm, v);
                    ei = ei + 1;
                }
                let mut ei: usize = 0;
                while ei < self.productions[pi].outputs.len()
                    invariant
                        0 <= ei <= prods[pi as int].outputs@.len(),
                        pi < prods.len(),
                        names_has(actives, prods[pi as int].name@),
                        Building::same_state(*old(self), *self),
                        upkeeps_at(*self, prods, actives, ms, bn, bc, ac, pi + 1),
                        storages_at(*self, prods, actives, ms, bn, bc, ac, pi as int),
                        modifiers_at(*self, prods, actives, ac, pi as int),
                        prices_zero(*self),
                        self.spec_calc_outputs().wf(),
                        forall|n: Seq<char>| #[trigger]
                            self.spec_calc_outputs().spec_value(n) == amounts_emitted(
                                prods_quantity(
                                    prods,
                                    actives,
                                    ms,
                                    bn,
                                    bc,
                                    QuantityKind::Output,
                                    ac,
                                    n,
                                    pi as int,
                                ),
                                prods[pi as int].outputs@,
                                ms,
                                bn,
                                bc,
                                "output"@,
                                ac,
                                n,
                                ei as int,
                            ),
                    decreases prods[pi as int].outputs@.len() - ei,
                {
                    let nm = self.productions[pi].outputs[ei].name.as_str().to_owned();
                    let v = self.create_modified_value(
                        self.productions[pi].outputs[ei].value,
                        QuantityKind::Output,
                        modifier_storage,
                    );
                    self.calculated_outputs.add(nm, v);
                    ei = ei + 1;
                }
                self.calculated_modifiers.add_defs(
                    &self.productions[pi].modifiers,
                    self.active_count as i64,
                );
                let mut ei: usize = 0;
                while ei < self.productions[pi].storages.len()
                    invariant
                        0 <= ei <= prods[pi as int].storages@.len(),
                        pi < prods.len(),
                        names_has(actives, prods[pi as int].name@),
                        Building::same_state(*old(self), *self),
                        upkeeps_at(*self, prods, actives, ms, bn, bc, ac, pi + 1),
                        outputs_at(*self, prods, actives, ms, bn, bc, ac, pi + 1),
                        modifiers_at(*self, prods, actives, ac, pi + 1),
                        prices_zero(*self),
                        self.spec_calc_storages().wf(),
                        forall|n: Seq<char>| #[trigger]
                            self.spec_calc_storages().spec_value(n) == amounts_emitted(
                                prods_quantity(
                                    prods,
                                    actives,
                                    ms,
                                    bn,
                                    bc,
                                    QuantityKind::Storage,
                                    ac,
                                    n,
                                    pi as int,
                                ),
                                prods[pi as int].storages@,
                                ms,
                                bn,
                                bc,
                                "storage"@,
                                ac,
                                n,
                                ei as int,
                            ),
                    decreases prods[pi as int].storages@.len() - ei,
                {
                    let nm = self.productions[pi].storages[ei].name.as_str().to_owned();
                    let v = self.create_modified_value(
                        self.productions[pi].storages[ei].value,
                        QuantityKind::Storage,
                        modifier_storage,
                    );
                    self.calculated_storages.add(nm, v);
                    ei = ei + 1;
                }
            } else {
                proof {
                    assert(!names_has(actives, prods[pi as int].name@));
                }
            }
            pi = pi + 1;
        }

        let mut qi: usize = 0;
        while qi < self.prices.len()
            invariant
                0 <= qi <= old(self).spec_prices().len(),
                Building::same_state(*old(self), *self),
                upkeeps_at(*self, prods, actives, ms, bn, bc, ac, prods.len() as int),
                outputs_at(*self, prods, actives, ms, bn, bc, ac, prods.len() as int),
                storages_at(*self, prods, actives, ms, bn, bc, ac, prods.len() as int),
                modifiers_at(*self, prods, actives, ac, prods.len() as int),
                prices_at(
                    *self,
                    old(self).spec_prices(),
                    ms,
                    "building"@,
                    bn,
                    bc,
                    old(self).spec_price_multiplier(),
                    old(self).spec_count() as nat,
                    qi as int,
                ),
            decreases old(self).spec_prices().len() - qi,
        {
            let nm = self.prices[qi].name.as_str().to_owned();
            let v = self.create_modified_price(self.prices[qi].value, modifier_storage);
            self.calculated_prices.add(nm, v);
            qi = qi + 1;
        }
    }
}

/// The upkeep snapshot stands at the fold over the first `upto` productions.
pub open spec fn upkeeps_at(
    b: Building,
    prods: Seq<ProductionDef>,
    actives: Seq<String>,
    ms: ModifierStorage,
    bn: Seq<char>,
    bc: Seq<char>,
    ac: int,
    upto: int,
) -> bool {
    &&& b.spec_calc_upkeeps().wf()
    &&& forall|n: Seq<char>| #[trigger]
        b.spec_calc_upkeeps().spec_value(n) == prods_quantity(
            prods,
            actives,
            ms,
            bn,
            bc,
            QuantityKind::Upkeep,
            ac,
            n,
            upto,
        )
    &&& forall|n: Seq<char>| #[trigger]
        b.spec_calc_upkeeps().has_name(n) == prods_quantity_has(
            prods,
            actives,
            QuantityKind::Upkeep,
            n,
            upto,
        )
}

/// The output snapshot stands at the fold over the first `upto` productions.
pub open spec fn outputs_at(
    b: Building,
    prods: Seq<ProductionDef>,
    actives: Seq<String>,
    ms: ModifierStorage,
    bn: Seq<char>,
    bc: Seq<char>,
    ac: int,
    upto: int,
) -> bool {
    &&& b.spec_calc_outputs().wf()
    &&& forall|n: Seq<char>| #[trigger]
        b.spec_calc_outputs().spec_value(n) == prods_quantity(
            prods,
            actives,
            ms,
            bn,
            bc,
            QuantityKind::Output,
            ac,
            n,
            upto,
        )
}

/// The storage snapshot stands at the fold over the first `upto` productions.
pub open spec fn storages_at(
    b: Building,
    prods: Seq<ProductionDef>,
    actives: Seq<String>,
    ms: ModifierStorage,
    bn: Seq<char>,
    bc: Seq<char>,
    ac: int,
    upto: int,
) -> bool {
    &&& b.spec_calc_storages().wf()
    &&& forall|n: Seq<char>| #[trigger]
        b.spec_calc_storages().spec_value(n) == prods_quantity(
            prods,
            actives,
            ms,
            bn,
            bc,
            QuantityKind::Storage,
            ac,
            n,
            upto,
        )
}

/// The emitted-modifier snapshot stands at the fold over the first `upto`
/// productions.
pub open spec fn modifiers_at(
    b: Building,
    prods: Seq<ProductionDef>,
    actives: Seq<String>,
    ac: int,
    upto: int,
) -> bool {
    &&& b.spec_calc_modifiers().wf()
    &&& forall|n: Seq<char>, m: ModifierCalculationMethod| #[trigger]
        b.spec_calc_modifiers().spec_value(n, m) == prods_modifiers(prods, actives, ac, n, m, upto)
}

/// The price snapshot stands at the fold over the first `upto` price entries.
pub open spec fn prices_at(
    b: Building,
    prices: Seq<AmountDef>,
    ms: ModifierStorage,
    scope: Seq<char>,
    bn: Seq<char>,
    bc: Seq<char>,
    pm: int,
    count: nat,
    upto: int,
) -> bool {
    &&& b.spec_calc_prices().wf()
    &&& forall|n: Seq<char>| #[trigger]
        b.spec_calc_prices().spec_value(n) == prices_value(prices, ms, scope, bn, bc, pm, count, n, upto)
}

/// The price snapshot is empty.
pub open spec fn prices_zero(b: Building) -> bool {
    &&& b.spec_calc_prices().wf()
    &&& forall|n: Seq<char>| #[trigger] b.spec_calc_prices().spec_value(n) == 0
}

/// The manager's drain test for one resource name: an unknown name counts as
/// drained.
pub open spec fn rm_drained(rm: ResourceManager, n: Seq<char>) -> bool {
    if rm.has_res(n) {
        rm.spec_res(n).spec_consumption() > rm.spec_res(n).spec_production() && rm.spec_res(
            n,
        ).spec_count() == 0
    } else {
        true
    }
}

/// Is some resource this building's calculated upkeep asks for drained?
pub open spec fn building_stalled(b: Building, rm: ResourceManager) -> bool {
    exists|i: int|
        0 <= i < b.spec_calc_upkeeps().spec_len() && rm_drained(
            rm,
            #[trigger] b.spec_calc_upkeeps().name_at(i),
        )
}

/// The same, decided before the building is calculated: does some active
/// production declare an upkeep on a drained resource?
pub open spec fn stalled_from(b0: Building, rm: ResourceManager) -> bool {
    exists|n: Seq<char>|
        #[trigger] prods_quantity_has(
            b0.spec_productions(),
            b0.spec_active_list(),
            QuantityKind::Upkeep,
            n,
            b0.spec_productions().len() as int,
        ) && rm_drained(rm, n)
}

/// How one building relates to itself across one `calculate` under a
/// modifier snapshot.
pub open spec fn post_calc_building(b0: Building, b1: Building, ms: ModifierStorage) -> bool {
    &&& Building::same_state(b0, b1)
    &&& b1.wf()
    &&& upkeeps_at(
        b1,
        b0.spec_productions(),
        b0.spec_active_list(),
        ms,
        b0.spec_name(),
        b0.spec_category(),
        b0.spec_active_count(),
        b0.spec_productions().len() as int,
    )
    &&& outputs_at(
        b1,
        b0.spec_productions(),
        b0.spec_active_list(),
        ms,
        b0.spec_name(),
        b0.spec_category(),
        b0.spec_active_count(),
        b0.spec_productions().len() as int,
    )
    &&& storages_at(
        b1,
        b0.spec_productions(),
        b0.spec_active_list(),
        ms,
        b0.spec_name(),
        b0.spec_category(),
        b0.spec_active_count(),
        b0.spec_productions().len() as int,
    )
    &&& modifiers_at(
        b1,
        b0.spec_productions(),
        b0.spec_active_list(),
        b0.spec_active_count(),
        b0.spec_productions().len() as int,
    )
    &&& prices_at(
        b1,
        b0.spec_prices(),
        ms,
        "building"@,
        b0.spec_name(),
        b0.spec_category(),
        b0.spec_price_multiplier(),
        b0.spec_count() as nat,
        b0.spec_prices().len() as int,
    )
}

/// What one building contributes to a manager aggregate of one quantity.
pub open spec fn bld_quantity(
    b0: Building,
    ms: ModifierStorage,
    qk: QuantityKind,
    n: Seq<char>,
) -> int {
    prods_quantity(
        b0.spec_productions(),
        b0.spec_active_list(),
        ms,
        b0.spec_name(),
        b0.spec_category(),
        qk,
        b0.spec_active_count(),
        n,
        b0.spec_productions().len() as int,
    )
}

/// The manager's aggregated upkeep over the first `upto` buildings; a stalled
/// building still contributes its upkeep, so the shortfall stays visible.
pub open spec fn mgr_upkeeps(bs: Seq<Building>, ms: ModifierStorage, n: Seq<char>, upto: int) -> int
    decreases upto,
{
    if upto <= 0 {
        0
    } else {
        cadd(mgr_upkeeps(bs, ms, n, upto - 1), bld_quantity(bs[upto - 1], ms, QuantityKind::Upkeep, n))
    }
}

/// The manager's aggregated output over the first `upto` buildings; a stalled
/// building contributes nothing.
pub open spec fn mgr_outputs(
    bs: Seq<Building>,
    ms: ModifierStorage,
    rm: ResourceManager,
    n: Seq<char>,
    upto: int,
) -> int
    decreases upto,
{
    if upto <= 0 {
        0
    } else {
        let prev = mgr_outputs(bs, ms, rm, n, upto - 1);
        if stalled_from(bs[upto - 1], rm) {
            prev
        } else {
            cadd(prev, bld_quantity(bs[upto - 1], ms, QuantityKind::Output, n))
        }
    }
}

/// The manager's aggregated storage over the first `upto` buildings; a
/// stalled building contributes nothing.
pub open spec fn mgr_storages(
    bs: Seq<Building>,
    ms: ModifierStorage,
    rm: ResourceManager,
    n: Seq<char>,
    upto: int,
) -> int
    decreases upto,
{
    if upto <= 0 {
        0
    } else {
        let prev = mgr_storages(bs, ms, rm, n, upto - 1);
        if stalled_from(bs[upto - 1], rm) {
            prev
        } else {
            cadd(prev, bld_quantity(bs[upto - 1], ms, QuantityKind::Storage, n))
        }
    }
}

/// The manager's aggregated emitted modifiers over the first `upto`
/// buildings; a stalled building contributes nothing.
pub open spec fn mgr_modifiers(
    bs: Seq<Building>,
    rm: ResourceManager,
    n: Seq<char>,
    m: ModifierCalculationMethod,
    upto: int,
) -> int
    decreases upto,
{
    if upto <= 0 {
        0
    } else {
        let prev = mgr_modifiers(bs, rm, n, m, upto - 1);
        if stalled_from(bs[upto - 1], rm) {
            prev
        } else {
            cadd(
                prev,
                prods_modifiers(
                    bs[upto - 1].spec_productions(),
                    bs[upto - 1].spec_active_list(),
                    bs[upto - 1].spec_active_count(),
                    n,
                    m,
                    bs[upto - 1].spec_productions().len() as int,
                ),
            )
        }
    }
}

/// Do two resource managers answer every drain and stock query alike?
pub open spec fn rm_equiv(a: ResourceManager, b: ResourceManager) -> bool {
    forall|n: Seq<char>|
        #![trigger a.has_res(n)]
        #![trigger b.has_res(n)]
        {
            &&& a.has_res(n) == b.has_res(n)
            &&& (a.has_res(n) ==> {
                &&& a.spec_res(n).spec_count() == b.spec_res(n).spec_count()
                &&& a.spec_res(n).spec_production() == b.spec_res(n).spec_production()
                &&& a.spec_res(n).spec_consumption() == b.spec_res(n).spec_consumption()
            })
        }
}

/// The formula reads the modifier snapshot only through its aggregates.
pub proof fn lemma_modified_quantity_ms(
    a: ModifierStorage,
    b: ModifierStorage,
    n: Seq<char>,
    c: Seq<char>,
    q: Seq<char>,
    v0: int,
    ac: int,
)
    requires
        crate::modifier::ms_equiv(a, b),
    ensures
        modified_quantity(a, n, c, q, v0, ac) == modified_quantity(b, n, c, q, v0, ac),
{
}

/// The price formula reads the modifier snapshot only through its aggregates.
pub proof fn lemma_modified_price_ms(
    a: ModifierStorage,
    b: ModifierStorage,
    scope: Seq<char>,
    n: Seq<char>,
    c: Seq<char>,
    pm: int,
    count: nat,
    v0: int,
)
    requires
        crate::modifier::ms_equiv(a, b),
    ensures
        modified_price(a, scope, n, c, pm, count, v0) == modified_price(b, scope, n, c, pm, count, v0),
{
}

proof fn lemma_amounts_emitted_ms(
    a: ModifierStorage,
    b: ModifierStorage,
    base: int,
    entries: Seq<AmountDef>,
    bn: Seq<char>,
    bc: Seq<char>,
    q: Seq<char>,
    ac: int,
    n: Seq<char>,
    upto: int,
)
    requires
        crate::modifier::ms_equiv(a, b),
    ensures
        amounts_emitted(base, entries, a, bn, bc, q, ac, n, upto) == amounts_emitted(
            base,
            entries,
            b,
            bn,
            bc,
            q,
            ac,
            n,
            upto,
        ),
    decreases upto,
{
    if upto > 0 {
        lemma_amounts_emitted_ms(a, b, base, entries, bn, bc, q, ac, n, upto - 1);
        lemma_modified_quantity_ms(a, b, bn, bc, q, entries[upto - 1].value as int, ac);
    }
}

/// A quantity fold reads the modifier snapshot only through its aggregates.
pub proof fn lemma_prods_quantity_ms(
    a: ModifierStorage,
    b: ModifierStorage,
    prods: Seq<ProductionDef>,
    actives: Seq<String>,
    bn: Seq<char>,
    bc: Seq<char>,
    qk: QuantityKind,
    ac: int,
    n: Seq<char>,
    upto: int,
)
    requires
        crate::modifier::ms_equiv(a, b),
    ensures
        prods_quantity(prods, actives, a, bn, bc, qk, ac, n, upto) == prods_quantity(
            prods,
            actives,
            b,
            bn,
            bc,
            qk,
            ac,
            n,
            upto,
        ),
    decreases upto,
{
    if upto > 0 {
        lemma_prods_quantity_ms(a, b, prods, actives, bn, bc, qk, ac, n, upto - 1);
        {
            let p = prods[upto - 1];
            lemma_amounts_emitted_ms(
                a,
                b,
                prods_quantity(prods, actives, a, bn, bc, qk, ac, n, upto - 1),
                quantity_entries(p, qk),
                bn,
                bc,
                quantity_key(qk),
                ac,
                n,
                quantity_entries(p, qk).len() as int,
            );
        }
    }
}

/// A price fold reads the modifier snapshot only through its aggregates.
pub proof fn lemma_prices_value_ms(
    a: ModifierStorage,
    b: ModifierStorage,
    prices: Seq<AmountDef>,
    scope: Seq<char>,
    bn: Seq<char>,
    bc: Seq<char>,
    pm: int,
    count: nat,
    n: Seq<char>,
    upto: int,
)
    requires
        crate::modifier::ms_equiv(a, b),
    ensures
        prices_value(prices, a, scope, bn, bc, pm, count, n, upto) == prices_value(
            prices,
            b,
            scope,
            bn,
            bc,
            pm,
            count,
            n,
            upto,
        ),
    decreases upto,
{
    if upto > 0 {
        lemma_prices_value_ms(a, b, prices, scope, bn, bc, pm, count, n, upto - 1);
        {
            lemma_modified_price_ms(
                a,
                b,
                scope,
                bn,
                bc,
                pm,
                count,
                prices[upto - 1].value as int,
            );
        }
    }
}

/// The stall test reads the resource manager only through its drain answers.
pub proof fn lemma_stalled_from_rm(b0: Building, rm1: ResourceManager, rm2: ResourceManager)
    requires
        rm_equiv(rm1, rm2),
    ensures
        stalled_from(b0, rm1) == stalled_from(b0, rm2),
{
    let prods = b0.spec_productions();
    let actives = b0.spec_active_list();
    let full = prods.len() as int;
    if stalled_from(b0, rm1) {
        let n = choose|n: Seq<char>|
            #[trigger] prods_quantity_has(prods, actives, QuantityKind::Upkeep, n, full)
                && rm_drained(rm1, n);
        assert(rm_drained(rm2, n));
    }
    if stalled_from(b0, rm2) {
        let n = choose|n: Seq<char>|
            #[trigger] prods_quantity_has(prods, actives, QuantityKind::Upkeep, n, full)
                && rm_drained(rm2, n);
        assert(rm_drained(rm1, n));
    }
}

/// The manager folds read their surroundings only through the modifier
/// aggregates and the drain answers.
pub proof fn lemma_mgr_folds_equiv(
    bs: Seq<Building>,
    ms1: ModifierStorage,
    ms2: ModifierStorage,
    rm1: ResourceManager,
    rm2: ResourceManager,
    n: Seq<char>,
    m: ModifierCalculationMethod,
    upto: int,
)
    requires
        crate::modifier::ms_equiv(ms1, ms2),
        rm_equiv(rm1, rm2),
    ensures
        mgr_upkeeps(bs, ms1, n, upto) == mgr_upkeeps(bs, ms2, n, upto),
        mgr_outputs(bs, ms1, rm1, n, upto) == mgr_outputs(bs, ms2, rm2, n, upto),
        mgr_storages(bs, ms1, rm1, n, upto) == mgr_storages(bs, ms2, rm2, n, upto),
        mgr_modifiers(bs, rm1, n, m, upto) == mgr_modifiers(bs, rm2, n, m, upto),
    decreases upto,
{
    if upto > 0 {
        lemma_mgr_folds_equiv(bs, ms1, ms2, rm1, rm2, n, m, upto - 1);
        {
            let b = bs[upto - 1];
            lemma_stalled_from_rm(b, rm1, rm2);
            lemma_prods_quantity_ms(
                ms1,
                ms2,
                b.spec_productions(),
                b.spec_active_list(),
                b.spec_name(),
                b.spec_category(),
                QuantityKind::Upkeep,
                b.spec_active_count(),
                n,
                b.spec_productions().len() as int,
            );
            lemma_prods_quantity_ms(
                ms1,
                ms2,
                b.spec_productions(),
                b.spec_active_list(),
                b.spec_name(),
                b.spec_category(),
                QuantityKind::Output,
                b.spec_active_count(),
                n,
                b.spec_productions().len() as int,
            );
            lemma_prods_quantity_ms(
                ms1,
                ms2,
                b.spec_productions(),
                b.spec_active_list(),
                b.spec_name(),
                b.spec_category(),
                QuantityKind::Storage,
                b.spec_active_count(),
                n,
                b.spec_productions().len() as int,
            );
        }
    }
}

/// Whether a building stalls depends only on its state, not its snapshots.
pub proof fn lemma_stalled_from_congruent(b1: Building, b2: Building, rm: ResourceManager)
    requires
        Building::same_state(b1, b2),
    ensures
        stalled_from(b1, rm) == stalled_from(b2, rm),
{
}

/// What a list of buildings contributes to the manager aggregates depends
/// only on their state, not on their previous snapshots.
pub proof fn lemma_mgr_folds_congruent(
    bs1: Seq<Building>,
    bs2: Seq<Building>,
    ms: ModifierStorage,
    rm: ResourceManager,
    n: Seq<char>,
    m: ModifierCalculationMethod,
    upto: int,
)
    requires
        upto <= bs1.len(),
        upto <= bs2.len(),
        forall|i: int| 0 <= i < upto ==> Building::same_state(#[trigger] bs1[i], bs2[i]),
    ensures
        mgr_upkeeps(bs1, ms, n, upto) == mgr_upkeeps(bs2, ms, n, upto),
        mgr_outputs(bs1, ms, rm, n, upto) == mgr_outputs(bs2, ms, rm, n, upto),
        mgr_storages(bs1, ms, rm, n, upto) == mgr_storages(bs2, ms, rm, n, upto),
        mgr_modifiers(bs1, rm, n, m, upto) == mgr_modifiers(bs2, rm, n, m, upto),
    decreases upto,
{
    if upto > 0 {
        lemma_mgr_folds_congruent(bs1, bs2, ms, rm, n, m, upto - 1);
        lemma_stalled_from_congruent(bs1[upto - 1], bs2[upto - 1], rm);
    }
}

/// Are all buildings of a list well-formed?
pub open spec fn buildings_wf(bs: Seq<Building>) -> bool {
    forall|i: int| 0 <= i < bs.len() ==> (#[trigger] bs[i]).wf()
}

/// Does each building of the list carry its own name?
pub open spec fn bld_names_unique(bs: Seq<Building>) -> bool {
    forall|i: int, j: int| 0 <= i < j < bs.len() ==> bs[i].spec_name() != bs[j].spec_name()
}

/// What a per-building mutation leaves alone: the asset data, the two
/// production lists and every calculated snapshot.
pub open spec fn bld_mutation_frame(b0: Building, b1: Building) -> bool {
    &&& Building::same_asset(b0, b1)
    &&& Building::same_calculated(b0, b1)
    &&& b1.spec_active_list() == b0.spec_active_list()
    &&& b1.spec_unlocked_list() == b0.spec_unlocked_list()
}

fn is_building_stalled(b: &Building, resource_manager: &ResourceManager) -> (r: bool)
    requires
        resource_manager.wf(),
        b.spec_calc_upkeeps().wf(),
    ensures
        r == building_stalled(*b, *resource_manager),
{
    let upkeeps = b.calculated_upkeeps();
    let len = upkeeps.len();
    let mut i: usize = 0;
    while i < len
        invariant
            len as int == upkeeps.spec_len(),
            *upkeeps == b.spec_calc_upkeeps(),
            0 <= i <= len,
            resource_manager.wf(),
            upkeeps.wf(),
            forall|ii: int| 0 <= ii < i ==> !rm_drained(*resource_manager, #[trigger] upkeeps.name_at(ii)),
        decreases len - i,
    {
        if resource_manager.is_drained(upkeeps.name_of(i)) {
            return true;
        }
        i = i + 1;
    }
    false
}

/// Owns the buildings, aggregates their upkeeps, outputs, emitted modifiers
/// and storages, and stalls the buildings whose upkeep resource is drained.
pub struct BuildingManager {
    buildings: Vec<Building>,
    calculated_upkeeps: ResourceStorage,
    calculated_outputs: ResourceStorage,
    calculated_modifiers: ModifierStorage,
    calculated_storages: ResourceStorage,
}

impl BuildingManager {
    pub closed spec fn spec_buildings(self) -> Seq<Building> {
        self.buildings@
    }

    pub closed spec fn spec_calc_upkeeps(self) -> ResourceStorage {
        self.calculated_upkeeps
    }

    pub closed spec fn spec_calc_outputs(self) -> ResourceStorage {
        self.calculated_outputs
    }

    pub closed spec fn spec_calc_modifiers(self) -> ModifierStorage {
        self.calculated_modifiers
    }

    pub closed spec fn spec_calc_storages(self) -> ResourceStorage {
        self.calculated_storages
    }

    pub open spec fn bld_len(self) -> int {
        self.spec_buildings().len() as int
    }

    pub open spec fn has_bld(self, name: Seq<char>) -> bool {
        exists|i: int|
            0 <= i < self.bld_len() && (#[trigger] self.spec_buildings()[i]).spec_name() == name
    }

    pub closed spec fn index_of_bld(self, name: Seq<char>) -> int {
        choose|i: int|
            0 <= i < self.bld_len() && (#[trigger] self.spec_buildings()[i]).spec_name() == name
    }

    /// The building registered under a name.
    pub open spec fn spec_bld(self, name: Seq<char>) -> Building
        recommends
            self.has_bld(name),
    {
        self.spec_buildings()[self.index_of_bld(name)]
    }

    pub open spec fn wf(self) -> bool {
        &&& bld_names_unique(self.spec_buildings())
        &&& buildings_wf(self.spec_buildings())
        &&& self.spec_calc_upkeeps().wf()
        &&& self.spec_calc_outputs().wf()
        &&& self.spec_calc_modifiers().wf()
        &&& self.spec_calc_storages().wf()
    }

    proof fn lemma_bld_at(self, i: int)
        requires
            bld_names_unique(self.spec_buildings()),
            0 <= i < self.bld_len(),
        ensures
            self.has_bld(self.spec_buildings()[i].spec_name()),
            self.spec_bld(self.spec_buildings()[i].spec_name()) == self.spec_buildings()[i],
    {
        let n = self.spec_buildings()[i].spec_name();
        assert(self.has_bld(n));
        let j = self.index_of_bld(n);
        if i != j {
            assert(self.spec_buildings()[i].spec_name() != self.spec_buildings()[j].spec_name());
        }
    }

    /// The building registered under a name carries that name.
    pub proof fn lemma_spec_bld_name(self, name: Seq<char>)
        requires
            self.has_bld(name),
        ensures
            self.spec_bld(name).spec_name() == name,
    {
    }

    pub fn new() -> (r: BuildingManager)
        ensures
            r.wf(),
            r.bld_len() == 0,
            forall|n: Seq<char>| !(#[trigger] r.has_bld(n)),
            forall|n: Seq<char>| #[trigger] r.spec_calc_upkeeps().spec_value(n) == 0,
            forall|n: Seq<char>| #[trigger] r.spec_calc_outputs().spec_value(n) == 0,
            forall|n: Seq<char>, m: ModifierCalculationMethod| #[trigger]
                r.spec_calc_modifiers().spec_value(n, m) == 0,
            forall|n: Seq<char>| #[trigger] r.spec_calc_storages().spec_value(n) == 0,
    {
        BuildingManager {
            buildings: Vec::new(),
            calculated_upkeeps: ResourceStorage::new(),
            calculated_outputs: ResourceStorage::new(),
            calculated_modifiers: ModifierStorage::new(),
            calculated_storages: ResourceStorage::new(),
        }
    }

    fn find_bld(&self, name: &str) -> (r: Option<usize>)
        ensures
            match r {
                Some(i) => i < self.spec_buildings().len() && self.spec_buildings()[
                    i as int
                ].spec_name() == name@,
                None => !self.has_bld(name@),
            },
    {
        let mut j: usize = 0;
        while j < self.buildings.len()
            invariant
                0 <= j <= self.spec_buildings().len(),
                forall|jj: int|
                    0 <= jj < j ==> (#[trigger] self.spec_buildings()[jj]).spec_name() != name@,
            decreases self.spec_buildings().len() - j,
        {
            if str_eq(self.buildings[j].name(), name) {
                return Some(j);
            }
            j = j + 1;
        }
        None
    }

    /// The building registered under a name, if any.
    pub fn get(&self, name: &str) -> (r: Option<&Building>)
        requires
            self.wf(),
        ensures
            match r {
                Some(b) => self.has_bld(name@) && *b == self.spec_bld(name@),
                None => !self.has_bld(name@),
            },
    {
        match self.find_bld(name) {
            Some(i) => {
                proof {
                    self.lemma_bld_at(i as int);
                }
                Some(&self.buildings[i])
            },
            None => None,
        }
    }

    /// Register a building under its name, replacing one already there.
    pub fn add(&mut self, building: Building)
        requires
            old(self).wf(),
            building.wf(),
        ensures
            final(self).wf(),
            forall|n: Seq<char>| #[trigger]
                final(self).has_bld(n) == (old(self).has_bld(n) || n == building.spec_name()),
            final(self).spec_bld(building.spec_name()) == building,
            forall|n: Seq<char>|
                n != building.spec_name() && old(self).has_bld(n)
                    ==> #[trigger] final(self).spec_bld(n) == old(self).spec_bld(n),
            final(self).spec_calc_upkeeps() == old(self).spec_calc_upkeeps(),
            final(self).spec_calc_outputs() == old(self).spec_calc_outputs(),
            final(self).spec_calc_modifiers() == old(self).spec_calc_modifiers(),
            final(self).spec_calc_storages() == old(self).spec_calc_storages(),
    {
        let ghost s0 = *self;
        match self.find_bld(building.name()) {
            Some(i) => {
                let _old_entry = self.buildings.swap_remove(i);
                self.buildings.push(building);
                proof {
                    self.lemma_add_bld_found(s0, i as int, building);
                }
            },
            None => {
                self.buildings.push(building);
                proof {
                    self.lemma_add_bld_absent(s0, building);
                }
            },
        }
    }

    proof fn lemma_add_bld_found(self, s0: BuildingManager, i: int, building: Building)
        requires
            s0.wf(),
            building.wf(),
            0 <= i < s0.bld_len(),
            s0.spec_buildings()[i].spec_name() == building.spec_name(),
            self.spec_buildings() == s0.spec_buildings().update(
                i,
                s0.spec_buildings().last(),
            ).drop_last().push(building),
            self.spec_calc_upkeeps() == s0.spec_calc_upkeeps(),
            self.spec_calc_outputs() == s0.spec_calc_outputs(),
            self.spec_calc_modifiers() == s0.spec_calc_modifiers(),
            self.spec_calc_storages() == s0.spec_calc_storages(),
        ensures
            self.wf(),
            forall|n: Seq<char>| #[trigger]
                self.has_bld(n) == (s0.has_bld(n) || n == building.spec_name()),
            self.spec_bld(building.spec_name()) == building,
            forall|n: Seq<char>|
                n != building.spec_name() && s0.has_bld(n) ==> #[trigger] self.spec_bld(n)
                    == s0.spec_bld(n),
    {
        let len = s0.bld_len();
        let name = building.spec_name();
        assert(self.bld_len() == len);
        assert forall|j: int| 0 <= j < len - 1 && j != i implies self.spec_buildings()[j]
            == s0.spec_buildings()[j] by {}
        if i < len - 1 {
            assert(self.spec_buildings()[i] == s0.spec_buildings()[len - 1]);
        }
        assert(self.spec_buildings()[len - 1] == building);

        assert forall|j1: int, j2: int| 0 <= j1 < j2 < len implies self.spec_buildings()[
            j1
        ].spec_name() != self.spec_buildings()[j2].spec_name() by {
            let o1 = if j1 == len - 1 { i } else if j1 == i && i < len - 1 { len - 1 } else { j1 };
            let o2 = if j2 == len - 1 { i } else if j2 == i && i < len - 1 { len - 1 } else { j2 };
            if j1 == len - 1 {
                assert(self.spec_buildings()[j1].spec_name() == s0.spec_buildings()[
                    o1
                ].spec_name());
            } else {
                assert(self.spec_buildings()[j1] == s0.spec_buildings()[o1]);
            }
            if j2 == len - 1 {
                assert(self.spec_buildings()[j2].spec_name() == s0.spec_buildings()[
                    o2
                ].spec_name());
            } else {
                assert(self.spec_buildings()[j2] == s0.spec_buildings()[o2]);
            }
            assert(o1 != o2);
        }
        assert(bld_names_unique(self.spec_buildings()));
        assert forall|j: int| 0 <= j < len implies (#[trigger] self.spec_buildings()[
            j
        ]).wf() by {
            if j == len - 1 {
            } else if j == i && i < len - 1 {
                assert(self.spec_buildings()[j] == s0.spec_buildings()[len - 1]);
            } else {
                assert(self.spec_buildings()[j] == s0.spec_buildings()[j]);
            }
        }
        assert(self.wf());

        self.lemma_bld_at(len - 1);
        assert(self.spec_bld(name) == building);

        assert forall|n: Seq<char>| #[trigger]
            self.has_bld(n) == (s0.has_bld(n) || n == name) by {
            if n == name {
                assert(self.spec_buildings()[len - 1].spec_name() == n);
                assert(s0.spec_buildings()[i].spec_name() == n);
            } else {
                if s0.has_bld(n) {
                    let j = s0.index_of_bld(n);
                    let j_new = if j == len - 1 && i < len - 1 {
                        i
                    } else {
                        j
                    };
                    assert(j != i);
                    assert(self.spec_buildings()[j_new].spec_name() == n);
                }
                if self.has_bld(n) {
                    let j = self.index_of_bld(n);
                    assert(j != len - 1);
                    let o = if j == i && i < len - 1 {
                        len - 1
                    } else {
                        j
                    };
                    assert(s0.spec_buildings()[o].spec_name() == n);
                }
            }
        }
        assert forall|n: Seq<char>|
            n != name && s0.has_bld(n) implies #[trigger] self.spec_bld(n) == s0.spec_bld(n) by {
            let j = s0.index_of_bld(n);
            s0.lemma_bld_at(j);
            assert(j != i);
            let j_new = if j == len - 1 && i < len - 1 {
                i
            } else {
                j
            };
            assert(self.spec_buildings()[j_new] == s0.spec_buildings()[j]);
            self.lemma_bld_at(j_new);
        }
    }

    proof fn lemma_add_bld_absent(self, s0: BuildingManager, building: Building)
        requires
            s0.wf(),
            building.wf(),
            !s0.has_bld(building.spec_name()),
            self.spec_buildings() == s0.spec_buildings().push(building),
            self.spec_calc_upkeeps() == s0.spec_calc_upkeeps(),
            self.spec_calc_outputs() == s0.spec_calc_outputs(),
            self.spec_calc_modifiers() == s0.spec_calc_modifiers(),
            self.spec_calc_storages() == s0.spec_calc_storages(),
        ensures
            self.wf(),
            forall|n: Seq<char>| #[trigger]
                self.has_bld(n) == (s0.has_bld(n) || n == building.spec_name()),
            self.spec_bld(building.spec_name()) == building,
            forall|n: Seq<char>|
                n != building.spec_name() && s0.has_bld(n) ==> #[trigger] self.spec_bld(n)
                    == s0.spec_bld(n),
    {
        let len = s0.bld_len();
        let name = building.spec_name();
        assert(forall|j: int|
            0 <= j < len ==> self.spec_buildings()[j] == s0.spec_buildings()[j]);
        assert(self.spec_buildings()[len] == building);
        assert forall|j1: int, j2: int| 0 <= j1 < j2 < len + 1 implies self.spec_buildings()[
            j1
        ].spec_name() != self.spec_buildings()[j2].spec_name() by {
            assert(self.spec_buildings()[j1] == s0.spec_buildings()[j1]);
            if j2 == len {
                if s0.spec_buildings()[j1].spec_name() == name {
                    assert(s0.has_bld(name));
                }
            } else {
                assert(self.spec_buildings()[j2] == s0.spec_buildings()[j2]);
            }
        }
        assert forall|j: int| 0 <= j < len + 1 implies (#[trigger] self.spec_buildings()[
            j
        ]).wf() by {
            if j < len {
                assert(self.spec_buildings()[j] == s0.spec_buildings()[j]);
            }
        }
        assert(self.wf());
        self.lemma_bld_at(len);
        assert forall|n: Seq<char>| #[trigger]
            self.has_bld(n) == (s0.has_bld(n) || n == name) by {
            if s0.has_bld(n) {
                let j = s0.index_of_bld(n);
                assert(self.spec_buildings()[j].spec_name() == n);
            }
            if self.has_bld(n) && n != name {
                let j = self.index_of_bld(n);
                assert(j != len);
                assert(s0.spec_buildings()[j].spec_name() == n);
            }
        }
        assert forall|n: Seq<char>|
            n != name && s0.has_bld(n) implies #[trigger] self.spec_bld(n) == s0.spec_bld(n) by {
            let j = s0.index_of_bld(n);
            s0.lemma_bld_at(j);
            assert(self.spec_buildings()[j] == s0.spec_buildings()[j]);
            self.lemma_bld_at(j);
        }
    }

    /// Build a building from its asset and register it; an unknown modifier
    /// method string is reported and nothing changes.
    pub fn load_from_asset(&mut self, building_asset: BuildingAsset) -> (r: Result<(), String>)
        requires
            old(self).wf(),
        ensures
            final(self).wf(),
            match r {
                Ok(()) => {
                    &&& !prods_have_bad_method(building_asset.productions@)
                    &&& forall|n: Seq<char>| #[trigger]
                        final(self).has_bld(n) == (old(self).has_bld(n) || n
                            == building_asset.name@)
                    &&& building_fresh_from(
                        final(self).spec_bld(building_asset.name@),
                        building_asset,
                    )
                    &&& forall|n: Seq<char>|
                        n != building_asset.name@ && old(self).has_bld(n)
                            ==> #[trigger] final(self).spec_bld(n) == old(self).spec_bld(n)
                    &&& final(self).spec_calc_upkeeps() == old(self).spec_calc_upkeeps()
                    &&& final(self).spec_calc_outputs() == old(self).spec_calc_outputs()
                    &&& final(self).spec_calc_modifiers() == old(self).spec_calc_modifiers()
                    &&& final(self).spec_calc_storages() == old(self).spec_calc_storages()
                },
                Err(e) => {
                    &&& prods_have_bad_method(building_asset.productions@)
                    &&& e@ == "wrong modifier calculation method"@
                    &&& *final(self) == *old(self)
                },
            },
    {
        let building = match Building::from_asset(building_asset) {
            Ok(b) => b,
            Err(e) => {
                return Err(e);
            },
        };
        self.add(building);
        Ok(())
    }

    /// Unlock the building registered under a name; an unknown name changes
    /// nothing.
    pub fn unlock(&mut self, name: &str)
        requires
            old(self).wf(),
        ensures
            final(self).wf(),
            forall|n: Seq<char>| #[trigger] final(self).has_bld(n) == old(self).has_bld(n),
            old(self).has_bld(name@) ==> {
                &&& bld_mutation_frame(old(self).spec_bld(name@), final(self).spec_bld(name@))
                &&& final(self).spec_bld(name@).spec_count() == old(self).spec_bld(
                    name@,
                ).spec_count()
                &&& final(self).spec_bld(name@).spec_active_count() == old(self).spec_bld(
                    name@,
                ).spec_active_count()
                &&& final(self).spec_bld(name@).spec_unlocked()
            },
            forall|n: Seq<char>|
                n != name@ && old(self).has_bld(n)
                    ==> #[trigger] final(self).spec_bld(n) == old(self).spec_bld(n),
            final(self).spec_calc_upkeeps() == old(self).spec_calc_upkeeps(),
            final(self).spec_calc_outputs() == old(self).spec_calc_outputs(),
            final(self).spec_calc_modifiers() == old(self).spec_calc_modifiers(),
            final(self).spec_calc_storages() == old(self).spec_calc_storages(),
            !old(self).has_bld(name@) ==> *final(self) == *old(self),
    {
        let ghost s0 = *self;
        match self.find_bld(name) {
            Some(i) => {
                proof {
                    s0.lemma_bld_at(i as int);
                }
                let mut b = self.buildings.remove(i);
                b.unlock();
                self.buildings.push(b);
                proof {
                    self.lemma_bld_replace_at(s0, i as int, name@);
                }
            },
            None => {},
        }
    }

    proof fn lemma_bld_replace_at(self, s0: BuildingManager, i: int, name: Seq<char>)
        requires
            s0.wf(),
            0 <= i < s0.bld_len(),
            s0.spec_buildings()[i].spec_name() == name,
            self.spec_buildings() == s0.spec_buildings().remove(i).push(
                self.spec_buildings().last(),
            ),
            self.spec_buildings().last().wf(),
            self.spec_buildings().last().spec_name() == name,
            self.spec_calc_upkeeps() == s0.spec_calc_upkeeps(),
            self.spec_calc_outputs() == s0.spec_calc_outputs(),
            self.spec_calc_modifiers() == s0.spec_calc_modifiers(),
            self.spec_calc_storages() == s0.spec_calc_storages(),
        ensures
            self.wf(),
            forall|n: Seq<char>| #[trigger] self.has_bld(n) == s0.has_bld(n),
            self.spec_bld(name) == self.spec_buildings().last(),
            forall|n: Seq<char>|
                n != name && s0.has_bld(n) ==> #[trigger] self.spec_bld(n) == s0.spec_bld(n),
    {
        let len = s0.bld_len();
        let bs1 = self.spec_buildings();
        assert(bs1.len() == len);
        assert forall|j: int| 0 <= j < len - 1 implies bs1[j] == s0.spec_buildings()[
            (if j < i {
                j
            } else {
                j + 1
            })
        ] by {}
        assert forall|j1: int, j2: int| 0 <= j1 < j2 < len implies bs1[j1].spec_name() != bs1[
            j2
        ].spec_name() by {
            let o1 = if j1 < i {
                j1
            } else {
                j1 + 1
            };
            if j2 == len - 1 {
                assert(bs1[j1] == s0.spec_buildings()[o1]);
                if o1 != i {
                    assert(s0.spec_buildings()[o1].spec_name() != s0.spec_buildings()[
                        i
                    ].spec_name());
                }
            } else {
                let o2 = if j2 < i {
                    j2
                } else {
                    j2 + 1
                };
                assert(bs1[j1] == s0.spec_buildings()[o1]);
                assert(bs1[j2] == s0.spec_buildings()[o2]);
            }
        }
        assert forall|j: int| 0 <= j < len implies (#[trigger] bs1[j]).wf() by {
            if j < len - 1 {
                let o = if j < i {
                    j
                } else {
                    j + 1
                };
                assert(bs1[j] == s0.spec_buildings()[o]);
            }
        }
        assert(self.wf());
        self.lemma_bld_at(len - 1);
        assert forall|n: Seq<char>| #[trigger] self.has_bld(n) == s0.has_bld(n) by {
            if s0.has_bld(n) {
                let j = s0.index_of_bld(n);
                if j == i {
                    assert(bs1[len - 1].spec_name() == n);
                } else {
                    let j_new = if j < i {
                        j
                    } else {
                        j - 1
                    };
                    assert(bs1[j_new] == s0.spec_buildings()[j]);
                }
            }
            if self.has_bld(n) {
                let j = self.index_of_bld(n);
                if j == len - 1 {
                    assert(s0.spec_buildings()[i].spec_name() == n);
                } else {
                    let o = if j < i {
                        j
                    } else {
                        j + 1
                    };
                    assert(bs1[j] == s0.spec_buildings()[o]);
                }
            }
        }
        assert forall|n: Seq<char>|
            n != name && s0.has_bld(n) implies #[trigger] self.spec_bld(n) == s0.spec_bld(n) by {
            let j = s0.index_of_bld(n);
            s0.lemma_bld_at(j);
            assert(j != i);
            let j_new = if j < i {
                j
            } else {
                j - 1
            };
            assert(bs1[j_new] == s0.spec_buildings()[j]);
            self.lemma_bld_at(j_new);
        }
    }

    /// Unlock a production of the building registered under a name.
    pub fn unlock_production(&mut self, name: &str, production: &str)
        requires
            old(self).wf(),
        ensures
            final(self).wf(),
            forall|n: Seq<char>| #[trigger] final(self).has_bld(n) == old(self).has_bld(n),
            old(self).has_bld(name@) ==> {
                &&& Building::same_asset(old(self).spec_bld(name@), final(self).spec_bld(name@))
                &&& Building::same_calculated(
                    old(self).spec_bld(name@),
                    final(self).spec_bld(name@),
                )
                &&& final(self).spec_bld(name@).spec_count() == old(self).spec_bld(
                    name@,
                ).spec_count()
                &&& final(self).spec_bld(name@).spec_active_count() == old(self).spec_bld(
                    name@,
                ).spec_active_count()
                &&& final(self).spec_bld(name@).spec_unlocked() == old(self).spec_bld(
                    name@,
                ).spec_unlocked()
                &&& forall|m: Seq<char>| #[trigger]
                    final(self).spec_bld(name@).spec_prod_unlocked(m) == (old(self).spec_bld(
                        name@,
                    ).spec_prod_unlocked(m) || (m == production@ && old(self).spec_bld(
                        name@,
                    ).spec_has_production(production@)))
                &&& final(self).spec_bld(name@).spec_active_list() == old(self).spec_bld(
                    name@,
                ).spec_active_list()
            },
            forall|n: Seq<char>|
                n != name@ && old(self).has_bld(n)
                    ==> #[trigger] final(self).spec_bld(n) == old(self).spec_bld(n),
            final(self).spec_calc_upkeeps() == old(self).spec_calc_upkeeps(),
            final(self).spec_calc_outputs() == old(self).spec_calc_outputs(),
            final(self).spec_calc_modifiers() == old(self).spec_calc_modifiers(),
            final(self).spec_calc_storages() == old(self).spec_calc_storages(),
            !old(self).has_bld(name@) ==> *final(self) == *old(self),
    {
        let ghost s0 = *self;
        match self.find_bld(name) {
            Some(i) => {
                proof {
                    s0.lemma_bld_at(i as int);
                }
                let mut b = self.buildings.remove(i);
                b.unlock_production(production);
                self.buildings.push(b);
                proof {
                    self.lemma_bld_replace_at(s0, i as int, name@);
                }
            },
            None => {},
        }
    }

    /// Add built units to the building registered under a name.
    pub fn add_count(&mut self, name: &str, count: i32)
        requires
            old(self).wf(),
        ensures
            final(self).wf(),
            forall|n: Seq<char>| #[trigger] final(self).has_bld(n) == old(self).has_bld(n),
            old(self).has_bld(name@) ==> {
                &&& bld_mutation_frame(old(self).spec_bld(name@), final(self).spec_bld(name@))
                &&& final(self).spec_bld(name@).spec_count() == crange(
                    old(self).spec_bld(name@).spec_count() + count as int,
                    0,
                    i32::MAX as int,
                )
                &&& final(self).spec_bld(name@).spec_active_count() == if old(self).spec_bld(
                    name@,
                ).spec_active_count() <= final(self).spec_bld(name@).spec_count() {
                    old(self).spec_bld(name@).spec_active_count()
                } else {
                    final(self).spec_bld(name@).spec_count()
                }
                &&& final(self).spec_bld(name@).spec_unlocked() == old(self).spec_bld(
                    name@,
                ).spec_unlocked()
            },
            forall|n: Seq<char>|
                n != name@ && old(self).has_bld(n)
                    ==> #[trigger] final(self).spec_bld(n) == old(self).spec_bld(n),
            final(self).spec_calc_upkeeps() == old(self).spec_calc_upkeeps(),
            final(self).spec_calc_outputs() == old(self).spec_calc_outputs(),
            final(self).spec_calc_modifiers() == old(self).spec_calc_modifiers(),
            final(self).spec_calc_storages() == old(self).spec_calc_storages(),
            !old(self).has_bld(name@) ==> *final(self) == *old(self),
    {
        let ghost s0 = *self;
        match self.find_bld(name) {
            Some(i) => {
                proof {
                    s0.lemma_bld_at(i as int);
                }
                let mut b = self.buildings.remove(i);
                b.add_count(count);
                self.buildings.push(b);
                proof {
                    self.lemma_bld_replace_at(s0, i as int, name@);
                }
            },
            None => {},
        }
    }

    /// Set the built count of the building registered under a name.
    pub fn set_count(&mut self, name: &str, count: i32)
        requires
            old(self).wf(),
        ensures
            final(self).wf(),
            forall|n: Seq<char>| #[trigger] final(self).has_bld(n) == old(self).has_bld(n),
            old(self).has_bld(name@) ==> {
                &&& bld_mutation_frame(old(self).spec_bld(name@), final(self).spec_bld(name@))
                &&& final(self).spec_bld(name@).spec_count() == if count as int >= 0 {
                    count as int
                } else {
                    0
                }
                &&& final(self).spec_bld(name@).spec_active_count() == if old(self).spec_bld(
                    name@,
                ).spec_active_count() <= final(self).spec_bld(name@).spec_count() {
                    old(self).spec_bld(name@).spec_active_count()
                } else {
                    final(self).spec_bld(name@).spec_count()
                }
                &&& final(self).spec_bld(name@).spec_unlocked() == old(self).spec_bld(
                    name@,
                ).spec_unlocked()
            },
            forall|n: Seq<char>|
                n != name@ && old(self).has_bld(n)
                    ==> #[trigger] final(self).spec_bld(n) == old(self).spec_bld(n),
            final(self).spec_calc_upkeeps() == old(self).spec_calc_upkeeps(),
            final(self).spec_calc_outputs() == old(self).spec_calc_outputs(),
            final(self).spec_calc_modifiers() == old(self).spec_calc_modifiers(),
            final(self).spec_calc_storages() == old(self).spec_calc_storages(),
            !old(self).has_bld(name@) ==> *final(self) == *old(self),
    {
        let ghost s0 = *self;
        match self.find_bld(name) {
            Some(i) => {
                proof {
                    s0.lemma_bld_at(i as int);
                }
                let mut b = self.buildings.remove(i);
                b.set_count(count);
                self.buildings.push(b);
                proof {
                    self.lemma_bld_replace_at(s0, i as int, name@);
                }
            },
            None => {},
        }
    }

    /// Add active units to the building registered under a name.
    pub fn add_active_count(&mut self, name: &str, count: i32)
        requires
            old(self).wf(),
        ensures
            final(self).wf(),
            forall|n: Seq<char>| #[trigger] final(self).has_bld(n) == old(self).has_bld(n),
            old(self).has_bld(name@) ==> {
                &&& bld_mutation_frame(old(self).spec_bld(name@), final(self).spec_bld(name@))
                &&& final(self).spec_bld(name@).spec_count() == old(self).spec_bld(
                    name@,
                ).spec_count()
                &&& final(self).spec_bld(name@).spec_active_count() == crange(
                    old(self).spec_bld(name@).spec_active_count() + count as int,
                    0,
                    old(self).spec_bld(name@).spec_count(),
                )
                &&& final(self).spec_bld(name@).spec_unlocked() == old(self).spec_bld(
                    name@,
                ).spec_unlocked()
            },
            forall|n: Seq<char>|
                n != name@ && old(self).has_bld(n)
                    ==> #[trigger] final(self).spec_bld(n) == old(self).spec_bld(n),
            final(self).spec_calc_upkeeps() == old(self).spec_calc_upkeeps(),
            final(self).spec_calc_outputs() == old(self).spec_calc_outputs(),
            final(self).spec_calc_modifiers() == old(self).spec_calc_modifiers(),
            final(self).spec_calc_storages() == old(self).spec_calc_storages(),
            !old(self).has_bld(name@) ==> *final(self) == *old(self),
    {
        let ghost s0 = *self;
        match self.find_bld(name) {
            Some(i) => {
                proof {
                    s0.lemma_bld_at(i as int);
                }
                let mut b = self.buildings.remove(i);
                b.add_active_count(count);
                self.buildings.push(b);
                proof {
                    self.lemma_bld_replace_at(s0, i as int, name@);
                }
            },
            None => {},
        }
    }

    /// Set the active units of the building registered under a name.
    pub fn set_active_count(&mut self, name: &str, count: i32)
        requires
            old(self).wf(),
        ensures
            final(self).wf(),
            forall|n: Seq<char>| #[trigger] final(self).has_bld(n) == old(self).has_bld(n),
            old(self).has_bld(name@) ==> {
                &&& bld_mutation_frame(old(self).spec_bld(name@), final(self).spec_bld(name@))
                &&& final(self).spec_bld(name@).spec_count() == old(self).spec_bld(
                    name@,
                ).spec_count()
                &&& final(self).spec_bld(name@).spec_active_count() == crange(
                    count as int,
                    0,
                    old(self).spec_bld(name@).spec_count(),
                )
                &&& final(self).spec_bld(name@).spec_unlocked() == old(self).spec_bld(
                    name@,
                ).spec_unlocked()
            },
            forall|n: Seq<char>|
                n != name@ && old(self).has_bld(n)
                    ==> #[trigger] final(self).spec_bld(n) == old(self).spec_bld(n),
            final(self).spec_calc_upkeeps() == old(self).spec_calc_upkeeps(),
            final(self).spec_calc_outputs() == old(self).spec_calc_outputs(),
            final(self).spec_calc_modifiers() == old(self).spec_calc_modifiers(),
            final(self).spec_calc_storages() == old(self).spec_calc_storages(),
            !old(self).has_bld(name@) ==> *final(self) == *old(self),
    {
        let ghost s0 = *self;
        match self.find_bld(name) {
            Some(i) => {
                proof {
                    s0.lemma_bld_at(i as int);
                }
                let mut b = self.buildings.remove(i);
                b.set_active_count(count);
                self.buildings.push(b);
                proof {
                    self.lemma_bld_replace_at(s0, i as int, name@);
                }
            },
            None => {},
        }
    }

    /// One tick's building step: every building recomputes its snapshots
    /// under the given modifier snapshot; the manager aggregates upkeep from
    /// every building, and output, emitted modifiers and storage only from
    /// the buildings whose upkeep resources are not drained.
    #[verifier::loop_isolation(false)]
    pub fn calculate(
        &mut self,
        modifier_storage: &ModifierStorage,
        resource_manager: &ResourceManager,
    )
        requires
            old(self).wf(),
            modifier_storage.wf(),
            resource_manager.wf(),
        ensures
            final(self).wf(),
            final(self).bld_len() == old(self).bld_len(),
            forall|i: int|
                0 <= i < old(self).bld_len() ==> post_calc_building(
                    #[trigger] old(self).spec_buildings()[i],
                    final(self).spec_buildings()[i],
                    *modifier_storage,
                ),
            forall|n: Seq<char>| #[trigger] final(self).has_bld(n) == old(self).has_bld(n),
            forall|n: Seq<char>|
                old(self).has_bld(n) ==> post_calc_building(
                    old(self).spec_bld(n),
                    #[trigger] final(self).spec_bld(n),
                    *modifier_storage,
                ),
            forall|n: Seq<char>| #[trigger]
                final(self).spec_calc_upkeeps().spec_value(n) == mgr_upkeeps(
                    old(self).spec_buildings(),
                    *modifier_storage,
                    n,
                    old(self).bld_len(),
                ),
            forall|n: Seq<char>| #[trigger]
                final(self).spec_calc_outputs().spec_value(n) == mgr_outputs(
                    old(self).spec_buildings(),
                    *modifier_storage,
                    *resource_manager,
                    n,
                    old(self).bld_len(),
                ),
            forall|n: Seq<char>, m: ModifierCalculationMethod| #[trigger]
                final(self).spec_calc_modifiers().spec_value(n, m) == mgr_modifiers(
                    old(self).spec_buildings(),
                    *resource_manager,
                    n,
                    m,
                    old(self).bld_len(),
                ),
            forall|n: Seq<char>| #[trigger]
                final(self).spec_calc_storages().spec_value(n) == mgr_storages(
                    old(self).spec_buildings(),
                    *modifier_storage,
                    *resource_manager,
                    n,
                    old(self).bld_len(),
                ),
    {
        let ghost bs0 = self.spec_buildings();
        self.calculated_upkeeps.clear();
        self.calculated_outputs.clear();
        self.calculated_modifiers.clear();
        self.calculated_storages.clear();
        let mut done: Vec<Building> = Vec::new();
        while self.buildings.len() > 0
            invariant
                done@.len() + self.buildings@.len() == bs0.len(),
                forall|i: int|
                    0 <= i < self.buildings@.len() ==> self.buildings@[i] == bs0[
                        done@.len() + i
                    ],
                forall|i: int|
                    0 <= i < done@.len() ==> post_calc_building(
                        #[trigger] bs0[i],
                        done@[i],
                        *modifier_storage,
                    ),
                self.calculated_upkeeps.wf(),
                self.calculated_outputs.wf(),
                self.calculated_modifiers.wf(),
                self.calculated_storages.wf(),
                forall|n: Seq<char>| #[trigger]
                    self.calculated_upkeeps.spec_value(n) == mgr_upkeeps(
                        bs0,
                        *modifier_storage,
                        n,
                        done@.len() as int,
                    ),
                forall|n: Seq<char>| #[trigger]
                    self.calculated_outputs.spec_value(n) == mgr_outputs(
                        bs0,
                        *modifier_storage,
                        *resource_manager,
                        n,
                        done@.len() as int,
                    ),
                forall|n: Seq<char>, m: ModifierCalculationMethod| #[trigger]
                    self.calculated_modifiers.spec_value(n, m) == mgr_modifiers(
                        bs0,
                        *resource_manager,
                        n,
                        m,
                        done@.len() as int,
                    ),
                forall|n: Seq<char>| #[trigger]
                    self.calculated_storages.spec_value(n) == mgr_storages(
                        bs0,
                        *modifier_storage,
                        *resource_manager,
                        n,
                        done@.len() as int,
                    ),
            decreases self.buildings@.len(),
        {
            let ghost k = done@.len() as int;
            let mut b = self.buildings.remove(0);
            let ghost b0 = b;
            proof {
                assert(b0 == bs0[k]);
                assert(b0.wf());
            }
            b.calculate(modifier_storage);
            let stalled = is_building_stalled(&b, resource_manager);
            proof {
                let prods = b0.spec_productions();
                let actives = b0.spec_active_list();
                let full = prods.len() as int;
                assert(Building::same_state(b0, b));
                if stalled {
                    let i = choose|i: int|
                        0 <= i < b.spec_calc_upkeeps().spec_len() && rm_drained(
                            *resource_manager,
                            #[trigger] b.spec_calc_upkeeps().name_at(i),
                        );
                    let n = b.spec_calc_upkeeps().name_at(i);
                    b.spec_calc_upkeeps().lemma_has_name_iff(n);
                    assert(b.spec_calc_upkeeps().has_name(n));
                    assert(prods_quantity_has(prods, actives, QuantityKind::Upkeep, n, full));
                    assert(stalled_from(b0, *resource_manager));
                } else {
                    if stalled_from(b0, *resource_manager) {
                        let n = choose|n: Seq<char>|
                            #[trigger] prods_quantity_has(
                                prods,
                                actives,
                                QuantityKind::Upkeep,
                                n,
                                full,
                            ) && rm_drained(*resource_manager, n);
                        assert(b.spec_calc_upkeeps().has_name(n));
                        b.spec_calc_upkeeps().lemma_has_name_iff(n);
                        let i = choose|i: int|
                            0 <= i < b.spec_calc_upkeeps().spec_len() && b.spec_calc_upkeeps().name_at(
                                i,
                            ) == n;
                        assert(rm_drained(*resource_manager, b.spec_calc_upkeeps().name_at(i)));
                        assert(building_stalled(b, *resource_manager));
                        assert(false);
                    }
                }
            }
            self.calculated_upkeeps.combine(b.calculated_upkeeps());
            if !stalled {
                self.calculated_outputs.combine(b.calculated_outputs());
                self.calculated_modifiers.combine(b.calculated_modifiers());
                self.calculated_storages.combine(b.calculated_storages());
            }
            done.push(b);
        }
        self.buildings = done;
        proof {
            let bs1 = self.spec_buildings();
            assert(bs1.len() == bs0.len());
            assert forall|i: int| 0 <= i < bs1.len() implies (#[trigger] bs1[i]).wf() by {
                assert(post_calc_building(bs0[i], bs1[i], *modifier_storage));
            }
            assert forall|j1: int, j2: int| 0 <= j1 < j2 < bs1.len() implies bs1[
                j1
            ].spec_name() != bs1[j2].spec_name() by {
                assert(post_calc_building(bs0[j1], bs1[j1], *modifier_storage));
                assert(post_calc_building(bs0[j2], bs1[j2], *modifier_storage));
            }
            assert forall|n: Seq<char>| #[trigger]
                self.has_bld(n) == old(self).has_bld(n) by {
                if old(self).has_bld(n) {
                    let j = old(self).index_of_bld(n);
                    assert(post_calc_building(bs0[j], bs1[j], *modifier_storage));
                    assert(bs1[j].spec_name() == n);
                }
                if self.has_bld(n) {
                    let j = self.index_of_bld(n);
                    assert(post_calc_building(bs0[j], bs1[j], *modifier_storage));
                    assert(bs0[j].spec_name() == n);
                }
            }
            assert forall|n: Seq<char>|
                old(self).has_bld(n) implies post_calc_building(
                old(self).spec_bld(n),
                #[trigger] self.spec_bld(n),
                *modifier_storage,
            ) by {
                let j = old(self).index_of_bld(n);
                old(self).lemma_bld_at(j);
                assert(post_calc_building(bs0[j], bs1[j], *modifier_storage));
                assert(bs1[j].spec_name() == n);
                self.lemma_bld_at(j);
            }
        }
    }

    /// The aggregated upkeep the last `calculate` computed.
    pub fn calculated_upkeeps(&self) -> (r: &ResourceStorage)
        ensures
            *r == self.spec_calc_upkeeps(),
    {
        &self.calculated_upkeeps
    }

    /// The aggregated output the last `calculate` computed.
    pub fn calculated_outputs(&self) -> (r: &ResourceStorage)
        ensures
            *r == self.spec_calc_outputs(),
    {
        &self.calculated_outputs
    }

    /// The aggregated emitted modifiers the last `calculate` computed.
    pub fn calculated_modifiers(&self) -> (r: &ModifierStorage)
        ensures
            *r == self.spec_calc_modifiers(),
    {
        &self.calculated_modifiers
    }

    /// The aggregated storage the last `calculate` computed.
    pub fn calculated_storages(&self) -> (r: &ResourceStorage)
        ensures
            *r == self.spec_calc_storages(),
    {
        &self.calculated_storages
    }
}

} // verus!
