//! Foods: named items whose nutrients are given directly or composed from
//! ingredient foods, together with serving-unit resolution and the
//! recursive nutrient computation.
use vstd::prelude::*;

use crate::error::{Error, ErrorV};
use crate::nutrients::{
    nut_add, nut_eq, nut_scale, nut_wf, nut_zero, Nutrients, NutrientsV,
};
use crate::rat::{
    ratio_div, ratio_eq, ratio_mul, ratio_wf, Rat, Ratio,
};
use crate::serving::{serving_wf, Serving, ServingV};

verus! {

/// Specification-level mirror of [`Ingredient`].
#[verifier::ext_equal]
pub struct IngredientV {
    pub key: Seq<char>,
    pub serving: ServingV,
    pub food: FoodV,
}

/// Specification-level mirror of [`FoodSpec`].
#[verifier::ext_equal]
pub enum FoodSpecV {
    Nutrients(NutrientsV),
    Ingredients(Seq<IngredientV>),
}

/// Specification-level mirror of [`Food`].
#[verifier::ext_equal]
pub struct FoodV {
    pub name: Seq<char>,
    pub spec: FoodSpecV,
    pub servings: Seq<(Seq<char>, Ratio)>,
}

/// One ingredient of a composite food: the key it was resolved from, the
/// serving consumed, and the resolved food itself.
#[derive(Debug)]
pub struct Ingredient {
    pub key: String,
    pub serving: Serving,
    pub food: Food,
}

/// What defines a food: direct nutrients, or a list of ingredients.
#[derive(Debug)]
pub enum FoodSpec {
    Nutrients(Nutrients),
    Ingredients(Vec<Ingredient>),
}

/// A single food item: its display name, its definition, and the table of
/// named serving units (each unit name paired with how many of that unit
/// make one base serving).
#[derive(Debug)]
pub struct Food {
    pub name: String,
    pub spec: FoodSpec,
    pub servings: Vec<(String, Rat)>,
}

/// The view of one serving-table row.
pub open spec fn row_view(p: (String, Rat)) -> (Seq<char>, Ratio) {
    (p.0@, p.1@)
}

/// The view of a serving table.
pub open spec fn table_view(v: Seq<(String, Rat)>) -> Seq<(Seq<char>, Ratio)> {
    v.map_values(|p: (String, Rat)| row_view(p))
}

/// The view of an ingredient.
pub open spec fn ingredient_view(i: Ingredient) -> IngredientV
    decreases i,
{
    IngredientV { key: i.key@, serving: i.serving@, food: food_view(i.food) }
}

/// The view of an ingredient list.
pub open spec fn ingredients_view(s: Seq<Ingredient>) -> Seq<IngredientV>
    decreases s,
{
    if s.len() == 0 {
        Seq::empty()
    } else {
        seq![ingredient_view(s[0])] + ingredients_view(s.drop_first())
    }
}

/// The view of a food definition.
pub open spec fn food_spec_view(s: FoodSpec) -> FoodSpecV
    decreases s,
{
    match s {
        FoodSpec::Nutrients(n) => FoodSpecV::Nutrients(n@),
        FoodSpec::Ingredients(v) => FoodSpecV::Ingredients(ingredients_view(v@)),
    }
}

/// The view of a food.
pub open spec fn food_view(f: Food) -> FoodV
    decreases f,
{
    FoodV { name: f.name@, spec: food_spec_view(f.spec), servings: table_view(f.servings@) }
}

impl View for Ingredient {
    type V = IngredientV;

    open spec fn view(&self) -> IngredientV {
        ingredient_view(*self)
    }
}

impl View for FoodSpec {
    type V = FoodSpecV;

    open spec fn view(&self) -> FoodSpecV {
        food_spec_view(*self)
    }
}

impl View for Food {
    type V = FoodV;

    open spec fn view(&self) -> FoodV {
        food_view(*self)
    }
}

/// `ingredients_view` maps the list element-wise.
pub proof fn lemma_ingredients_view(s: Seq<Ingredient>)
    ensures
        ingredients_view(s).len() == s.len(),
        forall|i: int|
            0 <= i < s.len() ==> ingredients_view(s)[i] == ingredient_view(s[i]),
    decreases s,
{
    if s.len() > 0 {
        lemma_ingredients_view(s.drop_first());
        assert forall|i: int|
            0 <= i < s.len() implies ingredients_view(s)[i] == ingredient_view(s[i]) by {
            if i > 0 {
                assert(s.drop_first()[i - 1] == s[i]);
            }
        }
    }
}

/// Every entry of the serving table is a well-formed ratio.
pub open spec fn table_wf(t: Seq<(Seq<char>, Ratio)>) -> bool {
    forall|i: int| 0 <= i < t.len() ==> ratio_wf((#[trigger] t[i]).1)
}

/// Well-formedness of an ingredient: its serving and food are well-formed.
pub open spec fn ingredient_wf(i: IngredientV) -> bool
    decreases i,
{
    serving_wf(i.serving) && food_wf(i.food)
}

/// Well-formedness of an ingredient list.
pub open spec fn ingredients_wf(l: Seq<IngredientV>) -> bool
    decreases l,
{
    l.len() == 0 || (ingredient_wf(l[0]) && ingredients_wf(l.drop_first()))
}

/// Well-formedness of a food: every number in it is a well-formed ratio.
pub open spec fn food_wf(f: FoodV) -> bool
    decreases f,
{
    &&& table_wf(f.servings)
    &&& match f.spec {
        FoodSpecV::Nutrients(n) => nut_wf(n),
        FoodSpecV::Ingredients(l) => ingredients_wf(l),
    }
}

/// `ingredients_wf` holds exactly when every element is well-formed.
pub proof fn lemma_ingredients_wf(l: Seq<IngredientV>)
    ensures
        ingredients_wf(l) <==> (forall|i: int| 0 <= i < l.len() ==> ingredient_wf(#[trigger] l[i])),
    decreases l,
{
    if l.len() > 0 {
        lemma_ingredients_wf(l.drop_first());
        assert forall|i: int|
            0 <= i < l.len() && ingredients_wf(l) implies ingredient_wf(#[trigger] l[i]) by {
            if i > 0 {
                assert(l.drop_first()[i - 1] == l[i]);
            }
        }
        if forall|i: int| 0 <= i < l.len() ==> ingredient_wf(#[trigger] l[i]) {
            assert(forall|i: int|
                0 <= i < l.drop_first().len() ==> #[trigger] l.drop_first()[i] == l[i + 1]);
        }
    }
}

/// Does `u` abbreviate this table row's unit name?
pub open spec fn unit_matches(u: Seq<char>, row: (Seq<char>, Ratio)) -> bool {
    u.is_prefix_of(row.0)
}

/// The indices of the table rows whose unit name `u` abbreviates, in
/// order.
pub open spec fn match_indices(t: Seq<(Seq<char>, Ratio)>, u: Seq<char>) -> Seq<int>
    decreases t.len(),
{
    if t.len() == 0 {
        Seq::empty()
    } else {
        match_indices(t.drop_last(), u) + if unit_matches(u, t.last()) {
            seq![t.len() - 1]
        } else {
            Seq::empty()
        }
    }
}

/// The names of every unit the table defines, in order.
pub open spec fn unit_names(t: Seq<(Seq<char>, Ratio)>) -> Seq<Seq<char>> {
    t.map_values(|row: (Seq<char>, Ratio)| row.0)
}

/// Resolve a serving against a serving table into a portion: a
/// dimensionless multiple of the base serving.
///
/// Without a unit the portion is the size itself.  With one, the unit must
/// abbreviate exactly one table row: no match reports the unknown unit with
/// every defined name, two or more report the first two colliding
/// candidates, and a row equating zero of the unit to a serving admits no
/// portion.
pub open spec fn spec_resolve(t: Seq<(Seq<char>, Ratio)>, s: ServingV) -> Result<Ratio, ErrorV> {
    match s.unit {
        None => Ok(s.size),
        Some(u) => {
            let mi = match_indices(t, u);
            if mi.len() == 0 {
                Err(ErrorV::UnknownUnit { unit: u, known: unit_names(t) })
            } else if mi.len() >= 2 {
                Err(
                    ErrorV::AmbiguousUnit {
                        unit: u,
                        first: t[mi[0]].0,
                        second: t[mi[1]].0,
                    },
                )
            } else {
                let row = t[mi[0]];
                if row.1.num == 0 {
                    Err(ErrorV::ZeroUnitSize { unit: row.0 })
                } else {
                    Ok(ratio_div(s.size, row.1))
                }
            }
        },
    }
}

/// Each match index points into the table at a row the unit abbreviates.
pub proof fn lemma_match_indices(t: Seq<(Seq<char>, Ratio)>, u: Seq<char>)
    ensures
        forall|j: int|
            0 <= j < match_indices(t, u).len() ==> {
                let x = #[trigger] match_indices(t, u)[j];
                0 <= x < t.len() && unit_matches(u, t[x])
            },
    decreases t.len(),
{
    if t.len() > 0 {
        lemma_match_indices(t.drop_last(), u);
        assert forall|j: int|
            0 <= j < match_indices(t, u).len() implies {
            let x = #[trigger] match_indices(t, u)[j];
            0 <= x < t.len() && unit_matches(u, t[x])
        } by {
            let prev = match_indices(t.drop_last(), u);
            if j < prev.len() {
                assert(match_indices(t, u)[j] == prev[j]);
                assert(t.drop_last()[prev[j]] == t[prev[j]]);
            }
        }
    }
}

} // verus!

verus! {

/// The nutrients in the requested serving of a food, computed over
/// unbounded integers.
///
/// The serving is resolved to a portion against the food's own table; a
/// direct-nutrient food scales its nutrients by the portion, a composite
/// food serves each ingredient with its serving scaled by the portion and
/// sums the results in order.  The first failure anywhere in the recursion
/// is the result.
pub open spec fn spec_serve(f: FoodV, s: ServingV) -> Result<NutrientsV, ErrorV>
    decreases f,
{
    match spec_resolve(f.servings, s) {
        Err(e) => Err(e),
        Ok(p) => match f.spec {
            FoodSpecV::Nutrients(n) => Ok(nut_scale(p, n)),
            FoodSpecV::Ingredients(l) => spec_serve_list(l, p),
        },
    }
}

/// Serve every ingredient of the list, its serving scaled by `p`, and sum
/// the results; the first failure is the result.
pub open spec fn spec_serve_list(l: Seq<IngredientV>, p: Ratio) -> Result<NutrientsV, ErrorV>
    decreases l,
{
    if l.len() == 0 {
        Ok(nut_zero())
    } else {
        let scaled = ServingV {
            size: ratio_mul(l[0].serving.size, p),
            unit: l[0].serving.unit,
        };
        match spec_serve(l[0].food, scaled) {
            Err(e) => Err(e),
            Ok(n0) => match spec_serve_list(l.drop_first(), p) {
                Err(e) => Err(e),
                Ok(rest) => Ok(nut_add(n0, rest)),
            },
        }
    }
}

impl Food {
    /// Every number in the food is a well-formed ratio.
    pub open spec fn wf(self) -> bool {
        food_wf(self@)
    }

    /// Resolve a serving against this food's serving table.
    fn resolve(&self, s: &Serving) -> (r: Result<Rat, Error>)
        requires
            self.wf(),
            s.wf(),
        ensures
            match r {
                Ok(p) => {
                    &&& p.wf()
                    &&& spec_resolve(self@.servings, s@) matches Ok(q) && ratio_eq(p@, q)
                },
                Err(e) => e@ == ErrorV::Overflow || spec_resolve(self@.servings, s@)
                    == Err::<Ratio, ErrorV>(e@),
            },
            r is Err && spec_resolve(self@.servings, s@) is Ok ==> (r matches Err(e) && e@
                == ErrorV::Overflow),
            r matches Ok(p) ==> crate::rat::rat_within(
                p@,
                resolve_bound(self@.servings, s@.unit, crate::rat::rat_bound(s@.size)),
            ),
            resolve_fits(self@.servings, s@.unit, crate::rat::rat_bound(s@.size)) && r is Err
                ==> spec_resolve(self@.servings, s@) == Err::<Ratio, ErrorV>(
                r->Err_0@,
            ),
    {
        let unit = match &s.unit {
            None => {
                return Ok(s.size);
            },
            Some(u) => u,
        };
        let ghost tv = self@.servings;
        proof {
            assert(tv =~= table_view(self.servings@));
        }
        let n = self.servings.len();
        let mut found: Vec<usize> = Vec::new();
        let mut i: usize = 0;
        proof {
            assert(match_indices(tv.take(0), unit@) =~= Seq::<int>::empty());
            assert(found@.map_values(|x: usize| x as int) =~= Seq::<int>::empty());
        }
        while i < n
            invariant
                0 <= i <= n,
                n == self.servings.len(),
                tv == table_view(self.servings@),
                tv.len() == n,
                s@.unit == Some(unit@),
                found@.map_values(|x: usize| x as int) == match_indices(tv.take(i as int), unit@),
                forall|j: int| 0 <= j < found@.len() ==> #[trigger] found@[j] < i,
            decreases n - i,
        {
            let row = &self.servings[i];
            let m = crate::text::starts_with(row.0.as_str(), unit.as_str());
            proof {
                assert(tv[i as int] == row_view(self.servings@[i as int]));
                assert(tv.take(i + 1).drop_last() =~= tv.take(i as int));
                assert(tv.take(i + 1).last() == tv[i as int]);
                if m {
                    assert(found@.push(i).map_values(|x: usize| x as int) =~= found@.map_values(
                        |x: usize| x as int,
                    ).push(i as int));
                }
            }
            if m {
                found.push(i);
            }
            i = i + 1;
        }
        proof {
            assert(tv.take(n as int) =~= tv);
        }
        if found.len() == 0 {
            let mut known: Vec<String> = Vec::new();
            let mut q: usize = 0;
            while q < n
                invariant
                    0 <= q <= n,
                    n == self.servings.len(),
                    tv == table_view(self.servings@),
                    tv.len() == n,
                    known@.map_values(|x: String| x@) =~= unit_names(tv.take(q as int)),
                decreases n - q,
            {
                let name = self.servings[q].0.clone();
                proof {
                    assert(tv[q as int] == row_view(self.servings@[q as int]));
                    assert(unit_names(tv.take(q + 1)) =~= unit_names(tv.take(q as int)).push(
                        tv[q as int].0,
                    ));
                    assert(known@.push(name).map_values(|x: String| x@) =~= known@.map_values(
                        |x: String| x@,
                    ).push(name@));
                }
                known.push(name);
                q = q + 1;
            }
            proof {
                assert(tv.take(n as int) =~= tv);
            }
            return Err(Error::UnknownUnit { unit: unit.clone(), known });
        }
        proof {
            lemma_match_indices(tv, unit@);
        }
        if found.len() >= 2 {
            let i0 = found[0];
            let i1 = found[1];
            proof {
                assert(found@.map_values(|x: usize| x as int)[0] == i0 as int);
                assert(found@.map_values(|x: usize| x as int)[1] == i1 as int);
                assert(tv[i0 as int] == row_view(self.servings@[i0 as int]));
                assert(tv[i1 as int] == row_view(self.servings@[i1 as int]));
            }
            let first = self.servings[i0].0.clone();
            let second = self.servings[i1].0.clone();
            return Err(Error::AmbiguousUnit { unit: unit.clone(), first, second });
        }
        let i0 = found[0];
        proof {
            assert(found@.map_values(|x: usize| x as int)[0] == i0 as int);
            assert(tv[i0 as int] == row_view(self.servings@[i0 as int]));
        }
        let row = &self.servings[i0];
        if row.1.is_zero() {
            return Err(Error::ZeroUnitSize { unit: row.0.clone() });
        }
        proof {
            assert(ratio_wf(tv[i0 as int].1));
        }
        let ghost sb = crate::rat::rat_bound(s@.size);
        proof {
            assert(resolve_ok(tv, s@.unit));
            assert(resolve_bound(tv, s@.unit, sb) == crate::rat::bound_div(
                sb,
                crate::rat::rat_bound(tv[i0 as int].1),
            ));
        }
        match s.size.div(row.1) {
            Some(p) => Ok(p),
            None => {
                proof {
                    if resolve_fits(tv, s@.unit, sb) {
                        assert(crate::rat::bound_fits(
                            crate::rat::bound_div(sb, crate::rat::rat_bound(row.1@)),
                        ));
                        assert(false);
                    }
                }
                Err(Error::Overflow)
            },
        }
    }

    /// The nutrients in the requested serving of this food.
    ///
    /// On success the result is exactly `spec_serve`; every unit-resolution
    /// failure is reported exactly as `spec_serve` does; `Overflow` can
    /// only stand where the exact computation left the machine range, and
    /// never on inputs satisfying `serve_fits`: there the function returns
    /// exactly what `spec_serve` says, success and error alike.
    pub fn serve(&self, s: &Serving) -> (r: Result<Nutrients, Error>)
        requires
            self.wf(),
            s.wf(),
        ensures
            match r {
                Ok(n) => {
                    &&& n.wf()
                    &&& spec_serve(self@, s@) matches Ok(v) && nut_eq(n@, v)
                },
                Err(e) => e@ == ErrorV::Overflow || spec_serve(self@, s@) == Err::<
                    NutrientsV,
                    ErrorV,
                >(e@),
            },
            r matches Ok(n) ==> crate::nutrients::nut_within(
                n@,
                serve_res_bound(self@, s@.unit, crate::rat::rat_bound(s@.size)),
            ),
            serve_fits(self@, s@.unit, crate::rat::rat_bound(s@.size)) ==> (match r {
                Ok(_) => spec_serve(self@, s@) is Ok,
                Err(e) => spec_serve(self@, s@) == Err::<NutrientsV, ErrorV>(e@),
            }),
        decreases *self,
    {
        let ghost sb = crate::rat::rat_bound(s@.size);
        let portion = match self.resolve(s) {
            Ok(p) => p,
            Err(e) => {
                proof {
                    if serve_fits(self@, s@.unit, sb) {
                        assert(spec_resolve(self@.servings, s@) == Err::<Ratio, ErrorV>(e@));
                    }
                }
                return Err(e);
            },
        };
        let ghost pb = resolve_bound(self@.servings, s@.unit, sb);
        proof {
            lemma_resolve_bound_ok(self@.servings, s@.unit, sb);
            assert(crate::rat::bound_le(crate::rat::rat_bound(portion@), pb));
            assert(resolve_ok(self@.servings, s@.unit)) by {
                match s@.unit {
                    None => {},
                    Some(_) => {},
                }
            }
        }
        let ghost q = spec_resolve(self@.servings, s@)->Ok_0;
        proof {
            lemma_spec_resolve_wf(self@.servings, s@);
        }
        match &self.spec {
            FoodSpec::Nutrients(n) => {
                proof {
                    assert(self@.spec == FoodSpecV::Nutrients(n@));
                    crate::nutrients::lemma_nut_bound_of(n@);
                    crate::nutrients::lemma_nut_bound_mono_scale(
                        crate::rat::rat_bound(portion@),
                        crate::nutrients::nut_bound(n@),
                        pb,
                        crate::nutrients::nut_bound(n@),
                    );
                }
                match n.mul(portion) {
                    Some(v) => {
                        proof {
                            crate::nutrients::lemma_nut_scale_congr(portion@, q, n@);
                            crate::nutrients::lemma_nut_scale_wf(portion@, n@);
                            crate::nutrients::lemma_nut_scale_wf(q, n@);
                            lemma_nut_eq_trans(
                                v@,
                                crate::nutrients::nut_scale(portion@, n@),
                                crate::nutrients::nut_scale(q, n@),
                            );
                            crate::nutrients::lemma_nut_within_widen(
                                v@,
                                nut_scale(
                                    crate::rat::rat_bound(portion@),
                                    crate::nutrients::nut_bound(n@),
                                ),
                                nut_scale(pb, crate::nutrients::nut_bound(n@)),
                            );
                        }
                        Ok(v)
                    },
                    None => {
                        proof {
                            if serve_fits(self@, s@.unit, sb) {
                                crate::nutrients::lemma_nut_fits_narrow(
                                    nut_scale(
                                        crate::rat::rat_bound(portion@),
                                        crate::nutrients::nut_bound(n@),
                                    ),
                                    nut_scale(pb, crate::nutrients::nut_bound(n@)),
                                );
                                assert(false);
                            }
                        }
                        Err(Error::Overflow)
                    },
                }
            },
            FoodSpec::Ingredients(list) => {
                proof {
                    assert(self@.spec == FoodSpecV::Ingredients(ingredients_view(list@)));
                    assert(ingredients_wf(ingredients_view(list@)));
                    assert(list@.skip(0) =~= list@);
                    assert(decreases_to!(*self => self.spec));
                    assert(decreases_to!(self.spec => *list));
                    if serve_fits(self@, s@.unit, sb) {
                        lemma_serve_list_fits_mono(
                            ingredients_view(list@),
                            crate::rat::rat_bound(portion@),
                            pb,
                        );
                    }
                }
                let r = serve_list_from(list, 0, portion);
                proof {
                    let lv = ingredients_view(list@);
                    lemma_serve_list_portion_congr(lv, portion@, q);
                    lemma_serve_list_res_bound_mono(lv, crate::rat::rat_bound(portion@), pb);
                    match r {
                        Ok(n) => {
                            let a = spec_serve_list(lv, portion@)->Ok_0;
                            let b = spec_serve_list(lv, q)->Ok_0;
                            lemma_spec_serve_list_wf(lv, portion@);
                            lemma_spec_serve_list_wf(lv, q);
                            lemma_nut_eq_trans(n@, a, b);
                            crate::nutrients::lemma_nut_within_widen(
                                n@,
                                serve_list_res_bound(lv, crate::rat::rat_bound(portion@)),
                                serve_list_res_bound(lv, pb),
                            );
                        },
                        Err(_) => {},
                    }
                }
                r
            },
        }
    }
}

/// `nut_eq` is transitive on well-formed values.
pub proof fn lemma_nut_eq_trans(a: NutrientsV, b: NutrientsV, c: NutrientsV)
    requires
        nut_wf(a),
        nut_wf(b),
        nut_wf(c),
        nut_eq(a, b),
        nut_eq(b, c),
    ensures
        nut_eq(a, c),
{
    crate::rat::lemma_ratio_eq_trans(a.carb, b.carb, c.carb);
    crate::rat::lemma_ratio_eq_trans(a.fat, b.fat, c.fat);
    crate::rat::lemma_ratio_eq_trans(a.protein, b.protein, c.protein);
    crate::rat::lemma_ratio_eq_trans(a.kcal, b.kcal, c.kcal);
}

/// Serve the ingredients from index `i` on.
fn serve_list_from(list: &Vec<Ingredient>, i: usize, portion: Rat) -> (r: Result<Nutrients, Error>)
    requires
        i <= list@.len(),
        ingredients_wf(ingredients_view(list@.skip(i as int))),
        portion.wf(),
    ensures
        match r {
            Ok(n) => {
                &&& n.wf()
                &&& spec_serve_list(ingredients_view(list@.skip(i as int)), portion@) matches Ok(v)
                    && nut_eq(n@, v)
            },
            Err(e) => e@ == ErrorV::Overflow || spec_serve_list(
                ingredients_view(list@.skip(i as int)),
                portion@,
            ) == Err::<NutrientsV, ErrorV>(e@),
        },
        r matches Ok(n) ==> crate::nutrients::nut_within(
            n@,
            serve_list_res_bound(
                ingredients_view(list@.skip(i as int)),
                crate::rat::rat_bound(portion@),
            ),
        ),
        serve_list_fits(ingredients_view(list@.skip(i as int)), crate::rat::rat_bound(portion@))
            ==> (match r {
            Ok(_) => spec_serve_list(ingredients_view(list@.skip(i as int)), portion@) is Ok,
            Err(e) => spec_serve_list(ingredients_view(list@.skip(i as int)), portion@) == Err::<
                NutrientsV,
                ErrorV,
            >(e@),
        }),
    decreases list@.skip(i as int),
{
    let ghost lv = ingredients_view(list@.skip(i as int));
    let ghost pbt = crate::rat::rat_bound(portion@);
    if i == list.len() {
        proof {
            assert(list@.skip(i as int) =~= Seq::<Ingredient>::empty());
            assert(crate::nutrients::nut_within(
                crate::nutrients::nut_zero(),
                nut_bound_zero(),
            ));
        }
        return Ok(Nutrients::zero());
    }
    let ing = &list[i];
    proof {
        assert(list@.skip(i as int)[0] == list@[i as int]);
        lemma_ingredients_view(list@.skip(i as int));
        assert(lv[0] == ingredient_view(list@[i as int]));
        assert(ingredient_wf(lv[0]) && ingredients_wf(lv.drop_first()));
        assert(serving_wf(lv[0].serving) && food_wf(lv[0].food));
        assert(ing.serving@ == lv[0].serving);
        assert(ing.food@ == lv[0].food);
        assert(decreases_to!(list@.skip(i as int) => list@.skip(i as int)[0]));
        assert(decreases_to!(list@.skip(i as int)[0] => list@[i as int].food));
    }
    let ghost csb = ratio_mul(crate::rat::rat_bound(lv[0].serving.size), pbt);
    let scaled = match ing.serving.mul(portion) {
        Some(v) => v,
        None => {
            proof {
                if serve_list_fits(lv, pbt) {
                    assert(crate::rat::bound_fits(csb));
                    assert(false);
                }
            }
            return Err(Error::Overflow);
        },
    };
    let ghost sspec = ServingV {
        size: ratio_mul(lv[0].serving.size, portion@),
        unit: lv[0].serving.unit,
    };
    proof {
        crate::rat::lemma_ratio_mul_wf(lv[0].serving.size, portion@);
        crate::rat::lemma_bound_mono_mul(
            crate::rat::rat_bound(lv[0].serving.size),
            pbt,
            crate::rat::rat_bound(lv[0].serving.size),
            pbt,
        );
        if serve_list_fits(lv, pbt) {
            lemma_serve_fits_mono(
                lv[0].food,
                lv[0].serving.unit,
                crate::rat::rat_bound(scaled@.size),
                csb,
            );
        }
    }
    let first = match ing.food.serve(&scaled) {
        Ok(n) => {
            proof {
                lemma_spec_serve_congr(lv[0].food, scaled@, sspec);
            }
            n
        },
        Err(e) => {
            proof {
                lemma_spec_serve_congr(lv[0].food, scaled@, sspec);
            }
            return Err(e);
        },
    };
    proof {
        assert(list@.skip(i as int).drop_first() =~= list@.skip(i + 1));
        assert(ingredients_view(list@.skip(i + 1)) == lv.drop_first()) by {
            assert(lv.drop_first() =~= ingredients_view(list@.skip(i as int)).drop_first());
            lemma_ingredients_view_drop(list@.skip(i as int));
        }
        assert(decreases_to!(list@.skip(i as int) => list@.skip(i as int).drop_first()));
    }
    let rest = match serve_list_from(list, i + 1, portion) {
        Ok(n) => n,
        Err(e) => {
            return Err(e);
        },
    };
    let ghost child_rb = serve_res_bound(lv[0].food, lv[0].serving.unit, csb);
    let ghost rest_rb = serve_list_res_bound(lv.drop_first(), pbt);
    proof {
        lemma_serve_res_bound_mono(
            lv[0].food,
            lv[0].serving.unit,
            crate::rat::rat_bound(scaled@.size),
            csb,
        );
        lemma_serve_list_res_bound_mono(lv.drop_first(), pbt, pbt);
        crate::nutrients::lemma_nut_bound_of(first@);
        crate::nutrients::lemma_nut_bound_of(rest@);
        assert(crate::nutrients::nut_bound_le(crate::nutrients::nut_bound(first@), child_rb)) by {
            lemma_serve_res_bound_mono(
                lv[0].food,
                lv[0].serving.unit,
                crate::rat::rat_bound(scaled@.size),
                csb,
            );
        }
        assert(crate::nutrients::nut_bound_le(crate::nutrients::nut_bound(rest@), rest_rb));
        crate::nutrients::lemma_nut_bound_mono_add(
            crate::nutrients::nut_bound(first@),
            crate::nutrients::nut_bound(rest@),
            child_rb,
            rest_rb,
        );
    }
    match first.add(rest) {
        Some(total) => {
            proof {
                let va = spec_serve(lv[0].food, scaled@)->Ok_0;
                let v0 = spec_serve(lv[0].food, sspec)->Ok_0;
                let vr = spec_serve_list(lv.drop_first(), portion@)->Ok_0;
                lemma_spec_serve_wf(lv[0].food, scaled@);
                lemma_spec_serve_wf(lv[0].food, sspec);
                lemma_spec_serve_list_wf(lv.drop_first(), portion@);
                lemma_spec_serve_congr(lv[0].food, scaled@, sspec);
                lemma_nut_eq_trans(first@, va, v0);
                crate::nutrients::lemma_nut_add_congr(first@, v0, rest@, vr);
                crate::nutrients::lemma_nut_add_wf(first@, rest@);
                crate::nutrients::lemma_nut_add_wf(v0, vr);
                lemma_nut_eq_trans(total@, nut_add(first@, rest@), nut_add(v0, vr));
                assert(spec_serve_list(lv, portion@) == Ok::<NutrientsV, ErrorV>(nut_add(v0, vr)));
                crate::nutrients::lemma_nut_within_widen(
                    total@,
                    nut_add(
                        crate::nutrients::nut_bound(first@),
                        crate::nutrients::nut_bound(rest@),
                    ),
                    nut_add(child_rb, rest_rb),
                );
            }
            Ok(total)
        },
        None => {
            proof {
                if serve_list_fits(lv, pbt) {
                    crate::nutrients::lemma_nut_fits_narrow(
                        nut_add(
                            crate::nutrients::nut_bound(first@),
                            crate::nutrients::nut_bound(rest@),
                        ),
                        nut_add(child_rb, rest_rb),
                    );
                    assert(false);
                }
            }
            Err(Error::Overflow)
        },
    }
}

} // verus!

verus! {

/// Dropping the first ingredient commutes with taking views.
pub proof fn lemma_ingredients_view_drop(s: Seq<Ingredient>)
    requires
        s.len() > 0,
    ensures
        ingredients_view(s).drop_first() == ingredients_view(s.drop_first()),
{
    assert(ingredients_view(s) == seq![ingredient_view(s[0])] + ingredients_view(s.drop_first()));
    assert((seq![ingredient_view(s[0])] + ingredients_view(s.drop_first())).drop_first()
        =~= ingredients_view(s.drop_first()));
}

/// A resolved portion is a well-formed ratio.
pub proof fn lemma_spec_resolve_wf(t: Seq<(Seq<char>, Ratio)>, s: ServingV)
    requires
        table_wf(t),
        serving_wf(s),
    ensures
        spec_resolve(t, s) matches Ok(p) ==> ratio_wf(p),
{
    match s.unit {
        None => {},
        Some(u) => {
            let mi = match_indices(t, u);
            if mi.len() == 1 {
                lemma_match_indices(t, u);
                let row = t[mi[0]];
                if row.1.num != 0 {
                    crate::rat::lemma_ratio_div_wf(s.size, row.1);
                }
            }
        },
    }
}

/// A successful serve yields well-formed nutrients.
pub proof fn lemma_spec_serve_wf(f: FoodV, s: ServingV)
    requires
        food_wf(f),
        serving_wf(s),
    ensures
        spec_serve(f, s) matches Ok(v) ==> nut_wf(v),
    decreases f,
{
    lemma_spec_resolve_wf(f.servings, s);
    match spec_resolve(f.servings, s) {
        Err(_) => {},
        Ok(p) => match f.spec {
            FoodSpecV::Nutrients(n) => {
                crate::nutrients::lemma_nut_scale_wf(p, n);
            },
            FoodSpecV::Ingredients(l) => {
                lemma_spec_serve_list_wf(l, p);
            },
        },
    }
}

/// A successful list serve yields well-formed nutrients.
pub proof fn lemma_spec_serve_list_wf(l: Seq<IngredientV>, p: Ratio)
    requires
        ingredients_wf(l),
        ratio_wf(p),
    ensures
        spec_serve_list(l, p) matches Ok(v) ==> nut_wf(v),
    decreases l,
{
    if l.len() > 0 {
        assert(ingredient_wf(l[0]) && ingredients_wf(l.drop_first()));
        assert(serving_wf(l[0].serving) && food_wf(l[0].food));
        let scaled = ServingV { size: ratio_mul(l[0].serving.size, p), unit: l[0].serving.unit };
        crate::rat::lemma_ratio_mul_wf(l[0].serving.size, p);
        lemma_spec_serve_wf(l[0].food, scaled);
        lemma_spec_serve_list_wf(l.drop_first(), p);
        match spec_serve(l[0].food, scaled) {
            Err(_) => {},
            Ok(n0) => match spec_serve_list(l.drop_first(), p) {
                Err(_) => {},
                Ok(rest) => {
                    crate::nutrients::lemma_nut_add_wf(n0, rest);
                },
            },
        }
    }
}

/// Serving a food with servings that agree in unit and, as numbers, in
/// size, gives the same outcome: the same error, or results equal as
/// numbers.
pub proof fn lemma_spec_serve_congr(f: FoodV, s1: ServingV, s2: ServingV)
    requires
        food_wf(f),
        serving_wf(s1),
        serving_wf(s2),
        ratio_eq(s1.size, s2.size),
        s1.unit == s2.unit,
    ensures
        match (spec_serve(f, s1), spec_serve(f, s2)) {
            (Ok(a), Ok(b)) => nut_eq(a, b),
            (Err(e1), Err(e2)) => e1 == e2,
            _ => false,
        },
    decreases f,
{
    match s1.unit {
        None => {
            match f.spec {
                FoodSpecV::Nutrients(n) => {
                    crate::nutrients::lemma_nut_scale_congr(s1.size, s2.size, n);
                },
                FoodSpecV::Ingredients(l) => {
                    lemma_serve_list_portion_congr(l, s1.size, s2.size);
                },
            }
        },
        Some(u) => {
            let mi = match_indices(f.servings, u);
            if mi.len() == 1 {
                lemma_match_indices(f.servings, u);
                let row = f.servings[mi[0]];
                if row.1.num != 0 {
                    let p1 = ratio_div(s1.size, row.1);
                    let p2 = ratio_div(s2.size, row.1);
                    crate::rat::lemma_ratio_div_congr(s1.size, s2.size, row.1);
                    crate::rat::lemma_ratio_div_wf(s1.size, row.1);
                    crate::rat::lemma_ratio_div_wf(s2.size, row.1);
                    match f.spec {
                        FoodSpecV::Nutrients(n) => {
                            crate::nutrients::lemma_nut_scale_congr(p1, p2, n);
                        },
                        FoodSpecV::Ingredients(l) => {
                            lemma_serve_list_portion_congr(l, p1, p2);
                        },
                    }
                }
            }
        },
    }
}

/// Serving an ingredient list with portions equal as numbers gives the
/// same outcome.
pub proof fn lemma_serve_list_portion_congr(l: Seq<IngredientV>, p1: Ratio, p2: Ratio)
    requires
        ingredients_wf(l),
        ratio_wf(p1),
        ratio_wf(p2),
        ratio_eq(p1, p2),
    ensures
        match (spec_serve_list(l, p1), spec_serve_list(l, p2)) {
            (Ok(a), Ok(b)) => nut_eq(a, b),
            (Err(e1), Err(e2)) => e1 == e2,
            _ => false,
        },
    decreases l,
{
    if l.len() > 0 {
        assert(ingredient_wf(l[0]) && ingredients_wf(l.drop_first()));
        assert(serving_wf(l[0].serving) && food_wf(l[0].food));
        let sc1 = ServingV { size: ratio_mul(l[0].serving.size, p1), unit: l[0].serving.unit };
        let sc2 = ServingV { size: ratio_mul(l[0].serving.size, p2), unit: l[0].serving.unit };
        crate::rat::lemma_ratio_mul_wf(l[0].serving.size, p1);
        crate::rat::lemma_ratio_mul_wf(l[0].serving.size, p2);
        crate::rat::lemma_ratio_mul_congr(l[0].serving.size, l[0].serving.size, p1, p2);
        lemma_spec_serve_congr(l[0].food, sc1, sc2);
        lemma_serve_list_portion_congr(l.drop_first(), p1, p2);
        match (spec_serve(l[0].food, sc1), spec_serve(l[0].food, sc2)) {
            (Ok(a0), Ok(b0)) => {
                match (spec_serve_list(l.drop_first(), p1), spec_serve_list(l.drop_first(), p2)) {
                    (Ok(ar), Ok(br)) => {
                        lemma_spec_serve_wf(l[0].food, sc1);
                        lemma_spec_serve_wf(l[0].food, sc2);
                        lemma_spec_serve_list_wf(l.drop_first(), p1);
                        lemma_spec_serve_list_wf(l.drop_first(), p2);
                        crate::nutrients::lemma_nut_add_congr(a0, b0, ar, br);
                    },
                    _ => {},
                }
            },
            _ => {},
        }
    }
}

} // verus!

verus! {

/// Serving linearity: scaling the requested size by a positive factor `k`
/// scales the nutrients by `k`, and leaves every failure unchanged.
pub proof fn lemma_serve_linear(f: FoodV, s: ServingV, k: Ratio)
    requires
        food_wf(f),
        serving_wf(s),
        k.num >= 1,
        k.den >= 1,
    ensures
        match (
            spec_serve(f, ServingV { size: ratio_mul(k, s.size), unit: s.unit }),
            spec_serve(f, s),
        ) {
            (Ok(a), Ok(b)) => nut_eq(a, nut_scale(k, b)),
            (Err(e1), Err(e2)) => e1 == e2,
            _ => false,
        },
    decreases f,
{
    let s2 = ServingV { size: ratio_mul(k, s.size), unit: s.unit };
    crate::rat::lemma_ratio_mul_wf(k, s.size);
    match s.unit {
        None => {
            match f.spec {
                FoodSpecV::Nutrients(n) => {
                    lemma_nut_scale_assoc(k, s.size, n);
                },
                FoodSpecV::Ingredients(l) => {
                    lemma_serve_list_linear(l, s.size, k);
                },
            }
        },
        Some(u) => {
            let mi = match_indices(f.servings, u);
            if mi.len() == 1 {
                lemma_match_indices(f.servings, u);
                let row = f.servings[mi[0]];
                if row.1.num != 0 {
                    let p2 = ratio_div(s2.size, row.1);
                    let p = ratio_div(s.size, row.1);
                    let kp = ratio_mul(k, p);
                    crate::rat::lemma_ratio_div_scale(k, s.size, row.1);
                    crate::rat::lemma_ratio_div_wf(s.size, row.1);
                    crate::rat::lemma_ratio_div_wf(s2.size, row.1);
                    crate::rat::lemma_ratio_mul_wf(k, p);
                    match f.spec {
                        FoodSpecV::Nutrients(n) => {
                            crate::nutrients::lemma_nut_scale_congr(p2, kp, n);
                            lemma_nut_scale_assoc(k, p, n);
                            crate::nutrients::lemma_nut_scale_wf(p2, n);
                            crate::nutrients::lemma_nut_scale_wf(kp, n);
                            crate::nutrients::lemma_nut_scale_wf(p, n);
                            crate::nutrients::lemma_nut_scale_wf(
                                k,
                                crate::nutrients::nut_scale(p, n),
                            );
                            lemma_nut_eq_trans(
                                nut_scale(p2, n),
                                nut_scale(kp, n),
                                nut_scale(k, nut_scale(p, n)),
                            );
                        },
                        FoodSpecV::Ingredients(l) => {
                            lemma_serve_list_portion_congr(l, p2, kp);
                            lemma_serve_list_linear(l, p, k);
                            match (
                                spec_serve_list(l, p2),
                                spec_serve_list(l, kp),
                                spec_serve_list(l, p),
                            ) {
                                (Ok(a2), Ok(akp), Ok(b)) => {
                                    lemma_spec_serve_list_wf(l, p2);
                                    lemma_spec_serve_list_wf(l, kp);
                                    lemma_spec_serve_list_wf(l, p);
                                    crate::nutrients::lemma_nut_scale_wf(k, b);
                                    lemma_nut_eq_trans(a2, akp, nut_scale(k, b));
                                },
                                _ => {},
                            }
                        },
                    }
                }
            }
        },
    }
}

/// Linearity over an ingredient list: a portion scaled by `k` scales the
/// summed nutrients by `k`.
pub proof fn lemma_serve_list_linear(l: Seq<IngredientV>, p: Ratio, k: Ratio)
    requires
        ingredients_wf(l),
        ratio_wf(p),
        k.num >= 1,
        k.den >= 1,
    ensures
        match (spec_serve_list(l, ratio_mul(k, p)), spec_serve_list(l, p)) {
            (Ok(a), Ok(b)) => nut_eq(a, nut_scale(k, b)),
            (Err(e1), Err(e2)) => e1 == e2,
            _ => false,
        },
    decreases l,
{
    let kp = ratio_mul(k, p);
    crate::rat::lemma_ratio_mul_wf(k, p);
    if l.len() == 0 {
        assert(0int * (k.den * 1) == (k.num * 0) * 1) by (nonlinear_arith);
        assert(nut_eq(nut_zero(), nut_scale(k, nut_zero())));
    } else {
        assert(ingredient_wf(l[0]) && ingredients_wf(l.drop_first()));
        assert(serving_wf(l[0].serving) && food_wf(l[0].food));
        let sz = l[0].serving.size;
        let s1 = ServingV { size: ratio_mul(sz, kp), unit: l[0].serving.unit };
        let sp = ServingV { size: ratio_mul(sz, p), unit: l[0].serving.unit };
        assert(ratio_mul(sz, kp) == ratio_mul(k, ratio_mul(sz, p))) by {
            crate::rat::lemma_ratio_mul_assoc(sz, k, p);
            crate::rat::lemma_ratio_mul_comm(sz, k);
            crate::rat::lemma_ratio_mul_assoc(k, sz, p);
        }
        crate::rat::lemma_ratio_mul_wf(sz, p);
        crate::rat::lemma_ratio_mul_wf(sz, kp);
        lemma_serve_linear(l[0].food, sp, k);
        lemma_serve_list_linear(l.drop_first(), p, k);
        match (spec_serve(l[0].food, s1), spec_serve(l[0].food, sp)) {
            (Ok(a0), Ok(b0)) => {
                match (spec_serve_list(l.drop_first(), kp), spec_serve_list(l.drop_first(), p)) {
                    (Ok(ar), Ok(br)) => {
                        lemma_spec_serve_wf(l[0].food, s1);
                        lemma_spec_serve_wf(l[0].food, sp);
                        lemma_spec_serve_list_wf(l.drop_first(), kp);
                        lemma_spec_serve_list_wf(l.drop_first(), p);
                        crate::nutrients::lemma_nut_scale_wf(k, b0);
                        crate::nutrients::lemma_nut_scale_wf(k, br);
                        crate::nutrients::lemma_nut_add_congr(
                            a0,
                            nut_scale(k, b0),
                            ar,
                            nut_scale(k, br),
                        );
                        crate::nutrients::lemma_nut_scale_add(k, b0, br);
                        crate::nutrients::lemma_nut_add_wf(a0, ar);
                        crate::nutrients::lemma_nut_add_wf(nut_scale(k, b0), nut_scale(k, br));
                        crate::nutrients::lemma_nut_add_wf(b0, br);
                        crate::nutrients::lemma_nut_scale_wf(k, nut_add(b0, br));
                        lemma_nut_eq_trans(
                            nut_add(a0, ar),
                            nut_add(nut_scale(k, b0), nut_scale(k, br)),
                            nut_scale(k, nut_add(b0, br)),
                        );
                    },
                    _ => {},
                }
            },
            _ => {},
        }
    }
}

/// Scaling twice is scaling by the product.
pub proof fn lemma_nut_scale_assoc(k: Ratio, p: Ratio, n: NutrientsV)
    ensures
        nut_eq(nut_scale(ratio_mul(k, p), n), nut_scale(k, nut_scale(p, n))),
{
    crate::rat::lemma_ratio_mul_assoc(k, p, n.carb);
    crate::rat::lemma_ratio_mul_assoc(k, p, n.fat);
    crate::rat::lemma_ratio_mul_assoc(k, p, n.protein);
    crate::rat::lemma_ratio_mul_assoc(k, p, n.kcal);
}

} // verus!

verus! {

/// Two unit queries that match exactly the same table rows resolve alike.
proof fn lemma_match_indices_same(t: Seq<(Seq<char>, Ratio)>, u1: Seq<char>, u2: Seq<char>)
    requires
        forall|i: int|
            0 <= i < t.len() ==> (unit_matches(u1, #[trigger] t[i]) == unit_matches(u2, t[i])),
    ensures
        match_indices(t, u1) == match_indices(t, u2),
    decreases t.len(),
{
    if t.len() > 0 {
        assert forall|i: int|
            0 <= i < t.drop_last().len() implies (unit_matches(u1, #[trigger] t.drop_last()[i])
            == unit_matches(u2, t.drop_last()[i])) by {
            assert(t.drop_last()[i] == t[i]);
        }
        lemma_match_indices_same(t.drop_last(), u1, u2);
        assert(t.last() == t[t.len() - 1]);
    }
}

/// Unit-prefix monotonicity: when a food defines exactly one unit matching
/// the abbreviation `u`, asking for `u` and asking for that unit's full
/// name give the very same outcome.
pub proof fn lemma_unit_abbreviation(f: FoodV, size: Ratio, u: Seq<char>, j: int)
    requires
        0 <= j < f.servings.len(),
        unit_matches(u, f.servings[j]),
        match_indices(f.servings, u) == seq![j],
    ensures
        spec_serve(f, ServingV { size, unit: Some(f.servings[j].0) })
            == spec_serve(f, ServingV { size, unit: Some(u) }),
{
    let t = f.servings;
    let w = t[j].0;
    assert forall|i: int|
        0 <= i < t.len() implies (unit_matches(w, #[trigger] t[i]) == unit_matches(u, t[i])) by {
        if unit_matches(w, t[i]) {
            assert(u.is_prefix_of(w));
            assert(w.is_prefix_of(t[i].0));
            assert(u.len() <= t[i].0.len());
            assert forall|q: int| 0 <= q < u.len() implies u[q] == t[i].0[q] by {
                assert(u[q] == w[q]);
                assert(w[q] == t[i].0[q]);
            }
            assert(u =~= t[i].0.subrange(0, u.len() as int));
        }
        if unit_matches(u, t[i]) {
            let mi = match_indices(t, u);
            lemma_match_index_found(t, u, i);
        }
    }
    lemma_match_indices_same(t, w, u);
    assert(unit_matches(w, t[j])) by {
        assert(w =~= t[j].0.subrange(0, w.len() as int));
    }
}

/// If row `i` matches, some match index is `i`; with exactly one match
/// index `j`, only row `j` matches.
proof fn lemma_match_index_found(t: Seq<(Seq<char>, Ratio)>, u: Seq<char>, i: int)
    requires
        0 <= i < t.len(),
        unit_matches(u, t[i]),
    ensures
        match_indices(t, u).contains(i),
    decreases t.len(),
{
    if i == t.len() - 1 {
        let prev = match_indices(t.drop_last(), u);
        assert(match_indices(t, u)[prev.len() as int] == i);
    } else {
        assert(t.drop_last()[i] == t[i]);
        lemma_match_index_found(t.drop_last(), u, i);
        let prev = match_indices(t.drop_last(), u);
        let q = choose|q: int| 0 <= q < prev.len() && prev[q] == i;
        assert(match_indices(t, u)[q] == i);
    }
}

/// Ambiguity detection: when a food defines two units sharing the prefix
/// `u`, requesting `u` fails, naming the first two colliding candidates.
pub proof fn lemma_ambiguous_unit(f: FoodV, s: ServingV, u: Seq<char>)
    requires
        s.unit == Some(u),
        match_indices(f.servings, u).len() >= 2,
    ensures
        spec_serve(f, s) == Err::<NutrientsV, ErrorV>(
            ErrorV::AmbiguousUnit {
                unit: u,
                first: f.servings[match_indices(f.servings, u)[0]].0,
                second: f.servings[match_indices(f.servings, u)[1]].0,
            },
        ),
{
}

/// Recursive composition: a food made of exactly two ingredients, served
/// at its default serving, yields the sum of serving each ingredient food
/// with its own serving.
pub proof fn lemma_serve_composition(f: FoodV, ia: IngredientV, ib: IngredientV)
    requires
        f.spec == FoodSpecV::Ingredients(seq![ia, ib]),
        spec_serve(ia.food, ia.serving) is Ok,
        spec_serve(ib.food, ib.serving) is Ok,
    ensures
        spec_serve(f, ServingV { size: crate::rat::ratio_int(1), unit: None }) matches Ok(n)
            && nut_eq(
            n,
            nut_add(
                spec_serve(ia.food, ia.serving)->Ok_0,
                spec_serve(ib.food, ib.serving)->Ok_0,
            ),
        ),
{
    let one = crate::rat::ratio_int(1);
    let l = seq![ia, ib];
    let d = ServingV { size: one, unit: None };
    assert(spec_resolve(f.servings, d) == Ok::<Ratio, ErrorV>(one));
    let sa = ServingV { size: ratio_mul(ia.serving.size, one), unit: ia.serving.unit };
    assert(ratio_mul(ia.serving.size, one) == ia.serving.size) by {
        assert(ia.serving.size.num * 1 == ia.serving.size.num) by (nonlinear_arith);
        assert(ia.serving.size.den * 1 == ia.serving.size.den) by (nonlinear_arith);
    }
    assert(sa =~= ia.serving);
    assert(l[0] == ia);
    let l1 = l.drop_first();
    assert(l1 =~= seq![ib]);
    assert(l1[0] == ib);
    let sb = ServingV { size: ratio_mul(ib.serving.size, one), unit: ib.serving.unit };
    assert(ratio_mul(ib.serving.size, one) == ib.serving.size) by {
        assert(ib.serving.size.num * 1 == ib.serving.size.num) by (nonlinear_arith);
        assert(ib.serving.size.den * 1 == ib.serving.size.den) by (nonlinear_arith);
    }
    assert(sb =~= ib.serving);
    let l2 = l1.drop_first();
    assert(l2 =~= Seq::<IngredientV>::empty());
    let na = spec_serve(ia.food, ia.serving)->Ok_0;
    let nb = spec_serve(ib.food, ib.serving)->Ok_0;
    assert(spec_serve_list(l2, one) == Ok::<NutrientsV, ErrorV>(nut_zero()));
    assert(spec_serve_list(l1, one) == Ok::<NutrientsV, ErrorV>(nut_add(nb, nut_zero())));
    assert(nut_add(nb, nut_zero()) == nb) by {
        assert(nb.carb.num * 1 + 0 * nb.carb.den == nb.carb.num) by (nonlinear_arith);
        assert(nb.carb.den * 1 == nb.carb.den) by (nonlinear_arith);
        assert(nb.fat.num * 1 + 0 * nb.fat.den == nb.fat.num) by (nonlinear_arith);
        assert(nb.fat.den * 1 == nb.fat.den) by (nonlinear_arith);
        assert(nb.protein.num * 1 + 0 * nb.protein.den == nb.protein.num) by (nonlinear_arith);
        assert(nb.protein.den * 1 == nb.protein.den) by (nonlinear_arith);
        assert(nb.kcal.num * 1 + 0 * nb.kcal.den == nb.kcal.num) by (nonlinear_arith);
        assert(nb.kcal.den * 1 == nb.kcal.den) by (nonlinear_arith);
    }
    assert(spec_serve_list(l, one) == Ok::<NutrientsV, ErrorV>(nut_add(na, nb)));
}

} // verus!

verus! {

/// The nutrients in one base serving of a food: the stated nutrients, or
/// the sum of one serving of each ingredient food.
pub open spec fn spec_nutrients(f: FoodV) -> NutrientsV
    decreases f,
{
    match f.spec {
        FoodSpecV::Nutrients(n) => n,
        FoodSpecV::Ingredients(l) => spec_nutrients_list(l),
    }
}

/// The summed base-serving nutrients of an ingredient list.
pub open spec fn spec_nutrients_list(l: Seq<IngredientV>) -> NutrientsV
    decreases l,
{
    if l.len() == 0 {
        nut_zero()
    } else {
        nut_add(spec_nutrients(l[0].food), spec_nutrients_list(l.drop_first()))
    }
}

impl Default for FoodSpec {
    /// Zero direct nutrients.
    fn default() -> (r: FoodSpec)
        ensures
            r@ == FoodSpecV::Nutrients(nut_zero()),
    {
        FoodSpec::Nutrients(Nutrients::zero())
    }
}

impl Default for Food {
    /// An unnamed food with zero nutrients and no serving units.
    fn default() -> (r: Food)
        ensures
            r@.name == Seq::<char>::empty(),
            r@.spec == FoodSpecV::Nutrients(nut_zero()),
            r@.servings == Seq::<(Seq<char>, Ratio)>::empty(),
            r.wf(),
    {
        let f = Food { name: String::new(), spec: FoodSpec::Nutrients(Nutrients::zero()), servings: Vec::new() };
        proof {
            assert(table_view(f.servings@) =~= Seq::<(Seq<char>, Ratio)>::empty());
        }
        f
    }
}

impl Food {
    /// The nutrients in one base serving; `None` only when the exact sum
    /// leaves the machine range, and never on inputs satisfying
    /// `nutrients_fits`.
    pub fn nutrients(&self) -> (r: Option<Nutrients>)
        requires
            self.wf(),
        ensures
            match r {
                Some(n) => {
                    &&& n.wf()
                    &&& nut_eq(n@, spec_nutrients(self@))
                    &&& crate::nutrients::nut_within(n@, nutrients_res_bound(self@))
                },
                None => true,
            },
            nutrients_fits(self@) ==> r is Some,
        decreases *self,
    {
        match &self.spec {
            FoodSpec::Nutrients(n) => {
                proof {
                    assert(self@.spec == FoodSpecV::Nutrients(n@));
                    crate::nutrients::lemma_nut_bound_of(n@);
                }
                Some(*n)
            },
            FoodSpec::Ingredients(list) => {
                proof {
                    assert(self@.spec == FoodSpecV::Ingredients(ingredients_view(list@)));
                    assert(ingredients_wf(ingredients_view(list@)));
                    assert(list@.skip(0) =~= list@);
                    assert(decreases_to!(*self => self.spec));
                    assert(decreases_to!(self.spec => *list));
                }
                nutrients_list_from(list, 0)
            },
        }
    }
}

/// Sum the base-serving nutrients of the ingredients from index `i` on.
fn nutrients_list_from(list: &Vec<Ingredient>, i: usize) -> (r: Option<Nutrients>)
    requires
        i <= list@.len(),
        ingredients_wf(ingredients_view(list@.skip(i as int))),
    ensures
        match r {
            Some(n) => {
                &&& n.wf()
                &&& nut_eq(n@, spec_nutrients_list(ingredients_view(list@.skip(i as int))))
                &&& crate::nutrients::nut_within(
                    n@,
                    nutrients_list_res_bound(ingredients_view(list@.skip(i as int))),
                )
            },
            None => true,
        },
        nutrients_list_fits(ingredients_view(list@.skip(i as int))) ==> r is Some,
    decreases list@.skip(i as int),
{
    let ghost lv = ingredients_view(list@.skip(i as int));
    if i == list.len() {
        proof {
            assert(list@.skip(i as int) =~= Seq::<Ingredient>::empty());
            assert(crate::nutrients::nut_within(
                crate::nutrients::nut_zero(),
                nut_bound_zero(),
            ));
        }
        return Some(Nutrients::zero());
    }
    let ing = &list[i];
    proof {
        assert(list@.skip(i as int)[0] == list@[i as int]);
        lemma_ingredients_view(list@.skip(i as int));
        assert(lv[0] == ingredient_view(list@[i as int]));
        assert(ingredient_wf(lv[0]) && ingredients_wf(lv.drop_first()));
        assert(food_wf(lv[0].food));
        assert(ing.food@ == lv[0].food);
        assert(decreases_to!(list@.skip(i as int) => list@.skip(i as int)[0]));
        assert(decreases_to!(list@.skip(i as int)[0] => list@[i as int].food));
    }
    let first = match ing.food.nutrients() {
        Some(n) => n,
        None => {
            return None;
        },
    };
    proof {
        lemma_nutrients_res_bound_ok(lv[0].food);
    }
    proof {
        assert(list@.skip(i as int).drop_first() =~= list@.skip(i + 1));
        lemma_ingredients_view_drop(list@.skip(i as int));
        assert(decreases_to!(list@.skip(i as int) => list@.skip(i as int).drop_first()));
    }
    let rest = match nutrients_list_from(list, i + 1) {
        Some(n) => n,
        None => {
            return None;
        },
    };
    proof {
        lemma_nutrients_list_res_bound_ok(lv.drop_first());
        crate::nutrients::lemma_nut_bound_of(first@);
        crate::nutrients::lemma_nut_bound_of(rest@);
        crate::nutrients::lemma_nut_bound_mono_add(
            crate::nutrients::nut_bound(first@),
            crate::nutrients::nut_bound(rest@),
            nutrients_res_bound(lv[0].food),
            nutrients_list_res_bound(lv.drop_first()),
        );
    }
    match first.add(rest) {
        Some(total) => {
            proof {
                let v0 = spec_nutrients(lv[0].food);
                let vr = spec_nutrients_list(lv.drop_first());
                lemma_spec_nutrients_wf(lv[0].food);
                lemma_spec_nutrients_list_wf(lv.drop_first());
                crate::nutrients::lemma_nut_add_congr(first@, v0, rest@, vr);
                crate::nutrients::lemma_nut_add_wf(first@, rest@);
                crate::nutrients::lemma_nut_add_wf(v0, vr);
                lemma_nut_eq_trans(total@, nut_add(first@, rest@), nut_add(v0, vr));
                crate::nutrients::lemma_nut_within_widen(
                    total@,
                    nut_add(
                        crate::nutrients::nut_bound(first@),
                        crate::nutrients::nut_bound(rest@),
                    ),
                    nut_add(
                        nutrients_res_bound(lv[0].food),
                        nutrients_list_res_bound(lv.drop_first()),
                    ),
                );
            }
            Some(total)
        },
        None => {
            proof {
                if nutrients_list_fits(lv) {
                    crate::nutrients::lemma_nut_fits_narrow(
                        nut_add(
                            crate::nutrients::nut_bound(first@),
                            crate::nutrients::nut_bound(rest@),
                        ),
                        nut_add(
                            nutrients_res_bound(lv[0].food),
                            nutrients_list_res_bound(lv.drop_first()),
                        ),
                    );
                    assert(false);
                }
            }
            None
        },
    }
}

/// Base-serving nutrients of a well-formed food are well-formed.
pub proof fn lemma_spec_nutrients_wf(f: FoodV)
    requires
        food_wf(f),
    ensures
        nut_wf(spec_nutrients(f)),
    decreases f,
{
    match f.spec {
        FoodSpecV::Nutrients(_) => {},
        FoodSpecV::Ingredients(l) => {
            lemma_spec_nutrients_list_wf(l);
        },
    }
}

/// Summed base-serving nutrients of a well-formed list are well-formed.
pub proof fn lemma_spec_nutrients_list_wf(l: Seq<IngredientV>)
    requires
        ingredients_wf(l),
    ensures
        nut_wf(spec_nutrients_list(l)),
    decreases l,
{
    if l.len() > 0 {
        assert(ingredient_wf(l[0]) && ingredients_wf(l.drop_first()));
        lemma_spec_nutrients_wf(l[0].food);
        lemma_spec_nutrients_list_wf(l.drop_first());
        crate::nutrients::lemma_nut_add_wf(
            spec_nutrients(l[0].food),
            spec_nutrients_list(l.drop_first()),
        );
    }
}

} // verus!

verus! {

/// Whether resolution against the table succeeds for this unit: no unit,
/// or exactly one matching row with a non-zero size.
pub open spec fn resolve_ok(t: Seq<(Seq<char>, Ratio)>, unit: Option<Seq<char>>) -> bool {
    match unit {
        None => true,
        Some(u) => {
            let mi = match_indices(t, u);
            mi.len() == 1 && t[mi[0]].1.num != 0
        },
    }
}

/// Magnitude bound of the portion resolution computes, for a serving
/// size within `sb`.
pub open spec fn resolve_bound(t: Seq<(Seq<char>, Ratio)>, unit: Option<Seq<char>>, sb: Ratio) -> Ratio {
    match unit {
        None => sb,
        Some(u) => {
            let mi = match_indices(t, u);
            if mi.len() == 1 && t[mi[0]].1.num != 0 {
                crate::rat::bound_div(sb, crate::rat::rat_bound(t[mi[0]].1))
            } else {
                sb
            }
        },
    }
}

/// Does the resolution arithmetic stay within the machine representation
/// for a serving size within `sb`?
pub open spec fn resolve_fits(t: Seq<(Seq<char>, Ratio)>, unit: Option<Seq<char>>, sb: Ratio) -> bool {
    match unit {
        None => true,
        Some(u) => {
            let mi = match_indices(t, u);
            if mi.len() == 1 && t[mi[0]].1.num != 0 {
                crate::rat::bound_fits(
                    crate::rat::bound_div(sb, crate::rat::rat_bound(t[mi[0]].1)),
                )
            } else {
                true
            }
        },
    }
}

/// Does every arithmetic step of serving this food, for a serving size
/// within `sb`, stay within the machine representation?  On inputs
/// satisfying this, `Food::serve` reports no overflow: it returns exactly
/// what `spec_serve` says.
pub open spec fn serve_fits(f: FoodV, unit: Option<Seq<char>>, sb: Ratio) -> bool
    decreases f,
{
    &&& resolve_fits(f.servings, unit, sb)
    &&& (resolve_ok(f.servings, unit) ==> {
        let pb = resolve_bound(f.servings, unit, sb);
        match f.spec {
            FoodSpecV::Nutrients(n) => crate::nutrients::nut_bound_fits(
                nut_scale(pb, crate::nutrients::nut_bound(n)),
            ),
            FoodSpecV::Ingredients(l) => serve_list_fits(l, pb),
        }
    })
}

/// `serve_fits` over an ingredient list served at a portion within `pb`.
pub open spec fn serve_list_fits(l: Seq<IngredientV>, pb: Ratio) -> bool
    decreases l,
{
    if l.len() == 0 {
        true
    } else {
        let csb = ratio_mul(crate::rat::rat_bound(l[0].serving.size), pb);
        &&& crate::rat::bound_fits(csb)
        &&& serve_fits(l[0].food, l[0].serving.unit, csb)
        &&& serve_list_fits(l.drop_first(), pb)
        &&& crate::nutrients::nut_bound_fits(
            nut_add(
                serve_res_bound(l[0].food, l[0].serving.unit, csb),
                serve_list_res_bound(l.drop_first(), pb),
            ),
        )
    }
}

/// Magnitude bound of the nutrients `serve` yields, for a serving size
/// within `sb`.
pub open spec fn serve_res_bound(f: FoodV, unit: Option<Seq<char>>, sb: Ratio) -> NutrientsV
    decreases f,
{
    let pb = resolve_bound(f.servings, unit, sb);
    match f.spec {
        FoodSpecV::Nutrients(n) => nut_scale(pb, crate::nutrients::nut_bound(n)),
        FoodSpecV::Ingredients(l) => serve_list_res_bound(l, pb),
    }
}

/// The zero nutrient bound.
pub open spec fn nut_bound_zero() -> NutrientsV {
    NutrientsV {
        carb: Ratio { num: 0, den: 1 },
        fat: Ratio { num: 0, den: 1 },
        protein: Ratio { num: 0, den: 1 },
        kcal: Ratio { num: 0, den: 1 },
    }
}

/// Magnitude bound of an ingredient list's summed nutrients.
pub open spec fn serve_list_res_bound(l: Seq<IngredientV>, pb: Ratio) -> NutrientsV
    decreases l,
{
    if l.len() == 0 {
        nut_bound_zero()
    } else {
        let csb = ratio_mul(crate::rat::rat_bound(l[0].serving.size), pb);
        nut_add(
            serve_res_bound(l[0].food, l[0].serving.unit, csb),
            serve_list_res_bound(l.drop_first(), pb),
        )
    }
}

/// The portion bound is a well-formed bound.
pub proof fn lemma_resolve_bound_ok(t: Seq<(Seq<char>, Ratio)>, unit: Option<Seq<char>>, sb: Ratio)
    requires
        table_wf(t),
        crate::rat::bound_ok(sb),
    ensures
        crate::rat::bound_ok(resolve_bound(t, unit, sb)),
{
    match unit {
        None => {},
        Some(u) => {
            let mi = match_indices(t, u);
            if mi.len() == 1 && t[mi[0]].1.num != 0 {
                lemma_match_indices(t, u);
                let row = t[mi[0]].1;
                assert(sb.num * row.den >= 0 && sb.den * crate::rat::mag(row.num) >= 1)
                    by (nonlinear_arith)
                    requires
                        sb.num >= 0,
                        sb.den >= 1,
                        row.den >= 1,
                        crate::rat::mag(row.num) >= 1,
                ;
            }
        },
    }
}

/// The portion bound grows with the size bound.
pub proof fn lemma_resolve_bound_mono(
    t: Seq<(Seq<char>, Ratio)>,
    unit: Option<Seq<char>>,
    sb1: Ratio,
    sb2: Ratio,
)
    requires
        table_wf(t),
        crate::rat::bound_ok(sb1),
        crate::rat::bound_ok(sb2),
        crate::rat::bound_le(sb1, sb2),
    ensures
        crate::rat::bound_le(resolve_bound(t, unit, sb1), resolve_bound(t, unit, sb2)),
        resolve_fits(t, unit, sb2) ==> resolve_fits(t, unit, sb1),
{
    match unit {
        None => {},
        Some(u) => {
            let mi = match_indices(t, u);
            if mi.len() == 1 && t[mi[0]].1.num != 0 {
                lemma_match_indices(t, u);
                crate::rat::lemma_bound_mono_div(sb1, sb2, crate::rat::rat_bound(t[mi[0]].1));
            }
        },
    }
}

/// The result bound grows with the size bound.
pub proof fn lemma_serve_res_bound_mono(f: FoodV, unit: Option<Seq<char>>, sb1: Ratio, sb2: Ratio)
    requires
        food_wf(f),
        crate::rat::bound_ok(sb1),
        crate::rat::bound_ok(sb2),
        crate::rat::bound_le(sb1, sb2),
    ensures
        crate::nutrients::nut_bound_le(
            serve_res_bound(f, unit, sb1),
            serve_res_bound(f, unit, sb2),
        ),
        crate::nutrients::nut_bound_ok(serve_res_bound(f, unit, sb1)),
    decreases f,
{
    lemma_resolve_bound_ok(f.servings, unit, sb1);
    lemma_resolve_bound_ok(f.servings, unit, sb2);
    lemma_resolve_bound_mono(f.servings, unit, sb1, sb2);
    let pb1 = resolve_bound(f.servings, unit, sb1);
    let pb2 = resolve_bound(f.servings, unit, sb2);
    match f.spec {
        FoodSpecV::Nutrients(n) => {
            crate::nutrients::lemma_nut_bound_of(n);
            crate::nutrients::lemma_nut_bound_mono_scale(
                pb1,
                crate::nutrients::nut_bound(n),
                pb2,
                crate::nutrients::nut_bound(n),
            );
        },
        FoodSpecV::Ingredients(l) => {
            lemma_serve_list_res_bound_mono(l, pb1, pb2);
        },
    }
}

/// The list result bound grows with the portion bound.
pub proof fn lemma_serve_list_res_bound_mono(l: Seq<IngredientV>, pb1: Ratio, pb2: Ratio)
    requires
        ingredients_wf(l),
        crate::rat::bound_ok(pb1),
        crate::rat::bound_ok(pb2),
        crate::rat::bound_le(pb1, pb2),
    ensures
        crate::nutrients::nut_bound_le(
            serve_list_res_bound(l, pb1),
            serve_list_res_bound(l, pb2),
        ),
        crate::nutrients::nut_bound_ok(serve_list_res_bound(l, pb1)),
    decreases l,
{
    if l.len() > 0 {
        assert(ingredient_wf(l[0]) && ingredients_wf(l.drop_first()));
        assert(serving_wf(l[0].serving) && food_wf(l[0].food));
        let rb = crate::rat::rat_bound(l[0].serving.size);
        let csb1 = ratio_mul(rb, pb1);
        let csb2 = ratio_mul(rb, pb2);
        crate::rat::lemma_bound_mono_mul(rb, pb1, rb, pb2);
        lemma_serve_res_bound_mono(l[0].food, l[0].serving.unit, csb1, csb2);
        lemma_serve_list_res_bound_mono(l.drop_first(), pb1, pb2);
        crate::nutrients::lemma_nut_bound_mono_add(
            serve_res_bound(l[0].food, l[0].serving.unit, csb1),
            serve_list_res_bound(l.drop_first(), pb1),
            serve_res_bound(l[0].food, l[0].serving.unit, csb2),
            serve_list_res_bound(l.drop_first(), pb2),
        );
    }
}

/// `serve_fits` narrows with the size bound: what fits at a wide bound
/// fits at every tighter one.
pub proof fn lemma_serve_fits_mono(f: FoodV, unit: Option<Seq<char>>, sb1: Ratio, sb2: Ratio)
    requires
        food_wf(f),
        crate::rat::bound_ok(sb1),
        crate::rat::bound_ok(sb2),
        crate::rat::bound_le(sb1, sb2),
        serve_fits(f, unit, sb2),
    ensures
        serve_fits(f, unit, sb1),
    decreases f,
{
    lemma_resolve_bound_ok(f.servings, unit, sb1);
    lemma_resolve_bound_ok(f.servings, unit, sb2);
    lemma_resolve_bound_mono(f.servings, unit, sb1, sb2);
    if resolve_ok(f.servings, unit) {
        let pb1 = resolve_bound(f.servings, unit, sb1);
        let pb2 = resolve_bound(f.servings, unit, sb2);
        match f.spec {
            FoodSpecV::Nutrients(n) => {
                crate::nutrients::lemma_nut_bound_of(n);
                crate::nutrients::lemma_nut_bound_mono_scale(
                    pb1,
                    crate::nutrients::nut_bound(n),
                    pb2,
                    crate::nutrients::nut_bound(n),
                );
            },
            FoodSpecV::Ingredients(l) => {
                lemma_serve_list_fits_mono(l, pb1, pb2);
            },
        }
    }
}

/// `serve_list_fits` narrows with the portion bound.
pub proof fn lemma_serve_list_fits_mono(l: Seq<IngredientV>, pb1: Ratio, pb2: Ratio)
    requires
        ingredients_wf(l),
        crate::rat::bound_ok(pb1),
        crate::rat::bound_ok(pb2),
        crate::rat::bound_le(pb1, pb2),
        serve_list_fits(l, pb2),
    ensures
        serve_list_fits(l, pb1),
    decreases l,
{
    if l.len() > 0 {
        assert(ingredient_wf(l[0]) && ingredients_wf(l.drop_first()));
        assert(serving_wf(l[0].serving) && food_wf(l[0].food));
        let rb = crate::rat::rat_bound(l[0].serving.size);
        let csb1 = ratio_mul(rb, pb1);
        let csb2 = ratio_mul(rb, pb2);
        crate::rat::lemma_bound_mono_mul(rb, pb1, rb, pb2);
        lemma_serve_fits_mono(l[0].food, l[0].serving.unit, csb1, csb2);
        lemma_serve_list_fits_mono(l.drop_first(), pb1, pb2);
        lemma_serve_res_bound_mono(l[0].food, l[0].serving.unit, csb1, csb2);
        lemma_serve_list_res_bound_mono(l.drop_first(), pb1, pb2);
        crate::nutrients::lemma_nut_bound_mono_add(
            serve_res_bound(l[0].food, l[0].serving.unit, csb1),
            serve_list_res_bound(l.drop_first(), pb1),
            serve_res_bound(l[0].food, l[0].serving.unit, csb2),
            serve_list_res_bound(l.drop_first(), pb2),
        );
    }
}

} // verus!

verus! {

/// Does every arithmetic step of summing this food's base-serving
/// nutrients stay within the machine representation?
pub open spec fn nutrients_fits(f: FoodV) -> bool
    decreases f,
{
    match f.spec {
        FoodSpecV::Nutrients(_) => true,
        FoodSpecV::Ingredients(l) => nutrients_list_fits(l),
    }
}

/// `nutrients_fits` over an ingredient list.
pub open spec fn nutrients_list_fits(l: Seq<IngredientV>) -> bool
    decreases l,
{
    if l.len() == 0 {
        true
    } else {
        &&& nutrients_fits(l[0].food)
        &&& nutrients_list_fits(l.drop_first())
        &&& crate::nutrients::nut_bound_fits(
            nut_add(nutrients_res_bound(l[0].food), nutrients_list_res_bound(l.drop_first())),
        )
    }
}

/// Magnitude bound of a food's base-serving nutrients.
pub open spec fn nutrients_res_bound(f: FoodV) -> NutrientsV
    decreases f,
{
    match f.spec {
        FoodSpecV::Nutrients(n) => crate::nutrients::nut_bound(n),
        FoodSpecV::Ingredients(l) => nutrients_list_res_bound(l),
    }
}

/// Magnitude bound of an ingredient list's summed base-serving nutrients.
pub open spec fn nutrients_list_res_bound(l: Seq<IngredientV>) -> NutrientsV
    decreases l,
{
    if l.len() == 0 {
        nut_bound_zero()
    } else {
        nut_add(nutrients_res_bound(l[0].food), nutrients_list_res_bound(l.drop_first()))
    }
}

/// The base-serving nutrient bound is a well-formed bound.
pub proof fn lemma_nutrients_res_bound_ok(f: FoodV)
    requires
        food_wf(f),
    ensures
        crate::nutrients::nut_bound_ok(nutrients_res_bound(f)),
    decreases f,
{
    match f.spec {
        FoodSpecV::Nutrients(n) => {
            crate::nutrients::lemma_nut_bound_of(n);
        },
        FoodSpecV::Ingredients(l) => {
            lemma_nutrients_list_res_bound_ok(l);
        },
    }
}

/// The list's base-serving nutrient bound is a well-formed bound.
pub proof fn lemma_nutrients_list_res_bound_ok(l: Seq<IngredientV>)
    requires
        ingredients_wf(l),
    ensures
        crate::nutrients::nut_bound_ok(nutrients_list_res_bound(l)),
    decreases l,
{
    if l.len() > 0 {
        assert(ingredient_wf(l[0]) && ingredients_wf(l.drop_first()));
        lemma_nutrients_res_bound_ok(l[0].food);
        lemma_nutrients_list_res_bound_ok(l.drop_first());
        crate::nutrients::lemma_nut_bound_mono_add(
            nutrients_res_bound(l[0].food),
            nutrients_list_res_bound(l.drop_first()),
            nutrients_res_bound(l[0].food),
            nutrients_list_res_bound(l.drop_first()),
        );
    }
}

} // verus!

