//! Mapping remote nutrition-database search results to foods.
//!
//! The HTTP traffic itself lives outside this crate; what arrives here is
//! a page of candidate records with optional nutrient and serving-size
//! fields, which are folded into [`Food`] values by fixed rules.
use vstd::prelude::*;

use crate::food::{Food, FoodSpec, FoodSpecV, FoodV};
use crate::nutrients::{Nutrients, NutrientsV};
use crate::rat::{ratio_int, Rat, Ratio};

verus! {

/// The remote nutrition-database search endpoint.
pub const FDC_URL: &'static str = "https://api.nal.usda.gov/fdc/v1/foods/search";

/// A search against the remote nutrition database.  The page number
/// starts at 1; fetching a page is the caller's business.
pub struct Search<'a> {
    pub term: &'a str,
    pub page_size: usize,
    pub url: &'a str,
    pub page: usize,
}

impl<'a> Default for Search<'a> {
    /// An empty search against the standard endpoint, fifty results a
    /// page, starting at page one.
    fn default() -> (r: Search<'a>)
        ensures
            r.term@ == Seq::<char>::empty(),
            r.page_size == 50,
            r.page == 1,
            r.url@ == FDC_URL@,
    {
        proof {
            reveal_strlit("");
        }
        Search { term: "", url: FDC_URL, page_size: 50, page: 1 }
    }
}

/// Specification-level mirror of [`SearchNutrient`].
#[verifier::ext_equal]
pub struct SearchNutrientV {
    pub nutrient_id: int,
    pub value: Ratio,
}

/// One nutrient reading of a search result, under the remote nutrient-id
/// scheme.
#[derive(Debug)]
pub struct SearchNutrient {
    pub nutrient_id: u32,
    pub value: Rat,
}

impl View for SearchNutrient {
    type V = SearchNutrientV;

    open spec fn view(&self) -> SearchNutrientV {
        SearchNutrientV { nutrient_id: self.nutrient_id as int, value: self.value@ }
    }
}

/// Specification-level mirror of [`SearchFood`].
#[verifier::ext_equal]
pub struct SearchFoodV {
    pub description: Option<Seq<char>>,
    pub serving_size: Option<Ratio>,
    pub serving_size_unit: Option<Seq<char>>,
    pub household_serving_full_text: Option<Seq<char>>,
    pub food_nutrients: Option<Seq<SearchNutrientV>>,
}

/// One candidate food of a search page, as the remote database describes
/// it.
#[derive(Debug)]
pub struct SearchFood {
    pub description: Option<String>,
    pub serving_size: Option<Rat>,
    pub serving_size_unit: Option<String>,
    pub household_serving_full_text: Option<String>,
    pub food_nutrients: Option<Vec<SearchNutrient>>,
}

/// The view of a nutrient list.
pub open spec fn nutrients_list_view(v: Seq<SearchNutrient>) -> Seq<SearchNutrientV> {
    v.map_values(|x: SearchNutrient| x@)
}

impl View for SearchFood {
    type V = SearchFoodV;

    open spec fn view(&self) -> SearchFoodV {
        SearchFoodV {
            description: match &self.description {
                Some(d) => Some(d@),
                None => None,
            },
            serving_size: match &self.serving_size {
                Some(s) => Some(s@),
                None => None,
            },
            serving_size_unit: match &self.serving_size_unit {
                Some(u) => Some(u@),
                None => None,
            },
            household_serving_full_text: match &self.household_serving_full_text {
                Some(t) => Some(t@),
                None => None,
            },
            food_nutrients: match &self.food_nutrients {
                Some(l) => Some(nutrients_list_view(l@)),
                None => None,
            },
        }
    }
}

/// The first reading with the given nutrient id, if any.
pub open spec fn spec_nutrient(l: Seq<SearchNutrientV>, id: int) -> Option<Ratio>
    decreases l.len(),
{
    if l.len() == 0 {
        None
    } else if l[0].nutrient_id == id {
        Some(l[0].value)
    } else {
        spec_nutrient(l.drop_first(), id)
    }
}

/// The first reading with the given id from an optional list.
pub open spec fn spec_nutrient_of(f: SearchFoodV, id: int) -> Option<Ratio> {
    match f.food_nutrients {
        Some(l) => spec_nutrient(l, id),
        None => None,
    }
}

/// The first of two optional readings, or zero.
pub open spec fn or_zero(a: Option<Ratio>, b: Option<Ratio>) -> Ratio {
    match a {
        Some(v) => v,
        None => match b {
            Some(v) => v,
            None => ratio_int(0),
        },
    }
}

/// The nutrients of a search result: carbohydrate by difference (id
/// 1005) or by summation (1050); fat (1004); protein (1003); energy by
/// Atwater specific factors (2048), Atwater general factors (2047), or
/// plain energy (1008).  Missing readings count as zero.
pub open spec fn spec_search_nutrients(f: SearchFoodV) -> NutrientsV {
    NutrientsV {
        carb: or_zero(spec_nutrient_of(f, 1005), spec_nutrient_of(f, 1050)),
        fat: or_zero(spec_nutrient_of(f, 1004), None),
        protein: or_zero(spec_nutrient_of(f, 1003), None),
        kcal: match spec_nutrient_of(f, 2048) {
            Some(v) => v,
            None => or_zero(spec_nutrient_of(f, 2047), spec_nutrient_of(f, 1008)),
        },
    }
}

/// The serving table of a search result: the declared serving size and
/// unit if both are present; then the household serving text split at its
/// first blank into an amount and a unit, when the amount parses; if that
/// text is present but unreadable, nothing further; otherwise, when the
/// table would be empty, 100 grams to a serving.
pub open spec fn spec_search_servings(f: SearchFoodV) -> Seq<(Seq<char>, Ratio)> {
    let base: Seq<(Seq<char>, Ratio)> = match (f.serving_size_unit, f.serving_size) {
        (Some(u), Some(s)) => seq![(u, s)],
        _ => Seq::empty(),
    };
    match f.household_serving_full_text {
        Some(t) => {
            let i = crate::text::first_space(t);
            if i < 0 {
                base
            } else {
                match crate::rat::spec_parse_dec(t.take(i)) {
                    Some(v) => base.push((t.skip(i + 1), v)),
                    None => base,
                }
            }
        },
        None => {
            if base.len() == 0 {
                seq![("g"@, Ratio { num: 100, den: 1 })]
            } else {
                base
            }
        },
    }
}

/// The food a search result stands for.
pub open spec fn spec_food_of(f: SearchFoodV) -> FoodV {
    FoodV {
        name: match f.description {
            Some(d) => d,
            None => Seq::empty(),
        },
        spec: FoodSpecV::Nutrients(spec_search_nutrients(f)),
        servings: spec_search_servings(f),
    }
}

impl SearchFood {
    /// The first reading with the given nutrient id.
    pub fn nutrient(&self, id: u32) -> (r: Option<Rat>)
        ensures
            match r {
                Some(v) => spec_nutrient_of(self@, id as int) == Some(v@),
                None => spec_nutrient_of(self@, id as int) is None,
            },
    {
        match &self.food_nutrients {
            None => None,
            Some(l) => {
                let ghost lv = nutrients_list_view(l@);
                let n = l.len();
                let mut i: usize = 0;
                proof {
                    assert(lv.skip(0) =~= lv);
                }
                while i < n
                    invariant
                        0 <= i <= n,
                        n == l@.len(),
                        lv == nutrients_list_view(l@),
                        self@.food_nutrients == Some(lv),
                        lv.len() == n,
                        spec_nutrient(lv, id as int) == spec_nutrient(
                            lv.skip(i as int),
                            id as int,
                        ),
                    decreases n - i,
                {
                    proof {
                        assert(lv.skip(i as int)[0] == lv[i as int]);
                        assert(lv[i as int] == l@[i as int]@);
                        assert(lv.skip(i as int).drop_first() =~= lv.skip(i + 1));
                    }
                    if l[i].nutrient_id == id {
                        return Some(l[i].value);
                    }
                    i = i + 1;
                }
                proof {
                    assert(lv.skip(n as int) =~= Seq::<SearchNutrientV>::empty());
                }
                None
            },
        }
    }

    /// The nutrients of this search result, under the fixed id
    /// preferences.
    pub fn nutrients(&self) -> (r: Nutrients)
        ensures
            r@ == spec_search_nutrients(self@),
    {
        let zero = Rat::from_int(0);
        let carb = match self.nutrient(1005) {
            Some(v) => v,
            None => match self.nutrient(1050) {
                Some(v) => v,
                None => zero,
            },
        };
        let fat = match self.nutrient(1004) {
            Some(v) => v,
            None => zero,
        };
        let protein = match self.nutrient(1003) {
            Some(v) => v,
            None => zero,
        };
        let kcal = match self.nutrient(2048) {
            Some(v) => v,
            None => match self.nutrient(2047) {
                Some(v) => v,
                None => match self.nutrient(1008) {
                    Some(v) => v,
                    None => zero,
                },
            },
        };
        Nutrients { carb, fat, protein, kcal }
    }

    /// The serving table of this search result.
    pub fn servings(&self) -> (r: Vec<(String, Rat)>)
        ensures
            crate::food::table_view(r@) == spec_search_servings(self@),
    {
        let mut res: Vec<(String, Rat)> = Vec::new();
        let ghost base: Seq<(Seq<char>, Ratio)> = match (
            self@.serving_size_unit,
            self@.serving_size,
        ) {
            (Some(u), Some(s)) => seq![(u, s)],
            _ => Seq::empty(),
        };
        match (&self.serving_size_unit, &self.serving_size) {
            (Some(u), Some(s)) => {
                res.push((u.clone(), *s));
                proof {
                    assert(crate::food::table_view(res@) =~= base);
                }
            },
            _ => {
                proof {
                    assert(crate::food::table_view(res@) =~= base);
                }
            },
        }
        match &self.household_serving_full_text {
            Some(t) => {
                match crate::text::find_space(t.as_str()) {
                    None => res,
                    Some(i) => {
                        let n = t.as_str().unicode_len();
                        let amount = t.as_str().substring_char(0, i);
                        let unit = t.as_str().substring_char(i + 1, n).to_owned();
                        proof {
                            assert(amount@ =~= t@.take(i as int));
                            assert(unit@ =~= t@.skip(i + 1));
                        }
                        match crate::rat::parse_dec(amount) {
                            Some(v) => {
                                let ghost pre = res@;
                                res.push((unit, v));
                                proof {
                                    assert(crate::food::table_view(res@) =~= crate::food::table_view(
                                        pre,
                                    ).push((t@.skip(i + 1), v@)));
                                }
                                res
                            },
                            None => res,
                        }
                    },
                }
            },
            None => {
                if res.len() == 0 {
                    let g = Rat::from_int(100);
                    proof {
                        reveal_strlit("g");
                    }
                    res.push(("g".to_owned(), g));
                    proof {
                        assert(crate::food::table_view(res@) =~= seq![
                            ("g"@, Ratio { num: 100, den: 1 }),
                        ]);
                    }
                    res
                } else {
                    res
                }
            },
        }
    }

    /// The food this search result stands for.
    pub fn to_food(&self) -> (r: Food)
        ensures
            r@ == spec_food_of(self@),
    {
        let name = match &self.description {
            Some(d) => d.clone(),
            None => String::new(),
        };
        let nutrients = self.nutrients();
        let servings = self.servings();
        let f = Food { name, spec: FoodSpec::Nutrients(nutrients), servings };
        proof {
            assert(f@ =~= spec_food_of(self@));
        }
        f
    }
}

/// One page of search results.
#[derive(Debug)]
pub struct Page {
    pub foods: Vec<SearchFood>,
}

/// The views of a page's results.
pub open spec fn page_view(v: Seq<SearchFood>) -> Seq<SearchFoodV> {
    v.map_values(|x: SearchFood| x@)
}

impl Page {
    /// The foods of the page, converted in order.
    pub fn iter(&self) -> (r: Vec<Food>)
        ensures
            r@.len() == self.foods@.len(),
            forall|i: int|
                0 <= i < r@.len() ==> crate::food::food_view(#[trigger] r@[i]) == spec_food_of(
                    self.foods@[i]@,
                ),
    {
        let mut out: Vec<Food> = Vec::new();
        let n = self.foods.len();
        let mut i: usize = 0;
        while i < n
            invariant
                0 <= i <= n,
                n == self.foods@.len(),
                out@.len() == i,
                forall|j: int|
                    0 <= j < i ==> crate::food::food_view(#[trigger] out@[j]) == spec_food_of(
                        self.foods@[j]@,
                    ),
            decreases n - i,
        {
            out.push(self.foods[i].to_food());
            i = i + 1;
        }
        out
    }
}

} // verus!
