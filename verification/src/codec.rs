//! The food record text format.
//!
//! A food file is line-oriented: a general `name = ...` entry, then a
//! `[nutrients]` or `[ingredients]` section, and a `[servings]` section.
//! Parsing yields a [`FoodStub`], in which referenced foods are still bare
//! keys; resolving a stub against the foods looked up for those keys gives
//! a [`Food`].
use vstd::prelude::*;

use crate::error::{Error, ErrorV};
use crate::food::{
    food_view, ingredient_view, ingredients_view, table_view, Food, FoodSpec, FoodSpecV, FoodV,
    Ingredient, IngredientV,
};
use crate::nutrients::{Nutrients, NutrientsV};
use crate::rat::{spec_parse_dec, Rat, Ratio};
use crate::serving::{spec_parse_serving, Serving, ServingV};
use crate::text::{first_char, spec_trim};

verus! {

/// Specification-level mirror of [`StubSpec`].
#[verifier::ext_equal]
pub enum StubSpecV {
    Nutrients(NutrientsV),
    Ingredients(Seq<(Seq<char>, ServingV)>),
}

/// Specification-level mirror of [`FoodStub`].
#[verifier::ext_equal]
pub struct FoodStubV {
    pub name: Seq<char>,
    pub spec: StubSpecV,
    pub servings: Seq<(Seq<char>, Ratio)>,
}

/// A parsed food definition before its ingredient keys are resolved.
#[derive(Debug)]
pub enum StubSpec {
    Nutrients(Nutrients),
    Ingredients(Vec<(String, Serving)>),
}

/// A food record as read from its file: ingredients are still (key,
/// serving) pairs waiting to be resolved.
#[derive(Debug)]
pub struct FoodStub {
    pub name: String,
    pub spec: StubSpec,
    pub servings: Vec<(String, Rat)>,
}

/// The view of an ingredient-entry list.
pub open spec fn entries_view(v: Seq<(String, Serving)>) -> Seq<(Seq<char>, ServingV)> {
    v.map_values(|p: (String, Serving)| (p.0@, p.1@))
}

impl View for StubSpec {
    type V = StubSpecV;

    open spec fn view(&self) -> StubSpecV {
        match self {
            StubSpec::Nutrients(n) => StubSpecV::Nutrients(n@),
            StubSpec::Ingredients(v) => StubSpecV::Ingredients(entries_view(v@)),
        }
    }
}

impl View for FoodStub {
    type V = FoodStubV;

    open spec fn view(&self) -> FoodStubV {
        FoodStubV { name: self.name@, spec: self.spec@, servings: table_view(self.servings@) }
    }
}

/// Which section of the record the reader is in.
#[derive(PartialEq, Eq, Structural, Clone, Copy, Debug)]
pub enum Sect {
    General,
    Nutrients,
    Ingredients,
    Servings,
    Other,
}

/// Specification-level reader state: the current section, what has been
/// collected so far, and which sections have been seen.
#[verifier::ext_equal]
pub struct PStateV {
    pub section: Sect,
    pub name: Option<Seq<char>>,
    pub nut: NutrientsV,
    pub saw_nut: bool,
    pub ing: Seq<(Seq<char>, ServingV)>,
    pub saw_ing: bool,
    pub servings: Seq<(Seq<char>, Ratio)>,
}

/// The reader state before any line.
pub open spec fn init_state() -> PStateV {
    PStateV {
        section: Sect::General,
        name: None,
        nut: crate::nutrients::nut_zero(),
        saw_nut: false,
        ing: Seq::empty(),
        saw_ing: false,
        servings: Seq::empty(),
    }
}

/// One line of a food record applied to the reader state.
///
/// Blank lines are skipped; `[...]` lines switch the section; any other
/// line must be `key = value`, read according to the current section.
/// Unknown keys outside the entry sections are ignored.
pub open spec fn spec_step(st: PStateV, line0: Seq<char>) -> Result<PStateV, ErrorV> {
    let line = spec_trim(line0);
    if line.len() == 0 {
        Ok(st)
    } else if line[0] == '[' && line[line.len() - 1] == ']' {
        let inner = line.subrange(1, line.len() - 1);
        if inner == "nutrients"@ {
            Ok(PStateV { section: Sect::Nutrients, saw_nut: true, ..st })
        } else if inner == "ingredients"@ {
            Ok(PStateV { section: Sect::Ingredients, saw_ing: true, ..st })
        } else if inner == "servings"@ {
            Ok(PStateV { section: Sect::Servings, ..st })
        } else {
            Ok(PStateV { section: Sect::Other, ..st })
        }
    } else {
        let eq = first_char(line, '=');
        if eq < 0 {
            Err(ErrorV::BadLine { line })
        } else {
            let key = spec_trim(line.take(eq));
            let val = spec_trim(line.skip(eq + 1));
            match st.section {
                Sect::General => {
                    if key == "name"@ {
                        Ok(PStateV { name: Some(val), ..st })
                    } else {
                        Ok(st)
                    }
                },
                Sect::Nutrients => {
                    if key == "carb"@ {
                        match spec_parse_dec(val) {
                            Some(v) => Ok(
                                PStateV { nut: NutrientsV { carb: v, ..st.nut }, ..st },
                            ),
                            None => Err(ErrorV::BadNumber { text: val }),
                        }
                    } else if key == "fat"@ {
                        match spec_parse_dec(val) {
                            Some(v) => Ok(PStateV { nut: NutrientsV { fat: v, ..st.nut }, ..st }),
                            None => Err(ErrorV::BadNumber { text: val }),
                        }
                    } else if key == "protein"@ {
                        match spec_parse_dec(val) {
                            Some(v) => Ok(
                                PStateV { nut: NutrientsV { protein: v, ..st.nut }, ..st },
                            ),
                            None => Err(ErrorV::BadNumber { text: val }),
                        }
                    } else if key == "kcal"@ {
                        match spec_parse_dec(val) {
                            Some(v) => Ok(PStateV { nut: NutrientsV { kcal: v, ..st.nut }, ..st }),
                            None => Err(ErrorV::BadNumber { text: val }),
                        }
                    } else {
                        Ok(st)
                    }
                },
                Sect::Ingredients => {
                    match spec_parse_serving(val) {
                        Ok(sv) => Ok(PStateV { ing: st.ing.push((key, sv)), ..st }),
                        Err(e) => Err(e),
                    }
                },
                Sect::Servings => {
                    match spec_parse_dec(val) {
                        Some(v) => Ok(PStateV { servings: st.servings.push((key, v)), ..st }),
                        None => Err(ErrorV::BadNumber { text: val }),
                    }
                },
                Sect::Other => Ok(st),
            }
        }
    }
}

/// All lines applied in order; the first failure wins.
pub open spec fn spec_parse_lines(lines: Seq<Seq<char>>, st: PStateV) -> Result<PStateV, ErrorV>
    decreases lines.len(),
{
    if lines.len() == 0 {
        Ok(st)
    } else {
        match spec_step(st, lines[0]) {
            Ok(m) => spec_parse_lines(lines.drop_first(), m),
            Err(e) => Err(e),
        }
    }
}

/// Close the reader: a name is required, and exactly one of the
/// `[nutrients]` and `[ingredients]` sections must have appeared.
pub open spec fn spec_finish(st: PStateV) -> Result<FoodStubV, ErrorV> {
    if st.name is None {
        Err(ErrorV::MissingName)
    } else if st.saw_nut && st.saw_ing {
        Err(ErrorV::ConflictingSpec)
    } else if !st.saw_nut && !st.saw_ing {
        Err(ErrorV::MissingSpec)
    } else {
        Ok(
            FoodStubV {
                name: st.name->0,
                spec: if st.saw_nut {
                    StubSpecV::Nutrients(st.nut)
                } else {
                    StubSpecV::Ingredients(st.ing)
                },
                servings: st.servings,
            },
        )
    }
}

/// What a food record's text denotes.
pub open spec fn spec_parse_food(text: Seq<char>) -> Result<FoodStubV, ErrorV> {
    match spec_parse_lines(crate::text::split_on(text, '\n'), init_state()) {
        Ok(st) => spec_finish(st),
        Err(e) => Err(e),
    }
}

/// Executable reader state.
struct PState {
    section: Sect,
    name: Option<String>,
    nut: Nutrients,
    saw_nut: bool,
    ing: Vec<(String, Serving)>,
    saw_ing: bool,
    servings: Vec<(String, Rat)>,
}

impl View for PState {
    type V = PStateV;

    closed spec fn view(&self) -> PStateV {
        PStateV {
            section: self.section,
            name: match &self.name {
                Some(n) => Some(n@),
                None => None,
            },
            nut: self.nut@,
            saw_nut: self.saw_nut,
            ing: entries_view(self.ing@),
            saw_ing: self.saw_ing,
            servings: table_view(self.servings@),
        }
    }
}

/// Apply one line to the reader state.
fn exec_step(st: PState, line0: &str) -> (r: Result<PState, Error>)
    ensures
        match r {
            Ok(m) => spec_step(st@, line0@) == Ok::<PStateV, ErrorV>(m@),
            Err(e) => spec_step(st@, line0@) == Err::<PStateV, ErrorV>(e@),
        },
{
    let trimmed = crate::text::trim(line0);
    let line = trimmed.as_str();
    let n = line.unicode_len();
    if n == 0 {
        return Ok(st);
    }
    if line.get_char(0) == '[' && line.get_char(n - 1) == ']' {
        let inner = line.substring_char(1, n - 1);
        proof {
            assert(inner@ =~= spec_trim(line0@).subrange(1, spec_trim(line0@).len() - 1));
        }
        if crate::text::str_eq(inner, "nutrients") {
            return Ok(PState { section: Sect::Nutrients, saw_nut: true, ..st });
        } else if crate::text::str_eq(inner, "ingredients") {
            return Ok(PState { section: Sect::Ingredients, saw_ing: true, ..st });
        } else if crate::text::str_eq(inner, "servings") {
            return Ok(PState { section: Sect::Servings, ..st });
        } else {
            return Ok(PState { section: Sect::Other, ..st });
        }
    }
    let eq = match find_eq(line) {
        Some(j) => j,
        None => {
            return Err(Error::BadLine { line: trimmed });
        },
    };
    let key_s = line.substring_char(0, eq);
    let val_s = line.substring_char(eq + 1, n);
    let key = crate::text::trim(key_s);
    let val = crate::text::trim(val_s);
    proof {
        assert(key_s@ =~= spec_trim(line0@).take(eq as int));
        assert(val_s@ =~= spec_trim(line0@).skip(eq + 1));
    }
    match st.section {
        Sect::General => {
            if crate::text::str_eq(key.as_str(), "name") {
                Ok(PState { name: Some(val), ..st })
            } else {
                Ok(st)
            }
        },
        Sect::Nutrients => {
            if crate::text::str_eq(key.as_str(), "carb") {
                match crate::rat::parse_dec(val.as_str()) {
                    Some(v) => Ok(PState { nut: Nutrients { carb: v, ..st.nut }, ..st }),
                    None => Err(Error::BadNumber { text: val }),
                }
            } else if crate::text::str_eq(key.as_str(), "fat") {
                match crate::rat::parse_dec(val.as_str()) {
                    Some(v) => Ok(PState { nut: Nutrients { fat: v, ..st.nut }, ..st }),
                    None => Err(Error::BadNumber { text: val }),
                }
            } else if crate::text::str_eq(key.as_str(), "protein") {
                match crate::rat::parse_dec(val.as_str()) {
                    Some(v) => Ok(PState { nut: Nutrients { protein: v, ..st.nut }, ..st }),
                    None => Err(Error::BadNumber { text: val }),
                }
            } else if crate::text::str_eq(key.as_str(), "kcal") {
                match crate::rat::parse_dec(val.as_str()) {
                    Some(v) => Ok(PState { nut: Nutrients { kcal: v, ..st.nut }, ..st }),
                    None => Err(Error::BadNumber { text: val }),
                }
            } else {
                Ok(st)
            }
        },
        Sect::Ingredients => {
            match Serving::from_str(val.as_str()) {
                Ok(sv) => {
                    let mut ing = st.ing;
                    proof {
                        assert(entries_view(ing@.push((key, sv))) =~= entries_view(ing@).push(
                            (key@, sv@),
                        ));
                    }
                    ing.push((key, sv));
                    Ok(PState { ing, ..st })
                },
                Err(e) => Err(e),
            }
        },
        Sect::Servings => {
            match crate::rat::parse_dec(val.as_str()) {
                Some(v) => {
                    let mut servings = st.servings;
                    proof {
                        assert(table_view(servings@.push((key, v))) =~= table_view(
                            servings@,
                        ).push((key@, v@)));
                    }
                    servings.push((key, v));
                    Ok(PState { servings, ..st })
                },
                None => Err(Error::BadNumber { text: val }),
            }
        },
        Sect::Other => Ok(st),
    }
}

/// Find the first `=` with the `first_char` characterization.
pub(crate) fn find_eq(s: &str) -> (r: Option<usize>)
    ensures
        match r {
            Some(j) => 0 <= j < s@.len() && first_char(s@, '=') == j,
            None => first_char(s@, '=') == -1,
        },
{
    let n = s.unicode_len();
    let mut i: usize = 0;
    while i < n
        invariant
            0 <= i <= n,
            n == s@.len(),
            forall|q: int| 0 <= q < i ==> s@[q] != '=',
        decreases n - i,
    {
        if s.get_char(i) == '=' {
            proof {
                crate::text::lemma_first_char_is(s@, '=', i as int);
            }
            return Some(i);
        }
        i = i + 1;
    }
    proof {
        crate::text::lemma_first_char_none(s@, '=');
    }
    None
}

impl Food {
    /// Parse a food record's text into a stub whose ingredient keys still
    /// have to be resolved.
    pub fn parse(text: &str) -> (r: Result<FoodStub, Error>)
        ensures
            match r {
                Ok(stub) => spec_parse_food(text@) == Ok::<FoodStubV, ErrorV>(stub@),
                Err(e) => spec_parse_food(text@) == Err::<FoodStubV, ErrorV>(e@),
            },
    {
        let lines = crate::text::split_char(text, '\n');
        let ghost lv = crate::text::split_on(text@, '\n');
        let mut st = PState {
            section: Sect::General,
            name: None,
            nut: Nutrients::zero(),
            saw_nut: false,
            ing: Vec::new(),
            saw_ing: false,
            servings: Vec::new(),
        };
        proof {
            assert(st@ =~= init_state());
            assert(lv.skip(0) =~= lv);
        }
        let mut i: usize = 0;
        let n = lines.len();
        while i < n
            invariant
                0 <= i <= n,
                n == lines@.len(),
                lv == lines@.map_values(|x: String| x@),
                lv == crate::text::split_on(text@, '\n'),
                spec_parse_lines(lv, init_state()) == spec_parse_lines(lv.skip(i as int), st@),
            decreases n - i,
        {
            let ghost pre = st@;
            proof {
                assert(lv[i as int] == lines@[i as int]@);
                assert(lv.skip(i as int)[0] == lv[i as int]);
                assert(lv.skip(i as int).drop_first() =~= lv.skip(i + 1));
            }
            st = match exec_step(st, lines[i].as_str()) {
                Ok(m) => m,
                Err(e) => {
                    proof {
                        assert(spec_step(pre, lv.skip(i as int)[0]) == Err::<PStateV, ErrorV>(e@));
                        assert(spec_parse_lines(lv.skip(i as int), pre) == Err::<PStateV, ErrorV>(
                            e@,
                        ));
                        assert(spec_parse_lines(lv, init_state()) == Err::<PStateV, ErrorV>(e@));
                    }
                    return Err(e);
                },
            };
            proof {
                assert(spec_step(pre, lv.skip(i as int)[0]) == Ok::<PStateV, ErrorV>(st@));
                assert(spec_parse_lines(lv.skip(i as int), pre) == spec_parse_lines(
                    lv.skip(i + 1),
                    st@,
                ));
            }
            i = i + 1;
        }
        proof {
            assert(lv.skip(n as int) =~= Seq::<Seq<char>>::empty());
        }
        let ghost fin = st@;
        let PState { name: name_opt, nut, saw_nut, ing, saw_ing, servings, .. } = st;
        proof {
            assert(fin.saw_nut == saw_nut && fin.saw_ing == saw_ing);
            assert(fin.nut == nut@);
            assert(fin.ing == entries_view(ing@));
            assert(fin.servings == table_view(servings@));
            assert(fin.name == match &name_opt {
                Some(nm) => Some(nm@),
                None => None,
            });
        }
        let name = match name_opt {
            Some(nm) => nm,
            None => {
                return Err(Error::MissingName);
            },
        };
        if saw_nut && saw_ing {
            return Err(Error::ConflictingSpec);
        }
        if !saw_nut && !saw_ing {
            return Err(Error::MissingSpec);
        }
        if saw_nut {
            Ok(FoodStub { name, spec: StubSpec::Nutrients(nut), servings })
        } else {
            Ok(FoodStub { name, spec: StubSpec::Ingredients(ing), servings })
        }
    }
}

} // verus!

verus! {

/// Lines joined with a newline after each; the file ends with a trailing
/// newline.
pub open spec fn unlines(ls: Seq<Seq<char>>) -> Seq<char>
    decreases ls.len(),
{
    if ls.len() == 0 {
        Seq::empty()
    } else {
        ls[0] + seq!['\n'] + unlines(ls.drop_first())
    }
}

/// `unlines` distributes over concatenation.
pub proof fn lemma_unlines_append(a: Seq<Seq<char>>, b: Seq<Seq<char>>)
    ensures
        unlines(a + b) == unlines(a) + unlines(b),
    decreases a.len(),
{
    if a.len() == 0 {
        assert(a + b =~= b);
        assert(unlines(a) + unlines(b) =~= unlines(b));
    } else {
        assert((a + b).drop_first() =~= a.drop_first() + b);
        lemma_unlines_append(a.drop_first(), b);
        assert(unlines(a + b) =~= unlines(a) + unlines(b));
    }
}

/// Splitting joined lines on the newline recovers the lines, plus the
/// empty piece after the trailing newline.
pub proof fn lemma_split_unlines(ls: Seq<Seq<char>>)
    requires
        forall|i: int, j: int|
            0 <= i < ls.len() && 0 <= j < ls[i].len() ==> #[trigger] ls[i][j] != '\n',
    ensures
        crate::text::split_on(unlines(ls), '\n') == ls.push(Seq::empty()),
    decreases ls.len(),
{
    if ls.len() == 0 {
        crate::text::lemma_first_char_none(unlines(ls), '\n');
        assert(crate::text::split_on(unlines(ls), '\n') =~= seq![Seq::<char>::empty()]);
        assert(ls.push(Seq::empty()) =~= seq![Seq::<char>::empty()]);
    } else {
        let s = unlines(ls);
        let l0 = ls[0];
        let rest = unlines(ls.drop_first());
        assert(s == l0 + seq!['\n'] + rest);
        assert forall|q: int| 0 <= q < l0.len() implies s[q] != '\n' by {
            assert(s[q] == l0[q]);
        }
        assert(s[l0.len() as int] == '\n');
        crate::text::lemma_first_char_is(s, '\n', l0.len() as int);
        assert(s.take(l0.len() as int) =~= l0);
        assert(s.skip(l0.len() as int + 1) =~= rest);
        assert forall|i: int, j: int|
            0 <= i < ls.drop_first().len() && 0 <= j < ls.drop_first()[i].len() implies #[trigger]
        ls.drop_first()[i][j] != '\n' by {
            assert(ls.drop_first()[i] == ls[i + 1]);
        }
        lemma_split_unlines(ls.drop_first());
        assert(crate::text::split_on(s, '\n') == seq![l0] + ls.drop_first().push(Seq::empty()));
        assert(seq![l0] + ls.drop_first().push(Seq::empty()) =~= ls.push(Seq::empty()));
    }
}

/// `unlines` of a single line.
pub proof fn lemma_unlines_one(x: Seq<char>)
    ensures
        unlines(seq![x]) == x + seq!['\n'],
{
    assert(seq![x].drop_first() =~= Seq::<Seq<char>>::empty());
    assert(unlines(Seq::<Seq<char>>::empty()) =~= Seq::<char>::empty());
    assert(unlines(seq![x]) =~= x + seq!['\n']);
}

/// `unlines` of two lines.
pub proof fn lemma_unlines_two(x: Seq<char>, y: Seq<char>)
    ensures
        unlines(seq![x, y]) == x + seq!['\n'] + y + seq!['\n'],
{
    lemma_unlines_one(y);
    assert(seq![x, y] =~= seq![x] + seq![y]);
    lemma_unlines_append(seq![x], seq![y]);
    lemma_unlines_one(x);
    assert(unlines(seq![x, y]) =~= x + seq!['\n'] + y + seq!['\n']);
}

/// The text lines of an ingredient entry list.
pub open spec fn ing_lines(l: Seq<(Seq<char>, ServingV)>) -> Seq<Seq<char>>
    decreases l.len(),
{
    if l.len() == 0 {
        Seq::empty()
    } else {
        seq![l[0].0 + " = "@ + crate::serving::spec_render_serving(l[0].1)] + ing_lines(
            l.drop_first(),
        )
    }
}

/// The text lines of a serving table.
pub open spec fn row_lines(t: Seq<(Seq<char>, Ratio)>) -> Seq<Seq<char>>
    decreases t.len(),
{
    if t.len() == 0 {
        Seq::empty()
    } else {
        seq![t[0].0 + " = "@ + crate::rat::spec_render(t[0].1)] + row_lines(t.drop_first())
    }
}

/// The text lines of a food stub.
pub open spec fn spec_food_lines(f: FoodStubV) -> Seq<Seq<char>> {
    seq!["name = "@ + f.name, Seq::<char>::empty()] + (match f.spec {
        StubSpecV::Nutrients(n) => seq![
            "[nutrients]"@,
            "carb = "@ + crate::rat::spec_render(n.carb),
            "fat = "@ + crate::rat::spec_render(n.fat),
            "protein = "@ + crate::rat::spec_render(n.protein),
            "kcal = "@ + crate::rat::spec_render(n.kcal),
        ],
        StubSpecV::Ingredients(l) => seq!["[ingredients]"@] + ing_lines(l),
    }) + seq![Seq::<char>::empty(), "[servings]"@] + row_lines(f.servings)
}

/// The canonical text of a food stub.
pub open spec fn spec_encode_food(f: FoodStubV) -> Seq<char> {
    unlines(spec_food_lines(f))
}

} // verus!

verus! {

/// A key that survives the trip through a record line: non-empty, no
/// outer whitespace, no newline, no equals sign, and not opening a
/// section bracket.
pub open spec fn key_canon(k: Seq<char>) -> bool {
    &&& k.len() >= 1
    &&& !crate::text::is_space(k[0])
    &&& !crate::text::is_space(k[k.len() - 1])
    &&& k[0] != '['
    &&& forall|i: int| 0 <= i < k.len() ==> k[i] != '\n' && k[i] != '='
}

/// A name that survives the trip: non-empty, no outer whitespace, no
/// newline.
pub open spec fn name_canon(n: Seq<char>) -> bool {
    &&& n.len() >= 1
    &&& !crate::text::is_space(n[0])
    &&& !crate::text::is_space(n[n.len() - 1])
    &&& forall|i: int| 0 <= i < n.len() ==> n[i] != '\n'
}

/// Every serving-table row has a canonical key and a decimal size.
pub open spec fn table_canon(t: Seq<(Seq<char>, Ratio)>) -> bool {
    forall|i: int|
        0 <= i < t.len() ==> key_canon((#[trigger] t[i]).0) && crate::rat::ratio_decimal(t[i].1)
}

/// Every ingredient entry has a canonical key and a canonical serving.
pub open spec fn entries_canon(l: Seq<(Seq<char>, ServingV)>) -> bool {
    forall|i: int|
        0 <= i < l.len() ==> key_canon((#[trigger] l[i]).0) && crate::serving::serving_canon(
            l[i].1,
        )
}

/// A stub whose text form reads back as itself.
pub open spec fn stub_canon(f: FoodStubV) -> bool {
    &&& name_canon(f.name)
    &&& table_canon(f.servings)
    &&& match f.spec {
        StubSpecV::Nutrients(n) => {
            &&& crate::rat::ratio_decimal(n.carb)
            &&& crate::rat::ratio_decimal(n.fat)
            &&& crate::rat::ratio_decimal(n.protein)
            &&& crate::rat::ratio_decimal(n.kcal)
        },
        StubSpecV::Ingredients(l) => entries_canon(l),
    }
}

/// The ingredient entries of a food: each ingredient reduced to its key
/// and serving.
pub open spec fn ing_entries(l: Seq<IngredientV>) -> Seq<(Seq<char>, ServingV)>
    decreases l.len(),
{
    if l.len() == 0 {
        Seq::empty()
    } else {
        seq![(l[0].key, l[0].serving)] + ing_entries(l.drop_first())
    }
}

/// `ing_entries` maps the list element-wise.
pub proof fn lemma_ing_entries(l: Seq<IngredientV>)
    ensures
        ing_entries(l).len() == l.len(),
        forall|i: int| 0 <= i < l.len() ==> ing_entries(l)[i] == (l[i].key, l[i].serving),
    decreases l.len(),
{
    if l.len() > 0 {
        lemma_ing_entries(l.drop_first());
        assert forall|i: int|
            0 <= i < l.len() implies ing_entries(l)[i] == (l[i].key, l[i].serving) by {
            if i > 0 {
                assert(l.drop_first()[i - 1] == l[i]);
            }
        }
    }
}

/// A food reduced to its record stub: ingredients become bare (key,
/// serving) entries.
pub open spec fn stub_of(f: FoodV) -> FoodStubV {
    FoodStubV {
        name: f.name,
        spec: match f.spec {
            FoodSpecV::Nutrients(n) => StubSpecV::Nutrients(n),
            FoodSpecV::Ingredients(l) => StubSpecV::Ingredients(ing_entries(l)),
        },
        servings: f.servings,
    }
}

/// `row_lines` grows line by line.
proof fn lemma_row_lines_push(t: Seq<(Seq<char>, Ratio)>, x: (Seq<char>, Ratio))
    ensures
        row_lines(t.push(x)) == row_lines(t) + seq![x.0 + " = "@ + crate::rat::spec_render(x.1)],
    decreases t.len(),
{
    if t.len() == 0 {
        assert(t.push(x)[0] == x);
        assert(t.push(x).drop_first() =~= t);
        assert(row_lines(t.push(x)) =~= row_lines(t) + seq![
            x.0 + " = "@ + crate::rat::spec_render(x.1),
        ]);
    } else {
        assert(t.push(x)[0] == t[0]);
        assert(t.push(x).drop_first() =~= t.drop_first().push(x));
        lemma_row_lines_push(t.drop_first(), x);
        assert(row_lines(t.push(x)) =~= row_lines(t) + seq![
            x.0 + " = "@ + crate::rat::spec_render(x.1),
        ]);
    }
}

/// `ing_lines` grows line by line.
proof fn lemma_ing_lines_push(l: Seq<(Seq<char>, ServingV)>, x: (Seq<char>, ServingV))
    ensures
        ing_lines(l.push(x)) == ing_lines(l) + seq![
            x.0 + " = "@ + crate::serving::spec_render_serving(x.1),
        ],
    decreases l.len(),
{
    if l.len() == 0 {
        assert(l.push(x)[0] == x);
        assert(l.push(x).drop_first() =~= l);
        assert(ing_lines(l.push(x)) =~= ing_lines(l) + seq![
            x.0 + " = "@ + crate::serving::spec_render_serving(x.1),
        ]);
    } else {
        assert(l.push(x)[0] == l[0]);
        assert(l.push(x).drop_first() =~= l.drop_first().push(x));
        lemma_ing_lines_push(l.drop_first(), x);
        assert(ing_lines(l.push(x)) =~= ing_lines(l) + seq![
            x.0 + " = "@ + crate::serving::spec_render_serving(x.1),
        ]);
    }
}

/// Append `line` and a newline to `out`.
fn push_line(out: &mut String, line: &str)
    ensures
        final(out)@ == old(out)@ + line@ + seq!['\n'],
{
    out.append(line);
    proof {
        reveal_strlit("\n");
    }
    out.append("\n");
    proof {
        assert(final(out)@ =~= old(out)@ + line@ + seq!['\n']);
    }
}

impl Food {
    /// Write the food as record text.  The embedded ingredient foods are
    /// not written: an ingredient line carries its key and serving only.
    #[verifier::rlimit(60)]
    pub fn save(&self) -> (out: String)
        requires
            stub_canon(stub_of(self@)),
        ensures
            out@ == spec_encode_food(stub_of(self@)),
    {
        let ghost stub = stub_of(self@);
        let mut out = String::new();
        proof {
            reveal_strlit("name = ");
        }
        out.append("name = ");
        out.append(self.name.as_str());
        proof {
            reveal_strlit("\n");
        }
        out.append("\n");
        out.append("\n");
        let ghost head = seq!["name = "@ + self@.name, Seq::<char>::empty()];
        proof {
            lemma_unlines_two("name = "@ + self@.name, Seq::<char>::empty());
            assert(out@ =~= unlines(head));
        }
        let ghost mid: Seq<Seq<char>>;
        match &self.spec {
            FoodSpec::Nutrients(n) => {
                proof {
                    reveal_strlit("[nutrients]");
                    reveal_strlit("carb = ");
                    reveal_strlit("fat = ");
                    reveal_strlit("protein = ");
                    reveal_strlit("kcal = ");
                    assert(self@.spec == FoodSpecV::Nutrients(n@));
                }
                push_line(&mut out, "[nutrients]");
                out.append("carb = ");
                let r1 = n.carb.render();
                push_line(&mut out, r1.as_str());
                out.append("fat = ");
                let r2 = n.fat.render();
                push_line(&mut out, r2.as_str());
                out.append("protein = ");
                let r3 = n.protein.render();
                push_line(&mut out, r3.as_str());
                out.append("kcal = ");
                let r4 = n.kcal.render();
                push_line(&mut out, r4.as_str());
                proof {
                    mid = seq![
                        "[nutrients]"@,
                        "carb = "@ + crate::rat::spec_render(n@.carb),
                        "fat = "@ + crate::rat::spec_render(n@.fat),
                        "protein = "@ + crate::rat::spec_render(n@.protein),
                        "kcal = "@ + crate::rat::spec_render(n@.kcal),
                    ];
                    lemma_unlines_append(head, mid);
                    let l1 = "[nutrients]"@;
                    let l2 = "carb = "@ + crate::rat::spec_render(n@.carb);
                    let l3 = "fat = "@ + crate::rat::spec_render(n@.fat);
                    let l4 = "protein = "@ + crate::rat::spec_render(n@.protein);
                    let l5 = "kcal = "@ + crate::rat::spec_render(n@.kcal);
                    assert(mid =~= seq![l1] + (seq![l2] + (seq![l3] + seq![l4, l5])));
                    lemma_unlines_append(seq![l2], seq![l3] + seq![l4, l5]);
                    lemma_unlines_append(seq![l3], seq![l4, l5]);
                    lemma_unlines_append(seq![l1], seq![l2] + (seq![l3] + seq![l4, l5]));
                    lemma_unlines_one(l1);
                    lemma_unlines_one(l2);
                    lemma_unlines_one(l3);
                    lemma_unlines_two(l4, l5);
                    assert(out@ =~= unlines(head + mid));
                }
            },
            FoodSpec::Ingredients(list) => {
                proof {
                    reveal_strlit("[ingredients]");
                    assert(self@.spec == FoodSpecV::Ingredients(ingredients_view(list@)));
                    crate::food::lemma_ingredients_view(list@);
                    lemma_ing_entries(ingredients_view(list@));
                }
                push_line(&mut out, "[ingredients]");
                let ghost entries = ing_entries(ingredients_view(list@));
                let ghost ihead = head + seq!["[ingredients]"@];
                proof {
                    lemma_unlines_append(head, seq!["[ingredients]"@]);
                    lemma_unlines_one("[ingredients]"@);
                    assert(out@ =~= unlines(ihead));
                    assert(entries.take(0) =~= Seq::<(Seq<char>, ServingV)>::empty());
                    assert(out@ =~= unlines(ihead + ing_lines(entries.take(0)))) by {
                        assert(ihead + ing_lines(entries.take(0)) =~= ihead);
                    }
                }
                let m = list.len();
                let mut i: usize = 0;
                while i < m
                    invariant
                        0 <= i <= m,
                        m == list@.len(),
                        entries == ing_entries(ingredients_view(list@)),
                        stub == stub_of(self@),
                        stub.spec == StubSpecV::Ingredients(entries),
                        entries.len() == m,
                        forall|j: int|
                            0 <= j < m ==> #[trigger] entries[j] == (
                                list@[j].key@,
                                list@[j].serving@,
                            ),
                        entries_canon(entries),
                        out@ == unlines(ihead + ing_lines(entries.take(i as int))),
                    decreases m - i,
                {
                    let ing = &list[i];
                    out.append(ing.key.as_str());
                    proof {
                        reveal_strlit(" = ");
                    }
                    out.append(" = ");
                    proof {
                        assert(crate::serving::serving_canon(entries[i as int].1));
                        assert(ing.serving@ == entries[i as int].1);
                    }
                    let sv = ing.serving.render();
                    push_line(&mut out, sv.as_str());
                    proof {
                        assert(entries.take(i + 1) =~= entries.take(i as int).push(
                            entries[i as int],
                        ));
                        lemma_ing_lines_push(entries.take(i as int), entries[i as int]);
                        lemma_unlines_append(
                            ihead + ing_lines(entries.take(i as int)),
                            seq![
                                entries[i as int].0 + " = "@
                                    + crate::serving::spec_render_serving(entries[i as int].1),
                            ],
                        );
                        lemma_unlines_one(
                            entries[i as int].0 + " = "@ + crate::serving::spec_render_serving(
                                entries[i as int].1,
                            ),
                        );
                        assert((ihead + ing_lines(entries.take(i as int))) + seq![
                            entries[i as int].0 + " = "@ + crate::serving::spec_render_serving(
                                entries[i as int].1,
                            ),
                        ] =~= ihead + ing_lines(entries.take(i + 1)));
                        assert(out@ =~= unlines(ihead + ing_lines(entries.take(i + 1))));
                    }
                    i = i + 1;
                }
                proof {
                    assert(entries.take(m as int) =~= entries);
                    mid = seq!["[ingredients]"@] + ing_lines(entries);
                    assert(ihead + ing_lines(entries) =~= head + mid);
                }
            },
        }
        proof {
            reveal_strlit("[servings]");
        }
        out.append("\n");
        push_line(&mut out, "[servings]");
        let ghost shead = head + mid + seq![Seq::<char>::empty(), "[servings]"@];
        proof {
            lemma_unlines_append(head + mid, seq![Seq::<char>::empty(), "[servings]"@]);
            lemma_unlines_two(Seq::<char>::empty(), "[servings]"@);
            assert(unlines(seq![Seq::<char>::empty(), "[servings]"@]) =~= seq!['\n']
                + "[servings]"@ + seq!['\n']);
            assert((head + mid) + seq![Seq::<char>::empty(), "[servings]"@] =~= shead);
            assert(out@ =~= unlines(shead));
            assert(stub.servings.take(0) =~= Seq::<(Seq<char>, Ratio)>::empty());
            assert(out@ =~= unlines(shead + row_lines(stub.servings.take(0)))) by {
                assert(shead + row_lines(stub.servings.take(0)) =~= shead);
            }
        }
        let k = self.servings.len();
        let mut i: usize = 0;
        while i < k
            invariant
                0 <= i <= k,
                k == self.servings@.len(),
                stub.servings == table_view(self.servings@),
                stub.servings.len() == k,
                table_canon(stub.servings),
                out@ == unlines(shead + row_lines(stub.servings.take(i as int))),
            decreases k - i,
        {
            let row = &self.servings[i];
            out.append(row.0.as_str());
            proof {
                reveal_strlit(" = ");
                assert(stub.servings[i as int] == crate::food::row_view(self.servings@[i as int]));
                assert(crate::rat::ratio_decimal(stub.servings[i as int].1));
            }
            out.append(" = ");
            let rv = row.1.render();
            push_line(&mut out, rv.as_str());
            proof {
                assert(stub.servings.take(i + 1) =~= stub.servings.take(i as int).push(
                    stub.servings[i as int],
                ));
                lemma_row_lines_push(stub.servings.take(i as int), stub.servings[i as int]);
                lemma_unlines_append(
                    shead + row_lines(stub.servings.take(i as int)),
                    seq![
                        stub.servings[i as int].0 + " = "@ + crate::rat::spec_render(
                            stub.servings[i as int].1,
                        ),
                    ],
                );
                lemma_unlines_one(
                    stub.servings[i as int].0 + " = "@ + crate::rat::spec_render(
                        stub.servings[i as int].1,
                    ),
                );
                assert((shead + row_lines(stub.servings.take(i as int))) + seq![
                    stub.servings[i as int].0 + " = "@ + crate::rat::spec_render(
                        stub.servings[i as int].1,
                    ),
                ] =~= shead + row_lines(stub.servings.take(i + 1)));
                assert(out@ =~= unlines(shead + row_lines(stub.servings.take(i + 1))));
            }
            i = i + 1;
        }
        proof {
            assert(stub.servings.take(k as int) =~= stub.servings);
            assert(shead + row_lines(stub.servings) =~= spec_food_lines(stub));
        }
        out
    }
}

} // verus!

verus! {

/// The characters of a rendered decimal: digits, at most one dot, a
/// leading minus for negative values; never whitespace or a newline.
pub(crate) proof fn lemma_render_chars_signed(r: Ratio)
    requires
        crate::rat::ratio_decimal(r),
    ensures
        crate::rat::spec_render(r).len() >= 1,
        !crate::text::is_space(crate::rat::spec_render(r)[0]),
        !crate::text::is_space(
            crate::rat::spec_render(r)[crate::rat::spec_render(r).len() - 1],
        ),
        forall|i: int|
            0 <= i < crate::rat::spec_render(r).len() ==> #[trigger] crate::rat::spec_render(r)[i]
                != '\n' && crate::rat::spec_render(r)[i] != '=',
{
    let s = crate::rat::spec_render(r);
    if r.num >= 0 {
        crate::rat::lemma_render_chars(r);
        assert forall|i: int| 0 <= i < s.len() implies #[trigger] s[i] != '\n' && s[i] != '=' by {
            assert(crate::text::is_num_char(s[i]));
        }
        assert(crate::text::is_num_char(s[0]) && crate::text::is_num_char(s[s.len() - 1]));
    } else {
        let m = Ratio { num: -r.num, den: r.den };
        crate::rat::lemma_render_chars(m);
        let b = crate::rat::spec_render(m);
        assert(s =~= seq!['-'] + b);
        assert(s[0] == '-');
        assert(s[s.len() - 1] == b[b.len() - 1]);
        assert(crate::text::is_num_char(b[b.len() - 1]));
        assert forall|i: int| 0 <= i < s.len() implies #[trigger] s[i] != '\n' && s[i] != '=' by {
            if i > 0 {
                assert(s[i] == b[i - 1]);
                assert(crate::text::is_num_char(b[i - 1]));
            }
        }
    }
}

/// The characters of a rendered serving: the rendered size, then possibly
/// a blank and the unit; never a newline, never outer whitespace.
pub(crate) proof fn lemma_render_serving_chars(v: ServingV)
    requires
        crate::serving::serving_canon(v),
    ensures
        crate::serving::spec_render_serving(v).len() >= 1,
        !crate::text::is_space(crate::serving::spec_render_serving(v)[0]),
        !crate::text::is_space(
            crate::serving::spec_render_serving(v)[crate::serving::spec_render_serving(
                v,
            ).len() - 1],
        ),
        forall|i: int|
            0 <= i < crate::serving::spec_render_serving(v).len()
                ==> #[trigger] crate::serving::spec_render_serving(v)[i] != '\n',
{
    let s = crate::serving::spec_render_serving(v);
    let rs = crate::rat::spec_render(v.size);
    crate::rat::lemma_render_chars(v.size);
    match v.unit {
        None => {
            assert(s == rs);
            assert forall|i: int| 0 <= i < s.len() implies #[trigger] s[i] != '\n' by {
                assert(crate::text::is_num_char(s[i]));
            }
            assert(crate::text::is_num_char(s[0]) && crate::text::is_num_char(s[s.len() - 1]));
        },
        Some(u) => {
            assert(s == rs + seq![' '] + u);
            assert(s[0] == rs[0]);
            assert(crate::text::is_num_char(rs[0]));
            assert(s[s.len() - 1] == u[u.len() - 1]);
            assert forall|i: int| 0 <= i < s.len() implies #[trigger] s[i] != '\n' by {
                if i < rs.len() {
                    assert(s[i] == rs[i]);
                    assert(crate::text::is_num_char(rs[i]));
                } else if i == rs.len() {
                    assert(s[i] == ' ');
                } else {
                    assert(s[i] == u[i - rs.len() - 1]);
                }
            }
        },
    }
}

/// How a `key = value` line comes apart again: it trims to itself, its
/// first character is the key's, its first equals sign is right after the
/// key, and the two trimmed pieces are the key and the value.
pub(crate) proof fn lemma_kv_line(key: Seq<char>, value: Seq<char>)
    requires
        key.len() >= 1,
        !crate::text::is_space(key[0]),
        !crate::text::is_space(key[key.len() - 1]),
        forall|i: int| 0 <= i < key.len() ==> key[i] != '\n' && key[i] != '=',
        value.len() >= 1,
        !crate::text::is_space(value[0]),
        !crate::text::is_space(value[value.len() - 1]),
    ensures
        ({
            let line = key + " = "@ + value;
            &&& spec_trim(line) == line
            &&& line.len() == key.len() + 3 + value.len()
            &&& line[0] == key[0]
            &&& line[line.len() - 1] == value[value.len() - 1]
            &&& first_char(line, '=') == key.len() + 1
            &&& spec_trim(line.take(key.len() as int + 1)) == key
            &&& spec_trim(line.skip(key.len() as int + 2)) == value
        }),
{
    reveal_strlit(" = ");
    assert(" = "@.len() == 3);
    assert(" = "@[0] == ' ' && " = "@[1] == '=' && " = "@[2] == ' ');
    let line = key + " = "@ + value;
    assert(line.len() == key.len() + 3 + value.len());
    assert(line[0] == key[0]);
    assert(line[line.len() - 1] == value[value.len() - 1]);
    crate::text::lemma_trim_id(line);
    let k = key.len() as int;
    assert(line[k + 1] == '=');
    assert forall|i: int| 0 <= i < k + 1 implies line[i] != '=' by {
        if i < k {
            assert(line[i] == key[i]);
        } else {
            assert(line[i] == ' ');
        }
    }
    crate::text::lemma_first_char_is(line, '=', k + 1);
    assert(line.take(k + 1) =~= key + seq![' ']);
    crate::text::lemma_trim_back_take(key + seq![' '], k);
    assert((key + seq![' ']).take(k) =~= key);
    assert(crate::text::trim_front(key + seq![' ']) == key + seq![' ']);
    assert(spec_trim(line.take(k + 1)) == key);
    assert(line.skip(k + 2) =~= seq![' '] + value);
    crate::text::lemma_trim_front_skip(seq![' '] + value, 1);
    assert((seq![' '] + value).skip(1) =~= value);
    crate::text::lemma_trim_back_take(value, value.len() as int);
    assert(value.take(value.len() as int) =~= value);
    assert(spec_trim(line.skip(k + 2)) == value);
}

/// Section header lines switch the reader's section.
proof fn lemma_step_headers(st: PStateV)
    ensures
        spec_step(st, "[nutrients]"@) == Ok::<PStateV, ErrorV>(
            PStateV { section: Sect::Nutrients, saw_nut: true, ..st },
        ),
        spec_step(st, "[ingredients]"@) == Ok::<PStateV, ErrorV>(
            PStateV { section: Sect::Ingredients, saw_ing: true, ..st },
        ),
        spec_step(st, "[servings]"@) == Ok::<PStateV, ErrorV>(
            PStateV { section: Sect::Servings, ..st },
        ),
        spec_step(st, Seq::<char>::empty()) == Ok::<PStateV, ErrorV>(st),
{
    reveal_strlit("[nutrients]");
    reveal_strlit("[ingredients]");
    reveal_strlit("[servings]");
    reveal_strlit("nutrients");
    reveal_strlit("ingredients");
    reveal_strlit("servings");
    assert(spec_trim(Seq::<char>::empty()) =~= Seq::<char>::empty());
    let h1 = "[nutrients]"@;
    crate::text::lemma_trim_id(h1);
    assert(h1[0] == '[' && h1[h1.len() - 1] == ']');
    assert(h1.subrange(1, h1.len() - 1) =~= "nutrients"@);
    let h2 = "[ingredients]"@;
    crate::text::lemma_trim_id(h2);
    assert(h2[0] == '[' && h2[h2.len() - 1] == ']');
    assert(h2.subrange(1, h2.len() - 1) =~= "ingredients"@);
    assert("ingredients"@ != "nutrients"@) by {
        assert("ingredients"@.len() != "nutrients"@.len());
    }
    let h3 = "[servings]"@;
    crate::text::lemma_trim_id(h3);
    assert(h3[0] == '[' && h3[h3.len() - 1] == ']');
    assert(h3.subrange(1, h3.len() - 1) =~= "servings"@);
    assert("servings"@ != "nutrients"@) by {
        assert("servings"@.len() != "nutrients"@.len());
    }
    assert("servings"@ != "ingredients"@) by {
        assert("servings"@.len() != "ingredients"@.len());
    }
}

/// Applying lines splits over concatenation.
proof fn lemma_parse_append(a: Seq<Seq<char>>, b: Seq<Seq<char>>, st: PStateV)
    ensures
        spec_parse_lines(a + b, st) == match spec_parse_lines(a, st) {
            Ok(m) => spec_parse_lines(b, m),
            Err(e) => Err(e),
        },
    decreases a.len(),
{
    if a.len() == 0 {
        assert(a + b =~= b);
    } else {
        assert((a + b)[0] == a[0]);
        assert((a + b).drop_first() =~= a.drop_first() + b);
        match spec_step(st, a[0]) {
            Ok(m) => {
                lemma_parse_append(a.drop_first(), b, m);
            },
            Err(_) => {},
        }
    }
}

/// Reading back the serving-table rows appends the table to the state.
proof fn lemma_parse_rows(t: Seq<(Seq<char>, Ratio)>, st: PStateV)
    requires
        st.section == Sect::Servings,
        table_canon(t),
    ensures
        spec_parse_lines(row_lines(t), st) == Ok::<PStateV, ErrorV>(
            PStateV { servings: st.servings + t, ..st },
        ),
    decreases t.len(),
{
    if t.len() == 0 {
        assert(st.servings + t =~= st.servings);
        assert(PStateV { servings: st.servings + t, ..st } =~= st);
    } else {
        let key = t[0].0;
        let x = t[0].1;
        let value = crate::rat::spec_render(x);
        lemma_render_chars_signed(x);
        lemma_kv_line(key, value);
        crate::rat::lemma_dec_round_trip(x);
        let line = key + " = "@ + value;
        assert(row_lines(t)[0] == line);
        assert(line[0] != '[');
        assert(!(line[0] == '[' && line[line.len() - 1] == ']'));
        let st1 = PStateV { servings: st.servings.push((key, x)), ..st };
        assert(spec_step(st, line) == Ok::<PStateV, ErrorV>(st1));
        assert(row_lines(t).drop_first() =~= row_lines(t.drop_first()));
        assert(table_canon(t.drop_first())) by {
            assert(forall|i: int|
                0 <= i < t.drop_first().len() ==> #[trigger] t.drop_first()[i] == t[i + 1]);
        }
        lemma_parse_rows(t.drop_first(), st1);
        assert(st1.servings + t.drop_first() =~= st.servings + t);
        assert(PStateV { servings: st1.servings + t.drop_first(), ..st1 } =~= PStateV {
            servings: st.servings + t,
            ..st
        });
    }
}

/// Reading back the ingredient rows appends the entries to the state.
proof fn lemma_parse_ings(l: Seq<(Seq<char>, ServingV)>, st: PStateV)
    requires
        st.section == Sect::Ingredients,
        entries_canon(l),
    ensures
        spec_parse_lines(ing_lines(l), st) == Ok::<PStateV, ErrorV>(
            PStateV { ing: st.ing + l, ..st },
        ),
    decreases l.len(),
{
    if l.len() == 0 {
        assert(st.ing + l =~= st.ing);
        assert(PStateV { ing: st.ing + l, ..st } =~= st);
    } else {
        let key = l[0].0;
        let sv = l[0].1;
        let value = crate::serving::spec_render_serving(sv);
        lemma_render_serving_chars(sv);
        lemma_kv_line(key, value);
        crate::serving::lemma_serving_round_trip(sv);
        let line = key + " = "@ + value;
        assert(ing_lines(l)[0] == line);
        assert(!(line[0] == '[' && line[line.len() - 1] == ']'));
        let st1 = PStateV { ing: st.ing.push((key, sv)), ..st };
        assert(spec_step(st, line) == Ok::<PStateV, ErrorV>(st1));
        assert(ing_lines(l).drop_first() =~= ing_lines(l.drop_first()));
        assert(entries_canon(l.drop_first())) by {
            assert(forall|i: int|
                0 <= i < l.drop_first().len() ==> #[trigger] l.drop_first()[i] == l[i + 1]);
        }
        lemma_parse_ings(l.drop_first(), st1);
        assert(st1.ing + l.drop_first() =~= st.ing + l);
        assert(PStateV { ing: st1.ing + l.drop_first(), ..st1 } =~= PStateV {
            ing: st.ing + l,
            ..st
        });
    }
}

/// No line written for a canonical stub contains a newline.
proof fn lemma_food_lines_clean(f: FoodStubV)
    requires
        stub_canon(f),
    ensures
        forall|i: int, j: int|
            0 <= i < spec_food_lines(f).len() && 0 <= j < spec_food_lines(f)[i].len()
                ==> #[trigger] spec_food_lines(f)[i][j] != '\n',
{
    reveal_strlit("name = ");
    reveal_strlit("[nutrients]");
    reveal_strlit("[ingredients]");
    reveal_strlit("[servings]");
    reveal_strlit("carb = ");
    reveal_strlit("fat = ");
    reveal_strlit("protein = ");
    reveal_strlit("kcal = ");
    let ls = spec_food_lines(f);
    assert forall|i: int, j: int|
        0 <= i < ls.len() && 0 <= j < ls[i].len() implies #[trigger] ls[i][j] != '\n' by {
        lemma_line_clean(f, i, j);
    }
}

/// One character of one line of a canonical stub is not a newline.
proof fn lemma_line_clean(f: FoodStubV, i: int, j: int)
    requires
        stub_canon(f),
        0 <= i < spec_food_lines(f).len(),
        0 <= j < spec_food_lines(f)[i].len(),
    ensures
        spec_food_lines(f)[i][j] != '\n',
{
    reveal_strlit("name = ");
    reveal_strlit("[nutrients]");
    reveal_strlit("[ingredients]");
    reveal_strlit("[servings]");
    reveal_strlit("carb = ");
    reveal_strlit("fat = ");
    reveal_strlit("protein = ");
    reveal_strlit("kcal = ");
    let ls = spec_food_lines(f);
    let head = seq!["name = "@ + f.name, Seq::<char>::empty()];
    let mid = match f.spec {
        StubSpecV::Nutrients(n) => seq![
            "[nutrients]"@,
            "carb = "@ + crate::rat::spec_render(n.carb),
            "fat = "@ + crate::rat::spec_render(n.fat),
            "protein = "@ + crate::rat::spec_render(n.protein),
            "kcal = "@ + crate::rat::spec_render(n.kcal),
        ],
        StubSpecV::Ingredients(l) => seq!["[ingredients]"@] + ing_lines(l),
    };
    let tailh = seq![Seq::<char>::empty(), "[servings]"@];
    let rows = row_lines(f.servings);
    assert(ls == head + mid + tailh + rows);
    if i < 2 {
        assert(ls[i] == head[i]);
    } else if i < 2 + mid.len() {
        assert(ls[i] == mid[i - 2]);
        match f.spec {
            StubSpecV::Nutrients(n) => {
                if i - 2 >= 1 {
                    lemma_render_chars_signed(
                        if i - 2 == 1 {
                            n.carb
                        } else if i - 2 == 2 {
                            n.fat
                        } else if i - 2 == 3 {
                            n.protein
                        } else {
                            n.kcal
                        },
                    );
                }
            },
            StubSpecV::Ingredients(l) => {
                if i - 2 >= 1 {
                    lemma_ing_line_clean(l, i - 3);
                    assert(mid[i - 2] == ing_lines(l)[i - 3]);
                }
            },
        }
    } else if i < 2 + mid.len() + 2 {
        assert(ls[i] == tailh[i - 2 - mid.len()]);
    } else {
        assert(ls[i] == rows[i - 4 - mid.len()]);
        lemma_row_line_clean(f.servings, i - 4 - mid.len());
    }
}

/// An ingredient line of a canonical entry list has no newline.
proof fn lemma_ing_line_clean(l: Seq<(Seq<char>, ServingV)>, i: int)
    requires
        entries_canon(l),
        0 <= i < ing_lines(l).len(),
    ensures
        ing_lines(l).len() == l.len(),
        forall|j: int| 0 <= j < ing_lines(l)[i].len() ==> #[trigger] ing_lines(l)[i][j] != '\n',
    decreases l.len(),
{
    reveal_strlit(" = ");
    lemma_ing_lines_len(l);
    assert(ing_lines(l)[i] == l[i].0 + " = "@ + crate::serving::spec_render_serving(l[i].1)) by {
        lemma_ing_lines_index(l, i);
    }
    lemma_render_serving_chars(l[i].1);
    let line = l[i].0 + " = "@ + crate::serving::spec_render_serving(l[i].1);
    assert forall|j: int| 0 <= j < line.len() implies #[trigger] line[j] != '\n' by {
        let k = l[i].0.len() as int;
        if j < k {
            assert(line[j] == l[i].0[j]);
        } else if j < k + 3 {
            assert(line[j] == " = "@[j - k]);
        } else {
            assert(line[j] == crate::serving::spec_render_serving(l[i].1)[j - k - 3]);
        }
    }
}

/// A serving-table line of a canonical table has no newline.
proof fn lemma_row_line_clean(t: Seq<(Seq<char>, Ratio)>, i: int)
    requires
        table_canon(t),
        0 <= i < row_lines(t).len(),
    ensures
        row_lines(t).len() == t.len(),
        forall|j: int| 0 <= j < row_lines(t)[i].len() ==> #[trigger] row_lines(t)[i][j] != '\n',
{
    reveal_strlit(" = ");
    lemma_row_lines_len(t);
    assert(row_lines(t)[i] == t[i].0 + " = "@ + crate::rat::spec_render(t[i].1)) by {
        lemma_row_lines_index(t, i);
    }
    lemma_render_chars_signed(t[i].1);
    let line = t[i].0 + " = "@ + crate::rat::spec_render(t[i].1);
    assert forall|j: int| 0 <= j < line.len() implies #[trigger] line[j] != '\n' by {
        let k = t[i].0.len() as int;
        if j < k {
            assert(line[j] == t[i].0[j]);
        } else if j < k + 3 {
            assert(line[j] == " = "@[j - k]);
        } else {
            assert(line[j] == crate::rat::spec_render(t[i].1)[j - k - 3]);
        }
    }
}

/// `row_lines` has one line per row.
proof fn lemma_row_lines_len(t: Seq<(Seq<char>, Ratio)>)
    ensures
        row_lines(t).len() == t.len(),
    decreases t.len(),
{
    if t.len() > 0 {
        lemma_row_lines_len(t.drop_first());
    }
}

/// The `i`-th row line.
proof fn lemma_row_lines_index(t: Seq<(Seq<char>, Ratio)>, i: int)
    requires
        0 <= i < t.len(),
    ensures
        row_lines(t).len() == t.len(),
        row_lines(t)[i] == t[i].0 + " = "@ + crate::rat::spec_render(t[i].1),
    decreases t.len(),
{
    lemma_row_lines_len(t);
    if i > 0 {
        lemma_row_lines_index(t.drop_first(), i - 1);
        assert(t.drop_first()[i - 1] == t[i]);
    }
}

/// `ing_lines` has one line per entry.
proof fn lemma_ing_lines_len(l: Seq<(Seq<char>, ServingV)>)
    ensures
        ing_lines(l).len() == l.len(),
    decreases l.len(),
{
    if l.len() > 0 {
        lemma_ing_lines_len(l.drop_first());
    }
}

/// The `i`-th ingredient line.
proof fn lemma_ing_lines_index(l: Seq<(Seq<char>, ServingV)>, i: int)
    requires
        0 <= i < l.len(),
    ensures
        ing_lines(l).len() == l.len(),
        ing_lines(l)[i] == l[i].0 + " = "@ + crate::serving::spec_render_serving(l[i].1),
    decreases l.len(),
{
    lemma_ing_lines_len(l);
    if i > 0 {
        lemma_ing_lines_index(l.drop_first(), i - 1);
        assert(l.drop_first()[i - 1] == l[i]);
    }
}

} // verus!

verus! {

/// Round-trip: the record text written for a canonical food stub parses
/// back to that stub, field for field.  Writing is a pure function of the
/// stub, so the text is also deterministic.
pub proof fn lemma_food_round_trip(f: FoodStubV)
    requires
        stub_canon(f),
    ensures
        spec_parse_food(spec_encode_food(f)) == Ok::<FoodStubV, ErrorV>(f),
{
    reveal_strlit("name = ");
    reveal_strlit("name");
    let ls = spec_food_lines(f);
    lemma_food_lines_clean(f);
    lemma_split_unlines(ls);
    let head = seq!["name = "@ + f.name, Seq::<char>::empty()];
    let mid = match f.spec {
        StubSpecV::Nutrients(n) => seq![
            "[nutrients]"@,
            "carb = "@ + crate::rat::spec_render(n.carb),
            "fat = "@ + crate::rat::spec_render(n.fat),
            "protein = "@ + crate::rat::spec_render(n.protein),
            "kcal = "@ + crate::rat::spec_render(n.kcal),
        ],
        StubSpecV::Ingredients(l) => seq!["[ingredients]"@] + ing_lines(l),
    };
    let tailh = seq![Seq::<char>::empty(), "[servings]"@];
    let rows = row_lines(f.servings);
    assert(ls == head + mid + tailh + rows);
    let st0 = init_state();
    // the name line
    assert("name = "@ =~= "name"@ + " = "@) by {
        reveal_strlit(" = ");
        reveal_strlit("name");
    }
    assert("name"@.len() == 4);
    assert(!crate::text::is_space("name"@[0]) && !crate::text::is_space("name"@[3]) && "name"@[0]
        != '[') by {
        assert("name"@[0] == 'n' && "name"@[3] == 'e');
    }
    assert(forall|i: int| 0 <= i < 4 ==> "name"@[i] != '\n' && "name"@[i] != '=');
    lemma_kv_line("name"@, f.name);
    let name_line = "name"@ + " = "@ + f.name;
    assert(("name = "@ + f.name) =~= name_line);
    let st1 = PStateV { name: Some(f.name), ..st0 };
    assert(spec_step(st0, name_line) == Ok::<PStateV, ErrorV>(st1)) by {
        assert(!(name_line[0] == '[' && name_line[name_line.len() - 1] == ']'));
    }
    lemma_step_headers(st1);
    let st2 = st1;
    assert(spec_parse_lines(Seq::<Seq<char>>::empty(), st1) == Ok::<PStateV, ErrorV>(st1));
    assert(spec_parse_lines(seq![Seq::<char>::empty()], st1) == Ok::<PStateV, ErrorV>(st1)) by {
        assert(seq![Seq::<char>::empty()].drop_first() =~= Seq::<Seq<char>>::empty());
        assert(seq![Seq::<char>::empty()][0] =~= Seq::<char>::empty());
    }
    assert(spec_parse_lines(head, st0) == Ok::<PStateV, ErrorV>(st2)) by {
        assert(head[0] == name_line);
        assert(head.drop_first() =~= seq![Seq::<char>::empty()]);
    }
    // the definition section
    let st3 = parse_mid_state(f, st2);
    lemma_parse_mid(f, st2);
    // the servings header
    lemma_step_headers(st3);
    let st4 = PStateV { section: Sect::Servings, ..st3 };
    assert(spec_parse_lines(Seq::<Seq<char>>::empty(), st4) == Ok::<PStateV, ErrorV>(st4));
    assert(spec_parse_lines(seq!["[servings]"@], st3) == Ok::<PStateV, ErrorV>(st4)) by {
        assert(seq!["[servings]"@].drop_first() =~= Seq::<Seq<char>>::empty());
        assert(seq!["[servings]"@][0] == "[servings]"@);
    }
    assert(spec_parse_lines(tailh, st3) == Ok::<PStateV, ErrorV>(st4)) by {
        assert(tailh[0] =~= Seq::<char>::empty());
        assert(tailh.drop_first() =~= seq!["[servings]"@]);
    }
    // the serving rows
    lemma_parse_rows(f.servings, st4);
    let st5 = PStateV { servings: st4.servings + f.servings, ..st4 };
    // stitch the segments together
    lemma_parse_append(head, mid, st0);
    lemma_parse_append(head + mid, tailh, st0);
    lemma_parse_append(head + mid + tailh, rows, st0);
    assert((head + mid) + tailh =~= head + mid + tailh);
    assert((head + mid + tailh) + rows =~= ls);
    assert(spec_parse_lines(ls, st0) == Ok::<PStateV, ErrorV>(st5));
    // the final empty piece after the trailing newline
    lemma_parse_append(ls, seq![Seq::<char>::empty()], st0);
    assert(ls + seq![Seq::<char>::empty()] =~= ls.push(Seq::<char>::empty()));
    lemma_step_headers(st5);
    assert(spec_parse_lines(Seq::<Seq<char>>::empty(), st5) == Ok::<PStateV, ErrorV>(st5));
    assert(spec_parse_lines(seq![Seq::<char>::empty()], st5) == Ok::<PStateV, ErrorV>(st5)) by {
        assert(seq![Seq::<char>::empty()].drop_first() =~= Seq::<Seq<char>>::empty());
        assert(seq![Seq::<char>::empty()][0] =~= Seq::<char>::empty());
    }
    assert(spec_parse_lines(ls.push(Seq::<char>::empty()), st0) == Ok::<PStateV, ErrorV>(st5));
    // finishing yields the stub
    assert(st5.servings =~= f.servings);
    match f.spec {
        StubSpecV::Nutrients(n) => {
            assert(st5.nut =~= n);
            assert(spec_finish(st5) == Ok::<FoodStubV, ErrorV>(f)) by {
                assert(FoodStubV {
                    name: f.name,
                    spec: StubSpecV::Nutrients(st5.nut),
                    servings: st5.servings,
                } =~= f);
            }
        },
        StubSpecV::Ingredients(l) => {
            assert(st5.ing =~= l);
            assert(spec_finish(st5) == Ok::<FoodStubV, ErrorV>(f)) by {
                assert(FoodStubV {
                    name: f.name,
                    spec: StubSpecV::Ingredients(st5.ing),
                    servings: st5.servings,
                } =~= f);
            }
        },
    }
}

/// The state after the definition section of a canonical stub.
spec fn parse_mid_state(f: FoodStubV, st: PStateV) -> PStateV {
    match f.spec {
        StubSpecV::Nutrients(n) => PStateV {
            section: Sect::Nutrients,
            saw_nut: true,
            nut: n,
            ..st
        },
        StubSpecV::Ingredients(l) => PStateV {
            section: Sect::Ingredients,
            saw_ing: true,
            ing: st.ing + l,
            ..st
        },
    }
}

/// Reading back the definition section produces `parse_mid_state`.
#[verifier::rlimit(100)]
proof fn lemma_parse_mid(f: FoodStubV, st: PStateV)
    requires
        stub_canon(f),
    ensures
        spec_parse_lines(
            match f.spec {
                StubSpecV::Nutrients(n) => seq![
                    "[nutrients]"@,
                    "carb = "@ + crate::rat::spec_render(n.carb),
                    "fat = "@ + crate::rat::spec_render(n.fat),
                    "protein = "@ + crate::rat::spec_render(n.protein),
                    "kcal = "@ + crate::rat::spec_render(n.kcal),
                ],
                StubSpecV::Ingredients(l) => seq!["[ingredients]"@] + ing_lines(l),
            },
            st,
        ) == Ok::<PStateV, ErrorV>(parse_mid_state(f, st)),
{
    reveal_strlit("carb = ");
    reveal_strlit("fat = ");
    reveal_strlit("protein = ");
    reveal_strlit("kcal = ");
    reveal_strlit("carb");
    reveal_strlit("fat");
    reveal_strlit("protein");
    reveal_strlit("kcal");
    reveal_strlit("name");
    reveal_strlit(" = ");
    lemma_step_headers(st);
    match f.spec {
        StubSpecV::Nutrients(n) => {
            let sa = PStateV { section: Sect::Nutrients, saw_nut: true, ..st };
            assert("carb = "@ =~= "carb"@ + " = "@);
            assert("fat = "@ =~= "fat"@ + " = "@);
            assert("protein = "@ =~= "protein"@ + " = "@);
            assert("kcal = "@ =~= "kcal"@ + " = "@);
            assert("carb"@[0] == 'c' && "carb"@[3] == 'b' && "fat"@[0] == 'f' && "fat"@[2] == 't'
                && "protein"@[0] == 'p' && "protein"@[6] == 'n' && "kcal"@[0] == 'k' && "kcal"@[3]
                == 'l');
            assert(forall|i: int| 0 <= i < 4 ==> "carb"@[i] != '\n' && "carb"@[i] != '=');
            assert(forall|i: int| 0 <= i < 3 ==> "fat"@[i] != '\n' && "fat"@[i] != '=');
            assert(forall|i: int| 0 <= i < 7 ==> "protein"@[i] != '\n' && "protein"@[i] != '=');
            assert(forall|i: int| 0 <= i < 4 ==> "kcal"@[i] != '\n' && "kcal"@[i] != '=');
            lemma_render_chars_signed(n.carb);
            lemma_render_chars_signed(n.fat);
            lemma_render_chars_signed(n.protein);
            lemma_render_chars_signed(n.kcal);
            lemma_kv_line("carb"@, crate::rat::spec_render(n.carb));
            lemma_kv_line("fat"@, crate::rat::spec_render(n.fat));
            lemma_kv_line("protein"@, crate::rat::spec_render(n.protein));
            lemma_kv_line("kcal"@, crate::rat::spec_render(n.kcal));
            crate::rat::lemma_dec_round_trip(n.carb);
            crate::rat::lemma_dec_round_trip(n.fat);
            crate::rat::lemma_dec_round_trip(n.protein);
            crate::rat::lemma_dec_round_trip(n.kcal);
            assert("fat"@ != "carb"@) by {
                assert("fat"@.len() != "carb"@.len());
            }
            assert("protein"@ != "carb"@ && "protein"@ != "fat"@) by {
                assert("protein"@.len() != "carb"@.len() && "protein"@.len() != "fat"@.len());
            }
            assert("kcal"@ != "carb"@ && "kcal"@ != "fat"@ && "kcal"@ != "protein"@) by {
                assert("kcal"@[0] != "carb"@[0]);
                assert("kcal"@.len() != "fat"@.len() && "kcal"@.len() != "protein"@.len());
            }
            let lc = "carb"@ + " = "@ + crate::rat::spec_render(n.carb);
            let lf = "fat"@ + " = "@ + crate::rat::spec_render(n.fat);
            let lp = "protein"@ + " = "@ + crate::rat::spec_render(n.protein);
            let lk = "kcal"@ + " = "@ + crate::rat::spec_render(n.kcal);
            let sb = PStateV { nut: NutrientsV { carb: n.carb, ..sa.nut }, ..sa };
            let sc = PStateV { nut: NutrientsV { fat: n.fat, ..sb.nut }, ..sb };
            let sd = PStateV { nut: NutrientsV { protein: n.protein, ..sc.nut }, ..sc };
            let se = PStateV { nut: NutrientsV { kcal: n.kcal, ..sd.nut }, ..sd };
            assert(!(lc[0] == '[' && lc[lc.len() - 1] == ']'));
            assert(!(lf[0] == '[' && lf[lf.len() - 1] == ']'));
            assert(!(lp[0] == '[' && lp[lp.len() - 1] == ']'));
            assert(!(lk[0] == '[' && lk[lk.len() - 1] == ']'));
            assert(spec_step(sa, lc) == Ok::<PStateV, ErrorV>(sb));
            assert(spec_step(sb, lf) == Ok::<PStateV, ErrorV>(sc));
            assert(spec_step(sc, lp) == Ok::<PStateV, ErrorV>(sd));
            assert(spec_step(sd, lk) == Ok::<PStateV, ErrorV>(se));
            let lines = seq!["[nutrients]"@, "carb = "@ + crate::rat::spec_render(n.carb), "fat = "@
                + crate::rat::spec_render(n.fat), "protein = "@ + crate::rat::spec_render(
                n.protein,
            ), "kcal = "@ + crate::rat::spec_render(n.kcal)];
            assert(lines[1] == lc && lines[2] == lf && lines[3] == lp && lines[4] == lk);
            assert(lines.drop_first() =~= seq![lc, lf, lp, lk]);
            assert(spec_parse_lines(Seq::<Seq<char>>::empty(), se) == Ok::<PStateV, ErrorV>(se));
            assert(spec_parse_lines(seq![lk], sd) == Ok::<PStateV, ErrorV>(se)) by {
                assert(seq![lk].drop_first() =~= Seq::<Seq<char>>::empty());
                assert(seq![lk][0] == lk);
            }
            assert(spec_parse_lines(seq![lp, lk], sc) == Ok::<PStateV, ErrorV>(se)) by {
                assert(seq![lp, lk].drop_first() =~= seq![lk]);
                assert(seq![lp, lk][0] == lp);
            }
            assert(spec_parse_lines(seq![lf, lp, lk], sb) == Ok::<PStateV, ErrorV>(se)) by {
                assert(seq![lf, lp, lk].drop_first() =~= seq![lp, lk]);
                assert(seq![lf, lp, lk][0] == lf);
            }
            assert(spec_parse_lines(seq![lc, lf, lp, lk], sa) == Ok::<PStateV, ErrorV>(se)) by {
                assert(seq![lc, lf, lp, lk].drop_first() =~= seq![lf, lp, lk]);
                assert(seq![lc, lf, lp, lk][0] == lc);
            }
            assert(spec_parse_lines(lines, st) == Ok::<PStateV, ErrorV>(se)) by {
                assert(lines[0] == "[nutrients]"@);
            }
            assert(se =~= parse_mid_state(f, st));
        },
        StubSpecV::Ingredients(l) => {
            let sa = PStateV { section: Sect::Ingredients, saw_ing: true, ..st };
            let lines = seq!["[ingredients]"@] + ing_lines(l);
            assert(lines[0] == "[ingredients]"@);
            assert(lines.drop_first() =~= ing_lines(l));
            lemma_parse_ings(l, sa);
            assert(spec_parse_lines(lines, st) == Ok::<PStateV, ErrorV>(
                PStateV { ing: sa.ing + l, ..sa },
            ));
            assert(PStateV { ing: sa.ing + l, ..sa } =~= parse_mid_state(f, st));
        },
    }
}

} // verus!

verus! {

/// Numeric well-formedness of a reader state.
pub open spec fn pstate_wf(st: PStateV) -> bool {
    &&& crate::nutrients::nut_wf(st.nut)
    &&& forall|i: int|
        0 <= i < st.ing.len() ==> crate::serving::serving_wf((#[trigger] st.ing[i]).1)
    &&& crate::food::table_wf(st.servings)
}

/// Numeric well-formedness of a stub: every ratio in it has a positive
/// denominator.
pub open spec fn stub_wf(f: FoodStubV) -> bool {
    &&& crate::food::table_wf(f.servings)
    &&& match f.spec {
        StubSpecV::Nutrients(n) => crate::nutrients::nut_wf(n),
        StubSpecV::Ingredients(l) => forall|i: int|
            0 <= i < l.len() ==> crate::serving::serving_wf((#[trigger] l[i]).1),
    }
}

/// The views of a list of optionally resolved foods.
pub open spec fn foods_view(s: Seq<Option<Food>>) -> Seq<Option<FoodV>>
    decreases s.len(),
{
    if s.len() == 0 {
        Seq::empty()
    } else {
        seq![
            match s[0] {
                Some(f) => Some(food_view(f)),
                None => None,
            },
        ] + foods_view(s.drop_first())
    }
}

/// `foods_view` maps the list element-wise.
pub proof fn lemma_foods_view(s: Seq<Option<Food>>)
    ensures
        foods_view(s).len() == s.len(),
        forall|i: int|
            0 <= i < s.len() ==> foods_view(s)[i] == match s[i] {
                Some(f) => Some(food_view(f)),
                None => None,
            },
    decreases s.len(),
{
    if s.len() > 0 {
        lemma_foods_view(s.drop_first());
        assert forall|i: int|
            0 <= i < s.len() implies foods_view(s)[i] == match s[i] {
            Some(f) => Some(food_view(f)),
            None => None,
        } by {
            if i > 0 {
                assert(s.drop_first()[i - 1] == s[i]);
            }
        }
    }
}

/// Every supplied food is well-formed.
pub open spec fn foods_wf(s: Seq<Option<FoodV>>) -> bool {
    forall|i: int|
        0 <= i < s.len() ==> match #[trigger] s[i] {
            Some(f) => crate::food::food_wf(f),
            None => true,
        }
}

/// Pair each ingredient entry with its resolved food, in order; the first
/// missing food is the error, naming its key.
pub open spec fn resolve_entries(l: Seq<(Seq<char>, ServingV)>, foods: Seq<Option<FoodV>>) -> Result<
    Seq<IngredientV>,
    ErrorV,
>
    decreases l.len(),
{
    if l.len() == 0 {
        Ok(Seq::empty())
    } else {
        match foods[0] {
            None => Err(ErrorV::FoodNotFound { key: l[0].0 }),
            Some(f) => match resolve_entries(l.drop_first(), foods.drop_first()) {
                Ok(rest) => Ok(
                    seq![IngredientV { key: l[0].0, serving: l[0].1, food: f }] + rest,
                ),
                Err(e) => Err(e),
            },
        }
    }
}

/// A stub together with the foods looked up for its ingredient keys.
pub open spec fn spec_resolve_stub(stub: FoodStubV, foods: Seq<Option<FoodV>>) -> Result<
    FoodV,
    ErrorV,
> {
    match stub.spec {
        StubSpecV::Nutrients(n) => Ok(
            FoodV { name: stub.name, spec: FoodSpecV::Nutrients(n), servings: stub.servings },
        ),
        StubSpecV::Ingredients(l) => match resolve_entries(l, foods) {
            Ok(ings) => Ok(
                FoodV {
                    name: stub.name,
                    spec: FoodSpecV::Ingredients(ings),
                    servings: stub.servings,
                },
            ),
            Err(e) => Err(e),
        },
    }
}

/// Missing-key propagation: if the food for some ingredient key is
/// missing and every earlier one was found, resolution fails naming
/// exactly that key.
pub proof fn lemma_missing_key(l: Seq<(Seq<char>, ServingV)>, foods: Seq<Option<FoodV>>, i: int)
    requires
        0 <= i < l.len(),
        i < foods.len(),
        foods[i] is None,
        forall|j: int| 0 <= j < i ==> foods[j] is Some,
    ensures
        resolve_entries(l, foods) == Err::<Seq<IngredientV>, ErrorV>(
            ErrorV::FoodNotFound { key: l[i].0 },
        ),
    decreases l.len(),
{
    if i == 0 {
    } else {
        assert(foods[0] is Some);
        assert forall|j: int| 0 <= j < i - 1 implies foods.drop_first()[j] is Some by {
            assert(foods.drop_first()[j] == foods[j + 1]);
        }
        assert(foods.drop_first()[i - 1] == foods[i]);
        assert(l.drop_first()[i - 1] == l[i]);
        lemma_missing_key(l.drop_first(), foods.drop_first(), i - 1);
    }
}

impl FoodStub {
    /// The food keys this stub references, in order: the foods that must
    /// be looked up before the stub can be resolved.
    pub fn keys(&self) -> (r: Vec<String>)
        ensures
            match self@.spec {
                StubSpecV::Ingredients(l) => r@.len() == l.len() && forall|i: int|
                    0 <= i < l.len() ==> #[trigger] r@[i]@ == l[i].0,
                StubSpecV::Nutrients(_) => r@.len() == 0,
            },
    {
        let mut out: Vec<String> = Vec::new();
        match &self.spec {
            StubSpec::Nutrients(_) => out,
            StubSpec::Ingredients(entries) => {
                let n = entries.len();
                let mut i: usize = 0;
                while i < n
                    invariant
                        0 <= i <= n,
                        n == entries@.len(),
                        out@.len() == i,
                        forall|j: int|
                            0 <= j < i ==> #[trigger] out@[j]@ == entries@[j].0@,
                    decreases n - i,
                {
                    out.push(entries[i].0.clone());
                    i = i + 1;
                }
                proof {
                    assert(self@.spec == StubSpecV::Ingredients(entries_view(entries@)));
                    assert(forall|j: int|
                        0 <= j < n ==> #[trigger] entries_view(entries@)[j].0 == entries@[j].0@);
                }
                out
            },
        }
    }

    /// Resolve the stub into a food: each ingredient entry is paired, in
    /// order, with the food supplied for its key.  A `None` means the key
    /// had no record; the first such key is the error.
    pub fn resolve(self, foods: Vec<Option<Food>>) -> (r: Result<Food, Error>)
        requires
            stub_wf(self@),
            foods_wf(foods_view(foods@)),
            match self@.spec {
                StubSpecV::Ingredients(l) => foods@.len() == l.len(),
                StubSpecV::Nutrients(_) => true,
            },
        ensures
            match r {
                Ok(food) => spec_resolve_stub(self@, foods_view(foods@)) == Ok::<FoodV, ErrorV>(
                    food@,
                ) && food.wf(),
                Err(e) => spec_resolve_stub(self@, foods_view(foods@)) == Err::<FoodV, ErrorV>(e@),
            },
    {
        let ghost stubv = self@;
        let ghost fv = foods_view(foods@);
        let FoodStub { name, spec, servings } = self;
        proof {
            assert(stubv.name == name@ && stubv.spec == spec@ && stubv.servings == table_view(
                servings@,
            ));
        }
        match spec {
            StubSpec::Nutrients(n) => {
                let f = Food { name, spec: FoodSpec::Nutrients(n), servings };
                proof {
                    assert(food_view(f) =~= spec_resolve_stub(stubv, fv)->Ok_0);
                }
                Ok(f)
            },
            StubSpec::Ingredients(entries) => {
                let ghost lv = entries_view(entries@);
                let ghost orig = foods@;
                proof {
                    lemma_foods_view(orig);
                }
                let mut remaining = foods;
                let n = entries.len();
                let mut ings: Vec<Ingredient> = Vec::new();
                let mut i: usize = 0;
                proof {
                    assert(remaining@ =~= orig.skip(0));
                }
                while i < n
                    invariant
                        0 <= i <= n,
                        n == entries@.len(),
                        n == orig.len(),
                        lv == entries_view(entries@),
                        fv == foods_view(orig),
                        stubv == self@,
                        orig == foods@,
                        fv.len() == n,
                        foods_wf(fv),
                        stub_wf(stubv),
                        stubv.spec == StubSpecV::Ingredients(lv),
                        forall|j: int|
                            0 <= j < n ==> #[trigger] fv[j] == (match orig[j] {
                                Some(f) => Some(food_view(f)),
                                None => None,
                            }),
                        remaining@ =~= orig.skip(i as int),
                        forall|j: int| 0 <= j < i ==> (#[trigger] fv[j]) is Some,
                        ingredients_view(ings@).len() == i,
                        forall|j: int|
                            0 <= j < i ==> #[trigger] ingredients_view(ings@)[j]
                                == (IngredientV {
                                key: lv[j].0,
                                serving: lv[j].1,
                                food: fv[j]->0,
                            }),
                        crate::food::ingredients_wf(ingredients_view(ings@)),
                    decreases n - i,
                {
                    let entry_key = entries[i].0.clone();
                    let entry_serving = entries[i].1.dup();
                    let food = remaining.remove(0);
                    proof {
                        assert(orig.skip(i as int)[0] == orig[i as int]);
                        assert(orig.skip(i as int).drop_first() =~= orig.skip(i + 1));
                        assert(lv[i as int] == (entries@[i as int].0@, entries@[i as int].1@));
                    }
                    match food {
                        None => {
                            proof {
                                lemma_missing_key(lv, fv, i as int);
                                assert(entry_key@ == lv[i as int].0);
                                assert(spec_resolve_stub(stubv, fv) == Err::<FoodV, ErrorV>(
                                    ErrorV::FoodNotFound { key: lv[i as int].0 },
                                ));
                            }
                            return Err(Error::FoodNotFound { key: entry_key });
                        },
                        Some(f) => {
                            let ghost pre = ings@;
                            let ing = Ingredient { key: entry_key, serving: entry_serving, food: f };
                            proof {
                                assert(ingredient_view(ing) == (IngredientV {
                                    key: lv[i as int].0,
                                    serving: lv[i as int].1,
                                    food: fv[i as int]->0,
                                }));
                            }
                            ings.push(ing);
                            proof {
                                crate::food::lemma_ingredients_view(pre);
                                assert(pre.len() == i);
                                assert(ings@.last() == ing);
                                lemma_ings_push(pre, ings@, i as int);
                                crate::food::lemma_ingredients_wf(ingredients_view(pre));
                                crate::food::lemma_ingredients_wf(ingredients_view(ings@));
                                assert(crate::food::ingredient_wf(ingredients_view(ings@)[i as int]))
                                    by {
                                    assert(crate::serving::serving_wf(lv[i as int].1));
                                    assert(crate::food::food_wf(fv[i as int]->0));
                                }
                            }
                            i = i + 1;
                        },
                    }
                }
                proof {
                    lemma_resolve_all_some(lv, fv);
                    assert(ingredients_view(ings@) =~= resolve_entries(lv, fv)->Ok_0);
                }
                let f = Food { name, spec: FoodSpec::Ingredients(ings), servings };
                proof {
                    assert(food_view(f) =~= spec_resolve_stub(stubv, fv)->Ok_0);
                    crate::food::lemma_ingredients_wf(ingredients_view(f.spec->Ingredients_0@));
                }
                Ok(f)
            },
        }
    }
}

/// Pushing one ingredient extends the view by its view.
proof fn lemma_ings_push(pre: Seq<Ingredient>, post: Seq<Ingredient>, i: int)
    requires
        post == pre.push(post.last()),
        post.len() == i + 1,
        i >= 0,
    ensures
        ingredients_view(post).len() == i + 1,
        forall|j: int|
            0 <= j < i + 1 ==> #[trigger] ingredients_view(post)[j] == if j < i {
                ingredients_view(pre)[j]
            } else {
                ingredient_view(post.last())
            },
{
    crate::food::lemma_ingredients_view(pre);
    crate::food::lemma_ingredients_view(post);
    assert forall|j: int|
        0 <= j < i + 1 implies #[trigger] ingredients_view(post)[j] == if j < i {
        ingredients_view(pre)[j]
    } else {
        ingredient_view(post.last())
    } by {
        if j < i {
            assert(post[j] == pre[j]);
        } else {
            assert(post[j] == post.last());
        }
    }
}

/// With every food supplied, resolution succeeds pointwise.
proof fn lemma_resolve_all_some(l: Seq<(Seq<char>, ServingV)>, foods: Seq<Option<FoodV>>)
    requires
        l.len() == foods.len(),
        forall|j: int| 0 <= j < foods.len() ==> (#[trigger] foods[j]) is Some,
    ensures
        resolve_entries(l, foods) is Ok,
        resolve_entries(l, foods)->Ok_0.len() == l.len(),
        forall|j: int|
            0 <= j < l.len() ==> #[trigger] resolve_entries(l, foods)->Ok_0[j] == (IngredientV {
                key: l[j].0,
                serving: l[j].1,
                food: foods[j]->0,
            }),
    decreases l.len(),
{
    if l.len() > 0 {
        assert(foods[0] is Some);
        assert forall|j: int| 0 <= j < foods.drop_first().len() implies (#[trigger] foods.drop_first()[j]) is Some by {
            assert(foods.drop_first()[j] == foods[j + 1]);
        }
        lemma_resolve_all_some(l.drop_first(), foods.drop_first());
        assert forall|j: int|
            0 <= j < l.len() implies #[trigger] resolve_entries(l, foods)->Ok_0[j]
            == (IngredientV { key: l[j].0, serving: l[j].1, food: foods[j]->0 }) by {
            if j > 0 {
                assert(l.drop_first()[j - 1] == l[j]);
                assert(foods.drop_first()[j - 1] == foods[j]);
            }
        }
    }
}

} // verus!

verus! {

/// Executable test for `key_canon`.
pub fn is_key_canon(s: &str) -> (r: bool)
    ensures
        r == key_canon(s@),
{
    let n = s.unicode_len();
    if n == 0 {
        return false;
    }
    let c0 = s.get_char(0);
    if crate::text::is_space_char(c0) || c0 == '[' {
        return false;
    }
    if crate::text::is_space_char(s.get_char(n - 1)) {
        return false;
    }
    let mut i: usize = 0;
    while i < n
        invariant
            0 <= i <= n,
            n == s@.len(),
            forall|q: int| 0 <= q < i ==> s@[q] != '\n' && s@[q] != '=',
        decreases n - i,
    {
        let c = s.get_char(i);
        if c == '\n' || c == '=' {
            return false;
        }
        i = i + 1;
    }
    true
}

/// Executable test for `name_canon`.
pub fn is_name_canon(s: &str) -> (r: bool)
    ensures
        r == name_canon(s@),
{
    let n = s.unicode_len();
    if n == 0 {
        return false;
    }
    if crate::text::is_space_char(s.get_char(0)) || crate::text::is_space_char(
        s.get_char(n - 1),
    ) {
        return false;
    }
    let mut i: usize = 0;
    while i < n
        invariant
            0 <= i <= n,
            n == s@.len(),
            forall|q: int| 0 <= q < i ==> s@[q] != '\n',
        decreases n - i,
    {
        if s.get_char(i) == '\n' {
            return false;
        }
        i = i + 1;
    }
    true
}

impl Serving {
    /// Executable test for `serving_canon`.
    pub fn is_canon(&self) -> (r: bool)
        ensures
            r == crate::serving::serving_canon(self@),
    {
        if !self.size.is_decimal() {
            return false;
        }
        if self.size.num < 0 {
            return false;
        }
        match &self.unit {
            None => true,
            Some(u) => {
                let n = u.as_str().unicode_len();
                if n == 0 {
                    return false;
                }
                if crate::text::is_space_char(u.as_str().get_char(0))
                    || crate::text::is_space_char(u.as_str().get_char(n - 1)) {
                    return false;
                }
                let mut i: usize = 0;
                while i < n
                    invariant
                        0 <= i <= n,
                        n == u@.len(),
                        self@.unit == Some(u@),
                        self.size@.num >= 0,
                        crate::rat::ratio_decimal(self@.size),
                        forall|q: int| 0 <= q < i ==> u@[q] != '\n',
                    decreases n - i,
                {
                    if u.as_str().get_char(i) == '\n' {
                        return false;
                    }
                    i = i + 1;
                }
                true
            },
        }
    }
}

impl Food {
    /// Executable test for the writing precondition: can this food be
    /// written as record text that reads back to it?
    pub fn savable(&self) -> (r: bool)
        ensures
            r == stub_canon(stub_of(self@)),
    {
        if !is_name_canon(self.name.as_str()) {
            return false;
        }
        let ghost stub = stub_of(self@);
        let n = self.servings.len();
        let mut i: usize = 0;
        while i < n
            invariant
                0 <= i <= n,
                n == self.servings@.len(),
                stub == stub_of(self@),
                stub.servings == table_view(self.servings@),
                stub.servings.len() == n,
                forall|j: int|
                    0 <= j < i ==> key_canon((#[trigger] stub.servings[j]).0)
                        && crate::rat::ratio_decimal(stub.servings[j].1),
            decreases n - i,
        {
            let row = &self.servings[i];
            proof {
                assert(stub.servings[i as int] == crate::food::row_view(
                    self.servings@[i as int],
                ));
            }
            if !is_key_canon(row.0.as_str()) || !row.1.is_decimal() {
                return false;
            }
            i = i + 1;
        }
        match &self.spec {
            FoodSpec::Nutrients(nu) => {
                proof {
                    assert(self@.spec == FoodSpecV::Nutrients(nu@));
                }
                nu.carb.is_decimal() && nu.fat.is_decimal() && nu.protein.is_decimal()
                    && nu.kcal.is_decimal()
            },
            FoodSpec::Ingredients(list) => {
                proof {
                    assert(self@.spec == FoodSpecV::Ingredients(ingredients_view(list@)));
                    crate::food::lemma_ingredients_view(list@);
                    lemma_ing_entries(ingredients_view(list@));
                }
                let ghost entries = ing_entries(ingredients_view(list@));
                let m = list.len();
                let mut k: usize = 0;
                while k < m
                    invariant
                        0 <= k <= m,
                        m == list@.len(),
                        entries == ing_entries(ingredients_view(list@)),
                        stub == stub_of(self@),
                        stub.spec == StubSpecV::Ingredients(entries),
                        entries.len() == m,
                        forall|j: int|
                            0 <= j < m ==> #[trigger] entries[j] == (
                                list@[j].key@,
                                list@[j].serving@,
                            ),
                        forall|j: int|
                            0 <= j < k ==> key_canon((#[trigger] entries[j]).0)
                                && crate::serving::serving_canon(entries[j].1),
                    decreases m - k,
                {
                    let ing = &list[k];
                    if !is_key_canon(ing.key.as_str()) || !ing.serving.is_canon() {
                        proof {
                            assert(entries[k as int] == (ing.key@, ing.serving@));
                            assert(!(key_canon(entries[k as int].0)
                                && crate::serving::serving_canon(entries[k as int].1)));
                            assert(!entries_canon(entries));
                            assert(stub.spec == StubSpecV::Ingredients(entries));
                        }
                        return false;
                    }
                    k = k + 1;
                }
                true
            },
        }
    }
}

impl crate::journal::Journal {
    /// Executable test for the writing precondition: every serving size
    /// is in decimal form.
    pub fn savable(&self) -> (r: bool)
        ensures
            r == (forall|i: int|
                0 <= i < self@.len() ==> crate::rat::ratio_decimal(
                    (#[trigger] self@[i]).serving.size,
                )),
    {
        let n = self.0.len();
        proof {
            crate::journal::lemma_journal_view(self.0@);
        }
        let mut i: usize = 0;
        while i < n
            invariant
                0 <= i <= n,
                n == self.0@.len(),
                self@.len() == n,
                forall|j: int|
                    0 <= j < n ==> (#[trigger] self@[j]).serving == self.0@[j].serving@,
                forall|j: int|
                    0 <= j < i ==> crate::rat::ratio_decimal((#[trigger] self@[j]).serving.size),
            decreases n - i,
        {
            if !self.0[i].serving.size.is_decimal() {
                proof {
                    assert(!crate::rat::ratio_decimal(self@[i as int].serving.size));
                }
                return false;
            }
            i = i + 1;
        }
        true
    }
}

impl crate::recipe::Recipe {
    /// Executable test for the writing precondition: every serving size
    /// is in decimal form.
    pub fn savable(&self) -> (r: bool)
        ensures
            r == (forall|i: int|
                0 <= i < self@.ingredients.len() ==> crate::rat::ratio_decimal(
                    (#[trigger] self@.ingredients[i]).1.size,
                )),
    {
        let n = self.ingredients.len();
        let mut i: usize = 0;
        while i < n
            invariant
                0 <= i <= n,
                n == self.ingredients@.len(),
                self@.ingredients.len() == n,
                forall|j: int|
                    0 <= j < n ==> (#[trigger] self@.ingredients[j]).1
                        == self.ingredients@[j].1@,
                forall|j: int|
                    0 <= j < i ==> crate::rat::ratio_decimal(
                        (#[trigger] self@.ingredients[j]).1.size,
                    ),
            decreases n - i,
        {
            if !self.ingredients[i].1.size.is_decimal() {
                proof {
                    assert(!crate::rat::ratio_decimal(self@.ingredients[i as int].1.size));
                }
                return false;
            }
            i = i + 1;
        }
        true
    }
}

} // verus!
