//! Recipes: named, ordered lists of (food key, serving) entries, kept as
//! `key = serving` lines like a journal.
use vstd::prelude::*;

use crate::codec::{entries_view, key_canon, unlines};
use crate::error::{Error, ErrorV};
use crate::serving::{
    serving_canon, serving_wf, spec_parse_serving, spec_render_serving, Serving, ServingV,
};
use crate::text::{first_char, spec_trim};

verus! {

/// Specification-level mirror of [`Recipe`].
#[verifier::ext_equal]
pub struct RecipeV {
    pub name: Seq<char>,
    pub ingredients: Seq<(Seq<char>, ServingV)>,
}

/// A collection of foods in various quantities, keyed by a free-form
/// name.
#[derive(Debug)]
pub struct Recipe {
    pub name: String,
    pub ingredients: Vec<(String, Serving)>,
}

impl View for Recipe {
    type V = RecipeV;

    open spec fn view(&self) -> RecipeV {
        RecipeV { name: self.name@, ingredients: entries_view(self.ingredients@) }
    }
}

/// What one recipe line denotes: nothing for a blank line, the recipe's
/// name for a `name = ...` line, an ingredient otherwise.
pub open spec fn spec_parse_rline(l: Seq<char>) -> Result<
    Option<Result<Seq<char>, (Seq<char>, ServingV)>>,
    ErrorV,
> {
    let line = spec_trim(l);
    if line.len() == 0 {
        Ok(None)
    } else {
        let eq = first_char(line, '=');
        if eq < 0 {
            Ok(Some(Err((line, ServingV { size: crate::rat::ratio_int(1), unit: None }))))
        } else {
            let key = spec_trim(line.take(eq));
            if key == "name"@ {
                Ok(Some(Ok(spec_trim(line.skip(eq + 1)))))
            } else {
                match spec_parse_serving(line.skip(eq + 1)) {
                    Ok(sv) => Ok(Some(Err((key, sv)))),
                    Err(e) => Err(e),
                }
            }
        }
    }
}

/// All recipe lines folded in order: the last `name` line wins, the
/// ingredients collect in order.
pub open spec fn spec_parse_rlines(lines: Seq<Seq<char>>, acc: RecipeV) -> Result<RecipeV, ErrorV>
    decreases lines.len(),
{
    if lines.len() == 0 {
        Ok(acc)
    } else {
        match spec_parse_rline(lines[0]) {
            Err(e) => Err(e),
            Ok(None) => spec_parse_rlines(lines.drop_first(), acc),
            Ok(Some(Ok(nm))) => spec_parse_rlines(
                lines.drop_first(),
                RecipeV { name: nm, ..acc },
            ),
            Ok(Some(Err(en))) => spec_parse_rlines(
                lines.drop_first(),
                RecipeV { ingredients: acc.ingredients.push(en), ..acc },
            ),
        }
    }
}

/// What a recipe's text denotes.
pub open spec fn spec_parse_recipe(text: Seq<char>) -> Result<RecipeV, ErrorV> {
    spec_parse_rlines(
        crate::text::split_on(text, '\n'),
        RecipeV { name: Seq::empty(), ingredients: Seq::empty() },
    )
}

/// The text lines of a recipe: a `name = ...` line when the name is not
/// empty, then one `key = serving` line per ingredient.
pub open spec fn recipe_lines(r: RecipeV) -> Seq<Seq<char>> {
    (if r.name.len() == 0 {
        Seq::<Seq<char>>::empty()
    } else {
        seq!["name = "@ + r.name]
    }) + crate::journal::jlines(r.ingredients)
}

/// The canonical text of a recipe.
pub open spec fn spec_encode_recipe(r: RecipeV) -> Seq<char> {
    unlines(recipe_lines(r))
}

impl Recipe {
    /// Parse a recipe's text.
    pub fn parse(text: &str) -> (r: Result<Recipe, Error>)
        ensures
            match r {
                Ok(rec) => spec_parse_recipe(text@) == Ok::<RecipeV, ErrorV>(rec@) && forall|
                    i: int,
                |
                    0 <= i < rec@.ingredients.len() ==> serving_wf(
                        (#[trigger] rec@.ingredients[i]).1,
                    ),
                Err(e) => spec_parse_recipe(text@) == Err::<RecipeV, ErrorV>(e@),
            },
    {
        let lines = crate::text::split_char(text, '\n');
        let ghost lv = crate::text::split_on(text@, '\n');
        let mut name = String::new();
        let mut ings: Vec<(String, Serving)> = Vec::new();
        proof {
            assert(lv.skip(0) =~= lv);
            assert(entries_view(ings@) =~= Seq::<(Seq<char>, ServingV)>::empty());
            assert((RecipeV { name: name@, ingredients: entries_view(ings@) }) =~= (RecipeV {
                name: Seq::empty(),
                ingredients: Seq::empty(),
            }));
        }
        let mut i: usize = 0;
        let n = lines.len();
        while i < n
            invariant
                0 <= i <= n,
                n == lines@.len(),
                lv == lines@.map_values(|x: String| x@),
                lv == crate::text::split_on(text@, '\n'),
                spec_parse_rlines(
                    lv,
                    RecipeV { name: Seq::empty(), ingredients: Seq::empty() },
                ) == spec_parse_rlines(
                    lv.skip(i as int),
                    RecipeV { name: name@, ingredients: entries_view(ings@) },
                ),
                forall|q: int|
                    0 <= q < ings@.len() ==> serving_wf((#[trigger] entries_view(ings@)[q]).1),
            decreases n - i,
        {
            let ghost pre = RecipeV { name: name@, ingredients: entries_view(ings@) };
            proof {
                assert(lv[i as int] == lines@[i as int]@);
                assert(lv.skip(i as int)[0] == lv[i as int]);
                assert(lv.skip(i as int).drop_first() =~= lv.skip(i + 1));
            }
            let trimmed = crate::text::trim(lines[i].as_str());
            let line = trimmed.as_str();
            let ln = line.unicode_len();
            if ln == 0 {
                i = i + 1;
                continue;
            }
            match crate::codec::find_eq(line) {
                None => {
                    let en = (trimmed, Serving::default());
                    proof {
                        assert(entries_view(ings@.push(en)) =~= pre.ingredients.push(
                            (en.0@, en.1@),
                        ));
                    }
                    ings.push(en);
                },
                Some(eq) => {
                    let key = crate::text::trim(line.substring_char(0, eq));
                    let rest = line.substring_char(eq + 1, ln);
                    proof {
                        assert(rest@ =~= spec_trim(lv[i as int]).skip(eq + 1));
                        assert(line@.take(eq as int) =~= spec_trim(lv[i as int]).take(eq as int));
                    }
                    if crate::text::str_eq(key.as_str(), "name") {
                        name = crate::text::trim(rest);
                        proof {
                            assert(spec_trim(rest@) == name@);
                        }
                    } else {
                        match Serving::from_str(rest) {
                            Ok(sv) => {
                                let en = (key, sv);
                                proof {
                                    assert(entries_view(ings@.push(en)) =~= pre.ingredients.push(
                                        (en.0@, en.1@),
                                    ));
                                }
                                ings.push(en);
                            },
                            Err(e) => {
                                proof {
                                    assert(spec_parse_rlines(lv.skip(i as int), pre) == Err::<
                                        RecipeV,
                                        ErrorV,
                                    >(e@));
                                }
                                return Err(e);
                            },
                        }
                    }
                },
            }
            i = i + 1;
        }
        proof {
            assert(lv.skip(n as int) =~= Seq::<Seq<char>>::empty());
        }
        Ok(Recipe { name, ingredients: ings })
    }

    /// Write the recipe as text: a `name = ...` line when the name is not
    /// empty, then one `key = serving` line per ingredient.
    pub fn save(&self) -> (out: String)
        requires
            forall|i: int|
                0 <= i < self@.ingredients.len() ==> crate::rat::ratio_decimal(
                    (#[trigger] self@.ingredients[i]).1.size,
                ),
        ensures
            out@ == spec_encode_recipe(self@),
    {
        let ghost ents = self@.ingredients;
        let ghost head = (if self@.name.len() == 0 {
            Seq::<Seq<char>>::empty()
        } else {
            seq!["name = "@ + self@.name]
        });
        let mut out = String::new();
        if !self.name.as_str().is_empty() {
            proof {
                reveal_strlit("name = ");
                reveal_strlit("\n");
            }
            out.append("name = ");
            out.append(self.name.as_str());
            out.append("\n");
            proof {
                crate::codec::lemma_unlines_one("name = "@ + self@.name);
                assert(out@ =~= unlines(head));
            }
        } else {
            proof {
                assert(out@ =~= unlines(head));
            }
        }
        let n = self.ingredients.len();
        let mut i: usize = 0;
        proof {
            assert(ents.take(0) =~= Seq::<(Seq<char>, ServingV)>::empty());
            assert(head + crate::journal::jlines(ents.take(0)) =~= head);
            assert(out@ =~= unlines(head + crate::journal::jlines(ents.take(0))));
        }
        while i < n
            invariant
                0 <= i <= n,
                n == self.ingredients@.len(),
                ents == entries_view(self.ingredients@),
                head == (if self@.name.len() == 0 {
                    Seq::<Seq<char>>::empty()
                } else {
                    seq!["name = "@ + self@.name]
                }),
                ents.len() == n,
                forall|j: int|
                    0 <= j < n ==> #[trigger] ents[j] == (
                        self.ingredients@[j].0@,
                        self.ingredients@[j].1@,
                    ),
                forall|j: int|
                    0 <= j < n ==> crate::rat::ratio_decimal((#[trigger] ents[j]).1.size),
                out@ == unlines(head + crate::journal::jlines(ents.take(i as int))),
            decreases n - i,
        {
            let en = &self.ingredients[i];
            out.append(en.0.as_str());
            proof {
                reveal_strlit(" = ");
                assert(en.1@ == ents[i as int].1);
            }
            out.append(" = ");
            let sv = en.1.render();
            out.append(sv.as_str());
            proof {
                reveal_strlit("\n");
            }
            out.append("\n");
            proof {
                assert(ents.take(i + 1) =~= ents.take(i as int).push(ents[i as int]));
                crate::journal::lemma_jlines_push_pub(ents.take(i as int), ents[i as int]);
                crate::codec::lemma_unlines_append(
                    head + crate::journal::jlines(ents.take(i as int)),
                    seq![ents[i as int].0 + " = "@ + spec_render_serving(ents[i as int].1)],
                );
                crate::codec::lemma_unlines_one(
                    ents[i as int].0 + " = "@ + spec_render_serving(ents[i as int].1),
                );
                assert((head + crate::journal::jlines(ents.take(i as int))) + seq![
                    ents[i as int].0 + " = "@ + spec_render_serving(ents[i as int].1),
                ] =~= head + crate::journal::jlines(ents.take(i + 1)));
                assert(out@ =~= unlines(head + crate::journal::jlines(ents.take(i + 1))));
            }
            i = i + 1;
        }
        proof {
            assert(ents.take(n as int) =~= ents);
            assert(head + crate::journal::jlines(ents) =~= recipe_lines(self@));
        }
        out
    }
}

/// Round-trip: the text written for a canonical recipe parses back to
/// that recipe, name and ingredients alike.
pub proof fn lemma_recipe_round_trip(r: RecipeV)
    requires
        r.name.len() == 0 || crate::codec::name_canon(r.name),
        forall|i: int|
            0 <= i < r.ingredients.len() ==> key_canon((#[trigger] r.ingredients[i]).0)
                && serving_canon(r.ingredients[i].1) && r.ingredients[i].0 != "name"@,
    ensures
        spec_parse_recipe(spec_encode_recipe(r)) == Ok::<RecipeV, ErrorV>(r),
{
    reveal_strlit("name = ");
    reveal_strlit("name");
    crate::journal::lemma_jlines_clean_pub(r.ingredients);
    let rows = crate::journal::jlines(r.ingredients);
    let ls = recipe_lines(r);
    let acc0 = RecipeV { name: Seq::empty(), ingredients: Seq::empty() };
    assert(spec_parse_rline(Seq::<char>::empty()) == Ok::<
        Option<Result<Seq<char>, (Seq<char>, ServingV)>>,
        ErrorV,
    >(None)) by {
        assert(spec_trim(Seq::<char>::empty()) =~= Seq::<char>::empty());
    }
    if r.name.len() == 0 {
        assert(ls =~= rows);
        crate::codec::lemma_split_unlines(ls);
        lemma_parse_rlines_seg(r.ingredients, acc0);
        lemma_parse_rlines_append(rows, seq![Seq::<char>::empty()], acc0);
        assert(rows + seq![Seq::<char>::empty()] =~= ls.push(Seq::<char>::empty()));
        let accn = RecipeV { name: Seq::empty(), ingredients: Seq::empty() + r.ingredients };
        assert(spec_parse_rlines(seq![Seq::<char>::empty()], accn) == Ok::<RecipeV, ErrorV>(
            accn,
        )) by {
            assert(seq![Seq::<char>::empty()].drop_first() =~= Seq::<Seq<char>>::empty());
            assert(seq![Seq::<char>::empty()][0] =~= Seq::<char>::empty());
            assert(spec_parse_rlines(Seq::<Seq<char>>::empty(), accn) == Ok::<RecipeV, ErrorV>(
                accn,
            ));
        }
        assert(Seq::<(Seq<char>, ServingV)>::empty() + r.ingredients =~= r.ingredients);
        assert(accn =~= r);
    } else {
        assert("name = "@ =~= "name"@ + " = "@) by {
            reveal_strlit(" = ");
        }
        assert("name"@.len() == 4);
        assert(!crate::text::is_space("name"@[0]) && !crate::text::is_space("name"@[3])) by {
            assert("name"@[0] == 'n' && "name"@[3] == 'e');
        }
        assert(forall|i: int| 0 <= i < 4 ==> "name"@[i] != '\n' && "name"@[i] != '=');
        crate::codec::lemma_kv_line("name"@, r.name);
        let name_line = "name"@ + " = "@ + r.name;
        assert(ls =~= seq![name_line] + rows);
        assert forall|i: int, j: int|
            0 <= i < ls.len() && 0 <= j < ls[i].len() implies #[trigger] ls[i][j] != '\n' by {
            if i == 0 {
                assert(ls[0] == name_line);
                if j < 4 {
                    assert(name_line[j] == "name"@[j]);
                } else if j < 7 {
                    assert(name_line[j] == " = "@[j - 4]) by {
                        reveal_strlit(" = ");
                    }
                    assert(" = "@[0] == ' ' && " = "@[1] == '=' && " = "@[2] == ' ') by {
                        reveal_strlit(" = ");
                    }
                } else {
                    assert(name_line[j] == r.name[j - 7]);
                }
            } else {
                assert(ls[i] == rows[i - 1]);
            }
        }
        crate::codec::lemma_split_unlines(ls);
        let acc1 = RecipeV { name: r.name, ingredients: Seq::empty() };
        assert(spec_parse_rline(name_line) == Ok::<
            Option<Result<Seq<char>, (Seq<char>, ServingV)>>,
            ErrorV,
        >(Some(Ok(r.name))));
        lemma_parse_rlines_seg(r.ingredients, acc1);
        lemma_parse_rlines_append(seq![name_line], rows, acc0);
        assert(spec_parse_rlines(seq![name_line], acc0) == Ok::<RecipeV, ErrorV>(acc1)) by {
            assert(seq![name_line].drop_first() =~= Seq::<Seq<char>>::empty());
            assert(seq![name_line][0] == name_line);
            assert((RecipeV { name: r.name, ..acc0 }) =~= acc1);
            assert(spec_parse_rlines(
                Seq::<Seq<char>>::empty(),
                RecipeV { name: r.name, ..acc0 },
            ) == Ok::<RecipeV, ErrorV>(RecipeV { name: r.name, ..acc0 }));
        }
        let accn = RecipeV { name: r.name, ingredients: Seq::empty() + r.ingredients };
        assert((RecipeV { ingredients: acc1.ingredients + r.ingredients, ..acc1 }) =~= accn);
        lemma_parse_rlines_append(seq![name_line] + rows, seq![Seq::<char>::empty()], acc0);
        assert((seq![name_line] + rows) + seq![Seq::<char>::empty()] =~= ls.push(
            Seq::<char>::empty(),
        ));
        assert(spec_parse_rlines(seq![Seq::<char>::empty()], accn) == Ok::<RecipeV, ErrorV>(
            accn,
        )) by {
            assert(seq![Seq::<char>::empty()].drop_first() =~= Seq::<Seq<char>>::empty());
            assert(seq![Seq::<char>::empty()][0] =~= Seq::<char>::empty());
            assert(spec_parse_rlines(Seq::<Seq<char>>::empty(), accn) == Ok::<RecipeV, ErrorV>(
                accn,
            ));
        }
        assert(Seq::<(Seq<char>, ServingV)>::empty() + r.ingredients =~= r.ingredients);
        assert(accn =~= r);
    }
}

/// Recipe-line folding splits over concatenation.
proof fn lemma_parse_rlines_append(a: Seq<Seq<char>>, b: Seq<Seq<char>>, acc: RecipeV)
    ensures
        spec_parse_rlines(a + b, acc) == match spec_parse_rlines(a, acc) {
            Ok(m) => spec_parse_rlines(b, m),
            Err(e) => Err(e),
        },
    decreases a.len(),
{
    if a.len() == 0 {
        assert(a + b =~= b);
    } else {
        assert((a + b)[0] == a[0]);
        assert((a + b).drop_first() =~= a.drop_first() + b);
        match spec_parse_rline(a[0]) {
            Err(_) => {},
            Ok(None) => {
                lemma_parse_rlines_append(a.drop_first(), b, acc);
            },
            Ok(Some(Ok(nm))) => {
                lemma_parse_rlines_append(a.drop_first(), b, RecipeV { name: nm, ..acc });
            },
            Ok(Some(Err(en))) => {
                lemma_parse_rlines_append(
                    a.drop_first(),
                    b,
                    RecipeV { ingredients: acc.ingredients.push(en), ..acc },
                );
            },
        }
    }
}

/// Reading back canonical ingredient lines appends the ingredients.
proof fn lemma_parse_rlines_seg(l: Seq<(Seq<char>, ServingV)>, acc: RecipeV)
    requires
        forall|i: int|
            0 <= i < l.len() ==> key_canon((#[trigger] l[i]).0) && serving_canon(l[i].1)
                && l[i].0 != "name"@,
    ensures
        spec_parse_rlines(crate::journal::jlines(l), acc) == Ok::<RecipeV, ErrorV>(
            RecipeV { ingredients: acc.ingredients + l, ..acc },
        ),
    decreases l.len(),
{
    if l.len() == 0 {
        assert(acc.ingredients + l =~= acc.ingredients);
        assert((RecipeV { ingredients: acc.ingredients + l, ..acc }) =~= acc);
    } else {
        let key = l[0].0;
        let sv = l[0].1;
        let value = spec_render_serving(sv);
        crate::codec::lemma_render_serving_chars(sv);
        crate::codec::lemma_kv_line(key, value);
        crate::serving::lemma_serving_round_trip(sv);
        let line = key + " = "@ + value;
        assert(crate::journal::jlines(l)[0] == line);
        assert(spec_parse_rline(line) == Ok::<
            Option<Result<Seq<char>, (Seq<char>, ServingV)>>,
            ErrorV,
        >(Some(Err((key, sv)))));
        assert(crate::journal::jlines(l).drop_first() =~= crate::journal::jlines(l.drop_first()));
        assert(forall|i: int|
            0 <= i < l.drop_first().len() ==> #[trigger] l.drop_first()[i] == l[i + 1]);
        let acc1 = RecipeV { ingredients: acc.ingredients.push(l[0]), ..acc };
        lemma_parse_rlines_seg(l.drop_first(), acc1);
        assert(acc1.ingredients + l.drop_first() =~= acc.ingredients + l);
        assert((RecipeV { ingredients: acc1.ingredients + l.drop_first(), ..acc1 }) =~= (RecipeV {
            ingredients: acc.ingredients + l,
            ..acc
        }));
    }
}

} // verus!

verus! {

impl Recipe {
    /// Check the recipe against the foods looked up for its keys: every
    /// key must resolve, and every serving must be valid for its food.
    /// The first missing key or invalid serving is the error; `Overflow`
    /// can only stand where the exact validation left the machine range,
    /// and never when `journal_fits` holds of the inputs.
    pub fn resolve(&self, foods: Vec<Option<crate::food::Food>>) -> (r: Result<(), Error>)
        requires
            foods@.len() == self@.ingredients.len(),
            crate::codec::foods_wf(crate::codec::foods_view(foods@)),
            forall|i: int|
                0 <= i < self@.ingredients.len() ==> serving_wf(
                    (#[trigger] self@.ingredients[i]).1,
                ),
        ensures
            match r {
                Ok(_) => crate::journal::spec_resolve_journal(
                    self@.ingredients,
                    crate::codec::foods_view(foods@),
                ) is Ok,
                Err(e) => e@ == ErrorV::Overflow || crate::journal::spec_resolve_journal(
                    self@.ingredients,
                    crate::codec::foods_view(foods@),
                ) == Err::<Seq<crate::journal::JournalEntryV>, ErrorV>(e@),
            },
            crate::journal::journal_fits(
                self@.ingredients,
                crate::codec::foods_view(foods@),
            ) ==> (match r {
                Ok(_) => crate::journal::spec_resolve_journal(
                    self@.ingredients,
                    crate::codec::foods_view(foods@),
                ) is Ok,
                Err(e) => crate::journal::spec_resolve_journal(
                    self@.ingredients,
                    crate::codec::foods_view(foods@),
                ) == Err::<Seq<crate::journal::JournalEntryV>, ErrorV>(e@),
            }),
    {
        let ghost lv = self@.ingredients;
        let ghost fv = crate::codec::foods_view(foods@);
        proof {
            crate::codec::lemma_foods_view(foods@);
        }
        let n = self.ingredients.len();
        let mut i: usize = 0;
        proof {
            assert(lv.skip(0) =~= lv);
            assert(fv.skip(0) =~= fv);
        }
        while i < n
            invariant
                0 <= i <= n,
                n == self.ingredients@.len(),
                n == foods@.len(),
                lv == entries_view(self.ingredients@),
                fv == crate::codec::foods_view(foods@),
                fv.len() == n,
                lv.len() == n,
                crate::codec::foods_wf(fv),
                forall|j: int| 0 <= j < n ==> serving_wf((#[trigger] lv[j]).1),
                forall|j: int|
                    0 <= j < n ==> #[trigger] fv[j] == (match foods@[j] {
                        Some(f) => Some(crate::food::food_view(f)),
                        None => None,
                    }),
                forall|j: int|
                    0 <= j < n ==> #[trigger] lv[j] == (
                        self.ingredients@[j].0@,
                        self.ingredients@[j].1@,
                    ),
                crate::journal::spec_resolve_journal(lv, fv) is Ok <==> crate::journal::spec_resolve_journal(
                    lv.skip(i as int),
                    fv.skip(i as int),
                ) is Ok,
                crate::journal::spec_resolve_journal(lv.skip(i as int), fv.skip(i as int)) matches Err(
                    e,
                ) ==> crate::journal::spec_resolve_journal(lv, fv) == Err::<
                    Seq<crate::journal::JournalEntryV>,
                    ErrorV,
                >(e),
            decreases n - i,
        {
            proof {
                assert(lv.skip(i as int)[0] == lv[i as int]);
                assert(fv.skip(i as int)[0] == fv[i as int]);
                assert(lv.skip(i as int).drop_first() =~= lv.skip(i + 1));
                assert(fv.skip(i as int).drop_first() =~= fv.skip(i + 1));
            }
            match &foods[i] {
                None => {
                    return Err(Error::FoodNotFound { key: self.ingredients[i].0.clone() });
                },
                Some(f) => {
                    proof {
                        assert(crate::food::food_view(*f) == fv[i as int]->0);
                        assert(crate::food::food_wf(crate::food::food_view(*f)));
                    }
                    match f.serve(&self.ingredients[i].1) {
                        Ok(_) => {},
                        Err(e) => {
                            proof {
                                if crate::journal::journal_fits(lv, fv) {
                                    assert(fv[i as int] matches Some(g)
                                        && crate::food::serve_fits(
                                        g,
                                        lv[i as int].1.unit,
                                        crate::rat::rat_bound(lv[i as int].1.size),
                                    ));
                                }
                            }
                            return Err(e);
                        },
                    }
                },
            }
            i = i + 1;
        }
        proof {
            assert(lv.skip(n as int) =~= Seq::<(Seq<char>, ServingV)>::empty());
            assert(fv.skip(n as int) =~= Seq::<Option<crate::food::FoodV>>::empty());
        }
        Ok(())
    }
}

} // verus!
