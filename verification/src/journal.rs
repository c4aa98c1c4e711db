//! Journals: what was eaten on a day, as an ordered list of (food key,
//! serving) entries with the referenced foods resolved in.
use vstd::prelude::*;

use crate::codec::{foods_view, foods_wf, key_canon, unlines};
use crate::date::Date;
use crate::error::{Error, ErrorV};
use crate::food::{food_view, food_wf, spec_serve, Food, FoodV};
use crate::nutrients::{nut_add, nut_eq, nut_wf, nut_zero, Nutrients, NutrientsV};
use crate::rat::{dec_digits, zero_pad};
use crate::serving::{
    serving_canon, serving_wf, spec_parse_serving, spec_render_serving, Serving, ServingV,
};
use crate::text::{first_char, spec_trim};

verus! {

/// Specification-level mirror of [`JournalEntry`].
#[verifier::ext_equal]
pub struct JournalEntryV {
    pub key: Seq<char>,
    pub serving: ServingV,
    pub food: FoodV,
}

/// One "food eaten" event: the food's key, the serving consumed, and the
/// resolved food.
#[derive(Debug)]
pub struct JournalEntry {
    pub key: String,
    pub serving: Serving,
    pub food: Food,
}

impl View for JournalEntry {
    type V = JournalEntryV;

    open spec fn view(&self) -> JournalEntryV {
        JournalEntryV { key: self.key@, serving: self.serving@, food: food_view(self.food) }
    }
}

/// A day's record of food consumed, in order.
#[derive(Debug)]
pub struct Journal(pub Vec<JournalEntry>);

/// The view of a journal's entry list.
pub open spec fn journal_view(v: Seq<JournalEntry>) -> Seq<JournalEntryV>
    decreases v.len(),
{
    if v.len() == 0 {
        Seq::empty()
    } else {
        seq![
            JournalEntryV { key: v[0].key@, serving: v[0].serving@, food: food_view(v[0].food) },
        ] + journal_view(v.drop_first())
    }
}

/// `journal_view` maps the list element-wise.
pub proof fn lemma_journal_view(v: Seq<JournalEntry>)
    ensures
        journal_view(v).len() == v.len(),
        forall|i: int|
            0 <= i < v.len() ==> journal_view(v)[i] == (JournalEntryV {
                key: v[i].key@,
                serving: v[i].serving@,
                food: food_view(v[i].food),
            }),
    decreases v.len(),
{
    if v.len() > 0 {
        lemma_journal_view(v.drop_first());
        assert forall|i: int|
            0 <= i < v.len() implies journal_view(v)[i] == (JournalEntryV {
            key: v[i].key@,
            serving: v[i].serving@,
            food: food_view(v[i].food),
        }) by {
            if i > 0 {
                assert(v.drop_first()[i - 1] == v[i]);
            }
        }
    }
}

impl View for Journal {
    type V = Seq<JournalEntryV>;

    open spec fn view(&self) -> Seq<JournalEntryV> {
        journal_view(self.0@)
    }
}

/// What one journal line denotes: nothing for a blank line, an entry with
/// the default serving for a bare key, and a parsed serving after `=`.
pub open spec fn spec_parse_jline(l: Seq<char>) -> Result<
    Option<(Seq<char>, ServingV)>,
    ErrorV,
> {
    let line = spec_trim(l);
    if line.len() == 0 {
        Ok(None)
    } else {
        let eq = first_char(line, '=');
        if eq < 0 {
            Ok(Some((line, ServingV { size: crate::rat::ratio_int(1), unit: None })))
        } else {
            let key = spec_trim(line.take(eq));
            match spec_parse_serving(line.skip(eq + 1)) {
                Ok(sv) => Ok(Some((key, sv))),
                Err(e) => Err(e),
            }
        }
    }
}

/// All journal lines, in order, collected into entries.
pub open spec fn spec_parse_jlines(
    lines: Seq<Seq<char>>,
    acc: Seq<(Seq<char>, ServingV)>,
) -> Result<Seq<(Seq<char>, ServingV)>, ErrorV>
    decreases lines.len(),
{
    if lines.len() == 0 {
        Ok(acc)
    } else {
        match spec_parse_jline(lines[0]) {
            Err(e) => Err(e),
            Ok(None) => spec_parse_jlines(lines.drop_first(), acc),
            Ok(Some(en)) => spec_parse_jlines(lines.drop_first(), acc.push(en)),
        }
    }
}

/// What a journal's text denotes.
pub open spec fn spec_parse_journal(text: Seq<char>) -> Result<
    Seq<(Seq<char>, ServingV)>,
    ErrorV,
> {
    spec_parse_jlines(crate::text::split_on(text, '\n'), Seq::empty())
}

/// The text lines of a journal's entries.
pub open spec fn jlines(l: Seq<(Seq<char>, ServingV)>) -> Seq<Seq<char>>
    decreases l.len(),
{
    if l.len() == 0 {
        Seq::empty()
    } else {
        seq![l[0].0 + " = "@ + spec_render_serving(l[0].1)] + jlines(l.drop_first())
    }
}

/// The canonical text of a journal's entries.
pub open spec fn spec_encode_journal(l: Seq<(Seq<char>, ServingV)>) -> Seq<char> {
    unlines(jlines(l))
}

/// The (key, serving) projection of a journal.
pub open spec fn jentries(j: Seq<JournalEntryV>) -> Seq<(Seq<char>, ServingV)>
    decreases j.len(),
{
    if j.len() == 0 {
        Seq::empty()
    } else {
        seq![(j[0].key, j[0].serving)] + jentries(j.drop_first())
    }
}

impl Journal {
    /// Parse a journal's text into its (key, serving) entries; the foods
    /// behind the keys still have to be resolved.
    pub fn parse(text: &str) -> (r: Result<Vec<(String, Serving)>, Error>)
        ensures
            match r {
                Ok(entries) => spec_parse_journal(text@) == Ok::<
                    Seq<(Seq<char>, ServingV)>,
                    ErrorV,
                >(crate::codec::entries_view(entries@)) && forall|i: int|
                    0 <= i < entries@.len() ==> serving_wf(
                        (#[trigger] crate::codec::entries_view(entries@)[i]).1,
                    ),
                Err(e) => spec_parse_journal(text@) == Err::<
                    Seq<(Seq<char>, ServingV)>,
                    ErrorV,
                >(e@),
            },
    {
        let lines = crate::text::split_char(text, '\n');
        let ghost lv = crate::text::split_on(text@, '\n');
        let mut out: Vec<(String, Serving)> = Vec::new();
        proof {
            assert(lv.skip(0) =~= lv);
            assert(crate::codec::entries_view(out@) =~= Seq::<(Seq<char>, ServingV)>::empty());
        }
        let mut i: usize = 0;
        let n = lines.len();
        while i < n
            invariant
                0 <= i <= n,
                n == lines@.len(),
                lv == lines@.map_values(|x: String| x@),
                lv == crate::text::split_on(text@, '\n'),
                spec_parse_jlines(lv, Seq::empty()) == spec_parse_jlines(
                    lv.skip(i as int),
                    crate::codec::entries_view(out@),
                ),
                forall|q: int|
                    0 <= q < out@.len() ==> serving_wf(
                        (#[trigger] crate::codec::entries_view(out@)[q]).1,
                    ),
            decreases n - i,
        {
            let ghost pre = crate::codec::entries_view(out@);
            proof {
                assert(lv[i as int] == lines@[i as int]@);
                assert(lv.skip(i as int)[0] == lv[i as int]);
                assert(lv.skip(i as int).drop_first() =~= lv.skip(i + 1));
            }
            let line0 = lines[i].as_str();
            let trimmed = crate::text::trim(line0);
            let line = trimmed.as_str();
            let ln = line.unicode_len();
            if ln == 0 {
                i = i + 1;
                continue;
            }
            match crate::codec::find_eq(line) {
                None => {
                    let en = (trimmed, Serving::default());
                    proof {
                        assert(crate::codec::entries_view(out@.push(en)) =~= pre.push(
                            (en.0@, en.1@),
                        ));
                        assert(spec_parse_jline(lv[i as int]) == Ok::<
                            Option<(Seq<char>, ServingV)>,
                            ErrorV,
                        >(Some((en.0@, en.1@))));
                    }
                    out.push(en);
                },
                Some(eq) => {
                    let key = crate::text::trim(line.substring_char(0, eq));
                    let rest = line.substring_char(eq + 1, ln);
                    proof {
                        assert(rest@ =~= spec_trim(lv[i as int]).skip(eq + 1));
                        assert(line@.take(eq as int) =~= spec_trim(lv[i as int]).take(eq as int));
                    }
                    match Serving::from_str(rest) {
                        Ok(sv) => {
                            let en = (key, sv);
                            proof {
                                assert(crate::codec::entries_view(out@.push(en)) =~= pre.push(
                                    (en.0@, en.1@),
                                ));
                                assert(spec_parse_jline(lv[i as int]) == Ok::<
                                    Option<(Seq<char>, ServingV)>,
                                    ErrorV,
                                >(Some((en.0@, en.1@))));
                            }
                            out.push(en);
                        },
                        Err(e) => {
                            proof {
                                assert(spec_parse_jline(lv[i as int]) == Err::<
                                    Option<(Seq<char>, ServingV)>,
                                    ErrorV,
                                >(e@));
                                assert(spec_parse_jlines(lv.skip(i as int), pre) == Err::<
                                    Seq<(Seq<char>, ServingV)>,
                                    ErrorV,
                                >(e@));
                            }
                            return Err(e);
                        },
                    }
                },
            }
            i = i + 1;
        }
        proof {
            assert(lv.skip(n as int) =~= Seq::<Seq<char>>::empty());
        }
        Ok(out)
    }

    /// Write the journal as text: one `key = serving` line per entry.
    pub fn save(&self) -> (out: String)
        requires
            forall|i: int|
                0 <= i < self@.len() ==> crate::rat::ratio_decimal(
                    (#[trigger] self@[i]).serving.size,
                ),
        ensures
            out@ == spec_encode_journal(jentries(self@)),
    {
        let ghost ents = jentries(self@);
        proof {
            lemma_journal_view(self.0@);
            lemma_jentries(self@);
        }
        let mut out = String::new();
        let n = self.0.len();
        let mut i: usize = 0;
        proof {
            assert(ents.take(0) =~= Seq::<(Seq<char>, ServingV)>::empty());
            assert(out@ =~= unlines(jlines(ents.take(0))));
        }
        while i < n
            invariant
                0 <= i <= n,
                n == self.0@.len(),
                ents == jentries(self@),
                ents.len() == n,
                forall|j: int|
                    0 <= j < n ==> #[trigger] ents[j] == (
                        self.0@[j].key@,
                        self.0@[j].serving@,
                    ),
                forall|j: int|
                    0 <= j < n ==> crate::rat::ratio_decimal((#[trigger] ents[j]).1.size),
                out@ == unlines(jlines(ents.take(i as int))),
            decreases n - i,
        {
            let en = &self.0[i];
            out.append(en.key.as_str());
            proof {
                reveal_strlit(" = ");
                assert(en.serving@ == ents[i as int].1);
            }
            out.append(" = ");
            let sv = en.serving.render();
            out.append(sv.as_str());
            proof {
                reveal_strlit("\n");
            }
            out.append("\n");
            proof {
                assert(ents.take(i + 1) =~= ents.take(i as int).push(ents[i as int]));
                lemma_jlines_push_pub(ents.take(i as int), ents[i as int]);
                crate::codec::lemma_unlines_append(
                    jlines(ents.take(i as int)),
                    seq![ents[i as int].0 + " = "@ + spec_render_serving(ents[i as int].1)],
                );
                crate::codec::lemma_unlines_one(
                    ents[i as int].0 + " = "@ + spec_render_serving(ents[i as int].1),
                );
                assert(jlines(ents.take(i as int)) + seq![
                    ents[i as int].0 + " = "@ + spec_render_serving(ents[i as int].1),
                ] =~= jlines(ents.take(i + 1)));
                assert(out@ =~= unlines(jlines(ents.take(i + 1))));
            }
            i = i + 1;
        }
        proof {
            assert(ents.take(n as int) =~= ents);
        }
        out
    }

    /// The file path of the journal for a date:
    /// `journal/YYYY/MM/DD.txt`.
    pub fn path(key: &Date) -> (r: String)
        requires
            key.wf(),
        ensures
            r@ == spec_journal_path(*key),
    {
        let mut out = String::new();
        proof {
            reveal_strlit("journal/");
            reveal_strlit("/");
            reveal_strlit(".txt");
        }
        out.append("journal/");
        let y = crate::rat::fmt_u64_pad(key.year as u64, 4);
        out.append(y.as_str());
        out.append("/");
        let m = crate::rat::fmt_u64_pad(key.month as u64, 2);
        out.append(m.as_str());
        out.append("/");
        let d = crate::rat::fmt_u64_pad(key.day as u64, 2);
        out.append(d.as_str());
        out.append(".txt");
        proof {
            assert(out@ =~= spec_journal_path(*key));
        }
        out
    }
}

/// The path of a journal file: a four-digit year directory, a two-digit
/// month directory, and a two-digit day file.
pub open spec fn spec_journal_path(d: Date) -> Seq<char> {
    "journal/"@ + zero_pad(dec_digits(d.year as nat), 4) + "/"@ + zero_pad(
        dec_digits(d.month as nat),
        2,
    ) + "/"@ + zero_pad(dec_digits(d.day as nat), 2) + ".txt"@
}

/// `jentries` maps the journal element-wise.
pub proof fn lemma_jentries(j: Seq<JournalEntryV>)
    ensures
        jentries(j).len() == j.len(),
        forall|i: int| 0 <= i < j.len() ==> #[trigger] jentries(j)[i] == (j[i].key, j[i].serving),
    decreases j.len(),
{
    if j.len() > 0 {
        lemma_jentries(j.drop_first());
        assert forall|i: int|
            0 <= i < j.len() implies #[trigger] jentries(j)[i] == (j[i].key, j[i].serving) by {
            if i > 0 {
                assert(j.drop_first()[i - 1] == j[i]);
            }
        }
    }
}

/// `jlines` grows line by line.
pub proof fn lemma_jlines_push_pub(l: Seq<(Seq<char>, ServingV)>, x: (Seq<char>, ServingV))
    ensures
        jlines(l.push(x)) == jlines(l) + seq![x.0 + " = "@ + spec_render_serving(x.1)],
    decreases l.len(),
{
    if l.len() == 0 {
        assert(l.push(x)[0] == x);
        assert(l.push(x).drop_first() =~= l);
        assert(jlines(l.push(x)) =~= jlines(l) + seq![x.0 + " = "@ + spec_render_serving(x.1)]);
    } else {
        assert(l.push(x)[0] == l[0]);
        assert(l.push(x).drop_first() =~= l.drop_first().push(x));
        lemma_jlines_push_pub(l.drop_first(), x);
        assert(jlines(l.push(x)) =~= jlines(l) + seq![x.0 + " = "@ + spec_render_serving(x.1)]);
    }
}

} // verus!

verus! {

/// Round-trip: the text written for canonical journal entries parses back
/// to exactly those entries.
pub proof fn lemma_journal_round_trip(l: Seq<(Seq<char>, ServingV)>)
    requires
        forall|i: int|
            0 <= i < l.len() ==> key_canon((#[trigger] l[i]).0) && serving_canon(l[i].1),
    ensures
        spec_parse_journal(spec_encode_journal(l)) == Ok::<Seq<(Seq<char>, ServingV)>, ErrorV>(l),
{
    lemma_jlines_clean_pub(l);
    crate::codec::lemma_split_unlines(jlines(l));
    lemma_parse_jlines_seg(l, Seq::empty());
    let ls = jlines(l);
    lemma_parse_jlines_append(ls, seq![Seq::<char>::empty()], Seq::empty());
    assert(ls + seq![Seq::<char>::empty()] =~= ls.push(Seq::<char>::empty()));
    assert(spec_parse_jline(Seq::<char>::empty()) == Ok::<
        Option<(Seq<char>, ServingV)>,
        ErrorV,
    >(None)) by {
        assert(spec_trim(Seq::<char>::empty()) =~= Seq::<char>::empty());
    }
    assert(spec_parse_jlines(seq![Seq::<char>::empty()], l) == Ok::<
        Seq<(Seq<char>, ServingV)>,
        ErrorV,
    >(l)) by {
        assert(seq![Seq::<char>::empty()].drop_first() =~= Seq::<Seq<char>>::empty());
        assert(seq![Seq::<char>::empty()][0] =~= Seq::<char>::empty());
        assert(spec_parse_jlines(Seq::<Seq<char>>::empty(), l) == Ok::<
            Seq<(Seq<char>, ServingV)>,
            ErrorV,
        >(l));
    }
    assert(Seq::<(Seq<char>, ServingV)>::empty() + l =~= l);
}

/// No journal line of canonical entries contains a newline.
pub proof fn lemma_jlines_clean_pub(l: Seq<(Seq<char>, ServingV)>)
    requires
        forall|i: int|
            0 <= i < l.len() ==> key_canon((#[trigger] l[i]).0) && serving_canon(l[i].1),
    ensures
        jlines(l).len() == l.len(),
        forall|i: int, j: int|
            0 <= i < jlines(l).len() && 0 <= j < jlines(l)[i].len() ==> #[trigger] jlines(
                l,
            )[i][j] != '\n',
    decreases l.len(),
{
    reveal_strlit(" = ");
    lemma_jlines_len(l);
    assert forall|i: int, j: int|
        0 <= i < jlines(l).len() && 0 <= j < jlines(l)[i].len() implies #[trigger] jlines(
        l,
    )[i][j] != '\n' by {
        lemma_jlines_index(l, i);
        let line = l[i].0 + " = "@ + spec_render_serving(l[i].1);
        crate::codec::lemma_render_serving_chars(l[i].1);
        let k = l[i].0.len() as int;
        if j < k {
            assert(line[j] == l[i].0[j]);
        } else if j < k + 3 {
            assert(line[j] == " = "@[j - k]);
        } else {
            assert(line[j] == spec_render_serving(l[i].1)[j - k - 3]);
        }
    }
}

/// `jlines` has one line per entry.
proof fn lemma_jlines_len(l: Seq<(Seq<char>, ServingV)>)
    ensures
        jlines(l).len() == l.len(),
    decreases l.len(),
{
    if l.len() > 0 {
        lemma_jlines_len(l.drop_first());
    }
}

/// The `i`-th journal line.
proof fn lemma_jlines_index(l: Seq<(Seq<char>, ServingV)>, i: int)
    requires
        0 <= i < l.len(),
    ensures
        jlines(l).len() == l.len(),
        jlines(l)[i] == l[i].0 + " = "@ + spec_render_serving(l[i].1),
    decreases l.len(),
{
    lemma_jlines_len(l);
    if i > 0 {
        lemma_jlines_index(l.drop_first(), i - 1);
        assert(l.drop_first()[i - 1] == l[i]);
    }
}

/// Journal-line folding splits over concatenation.
proof fn lemma_parse_jlines_append(
    a: Seq<Seq<char>>,
    b: Seq<Seq<char>>,
    acc: Seq<(Seq<char>, ServingV)>,
)
    ensures
        spec_parse_jlines(a + b, acc) == match spec_parse_jlines(a, acc) {
            Ok(m) => spec_parse_jlines(b, m),
            Err(e) => Err(e),
        },
    decreases a.len(),
{
    if a.len() == 0 {
        assert(a + b =~= b);
    } else {
        assert((a + b)[0] == a[0]);
        assert((a + b).drop_first() =~= a.drop_first() + b);
        match spec_parse_jline(a[0]) {
            Err(_) => {},
            Ok(None) => {
                lemma_parse_jlines_append(a.drop_first(), b, acc);
            },
            Ok(Some(en)) => {
                lemma_parse_jlines_append(a.drop_first(), b, acc.push(en));
            },
        }
    }
}

/// Reading back canonical entry lines appends the entries.
proof fn lemma_parse_jlines_seg(l: Seq<(Seq<char>, ServingV)>, acc: Seq<(Seq<char>, ServingV)>)
    requires
        forall|i: int|
            0 <= i < l.len() ==> key_canon((#[trigger] l[i]).0) && serving_canon(l[i].1),
    ensures
        spec_parse_jlines(jlines(l), acc) == Ok::<Seq<(Seq<char>, ServingV)>, ErrorV>(acc + l),
    decreases l.len(),
{
    if l.len() == 0 {
        assert(acc + l =~= acc);
    } else {
        let key = l[0].0;
        let sv = l[0].1;
        let value = spec_render_serving(sv);
        crate::codec::lemma_render_serving_chars(sv);
        crate::codec::lemma_kv_line(key, value);
        crate::serving::lemma_serving_round_trip(sv);
        let line = key + " = "@ + value;
        assert(jlines(l)[0] == line);
        assert(spec_parse_jline(line) == Ok::<Option<(Seq<char>, ServingV)>, ErrorV>(
            Some((key, sv)),
        ));
        assert(jlines(l).drop_first() =~= jlines(l.drop_first()));
        assert(forall|i: int|
            0 <= i < l.drop_first().len() ==> #[trigger] l.drop_first()[i] == l[i + 1]);
        lemma_parse_jlines_seg(l.drop_first(), acc.push(l[0]));
        assert(acc.push(l[0]) + l.drop_first() =~= acc + l);
    }
}

/// Resolve parsed journal entries against the foods looked up for their
/// keys, checking that each serving is valid for its food.
pub open spec fn spec_resolve_journal(
    l: Seq<(Seq<char>, ServingV)>,
    foods: Seq<Option<FoodV>>,
) -> Result<Seq<JournalEntryV>, ErrorV>
    decreases l.len(),
{
    if l.len() == 0 {
        Ok(Seq::empty())
    } else {
        match foods[0] {
            None => Err(ErrorV::FoodNotFound { key: l[0].0 }),
            Some(f) => match spec_serve(f, l[0].1) {
                Err(e) => Err(e),
                Ok(_) => match spec_resolve_journal(l.drop_first(), foods.drop_first()) {
                    Ok(rest) => Ok(
                        seq![JournalEntryV { key: l[0].0, serving: l[0].1, food: f }] + rest,
                    ),
                    Err(e) => Err(e),
                },
            },
        }
    }
}

/// The total nutrients of a journal: each entry's food served with its
/// serving, summed in order.
pub open spec fn spec_journal_nutrients(j: Seq<JournalEntryV>) -> Result<NutrientsV, ErrorV>
    decreases j.len(),
{
    if j.len() == 0 {
        Ok(nut_zero())
    } else {
        match spec_serve(j[0].food, j[0].serving) {
            Err(e) => Err(e),
            Ok(n0) => match spec_journal_nutrients(j.drop_first()) {
                Err(e) => Err(e),
                Ok(rest) => Ok(nut_add(n0, rest)),
            },
        }
    }
}

/// Every entry's serving and food are well-formed.
pub open spec fn journal_wf(j: Seq<JournalEntryV>) -> bool {
    forall|i: int|
        0 <= i < j.len() ==> serving_wf((#[trigger] j[i]).serving) && food_wf(j[i].food)
}

impl Journal {
    /// Every entry's serving and food are well-formed.
    pub open spec fn wf(self) -> bool {
        journal_wf(self@)
    }

    /// Pair each parsed entry with the food supplied for its key and
    /// check the serving against that food.  The first missing key or
    /// invalid serving is the error; `Overflow` can only stand where the
    /// exact validation left the machine range, and never on inputs
    /// satisfying `journal_fits`.
    pub fn resolve(entries: Vec<(String, Serving)>, foods: Vec<Option<Food>>) -> (r: Result<
        Journal,
        Error,
    >)
        requires
            foods@.len() == entries@.len(),
            foods_wf(foods_view(foods@)),
            forall|i: int|
                0 <= i < entries@.len() ==> serving_wf(
                    (#[trigger] crate::codec::entries_view(entries@)[i]).1,
                ),
        ensures
            match r {
                Ok(j) => spec_resolve_journal(
                    crate::codec::entries_view(entries@),
                    foods_view(foods@),
                ) == Ok::<Seq<JournalEntryV>, ErrorV>(j@) && j.wf(),
                Err(e) => e@ == ErrorV::Overflow || spec_resolve_journal(
                    crate::codec::entries_view(entries@),
                    foods_view(foods@),
                ) == Err::<Seq<JournalEntryV>, ErrorV>(e@),
            },
            journal_fits(crate::codec::entries_view(entries@), foods_view(foods@)) ==> (match r {
                Ok(_) => true,
                Err(e) => spec_resolve_journal(
                    crate::codec::entries_view(entries@),
                    foods_view(foods@),
                ) == Err::<Seq<JournalEntryV>, ErrorV>(e@),
            }),
    {
        let ghost lv = crate::codec::entries_view(entries@);
        let ghost fv = foods_view(foods@);
        proof {
            crate::codec::lemma_foods_view(foods@);
        }
        let ghost orig = foods@;
        let mut remaining = foods;
        let mut ents = entries;
        let ghost oents = ents@;
        let n = ents.len();
        let mut out: Vec<JournalEntry> = Vec::new();
        let mut i: usize = 0;
        proof {
            assert(remaining@ =~= orig.skip(0));
            assert(ents@ =~= oents.skip(0));
            assert(lv.skip(0) =~= lv);
            assert(fv.skip(0) =~= fv);
        }
        while i < n
            invariant
                0 <= i <= n,
                n == oents.len(),
                n == orig.len(),
                lv == crate::codec::entries_view(oents),
                fv == foods_view(orig),
                lv == crate::codec::entries_view(entries@),
                fv == foods_view(foods@),
                fv.len() == n,
                lv.len() == n,
                foods_wf(fv),
                forall|j: int| 0 <= j < n ==> serving_wf((#[trigger] lv[j]).1),
                forall|j: int|
                    0 <= j < n ==> #[trigger] fv[j] == (match orig[j] {
                        Some(f) => Some(food_view(f)),
                        None => None,
                    }),
                forall|j: int| 0 <= j < n ==> #[trigger] lv[j] == (oents[j].0@, oents[j].1@),
                remaining@ =~= orig.skip(i as int),
                ents@ =~= oents.skip(i as int),
                forall|j: int| 0 <= j < i ==> (#[trigger] fv[j]) is Some,
                spec_resolve_journal(lv, fv) == (match spec_resolve_journal(
                    lv.skip(i as int),
                    fv.skip(i as int),
                ) {
                    Ok(rest) => Ok::<Seq<JournalEntryV>, ErrorV>(journal_view(out@) + rest),
                    Err(e) => Err(e),
                }),
                journal_view(out@).len() == i,
                forall|j: int|
                    0 <= j < i ==> #[trigger] journal_view(out@)[j] == (JournalEntryV {
                        key: lv[j].0,
                        serving: lv[j].1,
                        food: fv[j]->0,
                    }),
            decreases n - i,
        {
            proof {
                assert(lv.skip(i as int)[0] == lv[i as int]);
                assert(fv.skip(i as int)[0] == fv[i as int]);
                assert(lv.skip(i as int).drop_first() =~= lv.skip(i + 1));
                assert(fv.skip(i as int).drop_first() =~= fv.skip(i + 1));
                assert(oents.skip(i as int)[0] == oents[i as int]);
                assert(oents.skip(i as int).drop_first() =~= oents.skip(i + 1));
                assert(orig.skip(i as int)[0] == orig[i as int]);
                assert(orig.skip(i as int).drop_first() =~= orig.skip(i + 1));
            }
            let (key, serving) = ents.remove(0);
            let food = remaining.remove(0);
            proof {
                assert(key@ == lv[i as int].0 && serving@ == lv[i as int].1);
            }
            match food {
                None => {
                    return Err(Error::FoodNotFound { key });
                },
                Some(f) => {
                    proof {
                        assert(food_view(f) == fv[i as int]->0);
                        assert(food_wf(food_view(f)));
                    }
                    match f.serve(&serving) {
                        Ok(_) => {},
                        Err(e) => {
                            proof {
                                if journal_fits(lv, fv) {
                                    assert(fv[i as int] matches Some(g) && crate::food::serve_fits(
                                        g,
                                        lv[i as int].1.unit,
                                        crate::rat::rat_bound(lv[i as int].1.size),
                                    ));
                                }
                            }
                            return Err(e);
                        },
                    }
                    let ghost pre = out@;
                    let en = JournalEntry { key, serving, food: f };
                    out.push(en);
                    proof {
                        lemma_journal_view(pre);
                        lemma_journal_view(out@);
                        assert(out@ =~= pre.push(en));
                        assert forall|j: int|
                            0 <= j < i + 1 implies #[trigger] journal_view(out@)[j]
                            == (JournalEntryV {
                            key: lv[j].0,
                            serving: lv[j].1,
                            food: fv[j]->0,
                        }) by {
                            assert(journal_view(out@)[j] == (JournalEntryV {
                                key: out@[j].key@,
                                serving: out@[j].serving@,
                                food: food_view(out@[j].food),
                            }));
                            if j < i {
                                assert(out@[j] == pre[j]);
                                assert(journal_view(pre)[j] == (JournalEntryV {
                                    key: pre[j].key@,
                                    serving: pre[j].serving@,
                                    food: food_view(pre[j].food),
                                }));
                            } else {
                                assert(out@[j] == en);
                                assert(en.key@ == lv[i as int].0);
                                assert(en.serving@ == lv[i as int].1);
                                assert(food_view(en.food) == fv[i as int]->0);
                            }
                        }
                        match spec_resolve_journal(lv.skip(i + 1), fv.skip(i + 1)) {
                            Ok(rest) => {
                                assert(journal_view(pre) + (seq![
                                    JournalEntryV {
                                        key: lv[i as int].0,
                                        serving: lv[i as int].1,
                                        food: fv[i as int]->0,
                                    },
                                ] + rest) =~= journal_view(out@) + rest);
                            },
                            Err(_) => {},
                        }
                    }
                    i = i + 1;
                },
            }
        }
        proof {
            assert(lv.skip(n as int) =~= Seq::<(Seq<char>, ServingV)>::empty());
            assert(fv.skip(n as int) =~= Seq::<Option<FoodV>>::empty());
            assert(journal_view(out@) + Seq::<JournalEntryV>::empty() =~= journal_view(out@));
            assert forall|j: int|
                0 <= j < journal_view(out@).len() implies serving_wf(
                (#[trigger] journal_view(out@)[j]).serving,
            ) && food_wf(journal_view(out@)[j].food) by {
                assert(journal_view(out@)[j] == (JournalEntryV {
                    key: lv[j].0,
                    serving: lv[j].1,
                    food: fv[j]->0,
                }));
                assert(serving_wf(lv[j].1));
                assert(fv[j] is Some);
                assert(food_wf(fv[j]->0));
            }
        }
        Ok(Journal(out))
    }
}

} // verus!

verus! {

impl Journal {
    /// The total nutrients of the journal: each entry's food served with
    /// its serving, summed in order.  `Overflow` can only stand where the
    /// exact total left the machine range, and never on inputs satisfying
    /// `journal_nut_fits`: there the total is exactly what
    /// `spec_journal_nutrients` says, success and error alike.
    pub fn nutrients(&self) -> (r: Result<Nutrients, Error>)
        requires
            self.wf(),
        ensures
            match r {
                Ok(n) => {
                    &&& n.wf()
                    &&& spec_journal_nutrients(self@) matches Ok(v) && nut_eq(n@, v)
                },
                Err(e) => e@ == ErrorV::Overflow || spec_journal_nutrients(self@) == Err::<
                    NutrientsV,
                    ErrorV,
                >(e@),
            },
            journal_nut_fits(self@) ==> (match r {
                Ok(_) => spec_journal_nutrients(self@) is Ok,
                Err(e) => spec_journal_nutrients(self@) == Err::<NutrientsV, ErrorV>(e@),
            }),
    {
        proof {
            assert(self@.skip(0) =~= self@);
        }
        journal_nutrients_from(&self.0, 0)
    }
}

/// Sum the served nutrients of the journal entries from index `i` on.
fn journal_nutrients_from(v: &Vec<JournalEntry>, i: usize) -> (r: Result<Nutrients, Error>)
    requires
        i <= v@.len(),
        journal_wf(journal_view(v@)),
    ensures
        match r {
            Ok(n) => {
                &&& n.wf()
                &&& spec_journal_nutrients(journal_view(v@).skip(i as int)) matches Ok(nv)
                    && nut_eq(n@, nv)
            },
            Err(e) => e@ == ErrorV::Overflow || spec_journal_nutrients(
                journal_view(v@).skip(i as int),
            ) == Err::<NutrientsV, ErrorV>(e@),
        },
        r matches Ok(n) ==> crate::nutrients::nut_within(
            n@,
            journal_nut_bound(journal_view(v@).skip(i as int)),
        ),
        journal_nut_fits(journal_view(v@).skip(i as int)) ==> (match r {
            Ok(_) => spec_journal_nutrients(journal_view(v@).skip(i as int)) is Ok,
            Err(e) => spec_journal_nutrients(journal_view(v@).skip(i as int)) == Err::<
                NutrientsV,
                ErrorV,
            >(e@),
        }),
    decreases v@.len() - i,
{
    let ghost jv = journal_view(v@);
    proof {
        lemma_journal_view(v@);
    }
    if i == v.len() {
        proof {
            assert(jv.skip(i as int) =~= Seq::<JournalEntryV>::empty());
            assert(crate::nutrients::nut_within(
                crate::nutrients::nut_zero(),
                crate::food::nut_bound_zero(),
            ));
        }
        return Ok(Nutrients::zero());
    }
    let en = &v[i];
    proof {
        assert(jv.skip(i as int)[0] == jv[i as int]);
        assert(jv.skip(i as int).drop_first() =~= jv.skip(i + 1));
        assert(jv[i as int] == (JournalEntryV {
            key: v@[i as int].key@,
            serving: v@[i as int].serving@,
            food: food_view(v@[i as int].food),
        }));
        assert(serving_wf(jv[i as int].serving) && food_wf(jv[i as int].food));
    }
    let ghost s0 = jv.skip(i as int);
    let ghost entry_rb = crate::food::serve_res_bound(
        s0[0].food,
        s0[0].serving.unit,
        crate::rat::rat_bound(s0[0].serving.size),
    );
    let ghost rest_rb = journal_nut_bound(s0.drop_first());
    let first = match en.food.serve(&en.serving) {
        Ok(n) => n,
        Err(e) => {
            return Err(e);
        },
    };
    let rest = match journal_nutrients_from(v, i + 1) {
        Ok(n) => n,
        Err(e) => {
            return Err(e);
        },
    };
    proof {
        crate::food::lemma_serve_res_bound_mono(
            s0[0].food,
            s0[0].serving.unit,
            crate::rat::rat_bound(s0[0].serving.size),
            crate::rat::rat_bound(s0[0].serving.size),
        );
        assert(journal_wf(s0.drop_first())) by {
            assert(forall|q: int|
                0 <= q < s0.drop_first().len() ==> #[trigger] s0.drop_first()[q] == jv[i + 1 + q]);
        }
        lemma_journal_nut_bound_ok(s0.drop_first());
        crate::nutrients::lemma_nut_bound_of(first@);
        crate::nutrients::lemma_nut_bound_of(rest@);
        crate::nutrients::lemma_nut_bound_mono_add(
            crate::nutrients::nut_bound(first@),
            crate::nutrients::nut_bound(rest@),
            entry_rb,
            rest_rb,
        );
    }
    match first.add(rest) {
        Some(total) => {
            proof {
                let v0 = spec_serve(s0[0].food, s0[0].serving)->Ok_0;
                let vr = spec_journal_nutrients(s0.drop_first())->Ok_0;
                crate::food::lemma_spec_serve_wf(s0[0].food, s0[0].serving);
                lemma_spec_journal_nutrients_wf(s0.drop_first());
                crate::nutrients::lemma_nut_add_congr(first@, v0, rest@, vr);
                crate::nutrients::lemma_nut_add_wf(first@, rest@);
                crate::nutrients::lemma_nut_add_wf(v0, vr);
                crate::food::lemma_nut_eq_trans(total@, nut_add(first@, rest@), nut_add(v0, vr));
                crate::nutrients::lemma_nut_within_widen(
                    total@,
                    nut_add(
                        crate::nutrients::nut_bound(first@),
                        crate::nutrients::nut_bound(rest@),
                    ),
                    nut_add(entry_rb, rest_rb),
                );
            }
            Ok(total)
        },
        None => {
            proof {
                if journal_nut_fits(s0) {
                    crate::nutrients::lemma_nut_fits_narrow(
                        nut_add(
                            crate::nutrients::nut_bound(first@),
                            crate::nutrients::nut_bound(rest@),
                        ),
                        nut_add(entry_rb, rest_rb),
                    );
                    assert(false);
                }
            }
            Err(Error::Overflow)
        },
    }
}

/// A successful journal total is well-formed.
pub proof fn lemma_spec_journal_nutrients_wf(j: Seq<JournalEntryV>)
    requires
        journal_wf(j),
    ensures
        spec_journal_nutrients(j) matches Ok(v) ==> nut_wf(v),
    decreases j.len(),
{
    if j.len() > 0 {
        crate::food::lemma_spec_serve_wf(j[0].food, j[0].serving);
        assert(journal_wf(j.drop_first())) by {
            assert(forall|q: int|
                0 <= q < j.drop_first().len() ==> #[trigger] j.drop_first()[q] == j[q + 1]);
        }
        lemma_spec_journal_nutrients_wf(j.drop_first());
        match spec_serve(j[0].food, j[0].serving) {
            Err(_) => {},
            Ok(n0) => match spec_journal_nutrients(j.drop_first()) {
                Err(_) => {},
                Ok(rest) => {
                    crate::nutrients::lemma_nut_add_wf(n0, rest);
                },
            },
        }
    }
}

} // verus!

verus! {

/// Does every serving validation of journal resolution stay within the
/// machine representation?
pub open spec fn journal_fits(
    l: Seq<(Seq<char>, ServingV)>,
    foods: Seq<Option<FoodV>>,
) -> bool {
    forall|i: int|
        0 <= i < l.len() ==> match #[trigger] foods[i] {
            Some(f) => crate::food::serve_fits(
                f,
                l[i].1.unit,
                crate::rat::rat_bound(l[i].1.size),
            ),
            None => true,
        }
}

/// Does every arithmetic step of the journal total stay within the
/// machine representation?
pub open spec fn journal_nut_fits(j: Seq<JournalEntryV>) -> bool
    decreases j.len(),
{
    if j.len() == 0 {
        true
    } else {
        &&& crate::food::serve_fits(
            j[0].food,
            j[0].serving.unit,
            crate::rat::rat_bound(j[0].serving.size),
        )
        &&& journal_nut_fits(j.drop_first())
        &&& crate::nutrients::nut_bound_fits(
            nut_add(
                crate::food::serve_res_bound(
                    j[0].food,
                    j[0].serving.unit,
                    crate::rat::rat_bound(j[0].serving.size),
                ),
                journal_nut_bound(j.drop_first()),
            ),
        )
    }
}

/// Magnitude bound of the journal total.
pub open spec fn journal_nut_bound(j: Seq<JournalEntryV>) -> NutrientsV
    decreases j.len(),
{
    if j.len() == 0 {
        crate::food::nut_bound_zero()
    } else {
        nut_add(
            crate::food::serve_res_bound(
                j[0].food,
                j[0].serving.unit,
                crate::rat::rat_bound(j[0].serving.size),
            ),
            journal_nut_bound(j.drop_first()),
        )
    }
}

/// The journal total bound is a well-formed bound.
pub proof fn lemma_journal_nut_bound_ok(j: Seq<JournalEntryV>)
    requires
        journal_wf(j),
    ensures
        crate::nutrients::nut_bound_ok(journal_nut_bound(j)),
    decreases j.len(),
{
    if j.len() > 0 {
        crate::food::lemma_serve_res_bound_mono(
            j[0].food,
            j[0].serving.unit,
            crate::rat::rat_bound(j[0].serving.size),
            crate::rat::rat_bound(j[0].serving.size),
        );
        assert(journal_wf(j.drop_first())) by {
            assert(forall|q: int|
                0 <= q < j.drop_first().len() ==> #[trigger] j.drop_first()[q] == j[q + 1]);
        }
        lemma_journal_nut_bound_ok(j.drop_first());
        crate::nutrients::lemma_nut_bound_mono_add(
            crate::food::serve_res_bound(
                j[0].food,
                j[0].serving.unit,
                crate::rat::rat_bound(j[0].serving.size),
            ),
            journal_nut_bound(j.drop_first()),
            crate::food::serve_res_bound(
                j[0].food,
                j[0].serving.unit,
                crate::rat::rat_bound(j[0].serving.size),
            ),
            journal_nut_bound(j.drop_first()),
        );
    }
}

} // verus!
