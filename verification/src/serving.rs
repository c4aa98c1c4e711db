//! A serving: a quantity of food, optionally measured in a named unit.
use vstd::prelude::*;

use crate::error::{Error, ErrorV};
use crate::rat::{
    ratio_decimal, ratio_eq, ratio_int, ratio_mul, ratio_wf, spec_parse_udec, spec_render, Rat,
    Ratio,
};
use crate::text::{first_nonnum, is_digit, is_num_char, is_space, spec_trim};

verus! {

/// Specification-level mirror of [`Serving`].
#[verifier::ext_equal]
pub struct ServingV {
    pub size: Ratio,
    pub unit: Option<Seq<char>>,
}

/// A well-formed serving has a well-formed size.
pub open spec fn serving_wf(s: ServingV) -> bool {
    ratio_wf(s.size)
}

/// Equality of servings: equal sizes as numbers, identical units.
pub open spec fn serving_eq(a: ServingV, b: ServingV) -> bool {
    ratio_eq(a.size, b.size) && a.unit == b.unit
}

/// A serving whose text form reads back as itself: the size is a
/// non-negative decimal, and the unit, if any, carries no outer whitespace,
/// no newline, and is not empty.
pub open spec fn serving_canon(s: ServingV) -> bool {
    &&& ratio_decimal(s.size)
    &&& s.size.num >= 0
    &&& match s.unit {
        Some(u) => {
            &&& u.len() >= 1
            &&& !is_space(u[0])
            &&& !is_space(u[u.len() - 1])
            &&& forall|i: int| 0 <= i < u.len() ==> u[i] != '\n'
        },
        None => true,
    }
}

/// A portion of food.  Without a unit the size counts multiples of the
/// food's base serving; with one it is a quantity in that unit, resolved
/// against the food's serving table.
#[derive(Clone, Debug)]
pub struct Serving {
    pub size: Rat,
    pub unit: Option<String>,
}

impl View for Serving {
    type V = ServingV;

    open spec fn view(&self) -> ServingV {
        ServingV {
            size: self.size@,
            unit: match &self.unit {
                Some(u) => Some(u@),
                None => None,
            },
        }
    }
}

impl PartialEq for Serving {
    /// Equal sizes as numbers, identical units.
    fn eq(&self, other: &Serving) -> (r: bool) {
        if !(self.size == other.size) {
            return false;
        }
        match &self.unit {
            None => match &other.unit {
                None => true,
                Some(_) => false,
            },
            Some(a) => match &other.unit {
                None => false,
                Some(b) => crate::text::str_eq(a.as_str(), b.as_str()),
            },
        }
    }
}

impl vstd::std_specs::cmp::PartialEqSpecImpl for Serving {
    open spec fn obeys_eq_spec() -> bool {
        true
    }

    open spec fn eq_spec(&self, other: &Serving) -> bool {
        serving_eq(self@, other@)
    }
}

impl Default for Serving {
    /// One base serving: size 1, no unit.
    fn default() -> (r: Serving)
        ensures
            r@ == (ServingV { size: ratio_int(1), unit: None::<Seq<char>> }),
            r.wf(),
    {
        Serving { size: Rat::from_int(1), unit: None }
    }
}

/// What a serving literal denotes.  The text is trimmed; the longest
/// leading run of digits and dots must parse as an unsigned decimal, and
/// whatever follows, trimmed, is the unit.
pub open spec fn spec_parse_serving(s0: Seq<char>) -> Result<ServingV, ErrorV> {
    let s = spec_trim(s0);
    let i = first_nonnum(s);
    let size_txt = if i == -1 {
        s
    } else {
        s.take(i)
    };
    let unit = if i == -1 {
        None
    } else {
        Some(spec_trim(s.skip(i)))
    };
    match spec_parse_udec(size_txt) {
        Some(r) => Ok(ServingV { size: r, unit }),
        None => Err(ErrorV::BadNumber { text: size_txt }),
    }
}

/// The text form of a serving: the size, then a blank and the unit if
/// there is one.
pub open spec fn spec_render_serving(s: ServingV) -> Seq<char> {
    match s.unit {
        Some(u) => spec_render(s.size) + seq![' '] + u,
        None => spec_render(s.size),
    }
}

impl Serving {
    /// The size is a well-formed rational.
    pub open spec fn wf(self) -> bool {
        serving_wf(self@)
    }

    /// Parse a serving literal such as `1.5`, `1.5c` or `25 g dry`.
    pub fn from_str(text: &str) -> (r: Result<Serving, Error>)
        ensures
            match r {
                Ok(v) => {
                    &&& spec_parse_serving(text@) == Ok::<ServingV, ErrorV>(v@)
                    &&& v.wf()
                    &&& ratio_decimal(v@.size)
                    &&& v@.size.num >= 0
                },
                Err(e) => spec_parse_serving(text@) == Err::<ServingV, ErrorV>(e@),
            },
    {
        let trimmed = crate::text::trim(text);
        let s = trimmed.as_str();
        let (size_txt, unit): (String, Option<String>) = match crate::text::find_nonnum(s) {
            None => (trimmed.clone(), None),
            Some(i) => {
                let n = s.unicode_len();
                let head = s.substring_char(0, i).to_owned();
                let tail = s.substring_char(i, n);
                let u = crate::text::trim(tail);
                proof {
                    assert(head@ =~= spec_trim(text@).take(i as int));
                    assert(tail@ =~= spec_trim(text@).skip(i as int));
                }
                (head, Some(u))
            },
        };
        match crate::rat::parse_udec(size_txt.as_str()) {
            Some(v) => Ok(Serving { size: v, unit }),
            None => Err(Error::BadNumber { text: size_txt }),
        }
    }

    /// The text form of the serving: `0.5 cups`, `2`, ...
    pub fn render(&self) -> (s: String)
        requires
            ratio_decimal(self@.size),
        ensures
            s@ == spec_render_serving(self@),
    {
        let mut out = self.size.render();
        match &self.unit {
            Some(u) => {
                proof {
                    reveal_strlit(" ");
                }
                out.append(" ");
                out.append(u.as_str());
                proof {
                    assert(out@ =~= spec_render_serving(self@));
                }
                out
            },
            None => out,
        }
    }

    /// A copy of the serving.
    pub fn dup(&self) -> (r: Serving)
        ensures
            r@ == self@,
    {
        Serving {
            size: self.size,
            unit: match &self.unit {
                Some(u) => Some(u.clone()),
                None => None,
            },
        }
    }

    /// Scale the size by `p`, keeping the unit; `None` when the exact
    /// product leaves the machine range.
    pub fn mul(&self, p: Rat) -> (r: Option<Serving>)
        requires
            self.wf(),
            p.wf(),
        ensures
            match r {
                Some(v) => {
                    &&& v.wf()
                    &&& v@.unit == self@.unit
                    &&& ratio_eq(v@.size, ratio_mul(self@.size, p@))
                    &&& crate::rat::rat_within(
                        v@.size,
                        ratio_mul(crate::rat::rat_bound(self@.size), crate::rat::rat_bound(p@)),
                    )
                },
                None => true,
            },
            crate::rat::bound_fits(
                ratio_mul(crate::rat::rat_bound(self@.size), crate::rat::rat_bound(p@)),
            ) ==> r is Some,
    {
        match self.size.mul(p) {
            Some(size) => Some(Serving { size, unit: self.dup().unit }),
            None => None,
        }
    }
}

} // verus!

verus! {

/// Round-trip: the text form of a canonical serving reads back as that
/// serving, field for field.
pub proof fn lemma_serving_round_trip(v: ServingV)
    requires
        serving_canon(v),
    ensures
        spec_parse_serving(spec_render_serving(v)) == Ok::<ServingV, ErrorV>(v),
{
    let rs = spec_render(v.size);
    crate::rat::lemma_render_chars(v.size);
    crate::rat::lemma_dec_round_trip(v.size);
    assert(' ' as u32 == 32 && '\t' as u32 == 9 && '\r' as u32 == 13 && '.' as u32 == 46 && '-'
        as u32 == 45);
    assert forall|i: int| 0 <= i < rs.len() implies !is_space(#[trigger] rs[i]) by {
        assert(is_num_char(rs[i]));
    }
    match v.unit {
        None => {
            let s0 = spec_render_serving(v);
            assert(s0 == rs);
            crate::text::lemma_trim_id(s0);
            crate::text::lemma_first_nonnum_none(s0);
            assert(rs[0] != '-') by {
                assert(is_digit(rs[0]));
            }
            assert(spec_parse_udec(rs) == Some(v.size));
        },
        Some(u) => {
            let s0 = spec_render_serving(v);
            assert(s0 == rs + seq![' '] + u);
            assert(s0.len() == rs.len() + 1 + u.len());
            assert(s0[0] == rs[0]);
            assert(s0[s0.len() - 1] == u[u.len() - 1]);
            crate::text::lemma_trim_id(s0);
            let i = rs.len() as int;
            assert(!is_num_char(s0[i])) by {
                assert(s0[i] == ' ');
            }
            assert forall|q: int| 0 <= q < i implies is_num_char(#[trigger] s0[q]) by {
                assert(s0[q] == rs[q]);
            }
            crate::text::lemma_first_nonnum_is(s0, i);
            assert(s0.take(i) =~= rs);
            let tail = s0.skip(i);
            assert(tail =~= seq![' '] + u);
            assert(tail.len() == 1 + u.len());
            crate::text::lemma_trim_front_skip(tail, 1);
            assert(crate::text::trim_front(tail) =~= u);
            crate::text::lemma_trim_back_take(u, u.len() as int);
            assert(crate::text::trim_back(u) =~= u.take(u.len() as int));
            assert(u.take(u.len() as int) =~= u);
            assert(spec_trim(tail) == u);
            assert(rs[0] != '-') by {
                assert(is_digit(rs[0]));
            }
            assert(spec_parse_udec(rs) == Some(v.size));
        },
    }
}

} // verus!
