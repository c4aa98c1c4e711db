//! The macronutrients of a food.
use vstd::prelude::*;

use crate::rat::{
    ratio_add, ratio_eq, ratio_int, ratio_mul, ratio_wf, Rat, Ratio,
};

verus! {

/// Specification-level mirror of [`Nutrients`].
#[verifier::ext_equal]
pub struct NutrientsV {
    pub carb: Ratio,
    pub fat: Ratio,
    pub protein: Ratio,
    pub kcal: Ratio,
}

/// All four components are well-formed ratios.
pub open spec fn nut_wf(n: NutrientsV) -> bool {
    ratio_wf(n.carb) && ratio_wf(n.fat) && ratio_wf(n.protein) && ratio_wf(n.kcal)
}

/// Component-wise equality as rational numbers.
pub open spec fn nut_eq(a: NutrientsV, b: NutrientsV) -> bool {
    &&& ratio_eq(a.carb, b.carb)
    &&& ratio_eq(a.fat, b.fat)
    &&& ratio_eq(a.protein, b.protein)
    &&& ratio_eq(a.kcal, b.kcal)
}

/// Component-wise sum.
pub open spec fn nut_add(a: NutrientsV, b: NutrientsV) -> NutrientsV {
    NutrientsV {
        carb: ratio_add(a.carb, b.carb),
        fat: ratio_add(a.fat, b.fat),
        protein: ratio_add(a.protein, b.protein),
        kcal: ratio_add(a.kcal, b.kcal),
    }
}

/// Every component scaled by `p`.
pub open spec fn nut_scale(p: Ratio, n: NutrientsV) -> NutrientsV {
    NutrientsV {
        carb: ratio_mul(p, n.carb),
        fat: ratio_mul(p, n.fat),
        protein: ratio_mul(p, n.protein),
        kcal: ratio_mul(p, n.kcal),
    }
}

/// The all-zero nutrients.
pub open spec fn nut_zero() -> NutrientsV {
    NutrientsV { carb: ratio_int(0), fat: ratio_int(0), protein: ratio_int(0), kcal: ratio_int(0) }
}

/// The Atwater general formula: `4*carb + 9*fat + 4*protein`.
pub open spec fn spec_atwater(n: NutrientsV) -> Ratio {
    ratio_add(
        ratio_add(ratio_mul(ratio_int(4), n.carb), ratio_mul(ratio_int(9), n.fat)),
        ratio_mul(ratio_int(4), n.protein),
    )
}

/// The macronutrients of a food: carbohydrate, fat and protein in grams,
/// energy in kilocalories.
#[derive(Clone, Copy, Debug)]
pub struct Nutrients {
    pub carb: Rat,
    pub fat: Rat,
    pub protein: Rat,
    pub kcal: Rat,
}

impl View for Nutrients {
    type V = NutrientsV;

    open spec fn view(&self) -> NutrientsV {
        NutrientsV { carb: self.carb@, fat: self.fat@, protein: self.protein@, kcal: self.kcal@ }
    }
}

impl PartialEq for Nutrients {
    /// Component-wise equality as rational numbers.
    fn eq(&self, other: &Nutrients) -> (r: bool) {
        self.carb == other.carb && self.fat == other.fat && self.protein == other.protein
            && self.kcal == other.kcal
    }
}

impl vstd::std_specs::cmp::PartialEqSpecImpl for Nutrients {
    open spec fn obeys_eq_spec() -> bool {
        true
    }

    open spec fn eq_spec(&self, other: &Nutrients) -> bool {
        nut_eq(self@, other@)
    }
}

impl Default for Nutrients {
    /// The all-zero nutrients.
    fn default() -> (r: Nutrients)
        ensures
            r@ == nut_zero(),
            r.wf(),
    {
        Nutrients {
            carb: Rat::from_int(0),
            fat: Rat::from_int(0),
            protein: Rat::from_int(0),
            kcal: Rat::from_int(0),
        }
    }
}

impl Nutrients {
    /// All components are well-formed.
    pub open spec fn wf(self) -> bool {
        nut_wf(self@)
    }

    /// The all-zero nutrients.
    pub fn zero() -> (r: Nutrients)
        ensures
            r@ == nut_zero(),
            r.wf(),
    {
        Nutrients {
            carb: Rat::from_int(0),
            fat: Rat::from_int(0),
            protein: Rat::from_int(0),
            kcal: Rat::from_int(0),
        }
    }

    /// If `kcal` is not yet positive, fill it in by the Atwater general
    /// formula `4*carb + 9*fat + 4*protein`; a positive `kcal` is kept
    /// as it stands.  `None` only when the exact formula value leaves the
    /// machine range.
    pub fn maybe_compute_kcal(self) -> (r: Option<Nutrients>)
        requires
            self.wf(),
        ensures
            self@.kcal.num > 0 ==> r == Some(self),
            crate::rat::bound_fits(atwater_bound(self@)) ==> r is Some,
            match r {
                Some(v) => {
                    &&& v.wf()
                    &&& v.carb == self.carb
                    &&& v.fat == self.fat
                    &&& v.protein == self.protein
                    &&& (self@.kcal.num <= 0 ==> ratio_eq(v@.kcal, spec_atwater(self@)))
                },
                None => self@.kcal.num <= 0,
            },
    {
        if self.kcal.is_pos() {
            return Some(self);
        }
        let four = Rat::from_int(4);
        let nine = Rat::from_int(9);
        let ghost b1 = ratio_mul(Ratio { num: 4, den: 1 }, crate::rat::rat_bound(self@.carb));
        let ghost b2 = ratio_mul(Ratio { num: 9, den: 1 }, crate::rat::rat_bound(self@.fat));
        let ghost b3 = ratio_mul(Ratio { num: 4, den: 1 }, crate::rat::rat_bound(self@.protein));
        proof {
            crate::rat::lemma_bound_mono_mul(
                Ratio { num: 4, den: 1 },
                crate::rat::rat_bound(self@.carb),
                Ratio { num: 4, den: 1 },
                crate::rat::rat_bound(self@.carb),
            );
            crate::rat::lemma_bound_mono_mul(
                Ratio { num: 9, den: 1 },
                crate::rat::rat_bound(self@.fat),
                Ratio { num: 9, den: 1 },
                crate::rat::rat_bound(self@.fat),
            );
            crate::rat::lemma_bound_mono_mul(
                Ratio { num: 4, den: 1 },
                crate::rat::rat_bound(self@.protein),
                Ratio { num: 4, den: 1 },
                crate::rat::rat_bound(self@.protein),
            );
            crate::rat::lemma_bound_grow_add(b1, b2);
            crate::rat::lemma_bound_grow_add(ratio_add(b1, b2), b3);
            assert(crate::rat::rat_bound(four@) == (Ratio { num: 4, den: 1 }));
            assert(crate::rat::rat_bound(nine@) == (Ratio { num: 9, den: 1 }));
        }
        let c = match four.mul(self.carb) {
            Some(v) => v,
            None => { return None; },
        };
        let f = match nine.mul(self.fat) {
            Some(v) => v,
            None => { return None; },
        };
        let p = match four.mul(self.protein) {
            Some(v) => v,
            None => { return None; },
        };
        let cf = match c.add(f) {
            Some(v) => v,
            None => {
                proof {
                    if crate::rat::bound_fits(atwater_bound(self@)) {
                        crate::rat::lemma_bound_mono_add(
                            crate::rat::rat_bound(c@),
                            crate::rat::rat_bound(f@),
                            b1,
                            b2,
                        );
                    }
                }
                return None;
            },
        };
        let kcal = match cf.add(p) {
            Some(v) => v,
            None => {
                proof {
                    if crate::rat::bound_fits(atwater_bound(self@)) {
                        crate::rat::lemma_bound_mono_add(
                            crate::rat::rat_bound(c@),
                            crate::rat::rat_bound(f@),
                            b1,
                            b2,
                        );
                        crate::rat::lemma_bound_mono_add(
                            crate::rat::rat_bound(cf@),
                            crate::rat::rat_bound(p@),
                            ratio_add(b1, b2),
                            b3,
                        );
                    }
                }
                return None;
            },
        };
        proof {
            let c4 = ratio_mul(ratio_int(4), self@.carb);
            let f9 = ratio_mul(ratio_int(9), self@.fat);
            let p4 = ratio_mul(ratio_int(4), self@.protein);
            let x = ratio_add(c4, f9);
            crate::rat::lemma_ratio_mul_wf(ratio_int(4), self@.carb);
            crate::rat::lemma_ratio_mul_wf(ratio_int(9), self@.fat);
            crate::rat::lemma_ratio_mul_wf(ratio_int(4), self@.protein);
            crate::rat::lemma_ratio_add_wf(c4, f9);
            crate::rat::lemma_ratio_add_wf(c@, f@);
            crate::rat::lemma_ratio_add_congr(c@, c4, f@, f9);
            crate::rat::lemma_ratio_eq_trans(cf@, ratio_add(c@, f@), x);
            crate::rat::lemma_ratio_add_wf(cf@, p@);
            crate::rat::lemma_ratio_add_wf(x, p4);
            crate::rat::lemma_ratio_add_congr(cf@, x, p@, p4);
            crate::rat::lemma_ratio_eq_trans(
                kcal@,
                ratio_add(cf@, p@),
                ratio_add(x, p4),
            );
        }
        Some(Nutrients { carb: self.carb, fat: self.fat, protein: self.protein, kcal })
    }

    /// Exact component-wise sum; `None` when a component leaves the
    /// machine range.
    pub fn add(self, other: Nutrients) -> (r: Option<Nutrients>)
        requires
            self.wf(),
            other.wf(),
        ensures
            match r {
                Some(v) => {
                    &&& v.wf()
                    &&& nut_eq(v@, nut_add(self@, other@))
                    &&& nut_within(v@, nut_add(nut_bound(self@), nut_bound(other@)))
                },
                None => true,
            },
            nut_bound_fits(nut_add(nut_bound(self@), nut_bound(other@))) ==> r is Some,
    {
        let carb = match self.carb.add(other.carb) {
            Some(v) => v,
            None => { return None; },
        };
        let fat = match self.fat.add(other.fat) {
            Some(v) => v,
            None => { return None; },
        };
        let protein = match self.protein.add(other.protein) {
            Some(v) => v,
            None => { return None; },
        };
        let kcal = match self.kcal.add(other.kcal) {
            Some(v) => v,
            None => { return None; },
        };
        Some(Nutrients { carb, fat, protein, kcal })
    }

    /// Exact scaling of every component by `p`; `None` when a component
    /// leaves the machine range.
    pub fn mul(self, p: Rat) -> (r: Option<Nutrients>)
        requires
            self.wf(),
            p.wf(),
        ensures
            match r {
                Some(v) => {
                    &&& v.wf()
                    &&& nut_eq(v@, nut_scale(p@, self@))
                    &&& nut_within(v@, nut_scale(crate::rat::rat_bound(p@), nut_bound(self@)))
                },
                None => true,
            },
            nut_bound_fits(nut_scale(crate::rat::rat_bound(p@), nut_bound(self@))) ==> r is Some,
    {
        let carb = match p.mul(self.carb) {
            Some(v) => v,
            None => { return None; },
        };
        let fat = match p.mul(self.fat) {
            Some(v) => v,
            None => { return None; },
        };
        let protein = match p.mul(self.protein) {
            Some(v) => v,
            None => { return None; },
        };
        let kcal = match p.mul(self.kcal) {
            Some(v) => v,
            None => { return None; },
        };
        Some(Nutrients { carb, fat, protein, kcal })
    }
}

} // verus!

verus! {

/// Nutrient sums respect `nut_eq` in both arguments.
pub proof fn lemma_nut_add_congr(a1: NutrientsV, a2: NutrientsV, b1: NutrientsV, b2: NutrientsV)
    requires
        nut_wf(a1),
        nut_wf(a2),
        nut_wf(b1),
        nut_wf(b2),
        nut_eq(a1, a2),
        nut_eq(b1, b2),
    ensures
        nut_eq(nut_add(a1, b1), nut_add(a2, b2)),
{
    crate::rat::lemma_ratio_add_congr(a1.carb, a2.carb, b1.carb, b2.carb);
    crate::rat::lemma_ratio_add_congr(a1.fat, a2.fat, b1.fat, b2.fat);
    crate::rat::lemma_ratio_add_congr(a1.protein, a2.protein, b1.protein, b2.protein);
    crate::rat::lemma_ratio_add_congr(a1.kcal, a2.kcal, b1.kcal, b2.kcal);
}

/// Scaling respects `ratio_eq` of the factor.
pub proof fn lemma_nut_scale_congr(p1: Ratio, p2: Ratio, n: NutrientsV)
    requires
        ratio_eq(p1, p2),
    ensures
        nut_eq(nut_scale(p1, n), nut_scale(p2, n)),
{
    crate::rat::lemma_ratio_mul_congr(p1, p2, n.carb, n.carb);
    crate::rat::lemma_ratio_mul_congr(p1, p2, n.fat, n.fat);
    crate::rat::lemma_ratio_mul_congr(p1, p2, n.protein, n.protein);
    crate::rat::lemma_ratio_mul_congr(p1, p2, n.kcal, n.kcal);
}

/// Scaled nutrients are well-formed.
pub proof fn lemma_nut_scale_wf(p: Ratio, n: NutrientsV)
    requires
        ratio_wf(p),
        nut_wf(n),
    ensures
        nut_wf(nut_scale(p, n)),
{
    crate::rat::lemma_ratio_mul_wf(p, n.carb);
    crate::rat::lemma_ratio_mul_wf(p, n.fat);
    crate::rat::lemma_ratio_mul_wf(p, n.protein);
    crate::rat::lemma_ratio_mul_wf(p, n.kcal);
}

/// Summed nutrients are well-formed.
pub proof fn lemma_nut_add_wf(a: NutrientsV, b: NutrientsV)
    requires
        nut_wf(a),
        nut_wf(b),
    ensures
        nut_wf(nut_add(a, b)),
{
    crate::rat::lemma_ratio_add_wf(a.carb, b.carb);
    crate::rat::lemma_ratio_add_wf(a.fat, b.fat);
    crate::rat::lemma_ratio_add_wf(a.protein, b.protein);
    crate::rat::lemma_ratio_add_wf(a.kcal, b.kcal);
}

/// Scaling distributes over nutrient sums, up to `nut_eq`.
pub proof fn lemma_nut_scale_add(k: Ratio, a: NutrientsV, b: NutrientsV)
    ensures
        nut_eq(nut_scale(k, nut_add(a, b)), nut_add(nut_scale(k, a), nut_scale(k, b))),
{
    crate::rat::lemma_ratio_scale_add(k, a.carb, b.carb);
    crate::rat::lemma_ratio_scale_add(k, a.fat, b.fat);
    crate::rat::lemma_ratio_scale_add(k, a.protein, b.protein);
    crate::rat::lemma_ratio_scale_add(k, a.kcal, b.kcal);
}

} // verus!

verus! {

/// The tight magnitude bounds of a nutrient value, component for
/// component.
pub open spec fn nut_bound(n: NutrientsV) -> NutrientsV {
    NutrientsV {
        carb: crate::rat::rat_bound(n.carb),
        fat: crate::rat::rat_bound(n.fat),
        protein: crate::rat::rat_bound(n.protein),
        kcal: crate::rat::rat_bound(n.kcal),
    }
}

/// Every component bound stays within the machine representation.
pub open spec fn nut_bound_fits(b: NutrientsV) -> bool {
    &&& crate::rat::bound_fits(b.carb)
    &&& crate::rat::bound_fits(b.fat)
    &&& crate::rat::bound_fits(b.protein)
    &&& crate::rat::bound_fits(b.kcal)
}

/// Every component bound is well-formed.
pub open spec fn nut_bound_ok(b: NutrientsV) -> bool {
    &&& crate::rat::bound_ok(b.carb)
    &&& crate::rat::bound_ok(b.fat)
    &&& crate::rat::bound_ok(b.protein)
    &&& crate::rat::bound_ok(b.kcal)
}

/// The value is within the bound, component for component.
pub open spec fn nut_within(n: NutrientsV, b: NutrientsV) -> bool {
    &&& crate::rat::rat_within(n.carb, b.carb)
    &&& crate::rat::rat_within(n.fat, b.fat)
    &&& crate::rat::rat_within(n.protein, b.protein)
    &&& crate::rat::rat_within(n.kcal, b.kcal)
}

/// One nutrient bound is below another, component for component.
pub open spec fn nut_bound_le(a: NutrientsV, b: NutrientsV) -> bool {
    &&& crate::rat::bound_le(a.carb, b.carb)
    &&& crate::rat::bound_le(a.fat, b.fat)
    &&& crate::rat::bound_le(a.protein, b.protein)
    &&& crate::rat::bound_le(a.kcal, b.kcal)
}

/// The Atwater formula's magnitude bound over a nutrient value.
pub open spec fn atwater_bound(n: NutrientsV) -> Ratio {
    ratio_add(
        ratio_add(
            ratio_mul(Ratio { num: 4, den: 1 }, crate::rat::rat_bound(n.carb)),
            ratio_mul(Ratio { num: 9, den: 1 }, crate::rat::rat_bound(n.fat)),
        ),
        ratio_mul(Ratio { num: 4, den: 1 }, crate::rat::rat_bound(n.protein)),
    )
}

/// A nutrient sum bound is at least as wide as either operand bound.
pub proof fn lemma_nut_bound_grow_add(a: NutrientsV, b: NutrientsV)
    requires
        nut_bound_ok(a),
        nut_bound_ok(b),
    ensures
        nut_bound_le(a, nut_add(a, b)),
        nut_bound_le(b, nut_add(a, b)),
        nut_bound_ok(nut_add(a, b)),
{
    crate::rat::lemma_bound_grow_add(a.carb, b.carb);
    crate::rat::lemma_bound_grow_add(a.fat, b.fat);
    crate::rat::lemma_bound_grow_add(a.protein, b.protein);
    crate::rat::lemma_bound_grow_add(a.kcal, b.kcal);
}

/// Nutrient sum bounds grow with their operand bounds.
pub proof fn lemma_nut_bound_mono_add(a1: NutrientsV, b1: NutrientsV, a2: NutrientsV, b2: NutrientsV)
    requires
        nut_bound_ok(a1),
        nut_bound_ok(b1),
        nut_bound_ok(a2),
        nut_bound_ok(b2),
        nut_bound_le(a1, a2),
        nut_bound_le(b1, b2),
    ensures
        nut_bound_le(nut_add(a1, b1), nut_add(a2, b2)),
        nut_bound_ok(nut_add(a1, b1)),
{
    crate::rat::lemma_bound_mono_add(a1.carb, b1.carb, a2.carb, b2.carb);
    crate::rat::lemma_bound_mono_add(a1.fat, b1.fat, a2.fat, b2.fat);
    crate::rat::lemma_bound_mono_add(a1.protein, b1.protein, a2.protein, b2.protein);
    crate::rat::lemma_bound_mono_add(a1.kcal, b1.kcal, a2.kcal, b2.kcal);
}

/// Nutrient scale bounds grow with the factor and value bounds.
pub proof fn lemma_nut_bound_mono_scale(p1: Ratio, b1: NutrientsV, p2: Ratio, b2: NutrientsV)
    requires
        crate::rat::bound_ok(p1),
        nut_bound_ok(b1),
        crate::rat::bound_ok(p2),
        nut_bound_ok(b2),
        crate::rat::bound_le(p1, p2),
        nut_bound_le(b1, b2),
    ensures
        nut_bound_le(nut_scale(p1, b1), nut_scale(p2, b2)),
        nut_bound_ok(nut_scale(p1, b1)),
{
    crate::rat::lemma_bound_mono_mul(p1, b1.carb, p2, b2.carb);
    crate::rat::lemma_bound_mono_mul(p1, b1.fat, p2, b2.fat);
    crate::rat::lemma_bound_mono_mul(p1, b1.protein, p2, b2.protein);
    crate::rat::lemma_bound_mono_mul(p1, b1.kcal, p2, b2.kcal);
}

/// The bounds of a well-formed value are well-formed and hold it.
pub proof fn lemma_nut_bound_of(n: NutrientsV)
    requires
        nut_wf(n),
    ensures
        nut_bound_ok(nut_bound(n)),
        nut_within(n, nut_bound(n)),
{
}

} // verus!

verus! {

/// A value within a bound is within every wider bound.
pub proof fn lemma_nut_within_widen(x: NutrientsV, b1: NutrientsV, b2: NutrientsV)
    requires
        nut_within(x, b1),
        nut_bound_le(b1, b2),
    ensures
        nut_within(x, b2),
{
}

/// What fits at a wide bound fits at every tighter one.
pub proof fn lemma_nut_fits_narrow(b1: NutrientsV, b2: NutrientsV)
    requires
        nut_bound_le(b1, b2),
        nut_bound_fits(b2),
    ensures
        nut_bound_fits(b1),
{
}

} // verus!
