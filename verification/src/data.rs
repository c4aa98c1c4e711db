//! The record contract: what makes a type storable in the ledger's
//! key-addressed file tree.
use vstd::prelude::*;

use crate::date::Date;
use crate::food::Food;
use crate::journal::Journal;
use crate::recipe::Recipe;

verus! {

/// A type that can be stored in the database: it names its directory and
/// maps each key to a relative file path, deterministically.
pub trait Data: Sized {
    /// The type used to identify records of this kind.
    type Key;

    /// Keys the path function is defined on.
    spec fn spec_key_ok(key: Self::Key) -> bool;

    /// The relative path of a key's record file.
    spec fn spec_path(key: Self::Key) -> Seq<char>;

    /// Compute the relative path of a key's record file, always inside
    /// the record kind's directory and with an extension.
    fn path(key: &Self::Key) -> (r: String)
        requires
            Self::spec_key_ok(*key),
        ensures
            r@ == Self::spec_path(*key),
    ;
}

/// The path of a food record: `food/<key>.txt`.
pub open spec fn spec_food_path(key: Seq<char>) -> Seq<char> {
    "food/"@ + key + ".txt"@
}

/// The path of a recipe record: `recipe/<key>.txt`.
pub open spec fn spec_recipe_path(key: Seq<char>) -> Seq<char> {
    "recipe/"@ + key + ".txt"@
}

impl Data for Food {
    type Key = String;

    open spec fn spec_key_ok(key: String) -> bool {
        true
    }

    open spec fn spec_path(key: String) -> Seq<char> {
        spec_food_path(key@)
    }

    fn path(key: &String) -> (r: String) {
        let mut out = String::new();
        proof {
            reveal_strlit("food/");
            reveal_strlit(".txt");
        }
        out.append("food/");
        out.append(key.as_str());
        out.append(".txt");
        proof {
            assert(out@ =~= spec_food_path(key@));
        }
        out
    }
}

impl Data for Recipe {
    type Key = String;

    open spec fn spec_key_ok(key: String) -> bool {
        true
    }

    open spec fn spec_path(key: String) -> Seq<char> {
        spec_recipe_path(key@)
    }

    fn path(key: &String) -> (r: String) {
        let mut out = String::new();
        proof {
            reveal_strlit("recipe/");
            reveal_strlit(".txt");
        }
        out.append("recipe/");
        out.append(key.as_str());
        out.append(".txt");
        proof {
            assert(out@ =~= spec_recipe_path(key@));
        }
        out
    }
}

impl Data for Journal {
    type Key = Date;

    open spec fn spec_key_ok(key: Date) -> bool {
        key.wf()
    }

    open spec fn spec_path(key: Date) -> Seq<char> {
        crate::journal::spec_journal_path(key)
    }

    fn path(key: &Date) -> (r: String) {
        Journal::path(key)
    }
}

} // verus!
