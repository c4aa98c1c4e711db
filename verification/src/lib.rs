//! A personal food-nutrition ledger.
//!
//! Foods are described either by their macronutrients or as compositions of
//! other foods; servings pair a quantity with an optional unit; journals and
//! recipes are ordered lists of (food key, serving) entries.  Records are
//! kept as human-editable text files under a key-addressed directory tree.
//! All quantities are exact rational numbers, so serving resolution and
//! nutrient totals carry no rounding at all.
use vstd::prelude::*;

pub mod codec;
pub mod data;
pub mod date;
pub mod error;
pub mod food;
pub mod journal;
pub mod nutrients;
pub mod serving;
pub mod rat;
pub mod recipe;
pub mod search;
pub mod text;

verus! {

/// The application name, used by callers to pick a data directory.
pub const APP_NAME: &'static str = "nosh";

/// A handle on the ledger's data tree: it holds the root directory under
/// which every record path computed by this crate is meant to live.
/// All file traffic happens outside this crate; `Database` itself only
/// carries the root and the pure path arithmetic of the record types.
#[derive(Debug)]
pub struct Database {
    pub dir: String,
}

impl Database {
    /// Create a new database handle rooted at the given directory.
    pub fn new(dir: String) -> (r: Result<Database, crate::error::Error>)
        ensures
            r is Ok && r->Ok_0.dir@ == dir@,
    {
        Ok(Database { dir })
    }

    /// The absolute path of a record's file: the root directory, a
    /// separator, and the record's own relative path.
    pub fn full_path<T: crate::data::Data>(&self, key: &T::Key) -> (r: String)
        requires
            T::spec_key_ok(*key),
        ensures
            r@ == self.dir@ + "/"@ + T::spec_path(*key),
    {
        let mut out = self.dir.clone();
        proof {
            reveal_strlit("/");
        }
        out.append("/");
        let rel = T::path(key);
        out.append(rel.as_str());
        out
    }

    /// The key a listed food file stands for: its name with the final
    /// `.`-extension removed.  `None` when the name has no extension.
    pub fn file_key(name: &str) -> (r: Option<String>)
        ensures
            match r {
                Some(k) => {
                    &&& crate::text::first_char(name@.reverse(), '.') >= 0
                    &&& k@ == name@.take(
                        name@.len() - 1 - crate::text::first_char(name@.reverse(), '.'),
                    )
                },
                None => crate::text::first_char(name@.reverse(), '.') == -1,
            },
    {
        let n = name.unicode_len();
        let mut i: usize = n;
        while i > 0
            invariant
                0 <= i <= n,
                n == name@.len(),
                forall|q: int| i <= q < n ==> name@[q] != '.',
            decreases i,
        {
            i = i - 1;
            if name.get_char(i) == '.' {
                let k = name.substring_char(0, i).to_owned();
                proof {
                    let rev = name@.reverse();
                    let ri = n - 1 - i;
                    assert(rev[ri] == name@[i as int]);
                    assert forall|q: int| 0 <= q < ri implies rev[q] != '.' by {
                        assert(rev[q] == name@[n - 1 - q]);
                    }
                    crate::text::lemma_first_char_is(rev, '.', ri);
                    assert(k@ =~= name@.take(i as int));
                }
                return Some(k);
            }
        }
        proof {
            let rev = name@.reverse();
            assert forall|q: int| 0 <= q < rev.len() implies rev[q] != '.' by {
                assert(rev[q] == name@[n - 1 - q]);
            }
            crate::text::lemma_first_char_none(rev, '.');
        }
        None
    }
}

} // verus!
