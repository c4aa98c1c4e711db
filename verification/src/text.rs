//! Character-sequence helpers shared by the record codecs: digit tests,
//! first-occurrence search, whitespace trimming and line splitting.
use vstd::prelude::*;

verus! {

/// The ASCII digits '0' through '9'.
pub open spec fn is_digit(c: char) -> bool {
    48 <= c as u32 && c as u32 <= 57
}

/// Numeric value of an ASCII digit.
pub open spec fn digit_val(c: char) -> int {
    c as u32 - 48
}

/// The ASCII digit character for a value between 0 and 9.
pub open spec fn digit_char(d: int) -> char {
    if d == 0 {
        '0'
    } else if d == 1 {
        '1'
    } else if d == 2 {
        '2'
    } else if d == 3 {
        '3'
    } else if d == 4 {
        '4'
    } else if d == 5 {
        '5'
    } else if d == 6 {
        '6'
    } else if d == 7 {
        '7'
    } else if d == 8 {
        '8'
    } else {
        '9'
    }
}

/// Whitespace that the codecs trim: blank, tab and carriage return.
pub open spec fn is_space(c: char) -> bool {
    c == ' ' || c == '\t' || c == '\r'
}

/// Index of the first occurrence of `sep` in `s`, or -1 if there is none.
pub open spec fn first_char(s: Seq<char>, sep: char) -> int
    decreases s.len(),
{
    if s.len() == 0 {
        -1
    } else if s[0] == sep {
        0
    } else {
        let r = first_char(s.drop_first(), sep);
        if r == -1 {
            -1
        } else {
            r + 1
        }
    }
}

/// What `first_char` returns: either `sep` does not occur, or the result is
/// the least index where it does.
pub proof fn lemma_first_char(s: Seq<char>, sep: char)
    ensures
        first_char(s, sep) == -1 ==> forall|i: int| 0 <= i < s.len() ==> s[i] != sep,
        first_char(s, sep) != -1 ==> {
            let r = first_char(s, sep);
            &&& 0 <= r < s.len()
            &&& s[r] == sep
            &&& forall|i: int| 0 <= i < r ==> s[i] != sep
        },
    decreases s.len(),
{
    if s.len() > 0 && s[0] != sep {
        lemma_first_char(s.drop_first(), sep);
        assert forall|i: int| 0 <= i < s.len() && first_char(s, sep) == -1 implies s[i] != sep by {
            if i > 0 {
                assert(s.drop_first()[i - 1] == s[i]);
            }
        }
        if first_char(s, sep) != -1 {
            let r = first_char(s, sep);
            assert(s.drop_first()[r - 1] == s[r]);
            assert forall|i: int| 0 <= i < r implies s[i] != sep by {
                if i > 0 {
                    assert(s.drop_first()[i - 1] == s[i]);
                }
            }
        }
    }
}

/// If `j` is an occurrence of `sep` and no smaller index is one, then `j` is
/// exactly what `first_char` finds.
pub proof fn lemma_first_char_is(s: Seq<char>, sep: char, j: int)
    requires
        0 <= j < s.len(),
        s[j] == sep,
        forall|i: int| 0 <= i < j ==> s[i] != sep,
    ensures
        first_char(s, sep) == j,
{
    lemma_first_char(s, sep);
}

/// If `sep` does not occur in `s`, `first_char` finds nothing.
pub proof fn lemma_first_char_none(s: Seq<char>, sep: char)
    requires
        forall|i: int| 0 <= i < s.len() ==> s[i] != sep,
    ensures
        first_char(s, sep) == -1,
{
    lemma_first_char(s, sep);
}

/// `s` with leading whitespace removed.
pub open spec fn trim_front(s: Seq<char>) -> Seq<char>
    decreases s.len(),
{
    if s.len() > 0 && is_space(s[0]) {
        trim_front(s.drop_first())
    } else {
        s
    }
}

/// `s` with trailing whitespace removed.
pub open spec fn trim_back(s: Seq<char>) -> Seq<char>
    decreases s.len(),
{
    if s.len() > 0 && is_space(s[s.len() - 1]) {
        trim_back(s.drop_last())
    } else {
        s
    }
}

/// `s` with both leading and trailing whitespace removed.
pub open spec fn spec_trim(s: Seq<char>) -> Seq<char> {
    trim_back(trim_front(s))
}

/// Trimming a sequence without outer whitespace leaves it unchanged.
pub proof fn lemma_trim_id(s: Seq<char>)
    requires
        s.len() > 0 ==> !is_space(s[0]) && !is_space(s[s.len() - 1]),
    ensures
        spec_trim(s) == s,
{
}

/// `trim_front` drops exactly the longest whitespace prefix.
pub proof fn lemma_trim_front_skip(s: Seq<char>, a: int)
    requires
        0 <= a <= s.len(),
        forall|i: int| 0 <= i < a ==> is_space(s[i]),
        a < s.len() ==> !is_space(s[a]),
    ensures
        trim_front(s) =~= s.skip(a),
    decreases s.len(),
{
    if s.len() > 0 && is_space(s[0]) {
        let t = s.drop_first();
        assert forall|i: int| 0 <= i < a - 1 implies is_space(t[i]) by {
            assert(t[i] == s[i + 1]);
        }
        lemma_trim_front_skip(t, a - 1);
    }
}

/// `trim_back` drops exactly the longest whitespace suffix.
pub proof fn lemma_trim_back_take(s: Seq<char>, b: int)
    requires
        0 <= b <= s.len(),
        forall|i: int| b <= i < s.len() ==> is_space(s[i]),
        b > 0 ==> !is_space(s[b - 1]),
    ensures
        trim_back(s) =~= s.take(b),
    decreases s.len(),
{
    if s.len() > 0 && is_space(s[s.len() - 1]) {
        lemma_trim_back_take(s.drop_last(), b);
    }
}

/// Remove leading and trailing whitespace from a string.
pub fn trim(s: &str) -> (t: String)
    ensures
        t@ == spec_trim(s@),
{
    let n = s.unicode_len();
    let mut a: usize = 0;
    while a < n && is_space_char(s.get_char(a))
        invariant
            0 <= a <= n,
            n == s@.len(),
            forall|i: int| 0 <= i < a ==> is_space(s@[i]),
        decreases n - a,
    {
        a = a + 1;
    }
    let mut b: usize = n;
    while b > a && is_space_char(s.get_char(b - 1))
        invariant
            a <= b <= n,
            n == s@.len(),
            forall|i: int| b <= i < n ==> is_space(s@[i]),
        decreases b,
    {
        b = b - 1;
    }
    proof {
        lemma_trim_front_skip(s@, a as int);
        if b == a {
            lemma_trim_back_take(s@.skip(a as int), 0);
        } else {
            assert forall|i: int| b - a <= i < s@.skip(a as int).len() implies is_space(
                s@.skip(a as int)[i],
            ) by {
                assert(s@.skip(a as int)[i] == s@[i + a]);
            }
            assert(s@.skip(a as int)[b - a - 1] == s@[b - 1]);
            lemma_trim_back_take(s@.skip(a as int), b - a);
        }
        assert(s@.skip(a as int).take(b - a) =~= s@.subrange(a as int, b as int));
    }
    let t = s.substring_char(a, b);
    t.to_owned()
}

/// Executable form of `is_space`.
pub fn is_space_char(c: char) -> (r: bool)
    ensures
        r == is_space(c),
{
    c == ' ' || c == '\t' || c == '\r'
}

/// Executable form of `is_digit`.
pub fn is_digit_char(c: char) -> (r: bool)
    ensures
        r == is_digit(c),
{
    let u = c as u32;
    48 <= u && u <= 57
}

/// `s` split at every occurrence of `sep`; the separators themselves are
/// dropped, and n separators yield n + 1 pieces.
pub open spec fn split_on(s: Seq<char>, sep: char) -> Seq<Seq<char>>
    decreases s.len(),
{
    let i = first_char(s, sep);
    if 0 <= i < s.len() {
        seq![s.take(i)] + split_on(s.skip(i + 1), sep)
    } else {
        seq![s]
    }
}

/// Find the first occurrence of `c` in `s` at or after `from`.
fn find_char_from(s: &str, from: usize, sep: char) -> (r: Option<usize>)
    requires
        from <= s@.len(),
    ensures
        match r {
            Some(j) => {
                &&& from <= j < s@.len()
                &&& s@[j as int] == sep
                &&& forall|i: int| from <= i < j ==> s@[i] != sep
                &&& first_char(s@.skip(from as int), sep) == j - from
            },
            None => {
                &&& forall|i: int| from <= i < s@.len() ==> s@[i] != sep
                &&& first_char(s@.skip(from as int), sep) == -1
            },
        },
{
    let n = s.unicode_len();
    let mut j = from;
    while j < n
        invariant
            from <= j <= n,
            n == s@.len(),
            forall|i: int| from <= i < j ==> s@[i] != sep,
        decreases n - j,
    {
        if s.get_char(j) == sep {
            proof {
                let t = s@.skip(from as int);
                assert(t[j - from] == s@[j as int]);
                assert forall|i: int| 0 <= i < j - from implies t[i] != sep by {
                    assert(t[i] == s@[i + from]);
                }
                lemma_first_char_is(t, sep, j - from);
            }
            return Some(j);
        }
        j = j + 1;
    }
    proof {
        let t = s@.skip(from as int);
        assert forall|i: int| 0 <= i < t.len() implies t[i] != sep by {
            assert(t[i] == s@[i + from]);
        }
        lemma_first_char_none(t, sep);
    }
    None
}

/// Split a string at every occurrence of `sep`.
pub fn split_char(s: &str, sep: char) -> (r: Vec<String>)
    ensures
        r@.map_values(|x: String| x@) == split_on(s@, sep),
{
    let n = s.unicode_len();
    let mut out: Vec<String> = Vec::new();
    let mut pos: usize = 0;
    proof {
        assert(s@.skip(0) =~= s@);
        assert(out@.map_values(|x: String| x@) + split_on(s@.skip(0), sep) =~~= split_on(s@, sep));
    }
    loop
        invariant
            pos <= n,
            n == s@.len(),
            out@.map_values(|x: String| x@) + split_on(s@.skip(pos as int), sep) == split_on(
                s@,
                sep,
            ),
        decreases n - pos,
    {
        let ghost rest = s@.skip(pos as int);
        match find_char_from(s, pos, sep) {
            Some(j) => {
                let piece = s.substring_char(pos, j).to_owned();
                proof {
                    let i = first_char(rest, sep);
                    assert(rest.take(i) =~= s@.subrange(pos as int, j as int));
                    assert(rest.skip(i + 1) =~= s@.skip(j + 1));
                    assert(split_on(rest, sep) == seq![rest.take(i)] + split_on(
                        s@.skip(j + 1),
                        sep,
                    ));
                    assert(out@.push(piece).map_values(|x: String| x@) + split_on(
                        s@.skip(j + 1),
                        sep,
                    ) =~~= out@.map_values(|x: String| x@) + split_on(rest, sep));
                }
                out.push(piece);
                pos = j + 1;
            },
            None => {
                let piece = s.substring_char(pos, n).to_owned();
                proof {
                    lemma_first_char_none(rest, sep);
                    assert(rest =~= s@.subrange(pos as int, n as int));
                    assert(split_on(rest, sep) == seq![rest]);
                    assert(out@.push(piece).map_values(|x: String| x@) =~~= out@.map_values(
                        |x: String| x@,
                    ) + split_on(rest, sep));
                }
                out.push(piece);
                return out;
            },
        }
    }
}

/// True when `p` is a prefix of `s`.
pub fn starts_with(s: &str, p: &str) -> (r: bool)
    ensures
        r == p@.is_prefix_of(s@),
{
    let np = p.unicode_len();
    let ns = s.unicode_len();
    if np > ns {
        assert(!p@.is_prefix_of(s@));
        return false;
    }
    let mut i: usize = 0;
    while i < np
        invariant
            0 <= i <= np,
            np == p@.len(),
            ns == s@.len(),
            np <= ns,
            forall|k: int| 0 <= k < i ==> p@[k] == s@[k],
        decreases np - i,
    {
        if s.get_char(i) != p.get_char(i) {
            assert(!p@.is_prefix_of(s@));
            return false;
        }
        i = i + 1;
    }
    assert(p@ =~= s@.subrange(0, np as int));
    true
}

/// True when the two strings hold the same characters.
pub fn str_eq(a: &str, b: &str) -> (r: bool)
    ensures
        r == (a@ == b@),
{
    let na = a.unicode_len();
    let nb = b.unicode_len();
    if na != nb {
        return false;
    }
    let mut i: usize = 0;
    while i < na
        invariant
            0 <= i <= na,
            na == a@.len(),
            nb == b@.len(),
            na == nb,
            forall|k: int| 0 <= k < i ==> a@[k] == b@[k],
        decreases na - i,
    {
        if a.get_char(i) != b.get_char(i) {
            assert(a@[i as int] != b@[i as int]);
            return false;
        }
        i = i + 1;
    }
    proof {
        assert(a@ =~= b@);
    }
    true
}

} // verus!

verus! {

/// A character that may appear in the numeric part of a serving literal.
pub open spec fn is_num_char(c: char) -> bool {
    is_digit(c) || c == '.'
}

/// Index of the first character that is not part of a number, or -1.
pub open spec fn first_nonnum(s: Seq<char>) -> int
    decreases s.len(),
{
    if s.len() == 0 {
        -1
    } else if !is_num_char(s[0]) {
        0
    } else {
        let r = first_nonnum(s.drop_first());
        if r == -1 {
            -1
        } else {
            r + 1
        }
    }
}

/// What `first_nonnum` returns: either every character is numeric, or the
/// result is the least index of one that is not.
pub proof fn lemma_first_nonnum(s: Seq<char>)
    ensures
        first_nonnum(s) == -1 ==> forall|i: int| 0 <= i < s.len() ==> is_num_char(s[i]),
        first_nonnum(s) != -1 ==> {
            let r = first_nonnum(s);
            &&& 0 <= r < s.len()
            &&& !is_num_char(s[r])
            &&& forall|i: int| 0 <= i < r ==> is_num_char(s[i])
        },
    decreases s.len(),
{
    if s.len() > 0 && is_num_char(s[0]) {
        lemma_first_nonnum(s.drop_first());
        assert forall|i: int|
            0 <= i < s.len() && first_nonnum(s) == -1 implies is_num_char(s[i]) by {
            if i > 0 {
                assert(s.drop_first()[i - 1] == s[i]);
            }
        }
        if first_nonnum(s) != -1 {
            let r = first_nonnum(s);
            assert(s.drop_first()[r - 1] == s[r]);
            assert forall|i: int| 0 <= i < r implies is_num_char(s[i]) by {
                if i > 0 {
                    assert(s.drop_first()[i - 1] == s[i]);
                }
            }
        }
    }
}

/// If `j` is a non-numeric index and every earlier one is numeric, then
/// `j` is exactly what `first_nonnum` finds.
pub proof fn lemma_first_nonnum_is(s: Seq<char>, j: int)
    requires
        0 <= j < s.len(),
        !is_num_char(s[j]),
        forall|i: int| 0 <= i < j ==> is_num_char(s[i]),
    ensures
        first_nonnum(s) == j,
{
    lemma_first_nonnum(s);
}

/// If every character is numeric, `first_nonnum` finds nothing.
pub proof fn lemma_first_nonnum_none(s: Seq<char>)
    requires
        forall|i: int| 0 <= i < s.len() ==> is_num_char(s[i]),
    ensures
        first_nonnum(s) == -1,
{
    lemma_first_nonnum(s);
}

/// Find the first character that cannot belong to a number.
pub fn find_nonnum(s: &str) -> (r: Option<usize>)
    ensures
        match r {
            Some(j) => 0 <= j < s@.len() && first_nonnum(s@) == j,
            None => first_nonnum(s@) == -1,
        },
{
    let n = s.unicode_len();
    let mut i: usize = 0;
    while i < n
        invariant
            0 <= i <= n,
            n == s@.len(),
            forall|q: int| 0 <= q < i ==> is_num_char(s@[q]),
        decreases n - i,
    {
        let c = s.get_char(i);
        if !(is_digit_char(c) || c == '.') {
            proof {
                lemma_first_nonnum_is(s@, i as int);
            }
            return Some(i);
        }
        i = i + 1;
    }
    proof {
        lemma_first_nonnum_none(s@);
    }
    None
}

} // verus!

verus! {

/// Index of the first whitespace character, or -1 if there is none.
pub open spec fn first_space(s: Seq<char>) -> int
    decreases s.len(),
{
    if s.len() == 0 {
        -1
    } else if is_space(s[0]) {
        0
    } else {
        let r = first_space(s.drop_first());
        if r == -1 {
            -1
        } else {
            r + 1
        }
    }
}

/// What `first_space` returns.
pub proof fn lemma_first_space(s: Seq<char>)
    ensures
        first_space(s) == -1 ==> forall|i: int| 0 <= i < s.len() ==> !is_space(s[i]),
        first_space(s) != -1 ==> {
            let r = first_space(s);
            &&& 0 <= r < s.len()
            &&& is_space(s[r])
            &&& forall|i: int| 0 <= i < r ==> !is_space(s[i])
        },
    decreases s.len(),
{
    if s.len() > 0 && !is_space(s[0]) {
        lemma_first_space(s.drop_first());
        assert forall|i: int|
            0 <= i < s.len() && first_space(s) == -1 implies !is_space(s[i]) by {
            if i > 0 {
                assert(s.drop_first()[i - 1] == s[i]);
            }
        }
        if first_space(s) != -1 {
            let r = first_space(s);
            assert(s.drop_first()[r - 1] == s[r]);
            assert forall|i: int| 0 <= i < r implies !is_space(s[i]) by {
                if i > 0 {
                    assert(s.drop_first()[i - 1] == s[i]);
                }
            }
        }
    }
}

/// Find the first whitespace character.
pub fn find_space(s: &str) -> (r: Option<usize>)
    ensures
        match r {
            Some(j) => 0 <= j < s@.len() && first_space(s@) == j,
            None => first_space(s@) == -1,
        },
{
    let n = s.unicode_len();
    let mut i: usize = 0;
    while i < n
        invariant
            0 <= i <= n,
            n == s@.len(),
            forall|q: int| 0 <= q < i ==> !is_space(s@[q]),
        decreases n - i,
    {
        if is_space_char(s.get_char(i)) {
            proof {
                lemma_first_space(s@);
                if first_space(s@) == -1 {
                } else if first_space(s@) < i {
                } else if first_space(s@) > i {
                }
            }
            return Some(i);
        }
        i = i + 1;
    }
    proof {
        lemma_first_space(s@);
        if first_space(s@) != -1 {
        }
    }
    None
}

} // verus!
