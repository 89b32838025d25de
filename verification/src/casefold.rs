//! Per-character case folding.
//!
//! Matching is case-insensitive throughout, and this module is the one place
//! where the crate leans on the standard library's Unicode case tables.  The
//! two mappings are given names (`lower_of`, `upper_of`) that the rest of the
//! crate reasons with; everything else here is verified helper code over
//! those names.

use vstd::prelude::*;
use vstd::string::StrSliceExecFns;

verus! {

/// The sequence of characters that the lowercase mapping of `c` consists of.
pub uninterp spec fn lower_of(c: char) -> Seq<char>;

/// The sequence of characters that the uppercase mapping of `c` consists of.
pub uninterp spec fn upper_of(c: char) -> Seq<char>;

/// Relies on `char::to_lowercase`: yields the lowercase mapping of the
/// character, one or more characters long, a function of the character alone.
#[verifier::external_body]
pub fn char_to_lower(c: char) -> (r: Vec<char>)
    ensures
        r@ == lower_of(c),
        r@.len() >= 1,
{
    c.to_lowercase().collect()
}

/// Relies on `char::to_uppercase`: yields the uppercase mapping of the
/// character, one or more characters long, a function of the character alone.
#[verifier::external_body]
pub fn char_to_upper(c: char) -> (r: Vec<char>)
    ensures
        r@ == upper_of(c),
        r@.len() >= 1,
{
    c.to_uppercase().collect()
}

/// A character counts as lowercase when it is its own lowercase mapping and
/// that mapping differs from its uppercase one.
pub open spec fn is_lower_char(c: char) -> bool {
    lower_of(c) == seq![c] && lower_of(c) != upper_of(c)
}

/// A character counts as uppercase when it is its own uppercase mapping and
/// the two mappings differ.
pub open spec fn is_upper_char(c: char) -> bool {
    upper_of(c) == seq![c] && lower_of(c) != upper_of(c)
}

/// The case-folded form of a character sequence: every character replaced by
/// its lowercase mapping, in order.
pub open spec fn fold_lower(s: Seq<char>) -> Seq<char>
    decreases s.len(),
{
    if s.len() == 0 {
        Seq::empty()
    } else {
        lower_of(s[0]) + fold_lower(s.skip(1))
    }
}

pub proof fn lemma_fold_lower_push(s: Seq<char>, c: char)
    ensures
        fold_lower(s.push(c)) == fold_lower(s) + lower_of(c),
    decreases s.len(),
{
    if s.len() == 0 {
        assert(s.push(c).skip(1) =~= Seq::<char>::empty());
        assert(s.push(c)[0] == c);
        assert(fold_lower(s.push(c)) == lower_of(c) + fold_lower(Seq::<char>::empty()));
        assert(fold_lower(Seq::<char>::empty()) == Seq::<char>::empty());
        assert(fold_lower(s) == Seq::<char>::empty());
        assert(fold_lower(s.push(c)) =~= fold_lower(s) + lower_of(c));
    } else {
        assert(s.push(c).skip(1) =~= s.skip(1).push(c));
        lemma_fold_lower_push(s.skip(1), c);
        assert(fold_lower(s.push(c)) =~= fold_lower(s) + lower_of(c));
    }
}

pub proof fn lemma_fold_lower_concat(s: Seq<char>, t: Seq<char>)
    ensures
        fold_lower(s + t) == fold_lower(s) + fold_lower(t),
    decreases s.len(),
{
    if s.len() == 0 {
        assert(s + t =~= t);
        assert(fold_lower(s) + fold_lower(t) =~= fold_lower(t));
    } else {
        assert((s + t).skip(1) =~= s.skip(1) + t);
        lemma_fold_lower_concat(s.skip(1), t);
        assert(fold_lower(s + t) =~= fold_lower(s) + fold_lower(t));
    }
}

/// Two character sequences that agree up to case: same length, and each
/// pair of characters shares its lowercase mapping.
pub open spec fn folded_equal(a: Seq<char>, b: Seq<char>) -> bool {
    a.len() == b.len() && forall|i: int| 0 <= i < a.len() ==> lower_of(#[trigger] a[i])
        == lower_of(b[i])
}

/// Case folding maps sequences that agree up to case to the same sequence.
pub proof fn lemma_fold_lower_congruence(a: Seq<char>, b: Seq<char>)
    requires
        folded_equal(a, b),
    ensures
        fold_lower(a) == fold_lower(b),
    decreases a.len(),
{
    if a.len() == 0 {
    } else {
        assert(folded_equal(a.skip(1), b.skip(1)));
        lemma_fold_lower_congruence(a.skip(1), b.skip(1));
        assert(lower_of(a[0]) == lower_of(b[0]));
    }
}

/// The characters of a string, in order.
pub fn chars_of(s: &str) -> (v: Vec<char>)
    ensures
        v@ == s@,
{
    let n = s.unicode_len();
    let mut v: Vec<char> = Vec::new();
    let mut i: usize = 0;
    while i < n
        invariant
            n == s@.len(),
            i <= n,
            v@ == s@.take(i as int),
        decreases n - i,
    {
        let c = s.get_char(i);
        v.push(c);
        proof {
            assert(v@ =~= s@.take(i + 1 as int));
        }
        i += 1;
    }
    proof {
        assert(s@.take(n as int) =~= s@);
    }
    v
}

/// Element-wise equality of two character vectors.
pub fn char_seq_eq(a: &Vec<char>, b: &Vec<char>) -> (r: bool)
    ensures
        r == (a@ == b@),
{
    if a.len() != b.len() {
        return false;
    }
    let n = a.len();
    let mut i: usize = 0;
    while i < n
        invariant
            n == a@.len(),
            n == b@.len(),
            i <= n,
            forall|k: int| 0 <= k < i ==> a@[k] == b@[k],
        decreases n - i,
    {
        if a[i] != b[i] {
            return false;
        }
        i += 1;
    }
    proof {
        assert(a@ =~= b@);
    }
    true
}

/// Decides `is_lower_char`.
pub fn char_is_lower(c: char) -> (r: bool)
    ensures
        r == is_lower_char(c),
{
    let low = char_to_lower(c);
    let up = char_to_upper(c);
    let own_lower = low.len() == 1 && low[0] == c;
    proof {
        if low@.len() == 1 && low@[0] == c {
            assert(low@ =~= seq![c]);
        }
    }
    let differs = !char_seq_eq(&low, &up);
    own_lower && differs
}

/// Decides `is_upper_char`.
pub fn char_is_upper(c: char) -> (r: bool)
    ensures
        r == is_upper_char(c),
{
    let low = char_to_lower(c);
    let up = char_to_upper(c);
    let own_upper = up.len() == 1 && up[0] == c;
    proof {
        if up@.len() == 1 && up@[0] == c {
            assert(up@ =~= seq![c]);
        }
    }
    let differs = !char_seq_eq(&low, &up);
    own_upper && differs
}

/// Character-wise equality of two strings.
pub fn str_eq(a: &str, b: &str) -> (r: bool)
    ensures
        r == (a@ == b@),
{
    let av = chars_of(a);
    let bv = chars_of(b);
    char_seq_eq(&av, &bv)
}

/// The case-folded form of a character vector.
pub fn fold_chars(v: &Vec<char>) -> (r: Vec<char>)
    ensures
        r@ == fold_lower(v@),
{
    let mut r: Vec<char> = Vec::new();
    let mut i: usize = 0;
    while i < v.len()
        invariant
            i <= v@.len(),
            r@ == fold_lower(v@.take(i as int)),
        decreases v@.len() - i,
    {
        let mut low = char_to_lower(v[i]);
        proof {
            assert(v@.take(i as int).push(v@[i as int]) =~= v@.take(i + 1 as int));
            lemma_fold_lower_push(v@.take(i as int), v@[i as int]);
        }
        r.append(&mut low);
        i += 1;
    }
    proof {
        assert(v@.take(v@.len() as int) =~= v@);
    }
    r
}

} // verus!
