//! Character-class and identifier-shape checks reused by every mutator and by
//! the parser's trust boundary.

use vstd::prelude::*;

use crate::text::{
    chars_of, lemma_normal_form, normal_form, string_of, trim_back, trim_front, trim_spec,
    trim_vec, upper_char, upper_spec, upper_vec,
};

verus! {

/// A character is allowed in a record when its code point lies strictly
/// between 31 and 127: printable ASCII, space included.
pub open spec fn allowed_char(c: char) -> bool {
    31 < (c as u32) && (c as u32) < 127
}

/// Every character of `s` is allowed.
pub open spec fn valid_ident(s: Seq<char>) -> bool {
    forall|i: int| 0 <= i < s.len() ==> allowed_char(s[i])
}

/// What normalizing an identifier yields: the trimmed, upper-cased form when
/// the text is valid and non-blank, nothing otherwise.
pub open spec fn prepare_spec(s: Seq<char>) -> Option<Seq<char>> {
    if valid_ident(s) && trim_spec(s).len() > 0 {
        Some(upper_spec(trim_spec(s)))
    } else {
        None
    }
}

/// Checks if a char is allowed in a record: ASCII graphic or a space.
pub fn check_char(c: char) -> (r: bool)
    ensures
        r == allowed_char(c),
{
    let u = c as u32;
    31 < u && u < 127
}

/// Checks every char of `v` with `check_char`.
pub fn valid_ident_vec(v: &Vec<char>) -> (r: bool)
    ensures
        r == valid_ident(v@),
{
    let mut i: usize = 0;
    while i < v.len()
        invariant
            i <= v@.len(),
            forall|k: int| 0 <= k < i ==> allowed_char(v@[k]),
        decreases v@.len() - i,
    {
        if !check_char(v[i]) {
            return false;
        }
        i = i + 1;
    }
    true
}

/// Checks a string using `check_char`. Returns `true` if the text is valid.
pub fn valid_identifier(text: &str) -> (r: bool)
    ensures
        r == valid_ident(text@),
{
    let v = chars_of(text);
    valid_ident_vec(&v)
}

/// The trimmed, upper-cased form of `v`.
pub fn normalize_vec(v: &Vec<char>) -> (r: Vec<char>)
    ensures
        r@ == upper_spec(trim_spec(v@)),
{
    let t = trim_vec(v);
    upper_vec(&t)
}

/// The trimmed, upper-cased form of `text` when it is valid and non-blank;
/// nothing otherwise.
pub fn prepare_identifier(text: &str) -> (r: Option<String>)
    ensures
        r is Some <==> prepare_spec(text@) is Some,
        r is Some ==> r.unwrap()@ == prepare_spec(text@).unwrap(),
{
    let v = chars_of(text);
    if !valid_ident_vec(&v) {
        return None;
    }
    let t = trim_vec(&v);
    if t.len() == 0 {
        return None;
    }
    let u = upper_vec(&t);
    Some(string_of(&u))
}

/// Whether `v` has any character left after trimming, decided executably.
pub fn trimmed_nonempty_vec(v: &Vec<char>) -> (r: bool)
    ensures
        r == (trim_spec(v@).len() > 0),
{
    let t = trim_vec(v);
    t.len() > 0
}

/// Upper-casing keeps a character allowed.
pub proof fn lemma_upper_allowed(c: char)
    requires
        allowed_char(c),
    ensures
        allowed_char(upper_char(c)),
{
}

proof fn lemma_valid_trim_front(s: Seq<char>)
    requires
        valid_ident(s),
    ensures
        valid_ident(trim_front(s)),
    decreases s.len(),
{
    if s.len() > 0 && crate::text::space_char(s[0]) {
        assert(valid_ident(s.drop_first()));
        lemma_valid_trim_front(s.drop_first());
    }
}

proof fn lemma_valid_trim_back(s: Seq<char>)
    requires
        valid_ident(s),
    ensures
        valid_ident(trim_back(s)),
    decreases s.len(),
{
    if s.len() > 0 && crate::text::space_char(s.last()) {
        assert(valid_ident(s.drop_last()));
        lemma_valid_trim_back(s.drop_last());
    }
}

/// The stored form `upper(trim(s))` is in normal form, and is valid whenever
/// `s` is.
pub proof fn lemma_prepared_normal(s: Seq<char>)
    ensures
        normal_form(upper_spec(trim_spec(s))),
        valid_ident(s) ==> valid_ident(upper_spec(trim_spec(s))),
{
    lemma_normal_form(s);
    if valid_ident(s) {
        lemma_valid_trim_front(s);
        lemma_valid_trim_back(trim_front(s));
        let t = trim_spec(s);
        let n = upper_spec(t);
        assert forall|i: int| 0 <= i < n.len() implies allowed_char(n[i]) by {
            lemma_upper_allowed(t[i]);
        }
    }
}

} // verus!
