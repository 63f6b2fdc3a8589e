//! Character-sequence primitives shared by the decoder, the encoder and the
//! entity model: blank classification, trimming, ASCII upper-casing, blank
//! stripping and padding, each as a spec function with a verified executable
//! counterpart.

use vstd::prelude::*;

verus! {

/// The blank characters the format strips and trims: the ASCII whitespace
/// code points.
pub open spec fn space_char(c: char) -> bool {
    c == ' ' || c == '\t' || c == '\n' || c == '\r' || c == '\u{b}' || c == '\u{c}'
}

/// `n` spaces.
pub open spec fn spaces(n: nat) -> Seq<char> {
    Seq::new(n, |i: int| ' ')
}

/// `s` with every blank character removed, wherever it stands.
pub open spec fn strip_spaces(s: Seq<char>) -> Seq<char>
    decreases s.len(),
{
    if s.len() == 0 {
        Seq::empty()
    } else if space_char(s[0]) {
        strip_spaces(s.drop_first())
    } else {
        seq![s[0]] + strip_spaces(s.drop_first())
    }
}

/// `s` without its leading blanks.
pub open spec fn trim_front(s: Seq<char>) -> Seq<char>
    decreases s.len(),
{
    if s.len() > 0 && space_char(s[0]) {
        trim_front(s.drop_first())
    } else {
        s
    }
}

/// `s` without its trailing blanks.
pub open spec fn trim_back(s: Seq<char>) -> Seq<char>
    decreases s.len(),
{
    if s.len() > 0 && space_char(s.last()) {
        trim_back(s.drop_last())
    } else {
        s
    }
}

/// `s` without leading and trailing blanks.
pub open spec fn trim_spec(s: Seq<char>) -> Seq<char> {
    trim_back(trim_front(s))
}

/// Neither end of `s` is blank.
pub open spec fn trimmed(s: Seq<char>) -> bool {
    (s.len() == 0 || !space_char(s[0])) && (s.len() == 0 || !space_char(s.last()))
}

/// The ASCII upper-case image of one character; anything but `a`..`z` is kept.
pub open spec fn upper_char(c: char) -> char {
    if 97 <= (c as u32) && (c as u32) <= 122 {
        ((c as u32 - 32) as u8) as char
    } else {
        c
    }
}

/// The ASCII upper-case image of `s`.
pub open spec fn upper_spec(s: Seq<char>) -> Seq<char> {
    Seq::new(s.len(), |i: int| upper_char(s[i]))
}

/// `s` right-justified in a field of `w` characters; a longer `s` is kept whole.
pub open spec fn pad_left_spec(s: Seq<char>, w: nat) -> Seq<char> {
    if s.len() < w {
        spaces((w - s.len()) as nat) + s
    } else {
        s
    }
}

/// `s` left-justified in a field of `w` characters; a longer `s` is kept whole.
pub open spec fn pad_right_spec(s: Seq<char>, w: nat) -> Seq<char> {
    if s.len() < w {
        s + spaces((w - s.len()) as nat)
    } else {
        s
    }
}

/// `s` centered in a field of `w` characters, the odd blank going right.
pub open spec fn center_spec(s: Seq<char>, w: nat) -> Seq<char> {
    if s.len() < w {
        let left = ((w - s.len()) / 2) as nat;
        spaces(left) + s + spaces((w - s.len() - left) as nat)
    } else {
        s
    }
}

/// Whether `c` is blank, decided executably.
pub fn is_space_char(c: char) -> (r: bool)
    ensures
        r == space_char(c),
{
    c == ' ' || c == '\t' || c == '\n' || c == '\r' || c == '\u{b}' || c == '\u{c}'
}

/// The characters of `s`, in order, as a vector.
pub fn chars_of(s: &str) -> (r: Vec<char>)
    ensures
        r@ == s@,
{
    let n = s.unicode_len();
    let mut r: Vec<char> = Vec::new();
    let mut i: usize = 0;
    while i < n
        invariant
            n == s@.len(),
            i <= n,
            r@ == s@.take(i as int),
        decreases n - i,
    {
        r.push(s.get_char(i));
        i = i + 1;
        proof {
            assert(r@ =~= s@.take(i as int));
        }
    }
    proof {
        assert(s@.take(n as int) =~= s@);
    }
    r
}

/// Relies on `FromIterator<char> for String`: collecting chars yields the
/// string of exactly those chars in order.
#[verifier::external_body]
pub fn string_of(v: &Vec<char>) -> (r: String)
    ensures
        r@ == v@,
{
    v.iter().collect()
}

/// The characters of `v` at positions `a..b`.
pub fn subvec(v: &Vec<char>, a: usize, b: usize) -> (r: Vec<char>)
    requires
        a <= b <= v@.len(),
    ensures
        r@ == v@.subrange(a as int, b as int),
{
    let mut r: Vec<char> = Vec::new();
    let mut i: usize = a;
    while i < b
        invariant
            a <= i <= b <= v@.len(),
            r@ == v@.subrange(a as int, i as int),
        decreases b - i,
    {
        r.push(v[i]);
        i = i + 1;
        proof {
            assert(r@ =~= v@.subrange(a as int, i as int));
        }
    }
    r
}

/// Appends every character of `s` to `out`.
pub fn push_all(out: &mut Vec<char>, s: &Vec<char>)
    ensures
        final(out)@ == old(out)@ + s@,
{
    let mut i: usize = 0;
    while i < s.len()
        invariant
            i <= s@.len(),
            out@ == old(out)@ + s@.take(i as int),
        decreases s@.len() - i,
    {
        out.push(s[i]);
        i = i + 1;
        proof {
            assert(out@ =~= old(out)@ + s@.take(i as int));
        }
    }
    proof {
        assert(old(out)@ + s@.take(s@.len() as int) =~= old(out)@ + s@);
    }
}

/// Appends `n` spaces to `out`.
pub fn push_spaces(out: &mut Vec<char>, n: usize)
    ensures
        final(out)@ == old(out)@ + spaces(n as nat),
{
    let mut i: usize = 0;
    while i < n
        invariant
            i <= n,
            out@ == old(out)@ + spaces(i as nat),
        decreases n - i,
    {
        out.push(' ');
        i = i + 1;
        proof {
            assert(out@ =~= old(out)@ + spaces(i as nat));
        }
    }
}

/// The ASCII upper-case image of one character, decided executably.
pub fn to_upper_char(c: char) -> (r: char)
    ensures
        r == upper_char(c),
{
    let u = c as u32;
    if 97 <= u && u <= 122 {
        ((u - 32) as u8) as char
    } else {
        c
    }
}

/// The ASCII upper-case image of `v`.
pub fn upper_vec(v: &Vec<char>) -> (r: Vec<char>)
    ensures
        r@ == upper_spec(v@),
{
    let mut r: Vec<char> = Vec::new();
    let mut i: usize = 0;
    while i < v.len()
        invariant
            i <= v@.len(),
            r@ == upper_spec(v@).take(i as int),
        decreases v@.len() - i,
    {
        r.push(to_upper_char(v[i]));
        i = i + 1;
        proof {
            assert(r@ =~= upper_spec(v@).take(i as int));
        }
    }
    proof {
        assert(upper_spec(v@).take(v@.len() as int) =~= upper_spec(v@));
    }
    r
}

/// `v` with every blank character removed.
pub fn strip_vec(v: &Vec<char>) -> (r: Vec<char>)
    ensures
        r@ == strip_spaces(v@),
{
    let mut r: Vec<char> = Vec::new();
    let mut i: usize = 0;
    while i < v.len()
        invariant
            i <= v@.len(),
            r@ == strip_spaces(v@.take(i as int)),
        decreases v@.len() - i,
    {
        proof {
            lemma_strip_take_step(v@, i as int);
        }
        if !is_space_char(v[i]) {
            r.push(v[i]);
        }
        i = i + 1;
    }
    proof {
        assert(v@.take(v@.len() as int) =~= v@);
    }
    r
}

/// `v` without leading and trailing blanks.
pub fn trim_vec(v: &Vec<char>) -> (r: Vec<char>)
    ensures
        r@ == trim_spec(v@),
{
    let mut a: usize = 0;
    while a < v.len() && is_space_char(v[a])
        invariant
            a <= v@.len(),
            forall|k: int| 0 <= k < a ==> space_char(v@[k]),
        decreases v@.len() - a,
    {
        a = a + 1;
    }
    if a == v.len() {
        proof {
            lemma_trim_front_all_space(v@);
        }
        Vec::new()
    } else {
        let mut b: usize = v.len();
        while b > a + 1 && is_space_char(v[b - 1])
            invariant
                a < b <= v@.len(),
                !space_char(v@[a as int]),
                forall|k: int| 0 <= k < a ==> space_char(v@[k]),
                forall|k: int| b <= k < v@.len() ==> space_char(v@[k]),
            decreases b,
        {
            b = b - 1;
        }
        if is_space_char(v[b - 1]) {
            // only possible when b == a + 1 and v[a] is blank: contradiction
            proof {
                assert(false);
            }
        }
        proof {
            lemma_trim_of_bounds(v@, a as int, b as int);
        }
        subvec(v, a, b)
    }
}

/// `v` without its trailing blanks.
pub fn trim_end_vec(v: &Vec<char>) -> (r: Vec<char>)
    ensures
        r@ == trim_back(v@),
{
    let mut b: usize = v.len();
    while b > 0 && is_space_char(v[b - 1])
        invariant
            b <= v@.len(),
            forall|k: int| b <= k < v@.len() ==> space_char(v@[k]),
        decreases b,
    {
        b = b - 1;
    }
    proof {
        lemma_trim_back_spaces(v@.take(b as int), v@.skip(b as int));
        assert(v@.take(b as int) + v@.skip(b as int) =~= v@);
        assert(v@.subrange(0, b as int) =~= v@.take(b as int));
        if b > 0 {
            assert(!space_char(v@.take(b as int).last()));
        }
    }
    subvec(v, 0, b)
}

/// Stripping distributes over concatenation.
pub proof fn lemma_strip_concat(a: Seq<char>, b: Seq<char>)
    ensures
        strip_spaces(a + b) == strip_spaces(a) + strip_spaces(b),
    decreases a.len(),
{
    if a.len() == 0 {
        assert(a + b =~= b);
        assert(strip_spaces(a) + strip_spaces(b) =~= strip_spaces(b));
    } else {
        assert((a + b).drop_first() =~= a.drop_first() + b);
        lemma_strip_concat(a.drop_first(), b);
        if !space_char(a[0]) {
            assert(seq![a[0]] + (strip_spaces(a.drop_first()) + strip_spaces(b)) =~= (seq![a[0]]
                + strip_spaces(a.drop_first())) + strip_spaces(b));
        }
    }
}

/// A sequence of blanks strips to nothing.
pub proof fn lemma_strip_all_space(s: Seq<char>)
    requires
        forall|i: int| 0 <= i < s.len() ==> space_char(s[i]),
    ensures
        strip_spaces(s) == Seq::<char>::empty(),
    decreases s.len(),
{
    if s.len() > 0 {
        lemma_strip_all_space(s.drop_first());
    }
}

/// A sequence without blanks strips to itself.
pub proof fn lemma_strip_no_space(s: Seq<char>)
    requires
        forall|i: int| 0 <= i < s.len() ==> !space_char(s[i]),
    ensures
        strip_spaces(s) == s,
    decreases s.len(),
{
    if s.len() > 0 {
        lemma_strip_no_space(s.drop_first());
        assert(seq![s[0]] + s.drop_first() =~= s);
    }
}

proof fn lemma_strip_take_step(s: Seq<char>, i: int)
    requires
        0 <= i < s.len(),
    ensures
        !space_char(s[i]) ==> strip_spaces(s.take(i + 1)) == strip_spaces(s.take(i)).push(s[i]),
        space_char(s[i]) ==> strip_spaces(s.take(i + 1)) == strip_spaces(s.take(i)),
{
    assert(s.take(i + 1) =~= s.take(i) + seq![s[i]]);
    lemma_strip_concat(s.take(i), seq![s[i]]);
    assert(seq![s[i]].drop_first() =~= Seq::<char>::empty());
    assert(strip_spaces(Seq::<char>::empty()) =~= Seq::<char>::empty());
    if space_char(s[i]) {
        assert(strip_spaces(seq![s[i]]) =~= Seq::<char>::empty());
        assert(strip_spaces(s.take(i)) + Seq::<char>::empty() =~= strip_spaces(s.take(i)));
    } else {
        assert(strip_spaces(seq![s[i]]) =~= seq![s[i]]);
        assert(strip_spaces(s.take(i)) + seq![s[i]] =~= strip_spaces(s.take(i)).push(s[i]));
    }
}

/// Leading blanks fall to `trim_front`.
pub proof fn lemma_trim_front_spaces(p: Seq<char>, s: Seq<char>)
    requires
        forall|i: int| 0 <= i < p.len() ==> space_char(p[i]),
    ensures
        trim_front(p + s) == trim_front(s),
    decreases p.len(),
{
    if p.len() == 0 {
        assert(p + s =~= s);
    } else {
        assert((p + s).drop_first() =~= p.drop_first() + s);
        lemma_trim_front_spaces(p.drop_first(), s);
    }
}

/// Trailing blanks fall to `trim_back`.
pub proof fn lemma_trim_back_spaces(s: Seq<char>, p: Seq<char>)
    requires
        forall|i: int| 0 <= i < p.len() ==> space_char(p[i]),
    ensures
        trim_back(s + p) == trim_back(s),
    decreases p.len(),
{
    if p.len() == 0 {
        assert(s + p =~= s);
    } else {
        assert((s + p).drop_last() =~= s + p.drop_last());
        assert((s + p).last() == p.last());
        lemma_trim_back_spaces(s, p.drop_last());
    }
}

proof fn lemma_trim_front_all_space(s: Seq<char>)
    requires
        forall|i: int| 0 <= i < s.len() ==> space_char(s[i]),
    ensures
        trim_spec(s) == Seq::<char>::empty(),
    decreases s.len(),
{
    if s.len() > 0 {
        lemma_trim_front_all_space(s.drop_first());
    }
}

proof fn lemma_trim_of_bounds(s: Seq<char>, a: int, b: int)
    requires
        0 <= a < b <= s.len(),
        forall|k: int| 0 <= k < a ==> space_char(s[k]),
        forall|k: int| b <= k < s.len() ==> space_char(s[k]),
        !space_char(s[a]),
        !space_char(s[b - 1]),
    ensures
        trim_spec(s) == s.subrange(a, b),
{
    let p = s.take(a);
    let mid = s.subrange(a, b);
    let q = s.skip(b);
    assert(s =~= p + (mid + q));
    lemma_trim_front_spaces(p, mid + q);
    assert(trim_front(mid + q) == mid + q);
    lemma_trim_back_spaces(mid, q);
    assert(trim_back(mid) == mid);
}

/// Trimming what is padded with blanks on both sides recovers the trimmed core.
pub proof fn lemma_trim_padded(p: Seq<char>, s: Seq<char>, q: Seq<char>)
    requires
        forall|i: int| 0 <= i < p.len() ==> space_char(p[i]),
        forall|i: int| 0 <= i < q.len() ==> space_char(q[i]),
        trimmed(s),
    ensures
        trim_spec(p + s + q) == s,
{
    if s.len() == 0 {
        assert(p + s + q =~= p + q);
        assert(forall|i: int|
            0 <= i < (p + q).len() ==> space_char(
                (p + q)[i],
            ));
        lemma_trim_front_all_space(p + q);
        assert(s =~= Seq::<char>::empty());
    } else {
        assert(p + s + q =~= p + (s + q));
        lemma_trim_front_spaces(p, s + q);
        assert((s + q)[0] == s[0]);
        assert(trim_front(s + q) == s + q);
        lemma_trim_back_spaces(s, q);
        assert(trim_back(s) == s);
    }
}

/// Upper-casing keeps blanks blank and non-blanks non-blank.
pub proof fn lemma_upper_preserves_space(c: char)
    ensures
        space_char(upper_char(c)) == space_char(c),
{
}

/// Upper-casing twice is upper-casing once.
pub proof fn lemma_upper_idempotent(s: Seq<char>)
    ensures
        upper_spec(upper_spec(s)) == upper_spec(s),
{
    assert(upper_spec(upper_spec(s)) =~= upper_spec(s));
}

/// Upper-casing commutes with trimming.
pub proof fn lemma_upper_trim_commute(s: Seq<char>)
    ensures
        trim_spec(upper_spec(s)) == upper_spec(trim_spec(s)),
{
    lemma_upper_trim_front(s);
    lemma_upper_trim_back(trim_front(s));
}

proof fn lemma_upper_trim_front(s: Seq<char>)
    ensures
        trim_front(upper_spec(s)) == upper_spec(trim_front(s)),
    decreases s.len(),
{
    if s.len() > 0 && space_char(s[0]) {
        assert(upper_spec(s)[0] == upper_char(s[0]));
        assert(upper_spec(s).drop_first() =~= upper_spec(s.drop_first()));
        lemma_upper_trim_front(s.drop_first());
    } else if s.len() > 0 {
        assert(!space_char(upper_spec(s)[0]));
    }
}

proof fn lemma_upper_trim_back(s: Seq<char>)
    ensures
        trim_back(upper_spec(s)) == upper_spec(trim_back(s)),
    decreases s.len(),
{
    if s.len() > 0 && space_char(s.last()) {
        assert(upper_spec(s).last() == upper_char(s.last()));
        assert(upper_spec(s).drop_last() =~= upper_spec(s.drop_last()));
        lemma_upper_trim_back(s.drop_last());
    } else if s.len() > 0 {
        assert(!space_char(upper_spec(s).last()));
    }
}

/// The trim of any sequence is trimmed.
pub proof fn lemma_trim_trimmed(s: Seq<char>)
    ensures
        trimmed(trim_spec(s)),
        trimmed(s) ==> trim_spec(s) == s,
{
    lemma_trim_front_front_ok(s);
    lemma_trim_back_back_ok(trim_front(s));
    lemma_trim_back_keeps_front(trim_front(s));
}

proof fn lemma_trim_front_front_ok(s: Seq<char>)
    ensures
        trim_front(s).len() > 0 ==> !space_char(trim_front(s)[0]),
        trim_front(s).len() > 0 ==> trim_front(s).last() == s.last() && s.len() > 0,
    decreases s.len(),
{
    if s.len() > 0 && space_char(s[0]) {
        lemma_trim_front_front_ok(s.drop_first());
    }
}

proof fn lemma_trim_back_back_ok(s: Seq<char>)
    ensures
        trim_back(s).len() > 0 ==> !space_char(trim_back(s).last()),
    decreases s.len(),
{
    if s.len() > 0 && space_char(s.last()) {
        lemma_trim_back_back_ok(s.drop_last());
    }
}

proof fn lemma_trim_back_keeps_front(s: Seq<char>)
    ensures
        trim_back(s).len() > 0 ==> trim_back(s)[0] == s[0] && s.len() > 0,
    decreases s.len(),
{
    if s.len() > 0 && space_char(s.last()) {
        lemma_trim_back_keeps_front(s.drop_last());
    }
}

/// `s` is its own trimmed, upper-cased form: what the entity model stores.
pub open spec fn normal_form(s: Seq<char>) -> bool {
    s == upper_spec(trim_spec(s))
}

/// The normal form `upper(trim(s))` is a fixed point of both operations.
pub proof fn lemma_normal_form(s: Seq<char>)
    ensures
        upper_spec(trim_spec(upper_spec(trim_spec(s)))) == upper_spec(trim_spec(s)),
        trimmed(upper_spec(trim_spec(s))),
{
    let t = trim_spec(s);
    let n = upper_spec(t);
    lemma_trim_trimmed(s);
    assert(trimmed(t));
    assert forall|i: int| 0 <= i < n.len() implies space_char(n[i]) == space_char(t[i]) by {
        lemma_upper_preserves_space(t[i]);
    }
    assert(trimmed(n));
    lemma_trim_trimmed(n);
    assert(trim_spec(n) == n);
    lemma_upper_idempotent(t);
}

} // verus!
