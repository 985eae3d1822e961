//! Character-sequence utilities: equality, trimming, splitting and decimal
//! parsing over `Vec<char>`, specified over `Seq<char>`.

use vstd::prelude::*;
use vstd::string::StrSliceExecFns;

verus! {

/// The characters of a string slice, as a vector.
pub fn chars_of(s: &str) -> (r: Vec<char>)
    ensures
        r@ == s@,
{
    let n = s.unicode_len();
    let mut r: Vec<char> = Vec::new();
    let mut i: usize = 0;
    while i < n
        invariant
            i <= n,
            n == s@.len(),
            r@ == s@.take(i as int),
        decreases n - i,
    {
        r.push(s.get_char(i));
        proof {
            assert(s@.take(i + 1 as int) =~= s@.take(i as int).push(s@[i as int]));
        }
        i += 1;
    }
    proof {
        assert(s@.take(n as int) =~= s@);
    }
    r
}

/// Character-wise equality of two character vectors.
pub fn chars_eq(a: &Vec<char>, b: &Vec<char>) -> (r: bool)
    ensures
        r == (a@ == b@),
{
    if a.len() != b.len() {
        assert(a@ !~= b@);
        return false;
    }
    let mut i: usize = 0;
    while i < a.len()
        invariant
            a@.len() == b@.len(),
            i <= a@.len(),
            forall|j: int| 0 <= j < i ==> a@[j] == b@[j],
        decreases a@.len() - i,
    {
        if a[i] != b[i] {
            return false;
        }
        i += 1;
    }
    proof {
        assert(a@ =~= b@);
    }
    true
}

/// Equality of a character vector against a string slice.
pub fn chars_eq_str(a: &Vec<char>, s: &str) -> (r: bool)
    ensures
        r == (a@ == s@),
{
    let n = s.unicode_len();
    if a.len() != n {
        assert(a@ !~= s@);
        return false;
    }
    let mut i: usize = 0;
    while i < n
        invariant
            a@.len() == s@.len(),
            n == s@.len(),
            i <= n,
            forall|j: int| 0 <= j < i ==> a@[j] == s@[j],
        decreases n - i,
    {
        if a[i] != s.get_char(i) {
            return false;
        }
        i += 1;
    }
    proof {
        assert(a@ =~= s@);
    }
    true
}

/// A space character, the only blank that argument text may carry.
pub open spec fn is_space(c: char) -> bool {
    c == ' '
}

/// A decimal digit.
pub open spec fn is_digit(c: char) -> bool {
    48 <= c as u32 <= 57
}

/// The numeric value of a decimal digit.
pub open spec fn digit_val(c: char) -> int {
    c as u32 - 48
}

/// A character that may start an identifier: a letter or an underscore.
pub open spec fn is_ident_start(c: char) -> bool {
    (97 <= c as u32 <= 122) || (65 <= c as u32 <= 90) || c as u32 == 95
}

/// A character that may continue an identifier.
pub open spec fn is_ident_char(c: char) -> bool {
    is_ident_start(c) || is_digit(c)
}

/// A non-empty identifier: a letter or underscore, then letters, digits and
/// underscores.
pub open spec fn is_ident(s: Seq<char>) -> bool {
    &&& s.len() > 0
    &&& is_ident_start(s[0])
    &&& forall|i: int| 0 <= i < s.len() ==> is_ident_char(#[trigger] s[i])
}

/// Decides `is_ident` on a character vector.
pub fn check_ident(s: &Vec<char>) -> (r: bool)
    ensures
        r == is_ident(s@),
{
    if s.len() == 0 {
        return false;
    }
    let c0 = s[0];
    if !((97 <= c0 as u32 && c0 as u32 <= 122) || (65 <= c0 as u32 && c0 as u32 <= 90) || c0
        as u32 == 95) {
        return false;
    }
    let mut i: usize = 0;
    while i < s.len()
        invariant
            i <= s@.len(),
            s@.len() > 0,
            is_ident_start(s@[0]),
            forall|j: int| 0 <= j < i ==> is_ident_char(#[trigger] s@[j]),
        decreases s@.len() - i,
    {
        let c = s[i];
        let u = c as u32;
        if !((97 <= u && u <= 122) || (65 <= u && u <= 90) || u == 95 || (48 <= u && u <= 57)) {
            return false;
        }
        i += 1;
    }
    true
}

/// The sequence without its leading spaces.
pub open spec fn trim_left(s: Seq<char>) -> Seq<char>
    decreases s.len(),
{
    if s.len() > 0 && is_space(s[0]) {
        trim_left(s.drop_first())
    } else {
        s
    }
}

/// The sequence without its trailing spaces.
pub open spec fn trim_right(s: Seq<char>) -> Seq<char>
    decreases s.len(),
{
    if s.len() > 0 && is_space(s.last()) {
        trim_right(s.drop_last())
    } else {
        s
    }
}

/// The sequence without leading or trailing spaces.
pub open spec fn trim(s: Seq<char>) -> Seq<char> {
    trim_right(trim_left(s))
}

proof fn lemma_trim_left_skip(s: Seq<char>, i: int)
    requires
        0 <= i <= s.len(),
        forall|j: int| 0 <= j < i ==> is_space(#[trigger] s[j]),
        i == s.len() || !is_space(s[i]),
    ensures
        trim_left(s) == s.skip(i),
    decreases i,
{
    if i == 0 {
        assert(s.skip(0) =~= s);
    } else {
        lemma_trim_left_skip(s.drop_first(), i - 1);
        assert(s.drop_first().skip(i - 1) =~= s.skip(i));
    }
}

proof fn lemma_trim_right_take(s: Seq<char>, i: int)
    requires
        0 <= i <= s.len(),
        forall|j: int| i <= j < s.len() ==> is_space(#[trigger] s[j]),
        i == 0 || !is_space(s[i - 1]),
    ensures
        trim_right(s) == s.take(i),
    decreases s.len() - i,
{
    if i == s.len() {
        assert(s.take(i) =~= s);
    } else {
        lemma_trim_right_take(s.drop_last(), i);
        assert(s.drop_last().take(i) =~= s.take(i));
    }
}

/// A fresh copy of the vector without leading or trailing spaces.
pub fn trim_chars(s: &Vec<char>) -> (r: Vec<char>)
    ensures
        r@ == trim(s@),
{
    let mut lo: usize = 0;
    while lo < s.len() && s[lo] == ' '
        invariant
            lo <= s@.len(),
            forall|j: int| 0 <= j < lo ==> is_space(#[trigger] s@[j]),
        decreases s@.len() - lo,
    {
        lo += 1;
    }
    proof {
        lemma_trim_left_skip(s@, lo as int);
    }
    if lo == s.len() {
        proof {
            assert(s@.skip(lo as int) =~= Seq::<char>::empty());
        }
        let r: Vec<char> = Vec::new();
        return r;
    }
    let mut hi: usize = s.len();
    while hi > lo && s[hi - 1] == ' '
        invariant
            lo <= hi <= s@.len(),
            forall|j: int| hi <= j < s@.len() ==> is_space(#[trigger] s@[j]),
        decreases hi,
    {
        hi -= 1;
    }
    // lo points at a non-space, so the right scan stopped at some hi > lo
    proof {
        let t = s@.skip(lo as int);
        lemma_trim_right_take(t, hi - lo as int);
        assert(trim(s@) =~= s@.subrange(lo as int, hi as int));
    }
    let mut r: Vec<char> = Vec::new();
    let mut i: usize = lo;
    while i < hi
        invariant
            lo <= i <= hi <= s@.len(),
            r@ == s@.subrange(lo as int, i as int),
        decreases hi - i,
    {
        r.push(s[i]);
        proof {
            assert(s@.subrange(lo as int, i + 1 as int) =~= s@.subrange(lo as int, i as int).push(
                s@[i as int],
            ));
        }
        i += 1;
    }
    r
}

/// The views of a sequence of character vectors.
pub open spec fn views_of(vs: Seq<Vec<char>>) -> Seq<Seq<char>> {
    vs.map_values(|v: Vec<char>| v@)
}

/// The segments of `s` between occurrences of `sep`, in order. There is
/// always at least one segment; a separator at the start, at the end or
/// doubled yields an empty segment.
pub open spec fn split_char(s: Seq<char>, sep: char) -> Seq<Seq<char>>
    decreases s.len(),
{
    if s.len() == 0 {
        seq![Seq::<char>::empty()]
    } else if s[0] == sep {
        seq![Seq::<char>::empty()] + split_char(s.drop_first(), sep)
    } else {
        let rest = split_char(s.drop_first(), sep);
        seq![seq![s[0]] + rest[0]] + rest.skip(1)
    }
}

pub proof fn lemma_split_char_nonempty(s: Seq<char>, sep: char)
    ensures
        split_char(s, sep).len() >= 1,
    decreases s.len(),
{
    if s.len() > 0 {
        lemma_split_char_nonempty(s.drop_first(), sep);
    }
}

/// What remains to be decided about the split while a prefix is already
/// grouped into `done` and a partial segment `cur`.
spec fn split_state(done: Seq<Seq<char>>, cur: Seq<char>, rem: Seq<char>, sep: char) -> Seq<
    Seq<char>,
> {
    let rest = split_char(rem, sep);
    done + seq![cur + rest[0]] + rest.skip(1)
}

/// Splits a character vector on a separator character.
pub fn split_chars(s: &Vec<char>, sep: char) -> (r: Vec<Vec<char>>)
    ensures
        views_of(r@) == split_char(s@, sep),
        r@.len() >= 1,
{
    let mut done: Vec<Vec<char>> = Vec::new();
    let mut cur: Vec<char> = Vec::new();
    let mut i: usize = 0;
    proof {
        lemma_split_char_nonempty(s@, sep);
        assert(s@.skip(0) =~= s@);
        assert(Seq::<char>::empty() + split_char(s@, sep)[0] =~= split_char(s@, sep)[0]);
        assert(split_state(views_of(done@), cur@, s@.skip(0), sep) =~= split_char(s@, sep));
    }
    while i < s.len()
        invariant
            i <= s@.len(),
            split_state(views_of(done@), cur@, s@.skip(i as int), sep) == split_char(s@, sep),
        decreases s@.len() - i,
    {
        let ghost rem = s@.skip(i as int);
        let ghost rem2 = s@.skip(i + 1 as int);
        proof {
            assert(rem.len() > 0 && rem[0] == s@[i as int]);
            assert(rem.drop_first() =~= rem2);
            lemma_split_char_nonempty(rem2, sep);
        }
        let c = s[i];
        if c == sep {
            proof {
                let rest2 = split_char(rem2, sep);
                assert(split_char(rem, sep) == seq![Seq::<char>::empty()] + rest2);
                assert((seq![Seq::<char>::empty()] + rest2)[0] =~= Seq::<char>::empty());
                assert(cur@ + Seq::<char>::empty() =~= cur@);
                assert((seq![Seq::<char>::empty()] + rest2).skip(1) =~= rest2);
                assert(views_of(done@.push(cur)) =~= views_of(done@).push(cur@));
                assert(split_state(views_of(done@.push(cur)), Seq::<char>::empty(), rem2, sep)
                    =~= split_state(views_of(done@), cur@, rem, sep));
            }
            done.push(cur);
            cur = Vec::new();
        } else {
            proof {
                let rest2 = split_char(rem2, sep);
                assert(split_char(rem, sep) == seq![seq![rem[0]] + rest2[0]] + rest2.skip(1));
                assert((seq![seq![rem[0]] + rest2[0]] + rest2.skip(1))[0] == seq![rem[0]]
                    + rest2[0]);
                assert((seq![seq![rem[0]] + rest2[0]] + rest2.skip(1)).skip(1) =~= rest2.skip(1));
                assert(cur@ + (seq![rem[0]] + rest2[0]) =~= cur@.push(rem[0]) + rest2[0]);
                assert(split_state(views_of(done@), cur@.push(rem[0]), rem2, sep) =~= split_state(
                    views_of(done@),
                    cur@,
                    rem,
                    sep,
                ));
            }
            cur.push(c);
        }
        i += 1;
    }
    proof {
        assert(s@.skip(s@.len() as int) =~= Seq::<char>::empty());
        let rest = split_char(Seq::<char>::empty(), sep);
        assert(rest == seq![Seq::<char>::empty()]);
        assert(cur@ + Seq::<char>::empty() =~= cur@);
        assert(rest.skip(1) =~= Seq::<Seq<char>>::empty());
        assert(views_of(done@.push(cur)) =~= views_of(done@).push(cur@));
        assert(views_of(done@).push(cur@) =~= views_of(done@) + seq![cur@ + rest[0]] + rest.skip(
            1,
        ));
    }
    done.push(cur);
    done
}

/// `s` consists of decimal digits only.
pub open spec fn all_digits(s: Seq<char>) -> bool {
    forall|i: int| 0 <= i < s.len() ==> is_digit(#[trigger] s[i])
}

/// The value of a digit string read in base ten.
pub open spec fn dec_val(s: Seq<char>) -> int
    decreases s.len(),
{
    if s.len() == 0 {
        0
    } else {
        dec_val(s.drop_last()) * 10 + digit_val(s.last())
    }
}

/// The non-negative integer denoted by `s`: defined exactly when `s` is a
/// non-empty digit string whose value fits in a `u32`.
pub open spec fn parse_dec(s: Seq<char>) -> Option<u32> {
    if s.len() > 0 && all_digits(s) && dec_val(s) <= u32::MAX {
        Some(dec_val(s) as u32)
    } else {
        None
    }
}

proof fn lemma_dec_val_nonneg(s: Seq<char>)
    requires
        all_digits(s),
    ensures
        dec_val(s) >= 0,
    decreases s.len(),
{
    if s.len() > 0 {
        assert(all_digits(s.drop_last()));
        lemma_dec_val_nonneg(s.drop_last());
    }
}

proof fn lemma_dec_val_prefix(s: Seq<char>, i: int)
    requires
        all_digits(s),
        0 <= i <= s.len(),
    ensures
        dec_val(s.take(i)) <= dec_val(s),
    decreases s.len() - i,
{
    if i == s.len() {
        assert(s.take(i) =~= s);
    } else {
        assert(s.take(i + 1).drop_last() =~= s.take(i));
        assert(all_digits(s.take(i)));
        lemma_dec_val_nonneg(s.take(i));
        assert(dec_val(s.take(i + 1)) == dec_val(s.take(i)) * 10 + digit_val(s[i]));
        lemma_dec_val_prefix(s, i + 1);
    }
}

/// Parses a non-empty decimal digit string into a `u32`.
pub fn parse_u32_chars(s: &Vec<char>) -> (r: Option<u32>)
    ensures
        r == parse_dec(s@),
{
    if s.len() == 0 {
        return None;
    }
    let mut acc: u64 = 0;
    let mut i: usize = 0;
    while i < s.len()
        invariant
            i <= s@.len(),
            all_digits(s@.take(i as int)),
            acc == dec_val(s@.take(i as int)),
            acc <= u32::MAX,
        decreases s@.len() - i,
    {
        let c = s[i];
        let u = c as u32;
        if !(48 <= u && u <= 57) {
            assert(!is_digit(s@[i as int]));
            return None;
        }
        proof {
            assert(s@.take(i + 1).drop_last() =~= s@.take(i as int));
            assert(all_digits(s@.take(i + 1)));
        }
        acc = acc * 10 + (u - 48) as u64;
        i += 1;
        if acc > u32::MAX as u64 {
            proof {
                if all_digits(s@) {
                    lemma_dec_val_prefix(s@, i as int);
                }
            }
            return None;
        }
    }
    proof {
        assert(s@.take(s@.len() as int) =~= s@);
    }
    Some(acc as u32)
}

} // verus!
