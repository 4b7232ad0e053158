//! Character-sequence utilities that the template engine is specified with:
//! white-space trimming, substring search, splitting on a separator, and the
//! textual forms of indices and decimal numbers.

use vstd::prelude::*;

verus! {

use vstd::string::StrSliceExecFns;

// ---------- character classes ----------

/// The Unicode white-space characters (the set `str::trim` removes).
pub open spec fn is_space_char(c: char) -> bool {
    (c as u32) == 0x9 || (c as u32) == 0xa || (c as u32) == 0xb || (c as u32) == 0xc
        || (c as u32) == 0xd || (c as u32) == 0x20 || (c as u32) == 0x85 || (c as u32) == 0xa0
        || (c as u32) == 0x1680 || (0x2000 <= (c as u32) && (c as u32) <= 0x200a)
        || (c as u32) == 0x2028 || (c as u32) == 0x2029 || (c as u32) == 0x202f
        || (c as u32) == 0x205f || (c as u32) == 0x3000
}

pub fn is_space(c: char) -> (r: bool)
    ensures
        r == is_space_char(c),
{
    let u = c as u32;
    u == 0x9 || u == 0xa || u == 0xb || u == 0xc || u == 0xd || u == 0x20 || u == 0x85
        || u == 0xa0 || u == 0x1680 || (0x2000 <= u && u <= 0x200a) || u == 0x2028 || u == 0x2029
        || u == 0x202f || u == 0x205f || u == 0x3000
}

pub open spec fn is_digit_char(c: char) -> bool {
    '0' as u32 <= c as u32 && c as u32 <= '9' as u32
}

pub fn is_digit(c: char) -> (r: bool)
    ensures
        r == is_digit_char(c),
{
    let u = c as u32;
    '0' as u32 <= u && u <= '9' as u32
}

/// The numeric value of a decimal digit character.
pub open spec fn digit_val(c: char) -> nat {
    (c as u32 - '0' as u32) as nat
}

// ---------- conversions between `str` and `Vec<char>` ----------

pub fn str_to_chars(s: &str) -> (r: Vec<char>)
    ensures
        r@ == s@,
{
    let n = s.unicode_len();
    let mut r: Vec<char> = Vec::new();
    let mut i: usize = 0;
    while i < n
        invariant
            n == s@.len(),
            i <= n,
            r@ == s@.subrange(0, i as int),
        decreases n - i,
    {
        r.push(s.get_char(i));
        i = i + 1;
        proof {
            assert(r@ =~= s@.subrange(0, i as int));
        }
    }
    proof {
        assert(r@ =~= s@);
    }
    r
}

/// Relies on `String: FromIterator<char>`: collecting characters in order
/// yields the string that consists of exactly those characters.
#[verifier::external_body]
pub fn chars_to_string(v: &Vec<char>) -> (r: String)
    ensures
        r@ == v@,
{
    v.iter().collect()
}

/// Whether a string and a character vector hold the same characters.
#[verifier::loop_isolation(false)]
pub fn str_eq_chars(s: &str, t: &Vec<char>) -> (r: bool)
    ensures
        r == (s@ == t@),
{
    let n = s.unicode_len();
    if n != t.len() {
        proof {
            assert(s@ != t@);
        }
        return false;
    }
    let mut i: usize = 0;
    while i < n
        invariant
            i <= n,
            forall|k: int| 0 <= k < i ==> s@[k] == t@[k],
        decreases n - i,
    {
        if s.get_char(i) != t[i] {
            return false;
        }
        i = i + 1;
    }
    proof {
        assert(s@ =~= t@);
    }
    true
}

/// Appends the characters of `piece` to `acc`.
#[verifier::loop_isolation(false)]
pub fn append_chars(acc: &mut Vec<char>, piece: &Vec<char>)
    ensures
        final(acc)@ == old(acc)@ + piece@,
{
    let mut k: usize = 0;
    proof {
        assert(acc@ =~= old(acc)@ + piece@.subrange(0, 0));
    }
    while k < piece.len()
        invariant
            k <= piece@.len(),
            acc@ == old(acc)@ + piece@.subrange(0, k as int),
        decreases piece@.len() - k,
    {
        acc.push(piece[k]);
        k = k + 1;
        proof {
            assert(acc@ =~= old(acc)@ + piece@.subrange(0, k as int));
        }
    }
    proof {
        assert(piece@.subrange(0, piece@.len() as int) =~= piece@);
    }
}

// ---------- trimming ----------

pub open spec fn trim_start_seq(s: Seq<char>) -> Seq<char>
    decreases s.len(),
{
    if s.len() > 0 && is_space_char(s[0]) {
        trim_start_seq(s.drop_first())
    } else {
        s
    }
}

pub open spec fn trim_end_seq(s: Seq<char>) -> Seq<char>
    decreases s.len(),
{
    if s.len() > 0 && is_space_char(s.last()) {
        trim_end_seq(s.drop_last())
    } else {
        s
    }
}

/// The sequence with white space removed from both ends, as `str::trim`.
pub open spec fn trim_seq(s: Seq<char>) -> Seq<char> {
    trim_end_seq(trim_start_seq(s))
}

pub fn trim_chars(s: &Vec<char>) -> (r: Vec<char>)
    ensures
        r@ == trim_seq(s@),
{
    proof {
        assert(s@.subrange(0, s@.len() as int) =~= s@);
    }
    let mut i: usize = 0;
    while i < s.len() && is_space(s[i])
        invariant
            i <= s.len(),
            trim_start_seq(s@) == trim_start_seq(s@.subrange(i as int, s@.len() as int)),
        decreases s.len() - i,
    {
        proof {
            let t = s@.subrange(i as int, s@.len() as int);
            assert(t.drop_first() =~= s@.subrange(i as int + 1, s@.len() as int));
        }
        i = i + 1;
    }
    proof {
        let t = s@.subrange(i as int, s@.len() as int);
        assert(trim_start_seq(t) == t);
    }
    let mut j: usize = s.len();
    while j > i && is_space(s[j - 1])
        invariant
            i <= j <= s.len(),
            trim_start_seq(s@) == s@.subrange(i as int, s@.len() as int),
            trim_seq(s@) == trim_end_seq(s@.subrange(i as int, j as int)),
        decreases j,
    {
        proof {
            let t = s@.subrange(i as int, j as int);
            assert(t.last() == s@[j - 1]);
            assert(t.drop_last() =~= s@.subrange(i as int, j as int - 1));
        }
        j = j - 1;
    }
    proof {
        let t = s@.subrange(i as int, j as int);
        assert(trim_end_seq(t) == t);
    }
    let mut r: Vec<char> = Vec::new();
    let mut k: usize = i;
    while k < j
        invariant
            i <= k <= j <= s.len(),
            r@ == s@.subrange(i as int, k as int),
        decreases j - k,
    {
        r.push(s[k]);
        k = k + 1;
        proof {
            assert(r@ =~= s@.subrange(i as int, k as int));
        }
    }
    proof {
        assert(r@ =~= s@.subrange(i as int, j as int));
    }
    r
}

// ---------- substring search ----------

/// Whether `pat` occurs in `s` at position `i`.
pub open spec fn match_at(s: Seq<char>, pat: Seq<char>, i: int) -> bool {
    0 <= i && i + pat.len() <= s.len() && s.subrange(i, i + pat.len()) == pat
}

/// The least position `>= from` where `pat` occurs in `s`.
pub open spec fn find_from(s: Seq<char>, pat: Seq<char>, from: int) -> Option<int>
    decreases s.len() + 1 - from,
{
    if from < 0 || from + pat.len() > s.len() {
        None
    } else if s.subrange(from, from + pat.len()) == pat {
        Some(from)
    } else {
        find_from(s, pat, from + 1)
    }
}

pub proof fn lemma_find_from_props(s: Seq<char>, pat: Seq<char>, from: int)
    requires
        0 <= from,
    ensures
        match find_from(s, pat, from) {
            Some(i) => from <= i && match_at(s, pat, i) && forall|j: int|
                from <= j < i ==> !match_at(s, pat, j),
            None => forall|j: int| from <= j ==> !match_at(s, pat, j),
        },
    decreases s.len() + 1 - from,
{
    if from + pat.len() > s.len() {
    } else if s.subrange(from, from + pat.len()) == pat {
    } else {
        lemma_find_from_props(s, pat, from + 1);
    }
}

pub fn chars_match_at(s: &Vec<char>, pat: &Vec<char>, i: usize) -> (b: bool)
    requires
        i + pat@.len() <= s@.len(),
    ensures
        b == (s@.subrange(i as int, i as int + pat@.len() as int) == pat@),
{
    let n = s.len();
    let p = pat.len();
    let mut j: usize = 0;
    while j < p
        invariant
            n == s@.len(),
            p == pat@.len(),
            i + p <= n,
            j <= p,
            forall|k: int| 0 <= k < j ==> s@[i + k] == pat@[k],
        decreases p - j,
    {
        if s[i + j] != pat[j] {
            proof {
                assert(s@.subrange(i as int, i as int + pat@.len() as int)[j as int] == s@[i as int
                    + j as int]);
            }
            return false;
        }
        j = j + 1;
    }
    proof {
        assert(s@.subrange(i as int, i as int + pat@.len() as int) =~= pat@);
    }
    true
}

#[verifier::loop_isolation(false)]
pub fn find_in_chars(s: &Vec<char>, pat: &Vec<char>, from: usize) -> (r: Option<usize>)
    requires
        pat@.len() > 0,
    ensures
        match r {
            Some(i) => find_from(s@, pat@, from as int) == Some(i as int) && from <= i && i
                + pat@.len() <= s@.len(),
            None => find_from(s@, pat@, from as int) is None,
        },
{
    let n = s.len();
    let p = pat.len();
    let mut i: usize = from;
    loop
        invariant
            from <= i,
            n == s@.len(),
            p == pat@.len(),
            find_from(s@, pat@, from as int) == find_from(s@, pat@, i as int),
        decreases n + 1 - i,
    {
        if i > n || p > n - i {
            return None;
        }
        if chars_match_at(s, pat, i) {
            return Some(i);
        }
        proof {
            assert(find_from(s@, pat@, i as int) == find_from(s@, pat@, i as int + 1));
        }
        i = i + 1;
    }
}

// ---------- splitting on a separator character ----------

pub open spec fn find_char_from(s: Seq<char>, c: char, from: int) -> Option<int>
    decreases s.len() - from,
{
    if from < 0 || from >= s.len() {
        None
    } else if s[from] == c {
        Some(from)
    } else {
        find_char_from(s, c, from + 1)
    }
}

pub proof fn lemma_find_char_from_props(s: Seq<char>, c: char, from: int)
    requires
        0 <= from,
    ensures
        match find_char_from(s, c, from) {
            Some(i) => from <= i < s.len() && s[i] == c && forall|j: int|
                from <= j < i ==> s[j] != c,
            None => forall|j: int| from <= j < s.len() ==> s[j] != c,
        },
    decreases s.len() - from,
{
    if from >= s.len() {
    } else if s[from] == c {
    } else {
        lemma_find_char_from_props(s, c, from + 1);
    }
}

#[via_fn]
proof fn split_char_from_decreases(s: Seq<char>, c: char, from: int) {
    if 0 <= from <= s.len() {
        lemma_find_char_from_props(s, c, from);
    }
}

/// The pieces of `s[from..]` between occurrences of `c`, as `str::split`.
pub open spec fn split_char_from(s: Seq<char>, c: char, from: int) -> Seq<Seq<char>>
    decreases s.len() - from,
    via split_char_from_decreases
{
    if from < 0 || from > s.len() {
        Seq::empty()
    } else {
        match find_char_from(s, c, from) {
            Some(i) => seq![s.subrange(from, i)] + split_char_from(s, c, i + 1),
            None => seq![s.subrange(from, s.len() as int)],
        }
    }
}

pub open spec fn split_char(s: Seq<char>, c: char) -> Seq<Seq<char>> {
    split_char_from(s, c, 0)
}

pub fn find_char_in(s: &Vec<char>, c: char, from: usize) -> (r: Option<usize>)
    ensures
        match r {
            Some(i) => find_char_from(s@, c, from as int) == Some(i as int) && from <= i < s@.len(),
            None => find_char_from(s@, c, from as int) is None,
        },
{
    let mut i: usize = from;
    loop
        invariant
            from <= i,
            find_char_from(s@, c, from as int) == find_char_from(s@, c, i as int),
        decreases s@.len() - i,
    {
        if i >= s.len() {
            return None;
        }
        if s[i] == c {
            return Some(i);
        }
        proof {
            assert(find_char_from(s@, c, i as int) == find_char_from(s@, c, i as int + 1));
        }
        i = i + 1;
    }
}

pub fn subrange_chars(s: &Vec<char>, from: usize, to: usize) -> (r: Vec<char>)
    requires
        from <= to <= s@.len(),
    ensures
        r@ == s@.subrange(from as int, to as int),
{
    let mut r: Vec<char> = Vec::new();
    let mut k: usize = from;
    while k < to
        invariant
            from <= k <= to <= s@.len(),
            r@ == s@.subrange(from as int, k as int),
        decreases to - k,
    {
        r.push(s[k]);
        k = k + 1;
        proof {
            assert(r@ =~= s@.subrange(from as int, k as int));
        }
    }
    r
}

pub fn split_chars(s: &Vec<char>, c: char) -> (r: Vec<Vec<char>>)
    ensures
        r@.len() == split_char(s@, c).len(),
        forall|i: int| 0 <= i < r@.len() ==> #[trigger] r@[i]@ == split_char(s@, c)[i],
{
    let ghost whole = split_char(s@, c);
    let n = s.len();
    let mut r: Vec<Vec<char>> = Vec::new();
    let mut from: usize = 0;
    loop
        invariant
            n == s@.len(),
            from <= n,
            whole == split_char(s@, c),
            whole =~= Seq::new(r@.len(), |i: int| r@[i]@) + split_char_from(s@, c, from as int),
        decreases s@.len() - from,
    {
        match find_char_in(s, c, from) {
            Some(i) => {
                let piece = subrange_chars(s, from, i);
                r.push(piece);
                proof {
                    assert(split_char_from(s@, c, from as int) == seq![s@.subrange(
                        from as int,
                        i as int,
                    )] + split_char_from(s@, c, i as int + 1));
                    assert(Seq::new(r@.len(), |k: int| r@[k]@) =~= Seq::new(
                        (r@.len() - 1) as nat,
                        |k: int| r@[k]@,
                    ).push(piece@));
                    assert(whole =~= Seq::new(r@.len(), |k: int| r@[k]@) + split_char_from(
                        s@,
                        c,
                        i as int + 1,
                    ));
                }
                from = i + 1;
            },
            None => {
                let piece = subrange_chars(s, from, s.len());
                r.push(piece);
                proof {
                    assert(split_char_from(s@, c, from as int) == seq![s@.subrange(
                        from as int,
                        s@.len() as int,
                    )]);
                    assert(Seq::new(r@.len(), |k: int| r@[k]@) =~= Seq::new(
                        (r@.len() - 1) as nat,
                        |k: int| r@[k]@,
                    ).push(piece@));
                    assert(whole =~= Seq::new(r@.len(), |k: int| r@[k]@));
                }
                return r;
            },
        }
    }
}

// ---------- the textual form of an array index ----------

/// The value of a sequence of decimal digits.
pub open spec fn digits_val(s: Seq<char>) -> nat
    decreases s.len(),
{
    if s.len() == 0 {
        0
    } else {
        digits_val(s.drop_last()) * 10 + digit_val(s.last())
    }
}

pub open spec fn all_digits(s: Seq<char>) -> bool {
    forall|i: int| 0 <= i < s.len() ==> is_digit_char(#[trigger] s[i])
}

/// The text accepted by `usize::from_str`: an optional `+`, then digits,
/// with a value that fits in `usize`.
pub open spec fn index_digits(s: Seq<char>) -> Seq<char> {
    if s.len() > 0 && s[0] == '+' {
        s.drop_first()
    } else {
        s
    }
}

pub open spec fn parse_index(s: Seq<char>) -> Option<int> {
    let d = index_digits(s);
    if d.len() > 0 && all_digits(d) && digits_val(d) <= usize::MAX {
        Some(digits_val(d) as int)
    } else {
        None
    }
}

proof fn lemma_digits_val_step(s: Seq<char>, i: int)
    requires
        0 <= i < s.len(),
    ensures
        digits_val(s.subrange(0, i + 1)) == digits_val(s.subrange(0, i)) * 10 + digit_val(s[i]),
{
    let t = s.subrange(0, i + 1);
    assert(t.drop_last() =~= s.subrange(0, i));
    assert(t.last() == s[i]);
}

proof fn lemma_digits_val_prefix_le(s: Seq<char>, i: int)
    requires
        0 <= i <= s.len(),
    ensures
        digits_val(s.subrange(0, i)) <= digits_val(s),
    decreases s.len() - i,
{
    if i == s.len() {
        assert(s.subrange(0, i) =~= s);
    } else {
        lemma_digits_val_step(s, i);
        lemma_digits_val_prefix_le(s, i + 1);
    }
}

#[verifier::loop_isolation(false)]
pub fn parse_index_chars(s: &Vec<char>) -> (r: Option<usize>)
    ensures
        match r {
            Some(v) => parse_index(s@) == Some(v as int),
            None => parse_index(s@) is None,
        },
{
    let start: usize = if s.len() > 0 && s[0] == '+' {
        1
    } else {
        0
    };
    proof {
        assert(index_digits(s@) =~= s@.subrange(start as int, s@.len() as int));
    }
    let ghost d = index_digits(s@);
    if s.len() == start {
        return None;
    }
    let mut acc: usize = 0;
    let mut k: usize = start;
    while k < s.len()
        invariant
            start <= k <= s@.len(),
            d == s@.subrange(start as int, s@.len() as int),
            d.len() > 0,
            acc == digits_val(s@.subrange(start as int, k as int)),
            all_digits(s@.subrange(start as int, k as int)),
        decreases s@.len() - k,
    {
        let c = s[k];
        if !is_digit(c) {
            proof {
                assert(d[k - start] == s@[k as int]);
                assert(!all_digits(d));
                assert(parse_index(s@) is None);
            }
            return None;
        }
        let dv = (c as u32 - '0' as u32) as usize;
        proof {
            assert(dv == digit_val(c));
        }
        if acc > (usize::MAX - dv) / 10 {
            proof {
                assert(d[k - start] == s@[k as int]);
                lemma_digits_val_step(d, k - start);
                assert(d.subrange(0, k - start) =~= s@.subrange(start as int, k as int));
                assert(digits_val(d.subrange(0, k - start + 1)) > usize::MAX) by {
                    assert(digits_val(d.subrange(0, k - start + 1)) == acc * 10 + dv);
                    assert(acc * 10 + dv > usize::MAX) by (nonlinear_arith)
                        requires
                            acc > (usize::MAX - dv) / 10,
                            dv <= usize::MAX,
                    ;
                };
                lemma_digits_val_prefix_le(d, k - start + 1);
                assert(parse_index(s@) is None);
            }
            return None;
        }
        proof {
            assert(acc * 10 + dv <= usize::MAX) by (nonlinear_arith)
                requires
                    acc <= (usize::MAX - dv) / 10,
                    dv <= usize::MAX,
            ;
            lemma_digits_val_step(s@.subrange(start as int, s@.len() as int), k - start);
            assert(s@.subrange(start as int, s@.len() as int).subrange(0, k - start) =~= s@
                .subrange(start as int, k as int));
            assert(s@.subrange(start as int, s@.len() as int).subrange(0, k - start + 1) =~= s@
                .subrange(start as int, k as int + 1));
            assert(s@.subrange(start as int, s@.len() as int)[k - start] == s@[k as int]);
        }
        acc = acc * 10 + dv;
        k = k + 1;
        proof {
            assert(forall|j: int|
                0 <= j < k - start ==> is_digit_char(
                    #[trigger] s@.subrange(start as int, k as int)[j],
                ));
        }
    }
    proof {
        assert(s@.subrange(start as int, k as int) =~= d);
    }
    Some(acc)
}

// ---------- the textual form of a decimal floating-point number ----------

/// A non-empty run of decimal digits.
pub open spec fn is_digits(s: Seq<char>) -> bool {
    s.len() > 0 && all_digits(s)
}

pub open spec fn strip_sign(s: Seq<char>) -> Seq<char> {
    if s.len() > 0 && (s[0] == '+' || s[0] == '-') {
        s.drop_first()
    } else {
        s
    }
}

/// Where the mantissa ends: at the first `e`, else at the first `E`, else at
/// the end of the text.
pub open spec fn mant_end_of(t: Seq<char>) -> int {
    match find_char_from(t, 'e', 0) {
        Some(i) => i,
        None => match find_char_from(t, 'E', 0) {
            Some(i) => i,
            None => t.len() as int,
        },
    }
}

/// Where the mantissa's integer part ends: at the first `.`, else at its end.
pub open spec fn int_end_of(m: Seq<char>) -> int {
    match find_char_from(m, '.', 0) {
        Some(i) => i,
        None => m.len() as int,
    }
}

/// The mantissa's fractional digits (empty without a decimal point).
pub open spec fn frac_of(m: Seq<char>) -> Seq<char> {
    if int_end_of(m) < m.len() {
        m.subrange(int_end_of(m) + 1, m.len() as int)
    } else {
        Seq::empty()
    }
}

/// The mantissa of a decimal floating-point text: digits with at most one
/// decimal point and at least one digit on one of its sides.
pub open spec fn is_loose_mantissa(m: Seq<char>) -> bool {
    let ie = int_end_of(m);
    if ie == m.len() {
        is_digits(m)
    } else {
        let a = m.subrange(0, ie);
        let f = frac_of(m);
        (a.len() == 0 || is_digits(a)) && (f.len() == 0 || is_digits(f)) && (a.len() > 0
            || f.len() > 0)
    }
}

pub open spec fn is_exponent(s: Seq<char>) -> bool {
    is_digits(strip_sign(s))
}

/// The texts that parse as a decimal floating-point number: an optional
/// sign, a mantissa, and an optional decimal exponent.  The non-finite words
/// such as `inf` and `nan` are not decimal texts; whether the value fits a
/// finite double is `overflows_f64` below.
pub open spec fn is_decimal_float(s: Seq<char>) -> bool {
    let t = strip_sign(s);
    let me = mant_end_of(t);
    is_loose_mantissa(t.subrange(0, me)) && (me == t.len() || is_exponent(
        t.subrange(me + 1, t.len() as int),
    ))
}

// ---------- the normal form of a decimal text ----------

/// Leading zeros dropped.
pub open spec fn strip_zeros(d: Seq<char>) -> Seq<char>
    decreases d.len(),
{
    if d.len() > 0 && d[0] == '0' {
        strip_zeros(d.drop_first())
    } else {
        d
    }
}

/// An integer part brought to JSON form: leading zeros dropped, an empty or
/// all-zero part becoming the single digit `0`.
pub open spec fn norm_int(d: Seq<char>) -> Seq<char> {
    if strip_zeros(d).len() == 0 {
        seq!['0']
    } else {
        strip_zeros(d)
    }
}

/// A mantissa brought to JSON form: normalized integer part, the decimal
/// point kept only when fractional digits follow it.
pub open spec fn norm_mantissa(m: Seq<char>) -> Seq<char> {
    let ie = int_end_of(m);
    let f = frac_of(m);
    if f.len() == 0 {
        norm_int(m.subrange(0, ie))
    } else {
        norm_int(m.subrange(0, ie)) + seq!['.'] + f
    }
}

/// A decimal floating-point text brought to JSON-number form: the sign kept
/// only when negative, the mantissa normalized, the exponent kept as
/// written.  The value it denotes is unchanged.
pub open spec fn normalize_decimal(s: Seq<char>) -> Seq<char> {
    let neg = s.len() > 0 && s[0] == '-';
    let t = strip_sign(s);
    let me = mant_end_of(t);
    let core = norm_mantissa(t.subrange(0, me)) + t.subrange(me, t.len() as int);
    if neg {
        seq!['-'] + core
    } else {
        core
    }
}

// ---------- whether the value fits a finite double ----------

/// The signed value of the exponent text (zero without one).
pub open spec fn exp_value_of(t: Seq<char>) -> int {
    let me = mant_end_of(t);
    if me >= t.len() {
        0
    } else {
        let x = t.subrange(me + 1, t.len() as int);
        if x.len() > 0 && x[0] == '-' {
            -(digits_val(x.drop_first()) as int)
        } else {
            digits_val(strip_sign(x)) as int
        }
    }
}

/// The significant digits of the text: integer and fractional digits joined,
/// leading zeros dropped.
pub open spec fn sig_digits_of(s: Seq<char>) -> Seq<char> {
    let t = strip_sign(s);
    let m = t.subrange(0, mant_end_of(t));
    strip_zeros(m.subrange(0, int_end_of(m)) + frac_of(m))
}

/// The power of ten of the leading significant digit.
pub open spec fn sci_exp_of(s: Seq<char>) -> int {
    let t = strip_sign(s);
    let m = t.subrange(0, mant_end_of(t));
    sig_digits_of(s).len() - 1 + exp_value_of(t) - frac_of(m).len()
}

/// Digit strings compared as decimal fractions aligned at their first digit,
/// the shorter one read as if zero-extended: whether `a >= b`.
pub open spec fn ge_padded(a: Seq<char>, b: Seq<char>) -> bool
    decreases a.len() + b.len(),
{
    if a.len() == 0 && b.len() == 0 {
        true
    } else {
        let ca = if a.len() > 0 {
            a[0]
        } else {
            '0'
        };
        let cb = if b.len() > 0 {
            b[0]
        } else {
            '0'
        };
        if ca == cb {
            ge_padded(
                if a.len() > 0 {
                    a.drop_first()
                } else {
                    a
                },
                if b.len() > 0 {
                    b.drop_first()
                } else {
                    b
                },
            )
        } else {
            ca as u32 > cb as u32
        }
    }
}

/// The decimal digits of the least magnitude that rounds up to infinity in a
/// double: the midpoint between the largest finite double and the next power
/// of two, which is the 309-digit integer 2^1024 - 2^970.
pub open spec fn f64_overflow_digits() -> Seq<char> {
    "179769313486231580793728971405303415079934132710037826936173778980444968292764750946649017977587207096330286416692887910946555547851940402630657488671505820681908902000708383676273854845817711531764475730270069855571366959622842914819860834936475292719074168444365510704342711559699508093042880177904174497792"@
}

/// Whether the text's magnitude is at least that midpoint, so that parsing
/// it as a double would round past every finite value.
pub open spec fn overflows_f64(s: Seq<char>) -> bool {
    let sig = sig_digits_of(s);
    if sig.len() == 0 {
        false
    } else {
        sci_exp_of(s) > 308 || (sci_exp_of(s) == 308 && ge_padded(sig, f64_overflow_digits()))
    }
}

// ---------- executable checks ----------

fn check_digits(s: &Vec<char>, from: usize, to: usize) -> (r: bool)
    requires
        from <= to <= s@.len(),
    ensures
        r == is_digits(s@.subrange(from as int, to as int)),
{
    if from == to {
        return false;
    }
    let mut k: usize = from;
    while k < to
        invariant
            from <= k <= to <= s@.len(),
            forall|j: int| from <= j < k ==> is_digit_char(#[trigger] s@[j]),
        decreases to - k,
    {
        if !is_digit(s[k]) {
            proof {
                assert(s@.subrange(from as int, to as int)[k - from] == s@[k as int]);
            }
            return false;
        }
        k = k + 1;
    }
    proof {
        assert(forall|j: int|
            0 <= j < to - from ==> is_digit_char(
                #[trigger] s@.subrange(from as int, to as int)[j],
            ));
    }
    true
}

fn find_char_in_range(s: &Vec<char>, c: char, from: usize, to: usize) -> (r: Option<usize>)
    requires
        from <= to <= s@.len(),
    ensures
        match r {
            Some(i) => find_char_from(s@.subrange(from as int, to as int), c, 0) == Some(
                i - from as int,
            ) && from <= i < to,
            None => find_char_from(s@.subrange(from as int, to as int), c, 0) is None,
        },
{
    let ghost t = s@.subrange(from as int, to as int);
    let mut i: usize = from;
    loop
        invariant
            from <= i,
            t == s@.subrange(from as int, to as int),
            from <= to <= s@.len(),
            find_char_from(t, c, 0) == find_char_from(t, c, i - from as int),
        decreases to - i,
    {
        if i >= to {
            return None;
        }
        proof {
            assert(t[i - from] == s@[i as int]);
        }
        if s[i] == c {
            return Some(i);
        }
        proof {
            assert(find_char_from(t, c, i - from as int) == find_char_from(
                t,
                c,
                i + 1 - from as int,
            ));
        }
        i = i + 1;
    }
}

fn check_exponent(s: &Vec<char>, from: usize, to: usize) -> (r: bool)
    requires
        from <= to <= s@.len(),
    ensures
        r == is_exponent(s@.subrange(from as int, to as int)),
{
    let ghost t = s@.subrange(from as int, to as int);
    let start: usize = if from < to && (s[from] == '+' || s[from] == '-') {
        proof {
            assert(t[0] == s@[from as int]);
        }
        1
    } else {
        0
    };
    proof {
        assert(strip_sign(t) =~= s@.subrange(from as int + start as int, to as int));
    }
    check_digits(s, from + start, to)
}


/// What remains of `s` from position `k` on (nothing, past its end).
pub open spec fn suffix_from(s: Seq<char>, k: int) -> Seq<char> {
    if k < s.len() {
        s.subrange(k, s.len() as int)
    } else {
        Seq::empty()
    }
}

/// Digit strings compared as aligned decimal fractions.
#[verifier::loop_isolation(false)]
fn check_ge_padded(a: &Vec<char>, b: &Vec<char>) -> (r: bool)
    ensures
        r == ge_padded(a@, b@),
{
    let an = a.len();
    let bn = b.len();
    let mut k: usize = 0;
    proof {
        assert(suffix_from(a@, 0) =~= a@);
        assert(suffix_from(b@, 0) =~= b@);
    }
    loop
        invariant
            ge_padded(a@, b@) == ge_padded(suffix_from(a@, k as int), suffix_from(b@, k as int)),
        decreases an + bn - k,
    {
        if k >= an && k >= bn {
            return true;
        }
        let ca = if k < an {
            a[k]
        } else {
            '0'
        };
        let cb = if k < bn {
            b[k]
        } else {
            '0'
        };
        proof {
            let sa = suffix_from(a@, k as int);
            let sb = suffix_from(b@, k as int);
            if k < an {
                assert(sa[0] == a@[k as int]);
            }
            if k < bn {
                assert(sb[0] == b@[k as int]);
            }
            if sa.len() > 0 {
                assert(sa.drop_first() =~= suffix_from(a@, k as int + 1));
            } else {
                assert(sa =~= suffix_from(a@, k as int + 1));
            }
            if sb.len() > 0 {
                assert(sb.drop_first() =~= suffix_from(b@, k as int + 1));
            } else {
                assert(sb =~= suffix_from(b@, k as int + 1));
            }
        }
        if ca != cb {
            let va = ca as u32;
            let vb = cb as u32;
            return va > vb;
        }
        k = k + 1;
    }
}

/// The position where the leading zeros of `s` end.
#[verifier::loop_isolation(false)]
fn strip_zeros_pos(s: &Vec<char>) -> (k: usize)
    ensures
        k <= s@.len(),
        strip_zeros(s@) == s@.subrange(k as int, s@.len() as int),
{
    proof {
        assert(s@.subrange(0, s@.len() as int) =~= s@);
    }
    let mut k: usize = 0;
    while k < s.len() && s[k] == '0'
        invariant
            k <= s@.len(),
            strip_zeros(s@) == strip_zeros(s@.subrange(k as int, s@.len() as int)),
        decreases s@.len() - k,
    {
        proof {
            let t = s@.subrange(k as int, s@.len() as int);
            assert(t.drop_first() =~= s@.subrange(k as int + 1, s@.len() as int));
        }
        k = k + 1;
    }
    proof {
        let t = s@.subrange(k as int, s@.len() as int);
        assert(strip_zeros(t) == t);
    }
    k
}

/// Where the mantissa ends within `s[start..]`.
#[verifier::loop_isolation(false)]
fn mantissa_end(s: &Vec<char>, start: usize) -> (me: usize)
    requires
        start <= s@.len(),
    ensures
        start <= me <= s@.len(),
        mant_end_of(s@.subrange(start as int, s@.len() as int)) == me - start,
{
    let n = s.len();
    match find_char_in_range(s, 'e', start, n) {
        Some(i) => i,
        None => match find_char_in_range(s, 'E', start, n) {
            Some(i) => i,
            None => n,
        },
    }
}

fn check_loose_mantissa(s: &Vec<char>, from: usize, to: usize) -> (r: bool)
    requires
        from <= to <= s@.len(),
    ensures
        r == is_loose_mantissa(s@.subrange(from as int, to as int)),
{
    let ghost m = s@.subrange(from as int, to as int);
    match find_char_in_range(s, '.', from, to) {
        None => check_digits(s, from, to),
        Some(i) => {
            proof {
                assert(m.subrange(0, i - from) =~= s@.subrange(from as int, i as int));
                assert(m.subrange(i - from + 1, m.len() as int) =~= s@.subrange(
                    i as int + 1,
                    to as int,
                ));
            }
            let a_ok = i == from || check_digits(s, from, i);
            let f_ok = i + 1 == to || check_digits(s, i + 1, to);
            a_ok && f_ok && (i > from || i + 1 < to)
        },
    }
}

/// Whether the characters form a decimal floating-point text.
pub fn check_decimal_float(s: &Vec<char>) -> (r: bool)
    ensures
        r == is_decimal_float(s@),
{
    let n = s.len();
    let start: usize = if n > 0 && (s[0] == '+' || s[0] == '-') {
        1
    } else {
        0
    };
    let ghost t = strip_sign(s@);
    proof {
        assert(t =~= s@.subrange(start as int, s@.len() as int));
    }
    let me = mantissa_end(s, start);
    proof {
        assert(t.subrange(0, me - start) =~= s@.subrange(start as int, me as int));
    }
    let m_ok = check_loose_mantissa(s, start, me);
    if me == n {
        m_ok
    } else {
        proof {
            assert(t.subrange(me - start + 1, t.len() as int) =~= s@.subrange(
                me as int + 1,
                s@.len() as int,
            ));
        }
        m_ok && check_exponent(s, me + 1, n)
    }
}

/// A decimal floating-point text brought to JSON-number form.
#[verifier::loop_isolation(false)]
#[verifier::rlimit(100)]
pub fn normalize_decimal_chars(s: &Vec<char>) -> (r: Vec<char>)
    ensures
        r@ == normalize_decimal(s@),
{
    let n = s.len();
    let neg = n > 0 && s[0] == '-';
    let start: usize = if n > 0 && (s[0] == '+' || s[0] == '-') {
        1
    } else {
        0
    };
    let ghost t = strip_sign(s@);
    proof {
        assert(t =~= s@.subrange(start as int, s@.len() as int));
    }
    let me = mantissa_end(s, start);
    let ghost m = t.subrange(0, me - start);
    proof {
        assert(m =~= s@.subrange(start as int, me as int));
    }
    let ie: usize = match find_char_in_range(s, '.', start, me) {
        Some(i) => i,
        None => me,
    };
    proof {
        assert(int_end_of(m) == ie - start);
        assert(m.subrange(0, ie - start) =~= s@.subrange(start as int, ie as int));
        if (ie as int) < me as int {
            assert(frac_of(m) =~= s@.subrange(ie as int + 1, me as int));
        }
    }
    let mut out: Vec<char> = Vec::new();
    if neg {
        out.push('-');
    }
    let ipart = subrange_chars(s, start, ie);
    let k = strip_zeros_pos(&ipart);
    if k == ipart.len() {
        out.push('0');
    } else {
        let stripped = subrange_chars(&ipart, k, ipart.len());
        append_chars(&mut out, &stripped);
    }
    proof {
        let ni = norm_int(m.subrange(0, int_end_of(m)));
        if neg {
            assert(out@ =~= seq!['-'] + ni);
        } else {
            assert(out@ =~= ni);
        }
    }
    if ie < me && ie + 1 < me {
        out.push('.');
        let fpart = subrange_chars(s, ie + 1, me);
        append_chars(&mut out, &fpart);
    }
    proof {
        let core_mant = norm_mantissa(m);
        if neg {
            assert(out@ =~= seq!['-'] + core_mant);
        } else {
            assert(out@ =~= core_mant);
        }
    }
    if me < n {
        let epart = subrange_chars(s, me, n);
        append_chars(&mut out, &epart);
    }
    proof {
        assert(t.subrange(me - start, t.len() as int) =~= s@.subrange(me as int, s@.len() as int));
        assert(out@ =~= normalize_decimal(s@));
    }
    out
}

/// Whether a decimal floating-point text's value rounds past every finite
/// double.
#[verifier::loop_isolation(false)]
#[verifier::rlimit(100)]
pub fn check_overflows_f64(s: &Vec<char>) -> (r: bool)
    requires
        is_decimal_float(s@),
    ensures
        r == overflows_f64(s@),
{
    let n = s.len();
    let start: usize = if n > 0 && (s[0] == '+' || s[0] == '-') {
        1
    } else {
        0
    };
    let ghost t = strip_sign(s@);
    proof {
        assert(t =~= s@.subrange(start as int, s@.len() as int));
    }
    let me = mantissa_end(s, start);
    let ghost m = t.subrange(0, me - start);
    proof {
        assert(m =~= s@.subrange(start as int, me as int));
    }
    let ie: usize = match find_char_in_range(s, '.', start, me) {
        Some(i) => i,
        None => me,
    };
    let fraclen: usize = if ie < me {
        me - ie - 1
    } else {
        0
    };
    proof {
        assert(int_end_of(m) == ie - start);
        assert(m.subrange(0, ie - start) =~= s@.subrange(start as int, ie as int));
        if (ie as int) < me as int {
            assert(frac_of(m) =~= s@.subrange(ie as int + 1, me as int));
        } else {
            assert(frac_of(m) =~= Seq::<char>::empty());
        }
        assert(frac_of(m).len() == fraclen);
    }
    // the significant digits
    let mut dvec = subrange_chars(s, start, ie);
    if ie < me {
        let fpart = subrange_chars(s, ie + 1, me);
        append_chars(&mut dvec, &fpart);
    }
    proof {
        assert(dvec@ =~= m.subrange(0, int_end_of(m)) + frac_of(m));
    }
    let k = strip_zeros_pos(&dvec);
    let ghost sig = sig_digits_of(s@);
    proof {
        assert(sig == dvec@.subrange(k as int, dvec@.len() as int));
    }
    if k == dvec.len() {
        proof {
            assert(sig.len() == 0);
        }
        return false;
    }
    let sig_len = dvec.len() - k;
    // the exponent's value, saturated far above any deciding magnitude
    let cap: u128 = 200000000000000000000;
    let mut xneg = false;
    let mut acc: u128 = 0;
    if me < n {
        let ghost x = t.subrange(me - start + 1, t.len() as int);
        proof {
            assert(x =~= s@.subrange(me as int + 1, s@.len() as int));
        }
        let xs = me + 1;
        let xd: usize = if xs < n && (s[xs] == '+' || s[xs] == '-') {
            proof {
                assert(x[0] == s@[xs as int]);
            }
            xneg = s[xs] == '-';
            xs + 1
        } else {
            xs
        };
        proof {
            assert(strip_sign(x) =~= s@.subrange(xd as int, s@.len() as int));
            assert(is_digits(strip_sign(x)));
        }
        let mut j: usize = xd;
        proof {
            assert(s@.subrange(xd as int, xd as int) =~= Seq::<char>::empty());
        }
        while j < n
            invariant
                xd <= j <= n,
                acc <= cap,
                (acc < cap && acc == digits_val(s@.subrange(xd as int, j as int))) || (acc == cap
                    && digits_val(s@.subrange(xd as int, j as int)) >= cap),
            decreases n - j,
        {
            let c = s[j];
            proof {
                assert(strip_sign(x)[j - xd] == s@[j as int]);
                assert(is_digit_char(c));
                lemma_digits_val_step(s@.subrange(xd as int, s@.len() as int), j - xd);
                assert(s@.subrange(xd as int, s@.len() as int).subrange(0, j - xd) =~= s@.subrange(
                    xd as int,
                    j as int,
                ));
                assert(s@.subrange(xd as int, s@.len() as int).subrange(0, j - xd + 1)
                    =~= s@.subrange(xd as int, j as int + 1));
                assert(s@.subrange(xd as int, s@.len() as int)[j - xd] == s@[j as int]);
            }
            let dv = (c as u32 - '0' as u32) as u128;
            proof {
                assert(dv == digit_val(c));
                assert(dv <= 9);
            }
            if acc == cap {
                proof {
                    assert(digits_val(s@.subrange(xd as int, j as int + 1)) >= cap);
                }
            } else {
                let nv = acc * 10 + dv;
                acc = if nv > cap {
                    cap
                } else {
                    nv
                };
            }
            j = j + 1;
        }
        proof {
            assert(s@.subrange(xd as int, j as int) =~= strip_sign(x));
        }
    }
    // decide
    if acc >= cap {
        proof {
            assert(sig.len() >= 1);
            assert(sig.len() <= dvec@.len());
            if xneg {
                assert(exp_value_of(t) <= -(cap as int));
                assert(sci_exp_of(s@) < 308);
            } else {
                assert(exp_value_of(t) >= cap as int);
                assert(sci_exp_of(s@) > 308);
            }
        }
        return !xneg;
    }
    let xsigned: i128 = if xneg {
        -(acc as i128)
    } else {
        acc as i128
    };
    proof {
        assert(exp_value_of(t) == xsigned as int);
    }
    let e: i128 = sig_len as i128 - 1 + xsigned - fraclen as i128;
    proof {
        assert(e as int == sci_exp_of(s@));
    }
    if e > 308 {
        true
    } else if e == 308 {
        let sig_vec = subrange_chars(&dvec, k, dvec.len());
        let tdig = str_to_chars(
            "179769313486231580793728971405303415079934132710037826936173778980444968292764750946649017977587207096330286416692887910946555547851940402630657488671505820681908902000708383676273854845817711531764475730270069855571366959622842914819860834936475292719074168444365510704342711559699508093042880177904174497792",
        );
        check_ge_padded(&sig_vec, &tdig)
    } else {
        false
    }
}

} // verus!
