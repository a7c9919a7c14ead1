//! Character-level string utilities shared by the whole crate.
//!
//! Strings are modelled as sequences of characters (`Seq<char>`); the
//! executable code works on `Vec<char>` and converts to and from `String`
//! at the edges.

use vstd::prelude::*;
use vstd::string::*;

verus! {

/// Relies on std's `String::push`: appends exactly one character.
#[verifier::external_body]
pub fn push_char(s: &mut String, c: char)
    ensures
        final(s)@ == old(s)@.push(c),
{
    s.push(c);
}

/// The characters of a string slice, as a vector.
pub fn chars_of(s: &str) -> (r: Vec<char>)
    ensures
        r@ == s@,
{
    let n = s.unicode_len();
    let mut r: Vec<char> = Vec::new();
    let mut i: usize = 0;
    while i < n
        invariant
            n == s@.len(),
            i <= n,
            r@ == s@.subrange(0, i as int),
        decreases n - i,
    {
        r.push(s.get_char(i));
        assert(r@ =~= s@.subrange(0, i + 1));
        i += 1;
    }
    assert(r@ =~= s@);
    r
}

/// A `String` holding exactly the given characters.
pub fn string_of(v: &Vec<char>) -> (r: String)
    ensures
        r@ == v@,
{
    let mut r = String::new();
    let mut i: usize = 0;
    while i < v.len()
        invariant
            i <= v.len(),
            r@ == v@.subrange(0, i as int),
        decreases v.len() - i,
    {
        push_char(&mut r, v[i]);
        assert(r@ =~= v@.subrange(0, i + 1));
        i += 1;
    }
    assert(r@ =~= v@);
    r
}

/// ASCII lowercasing of one character; other characters are unchanged.
pub open spec fn lower_char(c: char) -> char {
    if 'A' <= c && c <= 'Z' {
        (((c as u8) + 32) as char)
    } else {
        c
    }
}

/// ASCII lowercasing of a character sequence.
pub open spec fn lower(s: Seq<char>) -> Seq<char> {
    s.map_values(|c: char| lower_char(c))
}

pub fn to_lower_char(c: char) -> (r: char)
    ensures
        r == lower_char(c),
{
    if 'A' <= c && c <= 'Z' {
        ((c as u8) + 32) as char
    } else {
        c
    }
}

pub fn to_lower(v: &Vec<char>) -> (r: Vec<char>)
    ensures
        r@ == lower(v@),
{
    let mut r: Vec<char> = Vec::new();
    let mut i: usize = 0;
    while i < v.len()
        invariant
            i <= v.len(),
            r@ =~= lower(v@.subrange(0, i as int)),
        decreases v.len() - i,
    {
        r.push(to_lower_char(v[i]));
        assert(r@ =~= lower(v@.subrange(0, i + 1)));
        i += 1;
    }
    assert(v@.subrange(0, v@.len() as int) =~= v@);
    r
}

/// ASCII uppercasing of one character; other characters are unchanged.
pub open spec fn upper_char(c: char) -> char {
    if 'a' <= c && c <= 'z' {
        (((c as u8) - 32) as char)
    } else {
        c
    }
}

/// ASCII uppercasing of a character sequence.
pub open spec fn upper(s: Seq<char>) -> Seq<char> {
    s.map_values(|c: char| upper_char(c))
}

pub fn to_upper_char(c: char) -> (r: char)
    ensures
        r == upper_char(c),
{
    if 'a' <= c && c <= 'z' {
        ((c as u8) - 32) as char
    } else {
        c
    }
}

pub fn to_upper(v: &Vec<char>) -> (r: Vec<char>)
    ensures
        r@ == upper(v@),
{
    let mut r: Vec<char> = Vec::new();
    let mut i: usize = 0;
    while i < v.len()
        invariant
            i <= v.len(),
            r@ =~= upper(v@.subrange(0, i as int)),
        decreases v.len() - i,
    {
        r.push(to_upper_char(v[i]));
        assert(r@ =~= upper(v@.subrange(0, i + 1)));
        i += 1;
    }
    assert(v@.subrange(0, v@.len() as int) =~= v@);
    r
}

/// Whether two character vectors hold the same characters.
pub fn vec_eq(a: &Vec<char>, b: &Vec<char>) -> (r: bool)
    ensures
        r == (a@ == b@),
{
    if a.len() != b.len() {
        assert(a@ != b@) by {
            assert(a@.len() != b@.len());
        }
        return false;
    }
    let mut i: usize = 0;
    while i < a.len()
        invariant
            a@.len() == b@.len(),
            i <= a@.len(),
            forall|k: int| 0 <= k < i ==> a@[k] == b@[k],
        decreases a@.len() - i,
    {
        if a[i] != b[i] {
            return false;
        }
        i += 1;
    }
    assert(a@ =~= b@);
    true
}

/// The pattern `p` occurs in `s` starting at position `i`.
pub open spec fn matches_at(s: Seq<char>, p: Seq<char>, i: int) -> bool {
    &&& 0 <= i
    &&& i + p.len() <= s.len()
    &&& forall|j: int| 0 <= j < p.len() ==> s[i + j] == p[j]
}

/// The pattern `p` occurs somewhere in `s`.
pub open spec fn has_substring(s: Seq<char>, p: Seq<char>) -> bool {
    exists|i: int| #[trigger] matches_at(s, p, i)
}

/// Whether `p` occurs in `s` at position `i`.
pub fn check_match_at(s: &Vec<char>, p: &Vec<char>, i: usize) -> (r: bool)
    requires
        i + p@.len() <= s@.len(),
    ensures
        r == matches_at(s@, p@, i as int),
{
    let sl = s.len();
    let pl = p.len();
    let mut j: usize = 0;
    while j < pl
        invariant
            sl == s@.len(),
            pl == p@.len(),
            i + pl <= sl,
            j <= pl,
            forall|k: int| 0 <= k < j ==> s@[i + k] == p@[k],
        decreases pl - j,
    {
        if s[i + j] != p[j] {
            return false;
        }
        j += 1;
    }
    true
}

/// The first position at which `p` occurs in `s`, searching from `from`.
pub fn find_from(s: &Vec<char>, p: &Vec<char>, from: usize) -> (r: Option<usize>)
    ensures
        match r {
            Some(i) => {
                &&& from <= i
                &&& matches_at(s@, p@, i as int)
                &&& forall|k: int| from <= k < i ==> !matches_at(s@, p@, k)
            },
            None => forall|k: int| from <= k ==> !matches_at(s@, p@, k),
        },
{
    if p.len() > s.len() {
        assert(forall|k: int| from <= k ==> !matches_at(s@, p@, k));
        return None;
    }
    if p.len() == 0 {
        if from <= s.len() {
            assert(matches_at(s@, p@, from as int));
            return Some(from);
        } else {
            assert(forall|k: int| from <= k ==> !matches_at(s@, p@, k));
            return None;
        }
    }
    let bound = s.len() - p.len();
    let mut i: usize = from;
    while i <= bound
        invariant
            1 <= p@.len() <= s@.len(),
            s@.len() <= usize::MAX,
            bound == s@.len() - p@.len(),
            from <= i,
            forall|k: int| from <= k < i ==> !matches_at(s@, p@, k),
        decreases bound + 1 - i,
    {
        if check_match_at(s, p, i) {
            return Some(i);
        }
        i += 1;
    }
    assert(forall|k: int| from <= k ==> !matches_at(s@, p@, k)) by {
        assert(forall|k: int| k + p@.len() > s@.len() ==> !matches_at(s@, p@, k));
    }
    None
}

/// Whether `p` occurs anywhere in `s`.
pub fn contains_seq(s: &Vec<char>, p: &Vec<char>) -> (r: bool)
    ensures
        r == has_substring(s@, p@),
{
    match find_from(s, p, 0) {
        Some(i) => {
            assert(matches_at(s@, p@, i as int));
            true
        },
        None => {
            assert(forall|k: int| !matches_at(s@, p@, k) ==> true);
            false
        },
    }
}

/// The first position of character `c` in `s` at or after `from`.
pub fn index_of_from(s: &Vec<char>, c: char, from: usize) -> (r: Option<usize>)
    ensures
        match r {
            Some(i) => {
                &&& from <= i < s@.len()
                &&& s@[i as int] == c
                &&& forall|k: int| from <= k < i ==> s@[k] != c
            },
            None => forall|k: int| from <= k < s@.len() ==> s@[k] != c,
        },
{
    let mut i: usize = from;
    while i < s.len()
        invariant
            from <= i,
            forall|k: int| from <= k < i && k < s@.len() ==> s@[k] != c,
        decreases s@.len() - i,
    {
        if s[i] == c {
            return Some(i);
        }
        i += 1;
    }
    None
}

/// The last position of character `c` in `s`, if any.
pub fn last_index_of(s: &Vec<char>, c: char) -> (r: Option<usize>)
    ensures
        match r {
            Some(i) => {
                &&& i < s@.len()
                &&& s@[i as int] == c
                &&& forall|k: int| i < k < s@.len() ==> s@[k] != c
            },
            None => forall|k: int| 0 <= k < s@.len() ==> s@[k] != c,
        },
{
    let mut i: usize = s.len();
    while i > 0
        invariant
            i <= s@.len(),
            forall|k: int| i <= k < s@.len() ==> s@[k] != c,
        decreases i,
    {
        i -= 1;
        if s[i] == c {
            return Some(i);
        }
    }
    None
}

/// The characters of `s` from `from` (inclusive) to `to` (exclusive).
pub fn subvec(s: &Vec<char>, from: usize, to: usize) -> (r: Vec<char>)
    requires
        from <= to <= s@.len(),
    ensures
        r@ == s@.subrange(from as int, to as int),
{
    let mut r: Vec<char> = Vec::new();
    let mut i: usize = from;
    while i < to
        invariant
            from <= i <= to <= s@.len(),
            r@ =~= s@.subrange(from as int, i as int),
        decreases to - i,
    {
        r.push(s[i]);
        assert(r@ =~= s@.subrange(from as int, i + 1));
        i += 1;
    }
    r
}

/// Appends all of `b` to `a`.
pub fn append_vec(a: &mut Vec<char>, b: &Vec<char>)
    ensures
        final(a)@ == old(a)@ + b@,
{
    let mut i: usize = 0;
    while i < b.len()
        invariant
            i <= b@.len(),
            a@ =~= old(a)@ + b@.subrange(0, i as int),
        decreases b@.len() - i,
    {
        a.push(b[i]);
        assert(a@ =~= old(a)@ + b@.subrange(0, i + 1));
        i += 1;
    }
    assert(a@ =~= old(a)@ + b@);
}

/// The decimal digit character for `d`.
pub open spec fn digit_char(d: int) -> char
    recommends
        0 <= d <= 9,
{
    (('0' as u8) + d) as char
}

/// The decimal rendering of `n`, most significant digit first, no leading
/// zeros (a single `'0'` for zero).
pub open spec fn dec_digits(n: nat) -> Seq<char>
    decreases n,
{
    if n < 10 {
        seq![digit_char(n as int)]
    } else {
        dec_digits(n / 10).push(digit_char((n % 10) as int))
    }
}

/// Renders `n` in decimal.
pub fn u64_to_dec(n: u64) -> (r: Vec<char>)
    ensures
        r@ == dec_digits(n as nat),
    decreases n,
{
    if n < 10 {
        let mut r: Vec<char> = Vec::new();
        r.push(((48 + n) as u8) as char);
        assert(r@ =~= dec_digits(n as nat));
        r
    } else {
        let mut r = u64_to_dec(n / 10);
        r.push(((48 + (n % 10)) as u8) as char);
        assert(r@ =~= dec_digits(n as nat));
        r
    }
}

/// Renders `n` in decimal, left-padded with `'0'` to two digits.
pub open spec fn dec2_digits(n: nat) -> Seq<char> {
    if n < 10 {
        seq!['0'].push(digit_char(n as int))
    } else {
        dec_digits(n)
    }
}

pub fn u64_to_dec2(n: u64) -> (r: Vec<char>)
    ensures
        r@ == dec2_digits(n as nat),
{
    if n < 10 {
        let mut r: Vec<char> = Vec::new();
        r.push('0');
        r.push(((48 + n) as u8) as char);
        assert(r@ =~= dec2_digits(n as nat));
        r
    } else {
        u64_to_dec(n)
    }
}

/// Reading back the decimal rendering of `n` yields `n`.
pub proof fn lemma_dec_digits_value(n: nat)
    ensures
        dec_value(dec_digits(n)) == n,
        dec_digits(n).len() >= 1,
    decreases n,
{
    if n < 10 {
        let s = dec_digits(n);
        assert(s.len() == 1);
        assert(s.drop_last() =~= Seq::<char>::empty());
        assert(s.last() == digit_char(n as int));
        assert(digit_char(n as int) as int == '0' as int + n);
        assert(digit_val(s.last()) == n);
        assert(dec_value(Seq::<char>::empty()) == 0);
        assert(dec_value(s.drop_last()) == 0);
        assert(dec_value(s) == (dec_value(s.drop_last()) * 10 + digit_val(s.last())) as nat);
    } else {
        assert(digit_char((n % 10) as int) as int == '0' as int + (n % 10) as int);
        lemma_dec_digits_value(n / 10);
        let s = dec_digits(n);
        assert(s == dec_digits(n / 10).push(digit_char((n % 10) as int)));
        assert(s.drop_last() =~= dec_digits(n / 10));
        assert(s.last() == digit_char((n % 10) as int));
        assert(digit_val(s.last()) == n % 10);
        assert(s.len() > 0);
        assert(dec_value(s) == (dec_value(s.drop_last()) * 10 + digit_val(s.last())) as nat);
        assert(dec_value(s.drop_last()) == n / 10);
        vstd::arithmetic::div_mod::lemma_fundamental_div_mod(n as int, 10);
        assert((n / 10) * 10 + (n % 10) == n);
    }
}

/// A decimal digit.
pub open spec fn is_digit(c: char) -> bool {
    '0' <= c && c <= '9'
}

/// A nonempty, all-digit sequence.
pub open spec fn all_digits(s: Seq<char>) -> bool {
    forall|i: int| 0 <= i < s.len() ==> is_digit(#[trigger] s[i])
}

/// The numeric value of a digit character.
pub open spec fn digit_val(c: char) -> int {
    c as int - '0' as int
}

/// The numeric value of a digit sequence (most significant first).
pub open spec fn dec_value(s: Seq<char>) -> nat
    decreases s.len(),
{
    if s.len() == 0 {
        0
    } else {
        (dec_value(s.drop_last()) * 10 + digit_val(s.last())) as nat
    }
}

proof fn lemma_dec_value_extend_ge(s: Seq<char>, i: int)
    requires
        0 <= i <= s.len(),
        all_digits(s),
    ensures
        dec_value(s.subrange(0, i)) <= dec_value(s),
    decreases s.len() - i,
{
    if i < s.len() {
        lemma_dec_value_extend_ge(s, i + 1);
        let a = s.subrange(0, i);
        let b = s.subrange(0, i + 1);
        assert(b.drop_last() =~= a);
        assert(is_digit(s[i]));
        assert(dec_value(b) == dec_value(a) * 10 + digit_val(b.last()));
        assert(dec_value(a) <= dec_value(a) * 10);
    } else {
        assert(s.subrange(0, i) =~= s);
    }
}

/// The value of an `n`-digit sequence is below ten to the `n`.
pub proof fn lemma_dec_value_bound(s: Seq<char>)
    requires
        all_digits(s),
    ensures
        dec_value(s) < pow10(s.len()),
    decreases s.len(),
{
    if s.len() == 0 {
    } else {
        assert(all_digits(s.drop_last())) by {
            assert(forall|i: int|
                0 <= i < s.len() - 1 ==> is_digit(#[trigger] s.drop_last()[i]) == is_digit(s[i]));
        }
        lemma_dec_value_bound(s.drop_last());
        assert(is_digit(s.last()));
        assert(digit_val(s.last()) <= 9);
        assert(pow10(s.len()) == 10 * pow10((s.len() - 1) as nat));
    }
}

/// Parses a nonempty digit sequence into a `u64`; fails on any non-digit,
/// on an empty input, and on overflow.
pub fn parse_u64(s: &Vec<char>) -> (r: Option<u64>)
    ensures
        match r {
            Some(v) => {
                &&& s@.len() > 0
                &&& all_digits(s@)
                &&& v == dec_value(s@)
            },
            None => s@.len() == 0 || !all_digits(s@) || dec_value(s@) > u64::MAX,
        },
{
    if s.len() == 0 {
        return None;
    }
    let mut v: u64 = 0;
    let mut i: usize = 0;
    while i < s.len()
        invariant
            i <= s@.len(),
            all_digits(s@.subrange(0, i as int)),
            v == dec_value(s@.subrange(0, i as int)),
        decreases s@.len() - i,
    {
        let c = s[i];
        if !('0' <= c && c <= '9') {
            assert(!is_digit(s@[i as int]));
            return None;
        }
        let d: u64 = (c as u8 - 48) as u64;
        if v > (u64::MAX - d) / 10 {
            proof {
                if all_digits(s@) {
                    let p = s@.subrange(0, i + 1);
                    assert(p.drop_last() =~= s@.subrange(0, i as int));
                    assert(is_digit(s@[i as int]));
                    assert(dec_value(p) == dec_value(p.drop_last()) * 10 + digit_val(p.last()));
                    lemma_dec_value_extend_ge(s@, i + 1);
                }
            }
            return None;
        }
        v = v * 10 + d;
        proof {
            let p = s@.subrange(0, i + 1);
            assert(p.drop_last() =~= s@.subrange(0, i as int));
            assert(is_digit(s@[i as int]));
            assert(dec_value(p) == dec_value(s@.subrange(0, i as int)) * 10 + digit_val(p.last()));
        }
        i += 1;
    }
    assert(s@.subrange(0, s@.len() as int) =~= s@);
    Some(v)
}

/// Whether `p` is a prefix of `s`.
pub fn starts_with_vec(s: &Vec<char>, p: &Vec<char>) -> (r: bool)
    ensures
        r == p@.is_prefix_of(s@),
{
    if p.len() > s.len() {
        return false;
    }
    let r = check_match_at(s, p, 0);
    proof {
        if r {
            assert(s@.subrange(0, p@.len() as int) =~= p@);
        } else {
            if p@.is_prefix_of(s@) {
                assert(forall|j: int|
                    0 <= j < p@.len() ==> s@[j] == s@.subrange(0, p@.len() as int)[j] && s@.subrange(
                        0,
                        p@.len() as int,
                    )[j] == p@[j]);
            }
        }
    }
    r
}

/// Whether `p` is a suffix of `s`.
pub fn ends_with_vec(s: &Vec<char>, p: &Vec<char>) -> (r: bool)
    ensures
        r == p@.is_suffix_of(s@),
{
    if p.len() > s.len() {
        return false;
    }
    let off = s.len() - p.len();
    let r = check_match_at(s, p, off);
    proof {
        let tail = s@.subrange(s@.len() - p@.len(), s@.len() as int);
        if r {
            assert(tail =~= p@);
        } else {
            if p@.is_suffix_of(s@) {
                assert(forall|j: int| 0 <= j < p@.len() ==> s@[off + j] == tail[j] && tail[j] == p@[j]);
            }
        }
    }
    r
}

/// Whether every character of `s` is a decimal digit.
pub fn all_digits_exec(s: &Vec<char>) -> (r: bool)
    ensures
        r == all_digits(s@),
{
    let mut i: usize = 0;
    while i < s.len()
        invariant
            i <= s@.len(),
            forall|k: int| 0 <= k < i ==> is_digit(#[trigger] s@[k]),
        decreases s@.len() - i,
    {
        let c = s[i];
        if !('0' <= c && c <= '9') {
            assert(!is_digit(s@[i as int]));
            return false;
        }
        i += 1;
    }
    true
}

/// Ten to the `k`-th power.
pub open spec fn pow10(k: nat) -> nat
    decreases k,
{
    if k == 0 {
        1
    } else {
        10 * pow10((k - 1) as nat)
    }
}

pub proof fn lemma_pow10_pos(k: nat)
    ensures
        pow10(k) >= 1,
    decreases k,
{
    if k > 0 {
        lemma_pow10_pos((k - 1) as nat);
    }
}

pub proof fn lemma_pow10_mono(a: nat, b: nat)
    requires
        a <= b,
    ensures
        pow10(a) <= pow10(b),
    decreases b,
{
    if a < b {
        lemma_pow10_mono(a, (b - 1) as nat);
        lemma_pow10_pos((b - 1) as nat);
    }
}

pub proof fn lemma_pow10_19()
    ensures
        pow10(19) == 10_000_000_000_000_000_000,
{
    assert(pow10(0) == 1);
    assert(pow10(1) == 10) by { assert(pow10(1) == 10 * pow10(0)); }
    assert(pow10(2) == 100) by { assert(pow10(2) == 10 * pow10(1)); }
    assert(pow10(3) == 1000) by { assert(pow10(3) == 10 * pow10(2)); }
    assert(pow10(4) == 10000) by { assert(pow10(4) == 10 * pow10(3)); }
    assert(pow10(5) == 100000) by { assert(pow10(5) == 10 * pow10(4)); }
    assert(pow10(6) == 1000000) by { assert(pow10(6) == 10 * pow10(5)); }
    assert(pow10(7) == 10000000) by { assert(pow10(7) == 10 * pow10(6)); }
    assert(pow10(8) == 100000000) by { assert(pow10(8) == 10 * pow10(7)); }
    assert(pow10(9) == 1000000000) by { assert(pow10(9) == 10 * pow10(8)); }
    assert(pow10(10) == 10000000000) by { assert(pow10(10) == 10 * pow10(9)); }
    assert(pow10(11) == 100000000000) by { assert(pow10(11) == 10 * pow10(10)); }
    assert(pow10(12) == 1000000000000) by { assert(pow10(12) == 10 * pow10(11)); }
    assert(pow10(13) == 10000000000000) by { assert(pow10(13) == 10 * pow10(12)); }
    assert(pow10(14) == 100000000000000) by { assert(pow10(14) == 10 * pow10(13)); }
    assert(pow10(15) == 1000000000000000) by { assert(pow10(15) == 10 * pow10(14)); }
    assert(pow10(16) == 10000000000000000) by { assert(pow10(16) == 10 * pow10(15)); }
    assert(pow10(17) == 100000000000000000) by { assert(pow10(17) == 10 * pow10(16)); }
    assert(pow10(18) == 1000000000000000000) by { assert(pow10(18) == 10 * pow10(17)); }
    assert(pow10(19) == 10000000000000000000) by { assert(pow10(19) == 10 * pow10(18)); }
}

pub proof fn lemma_pow10_bound(k: nat)
    requires
        k <= 19,
    ensures
        pow10(k) <= 10_000_000_000_000_000_000,
{
    lemma_pow10_mono(k, 19);
    lemma_pow10_19();
}

/// Ten to the `k`-th power, for `k` at most 19.
pub fn pow10_exec(k: usize) -> (r: u64)
    requires
        k <= 19,
    ensures
        r == pow10(k as nat),
{
    let mut r: u64 = 1;
    let mut i: usize = 0;
    while i < k
        invariant
            i <= k <= 19,
            r == pow10(i as nat),
        decreases k - i,
    {
        proof {
            lemma_pow10_bound((i + 1) as nat);
        }
        r = r * 10;
        i += 1;
    }
    r
}

/// `s` with leading occurrences of `c` removed.
pub open spec fn trim_char_start(s: Seq<char>, c: char) -> Seq<char>
    decreases s.len(),
{
    if s.len() > 0 && s[0] == c {
        trim_char_start(s.drop_first(), c)
    } else {
        s
    }
}

/// `s` with trailing occurrences of `c` removed.
pub open spec fn trim_char_end(s: Seq<char>, c: char) -> Seq<char>
    decreases s.len(),
{
    if s.len() > 0 && s.last() == c {
        trim_char_end(s.drop_last(), c)
    } else {
        s
    }
}

/// `s` with leading and trailing occurrences of `c` removed.
pub open spec fn trim_matching(s: Seq<char>, c: char) -> Seq<char> {
    trim_char_end(trim_char_start(s, c), c)
}

proof fn lemma_trim_char_start_skip(s: Seq<char>, c: char, i: int)
    requires
        0 <= i <= s.len(),
        forall|k: int| 0 <= k < i ==> s[k] == c,
        i == s.len() || s[i] != c,
    ensures
        trim_char_start(s, c) == s.subrange(i, s.len() as int),
    decreases i,
{
    if i == 0 {
        assert(s.subrange(0, s.len() as int) =~= s);
    } else {
        let t = s.drop_first();
        lemma_trim_char_start_skip(t, c, i - 1);
        assert(t.subrange(i - 1, t.len() as int) =~= s.subrange(i, s.len() as int));
    }
}

proof fn lemma_trim_char_end_skip(s: Seq<char>, c: char, i: int)
    requires
        0 <= i <= s.len(),
        forall|k: int| i <= k < s.len() ==> s[k] == c,
        i == 0 || s[i - 1] != c,
    ensures
        trim_char_end(s, c) == s.subrange(0, i),
    decreases s.len() - i,
{
    if i == s.len() {
        assert(s.subrange(0, s.len() as int) =~= s);
    } else {
        let t = s.drop_last();
        lemma_trim_char_end_skip(t, c, i);
        assert(t.subrange(0, i) =~= s.subrange(0, i));
    }
}

/// Removes leading and trailing occurrences of `c`.
pub fn trim_matching_exec(s: &Vec<char>, c: char) -> (r: Vec<char>)
    ensures
        r@ == trim_matching(s@, c),
{
    let mut a: usize = 0;
    while a < s.len() && s[a] == c
        invariant
            a <= s@.len(),
            forall|k: int| 0 <= k < a ==> s@[k] == c,
        decreases s@.len() - a,
    {
        a += 1;
    }
    proof {
        lemma_trim_char_start_skip(s@, c, a as int);
    }
    let mut b: usize = s.len();
    while b > a && s[b - 1] == c
        invariant
            a <= b <= s@.len(),
            forall|k: int| 0 <= k < a ==> s@[k] == c,
            forall|k: int| b <= k < s@.len() ==> s@[k] == c,
        decreases b,
    {
        b -= 1;
    }
    let ghost t = trim_char_start(s@, c);
    proof {
        assert(t =~= s@.subrange(a as int, s@.len() as int));
        lemma_trim_char_end_skip(t, c, b - a);
        assert(t.subrange(0, b - a) =~= s@.subrange(a as int, b as int));
    }
    subvec(s, a, b)
}

/// `d` is the position of the last path separator in `s`.
pub open spec fn is_last_slash(s: Seq<char>, d: int) -> bool {
    &&& 0 <= d < s.len()
    &&& s[d] == '/'
    &&& forall|k: int| d < k < s.len() ==> s[k] != '/'
}

/// The final component of a path: everything after the last `/`, or the
/// whole string when it has none.
pub open spec fn file_name_of(s: Seq<char>) -> Seq<char> {
    if exists|d: int| #[trigger] is_last_slash(s, d) {
        let d = choose|d: int| is_last_slash(s, d);
        s.subrange(d + 1, s.len() as int)
    } else {
        s
    }
}

proof fn lemma_last_slash_unique(s: Seq<char>, d1: int, d2: int)
    requires
        is_last_slash(s, d1),
        is_last_slash(s, d2),
    ensures
        d1 == d2,
{
    if d1 < d2 {
        assert(s[d2] != '/');
    }
    if d2 < d1 {
        assert(s[d1] != '/');
    }
}

/// The final component of a path (see [`file_name_of`]).
pub fn file_name_of_exec(s: &Vec<char>) -> (r: Vec<char>)
    ensures
        r@ == file_name_of(s@),
{
    match last_index_of(s, '/') {
        Some(d) => {
            proof {
                assert(is_last_slash(s@, d as int));
                let dd = choose|d2: int| is_last_slash(s@, d2);
                lemma_last_slash_unique(s@, d as int, dd);
            }
            let n = s.len();
            assert(d < n);
            subvec(s, d + 1, n)
        },
        None => {
            proof {
                if exists|d2: int| is_last_slash(s@, d2) {
                    let dd = choose|d2: int| is_last_slash(s@, d2);
                    assert(s@[dd] == '/');
                }
            }
            assert(s@.subrange(0, s@.len() as int) =~= s@);
            subvec(s, 0, s.len())
        },
    }
}


/// Everything before the last path separator, empty when there is none.
pub open spec fn parent_of(s: Seq<char>) -> Seq<char> {
    if exists|d: int| #[trigger] is_last_slash(s, d) {
        let d = choose|d: int| is_last_slash(s, d);
        s.subrange(0, d)
    } else {
        Seq::empty()
    }
}

/// Everything before the last path separator (see [`parent_of`]).
pub fn parent_of_exec(s: &Vec<char>) -> (r: Vec<char>)
    ensures
        r@ == parent_of(s@),
{
    match last_index_of(s, '/') {
        Some(d) => {
            proof {
                assert(is_last_slash(s@, d as int));
                let dd = choose|d2: int| is_last_slash(s@, d2);
                lemma_last_slash_unique(s@, d as int, dd);
            }
            subvec(s, 0, d)
        },
        None => {
            proof {
                if exists|d2: int| is_last_slash(s@, d2) {
                    let dd = choose|d2: int| is_last_slash(s@, d2);
                    assert(s@[dd] == '/');
                }
            }
            let r: Vec<char> = Vec::new();
            assert(r@ =~= Seq::<char>::empty());
            r
        },
    }
}

/// The extension of a file name: everything after the last dot, unless
/// the dot is the leading character or absent.
pub open spec fn ext_of(s: Seq<char>) -> Option<Seq<char>> {
    if exists|d: int| #[trigger] is_last_dot(s, d) {
        let d = choose|d: int| is_last_dot(s, d);
        if d > 0 {
            Option::Some(s.subrange(d + 1, s.len() as int))
        } else {
            Option::None
        }
    } else {
        Option::None
    }
}

/// The extension of a file name (see [`ext_of`]).
pub fn ext_of_exec(s: &Vec<char>) -> (r: Option<Vec<char>>)
    ensures
        match r {
            Some(e) => ext_of(s@) == Option::Some(e@),
            None => ext_of(s@) is None,
        },
{
    match last_index_of(s, '.') {
        Some(d) => {
            proof {
                assert(is_last_dot(s@, d as int));
                let dd = choose|d2: int| is_last_dot(s@, d2);
                lemma_last_dot_unique(s@, d as int, dd);
            }
            let n = s.len();
            assert(d < n);
            if d > 0 {
                Some(subvec(s, d + 1, n))
            } else {
                None
            }
        },
        None => {
            proof {
                if exists|d2: int| is_last_dot(s@, d2) {
                    let dd = choose|d2: int| is_last_dot(s@, d2);
                    assert(s@[dd] == '.');
                }
            }
            None
        },
    }
}

/// `d` is the position of the last dot in `s`.
pub open spec fn is_last_dot(s: Seq<char>, d: int) -> bool {
    &&& 0 <= d < s.len()
    &&& s[d] == '.'
    &&& forall|k: int| d < k < s.len() ==> s[k] != '.'
}

/// The file name `s` without its extension: everything before the last
/// dot, unless the dot is the leading character or absent.
pub open spec fn stem_of(s: Seq<char>) -> Seq<char> {
    if exists|d: int| #[trigger] is_last_dot(s, d) {
        let d = choose|d: int| is_last_dot(s, d);
        if d > 0 {
            s.subrange(0, d)
        } else {
            s
        }
    } else {
        s
    }
}

proof fn lemma_last_dot_unique(s: Seq<char>, d1: int, d2: int)
    requires
        is_last_dot(s, d1),
        is_last_dot(s, d2),
    ensures
        d1 == d2,
{
    if d1 < d2 {
        assert(s[d2] != '.');
    }
    if d2 < d1 {
        assert(s[d1] != '.');
    }
}

/// The file name `s` without its extension (see [`stem_of`]).
pub fn stem_of_exec(s: &Vec<char>) -> (r: Vec<char>)
    ensures
        r@ == stem_of(s@),
{
    match last_index_of(s, '.') {
        Some(d) => {
            proof {
                assert(is_last_dot(s@, d as int));
                let dd = choose|d2: int| is_last_dot(s@, d2);
                lemma_last_dot_unique(s@, d as int, dd);
            }
            assert(s@.subrange(0, s@.len() as int) =~= s@);
            if d > 0 {
                subvec(s, 0, d)
            } else {
                subvec(s, 0, s.len())
            }
        },
        None => {
            proof {
                if exists|d2: int| is_last_dot(s@, d2) {
                    let dd = choose|d2: int| is_last_dot(s@, d2);
                    assert(s@[dd] == '.');
                }
            }
            assert(s@.subrange(0, s@.len() as int) =~= s@);
            subvec(s, 0, s.len())
        },
    }
}

/// An ASCII whitespace character.
pub open spec fn is_space(c: char) -> bool {
    c == ' ' || c == '\t' || c == '\n' || c == '\r'
}

/// `s` with leading whitespace removed.
pub open spec fn trim_start(s: Seq<char>) -> Seq<char>
    decreases s.len(),
{
    if s.len() > 0 && is_space(s[0]) {
        trim_start(s.drop_first())
    } else {
        s
    }
}

/// `s` with trailing whitespace removed.
pub open spec fn trim_end(s: Seq<char>) -> Seq<char>
    decreases s.len(),
{
    if s.len() > 0 && is_space(s.last()) {
        trim_end(s.drop_last())
    } else {
        s
    }
}

/// `s` with leading and trailing whitespace removed.
pub open spec fn trim(s: Seq<char>) -> Seq<char> {
    trim_end(trim_start(s))
}

proof fn lemma_trim_start_skip(s: Seq<char>, i: int)
    requires
        0 <= i <= s.len(),
        forall|k: int| 0 <= k < i ==> is_space(#[trigger] s[k]),
        i == s.len() || !is_space(s[i]),
    ensures
        trim_start(s) == s.subrange(i, s.len() as int),
    decreases i,
{
    if i == 0 {
        assert(s.subrange(0, s.len() as int) =~= s);
    } else {
        let t = s.drop_first();
        assert(is_space(s[0]));
        lemma_trim_start_skip(t, i - 1);
        assert(t.subrange(i - 1, t.len() as int) =~= s.subrange(i, s.len() as int));
    }
}

proof fn lemma_trim_end_skip(s: Seq<char>, i: int)
    requires
        0 <= i <= s.len(),
        forall|k: int| i <= k < s.len() ==> is_space(#[trigger] s[k]),
        i == 0 || !is_space(s[i - 1]),
    ensures
        trim_end(s) == s.subrange(0, i),
    decreases s.len() - i,
{
    if i == s.len() {
        assert(s.subrange(0, s.len() as int) =~= s);
    } else {
        let t = s.drop_last();
        assert(is_space(s.last()));
        lemma_trim_end_skip(t, i);
        assert(t.subrange(0, i) =~= s.subrange(0, i));
    }
}

/// Removes leading and trailing ASCII whitespace.
pub fn trim_chars(s: &Vec<char>) -> (r: Vec<char>)
    ensures
        r@ == trim(s@),
{
    let mut a: usize = 0;
    while a < s.len() && (s[a] == ' ' || s[a] == '\t' || s[a] == '\n' || s[a] == '\r')
        invariant
            a <= s@.len(),
            forall|k: int| 0 <= k < a ==> is_space(#[trigger] s@[k]),
        decreases s@.len() - a,
    {
        a += 1;
    }
    proof {
        lemma_trim_start_skip(s@, a as int);
    }
    let mut b: usize = s.len();
    while b > a && (s[b - 1] == ' ' || s[b - 1] == '\t' || s[b - 1] == '\n' || s[b - 1] == '\r')
        invariant
            a <= b <= s@.len(),
            forall|k: int| 0 <= k < a ==> is_space(#[trigger] s@[k]),
            forall|k: int| b <= k < s@.len() ==> is_space(#[trigger] s@[k]),
        decreases b,
    {
        b -= 1;
    }
    let ghost t = trim_start(s@);
    proof {
        assert(t =~= s@.subrange(a as int, s@.len() as int));
        lemma_trim_end_skip(t, b - a);
        assert(t.subrange(0, b - a) =~= s@.subrange(a as int, b as int));
    }
    subvec(s, a, b)
}

} // verus!
