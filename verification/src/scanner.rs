//! File records, scan options, and size formatting and parsing.
//!
//! Directory traversal itself is input/output and lives outside this crate;
//! the record type, the filter set, and every computation on them are here.

use vstd::prelude::*;
use crate::strutil::{
    all_digits, all_digits_exec, chars_of, dec2_digits, dec_digits, dec_value, index_of_from,
    is_digit, pow10, pow10_exec, parse_u64, string_of, subvec, to_upper, trim, trim_chars, upper,
    u64_to_dec, u64_to_dec2, vec_eq, append_vec, ends_with_vec,
};

verus! {

/// An immutable snapshot of one filesystem entry at scan time.
///
/// `path` is the absolute path, `extension` the lowercased extension if
/// any, and the timestamps are seconds since the Unix epoch.
#[derive(Debug)]
pub struct FileInfo {
    pub path: String,
    pub name: String,
    pub extension: Option<String>,
    pub size: u64,
    pub modified: u64,
    pub created: Option<u64>,
}

impl Clone for FileInfo {
    /// An exact copy of the record.
    fn clone(&self) -> (r: Self)
        ensures
            r == *self,
    {
        FileInfo {
            path: self.path.clone(),
            name: self.name.clone(),
            extension: match &self.extension {
                Some(e) => Some(e.clone()),
                None => None,
            },
            size: self.size,
            modified: self.modified,
            created: match &self.created {
                Some(c) => Some(*c),
                None => None,
            },
        }
    }
}

/// Which records a scan keeps. An absent bound imposes no constraint;
/// all bounds are inclusive.
#[derive(Debug, Clone, Default)]
pub struct ScanOptions {
    /// Include hidden files (names starting with `.`).
    pub include_hidden: bool,
    /// Maximum traversal depth (`None` = unlimited; 1 = immediate children).
    pub max_depth: Option<usize>,
    /// Follow symlinks during traversal.
    pub follow_symlinks: bool,
    /// Glob patterns of files to ignore, by base name or full path.
    pub ignore_patterns: Vec<String>,
    /// Minimum file size in bytes.
    pub min_size: Option<u64>,
    /// Maximum file size in bytes.
    pub max_size: Option<u64>,
    /// Keep only files modified at or after this time (seconds since epoch).
    pub after_date: Option<u64>,
    /// Keep only files modified at or before this time (seconds since epoch).
    pub before_date: Option<u64>,
    /// Keep only names starting with this string (extension removed).
    pub name_startswith: Option<String>,
    /// Keep only names ending with this string (extension removed).
    pub name_endswith: Option<String>,
    /// Keep only names containing this string.
    pub name_contains: Option<String>,
    /// Keep only names matching this regular expression.
    pub regex_pattern: Option<String>,
    /// Keep only files whose guessed MIME type matches this pattern
    /// (exact, or a `prefix/*` wildcard).
    pub mime_filter: Option<String>,
}

/// The total size of a set of records, as an unbounded integer.
pub open spec fn sum_sizes(files: Seq<FileInfo>) -> nat
    decreases files.len(),
{
    if files.len() == 0 {
        0
    } else {
        sum_sizes(files.drop_last()) + files.last().size as nat
    }
}

/// The total size of the given records, saturating at `u64::MAX`.
pub fn total_size(files: &Vec<FileInfo>) -> (r: u64)
    ensures
        r == if sum_sizes(files@) <= u64::MAX {
            sum_sizes(files@)
        } else {
            u64::MAX as nat
        },
{
    let mut r: u64 = 0;
    let mut i: usize = 0;
    while i < files.len()
        invariant
            i <= files@.len(),
            r == if sum_sizes(files@.subrange(0, i as int)) <= u64::MAX {
                sum_sizes(files@.subrange(0, i as int))
            } else {
                u64::MAX as nat
            },
        decreases files@.len() - i,
    {
        let s = files[i].size;
        proof {
            let p = files@.subrange(0, i + 1);
            assert(p.drop_last() =~= files@.subrange(0, i as int));
            assert(sum_sizes(p) == sum_sizes(p.drop_last()) + p.last().size);
        }
        if r > u64::MAX - s {
            r = u64::MAX;
        } else {
            r = r + s;
        }
        i += 1;
    }
    assert(files@.subrange(0, files@.len() as int) =~= files@);
    r
}

pub const KB: u64 = 1024;

pub const MB: u64 = 1024 * 1024;

pub const GB: u64 = 1024 * 1024 * 1024;

pub const TB: u64 = 1024 * 1024 * 1024 * 1024;

/// `bytes/unit` scaled by 100 and rounded to the nearest integer,
/// ties to even.
pub open spec fn scaled_centi(bytes: nat, unit: nat) -> nat
    recommends
        unit > 0,
{
    let n = bytes * 100;
    let q = n / unit;
    let r = n % unit;
    if 2 * r < unit {
        q
    } else if 2 * r > unit {
        q + 1
    } else if q % 2 == 0 {
        q
    } else {
        q + 1
    }
}

/// A quantity with two decimal places: `"12.50"` for 1250.
pub open spec fn two_dec_digits(centi: nat) -> Seq<char> {
    dec_digits(centi / 100) + seq!['.'] + dec2_digits(centi % 100)
}

/// What `format_size` returns: binary units, two decimal places
/// (rounded to nearest, ties to even), bare bytes below 1 KB.
pub open spec fn spec_format_size(bytes: nat) -> Seq<char> {
    if bytes >= GB {
        two_dec_digits(scaled_centi(bytes, GB as nat)) + " GB"@
    } else if bytes >= MB {
        two_dec_digits(scaled_centi(bytes, MB as nat)) + " MB"@
    } else if bytes >= KB {
        two_dec_digits(scaled_centi(bytes, KB as nat)) + " KB"@
    } else {
        dec_digits(bytes) + " B"@
    }
}

/// Two-decimal rendering of `bytes/unit`, rounded to nearest, ties to even.
fn format_two_dec(bytes: u64, unit: u64) -> (r: Vec<char>)
    requires
        unit > 0,
        bytes >= unit,
    ensures
        r@ == two_dec_digits(scaled_centi(bytes as nat, unit as nat)),
{
    let n: u128 = (bytes as u128) * 100;
    let q: u128 = n / (unit as u128);
    let rem: u128 = n % (unit as u128);
    let rounded: u128 = if 2 * rem < unit as u128 {
        q
    } else if 2 * rem > unit as u128 {
        q + 1
    } else if q % 2 == 0 {
        q
    } else {
        q + 1
    };
    proof {
        assert(rounded == scaled_centi(bytes as nat, unit as nat));
        assert(n <= (u64::MAX as u128) * 100);
        assert(q <= n);
        assert(rounded <= n + 1);
    }
    let whole: u64 = (rounded / 100) as u64;
    let frac: u64 = (rounded % 100) as u64;
    let mut out = u64_to_dec(whole);
    out.push('.');
    let f = u64_to_dec2(frac);
    append_vec(&mut out, &f);
    assert(out@ =~= dec_digits(whole as nat) + seq!['.'] + dec2_digits(frac as nat));
    out
}

/// Renders a byte count as a human-readable size: `"1.50 KB"`,
/// `"500 B"`, with two decimals, rounded to nearest, ties to even.
pub fn format_size(bytes: u64) -> (r: String)
    ensures
        r@ == spec_format_size(bytes as nat),
{
    let mut out: Vec<char>;
    if bytes >= GB {
        out = format_two_dec(bytes, GB);
        append_vec(&mut out, &chars_of(" GB"));
    } else if bytes >= MB {
        out = format_two_dec(bytes, MB);
        append_vec(&mut out, &chars_of(" MB"));
    } else if bytes >= KB {
        out = format_two_dec(bytes, KB);
        append_vec(&mut out, &chars_of(" KB"));
    } else {
        out = u64_to_dec(bytes);
        append_vec(&mut out, &chars_of(" B"));
    }
    string_of(&out)
}

/// `u` splits at position `d` into integer digits, a dot, and fraction
/// digits.
pub open spec fn is_num_split(u: Seq<char>, d: int) -> bool {
    &&& 0 <= d < u.len()
    &&& u[d] == '.'
    &&& all_digits(u.subrange(0, d))
    &&& all_digits(u.subrange(d + 1, u.len() as int))
}

/// The integer and fraction digit parts of a decimal number, if `u` is one.
pub open spec fn num_parts(u: Seq<char>) -> Option<(Seq<char>, Seq<char>)> {
    if all_digits(u) {
        Option::Some((u, Seq::<char>::empty()))
    } else if exists|d: int| is_num_split(u, d) {
        let d = choose|d: int| is_num_split(u, d);
        Option::Some((u.subrange(0, d), u.subrange(d + 1, u.len() as int)))
    } else {
        Option::None
    }
}

/// A nonnegative decimal number: digits with at most one dot and at
/// least one digit.
pub open spec fn valid_number(u: Seq<char>) -> bool {
    match num_parts(u) {
        Option::Some((ip, fp)) => ip.len() + fp.len() > 0,
        Option::None => false,
    }
}

proof fn lemma_num_split_unique(u: Seq<char>, d1: int, d2: int)
    requires
        is_num_split(u, d1),
        is_num_split(u, d2),
    ensures
        d1 == d2,
{
    if d1 < d2 {
        assert(u.subrange(d1 + 1, u.len() as int)[d2 - d1 - 1] == u[d2]);
        assert(is_digit(u[d2]));
        assert(u[d2] == '.');
    }
    if d2 < d1 {
        assert(u.subrange(d2 + 1, u.len() as int)[d1 - d2 - 1] == u[d1]);
        assert(is_digit(u[d1]));
        assert(u[d1] == '.');
    }
}

/// The number part and byte multiplier of a size string, after its unit
/// suffix is removed.
pub open spec fn spec_size_suffix(t: Seq<char>) -> (Seq<char>, u64) {
    if "TB"@.is_suffix_of(t) {
        (t.subrange(0, t.len() - 2), TB)
    } else if "GB"@.is_suffix_of(t) {
        (t.subrange(0, t.len() - 2), GB)
    } else if "MB"@.is_suffix_of(t) {
        (t.subrange(0, t.len() - 2), MB)
    } else if "KB"@.is_suffix_of(t) {
        (t.subrange(0, t.len() - 2), KB)
    } else if "B"@.is_suffix_of(t) {
        (t.subrange(0, t.len() - 1), 1)
    } else if "T"@.is_suffix_of(t) {
        (t.subrange(0, t.len() - 1), TB)
    } else if "G"@.is_suffix_of(t) {
        (t.subrange(0, t.len() - 1), GB)
    } else if "M"@.is_suffix_of(t) {
        (t.subrange(0, t.len() - 1), MB)
    } else if "K"@.is_suffix_of(t) {
        (t.subrange(0, t.len() - 1), KB)
    } else {
        (t, 1)
    }
}

/// `u` carries a leading minus sign.
pub open spec fn is_neg(u: Seq<char>) -> bool {
    u.len() > 0 && u[0] == '-'
}

/// `u` without a leading sign character.
pub open spec fn unsigned_part(u: Seq<char>) -> Seq<char> {
    if u.len() > 0 && (u[0] == '+' || u[0] == '-') {
        u.drop_first()
    } else {
        u
    }
}

/// The byte count for integer digits `ip`, fraction digits `fp`, and a
/// byte multiplier, saturating at `u64::MAX`. Fraction digits beyond the
/// nineteenth do not affect the result.
pub open spec fn num_value(ip: Seq<char>, fp: Seq<char>, mult: u64) -> nat {
    let k = if fp.len() < 19 {
        fp.len()
    } else {
        19
    };
    let raw = dec_value(ip) * mult + (dec_value(fp.subrange(0, k as int)) * mult) as int / pow10(k) as int;
    if raw <= u64::MAX {
        raw as nat
    } else {
        u64::MAX as nat
    }
}

/// What `parse_size` accepts and returns, given the uppercased, trimmed
/// input `t`: the number before the unit suffix, converted to bytes.
pub open spec fn spec_parse_size_ok(t: Seq<char>) -> bool {
    let (np, mult) = spec_size_suffix(t);
    let u = trim(np);
    !is_neg(u) && valid_number(unsigned_part(u))
}

/// Parses a human-readable size (`"10MB"`, `"1.5GB"`, `"500KB"`,
/// `"1024"`) into bytes. Binary units; a bare number means bytes; a
/// negative number and any other malformed input are rejected.
#[verifier::rlimit(60)]
pub fn parse_size(s: &str) -> (r: Result<u64, String>)
    ensures
        ({
            let t = upper(trim(s@));
            let np = spec_size_suffix(t).0;
            let mult = spec_size_suffix(t).1;
            let u = trim(np);
            let v = unsigned_part(u);
            match r {
                Ok(x) => {
                    &&& spec_parse_size_ok(t)
                    &&& match num_parts(v) {
                        Option::Some(parts) => x == num_value(parts.0, parts.1, mult),
                        Option::None => false,
                    }
                },
                Err(m) => {
                    &&& !spec_parse_size_ok(t)
                    &&& (valid_number(v) && is_neg(u) ==> m@ == "Size cannot be negative"@)
                    &&& (!valid_number(v) ==> m@ == "Invalid size format: "@ + t)
                },
            }
        }),
{
    let t = to_upper(&trim_chars(&chars_of(s)));
    proof {
        assert(upper(trim(s@)) == t@);
        reveal_strlit("TB");
        reveal_strlit("GB");
        reveal_strlit("MB");
        reveal_strlit("KB");
        reveal_strlit("B");
        reveal_strlit("T");
        reveal_strlit("G");
        reveal_strlit("M");
        reveal_strlit("K");
    }
    let tl = t.len();
    let (np, mult): (Vec<char>, u64) = if ends_with_vec(&t, &chars_of("TB")) {
        (subvec(&t, 0, tl - 2), TB)
    } else if ends_with_vec(&t, &chars_of("GB")) {
        (subvec(&t, 0, tl - 2), GB)
    } else if ends_with_vec(&t, &chars_of("MB")) {
        (subvec(&t, 0, tl - 2), MB)
    } else if ends_with_vec(&t, &chars_of("KB")) {
        (subvec(&t, 0, tl - 2), KB)
    } else if ends_with_vec(&t, &chars_of("B")) {
        (subvec(&t, 0, tl - 1), 1)
    } else if ends_with_vec(&t, &chars_of("T")) {
        (subvec(&t, 0, tl - 1), TB)
    } else if ends_with_vec(&t, &chars_of("G")) {
        (subvec(&t, 0, tl - 1), GB)
    } else if ends_with_vec(&t, &chars_of("M")) {
        (subvec(&t, 0, tl - 1), MB)
    } else if ends_with_vec(&t, &chars_of("K")) {
        (subvec(&t, 0, tl - 1), KB)
    } else {
        (subvec(&t, 0, tl), 1)
    };
    proof {
        assert(t@.subrange(0, t@.len() as int) =~= t@);
        assert((np@, mult) == spec_size_suffix(t@));
    }
    let u = trim_chars(&np);
    let neg = u.len() > 0 && u[0] == '-';
    let v: Vec<char> = if u.len() > 0 && (u[0] == '+' || u[0] == '-') {
        let w = subvec(&u, 1, u.len());
        proof {
            assert(w@ =~= u@.drop_first());
        }
        w
    } else {
        subvec(&u, 0, u.len())
    };
    proof {
        assert(u@.subrange(0, u@.len() as int) =~= u@);
        assert(v@ == unsigned_part(u@));
    }
    let vl = v.len();
    let (ip, fp): (Vec<char>, Vec<char>) = match index_of_from(&v, '.', 0) {
        Some(d) => (subvec(&v, 0, d), subvec(&v, d + 1, vl)),
        None => (subvec(&v, 0, vl), Vec::new()),
    };
    proof {
        assert(v@.subrange(0, v@.len() as int) =~= v@);
        assert(split_shape(v@, ip@, fp@));
    }
    if !(all_digits_exec(&ip) && all_digits_exec(&fp)) || (ip.len() == 0 && fp.len() == 0) {
        proof {
            lemma_invalid_number(v@, ip@, fp@);
        }
        let mut msg = chars_of("Invalid size format: ");
        append_vec(&mut msg, &t);
        return Err(string_of(&msg));
    }
    proof {
        lemma_valid_number(v@, ip@, fp@);
    }
    if neg {
        return Err(string_of(&chars_of("Size cannot be negative")));
    }
    let k: usize = if fp.len() < 19 {
        fp.len()
    } else {
        19
    };
    let f19 = subvec(&fp, 0, k);
    let fval: u64 = if k == 0 {
        assert(f19@ =~= Seq::<char>::empty());
        0
    } else {
        proof {
            crate::strutil::lemma_dec_value_bound(f19@);
            crate::strutil::lemma_pow10_bound(f19@.len());
            assert(all_digits(f19@)) by {
                assert(forall|i: int| 0 <= i < k ==> is_digit(#[trigger] f19@[i]));
            }
        }
        match parse_u64(&f19) {
            Some(x) => x,
            None => {
                assert(false);
                0
            },
        }
    };
    let iv: u64 = if ip.len() == 0 {
        0
    } else {
        match parse_u64(&ip) {
            Some(x) => x,
            None => {
                // the integer part alone exceeds `u64::MAX` bytes
                proof {
                    assert(mult >= 1);
                    assert(dec_value(ip@) * mult >= dec_value(ip@) * 1 == dec_value(ip@)) by (nonlinear_arith)
                        requires mult >= 1;
                }
                return Ok(u64::MAX);
            },
        }
    };
    let p10: u128 = pow10_exec(k) as u128;
    proof {
        crate::strutil::lemma_pow10_pos(k as nat);
        crate::strutil::lemma_pow10_bound(k as nat);
        assert((iv as u128) * (mult as u128) <= (u64::MAX as u128) * (TB as u128)) by (nonlinear_arith)
            requires iv <= u64::MAX, mult <= TB;
        assert((fval as u128) * (mult as u128) <= (u64::MAX as u128) * (TB as u128)) by (nonlinear_arith)
            requires fval <= u64::MAX, mult <= TB;
    }
    let raw: u128 = (iv as u128) * (mult as u128) + ((fval as u128) * (mult as u128)) / p10;
    proof {
        assert(iv == dec_value(ip@));
        assert(f19@ == fp@.subrange(0, k as int));
        assert(raw == dec_value(ip@) * mult + (dec_value(fp@.subrange(0, k as int)) * mult) as int / pow10(
            k as nat,
        ) as int);
    }
    if raw > u64::MAX as u128 {
        Ok(u64::MAX)
    } else {
        Ok(raw as u64)
    }
}

proof fn lemma_valid_number(v: Seq<char>, ip: Seq<char>, fp: Seq<char>)
    requires
        split_shape(v, ip, fp),
        all_digits(ip),
        all_digits(fp),
        ip.len() + fp.len() > 0,
    ensures
        valid_number(v),
        num_parts(v) == Option::Some((ip, fp)),
{
    if ip.len() + 1 + fp.len() == v.len() {
        // dotted form
        let d = ip.len() as int;
        assert(is_num_split(v, d));
        assert(!all_digits(v)) by {
            assert(!is_digit(v[d]));
        }
        let dd = choose|d2: int| is_num_split(v, d2);
        lemma_num_split_unique(v, d, dd);
        assert(v.subrange(0, d) =~= ip);
        assert(v.subrange(d + 1, v.len() as int) =~= fp);
    } else {
        assert(all_digits(v));
    }
}

proof fn lemma_invalid_number(v: Seq<char>, ip: Seq<char>, fp: Seq<char>)
    requires
        split_shape(v, ip, fp),
        !(all_digits(ip) && all_digits(fp)) || (ip.len() == 0 && fp.len() == 0),
    ensures
        !valid_number(v),
{
    if ip.len() + 1 + fp.len() == v.len() {
        let d = ip.len() as int;
        assert(v.subrange(0, d) =~= ip);
        assert(v.subrange(d + 1, v.len() as int) =~= fp);
        assert(!all_digits(v)) by {
            assert(!is_digit(v[d]));
        }
        if exists|d2: int| is_num_split(v, d2) {
            let dd = choose|d2: int| is_num_split(v, d2);
            // the chosen split can only be at the first dot
            assert(dd == d) by {
                assert(v[dd] == '.');
                if dd < d {
                    assert(v[dd] != '.');
                }
                if dd > d {
                    assert(is_digit(v.subrange(0, dd)[d]));
                    assert(v.subrange(0, dd)[d] == v[d]);
                }
            }
            assert(all_digits(ip));
            assert(all_digits(fp));
            assert(ip.len() == 0 && fp.len() == 0);
            assert(v.len() == 1);
        }
    } else {
        // no dot anywhere in `v`
        assert(v =~= ip);
        assert(fp =~= Seq::<char>::empty());
        if exists|d2: int| is_num_split(v, d2) {
            let dd = choose|d2: int| is_num_split(v, d2);
            assert(v[dd] == '.');
            assert(v[dd] != '.');
        }
        if all_digits(v) {
            assert(ip.len() == 0 && fp.len() == 0);
            assert(v.len() == 0);
        }
    }
}

/// The shape produced by splitting `v` at its first dot: either a dotted
/// split whose parts are dot-free on the left, or all of `v` with no dot.
pub open spec fn split_shape(v: Seq<char>, ip: Seq<char>, fp: Seq<char>) -> bool {
    if ip.len() + 1 + fp.len() == v.len() {
        &&& ip.len() < v.len()
        &&& v[ip.len() as int] == '.'
        &&& ip =~= v.subrange(0, ip.len() as int)
        &&& fp =~= v.subrange(ip.len() as int + 1, v.len() as int)
        &&& forall|i: int| 0 <= i < ip.len() ==> v[i] != '.'
    } else {
        &&& ip =~= v
        &&& fp =~= Seq::<char>::empty()
        &&& forall|i: int| 0 <= i < v.len() ==> v[i] != '.'
    }
}

} // verus!

use crate::filters::{
    glob_match, glob_match_of, matches_regex, matches_mime, name_filter_matches, regex_match_of,
    regex_valid_of, spec_matches_mime, NameFilter,
};

verus! {

/// The name filter that a scan's options describe; scans always match
/// names case-insensitively.
pub open spec fn options_name_filter(o: ScanOptions) -> NameFilter {
    NameFilter {
        startswith: o.name_startswith,
        endswith: o.name_endswith,
        contains: o.name_contains,
        case_insensitive: true,
    }
}

/// Whether a record passes every active predicate of the scan options:
/// the hidden-file rule, the ignore patterns (by name or full path), the
/// size and date bounds, the name filter, the regular expression, and
/// the MIME filter. Traversal-only options (depth, symlinks) do not
/// appear here.
pub open spec fn spec_record_passes(f: FileInfo, o: ScanOptions) -> bool {
    &&& (o.include_hidden || !(f.name@.len() > 0 && f.name@[0] == '.'))
    &&& forall|i: int|
        0 <= i < o.ignore_patterns@.len() ==> !(glob_match_of(
            #[trigger] o.ignore_patterns@[i]@,
            f.name@,
        ) || glob_match_of(o.ignore_patterns@[i]@, f.path@))
    &&& match o.min_size {
        Option::Some(m) => f.size >= m,
        Option::None => true,
    }
    &&& match o.max_size {
        Option::Some(m) => f.size <= m,
        Option::None => true,
    }
    &&& match o.after_date {
        Option::Some(d) => f.modified >= d,
        Option::None => true,
    }
    &&& match o.before_date {
        Option::Some(d) => f.modified <= d,
        Option::None => true,
    }
    &&& {
        let nf = options_name_filter(o);
        (nf.startswith is None && nf.endswith is None && nf.contains is None)
            || name_filter_matches(nf, f.name@)
    }
    &&& match o.regex_pattern {
        Option::Some(p) => regex_valid_of(p@) && regex_match_of(p@, f.name@),
        Option::None => true,
    }
    &&& match o.mime_filter {
        Option::Some(m) => spec_matches_mime(f.path@, m@),
        Option::None => true,
    }
}

/// Whether a scanned record is kept under the given options. The caller
/// walks the tree (honoring depth and symlink settings) and keeps the
/// regular files for which this returns true.
pub fn record_passes(file: &FileInfo, options: &ScanOptions) -> (r: bool)
    ensures
        r == spec_record_passes(*file, *options),
{
    if !options.include_hidden {
        let name = chars_of(file.name.as_str());
        if name.len() > 0 && name[0] == '.' {
            return false;
        }
    }
    let mut i: usize = 0;
    while i < options.ignore_patterns.len()
        invariant
            i <= options.ignore_patterns@.len(),
            forall|k: int|
                0 <= k < i ==> !(glob_match_of(
                    #[trigger] options.ignore_patterns@[k]@,
                    file.name@,
                ) || glob_match_of(options.ignore_patterns@[k]@, file.path@)),
        decreases options.ignore_patterns@.len() - i,
    {
        let p = &options.ignore_patterns[i];
        if glob_match(p.as_str(), file.name.as_str()) || glob_match(p.as_str(), file.path.as_str())
        {
            return false;
        }
        i += 1;
    }
    match &options.min_size {
        Some(m) => {
            if file.size < *m {
                return false;
            }
        },
        None => {},
    }
    match &options.max_size {
        Some(m) => {
            if file.size > *m {
                return false;
            }
        },
        None => {},
    }
    match &options.after_date {
        Some(d) => {
            if file.modified < *d {
                return false;
            }
        },
        None => {},
    }
    match &options.before_date {
        Some(d) => {
            if file.modified > *d {
                return false;
            }
        },
        None => {},
    }
    let nf = NameFilter {
        startswith: match &options.name_startswith {
            Some(s) => Some(s.clone()),
            None => None,
        },
        endswith: match &options.name_endswith {
            Some(s) => Some(s.clone()),
            None => None,
        },
        contains: match &options.name_contains {
            Some(s) => Some(s.clone()),
            None => None,
        },
        case_insensitive: true,
    };
    if !(nf.is_empty() || nf.matches(file.name.as_str())) {
        return false;
    }
    match &options.regex_pattern {
        Some(p) => {
            let ok = match matches_regex(file.name.as_str(), p.as_str()) {
                Ok(b) => b,
                Err(_) => false,
            };
            if !ok {
                return false;
            }
        },
        None => {},
    }
    match &options.mime_filter {
        Some(m) => {
            if !matches_mime(file.path.as_str(), m.as_str()) {
                return false;
            }
        },
        None => {},
    }
    true
}

/// The usable patterns among the lines of an ignore file: each line
/// trimmed, with empty lines and `#` comments dropped.
pub open spec fn spec_ignore_lines(lines: Seq<Seq<char>>) -> Seq<Seq<char>>
    decreases lines.len(),
{
    if lines.len() == 0 {
        Seq::empty()
    } else {
        let rest = spec_ignore_lines(lines.drop_last());
        let t = trim(lines.last());
        if t.len() > 0 && t[0] != '#' {
            rest.push(t)
        } else {
            rest
        }
    }
}

/// Trims each line and drops empty lines and `#` comments, keeping order.
pub fn filter_ignore_lines(lines: &Vec<String>) -> (r: Vec<String>)
    ensures
        r.deep_view() == spec_ignore_lines(lines.deep_view()),
{
    let mut r: Vec<String> = Vec::new();
    let mut i: usize = 0;
    while i < lines.len()
        invariant
            i <= lines@.len(),
            r.deep_view() == spec_ignore_lines(lines.deep_view().subrange(0, i as int)),
        decreases lines@.len() - i,
    {
        proof {
            assert(lines.deep_view().subrange(0, i + 1).drop_last() =~= lines.deep_view().subrange(
                0,
                i as int,
            ));
            assert(lines.deep_view().subrange(0, i + 1).last() == lines@[i as int]@);
        }
        let t = trim_chars(&chars_of(lines[i].as_str()));
        if t.len() > 0 && t[0] != '#' {
            r.push(string_of(&t));
            assert(r.deep_view() =~= spec_ignore_lines(lines.deep_view().subrange(0, i + 1)));
        } else {
            assert(r.deep_view() =~= spec_ignore_lines(lines.deep_view().subrange(0, i + 1)));
        }
        i += 1;
    }
    assert(lines.deep_view().subrange(0, lines.deep_view().len() as int) =~= lines.deep_view());
    r
}

} // verus!

use crate::timeutil::{check_civil_date, civil_to_epoch_secs, epoch_of_civil, valid_civil_date};

verus! {

/// `t` splits at positions `d1 < d2` into three separator-free fields.
pub open spec fn is_date_split(t: Seq<char>, sep: char, d1: int, d2: int) -> bool {
    &&& 0 <= d1 < d2 < t.len()
    &&& t[d1] == sep
    &&& t[d2] == sep
    &&& forall|k: int| 0 <= k < d1 ==> t[k] != sep
    &&& forall|k: int| d1 < k < d2 ==> t[k] != sep
    &&& forall|k: int| d2 < k < t.len() ==> t[k] != sep
}

/// The three fields of `t` around its two separators, if it has exactly
/// two of them.
pub open spec fn date_fields(t: Seq<char>, sep: char) -> Option<(Seq<char>, Seq<char>, Seq<char>)> {
    if exists|d1: int, d2: int| is_date_split(t, sep, d1, d2) {
        let (d1, d2) = choose|d1: int, d2: int| is_date_split(t, sep, d1, d2);
        Option::Some(
            (t.subrange(0, d1), t.subrange(d1 + 1, d2), t.subrange(d2 + 1, t.len() as int)),
        )
    } else {
        Option::None
    }
}

proof fn lemma_date_split_unique(t: Seq<char>, sep: char, a1: int, a2: int, b1: int, b2: int)
    requires
        is_date_split(t, sep, a1, a2),
        is_date_split(t, sep, b1, b2),
    ensures
        a1 == b1,
        a2 == b2,
{
    if a1 < b1 {
        assert(t[a1] != sep);
    }
    if b1 < a1 {
        assert(t[b1] != sep);
    }
    if a2 < b2 {
        if a2 < b1 {
            assert(t[a2] != sep);
        } else {
            assert(t[a2] != sep);
        }
    }
    if b2 < a2 {
        assert(t[b2] != sep);
    }
}

/// The year, month, and day named by three digit fields, when they form
/// a valid date: up to four year digits and up to two digits each for
/// month and day.
pub open spec fn fields_date(p1: Seq<char>, p2: Seq<char>, p3: Seq<char>) -> Option<
    (u64, u64, u64),
> {
    if {
        &&& 1 <= p1.len() <= 4
        &&& 1 <= p2.len() <= 2
        &&& 1 <= p3.len() <= 2
        &&& all_digits(p1)
        &&& all_digits(p2)
        &&& all_digits(p3)
        &&& valid_civil_date(dec_value(p1) as u64, dec_value(p2) as u64, dec_value(p3) as u64)
    } {
        Option::Some((dec_value(p1) as u64, dec_value(p2) as u64, dec_value(p3) as u64))
    } else {
        Option::None
    }
}

/// The date that the trimmed input names, under the separator it uses:
/// `-` when it contains one, else `/`, else nothing.
pub open spec fn spec_parse_date(t: Seq<char>) -> Option<(u64, u64, u64)> {
    let sep = if exists|k: int| 0 <= k < t.len() && t[k] == '-' {
        Option::Some('-')
    } else if exists|k: int| 0 <= k < t.len() && t[k] == '/' {
        Option::Some('/')
    } else {
        Option::<char>::None
    };
    match sep {
        Option::Some(c) => match date_fields(t, c) {
            Option::Some(f) => fields_date(f.0, f.1, f.2),
            Option::None => Option::None,
        },
        Option::None => Option::None,
    }
}

/// Splits `t` into exactly three fields around two occurrences of `sep`.
fn split_date_fields(t: &Vec<char>, sep: char) -> (r: Option<(Vec<char>, Vec<char>, Vec<char>)>)
    ensures
        match r {
            Some(f) => date_fields(t@, sep) == Option::Some((f.0@, f.1@, f.2@)),
            None => date_fields(t@, sep) is None,
        },
{
    let tl = t.len();
    let d1 = match index_of_from(t, sep, 0) {
        Some(d) => d,
        None => {
            proof {
                if exists|a1: int, a2: int| is_date_split(t@, sep, a1, a2) {
                    let (a1, a2) = choose|a1: int, a2: int| is_date_split(t@, sep, a1, a2);
                    assert(t@[a1] == sep);
                }
            }
            return None;
        },
    };
    assert(d1 < tl);
    let d2 = match index_of_from(t, sep, d1 + 1) {
        Some(d) => d,
        None => {
            proof {
                if exists|a1: int, a2: int| is_date_split(t@, sep, a1, a2) {
                    let (a1, a2) = choose|a1: int, a2: int| is_date_split(t@, sep, a1, a2);
                    assert(t@[a1] == sep && t@[a2] == sep);
                    assert(a1 == d1);
                    assert(t@[a2] != sep);
                }
            }
            return None;
        },
    };
    assert(d2 < tl);
    match index_of_from(t, sep, d2 + 1) {
        Some(d3) => {
            proof {
                if exists|a1: int, a2: int| is_date_split(t@, sep, a1, a2) {
                    let (a1, a2) = choose|a1: int, a2: int| is_date_split(t@, sep, a1, a2);
                    lemma_date_split_unique(t@, sep, a1, a2, d1 as int, d2 as int);
                    assert(t@[d3 as int] != sep);
                }
            }
            None
        },
        None => {
            proof {
                assert(is_date_split(t@, sep, d1 as int, d2 as int));
                let (a1, a2) = choose|a1: int, a2: int| is_date_split(t@, sep, a1, a2);
                lemma_date_split_unique(t@, sep, a1, a2, d1 as int, d2 as int);
            }
            Some((subvec(t, 0, d1), subvec(t, d1 + 1, d2), subvec(t, d2 + 1, t.len())))
        },
    }
}

/// Parses a date written `YYYY-MM-DD` or `YYYY/MM/DD` into the epoch
/// timestamp of its midnight UTC. Years before 1970 and after 9999, and
/// every invalid calendar date, are rejected.
pub fn parse_date(s: &str) -> (r: Result<u64, String>)
    ensures
        ({
            let t = trim(s@);
            match r {
                Ok(ts) => {
                    &&& spec_parse_date(t) is Some
                    &&& ts == epoch_of_civil(
                        spec_parse_date(t)->Some_0.0,
                        spec_parse_date(t)->Some_0.1,
                        spec_parse_date(t)->Some_0.2,
                    )
                },
                Err(_) => spec_parse_date(t) is None,
            }
        }),
{
    let t = trim_chars(&chars_of(s));
    let has_dash = index_of_from(&t, '-', 0).is_some();
    let has_slash = index_of_from(&t, '/', 0).is_some();
    let mut msg: Vec<char>;
    if !has_dash && !has_slash {
        msg = chars_of("Invalid date format: ");
        append_vec(&mut msg, &t);
        append_vec(&mut msg, &chars_of(". Use YYYY-MM-DD or YYYY/MM/DD"));
        return Err(string_of(&msg));
    }
    let sep: char = if has_dash {
        '-'
    } else {
        '/'
    };
    let fields = split_date_fields(&t, sep);
    let ok: Option<u64> = match fields {
        Some(f) => {
            let (p1, p2, p3) = f;
            if 1 <= p1.len() && p1.len() <= 4 && 1 <= p2.len() && p2.len() <= 2 && 1 <= p3.len()
                && p3.len() <= 2 && all_digits_exec(&p1) && all_digits_exec(&p2) && all_digits_exec(
                &p3,
            ) {
                proof {
                    crate::strutil::lemma_dec_value_bound(p1@);
                    crate::strutil::lemma_dec_value_bound(p2@);
                    crate::strutil::lemma_dec_value_bound(p3@);
                    crate::strutil::lemma_pow10_bound(p1@.len());
                    crate::strutil::lemma_pow10_bound(p2@.len());
                    crate::strutil::lemma_pow10_bound(p3@.len());
                }
                let y = match parse_u64(&p1) {
                    Some(v) => v,
                    None => {
                        assert(false);
                        0
                    },
                };
                let m = match parse_u64(&p2) {
                    Some(v) => v,
                    None => {
                        assert(false);
                        0
                    },
                };
                let d = match parse_u64(&p3) {
                    Some(v) => v,
                    None => {
                        assert(false);
                        0
                    },
                };
                if check_civil_date(y, m, d) {
                    Some(civil_to_epoch_secs(y, m, d))
                } else {
                    None
                }
            } else {
                None
            }
        },
        None => None,
    };
    match ok {
        Some(ts) => Ok(ts),
        None => {
            msg = chars_of("Invalid date: ");
            append_vec(&mut msg, &t);
            append_vec(&mut msg, &chars_of(". Use YYYY-MM-DD or YYYY/MM/DD"));
            Err(string_of(&msg))
        },
    }
}

} // verus!
