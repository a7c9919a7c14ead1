//! Age-based cleanup: duration parsing and old-file selection.
//!
//! Deleting files and walking directories are input/output and live
//! outside this crate; the selection and parsing logic is here.

use vstd::prelude::*;
use crate::error::NeatError;
use crate::scanner::FileInfo;
use crate::strutil::{
    all_digits, dec_digits, dec_value, lower, parse_u64, string_of, subvec, to_lower, trim,
    trim_chars, u64_to_dec, append_vec, chars_of,
};

verus! {

/// The number part and seconds-per-unit of a duration string, after its
/// unit suffix (`d`, `w`, or `h`; days when absent) is removed.
pub open spec fn spec_duration_suffix(t: Seq<char>) -> (Seq<char>, u64) {
    if t.len() > 0 && t.last() == 'd' {
        (t.drop_last(), 86400)
    } else if t.len() > 0 && t.last() == 'w' {
        (t.drop_last(), 604800)
    } else if t.len() > 0 && t.last() == 'h' {
        (t.drop_last(), 3600)
    } else {
        (t, 86400)
    }
}

/// What `parse_duration` accepts: a nonempty digit string (after trim,
/// lowercasing, and suffix removal) whose value in seconds fits in `u64`.
pub open spec fn spec_parse_duration_ok(t: Seq<char>) -> bool {
    let (np, unit) = spec_duration_suffix(t);
    np.len() > 0 && all_digits(np) && dec_value(np) * unit <= u64::MAX
}

/// Parses a duration such as `"30d"`, `"1w"`, or `"24h"` into seconds.
/// A bare number means days. Case-insensitive; surrounding whitespace is
/// ignored; anything else is an `InvalidDuration` error.
pub fn parse_duration(s: &str) -> (r: Result<u64, NeatError>)
    ensures
        ({
            let t = lower(trim(s@));
            let np = spec_duration_suffix(t).0;
            let unit = spec_duration_suffix(t).1;
            match r {
                Ok(secs) => spec_parse_duration_ok(t) && secs == dec_value(np) * unit,
                Err(e) => {
                    &&& !spec_parse_duration_ok(t)
                    &&& e matches NeatError::InvalidDuration(m) && m@ == t
                },
            }
        }),
{
    let t = to_lower(&trim_chars(&chars_of(s)));
    let tl = t.len();
    let (np, unit): (Vec<char>, u64) = if tl > 0 && t[tl - 1] == 'd' {
        (subvec(&t, 0, tl - 1), 86400)
    } else if tl > 0 && t[tl - 1] == 'w' {
        (subvec(&t, 0, tl - 1), 604800)
    } else if tl > 0 && t[tl - 1] == 'h' {
        (subvec(&t, 0, tl - 1), 3600)
    } else {
        (subvec(&t, 0, tl), 86400)
    };
    proof {
        assert(t@.subrange(0, t@.len() as int) =~= t@);
        assert(t@.subrange(0, t@.len() - 1) =~= t@.drop_last());
        assert((np@, unit) == spec_duration_suffix(t@));
    }
    match parse_u64(&np) {
        Some(num) => {
            if num > u64::MAX / unit {
                proof {
                    vstd::arithmetic::div_mod::lemma_fundamental_div_mod(u64::MAX as int, unit as int);
                    assert(num * unit > u64::MAX) by (nonlinear_arith)
                        requires
                            num > u64::MAX as int / unit as int,
                            unit > 0,
                            u64::MAX as int == (u64::MAX as int / unit as int) * unit + u64::MAX as int % unit as int,
                            (u64::MAX as int % unit as int) < unit;
                }
                Err(NeatError::InvalidDuration(string_of(&t)))
            } else {
                proof {
                    assert(num * unit <= (u64::MAX / unit) * unit) by (nonlinear_arith)
                        requires num <= u64::MAX as int / unit as int, unit > 0;
                    assert((u64::MAX / unit) * unit <= u64::MAX) by (nonlinear_arith)
                        requires unit > 0;
                }
                Ok(num * unit)
            }
        },
        None => {
            proof {
                if all_digits(np@) && np@.len() > 0 {
                    assert(dec_value(np@) > u64::MAX);
                    assert(dec_value(np@) * unit >= dec_value(np@) * 1) by (nonlinear_arith)
                        requires unit >= 1;
                }
            }
            Err(NeatError::InvalidDuration(string_of(&t)))
        },
    }
}

/// The records in `files` whose modification time is strictly before
/// `cutoff`, in order.
pub open spec fn spec_old_files(files: Seq<FileInfo>, cutoff: u64) -> Seq<FileInfo>
    decreases files.len(),
{
    if files.len() == 0 {
        Seq::empty()
    } else {
        let rest = spec_old_files(files.drop_last(), cutoff);
        if files.last().modified < cutoff {
            rest.push(files.last())
        } else {
            rest
        }
    }
}

/// The files last modified more than `max_age_secs` before `now_secs`:
/// modification time strictly before `now_secs - max_age_secs`
/// (zero when the age exceeds the clock).
pub fn find_old_files(files: &Vec<FileInfo>, max_age_secs: u64, now_secs: u64) -> (r: Vec<
    FileInfo,
>)
    ensures
        r@ == spec_old_files(
            files@,
            if max_age_secs <= now_secs {
                (now_secs - max_age_secs) as u64
            } else {
                0
            },
        ),
{
    let cutoff: u64 = if max_age_secs <= now_secs {
        now_secs - max_age_secs
    } else {
        0
    };
    let mut r: Vec<FileInfo> = Vec::new();
    let mut i: usize = 0;
    while i < files.len()
        invariant
            i <= files@.len(),
            r@ == spec_old_files(files@.subrange(0, i as int), cutoff),
        decreases files@.len() - i,
    {
        proof {
            assert(files@.subrange(0, i + 1).drop_last() =~= files@.subrange(0, i as int));
        }
        if files[i].modified < cutoff {
            r.push(files[i].clone());
        }
        i += 1;
    }
    assert(files@.subrange(0, files@.len() as int) =~= files@);
    r
}

/// What `format_age` returns: the age in the largest round unit among
/// minutes, hours, days, and weeks, with an `" ago"` suffix.
pub open spec fn spec_format_age(secs: nat) -> Seq<char> {
    if secs < 3600 {
        dec_digits(secs / 60) + "m ago"@
    } else if secs < 86400 {
        dec_digits(secs / 3600) + "h ago"@
    } else if secs < 604800 {
        dec_digits(secs / 86400) + "d ago"@
    } else {
        dec_digits(secs / 604800) + "w ago"@
    }
}

/// Renders an age in seconds as `"30m ago"`, `"2h ago"`, `"2d ago"`, or
/// `"2w ago"`.
pub fn format_age(secs: u64) -> (r: String)
    ensures
        r@ == spec_format_age(secs as nat),
{
    let mut out: Vec<char>;
    if secs < 3600 {
        out = u64_to_dec(secs / 60);
        append_vec(&mut out, &chars_of("m ago"));
    } else if secs < 86400 {
        out = u64_to_dec(secs / 3600);
        append_vec(&mut out, &chars_of("h ago"));
    } else if secs < 604800 {
        out = u64_to_dec(secs / 86400);
        append_vec(&mut out, &chars_of("d ago"));
    } else {
        out = u64_to_dec(secs / 604800);
        append_vec(&mut out, &chars_of("w ago"));
    }
    string_of(&out)
}

} // verus!

verus! {

broadcast use vstd::seq_lib::group_to_multiset_ensures;

/// Path `f` lies strictly under directory `d`.
pub open spec fn is_under(f: Seq<char>, d: Seq<char>) -> bool {
    (d + "/"@).is_prefix_of(f)
}

/// No file lies anywhere under the directory: its whole subtree is
/// free of files (empty subdirectories do not count).
pub open spec fn dir_is_empty(d: Seq<char>, files: Seq<String>) -> bool {
    forall|i: int| 0 <= i < files.len() ==> !is_under((#[trigger] files[i])@, d)
}

/// The directories with no file beneath them, in input order.
pub open spec fn spec_empty_dirs(dirs: Seq<String>, files: Seq<String>) -> Seq<String>
    decreases dirs.len(),
{
    if dirs.len() == 0 {
        Seq::empty()
    } else {
        let rest = spec_empty_dirs(dirs.drop_last(), files);
        if dir_is_empty(dirs.last()@, files) {
            rest.push(dirs.last())
        } else {
            rest
        }
    }
}

/// Whether no file lies under the directory.
fn check_dir_empty(d: &String, files: &Vec<String>) -> (r: bool)
    ensures
        r == dir_is_empty(d@, files@),
{
    proof {
        reveal_strlit("/");
    }
    let mut prefix = chars_of(d.as_str());
    prefix.push('/');
    assert(prefix@ =~= d@ + "/"@);
    let mut i: usize = 0;
    while i < files.len()
        invariant
            prefix@ == d@ + "/"@,
            i <= files@.len(),
            forall|k: int| 0 <= k < i ==> !is_under((#[trigger] files@[k])@, d@),
        decreases files@.len() - i,
    {
        if crate::strutil::starts_with_vec(&chars_of(files[i].as_str()), &prefix) {
            return false;
        }
        i += 1;
    }
    true
}

/// The directories of a tree whose subtrees hold no file, deepest paths
/// first, so that children always come before their parents and no
/// listed directory is an ancestor of a later one. `dirs` and `files`
/// are the directories and files of the tree, as the caller walked it.
pub fn find_empty_dirs(dirs: &Vec<String>, files: &Vec<String>) -> (r: Vec<String>)
    ensures
        r@.to_multiset() == spec_empty_dirs(dirs@, files@).to_multiset(),
        forall|k: int| 0 <= k < r@.len() ==> dir_is_empty((#[trigger] r@[k])@, files@),
        forall|a: int, b: int|
            0 <= a < b < r@.len() ==> (#[trigger] r@[a])@.len() >= (#[trigger] r@[b])@.len(),
        forall|a: int, b: int| 0 <= a < b < r@.len() ==> !is_under((#[trigger] r@[b])@, (
        #[trigger] r@[a])@),
{
    let mut work: Vec<String> = Vec::new();
    let mut i: usize = 0;
    while i < dirs.len()
        invariant
            i <= dirs@.len(),
            work@ == spec_empty_dirs(dirs@.subrange(0, i as int), files@),
            forall|k: int| 0 <= k < work@.len() ==> dir_is_empty((#[trigger] work@[k])@, files@),
        decreases dirs@.len() - i,
    {
        proof {
            assert(dirs@.subrange(0, i + 1).drop_last() =~= dirs@.subrange(0, i as int));
            assert(dirs@.subrange(0, i + 1).last() == dirs@[i as int]);
        }
        if check_dir_empty(&dirs[i], files) {
            work.push(dirs[i].clone());
        }
        i += 1;
    }
    assert(dirs@.subrange(0, dirs@.len() as int) =~= dirs@);
    let ghost kept = work@;
    // order the kept directories deepest first, so children precede
    // their parents
    let mut out: Vec<String> = Vec::new();
    while work.len() > 0
        invariant
            out@.to_multiset().add(work@.to_multiset()) =~= kept.to_multiset(),
            forall|k: int| 0 <= k < work@.len() ==> dir_is_empty((#[trigger] work@[k])@, files@),
            forall|k: int| 0 <= k < out@.len() ==> dir_is_empty((#[trigger] out@[k])@, files@),
            forall|a: int, b: int|
                0 <= a < b < out@.len() ==> (#[trigger] out@[a])@.len() >= (
                #[trigger] out@[b])@.len(),
            forall|a: int, k: int|
                0 <= a < out@.len() && 0 <= k < work@.len() ==> (#[trigger] out@[a])@.len() >= (
                #[trigger] work@[k])@.len(),
        decreases work@.len(),
    {
        let mut mi: usize = 0;
        let mut ml: usize = work[0].as_str().unicode_len();
        let mut j: usize = 1;
        while j < work.len()
            invariant
                work@.len() > 0,
                mi < j <= work@.len(),
                ml == work@[mi as int]@.len(),
                forall|k: int| 0 <= k < j ==> (#[trigger] work@[k])@.len() <= work@[
                mi as int]@.len(),
            decreases work@.len() - j,
        {
            let jl = work[j].as_str().unicode_len();
            if jl > ml {
                mi = j;
                ml = jl;
            }
            j += 1;
        }
        let ghost work_before = work@;
        let d = work.remove(mi);
        proof {
            assert(work@ =~= work_before.remove(mi as int));
            assert(work@.to_multiset() =~= work_before.to_multiset().remove(d));
            assert(forall|k: int|
                0 <= k < work@.len() ==> #[trigger] work@[k] == if k < mi {
                    work_before[k]
                } else {
                    work_before[k + 1]
                });
        }
        let ghost out_before = out@;
        out.push(d);
        proof {
            assert(out@.to_multiset() =~= out_before.to_multiset().insert(d));
            assert(out@.to_multiset().add(work@.to_multiset()) =~= kept.to_multiset()) by {
                assert(work_before.to_multiset().count(d) >= 1) by {
                    assert(work_before[mi as int] == d);
                    assert(work_before.contains(d));
                }
                assert(out_before.to_multiset().insert(d).add(
                    work_before.to_multiset().remove(d),
                ) =~= out_before.to_multiset().add(work_before.to_multiset()));
            }
        }
    }
    proof {
        // an ancestor's path is strictly shorter than its descendant's,
        // so the length order forbids a parent before a child
        assert forall|a: int, b: int| 0 <= a < b < out@.len() implies !is_under((
        #[trigger] out@[b])@, (#[trigger] out@[a])@) by {
            reveal_strlit("/");
            if is_under(out@[b]@, out@[a]@) {
                assert(out@[b]@.len() >= out@[a]@.len() + 1);
            }
        }
    }
    out
}

} // verus!
