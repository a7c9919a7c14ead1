//! Custom organization rules and settings.
//!
//! Loading the TOML configuration file is input/output and lives
//! outside this crate; the rules, their matching, and their priority
//! order are here.

use vstd::prelude::*;
use vstd::seq_lib::group_to_multiset_ensures;
use crate::filters::{glob_match, glob_match_of};
use crate::organizer::path_join;
use crate::strutil::{chars_of, dec2_digits, dec_digits, string_of, u64_to_dec, u64_to_dec2};
use crate::template::{replace_seq, replace_vec};
use crate::timeutil::{civil_from_secs, now_secs_clamped};

verus! {

broadcast use group_to_multiset_ensures;

/// Default settings for scans and organize runs.
#[derive(Debug, Clone)]
pub struct Settings {
    /// Include hidden files.
    pub include_hidden: bool,
    /// Follow symlinks.
    pub follow_symlinks: bool,
    /// The organize mode used when none is given.
    pub default_organize_mode: String,
}

/// The organize mode used when the configuration names none.
pub fn default_organize_mode() -> (r: String)
    ensures
        r@ == "by-type"@,
{
    let r = chars_of("by-type");
    string_of(&r)
}

impl Default for Settings {
    /// Hidden files excluded, symlinks not followed, by-type organizing.
    fn default() -> (r: Self)
        ensures
            !r.include_hidden,
            !r.follow_symlinks,
            r.default_organize_mode@ == "by-type"@,
    {
        Settings {
            include_hidden: false,
            follow_symlinks: false,
            default_organize_mode: default_organize_mode(),
        }
    }
}

/// A custom organization rule: a glob pattern and a destination
/// template, applied by descending priority.
#[derive(Debug)]
pub struct Rule {
    /// Rule name, for display.
    pub name: String,
    /// Glob pattern the file name must match.
    pub pattern: String,
    /// Destination folder template; `{year}`, `{month}`, `{day}`, and
    /// `{ext}` are substituted.
    pub destination: String,
    /// Higher priorities are consulted first.
    pub priority: i32,
    /// A shell command run after moving a matching file, if any.
    pub post_action: Option<String>,
}

impl Clone for Rule {
    /// An exact copy of the rule.
    fn clone(&self) -> (r: Self)
        ensures
            r == *self,
    {
        Rule {
            name: self.name.clone(),
            pattern: self.pattern.clone(),
            destination: self.destination.clone(),
            priority: self.priority,
            post_action: match &self.post_action {
                Some(a) => Some(a.clone()),
                None => None,
            },
        }
    }
}

/// The destination template with the date and extension placeholders
/// substituted, in substitution order.
pub open spec fn spec_rule_folder(
    dest: Seq<char>,
    y: u64,
    m: u64,
    d: u64,
    ext: Option<Seq<char>>,
) -> Seq<char> {
    let e = match ext {
        Option::Some(x) => x,
        Option::None => "unknown"@,
    };
    replace_seq(
        replace_seq(
            replace_seq(replace_seq(dest, "{year}"@, dec_digits(y as nat)), "{month}"@, dec2_digits(m as nat)),
            "{day}"@,
            dec2_digits(d as nat),
        ),
        "{ext}"@,
        e,
    )
}

/// The full destination path a rule gives a file on the given date.
pub open spec fn spec_rule_dest(
    rule: Rule,
    base: Seq<char>,
    filename: Seq<char>,
    ext: Option<Seq<char>>,
    y: u64,
    m: u64,
    d: u64,
) -> Seq<char> {
    path_join(path_join(base, spec_rule_folder(rule.destination@, y, m, d, ext)), filename)
}

/// The result is the rule's destination on some calendar date the
/// clock named.
pub open spec fn rule_dest_dated(
    rule: Rule,
    base: Seq<char>,
    filename: Seq<char>,
    ext: Option<Seq<char>>,
    r: Seq<char>,
) -> bool {
    exists|y: u64, m: u64, d: u64|
        1970 <= y <= 9999 && 1 <= m <= 12 && 1 <= d <= 31 && r == #[trigger] spec_rule_dest(
            rule,
            base,
            filename,
            ext,
            y,
            m,
            d,
        )
}

impl Rule {
    /// Whether the file name matches this rule's glob pattern; an
    /// invalid pattern matches nothing.
    pub fn matches(&self, filename: &str) -> (r: bool)
        ensures
            r == glob_match_of(self.pattern@, filename@),
    {
        glob_match(self.pattern.as_str(), filename)
    }

    /// The destination path for a file under this rule, with the date
    /// placeholders filled from the given calendar date.
    pub fn destination_for(
        &self,
        base_path: &str,
        filename: &str,
        ext: Option<&str>,
        y: u64,
        m: u64,
        d: u64,
    ) -> (r: String)
        ensures
            r@ == spec_rule_dest(
                *self,
                base_path@,
                filename@,
                match ext {
                    Option::Some(e) => Option::Some(e@),
                    Option::None => Option::None,
                },
                y,
                m,
                d,
            ),
    {
        proof {
            reveal_strlit("{year}");
            reveal_strlit("{month}");
            reveal_strlit("{day}");
            reveal_strlit("{ext}");
        }
        let e = match ext {
            Some(x) => chars_of(x),
            None => chars_of("unknown"),
        };
        let step1 = replace_vec(&chars_of(self.destination.as_str()), &chars_of("{year}"), &u64_to_dec(y));
        let step2 = replace_vec(&step1, &chars_of("{month}"), &u64_to_dec2(m));
        let step3 = replace_vec(&step2, &chars_of("{day}"), &u64_to_dec2(d));
        let folder = replace_vec(&step3, &chars_of("{ext}"), &e);
        let joined = crate::organizer::join_path(
            &crate::organizer::join_path(&chars_of(base_path), &folder),
            &chars_of(filename),
        );
        string_of(&joined)
    }

    /// The destination path for a file under this rule, dated by the
    /// clock: for some date the clock named, the result is
    /// [`spec_rule_dest`] on that date.
    pub fn get_destination(&self, base_path: &str, filename: &str, ext: Option<&str>) -> (r:
        String)
        ensures
            rule_dest_dated(
                *self,
                base_path@,
                filename@,
                match ext {
                    Option::Some(e) => Option::Some(e@),
                    Option::None => Option::<Seq<char>>::None,
                },
                r@,
            ),
    {
        let now = now_secs_clamped();
        let ymd = civil_from_secs(now);
        let r = self.destination_for(base_path, filename, ext, ymd.0, ymd.1, ymd.2);
        proof {
            let ev = match ext {
                Option::Some(e) => Option::Some(e@),
                Option::None => Option::<Seq<char>>::None,
            };
            assert(r@ == spec_rule_dest(*self, base_path@, filename@, ev, ymd.0, ymd.1, ymd.2));
            assert(rule_dest_dated(*self, base_path@, filename@, ev, r@));
        }
        r
    }
}

/// The configuration: custom rules and default settings.
#[derive(Debug, Default)]
pub struct Config {
    /// Custom organization rules.
    pub rules: Vec<Rule>,
    /// Default settings.
    pub settings: Settings,
}

/// `p` maps positions of `r` to distinct positions of `rules` with the
/// same rule, and positions of equal priority keep their original
/// order: a stable permutation.
pub open spec fn stable_permutation(p: Seq<int>, r: Seq<Rule>, rules: Seq<Rule>) -> bool {
    &&& p.len() == r.len()
    &&& r.len() == rules.len()
    &&& forall|k: int| 0 <= k < p.len() ==> 0 <= #[trigger] p[k] < rules.len() && r[k] == rules[p[k]]
    &&& forall|k: int, l: int| 0 <= k < l < p.len() ==> p[k] != p[l]
    &&& forall|k: int, l: int|
        0 <= k < l < p.len() && r[k].priority == r[l].priority ==> p[k] < p[l]
}

impl Config {
    /// The rules ordered by descending priority, rules of equal
    /// priority keeping their declaration order: a stable sort.
    pub fn get_sorted_rules(&self) -> (r: Vec<Rule>)
        ensures
            r@.len() == self.rules@.len(),
            r@.to_multiset() == self.rules@.to_multiset(),
            forall|i: int, j: int|
                0 <= i < j < r@.len() ==> (#[trigger] r@[i]).priority >= (#[trigger] r@[j]).priority,
            exists|p: Seq<int>| #[trigger] stable_permutation(p, r@, self.rules@),
    {
        let mut work: Vec<Rule> = Vec::new();
        let mut i: usize = 0;
        while i < self.rules.len()
            invariant
                i <= self.rules@.len(),
                work@ =~= self.rules@.subrange(0, i as int),
            decreases self.rules@.len() - i,
        {
            work.push(self.rules[i].clone());
            assert(work@ =~= self.rules@.subrange(0, i + 1));
            i += 1;
        }
        assert(work@ =~= self.rules@);
        let mut out: Vec<Rule> = Vec::new();
        let ghost mut src: Seq<int> = Seq::new(self.rules@.len(), |k: int| k);
        let ghost mut perm: Seq<int> = Seq::empty();
        while work.len() > 0
            invariant
                out@.to_multiset().add(work@.to_multiset()) =~= self.rules@.to_multiset(),
                out@.len() + work@.len() == self.rules@.len(),
                forall|a: int, b: int|
                    0 <= a < b < out@.len() ==> (#[trigger] out@[a]).priority >= (
                    #[trigger] out@[b]).priority,
                forall|a: int, k: int|
                    0 <= a < out@.len() && 0 <= k < work@.len() ==> (#[trigger] out@[a]).priority
                        >= (#[trigger] work@[k]).priority,
                // the not-yet-placed rules, by original position, in order
                src.len() == work@.len(),
                forall|k: int|
                    0 <= k < src.len() ==> 0 <= #[trigger] src[k] < self.rules@.len() && work@[k]
                        == self.rules@[src[k]],
                forall|k: int, l: int| 0 <= k < l < src.len() ==> src[k] < src[l],
                // the placed rules, by original position, in pick order
                perm.len() == out@.len(),
                forall|k: int|
                    0 <= k < perm.len() ==> 0 <= #[trigger] perm[k] < self.rules@.len() && out@[k]
                        == self.rules@[perm[k]],
                forall|k: int, l: int| 0 <= k < l < perm.len() ==> perm[k] != perm[l],
                forall|k: int, l: int|
                    0 <= k < perm.len() && 0 <= l < src.len() ==> #[trigger] perm[k]
                        != #[trigger] src[l],
                // stability: equal priorities keep original order
                forall|a: int, b: int|
                    0 <= a < b < perm.len() && out@[a].priority == out@[b].priority
                        ==> #[trigger] perm[a] < #[trigger] perm[b],
                forall|a: int, k: int|
                    0 <= a < perm.len() && 0 <= k < src.len() && out@[a].priority
                        == work@[k].priority ==> #[trigger] perm[a] < #[trigger] src[k],
            decreases work@.len(),
        {
            let mut mi: usize = 0;
            let mut j: usize = 1;
            while j < work.len()
                invariant
                    work@.len() > 0,
                    mi < j <= work@.len(),
                    forall|k: int| 0 <= k < j ==> (#[trigger] work@[k]).priority <= work@[
                    mi as int].priority,
                    forall|k: int|
                        0 <= k < mi ==> (#[trigger] work@[k]).priority < work@[mi as int].priority,
                decreases work@.len() - j,
            {
                if work[j].priority > work[mi].priority {
                    mi = j;
                }
                j += 1;
            }
            let ghost work_before = work@;
            let ghost src_before = src;
            let rule = work.remove(mi);
            proof {
                src = src.remove(mi as int);
                assert(work@ =~= work_before.remove(mi as int));
                assert(work@.to_multiset() =~= work_before.to_multiset().remove(rule));
                assert(forall|k: int|
                    0 <= k < work@.len() ==> (#[trigger] work@[k]).priority <= rule.priority) by {
                    assert(forall|k: int|
                        0 <= k < work@.len() ==> #[trigger] work@[k] == if k < mi {
                            work_before[k]
                        } else {
                            work_before[k + 1]
                        });
                }
            }
            let ghost out_before = out@;
            let ghost perm_before = perm;
            out.push(rule);
            proof {
                perm = perm.push(src_before[mi as int]);
                assert(forall|k: int|
                    0 <= k < src.len() ==> #[trigger] src[k] == if k < mi {
                        src_before[k]
                    } else {
                        src_before[k + 1]
                    });
                // the picked original position is past every earlier
                // pick of equal priority, and before every remaining
                // equal-priority rule
                assert forall|a: int, k: int|
                    0 <= a < perm.len() && 0 <= k < src.len() && out@[a].priority
                        == work@[k].priority implies #[trigger] perm[a] < #[trigger] src[k] by {
                    if a < perm_before.len() {
                        assert(out@[a] == out_before[a]);
                    } else {
                        assert(perm[a] == src_before[mi as int]);
                        assert(out@[a] == rule);
                        if k < mi {
                            assert(work@[k] == work_before[k]);
                            assert(work_before[k].priority < work_before[mi as int].priority);
                        } else {
                            assert(src[k] == src_before[k + 1]);
                            assert(src_before[mi as int] < src_before[k + 1]);
                        }
                    }
                }
                assert(out@.to_multiset() =~= out_before.to_multiset().insert(rule));
                assert(out@.to_multiset().add(work@.to_multiset()) =~= self.rules@.to_multiset())
                    by {
                    assert(work_before.to_multiset().count(rule) >= 1) by {
                        assert(work_before[mi as int] == rule);
                        assert(work_before.contains(rule));
                    }
                    assert(out_before.to_multiset().insert(rule).add(
                        work_before.to_multiset().remove(rule),
                    ) =~= out_before.to_multiset().add(work_before.to_multiset()));
                }
            }
        }
        proof {
            assert(stable_permutation(perm, out@, self.rules@));
        }
        out
    }

    /// The highest-priority rule whose pattern matches the file name;
    /// among matching rules of equal priority, the earliest declared.
    /// Nothing when no rule matches.
    pub fn find_matching_rule(&self, filename: &str) -> (r: Option<Rule>)
        ensures
            match r {
                Some(rule) => exists|i: int|
                    {
                        &&& 0 <= i < self.rules@.len()
                        &&& #[trigger] self.rules@[i] == rule
                        &&& glob_match_of(rule.pattern@, filename@)
                        &&& forall|j: int|
                            0 <= j < self.rules@.len() && j != i && glob_match_of(
                                (#[trigger] self.rules@[j]).pattern@,
                                filename@,
                            ) ==> (self.rules@[j].priority < rule.priority || (self.rules@[
                            j].priority == rule.priority && j > i))
                    },
                None => forall|j: int|
                    0 <= j < self.rules@.len() ==> !glob_match_of(
                        (#[trigger] self.rules@[j]).pattern@,
                        filename@,
                    ),
            },
    {
        let mut best: Option<usize> = None;
        let mut j: usize = 0;
        while j < self.rules.len()
            invariant
                j <= self.rules@.len(),
                match best {
                    Some(b) => {
                        &&& b < j
                        &&& glob_match_of(self.rules@[b as int].pattern@, filename@)
                        &&& forall|k: int|
                            0 <= k < j && k != b && glob_match_of(
                                (#[trigger] self.rules@[k]).pattern@,
                                filename@,
                            ) ==> (self.rules@[k].priority < self.rules@[b as int].priority || (
                            self.rules@[k].priority == self.rules@[b as int].priority && k > b))
                    },
                    None => forall|k: int|
                        0 <= k < j ==> !glob_match_of(
                            (#[trigger] self.rules@[k]).pattern@,
                            filename@,
                        ),
                },
            decreases self.rules@.len() - j,
        {
            if self.rules[j].matches(filename) {
                match best {
                    Some(b) => {
                        if self.rules[j].priority > self.rules[b].priority {
                            best = Some(j);
                        }
                    },
                    None => {
                        best = Some(j);
                    },
                }
            }
            j += 1;
        }
        match best {
            Some(b) => Some(self.rules[b].clone()),
            None => None,
        }
    }
}

} // verus!
