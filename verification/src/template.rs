//! Template rendering for destination paths: `{variable}` placeholders
//! substituted from a per-file variable set.

use vstd::prelude::*;
use crate::strutil::{
    append_vec, chars_of, check_match_at, index_of_from, matches_at, string_of, subvec, vec_eq,
};

verus! {

/// `s` with every occurrence of `from` replaced by `to`, scanning left
/// to right without overlap — the behaviour of `str::replace`.
pub open spec fn replace_seq(s: Seq<char>, from: Seq<char>, to: Seq<char>) -> Seq<char>
    recommends
        from.len() > 0,
    decreases s.len(),
{
    if from.len() == 0 || s.len() < from.len() {
        s
    } else if s.subrange(0, from.len() as int) == from {
        to + replace_seq(s.skip(from.len() as int), from, to)
    } else {
        seq![s[0]] + replace_seq(s.drop_first(), from, to)
    }
}

/// `s` with every occurrence of `from` replaced by `to`.
pub fn replace_vec(s: &Vec<char>, from: &Vec<char>, to: &Vec<char>) -> (r: Vec<char>)
    requires
        from@.len() > 0,
    ensures
        r@ == replace_seq(s@, from@, to@),
{
    let mut out: Vec<char> = Vec::new();
    let mut i: usize = 0;
    let sl = s.len();
    let fl = from.len();
    assert(s@.skip(0) =~= s@);
    while i < sl
        invariant
            sl == s@.len(),
            fl == from@.len(),
            fl > 0,
            i <= sl,
            replace_seq(s@, from@, to@) == out@ + replace_seq(s@.skip(i as int), from@, to@),
        decreases sl - i,
    {
        let ghost rest = s@.skip(i as int);
        if fl <= sl - i && check_match_at(s, from, i) {
            proof {
                assert(rest.subrange(0, fl as int) =~= from@) by {
                    assert(forall|j: int| 0 <= j < fl ==> rest[j] == s@[i + j]);
                }
                assert(rest.skip(fl as int) =~= s@.skip(i + fl));
            }
            append_vec(&mut out, to);
            i += fl;
        } else {
            proof {
                if rest.len() >= fl && rest.subrange(0, fl as int) == from@ {
                    assert(matches_at(s@, from@, i as int)) by {
                        assert(forall|j: int|
                            0 <= j < fl ==> s@[i + j] == rest.subrange(0, fl as int)[j]);
                    }
                }
                assert(rest.drop_first() =~= s@.skip(i + 1));
                assert(seq![rest[0]] =~= s@.subrange(i as int, i + 1));
            }
            out.push(s[i]);
            proof {
                assert(out@ + replace_seq(s@.skip(i + 1), from@, to@) == replace_seq(
                    s@,
                    from@,
                    to@,
                ));
            }
            i += 1;
        }
    }
    proof {
        assert(s@.skip(sl as int) =~= Seq::<char>::empty());
    }
    out
}

} // verus!

use crate::classifier::{spec_classify, Classifier};
use crate::metadata::{is_audio_supported, is_exif_supported, spec_date_taken_folder};
use crate::organizer::{audio_supported_spec, date_folder, exif_supported_spec, FileMeta};
use crate::scanner::FileInfo;
use crate::strutil::{
    dec2_digits, dec_digits, ext_of, file_name_of, file_name_of_exec, ext_of_exec, lower,
    parent_of, parent_of_exec, stem_of, stem_of_exec, to_lower, trim_matching,
    trim_matching_exec, u64_to_dec, u64_to_dec2,
};
use crate::timeutil::{civil_from_secs, civil_of, now_secs_clamped, YEAR_10000};

verus! {

/// `d` is the position of the first `}` after the opening brace.
pub open spec fn is_first_close(s: Seq<char>, d: int) -> bool {
    &&& 1 <= d < s.len()
    &&& s[d] == '}'
    &&& forall|k: int| 1 <= k < d ==> s[k] != '}'
}

proof fn lemma_first_close_unique(s: Seq<char>, d1: int, d2: int)
    requires
        is_first_close(s, d1),
        is_first_close(s, d2),
    ensures
        d1 == d2,
{
    if d1 < d2 {
        assert(s[d1] != '}');
    }
    if d2 < d1 {
        assert(s[d2] != '}');
    }
}

/// `s` with every unresolved `{...}` placeholder (an opening brace, at
/// least one character, and the next closing brace) replaced by the
/// literal fallback `Unknown`, scanning left to right.
pub open spec fn unresolve(s: Seq<char>) -> Seq<char>
    decreases s.len(),
{
    if s.len() == 0 {
        Seq::empty()
    } else if s[0] == '{' && (exists|d: int| #[trigger] is_first_close(s, d)) && (choose|d: int|
        #[trigger] is_first_close(s, d)) >= 2 {
        let d = choose|d: int| #[trigger] is_first_close(s, d);
        "Unknown"@ + unresolve(s.skip(d + 1))
    } else {
        seq![s[0]] + unresolve(s.drop_first())
    }
}

/// Replaces every unresolved placeholder with `Unknown`.
fn unresolve_exec(s: &Vec<char>) -> (r: Vec<char>)
    ensures
        r@ == unresolve(s@),
{
    proof {
        reveal_strlit("Unknown");
    }
    let n = s.len();
    let unknown = chars_of("Unknown");
    let mut out: Vec<char> = Vec::new();
    let mut i: usize = 0;
    proof {
        assert(s@.skip(0) =~= s@);
    }
    while i < n
        invariant
            n == s@.len(),
            unknown@ == "Unknown"@,
            i <= n,
            unresolve(s@) == out@ + unresolve(s@.skip(i as int)),
        decreases n - i,
    {
        let ghost rest = s@.skip(i as int);
        assert(rest[0] == s@[i as int]);
        let mut replaced = false;
        if s[i] == '{' {
            match index_of_from(s, '}', i + 1) {
                Some(j) => {
                    proof {
                        assert(is_first_close(rest, j - i)) by {
                            assert(forall|k: int|
                                1 <= k < j - i ==> rest[k] == s@[i + k] && s@[i + k] != '}');
                        }
                        let dd = choose|d: int| #[trigger] is_first_close(rest, d);
                        lemma_first_close_unique(rest, j - i, dd);
                    }
                    if j >= i + 2 {
                        proof {
                            assert(rest.skip(j - i + 1) =~= s@.skip(j + 1));
                        }
                        append_vec(&mut out, &unknown);
                        i = j + 1;
                        replaced = true;
                    }
                },
                None => {
                    proof {
                        if exists|d: int| #[trigger] is_first_close(rest, d) {
                            let dd = choose|d: int| #[trigger] is_first_close(rest, d);
                            assert(rest[dd] == s@[i + dd]);
                        }
                    }
                },
            }
        }
        if !replaced {
            proof {
                assert(rest.drop_first() =~= s@.skip(i + 1));
                assert(seq![rest[0]] =~= s@.subrange(i as int, i + 1));
            }
            out.push(s[i]);
            i += 1;
        }
    }
    proof {
        assert(s@.skip(n as int) =~= Seq::<char>::empty());
    }
    out
}

/// One `{key}` substitution applied to `s`.
pub open spec fn subst_one(s: Seq<char>, key: Seq<char>, value: Seq<char>) -> Seq<char> {
    replace_seq(s, seq!['{'] + key + seq!['}'], value)
}

/// Every variable substituted into `s`, in list order.
pub open spec fn subst_all(s: Seq<char>, vars: Seq<(Seq<char>, Seq<char>)>) -> Seq<char>
    decreases vars.len(),
{
    if vars.len() == 0 {
        s
    } else {
        subst_all(subst_one(s, vars.first().0, vars.first().1), vars.drop_first())
    }
}

/// What `render` returns: every known variable substituted in list
/// order, unresolved placeholders collapsed to `Unknown`, doubled
/// separators collapsed once, and surrounding separators trimmed.
pub open spec fn spec_render(template: Seq<char>, vars: Seq<(Seq<char>, Seq<char>)>) -> Seq<
    char,
> {
    trim_matching(replace_seq(unresolve(subst_all(template, vars)), "//"@, "/"@), '/')
}

/// Renders destination paths from `{variable}` placeholders and a
/// per-file variable set.
pub struct TemplateEngine {
    variables: Vec<(String, String)>,
}

impl TemplateEngine {
    /// The variable list, keys and values as character sequences, in
    /// substitution order.
    pub closed spec fn vars(self) -> Seq<(Seq<char>, Seq<char>)> {
        self.variables@.map_values(|p: (String, String)| (p.0@, p.1@))
    }

    /// The first value bound to `key`, if any.
    pub open spec fn spec_get(vars: Seq<(Seq<char>, Seq<char>)>, key: Seq<char>) -> Option<
        Seq<char>,
    >
        decreases vars.len(),
    {
        if vars.len() == 0 {
            Option::None
        } else if vars.first().0 == key {
            Option::Some(vars.first().1)
        } else {
            Self::spec_get(vars.drop_first(), key)
        }
    }

    /// An engine over the given variable list, substituted in order.
    pub fn new(variables: Vec<(String, String)>) -> (r: TemplateEngine)
        ensures
            r.vars() == variables@.map_values(|p: (String, String)| (p.0@, p.1@)),
    {
        TemplateEngine { variables }
    }

    /// The value bound to `key`, if any.
    pub fn get(&self, key: &str) -> (r: Option<String>)
        ensures
            match r {
                Some(v) => Self::spec_get(self.vars(), key@) == Option::Some(v@),
                None => Self::spec_get(self.vars(), key@) is None,
            },
    {
        let kc = chars_of(key);
        let mut i: usize = 0;
        proof {
            assert(self.vars().skip(0) =~= self.vars());
        }
        while i < self.variables.len()
            invariant
                kc@ == key@,
                i <= self.variables@.len(),
                Self::spec_get(self.vars(), key@) == Self::spec_get(
                    self.vars().skip(i as int),
                    key@,
                ),
            decreases self.variables@.len() - i,
        {
            proof {
                assert(self.vars().skip(i as int).first() == (self.variables@[i as int].0@, self.variables@[i as int].1@));
                assert(self.vars().skip(i as int).drop_first() =~= self.vars().skip(i + 1));
            }
            if vec_eq(&chars_of(self.variables[i].0.as_str()), &kc) {
                return Some(self.variables[i].1.clone());
            }
            i += 1;
        }
        proof {
            assert(self.vars().skip(self.variables@.len() as int) =~= Seq::<(Seq<char>, Seq<char>)>::empty());
        }
        None
    }

    /// Binds `key` to `value`: the first existing binding is replaced,
    /// or the pair is appended. Lookups of other keys are unchanged.
    pub fn set(&mut self, key: String, value: String)
        ensures
            Self::spec_get(final(self).vars(), key@) == Option::Some(value@),
            forall|k2: Seq<char>|
                k2 != key@ ==> #[trigger] Self::spec_get(final(self).vars(), k2) == Self::spec_get(
                    old(self).vars(),
                    k2,
                ),
    {
        let kc = chars_of(key.as_str());
        let mut i: usize = 0;
        while i < self.variables.len()
            invariant
                kc@ == key@,
                i <= self.variables@.len(),
                forall|k: int| 0 <= k < i ==> (#[trigger] self.vars()[k]).0 != key@,
                self.vars() == old(self).vars(),
                self.variables@ == old(self).variables@,
            decreases self.variables@.len() - i,
        {
            if vec_eq(&chars_of(self.variables[i].0.as_str()), &kc) {
                let ghost before = self.vars();
                self.variables.set(i, (key, value));
                proof {
                    assert(self.vars() =~= before.update(i as int, (key@, value@)));
                    lemma_spec_get_update(before, i as int, key@, value@);
                }
                return ;
            }
            i += 1;
        }
        let ghost before = self.vars();
        self.variables.push((key, value));
        proof {
            assert(self.vars() =~= before.push((key@, value@)));
            lemma_spec_get_push(before, key@, value@);
            assert(forall|k: int| 0 <= k < before.len() ==> (#[trigger] before[k]).0 != key@);
            lemma_spec_get_absent(before, key@);
        }
    }

    /// Every variable pair, in substitution order.
    pub fn list_variables(&self) -> (r: Vec<(String, String)>)
        ensures
            r@.len() == self.vars().len(),
            forall|k: int|
                0 <= k < r@.len() ==> ((#[trigger] r@[k]).0@, r@[k].1@) == self.vars()[k],
    {
        let mut r: Vec<(String, String)> = Vec::new();
        let mut i: usize = 0;
        while i < self.variables.len()
            invariant
                i <= self.variables@.len(),
                r@.len() == i,
                forall|k: int|
                    0 <= k < i ==> ((#[trigger] r@[k]).0@, r@[k].1@) == self.vars()[k],
            decreases self.variables@.len() - i,
        {
            r.push((self.variables[i].0.clone(), self.variables[i].1.clone()));
            i += 1;
        }
        r
    }

    /// Renders a template: `{variable}` placeholders replaced in list
    /// order, unresolved placeholders replaced by `Unknown`, doubled
    /// path separators collapsed, surrounding separators trimmed.
    pub fn render(&self, template: &str) -> (r: String)
        ensures
            r@ == spec_render(template@, self.vars()),
    {
        proof {
            reveal_strlit("//");
            reveal_strlit("/");
        }
        let mut cur = chars_of(template);
        let mut i: usize = 0;
        proof {
            assert(self.vars().skip(0) =~= self.vars());
        }
        while i < self.variables.len()
            invariant
                subst_all(cur@, self.vars().skip(i as int)) == subst_all(template@, self.vars()),
                i <= self.variables@.len(),
            decreases self.variables@.len() - i,
        {
            let mut pat: Vec<char> = Vec::new();
            pat.push('{');
            append_vec(&mut pat, &chars_of(self.variables[i].0.as_str()));
            pat.push('}');
            proof {
                assert(pat@ =~= seq!['{'] + self.variables@[i as int].0@ + seq!['}']);
                assert(self.vars().skip(i as int).first() == (self.variables@[i as int].0@, self.variables@[i as int].1@));
                assert(self.vars().skip(i as int).drop_first() =~= self.vars().skip(i + 1));
            }
            assert(pat@.len() > 0);
            cur = replace_vec(&cur, &pat, &chars_of(self.variables[i].1.as_str()));
            i += 1;
        }
        proof {
            assert(self.vars().skip(self.variables@.len() as int) =~= Seq::<(Seq<char>, Seq<char>)>::empty());
        }
        let unresolved = unresolve_exec(&cur);
        let slash = chars_of("/");
        let collapsed = replace_vec(&unresolved, &chars_of("//"), &slash);
        let trimmed = trim_matching_exec(&collapsed, '/');
        string_of(&trimmed)
    }
}


proof fn lemma_spec_get_update(
    vars: Seq<(Seq<char>, Seq<char>)>,
    i: int,
    key: Seq<char>,
    value: Seq<char>,
)
    requires
        0 <= i < vars.len(),
        vars[i].0 == key,
        forall|k: int| 0 <= k < i ==> (#[trigger] vars[k]).0 != key,
    ensures
        TemplateEngine::spec_get(vars.update(i, (key, value)), key) == Option::Some(value),
        forall|k2: Seq<char>|
            k2 != key ==> #[trigger] TemplateEngine::spec_get(vars.update(i, (key, value)), k2)
                == TemplateEngine::spec_get(vars, k2),
    decreases vars.len(),
{
    let u = vars.update(i, (key, value));
    if i == 0 {
        assert(u.first() == (key, value));
        assert(u.drop_first() =~= vars.drop_first());
        assert(vars.first().0 == key);
        assert forall|k2: Seq<char>| k2 != key implies #[trigger] TemplateEngine::spec_get(
            u,
            k2,
        ) == TemplateEngine::spec_get(vars, k2) by {
            assert(TemplateEngine::spec_get(u, k2) == TemplateEngine::spec_get(u.drop_first(), k2));
            assert(TemplateEngine::spec_get(vars, k2) == TemplateEngine::spec_get(
                vars.drop_first(),
                k2,
            ));
        }
    } else {
        assert(u.first() == vars.first());
        assert(vars.first().0 != key);
        assert(u.drop_first() =~= vars.drop_first().update(i - 1, (key, value)));
        assert(forall|k: int|
            0 <= k < i - 1 ==> (#[trigger] vars.drop_first()[k]).0 == vars[k + 1].0);
        lemma_spec_get_update(vars.drop_first(), i - 1, key, value);
        assert(TemplateEngine::spec_get(u, key) == TemplateEngine::spec_get(u.drop_first(), key));
        assert forall|k2: Seq<char>| k2 != key implies #[trigger] TemplateEngine::spec_get(
            u,
            k2,
        ) == TemplateEngine::spec_get(vars, k2) by {
            if k2 == vars.first().0 {
            } else {
                assert(TemplateEngine::spec_get(u, k2) == TemplateEngine::spec_get(
                    u.drop_first(),
                    k2,
                ));
                assert(TemplateEngine::spec_get(vars, k2) == TemplateEngine::spec_get(
                    vars.drop_first(),
                    k2,
                ));
            }
        }
    }
}

proof fn lemma_spec_get_push(vars: Seq<(Seq<char>, Seq<char>)>, key: Seq<char>, value: Seq<char>)
    ensures
        forall|k2: Seq<char>|
            #[trigger] TemplateEngine::spec_get(vars.push((key, value)), k2) == (
            match TemplateEngine::spec_get(vars, k2) {
                Option::Some(v) => Option::Some(v),
                Option::None => if k2 == key {
                    Option::Some(value)
                } else {
                    Option::<Seq<char>>::None
                },
            }),
    decreases vars.len(),
{
    let u = vars.push((key, value));
    if vars.len() == 0 {
        assert(u.first() == (key, value));
        assert(u.drop_first() =~= Seq::<(Seq<char>, Seq<char>)>::empty());
        assert forall|k2: Seq<char>| true implies #[trigger] TemplateEngine::spec_get(u, k2) == (
        match TemplateEngine::spec_get(vars, k2) {
            Option::Some(v) => Option::Some(v),
            Option::None => if k2 == key {
                Option::Some(value)
            } else {
                Option::<Seq<char>>::None
            },
        }) by {
            if k2 == key {
            } else {
                assert(TemplateEngine::spec_get(u, k2) == TemplateEngine::spec_get(
                    u.drop_first(),
                    k2,
                ));
            }
        }
    } else {
        assert(u.first() == vars.first());
        assert(u.drop_first() =~= vars.drop_first().push((key, value)));
        lemma_spec_get_push(vars.drop_first(), key, value);
        assert forall|k2: Seq<char>| true implies #[trigger] TemplateEngine::spec_get(u, k2) == (
        match TemplateEngine::spec_get(vars, k2) {
            Option::Some(v) => Option::Some(v),
            Option::None => if k2 == key {
                Option::Some(value)
            } else {
                Option::<Seq<char>>::None
            },
        }) by {
            if k2 == vars.first().0 {
            } else {
                assert(TemplateEngine::spec_get(u, k2) == TemplateEngine::spec_get(
                    u.drop_first(),
                    k2,
                ));
                assert(TemplateEngine::spec_get(vars, k2) == TemplateEngine::spec_get(
                    vars.drop_first(),
                    k2,
                ));
            }
        }
    }
}

proof fn lemma_spec_get_absent(vars: Seq<(Seq<char>, Seq<char>)>, key: Seq<char>)
    requires
        forall|k: int| 0 <= k < vars.len() ==> (#[trigger] vars[k]).0 != key,
    ensures
        TemplateEngine::spec_get(vars, key) is None,
    decreases vars.len(),
{
    if vars.len() > 0 {
        assert(vars.first().0 != key);
        assert(forall|k: int|
            0 <= k < vars.drop_first().len() ==> (#[trigger] vars.drop_first()[k]).0 == vars[k
                + 1].0);
        lemma_spec_get_absent(vars.drop_first(), key);
    }
}

} // verus!
verus! {

/// The built-in template for a preset name, already lowercased.
pub open spec fn spec_preset(p: Seq<char>) -> Option<Seq<char>> {
    if p == "by-type"@ || p == "type"@ {
        Option::Some("{category}/{filename}"@)
    } else if p == "by-date"@ || p == "date"@ {
        Option::Some("{year}/{month}/{filename}"@)
    } else if p == "by-extension"@ || p == "extension"@ || p == "ext"@ {
        Option::Some("{extension}/{filename}"@)
    } else if p == "by-camera"@ || p == "camera"@ {
        Option::Some("{camera}/{filename}"@)
    } else if p == "by-date-taken"@ || p == "date-taken"@ || p == "photos"@ {
        Option::Some("{taken.year}/{taken.month}/{filename}"@)
    } else if p == "by-artist"@ || p == "artist"@ {
        Option::Some("{artist}/{filename}"@)
    } else if p == "by-album"@ || p == "album"@ || p == "music"@ {
        Option::Some("{artist}/{album}/{filename}"@)
    } else {
        Option::None
    }
}

/// The built-in template for a preset name, case-insensitively;
/// nothing for an unknown preset.
pub fn get_preset_template(preset: &str) -> (r: Option<&'static str>)
    ensures
        match r {
            Some(t) => spec_preset(lower(preset@)) == Option::Some(t@),
            None => spec_preset(lower(preset@)) is None,
        },
{
    let p = to_lower(&chars_of(preset));
    if vec_eq(&p, &chars_of("by-type")) || vec_eq(&p, &chars_of("type")) {
        Some("{category}/{filename}")
    } else if vec_eq(&p, &chars_of("by-date")) || vec_eq(&p, &chars_of("date")) {
        Some("{year}/{month}/{filename}")
    } else if vec_eq(&p, &chars_of("by-extension")) || vec_eq(&p, &chars_of("extension"))
        || vec_eq(&p, &chars_of("ext")) {
        Some("{extension}/{filename}")
    } else if vec_eq(&p, &chars_of("by-camera")) || vec_eq(&p, &chars_of("camera")) {
        Some("{camera}/{filename}")
    } else if vec_eq(&p, &chars_of("by-date-taken")) || vec_eq(&p, &chars_of("date-taken"))
        || vec_eq(&p, &chars_of("photos")) {
        Some("{taken.year}/{taken.month}/{filename}")
    } else if vec_eq(&p, &chars_of("by-artist")) || vec_eq(&p, &chars_of("artist")) {
        Some("{artist}/{filename}")
    } else if vec_eq(&p, &chars_of("by-album")) || vec_eq(&p, &chars_of("album")) || vec_eq(
        &p,
        &chars_of("music"),
    ) {
        Some("{artist}/{album}/{filename}")
    } else {
        None
    }
}

/// What `substitute_vars` returns: the five placeholders replaced, in
/// order, from the source and destination paths.
pub open spec fn spec_substitute_vars(
    command: Seq<char>,
    source: Seq<char>,
    dest: Seq<char>,
) -> Seq<char> {
    let name = stem_of(file_name_of(source));
    let ext = match ext_of(file_name_of(source)) {
        Option::Some(e) => e,
        Option::None => Seq::empty(),
    };
    let dir = parent_of(dest);
    replace_seq(
        replace_seq(
            replace_seq(replace_seq(replace_seq(command, "{file}"@, source), "{dest}"@, dest), "{name}"@, name),
            "{ext}"@,
            ext,
        ),
        "{dir}"@,
        dir,
    )
}

/// Substitutes `{file}`, `{dest}`, `{name}`, `{ext}`, and `{dir}` in a
/// hook command from the source and destination paths.
pub fn substitute_vars(command: &str, source: &str, dest: &str) -> (r: String)
    ensures
        r@ == spec_substitute_vars(command@, source@, dest@),
{
    proof {
        reveal_strlit("{file}");
        reveal_strlit("{dest}");
        reveal_strlit("{name}");
        reveal_strlit("{ext}");
        reveal_strlit("{dir}");
    }
    let sv = chars_of(source);
    let dv = chars_of(dest);
    let fname = file_name_of_exec(&sv);
    let name = stem_of_exec(&fname);
    let ext = match ext_of_exec(&fname) {
        Some(e) => e,
        None => Vec::new(),
    };
    let dir = parent_of_exec(&dv);
    let step1 = replace_vec(&chars_of(command), &chars_of("{file}"), &sv);
    let step2 = replace_vec(&step1, &chars_of("{dest}"), &dv);
    let step3 = replace_vec(&step2, &chars_of("{name}"), &name);
    let step4 = replace_vec(&step3, &chars_of("{ext}"), &ext);
    let out = replace_vec(&step4, &chars_of("{dir}"), &dir);
    string_of(&out)
}

} // verus!

verus! {

/// The per-file variable set, given the clock's calendar date: file
/// name parts, sizes, dates, category, and any metadata-derived
/// variables, in substitution order.
pub open spec fn spec_file_vars(f: FileInfo, meta: FileMeta, ny: u64, nm: u64, nd: u64) -> Seq<
    (Seq<char>, Seq<char>),
> {
    let stem = stem_of(f.name@);
    let ext = match f.extension {
        Option::Some(e) => e@,
        Option::None => "unknown"@,
    };
    let t = if f.modified < YEAR_10000 {
        f.modified
    } else {
        (YEAR_10000 - 1) as u64
    };
    let ymd = civil_of(t);
    let datestr = dec_digits(ymd.0 as nat) + "-"@ + dec2_digits(ymd.1 as nat) + "-"@
        + dec2_digits(ymd.2 as nat);
    let nowstr = dec_digits(ny as nat) + "-"@ + dec2_digits(nm as nat) + "-"@ + dec2_digits(
        nd as nat,
    );
    let cat = crate::classifier::spec_classify(
        match f.extension {
            Option::Some(e) => Option::Some(e@),
            Option::None => Option::None,
        },
    ).spec_folder_name();
    let base = seq![
        ("filename"@, stem),
        ("name"@, f.name@),
        ("extension"@, ext),
        ("ext"@, ext),
        ("size"@, dec_digits(f.size as nat)),
        ("size_kb"@, dec_digits((f.size / 1024) as nat)),
        ("size_mb"@, dec_digits((f.size / 1048576) as nat)),
        ("year"@, dec_digits(ymd.0 as nat)),
        ("month"@, dec2_digits(ymd.1 as nat)),
        ("day"@, dec2_digits(ymd.2 as nat)),
        ("date"@, datestr),
        ("now.year"@, dec_digits(ny as nat)),
        ("now.month"@, dec2_digits(nm as nat)),
        ("now.day"@, dec2_digits(nd as nat)),
        ("now.date"@, nowstr),
        ("category"@, cat),
        ("type"@, cat),
    ];
    let with_image = if exif_supported_spec(f) && meta.image is Some {
        let im = meta.image->0;
        let c = match im.spec_camera_folder_name() {
            Option::Some(n) => seq![("camera"@, n)],
            Option::None => Seq::<(Seq<char>, Seq<char>)>::empty(),
        };
        let d = match im.date_taken {
            Option::Some(ds) => match spec_date_taken_folder(ds@) {
                Option::Some(folder) => seq![
                    ("date_taken"@, folder),
                    ("taken.year"@, folder.subrange(0, 4)),
                    ("taken.month"@, folder.subrange(5, 7)),
                ],
                Option::None => Seq::<(Seq<char>, Seq<char>)>::empty(),
            },
            Option::None => Seq::<(Seq<char>, Seq<char>)>::empty(),
        };
        base + c + d
    } else {
        base
    };
    let with_audio = if audio_supported_spec(f) && meta.audio is Some {
        let am = meta.audio->0;
        let a = match am.spec_artist_folder_name() {
            Option::Some(n) => seq![("artist"@, n)],
            Option::None => Seq::<(Seq<char>, Seq<char>)>::empty(),
        };
        let b = match am.spec_album_folder_name() {
            Option::Some(n) => seq![("album"@, n)],
            Option::None => Seq::<(Seq<char>, Seq<char>)>::empty(),
        };
        with_image + a + b
    } else {
        with_image
    };
    with_audio
}

/// The engine's variables are the per-file set for some calendar date
/// the clock named.
pub open spec fn file_vars_dated(f: FileInfo, meta: FileMeta, vars: Seq<(Seq<char>, Seq<char>)>) -> bool {
    exists|ny: u64, nm: u64, nd: u64|
        1970 <= ny <= 9999 && 1 <= nm <= 12 && 1 <= nd <= 31 && vars == #[trigger] spec_file_vars(
            f,
            meta,
            ny,
            nm,
            nd,
        )
}

impl TemplateEngine {
    /// An engine whose variables describe one scanned record: its name
    /// parts, sizes, dates (modification and, via the clock, today),
    /// category, and any camera, date-taken, artist, and album values
    /// from the looked-up metadata.
    #[verifier::rlimit(100)]
    pub fn from_file(file: &FileInfo, classifier: &Classifier, meta: &FileMeta) -> (r:
        TemplateEngine)
        ensures
            file_vars_dated(*file, *meta, r.vars()),
    {
        let mut vars: Vec<(String, String)> = Vec::new();
        let name_chars = chars_of(file.name.as_str());
        let stem = stem_of_exec(&name_chars);
        vars.push((string_of(&chars_of("filename")), string_of(&stem)));
        vars.push((string_of(&chars_of("name")), file.name.clone()));
        let ext: Vec<char> = match &file.extension {
            Some(e) => chars_of(e.as_str()),
            None => chars_of("unknown"),
        };
        vars.push((string_of(&chars_of("extension")), string_of(&ext)));
        vars.push((string_of(&chars_of("ext")), string_of(&ext)));
        vars.push((string_of(&chars_of("size")), string_of(&u64_to_dec(file.size))));
        vars.push((string_of(&chars_of("size_kb")), string_of(&u64_to_dec(file.size / 1024))));
        vars.push((string_of(&chars_of("size_mb")), string_of(&u64_to_dec(file.size / 1048576))));
        let t: u64 = if file.modified < YEAR_10000 {
            file.modified
        } else {
            YEAR_10000 - 1
        };
        let ymd = civil_from_secs(t);
        let mut datestr = u64_to_dec(ymd.0);
        datestr.push('-');
        append_vec(&mut datestr, &u64_to_dec2(ymd.1));
        datestr.push('-');
        append_vec(&mut datestr, &u64_to_dec2(ymd.2));
        proof {
            reveal_strlit("-");
            assert(datestr@ =~= dec_digits(civil_of(t).0 as nat) + "-"@ + dec2_digits(
                civil_of(t).1 as nat,
            ) + "-"@ + dec2_digits(civil_of(t).2 as nat));
        }
        vars.push((string_of(&chars_of("year")), string_of(&u64_to_dec(ymd.0))));
        vars.push((string_of(&chars_of("month")), string_of(&u64_to_dec2(ymd.1))));
        vars.push((string_of(&chars_of("day")), string_of(&u64_to_dec2(ymd.2))));
        vars.push((string_of(&chars_of("date")), string_of(&datestr)));
        let now = now_secs_clamped();
        let nymd = civil_from_secs(now);
        let mut nowstr = u64_to_dec(nymd.0);
        nowstr.push('-');
        append_vec(&mut nowstr, &u64_to_dec2(nymd.1));
        nowstr.push('-');
        append_vec(&mut nowstr, &u64_to_dec2(nymd.2));
        proof {
            assert(nowstr@ =~= dec_digits(civil_of(now).0 as nat) + "-"@ + dec2_digits(
                civil_of(now).1 as nat,
            ) + "-"@ + dec2_digits(civil_of(now).2 as nat));
        }
        vars.push((string_of(&chars_of("now.year")), string_of(&u64_to_dec(nymd.0))));
        vars.push((string_of(&chars_of("now.month")), string_of(&u64_to_dec2(nymd.1))));
        vars.push((string_of(&chars_of("now.day")), string_of(&u64_to_dec2(nymd.2))));
        vars.push((string_of(&chars_of("now.date")), string_of(&nowstr)));
        let cat = classifier.classify(
            match &file.extension {
                Some(e) => Some(e.as_str()),
                None => None,
            },
        );
        vars.push((string_of(&chars_of("category")), string_of(&chars_of(cat.folder_name()))));
        vars.push((string_of(&chars_of("type")), string_of(&chars_of(cat.folder_name()))));
        if is_exif_supported(file.path.as_str()) {
            match &meta.image {
                Some(im) => {
                    match im.camera_folder_name() {
                        Some(camera) => {
                            vars.push((string_of(&chars_of("camera")), camera));
                        },
                        None => {},
                    }
                    match im.date_taken_folder() {
                        Some(folder) => {
                            let fc = chars_of(folder.as_str());
                            vars.push((string_of(&chars_of("date_taken")), folder));
                            vars.push(
                                (string_of(&chars_of("taken.year")), string_of(&subvec(&fc, 0, 4))),
                            );
                            vars.push(
                                (
                                    string_of(&chars_of("taken.month")),
                                    string_of(&subvec(&fc, 5, 7)),
                                ),
                            );
                        },
                        None => {},
                    }
                },
                None => {},
            }
        }
        if is_audio_supported(file.path.as_str()) {
            match &meta.audio {
                Some(am) => {
                    match am.artist_folder_name() {
                        Some(artist) => {
                            vars.push((string_of(&chars_of("artist")), artist));
                        },
                        None => {},
                    }
                    match am.album_folder_name() {
                        Some(album) => {
                            vars.push((string_of(&chars_of("album")), album));
                        },
                        None => {},
                    }
                },
                None => {},
            }
        }
        let r = TemplateEngine::new(vars);
        proof {
            assert(r.vars() =~= spec_file_vars(*file, *meta, nymd.0, nymd.1, nymd.2));
        }
        r
    }
}

} // verus!
