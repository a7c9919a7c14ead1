//! Move planning and conflict resolution.
//!
//! Planning computes destinations without touching the disk; executing
//! the plan is input/output and lives outside this crate, logging each
//! performed move through the history module.

use vstd::prelude::*;
use vstd::set_lib::{set_int_range, lemma_int_range, lemma_len_subset};
use crate::classifier::{spec_classify, Classifier};
use crate::metadata::{is_audio_supported, is_exif_supported, path_ext_lower, AudioMetadata,
    ImageMetadata};
use crate::scanner::FileInfo;
use crate::strutil::{
    append_vec, chars_of, dec2_digits, dec_digits, dec_value, ext_of, ext_of_exec, file_name_of,
    file_name_of_exec, lemma_dec_digits_value, stem_of, stem_of_exec, string_of, subvec, to_upper,
    u64_to_dec, u64_to_dec2, upper, vec_eq,
};
use crate::timeutil::{civil_from_secs, civil_of, YEAR_10000};

verus! {

/// How destinations are chosen for an organize run.
#[derive(Clone, Copy, Debug, PartialEq, Eq, Structural)]
pub enum OrganizeMode {
    /// By semantic category folder.
    ByType,
    /// By `year/month` of the modification time.
    ByDate,
    /// By uppercased extension folder.
    ByExtension,
    /// By camera model from EXIF metadata.
    ByCamera,
    /// By `year/month` the photo was taken, from EXIF metadata.
    ByDateTaken,
    /// By artist from audio tags.
    ByArtist,
    /// By `artist/album` from audio tags.
    ByAlbum,
}

/// The metadata looked up for one record before planning: EXIF data for
/// images, tags for audio files. Absent lookups fall back to defaults.
#[derive(Debug, Default)]
pub struct FileMeta {
    pub image: Option<ImageMetadata>,
    pub audio: Option<AudioMetadata>,
}

/// A planned file move: a pure plan with no filesystem effect. The
/// source always differs from the destination.
#[derive(Debug)]
pub struct PlannedMove {
    pub from: String,
    pub to: String,
    pub size: u64,
}

impl Clone for PlannedMove {
    /// An exact copy of the planned move.
    fn clone(&self) -> (r: Self)
        ensures
            r == *self,
    {
        PlannedMove { from: self.from.clone(), to: self.to.clone(), size: self.size }
    }
}

/// The outcome counts of executing a plan.
#[derive(Debug, Default)]
pub struct OrganizeResult {
    /// Files moved (or copied).
    pub moved: usize,
    /// Files skipped, by conflict policy or per-file failure.
    pub skipped: usize,
    /// One message per per-file failure.
    pub errors: Vec<String>,
    /// Total bytes moved.
    pub total_size: u64,
}

/// `base` and `comp` joined with a single path separator.
pub open spec fn path_join(base: Seq<char>, comp: Seq<char>) -> Seq<char> {
    if base.len() == 0 {
        comp
    } else if base.last() == '/' {
        base + comp
    } else {
        base + "/"@ + comp
    }
}

/// Joins a path and a component with a single separator.
pub fn join_path(base: &Vec<char>, comp: &Vec<char>) -> (r: Vec<char>)
    ensures
        r@ == path_join(base@, comp@),
{
    proof {
        reveal_strlit("/");
    }
    let mut r = subvec(base, 0, base.len());
    assert(r@ =~= base@);
    if base.len() != 0 {
        if base[base.len() - 1] != '/' {
            r.push('/');
            assert(r@ =~= base@ + "/"@);
        }
    }
    append_vec(&mut r, comp);
    r
}

/// The `year/month` folder for a modification time: timestamps at or
/// past the year 10000 are clamped just below it.
pub open spec fn date_folder(modified: u64) -> Seq<char> {
    let t = if modified < YEAR_10000 {
        modified
    } else {
        (YEAR_10000 - 1) as u64
    };
    let ymd = civil_of(t);
    dec_digits(ymd.0 as nat) + "/"@ + dec2_digits(ymd.1 as nat)
}

/// The `year/month` folder for a modification time.
fn date_folder_exec(modified: u64) -> (r: Vec<char>)
    ensures
        r@ == date_folder(modified),
{
    let t: u64 = if modified < YEAR_10000 {
        modified
    } else {
        YEAR_10000 - 1
    };
    let ymd = civil_from_secs(t);
    let mut out = u64_to_dec(ymd.0);
    out.push('/');
    let mo = u64_to_dec2(ymd.1);
    append_vec(&mut out, &mo);
    proof {
        reveal_strlit("/");
        assert(out@ =~= dec_digits(ymd.0 as nat) + "/"@ + dec2_digits(ymd.1 as nat));
    }
    out
}

/// The destination a record gets under a mode, or nothing when the mode
/// does not apply to it (camera and audio modes skip unsupported files).
pub open spec fn mode_dest(f: FileInfo, meta: FileMeta, base: Seq<char>, mode: OrganizeMode) -> Option<
    Seq<char>,
> {
    match mode {
        OrganizeMode::ByType => {
            let cat = spec_classify(
                match f.extension {
                    Option::Some(e) => Option::Some(e@),
                    Option::None => Option::None,
                },
            );
            Option::Some(path_join(path_join(base, cat.spec_folder_name()), f.name@))
        },
        OrganizeMode::ByDate => Option::Some(
            path_join(path_join(base, date_folder(f.modified)), f.name@),
        ),
        OrganizeMode::ByExtension => {
            let ext = match f.extension {
                Option::Some(e) => e@,
                Option::None => "no_extension"@,
            };
            Option::Some(path_join(path_join(base, upper(ext)), f.name@))
        },
        OrganizeMode::ByCamera => {
            if exif_supported_spec(f) {
                let folder = match meta.image {
                    Option::Some(im) => match im.spec_camera_folder_name() {
                        Option::Some(n) => n,
                        Option::None => "Unknown Camera"@,
                    },
                    Option::None => "Unknown Camera"@,
                };
                Option::Some(path_join(path_join(base, folder), f.name@))
            } else {
                Option::None
            }
        },
        OrganizeMode::ByDateTaken => {
            if exif_supported_spec(f) {
                let folder = match meta.image {
                    Option::Some(im) => match im.date_taken {
                        Option::Some(d) => match crate::metadata::spec_date_taken_folder(d@) {
                            Option::Some(n) => n,
                            Option::None => date_folder(f.modified),
                        },
                        Option::None => date_folder(f.modified),
                    },
                    Option::None => date_folder(f.modified),
                };
                Option::Some(path_join(path_join(base, folder), f.name@))
            } else {
                Option::Some(path_join(path_join(base, date_folder(f.modified)), f.name@))
            }
        },
        OrganizeMode::ByArtist => {
            if audio_supported_spec(f) {
                let folder = match meta.audio {
                    Option::Some(am) => match am.spec_artist_folder_name() {
                        Option::Some(n) => n,
                        Option::None => "Unknown Artist"@,
                    },
                    Option::None => "Unknown Artist"@,
                };
                Option::Some(path_join(path_join(base, folder), f.name@))
            } else {
                Option::None
            }
        },
        OrganizeMode::ByAlbum => {
            if audio_supported_spec(f) {
                let artist = match meta.audio {
                    Option::Some(am) => match am.spec_artist_folder_name() {
                        Option::Some(n) => n,
                        Option::None => "Unknown Artist"@,
                    },
                    Option::None => "Unknown Artist"@,
                };
                let album = match meta.audio {
                    Option::Some(am) => match am.spec_album_folder_name() {
                        Option::Some(n) => n,
                        Option::None => "Unknown Album"@,
                    },
                    Option::None => "Unknown Album"@,
                };
                Option::Some(
                    path_join(path_join(path_join(base, artist), album), f.name@),
                )
            } else {
                Option::None
            }
        },
    }
}

/// The record's path carries an EXIF-capable extension.
pub open spec fn exif_supported_spec(f: FileInfo) -> bool {
    match path_ext_lower(f.path@) {
        Option::Some(e) => crate::metadata::is_exif_ext(e),
        Option::None => false,
    }
}

/// The record's path carries an audio-tag-capable extension.
pub open spec fn audio_supported_spec(f: FileInfo) -> bool {
    match path_ext_lower(f.path@) {
        Option::Some(e) => crate::metadata::is_audio_ext(e),
        Option::None => false,
    }
}

/// The destination a record gets under a mode (see [`mode_dest`]).
fn dest_for(f: &FileInfo, meta: &FileMeta, base: &Vec<char>, mode: OrganizeMode) -> (r: Option<
    Vec<char>,
>)
    ensures
        match r {
            Some(d) => mode_dest(*f, *meta, base@, mode) == Option::Some(d@),
            None => mode_dest(*f, *meta, base@, mode) is None,
        },
{
    let name = chars_of(f.name.as_str());
    match mode {
        OrganizeMode::ByType => {
            let classifier = Classifier::new();
            let cat = classifier.classify(
                match &f.extension {
                    Some(e) => Some(e.as_str()),
                    None => None,
                },
            );
            let folder = chars_of(cat.folder_name());
            Some(join_path(&join_path(base, &folder), &name))
        },
        OrganizeMode::ByDate => {
            let folder = date_folder_exec(f.modified);
            Some(join_path(&join_path(base, &folder), &name))
        },
        OrganizeMode::ByExtension => {
            let ext = match &f.extension {
                Some(e) => chars_of(e.as_str()),
                None => chars_of("no_extension"),
            };
            let folder = to_upper(&ext);
            Some(join_path(&join_path(base, &folder), &name))
        },
        OrganizeMode::ByCamera => {
            if !is_exif_supported(f.path.as_str()) {
                return None;
            }
            let folder = match &meta.image {
                Some(im) => match im.camera_folder_name() {
                    Some(n) => chars_of(n.as_str()),
                    None => chars_of("Unknown Camera"),
                },
                None => chars_of("Unknown Camera"),
            };
            Some(join_path(&join_path(base, &folder), &name))
        },
        OrganizeMode::ByDateTaken => {
            if !is_exif_supported(f.path.as_str()) {
                let folder = date_folder_exec(f.modified);
                return Some(join_path(&join_path(base, &folder), &name));
            }
            let folder = match &meta.image {
                Some(im) => match im.date_taken_folder() {
                    Some(n) => chars_of(n.as_str()),
                    None => date_folder_exec(f.modified),
                },
                None => date_folder_exec(f.modified),
            };
            Some(join_path(&join_path(base, &folder), &name))
        },
        OrganizeMode::ByArtist => {
            if !is_audio_supported(f.path.as_str()) {
                return None;
            }
            let folder = match &meta.audio {
                Some(am) => match am.artist_folder_name() {
                    Some(n) => chars_of(n.as_str()),
                    None => chars_of("Unknown Artist"),
                },
                None => chars_of("Unknown Artist"),
            };
            Some(join_path(&join_path(base, &folder), &name))
        },
        OrganizeMode::ByAlbum => {
            if !is_audio_supported(f.path.as_str()) {
                return None;
            }
            let artist = match &meta.audio {
                Some(am) => match am.artist_folder_name() {
                    Some(n) => chars_of(n.as_str()),
                    None => chars_of("Unknown Artist"),
                },
                None => chars_of("Unknown Artist"),
            };
            let album = match &meta.audio {
                Some(am) => match am.album_folder_name() {
                    Some(n) => chars_of(n.as_str()),
                    None => chars_of("Unknown Album"),
                },
                None => chars_of("Unknown Album"),
            };
            Some(join_path(&join_path(&join_path(base, &artist), &album), &name))
        },
    }
}

/// One record's contribution to a plan, at the view level: the source
/// path, the prescribed destination, and the size — unless the mode
/// skips the record or it already lies at that destination.
pub open spec fn plan_step(f: FileInfo, meta: FileMeta, base: Seq<char>, mode: OrganizeMode) -> Option<
    (Seq<char>, Seq<char>, u64),
> {
    match mode_dest(f, meta, base, mode) {
        Option::Some(d) => {
            if f.path@ == d {
                Option::None
            } else {
                Option::Some((f.path@, d, f.size))
            }
        },
        Option::None => Option::None,
    }
}

/// The whole plan at the view level, in record order.
pub open spec fn plan_views(
    files: Seq<FileInfo>,
    metas: Seq<FileMeta>,
    base: Seq<char>,
    mode: OrganizeMode,
) -> Seq<(Seq<char>, Seq<char>, u64)>
    decreases files.len(),
{
    if files.len() == 0 || files.len() != metas.len() {
        Seq::empty()
    } else {
        let rest = plan_views(files.drop_last(), metas.drop_last(), base, mode);
        match plan_step(files.last(), metas.last(), base, mode) {
            Option::Some(m) => rest.push(m),
            Option::None => rest,
        }
    }
}

/// The view of a planned move.
pub open spec fn move_view(m: PlannedMove) -> (Seq<char>, Seq<char>, u64) {
    (m.from@, m.to@, m.size)
}

/// Plans the moves for an organize run: each record gets the
/// destination its mode prescribes; records the mode skips and records
/// already at their destination are left out. No planned move has its
/// source equal to its destination.
pub fn plan_moves(
    files: &Vec<FileInfo>,
    metas: &Vec<FileMeta>,
    base_path: &str,
    mode: OrganizeMode,
) -> (r: Vec<PlannedMove>)
    requires
        files@.len() == metas@.len(),
    ensures
        r@.map_values(|m: PlannedMove| move_view(m)) == plan_views(files@, metas@, base_path@, mode),
        forall|i: int| 0 <= i < r@.len() ==> (#[trigger] r@[i]).from@ != r@[i].to@,
{
    let base = chars_of(base_path);
    let mut r: Vec<PlannedMove> = Vec::new();
    let mut i: usize = 0;
    while i < files.len()
        invariant
            files@.len() == metas@.len(),
            base@ == base_path@,
            i <= files@.len(),
            r@.map_values(|m: PlannedMove| move_view(m)) == plan_views(
                files@.subrange(0, i as int),
                metas@.subrange(0, i as int),
                base_path@,
                mode,
            ),
            forall|k: int| 0 <= k < r@.len() ==> (#[trigger] r@[k]).from@ != r@[k].to@,
        decreases files@.len() - i,
    {
        proof {
            assert(files@.subrange(0, i + 1).drop_last() =~= files@.subrange(0, i as int));
            assert(metas@.subrange(0, i + 1).drop_last() =~= metas@.subrange(0, i as int));
            assert(files@.subrange(0, i + 1).last() == files@[i as int]);
            assert(metas@.subrange(0, i + 1).last() == metas@[i as int]);
        }
        match dest_for(&files[i], &metas[i], &base, mode) {
            Some(d) => {
                let path = chars_of(files[i].path.as_str());
                if !vec_eq(&path, &d) {
                    let m = PlannedMove {
                        from: files[i].path.clone(),
                        to: string_of(&d),
                        size: files[i].size,
                    };
                    r.push(m);
                    assert(r@.map_values(|m: PlannedMove| move_view(m)) =~= plan_views(
                        files@.subrange(0, i + 1),
                        metas@.subrange(0, i + 1),
                        base_path@,
                        mode,
                    ));
                } else {
                    assert(r@.map_values(|m: PlannedMove| move_view(m)) =~= plan_views(
                        files@.subrange(0, i + 1),
                        metas@.subrange(0, i + 1),
                        base_path@,
                        mode,
                    ));
                }
            },
            None => {
                assert(r@.map_values(|m: PlannedMove| move_view(m)) =~= plan_views(
                    files@.subrange(0, i + 1),
                    metas@.subrange(0, i + 1),
                    base_path@,
                    mode,
                ));
            },
        }
        i += 1;
    }
    proof {
        assert(files@.subrange(0, files@.len() as int) =~= files@);
        assert(metas@.subrange(0, metas@.len() as int) =~= metas@);
    }
    r
}

} // verus!

verus! {

/// The candidate destination for conflict attempt `c`: the file name
/// with `_c` appended to its stem, before any extension, in the same
/// directory.
pub open spec fn conflict_candidate(dest: Seq<char>, c: nat) -> Seq<char> {
    let name = file_name_of(dest);
    let prefix = dest.subrange(0, dest.len() - name.len());
    let stem = stem_of(name);
    let suffix: Seq<char> = match ext_of(name) {
        Option::Some(e) => seq!['.'] + e,
        Option::None => Seq::empty(),
    };
    prefix + stem + seq!['_'] + dec_digits(c) + suffix
}

proof fn lemma_candidate_injective(dest: Seq<char>, c1: nat, c2: nat)
    requires
        conflict_candidate(dest, c1) == conflict_candidate(dest, c2),
    ensures
        c1 == c2,
{
    let name = file_name_of(dest);
    let prefix = dest.subrange(0, dest.len() - name.len());
    let stem = stem_of(name);
    let suffix: Seq<char> = match ext_of(name) {
        Option::Some(e) => seq!['.'] + e,
        Option::None => Seq::empty(),
    };
    let p = prefix + stem + seq!['_'];
    let d1 = dec_digits(c1);
    let d2 = dec_digits(c2);
    lemma_dec_digits_value(c1);
    lemma_dec_digits_value(c2);
    let a = conflict_candidate(dest, c1);
    let b = conflict_candidate(dest, c2);
    assert(a =~= p + d1 + suffix);
    assert(b =~= p + d2 + suffix);
    assert(a.len() == p.len() + d1.len() + suffix.len());
    assert(d1.len() == d2.len());
    assert(d1 =~= d2) by {
        assert(forall|j: int|
            0 <= j < d1.len() ==> d1[j] == a[p.len() + j] && d2[j] == b[p.len() + j]);
    }
    assert(dec_value(d1) == dec_value(d2));
}

/// The index of a string among the existing paths, if it is there.
fn find_string(existing: &Vec<String>, s: &Vec<char>) -> (r: Option<usize>)
    ensures
        match r {
            Some(i) => i < existing@.len() && existing@[i as int]@ == s@,
            None => forall|i: int| 0 <= i < existing@.len() ==> (#[trigger] existing@[i])@ != s@,
        },
{
    let mut i: usize = 0;
    while i < existing.len()
        invariant
            i <= existing@.len(),
            forall|k: int| 0 <= k < i ==> (#[trigger] existing@[k])@ != s@,
        decreases existing@.len() - i,
    {
        if vec_eq(&chars_of(existing[i].as_str()), s) {
            return Some(i);
        }
        i += 1;
    }
    None
}

/// The string is among the existing paths.
pub open spec fn in_existing(existing: Seq<String>, s: Seq<char>) -> bool {
    exists|i: int| 0 <= i < existing.len() && (#[trigger] existing[i])@ == s
}

/// Every numbered candidate before attempt `c` is taken.
pub open spec fn candidates_taken_below(existing: Seq<String>, dest: Seq<char>, c: nat) -> bool {
    forall|k: nat| 1 <= k < c ==> in_existing(existing, #[trigger] conflict_candidate(dest, k))
}

/// Resolves a destination-name conflict against the given set of
/// existing paths: the destination itself when it is free, else the
/// first numbered candidate (`stem_1.ext`, `stem_2.ext`, ...) that is
/// free. The result never names an existing path.
pub fn resolve_conflict(dest: &str, existing: &Vec<String>) -> (r: String)
    requires
        existing@.len() < usize::MAX,
    ensures
        forall|i: int| 0 <= i < existing@.len() ==> (#[trigger] existing@[i])@ != r@,
        !in_existing(existing@, dest@) ==> r@ == dest@,
        r@ == dest@ || exists|c: nat|
            c >= 1 && r@ == conflict_candidate(dest@, c) && #[trigger] candidates_taken_below(
                existing@,
                dest@,
                c,
            ),
{
    let dv = chars_of(dest);
    let hit0 = match find_string(existing, &dv) {
        None => {
            return dest.to_owned();
        },
        Some(hit) => hit,
    };
    let name = file_name_of_exec(&dv);
    let dl = dv.len();
    assert(name@.len() <= dl) by {
        assert(name@ == file_name_of(dv@));
        if exists|d: int| #[trigger] crate::strutil::is_last_slash(dv@, d) {
        }
    }
    let prefix = subvec(&dv, 0, dl - name.len());
    let stem = stem_of_exec(&name);
    let suffix: Vec<char> = match ext_of_exec(&name) {
        Some(e) => {
            let mut s: Vec<char> = Vec::new();
            s.push('.');
            append_vec(&mut s, &e);
            proof {
                assert(s@ =~= seq!['.'] + e@);
            }
            s
        },
        None => Vec::new(),
    };
    let n = existing.len();
    let mut c: u64 = 1;
    let ghost mut dom: Set<int> = Set::empty();
    let ghost mut wit: Map<int, nat> = Map::empty();
    loop
        invariant
            n == existing@.len(),
            dv@ == dest@,
            n < usize::MAX,
            hit0 < n && existing@[hit0 as int]@ == dest@,
            candidates_taken_below(existing@, dest@, c as nat),
            forall|cc: nat| #[trigger] conflict_candidate(dest@, cc) == prefix@ + stem@
                + seq!['_'] + dec_digits(cc) + suffix@,
            1 <= c <= n + 1,
            dom.finite(),
            dom.len() == c - 1,
            forall|i: int|
                #[trigger] dom.contains(i) ==> 0 <= i < n && 1 <= wit[i] < c && existing@[i]@
                    == conflict_candidate(dest@, wit[i]),
        decreases n + 1 - c,
    {
        let mut cand = subvec(&prefix, 0, prefix.len());
        append_vec(&mut cand, &stem);
        cand.push('_');
        let digits = u64_to_dec(c);
        append_vec(&mut cand, &digits);
        append_vec(&mut cand, &suffix);
        proof {
            assert(cand@ =~= prefix@ + stem@ + seq!['_'] + dec_digits(c as nat) + suffix@);
            assert(cand@ == conflict_candidate(dest@, c as nat));
        }
        match find_string(existing, &cand) {
            None => {
                return string_of(&cand);
            },
            Some(idx) => {
                proof {
                    assert(in_existing(existing@, conflict_candidate(dest@, c as nat))) by {
                        assert(existing@[idx as int]@ == cand@);
                    }
                    assert(candidates_taken_below(existing@, dest@, (c + 1) as nat)) by {
                        assert(forall|k: nat|
                            1 <= k < c + 1 ==> in_existing(
                                existing@,
                                #[trigger] conflict_candidate(dest@, k),
                            ));
                    }
                    if dom.contains(idx as int) {
                        assert(existing@[idx as int]@ == conflict_candidate(dest@, wit[idx as int]));
                        assert(existing@[idx as int]@ == conflict_candidate(dest@, c as nat));
                        lemma_candidate_injective(dest@, wit[idx as int], c as nat);
                    }
                    dom = dom.insert(idx as int);
                    wit = wit.insert(idx as int, c as nat);
                    assert(dom.len() == c);
                    lemma_int_range(0, n as int);
                    assert(dom.subset_of(set_int_range(0, n as int))) by {
                        assert(forall|i: int|
                            #[trigger] dom.contains(i) ==> set_int_range(0, n as int).contains(i));
                    }
                    lemma_len_subset(dom, set_int_range(0, n as int));
                    assert(c <= n);
                    assert(n < usize::MAX);
                    assert(usize::MAX <= u64::MAX);
                    assert(c < u64::MAX);
                }
                c = c + 1;
            },
        }
    }
}

} // verus!

verus! {

/// How a name conflict at the destination is resolved.
#[derive(Clone, Copy, Debug, PartialEq, Eq, Structural)]
pub enum ConflictStrategy {
    /// Append a numeric suffix until the name is free.
    Rename,
    /// Leave the source untouched and count the file as skipped.
    Skip,
    /// Replace whatever is at the destination.
    Overwrite,
    /// Defer to a caller-supplied confirmation.
    Ask,
}

/// What the executor does with one planned move.
#[derive(Clone, Copy, Debug, PartialEq, Eq, Structural)]
pub enum ConflictAction {
    /// Write to the planned destination.
    UseDestination,
    /// Write to a renamed destination that is known to be free.
    UseRenamed,
    /// Leave the source untouched.
    SkipFile,
}

/// The action for one move under a conflict strategy: a free
/// destination is always used; otherwise Rename picks a fresh name,
/// Skip leaves the file, Overwrite proceeds, and Ask follows the
/// caller's answer (proceed on yes, skip on no).
pub fn conflict_action(strategy: ConflictStrategy, dest_exists: bool, ask_confirmed: bool) -> (r:
    ConflictAction)
    ensures
        !dest_exists ==> r == ConflictAction::UseDestination,
        dest_exists ==> r == match strategy {
            ConflictStrategy::Rename => ConflictAction::UseRenamed,
            ConflictStrategy::Skip => ConflictAction::SkipFile,
            ConflictStrategy::Overwrite => ConflictAction::UseDestination,
            ConflictStrategy::Ask => if ask_confirmed {
                ConflictAction::UseDestination
            } else {
                ConflictAction::SkipFile
            },
        },
{
    if !dest_exists {
        return ConflictAction::UseDestination;
    }
    match strategy {
        ConflictStrategy::Rename => ConflictAction::UseRenamed,
        ConflictStrategy::Skip => ConflictAction::SkipFile,
        ConflictStrategy::Overwrite => ConflictAction::UseDestination,
        ConflictStrategy::Ask => {
            if ask_confirmed {
                ConflictAction::UseDestination
            } else {
                ConflictAction::SkipFile
            }
        },
    }
}

} // verus!
