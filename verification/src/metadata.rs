//! Metadata-derived folder names for images and audio files.
//!
//! Reading EXIF and audio tags from disk is input/output and lives
//! outside this crate; the records extracted there are cleaned into
//! folder names here, and the supported-format checks are here.

use vstd::prelude::*;
use crate::strutil::{
    chars_of, ext_of, file_name_of, file_name_of_exec, ext_of_exec, lower, string_of, subvec,
    to_lower, trim, trim_chars, trim_matching, trim_matching_exec, vec_eq,
};

verus! {

/// The lowercased extension of a path's final component, if any.
pub open spec fn path_ext_lower(path: Seq<char>) -> Option<Seq<char>> {
    match ext_of(file_name_of(path)) {
        Option::Some(e) => Option::Some(lower(e)),
        Option::None => Option::None,
    }
}

/// The lowercased extension of a path's final component, if any.
pub fn path_ext_lower_exec(path: &str) -> (r: Option<Vec<char>>)
    ensures
        match r {
            Some(e) => path_ext_lower(path@) == Option::Some(e@),
            None => path_ext_lower(path@) is None,
        },
{
    let name = file_name_of_exec(&chars_of(path));
    match ext_of_exec(&name) {
        Some(e) => Some(to_lower(&e)),
        None => None,
    }
}

/// An extension that EXIF extraction supports.
pub open spec fn is_exif_ext(e: Seq<char>) -> bool {
    e == "jpg"@ || e == "jpeg"@ || e == "tiff"@ || e == "tif"@ || e == "heic"@ || e == "heif"@
}

/// Whether the file can carry EXIF metadata, by its extension.
pub fn is_exif_supported(path: &str) -> (r: bool)
    ensures
        r == match path_ext_lower(path@) {
            Option::Some(e) => is_exif_ext(e),
            Option::None => false,
        },
{
    match path_ext_lower_exec(path) {
        Some(e) => vec_eq(&e, &chars_of("jpg")) || vec_eq(&e, &chars_of("jpeg")) || vec_eq(
            &e,
            &chars_of("tiff"),
        ) || vec_eq(&e, &chars_of("tif")) || vec_eq(&e, &chars_of("heic")) || vec_eq(
            &e,
            &chars_of("heif"),
        ),
        None => false,
    }
}

/// An extension that audio-tag extraction supports.
pub open spec fn is_audio_ext(e: Seq<char>) -> bool {
    ||| e == "mp3"@
    ||| e == "flac"@
    ||| e == "m4a"@
    ||| e == "aac"@
    ||| e == "ogg"@
    ||| e == "wav"@
    ||| e == "wma"@
    ||| e == "opus"@
    ||| e == "aiff"@
}

/// Whether the file can carry audio tags, by its extension.
pub fn is_audio_supported(path: &str) -> (r: bool)
    ensures
        r == match path_ext_lower(path@) {
            Option::Some(e) => is_audio_ext(e),
            Option::None => false,
        },
{
    match path_ext_lower_exec(path) {
        Some(e) => vec_eq(&e, &chars_of("mp3")) || vec_eq(&e, &chars_of("flac")) || vec_eq(
            &e,
            &chars_of("m4a"),
        ) || vec_eq(&e, &chars_of("aac")) || vec_eq(&e, &chars_of("ogg")) || vec_eq(
            &e,
            &chars_of("wav"),
        ) || vec_eq(&e, &chars_of("wma")) || vec_eq(&e, &chars_of("opus")) || vec_eq(
            &e,
            &chars_of("aiff"),
        ),
        None => false,
    }
}

/// An extension that perceptual image hashing supports.
pub open spec fn is_image_ext(e: Seq<char>) -> bool {
    e == "jpg"@ || e == "jpeg"@ || e == "png"@ || e == "gif"@ || e == "bmp"@ || e == "webp"@
}

/// Whether the file is a raster image suitable for perceptual hashing,
/// by its extension.
pub fn is_image_supported(path: &str) -> (r: bool)
    ensures
        r == match path_ext_lower(path@) {
            Option::Some(e) => is_image_ext(e),
            Option::None => false,
        },
{
    match path_ext_lower_exec(path) {
        Some(e) => vec_eq(&e, &chars_of("jpg")) || vec_eq(&e, &chars_of("jpeg")) || vec_eq(
            &e,
            &chars_of("png"),
        ) || vec_eq(&e, &chars_of("gif")) || vec_eq(&e, &chars_of("bmp")) || vec_eq(
            &e,
            &chars_of("webp"),
        ),
        None => false,
    }
}

/// A character that cannot appear in a folder name and is replaced by
/// an underscore.
pub open spec fn folder_unsafe(c: char) -> bool {
    c == '/' || c == '\\' || c == ':' || c == '*' || c == '?' || c == '<' || c == '>' || c == '|'
}

/// One character of a folder name, with unsafe characters replaced.
pub open spec fn folder_safe_char(c: char) -> char {
    if folder_unsafe(c) {
        '_'
    } else {
        c
    }
}

/// `s` with every character unsafe in a folder name replaced by `_`.
pub open spec fn folder_safe(s: Seq<char>) -> Seq<char> {
    s.map_values(|c: char| folder_safe_char(c))
}

fn folder_safe_exec(v: &Vec<char>) -> (r: Vec<char>)
    ensures
        r@ == folder_safe(v@),
{
    let mut r: Vec<char> = Vec::new();
    let mut i: usize = 0;
    while i < v.len()
        invariant
            i <= v.len(),
            r@ =~= folder_safe(v@.subrange(0, i as int)),
        decreases v.len() - i,
    {
        let c = v[i];
        if c == '/' || c == '\\' || c == ':' || c == '*' || c == '?' || c == '<' || c == '>' || c
            == '|' {
            r.push('_');
        } else {
            r.push(c);
        }
        assert(r@ =~= folder_safe(v@.subrange(0, i + 1)));
        i += 1;
    }
    assert(v@.subrange(0, v@.len() as int) =~= v@);
    r
}

/// A tag value cleaned for use as a folder name: surrounding quotes
/// removed, unsafe characters replaced, whitespace trimmed.
pub open spec fn camera_clean(s: Seq<char>) -> Seq<char> {
    trim(folder_safe(trim_matching(s, '"')))
}

/// A tag value cleaned for use as a folder name: unsafe characters
/// replaced, whitespace trimmed.
pub open spec fn tag_clean(s: Seq<char>) -> Seq<char> {
    trim(folder_safe(s))
}

/// EXIF metadata extracted from an image file, as plain strings.
#[derive(Debug, Default)]
pub struct ImageMetadata {
    /// Camera make, as the EXIF reader displays it.
    pub camera_make: Option<String>,
    /// Camera model, as the EXIF reader displays it.
    pub camera_model: Option<String>,
    /// The date the photo was taken, typically `YYYY:MM:DD HH:MM:SS`.
    pub date_taken: Option<String>,
}

impl ImageMetadata {
    /// What `camera_folder_name` returns: the cleaned model name, else
    /// the cleaned make, else nothing; empty names never appear.
    pub open spec fn spec_camera_folder_name(self) -> Option<Seq<char>> {
        if self.camera_model is Some && camera_clean(self.camera_model->0@).len() > 0 {
            Option::Some(camera_clean(self.camera_model->0@))
        } else if self.camera_make is Some && camera_clean(self.camera_make->0@).len() > 0 {
            Option::Some(camera_clean(self.camera_make->0@))
        } else {
            Option::None
        }
    }

    /// A folder name for the camera: the model if it cleans to a
    /// nonempty name, else the make, else nothing.
    pub fn camera_folder_name(&self) -> (r: Option<String>)
        ensures
            match r {
                Some(n) => self.spec_camera_folder_name() == Option::Some(n@),
                None => self.spec_camera_folder_name() is None,
            },
    {
        match &self.camera_model {
            Some(model) => {
                let clean = trim_chars(
                    &folder_safe_exec(&trim_matching_exec(&chars_of(model.as_str()), '"')),
                );
                if clean.len() > 0 {
                    return Some(string_of(&clean));
                }
            },
            None => {},
        }
        match &self.camera_make {
            Some(make) => {
                let clean = trim_chars(
                    &folder_safe_exec(&trim_matching_exec(&chars_of(make.as_str()), '"')),
                );
                if clean.len() > 0 {
                    return Some(string_of(&clean));
                }
            },
            None => {},
        }
        None
    }
}

/// A date-field separator in an EXIF date string.
pub open spec fn is_date_sep(c: char) -> bool {
    c == ':' || c == ' ' || c == '-'
}

/// `d` is the first date-field separator at or after `from`.
pub open spec fn is_first_sep(s: Seq<char>, from: int, d: int) -> bool {
    &&& from <= d < s.len()
    &&& is_date_sep(s[d])
    &&& forall|k: int| from <= k < d ==> !is_date_sep(#[trigger] s[k])
}

/// The position of the first date-field separator at or after `from`.
fn find_sep(s: &Vec<char>, from: usize) -> (r: Option<usize>)
    ensures
        match r {
            Some(d) => is_first_sep(s@, from as int, d as int),
            None => forall|k: int| from <= k < s@.len() ==> !is_date_sep(#[trigger] s@[k]),
        },
{
    let mut i: usize = from;
    while i < s.len()
        invariant
            from <= i,
            forall|k: int| from <= k < i && k < s@.len() ==> !is_date_sep(#[trigger] s@[k]),
        decreases s@.len() - i,
    {
        let c = s[i];
        if c == ':' || c == ' ' || c == '-' {
            return Some(i);
        }
        i += 1;
    }
    None
}

proof fn lemma_first_sep_unique(s: Seq<char>, from: int, d1: int, d2: int)
    requires
        is_first_sep(s, from, d1),
        is_first_sep(s, from, d2),
    ensures
        d1 == d2,
{
    if d1 < d2 {
        assert(!is_date_sep(s[d1]));
    }
    if d2 < d1 {
        assert(!is_date_sep(s[d2]));
    }
}

/// What `date_taken_folder` returns: `YYYY/MM` read from the cleaned
/// date string, when its first field has four characters and its second
/// has two.
pub open spec fn spec_date_taken_folder(date: Seq<char>) -> Option<Seq<char>> {
    let c = trim_matching(date, '"');
    if c.len() >= 10 {
        if exists|d: int| #[trigger] is_first_sep(c, 0, d) {
            let d1 = choose|d: int| #[trigger] is_first_sep(c, 0, d);
            let y = c.subrange(0, d1);
            let m = if exists|d: int| #[trigger] is_first_sep(c, d1 + 1, d) {
                let d2 = choose|d: int| #[trigger] is_first_sep(c, d1 + 1, d);
                c.subrange(d1 + 1, d2)
            } else {
                c.subrange(d1 + 1, c.len() as int)
            };
            if y.len() == 4 && m.len() == 2 {
                Option::Some(y + "/"@ + m)
            } else {
                Option::None
            }
        } else {
            Option::None
        }
    } else {
        Option::None
    }
}

impl ImageMetadata {
    /// The date taken as a `YYYY/MM` folder path, when the recorded
    /// date string carries a four-character year and two-character month.
    pub fn date_taken_folder(&self) -> (r: Option<String>)
        ensures
            match (r, &self.date_taken) {
                (Some(f), Some(d)) => spec_date_taken_folder(d@) == Option::Some(f@) && f@.len()
                    == 7,
                (None, Some(d)) => spec_date_taken_folder(d@) is None,
                (None, None) => true,
                (Some(_), None) => false,
            },
    {
        let date = match &self.date_taken {
            Some(d) => d,
            None => {
                return None;
            },
        };
        let c = trim_matching_exec(&chars_of(date.as_str()), '"');
        if c.len() < 10 {
            return None;
        }
        let d1 = match find_sep(&c, 0) {
            Some(d) => d,
            None => {
                proof {
                    if exists|d: int| is_first_sep(c@, 0, d) {
                        let dd = choose|d: int| is_first_sep(c@, 0, d);
                        assert(is_date_sep(c@[dd]));
                    }
                }
                return None;
            },
        };
        proof {
            let dd = choose|d: int| is_first_sep(c@, 0, d);
            lemma_first_sep_unique(c@, 0, d1 as int, dd);
        }
        let n = c.len();
        assert(d1 < n);
        let y = subvec(&c, 0, d1);
        let m = match find_sep(&c, d1 + 1) {
            Some(d2) => {
                proof {
                    let dd = choose|d: int| #[trigger] is_first_sep(c@, d1 + 1, d);
                    lemma_first_sep_unique(c@, d1 + 1, d2 as int, dd);
                }
                assert(d2 < n);
                subvec(&c, d1 + 1, d2)
            },
            None => {
                proof {
                    if exists|d: int| #[trigger] is_first_sep(c@, d1 + 1, d) {
                        let dd = choose|d: int| #[trigger] is_first_sep(c@, d1 + 1, d);
                        assert(is_date_sep(c@[dd]));
                    }
                }
                subvec(&c, d1 + 1, n)
            },
        };
        if y.len() == 4 && m.len() == 2 {
            let mut out = y;
            out.push('/');
            crate::strutil::append_vec(&mut out, &m);
            proof {
                reveal_strlit("/");
                assert(out@ =~= c@.subrange(0, d1 as int) + "/"@ + m@);
            }
            Some(string_of(&out))
        } else {
            None
        }
    }
}

/// Audio tags extracted from a music file, as plain strings.
#[derive(Debug, Default)]
pub struct AudioMetadata {
    /// Artist name.
    pub artist: Option<String>,
    /// Album name.
    pub album: Option<String>,
    /// Track title.
    pub title: Option<String>,
    /// Genre.
    pub genre: Option<String>,
    /// Release year.
    pub year: Option<u32>,
}

impl AudioMetadata {
    /// What `artist_folder_name` returns.
    pub open spec fn spec_artist_folder_name(self) -> Option<Seq<char>> {
        if self.artist is Some && tag_clean(self.artist->0@).len() > 0 {
            Option::Some(tag_clean(self.artist->0@))
        } else {
            Option::None
        }
    }

    /// The artist tag cleaned into a folder name; an absent or empty
    /// artist yields nothing.
    pub fn artist_folder_name(&self) -> (r: Option<String>)
        ensures
            match r {
                Some(n) => self.spec_artist_folder_name() == Option::Some(n@),
                None => self.spec_artist_folder_name() is None,
            },
    {
        match &self.artist {
            Some(a) => {
                let clean = trim_chars(&folder_safe_exec(&chars_of(a.as_str())));
                if clean.len() > 0 {
                    Some(string_of(&clean))
                } else {
                    None
                }
            },
            None => None,
        }
    }

    /// What `album_folder_name` returns.
    pub open spec fn spec_album_folder_name(self) -> Option<Seq<char>> {
        if self.album is Some && tag_clean(self.album->0@).len() > 0 {
            Option::Some(tag_clean(self.album->0@))
        } else {
            Option::None
        }
    }

    /// The album tag cleaned into a folder name; an absent or empty
    /// album yields nothing.
    pub fn album_folder_name(&self) -> (r: Option<String>)
        ensures
            match r {
                Some(n) => self.spec_album_folder_name() == Option::Some(n@),
                None => self.spec_album_folder_name() is None,
            },
    {
        match &self.album {
            Some(a) => {
                let clean = trim_chars(&folder_safe_exec(&chars_of(a.as_str())));
                if clean.len() > 0 {
                    Some(string_of(&clean))
                } else {
                    None
                }
            },
            None => None,
        }
    }
}

} // verus!
