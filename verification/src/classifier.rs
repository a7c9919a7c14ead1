//! Maps a file extension to a semantic category.

use vstd::prelude::*;
use crate::strutil::{chars_of, lower, string_of, to_lower, vec_eq};

verus! {

/// A semantic category for a file, keyed by its extension.
#[derive(Clone, Copy, Debug, PartialEq, Eq, Hash, Structural)]
pub enum Category {
    Images,
    Documents,
    Videos,
    Audio,
    Archives,
    Code,
    Data,
    Other,
}

impl Category {
    /// The folder name used for this category.
    pub open spec fn spec_folder_name(self) -> Seq<char> {
        match self {
            Category::Images => "Images"@,
            Category::Documents => "Documents"@,
            Category::Videos => "Videos"@,
            Category::Audio => "Audio"@,
            Category::Archives => "Archives"@,
            Category::Code => "Code"@,
            Category::Data => "Data"@,
            Category::Other => "Other"@,
        }
    }

    /// The folder name used for this category.
    pub fn folder_name(&self) -> (r: &'static str)
        ensures
            r@ == self.spec_folder_name(),
    {
        match self {
            Category::Images => "Images",
            Category::Documents => "Documents",
            Category::Videos => "Videos",
            Category::Audio => "Audio",
            Category::Archives => "Archives",
            Category::Code => "Code",
            Category::Data => "Data",
            Category::Other => "Other",
        }
    }

    /// Every category, each exactly once.
    pub fn all() -> (r: Vec<Category>)
        ensures
            r@ =~= seq![
                Category::Images,
                Category::Documents,
                Category::Videos,
                Category::Audio,
                Category::Archives,
                Category::Code,
                Category::Data,
                Category::Other,
            ],
    {
        let mut r: Vec<Category> = Vec::new();
        r.push(Category::Images);
        r.push(Category::Documents);
        r.push(Category::Videos);
        r.push(Category::Audio);
        r.push(Category::Archives);
        r.push(Category::Code);
        r.push(Category::Data);
        r.push(Category::Other);
        r
    }
}

/// A lowercased extension that the images category covers.
pub open spec fn is_images_ext(e: Seq<char>) -> bool {
    e == "jpg"@ || e == "jpeg"@ || e == "png"@ || e == "gif"@ || e == "bmp"@ || e == "svg"@ || e == "webp"@ || e == "ico"@ || e == "tiff"@ || e == "heic"@ || e == "raw"@
}

/// A lowercased extension that the documents category covers.
pub open spec fn is_documents_ext(e: Seq<char>) -> bool {
    e == "pdf"@ || e == "doc"@ || e == "docx"@ || e == "txt"@ || e == "rtf"@ || e == "odt"@ || e == "xls"@ || e == "xlsx"@ || e == "ppt"@ || e == "pptx"@ || e == "csv"@ || e == "md"@ || e == "epub"@
}

/// A lowercased extension that the videos category covers.
pub open spec fn is_videos_ext(e: Seq<char>) -> bool {
    e == "mp4"@ || e == "avi"@ || e == "mov"@ || e == "mkv"@ || e == "wmv"@ || e == "flv"@ || e == "webm"@ || e == "m4v"@ || e == "mpeg"@ || e == "mpg"@
}

/// A lowercased extension that the audio category covers.
pub open spec fn is_audio_ext(e: Seq<char>) -> bool {
    e == "mp3"@ || e == "wav"@ || e == "flac"@ || e == "aac"@ || e == "ogg"@ || e == "wma"@ || e == "m4a"@ || e == "opus"@
}

/// A lowercased extension that the archives category covers.
pub open spec fn is_archives_ext(e: Seq<char>) -> bool {
    e == "zip"@ || e == "tar"@ || e == "gz"@ || e == "rar"@ || e == "7z"@ || e == "bz2"@ || e == "xz"@ || e == "tgz"@ || e == "dmg"@ || e == "iso"@
}

/// A lowercased extension that the code category covers.
pub open spec fn is_code_ext(e: Seq<char>) -> bool {
    e == "rs"@ || e == "py"@ || e == "js"@ || e == "ts"@ || e == "go"@ || e == "java"@ || e == "c"@ || e == "cpp"@ || e == "h"@ || e == "hpp"@ || e == "cs"@ || e == "rb"@ || e == "php"@ || e == "swift"@ || e == "kt"@ || e == "scala"@ || e == "html"@ || e == "css"@ || e == "scss"@ || e == "vue"@ || e == "jsx"@ || e == "tsx"@ || e == "sh"@ || e == "bash"@ || e == "zsh"@ || e == "fish"@
}

/// A lowercased extension that the data category covers.
pub open spec fn is_data_ext(e: Seq<char>) -> bool {
    e == "json"@ || e == "xml"@ || e == "yaml"@ || e == "yml"@ || e == "toml"@ || e == "sql"@ || e == "db"@ || e == "sqlite"@
}

fn is_images_ext_exec(le: &Vec<char>) -> (r: bool)
    ensures
        r == is_images_ext(le@),
{
    vec_eq(le, &chars_of("jpg"))
        || vec_eq(le, &chars_of("jpeg"))
        || vec_eq(le, &chars_of("png"))
        || vec_eq(le, &chars_of("gif"))
        || vec_eq(le, &chars_of("bmp"))
        || vec_eq(le, &chars_of("svg"))
        || vec_eq(le, &chars_of("webp"))
        || vec_eq(le, &chars_of("ico"))
        || vec_eq(le, &chars_of("tiff"))
        || vec_eq(le, &chars_of("heic"))
        || vec_eq(le, &chars_of("raw"))
}

fn is_documents_ext_exec(le: &Vec<char>) -> (r: bool)
    ensures
        r == is_documents_ext(le@),
{
    vec_eq(le, &chars_of("pdf"))
        || vec_eq(le, &chars_of("doc"))
        || vec_eq(le, &chars_of("docx"))
        || vec_eq(le, &chars_of("txt"))
        || vec_eq(le, &chars_of("rtf"))
        || vec_eq(le, &chars_of("odt"))
        || vec_eq(le, &chars_of("xls"))
        || vec_eq(le, &chars_of("xlsx"))
        || vec_eq(le, &chars_of("ppt"))
        || vec_eq(le, &chars_of("pptx"))
        || vec_eq(le, &chars_of("csv"))
        || vec_eq(le, &chars_of("md"))
        || vec_eq(le, &chars_of("epub"))
}

fn is_videos_ext_exec(le: &Vec<char>) -> (r: bool)
    ensures
        r == is_videos_ext(le@),
{
    vec_eq(le, &chars_of("mp4"))
        || vec_eq(le, &chars_of("avi"))
        || vec_eq(le, &chars_of("mov"))
        || vec_eq(le, &chars_of("mkv"))
        || vec_eq(le, &chars_of("wmv"))
        || vec_eq(le, &chars_of("flv"))
        || vec_eq(le, &chars_of("webm"))
        || vec_eq(le, &chars_of("m4v"))
        || vec_eq(le, &chars_of("mpeg"))
        || vec_eq(le, &chars_of("mpg"))
}

fn is_audio_ext_exec(le: &Vec<char>) -> (r: bool)
    ensures
        r == is_audio_ext(le@),
{
    vec_eq(le, &chars_of("mp3"))
        || vec_eq(le, &chars_of("wav"))
        || vec_eq(le, &chars_of("flac"))
        || vec_eq(le, &chars_of("aac"))
        || vec_eq(le, &chars_of("ogg"))
        || vec_eq(le, &chars_of("wma"))
        || vec_eq(le, &chars_of("m4a"))
        || vec_eq(le, &chars_of("opus"))
}

fn is_archives_ext_exec(le: &Vec<char>) -> (r: bool)
    ensures
        r == is_archives_ext(le@),
{
    vec_eq(le, &chars_of("zip"))
        || vec_eq(le, &chars_of("tar"))
        || vec_eq(le, &chars_of("gz"))
        || vec_eq(le, &chars_of("rar"))
        || vec_eq(le, &chars_of("7z"))
        || vec_eq(le, &chars_of("bz2"))
        || vec_eq(le, &chars_of("xz"))
        || vec_eq(le, &chars_of("tgz"))
        || vec_eq(le, &chars_of("dmg"))
        || vec_eq(le, &chars_of("iso"))
}

fn is_code_ext_exec(le: &Vec<char>) -> (r: bool)
    ensures
        r == is_code_ext(le@),
{
    vec_eq(le, &chars_of("rs"))
        || vec_eq(le, &chars_of("py"))
        || vec_eq(le, &chars_of("js"))
        || vec_eq(le, &chars_of("ts"))
        || vec_eq(le, &chars_of("go"))
        || vec_eq(le, &chars_of("java"))
        || vec_eq(le, &chars_of("c"))
        || vec_eq(le, &chars_of("cpp"))
        || vec_eq(le, &chars_of("h"))
        || vec_eq(le, &chars_of("hpp"))
        || vec_eq(le, &chars_of("cs"))
        || vec_eq(le, &chars_of("rb"))
        || vec_eq(le, &chars_of("php"))
        || vec_eq(le, &chars_of("swift"))
        || vec_eq(le, &chars_of("kt"))
        || vec_eq(le, &chars_of("scala"))
        || vec_eq(le, &chars_of("html"))
        || vec_eq(le, &chars_of("css"))
        || vec_eq(le, &chars_of("scss"))
        || vec_eq(le, &chars_of("vue"))
        || vec_eq(le, &chars_of("jsx"))
        || vec_eq(le, &chars_of("tsx"))
        || vec_eq(le, &chars_of("sh"))
        || vec_eq(le, &chars_of("bash"))
        || vec_eq(le, &chars_of("zsh"))
        || vec_eq(le, &chars_of("fish"))
}

fn is_data_ext_exec(le: &Vec<char>) -> (r: bool)
    ensures
        r == is_data_ext(le@),
{
    vec_eq(le, &chars_of("json"))
        || vec_eq(le, &chars_of("xml"))
        || vec_eq(le, &chars_of("yaml"))
        || vec_eq(le, &chars_of("yml"))
        || vec_eq(le, &chars_of("toml"))
        || vec_eq(le, &chars_of("sql"))
        || vec_eq(le, &chars_of("db"))
        || vec_eq(le, &chars_of("sqlite"))
}

/// The category of an already-lowercased extension.
pub open spec fn ext_category(e: Seq<char>) -> Category {
    if is_images_ext(e) {
        Category::Images
    } else if is_documents_ext(e) {
        Category::Documents
    } else if is_videos_ext(e) {
        Category::Videos
    } else if is_audio_ext(e) {
        Category::Audio
    } else if is_archives_ext(e) {
        Category::Archives
    } else if is_code_ext(e) {
        Category::Code
    } else if is_data_ext(e) {
        Category::Data
    } else {
        Category::Other
    }
}

/// What `classify` returns: the category of the lowercased extension,
/// `Other` when the extension is absent or unknown.
pub open spec fn spec_classify(extension: Option<Seq<char>>) -> Category {
    match extension {
        Option::None => Category::Other,
        Option::Some(e) => ext_category(lower(e)),
    }
}

/// Classifier for file extensions. The extension table is fixed; the value
/// carries no state of its own.
pub struct Classifier {
    _private: (),
}

impl Classifier {
    /// A classifier over the built-in extension table.
    pub fn new() -> (r: Classifier) {
        Classifier { _private: () }
    }

    /// The category for an optional extension; case-insensitive, `Other`
    /// for an unknown or missing extension.
    pub fn classify(&self, extension: Option<&str>) -> (r: Category)
        ensures
            r == spec_classify(match extension {
                Option::None => Option::None,
                Option::Some(e) => Option::Some(e@),
            }),
    {
        match extension {
            None => Category::Other,
            Some(ext) => {
                let le = to_lower(&chars_of(ext));
                if is_images_ext_exec(&le) {
                    Category::Images
                } else if is_documents_ext_exec(&le) {
                    Category::Documents
                } else if is_videos_ext_exec(&le) {
                    Category::Videos
                } else if is_audio_ext_exec(&le) {
                    Category::Audio
                } else if is_archives_ext_exec(&le) {
                    Category::Archives
                } else if is_code_ext_exec(&le) {
                    Category::Code
                } else if is_data_ext_exec(&le) {
                    Category::Data
                } else {
                    Category::Other
                }
            },
        }
    }

    /// The category for a known extension.
    pub fn get_category(&self, extension: &str) -> (r: Category)
        ensures
            r == spec_classify(Option::Some(extension@)),
    {
        self.classify(Some(extension))
    }
}

impl Default for Classifier {
    fn default() -> Self {
        Classifier::new()
    }
}

/// Lowercasing twice is the same as lowercasing once.
proof fn lemma_lower_idempotent(e: Seq<char>)
    ensures
        lower(lower(e)) == lower(e),
{
    assert(lower(lower(e)) =~= lower(e)) by {
        assert(forall|i: int| 0 <= i < e.len() ==> lower(lower(e))[i] == lower(e)[i]);
    }
}

/// Classification is case-insensitive: an extension and its lowercased
/// form fall in the same category.
pub proof fn lemma_classify_case_insensitive(e: Seq<char>)
    ensures
        spec_classify(Option::Some(e)) == spec_classify(Option::Some(lower(e))),
{
    lemma_lower_idempotent(e);
}

} // verus!
