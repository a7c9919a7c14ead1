//! Per-category statistics over a set of scanned records.
//!
//! Writing the statistics out as JSON is an export concern and lives
//! outside this crate; the counting itself is here.

use vstd::prelude::*;
use crate::classifier::{spec_classify, Category, Classifier};
use crate::scanner::FileInfo;
use crate::strutil::string_of;

verus! {

/// The count and total size of one category's files.
#[derive(Debug)]
pub struct CategoryStats {
    /// The category's folder name.
    pub name: String,
    /// How many files fall in the category.
    pub count: usize,
    /// Their total size in bytes, saturating at `u64::MAX`.
    pub size: u64,
}

/// Statistics over a whole scan.
#[derive(Debug)]
pub struct ExportStats {
    /// How many files were counted.
    pub total_files: usize,
    /// Their total size in bytes, saturating at `u64::MAX`.
    pub total_size: u64,
    /// One entry per category that holds at least one file.
    pub categories: Vec<CategoryStats>,
}

/// The category of a record, by its extension.
pub open spec fn file_category(f: FileInfo) -> Category {
    spec_classify(
        match f.extension {
            Option::Some(e) => Option::Some(e@),
            Option::None => Option::None,
        },
    )
}

/// How many of the first `m` records fall in category `c`.
pub open spec fn count_in_category(files: Seq<FileInfo>, c: Category, m: int) -> nat
    decreases m,
{
    if m <= 0 {
        0
    } else {
        count_in_category(files, c, m - 1) + if file_category(files[m - 1]) == c {
            1 as nat
        } else {
            0 as nat
        }
    }
}

/// The total size of the first `m` records in category `c`.
pub open spec fn size_in_category(files: Seq<FileInfo>, c: Category, m: int) -> nat
    decreases m,
{
    if m <= 0 {
        0
    } else {
        size_in_category(files, c, m - 1) + if file_category(files[m - 1]) == c {
            files[m - 1].size as nat
        } else {
            0 as nat
        }
    }
}

/// Counts the records and bytes in one category.
pub fn category_stats(files: &Vec<FileInfo>, c: Category) -> (r: CategoryStats)
    ensures
        r.name@ == c.spec_folder_name(),
        r.count == count_in_category(files@, c, files@.len() as int),
        r.size == if size_in_category(files@, c, files@.len() as int) <= u64::MAX {
            size_in_category(files@, c, files@.len() as int)
        } else {
            u64::MAX as nat
        },
{
    let classifier = Classifier::new();
    let mut count: usize = 0;
    let mut size: u64 = 0;
    let mut i: usize = 0;
    while i < files.len()
        invariant
            i <= files@.len(),
            count == count_in_category(files@, c, i as int),
            count <= i,
            size == if size_in_category(files@, c, i as int) <= u64::MAX {
                size_in_category(files@, c, i as int)
            } else {
                u64::MAX as nat
            },
        decreases files@.len() - i,
    {
        let cat = classifier.classify(
            match &files[i].extension {
                Some(e) => Some(e.as_str()),
                None => None,
            },
        );
        if cat == c {
            count += 1;
            let s = files[i].size;
            if size > u64::MAX - s {
                size = u64::MAX;
            } else {
                size = size + s;
            }
        }
        i += 1;
    }
    CategoryStats { name: string_of(&crate::strutil::chars_of(c.folder_name())), count, size }
}

/// Every category, in the fixed reporting order.
pub open spec fn all_categories() -> Seq<Category> {
    seq![
        Category::Images,
        Category::Documents,
        Category::Videos,
        Category::Audio,
        Category::Archives,
        Category::Code,
        Category::Data,
        Category::Other,
    ]
}

/// The categories among `cats` that hold at least one of the records,
/// in order.
pub open spec fn nonempty_categories(files: Seq<FileInfo>, cats: Seq<Category>) -> Seq<Category>
    decreases cats.len(),
{
    if cats.len() == 0 {
        Seq::empty()
    } else {
        let rest = nonempty_categories(files, cats.drop_last());
        if count_in_category(files, cats.last(), files.len() as int) > 0 {
            rest.push(cats.last())
        } else {
            rest
        }
    }
}

/// One statistics entry carries exactly category `c`'s name, count, and
/// saturated size over the records.
pub open spec fn entry_matches(e: CategoryStats, files: Seq<FileInfo>, c: Category) -> bool {
    &&& e.name@ == c.spec_folder_name()
    &&& e.count == count_in_category(files, c, files.len() as int)
    &&& e.size == if size_in_category(files, c, files.len() as int) <= u64::MAX {
        size_in_category(files, c, files.len() as int)
    } else {
        u64::MAX as nat
    }
}

/// Statistics over the records: the total count and size, and exactly
/// one entry per category that holds at least one file, in the fixed
/// category order, each carrying that category's count and size.
pub fn compute_stats(files: &Vec<FileInfo>) -> (r: ExportStats)
    ensures
        r.total_files == files@.len(),
        r.total_size == if crate::scanner::sum_sizes(files@) <= u64::MAX {
            crate::scanner::sum_sizes(files@)
        } else {
            u64::MAX as nat
        },
        r.categories@.len() == nonempty_categories(files@, all_categories()).len(),
        forall|k: int|
            0 <= k < r.categories@.len() ==> entry_matches(
                #[trigger] r.categories@[k],
                files@,
                nonempty_categories(files@, all_categories())[k],
            ),
        forall|k: int|
            0 <= k < r.categories@.len() ==> (#[trigger] r.categories@[k]).count > 0,
{
    let cats = Category::all();
    proof {
        assert(cats@ =~= all_categories());
    }
    let mut categories: Vec<CategoryStats> = Vec::new();
    let mut i: usize = 0;
    while i < cats.len()
        invariant
            cats@ == all_categories(),
            i <= cats@.len(),
            categories@.len() == nonempty_categories(files@, cats@.subrange(0, i as int)).len(),
            forall|k: int|
                0 <= k < categories@.len() ==> entry_matches(
                    #[trigger] categories@[k],
                    files@,
                    nonempty_categories(files@, cats@.subrange(0, i as int))[k],
                ),
            forall|k: int|
                0 <= k < categories@.len() ==> (#[trigger] categories@[k]).count > 0,
        decreases cats@.len() - i,
    {
        proof {
            assert(cats@.subrange(0, i + 1).drop_last() =~= cats@.subrange(0, i as int));
            assert(cats@.subrange(0, i + 1).last() == cats@[i as int]);
        }
        let cs = category_stats(files, cats[i]);
        let ghost before = categories@;
        if cs.count > 0 {
            categories.push(cs);
            proof {
                assert forall|k: int| 0 <= k < categories@.len() implies entry_matches(
                    #[trigger] categories@[k],
                    files@,
                    nonempty_categories(files@, cats@.subrange(0, i + 1))[k],
                ) by {
                    if k < before.len() {
                        assert(categories@[k] == before[k]);
                        assert(nonempty_categories(files@, cats@.subrange(0, i + 1))[k]
                            == nonempty_categories(files@, cats@.subrange(0, i as int))[k]);
                    } else {
                        assert(categories@[k] == cs);
                        assert(nonempty_categories(files@, cats@.subrange(0, i + 1))[k] == cats@[
                        i as int]);
                    }
                }
            }
        }
        i += 1;
    }
    proof {
        assert(cats@.subrange(0, cats@.len() as int) =~= cats@);
    }
    ExportStats { total_files: files.len(), total_size: crate::scanner::total_size(files), categories }
}

} // verus!
