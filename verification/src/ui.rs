//! Pure state for the interactive mode selector.
//!
//! Terminal rendering and event handling are input/output and live
//! outside this crate; the selectable modes, their names, and their
//! cycling order are here.

use vstd::prelude::*;
use crate::organizer::OrganizeMode;

verus! {

/// Which pane the interactive view shows.
#[derive(Clone, Copy, Debug, PartialEq, Eq, Structural)]
pub enum ViewMode {
    FileList,
    Preview,
    Confirm,
}

/// The organize mode selected interactively.
#[derive(Clone, Copy, Debug, PartialEq, Eq, Structural)]
pub enum SelectedMode {
    ByType,
    ByDate,
    ByExtension,
}

impl SelectedMode {
    /// The planner mode this selection stands for.
    pub fn to_organize_mode(&self) -> (r: OrganizeMode)
        ensures
            r == match self {
                SelectedMode::ByType => OrganizeMode::ByType,
                SelectedMode::ByDate => OrganizeMode::ByDate,
                SelectedMode::ByExtension => OrganizeMode::ByExtension,
            },
    {
        match self {
            SelectedMode::ByType => OrganizeMode::ByType,
            SelectedMode::ByDate => OrganizeMode::ByDate,
            SelectedMode::ByExtension => OrganizeMode::ByExtension,
        }
    }

    /// The display name of this selection.
    pub fn name(&self) -> (r: &'static str)
        ensures
            r@ == match self {
                SelectedMode::ByType => "By Type"@,
                SelectedMode::ByDate => "By Date"@,
                SelectedMode::ByExtension => "By Extension"@,
            },
    {
        match self {
            SelectedMode::ByType => "By Type",
            SelectedMode::ByDate => "By Date",
            SelectedMode::ByExtension => "By Extension",
        }
    }

    /// The next selection in the cycle type, date, extension.
    pub fn next(&self) -> (r: Self)
        ensures
            r == match self {
                SelectedMode::ByType => SelectedMode::ByDate,
                SelectedMode::ByDate => SelectedMode::ByExtension,
                SelectedMode::ByExtension => SelectedMode::ByType,
            },
    {
        match self {
            SelectedMode::ByType => SelectedMode::ByDate,
            SelectedMode::ByDate => SelectedMode::ByExtension,
            SelectedMode::ByExtension => SelectedMode::ByType,
        }
    }
}

/// The icon shown for a category in the file list.
pub fn category_icon(category: &crate::classifier::Category) -> (r: &'static str)
    ensures
        r@ == match category {
            crate::classifier::Category::Images => "[img]"@,
            crate::classifier::Category::Documents => "[doc]"@,
            crate::classifier::Category::Videos => "[vid]"@,
            crate::classifier::Category::Audio => "[aud]"@,
            crate::classifier::Category::Archives => "[arc]"@,
            crate::classifier::Category::Code => "[cod]"@,
            crate::classifier::Category::Data => "[dat]"@,
            crate::classifier::Category::Other => "[oth]"@,
        },
{
    match category {
        crate::classifier::Category::Images => "[img]",
        crate::classifier::Category::Documents => "[doc]",
        crate::classifier::Category::Videos => "[vid]",
        crate::classifier::Category::Audio => "[aud]",
        crate::classifier::Category::Archives => "[arc]",
        crate::classifier::Category::Code => "[cod]",
        crate::classifier::Category::Data => "[dat]",
        crate::classifier::Category::Other => "[oth]",
    }
}

} // verus!
