//! The sections of the library's views and the actions that their menus
//! send.

use vstd::prelude::*;

verus! {

/// The identifier of a series in the watchlist.
#[derive(Copy, Clone, PartialEq, Eq, Debug)]
pub struct SeriesId(pub u32);

/// The sections of the files view.
#[derive(Copy, Clone, PartialEq, Eq, Debug)]
pub enum FilesSection {
    New,
    Watched,
}

impl FilesSection {
    /// The name shown for the section.
    pub open spec fn name(self) -> &'static str {
        match self {
            FilesSection::New => "New",
            FilesSection::Watched => "Watched",
        }
    }

    /// The name shown for the section.
    pub fn display(&self) -> (r: &'static str)
        ensures
            r@ == self.name()@,
    {
        match self {
            FilesSection::New => "New",
            FilesSection::Watched => "Watched",
        }
    }

    /// Every section, in the order shown.
    pub fn iter() -> (r: Vec<Self>)
        ensures
            r@ == seq![FilesSection::New, FilesSection::Watched],
    {
        vec![FilesSection::New, FilesSection::Watched]
    }

    /// The section of a file whose watched flag is `watched`.
    pub open spec fn of_flag(watched: bool) -> Self {
        if watched {
            FilesSection::Watched
        } else {
            FilesSection::New
        }
    }
}

impl From<bool> for FilesSection {
    fn from(value: bool) -> (r: Self) {
        if value {
            FilesSection::Watched
        } else {
            FilesSection::New
        }
    }
}

impl vstd::std_specs::convert::FromSpecImpl<bool> for FilesSection {
    open spec fn obeys_from_spec() -> bool {
        true
    }

    open spec fn from_spec(v: bool) -> Self {
        FilesSection::of_flag(v)
    }
}

/// The sections of the preferences view.
#[derive(Copy, Clone, PartialEq, Eq, Debug)]
pub enum PreferencesSection {
    Candidates,
    Feeds,
    Kinds,
    Formats,
    Media,
    Paths,
}

impl PreferencesSection {
    /// The name shown for the section.
    pub open spec fn name(self) -> &'static str {
        match self {
            PreferencesSection::Candidates => "Candidates",
            PreferencesSection::Feeds => "Feeds",
            PreferencesSection::Kinds => "Kinds",
            PreferencesSection::Formats => "Formats",
            PreferencesSection::Media => "Media",
            PreferencesSection::Paths => "Paths",
        }
    }

    /// The name shown for the section.
    pub fn display(&self) -> (r: &'static str)
        ensures
            r@ == self.name()@,
    {
        match self {
            PreferencesSection::Candidates => "Candidates",
            PreferencesSection::Feeds => "Feeds",
            PreferencesSection::Kinds => "Kinds",
            PreferencesSection::Formats => "Formats",
            PreferencesSection::Media => "Media",
            PreferencesSection::Paths => "Paths",
        }
    }

    /// Every section, in the order shown.
    pub fn iter() -> (r: Vec<Self>)
        ensures
            r@ == seq![
                PreferencesSection::Candidates,
                PreferencesSection::Feeds,
                PreferencesSection::Kinds,
                PreferencesSection::Formats,
                PreferencesSection::Media,
                PreferencesSection::Paths,
            ],
    {
        vec![
            PreferencesSection::Candidates,
            PreferencesSection::Feeds,
            PreferencesSection::Kinds,
            PreferencesSection::Formats,
            PreferencesSection::Media,
            PreferencesSection::Paths,
        ]
    }
}

/// Every section of the files view is listed once by `iter`.
pub proof fn law_files_sections_listed_once(x: FilesSection)
    ensures
        seq![FilesSection::New, FilesSection::Watched].filter(|y: FilesSection| y == x).len() == 1,
{
    reveal_with_fuel(Seq::<_>::filter, 3);
}

/// Every section of the preferences view is listed once by `iter`.
pub proof fn law_preferences_sections_listed_once(x: PreferencesSection)
    ensures
        seq![
            PreferencesSection::Candidates,
            PreferencesSection::Feeds,
            PreferencesSection::Kinds,
            PreferencesSection::Formats,
            PreferencesSection::Media,
            PreferencesSection::Paths,
        ].filter(|y: PreferencesSection| y == x).len() == 1,
{
    reveal_with_fuel(Seq::<_>::filter, 7);
}

/// The actions of the watchlist view.
pub enum WatchlistActions {
    Reload,
    Add(Option<String>),
    Edit,
    Delete,
    CopyTitles,
    Lookup,
}

/// The actions of the preferences view.
pub enum PreferencesActions {
    CandidatesAdd(Option<String>),
    CandidatesEdit,
    CandidatesDelete,
    CandidatesShowInfo,
    CandidatesReload,
    DownloadedAdd,
    DownloadedEdit,
    DownloadedDelete,
    DownloadedUpdate(Vec<(SeriesId, u32)>),
    FeedsAdd,
    FeedsEdit,
    FeedsDelete,
    FeedsReload,
    FormatsAdd,
    FormatsEdit,
    FormatsDelete,
    FormatsReload,
    KindsAdd,
    KindsEdit,
    KindsDelete,
    KindsReload,
    MediaUnlock,
    MediaConfirm,
    MediaDiscard,
    PathsChooseFiles,
    PathsChooseDownloads,
    PathsChooseDatabase,
    PathsUnlock,
    PathsConfirm,
    PathsDiscard,
}

} // verus!

verus! {

/// A path on disk, carried by the actions of the files view.
#[verifier::external_type_specification]
#[verifier::external_body]
pub struct ExPathBuf(std::path::PathBuf);

/// The actions of the files view.
pub enum FilesActions {
    Add(std::path::PathBuf),
    Remove(std::path::PathBuf),
    Reload,
    ShowFrame(bool),
    Play,
    Rename,
    MoveToFolder,
    Delete,
    MarkAsWatched,
    MarkAsUpdated(Vec<(SeriesId, u32, std::path::PathBuf)>),
    RefreshQueue,
    Maintenance,
    OpenDirectory,
    AddCandidate,
    AddSeries,
    CopyNames,
    Lookup,
    Remote,
    Download,
    Update,
}

} // verus!
