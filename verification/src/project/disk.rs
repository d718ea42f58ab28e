//! What is known of the disk, and what has to be asked of it.
//!
//! A search through a project reads the disk step by step. It works on what is known already, and
//! stops at the first thing that is not: that is asked, and the search begins anew with the answer.

use vstd::prelude::*;

use crate::paths::{parent, path_parent};
use crate::project::error::{ErrorView, ProjectError};
use crate::text_map::{lookup, TextMap};

verus! {

/// Something that the disk is asked of a path.
#[derive(Debug, PartialEq, Eq)]
pub enum Question {
    /// The one spelling of the path, without links.
    Canonical(String),
    /// Whether the path is a file.
    IsFile(String),
    /// Whether the path is a directory.
    IsDirectory(String),
    /// The manifest that the file holds.
    Manifest(String),
    /// The text that the file holds.
    Source(String),
    /// What the directory holds.
    Entries(String),
}

/// What a [`Question`] says.
#[verifier::ext_equal]
pub enum QuestionView {
    Canonical(Seq<char>),
    IsFile(Seq<char>),
    IsDirectory(Seq<char>),
    Manifest(Seq<char>),
    Source(Seq<char>),
    Entries(Seq<char>),
}

impl View for Question {
    type V = QuestionView;

    open spec fn view(&self) -> QuestionView {
        match self {
            Question::Canonical(path) => QuestionView::Canonical(path@),
            Question::IsFile(path) => QuestionView::IsFile(path@),
            Question::IsDirectory(path) => QuestionView::IsDirectory(path@),
            Question::Manifest(path) => QuestionView::Manifest(path@),
            Question::Source(path) => QuestionView::Source(path@),
            Question::Entries(path) => QuestionView::Entries(path@),
        }
    }
}

/// Why a search stops.
#[derive(Debug)]
pub enum Stop {
    /// Something has to be asked first.
    Asked(Question),
    /// The project cannot be read.
    Failed(ProjectError),
}

/// What a [`Stop`] says.
#[verifier::ext_equal]
pub enum StopView {
    Asked(QuestionView),
    Failed(ErrorView),
}

impl View for Stop {
    type V = StopView;

    open spec fn view(&self) -> StopView {
        match self {
            Stop::Asked(question) => StopView::Asked(question@),
            Stop::Failed(error) => StopView::Failed(error@),
        }
    }
}

/// What a Simplex manifest says.
#[derive(Debug)]
pub struct SimplexConfig {
    /// The directory of the sources, below that of the manifest.
    pub src_dir: String,
    pub dependencies: TextMap<DependencyConfig>,
}

/// What a Simplex manifest says of a dependency.
#[derive(Debug)]
pub struct DependencyConfig {
    pub path: Option<String>,
    pub git: Option<String>,
    pub rev: Option<String>,
    pub tag: Option<String>,
}

impl Default for SimplexConfig {
    fn default() -> (r: SimplexConfig)
        ensures
            r.src_dir@ == "simf"@,
            r.dependencies@ == Seq::<(Seq<char>, DependencyConfig)>::empty(),
    {
        SimplexConfig { src_dir: "simf".to_owned(), dependencies: TextMap::new() }
    }
}

/// Why a manifest could not be loaded.
#[derive(Debug)]
pub enum ManifestFailure {
    Read(String),
    Parse(String),
}

/// Something that a directory holds.
#[derive(Debug)]
pub struct DirectoryEntry {
    pub path: String,
    /// The canonical path, or the path itself where there is none.
    pub canonical: String,
    pub is_directory: bool,
}

/// What is known of the disk: the answers to the questions that were asked.
#[derive(Debug)]
pub struct Disk {
    pub canonical: TextMap<Result<String, String>>,
    pub files: TextMap<bool>,
    pub directories: TextMap<bool>,
    pub manifests: TextMap<Result<SimplexConfig, ManifestFailure>>,
    pub sources: TextMap<Option<String>>,
    pub entries: TextMap<Vec<DirectoryEntry>>,
}

/// Whether the answer to a question is known.
pub open spec fn knows(disk: Disk, question: QuestionView) -> bool {
    match question {
        QuestionView::Canonical(path) => lookup(disk.canonical@, path) is Some,
        QuestionView::IsFile(path) => lookup(disk.files@, path) is Some,
        QuestionView::IsDirectory(path) => lookup(disk.directories@, path) is Some,
        QuestionView::Manifest(path) => lookup(disk.manifests@, path) is Some,
        QuestionView::Source(path) => lookup(disk.sources@, path) is Some,
        QuestionView::Entries(path) => lookup(disk.entries@, path) is Some,
    }
}

/// Whether everything that is known of one disk is known of another, and the same.
pub open spec fn extends(less: Disk, more: Disk) -> bool {
    forall|question: QuestionView| #[trigger]
        knows(less, question) ==> agree_on(less, more, question)
}

/// Whether two disks answer a question in the same way.
pub open spec fn agree_on(a: Disk, b: Disk, question: QuestionView) -> bool {
    match question {
        QuestionView::Canonical(path) => lookup(a.canonical@, path) == lookup(b.canonical@, path),
        QuestionView::IsFile(path) => lookup(a.files@, path) == lookup(b.files@, path),
        QuestionView::IsDirectory(path) => lookup(a.directories@, path) == lookup(
            b.directories@,
            path,
        ),
        QuestionView::Manifest(path) => lookup(a.manifests@, path) == lookup(b.manifests@, path),
        QuestionView::Source(path) => lookup(a.sources@, path) == lookup(b.sources@, path),
        QuestionView::Entries(path) => lookup(a.entries@, path) == lookup(b.entries@, path),
    }
}

/// The canonical path of a path.
pub open spec fn canonical_of(disk: Disk, path: Seq<char>) -> Result<Seq<char>, StopView> {
    match lookup(disk.canonical@, path) {
        None => Err(StopView::Asked(QuestionView::Canonical(path))),
        Some(Ok(canonical)) => Ok(canonical@),
        Some(Err(source)) => Err(
            StopView::Failed(ErrorView::Canonicalize { path, source: source@ }),
        ),
    }
}

/// Whether a path is a file. The root and the empty path, which lie in no directory, are none.
pub open spec fn is_file_at(disk: Disk, path: Seq<char>) -> Result<bool, StopView> {
    match lookup(disk.files@, path) {
        None => Err(StopView::Asked(QuestionView::IsFile(path))),
        Some(answer) => Ok(answer && path_parent(path) is Some),
    }
}

/// Whether a path is a directory.
pub open spec fn is_directory_at(disk: Disk, path: Seq<char>) -> Result<bool, StopView> {
    match lookup(disk.directories@, path) {
        None => Err(StopView::Asked(QuestionView::IsDirectory(path))),
        Some(answer) => Ok(answer),
    }
}

/// The manifest that a file holds.
pub open spec fn manifest_of(disk: Disk, path: Seq<char>) -> Result<SimplexConfig, StopView> {
    match lookup(disk.manifests@, path) {
        None => Err(StopView::Asked(QuestionView::Manifest(path))),
        Some(Ok(config)) => Ok(config),
        Some(Err(ManifestFailure::Read(source))) => Err(
            StopView::Failed(ErrorView::Read { path, source: source@ }),
        ),
        Some(Err(ManifestFailure::Parse(source))) => Err(
            StopView::Failed(ErrorView::Parse { path, source: source@ }),
        ),
    }
}

/// What a search for a text says.
pub open spec fn text_found(r: Result<String, Stop>) -> Result<Seq<char>, StopView> {
    match r {
        Ok(text) => Ok(text@),
        Err(stop) => Err(stop@),
    }
}

/// What a search for an optional text says.
pub open spec fn opt_text_found(r: Result<Option<String>, Stop>) -> Result<
    Option<Seq<char>>,
    StopView,
> {
    match r {
        Ok(Some(text)) => Ok(Some(text@)),
        Ok(None) => Ok(None),
        Err(stop) => Err(stop@),
    }
}

/// What a search for a plain value says.
pub open spec fn found<T>(r: Result<T, Stop>) -> Result<T, StopView> {
    match r {
        Ok(value) => Ok(value),
        Err(stop) => Err(stop@),
    }
}

impl Disk {
    /// A disk of which nothing is known.
    pub fn new() -> (r: Disk)
        ensures
            forall|question: QuestionView| !#[trigger] knows(r, question),
    {
        Disk {
            canonical: TextMap::new(),
            files: TextMap::new(),
            directories: TextMap::new(),
            manifests: TextMap::new(),
            sources: TextMap::new(),
            entries: TextMap::new(),
        }
    }

    /// The canonical path of a path.
    pub fn canonicalize(&self, path: &str) -> (r: Result<String, Stop>)
        ensures
            text_found(r) == canonical_of(*self, path@),
    {
        match self.canonical.get(path) {
            None => Err(Stop::Asked(Question::Canonical(path.to_owned()))),
            Some(Ok(canonical)) => Ok(canonical.clone()),
            Some(Err(source)) => Err(
                Stop::Failed(
                    ProjectError::Canonicalize { path: path.to_owned(), source: source.clone() },
                ),
            ),
        }
    }

    /// Whether a path is a file.
    pub fn is_file(&self, path: &str) -> (r: Result<bool, Stop>)
        ensures
            found(r) == is_file_at(*self, path@),
    {
        match self.files.get(path) {
            None => Err(Stop::Asked(Question::IsFile(path.to_owned()))),
            Some(answer) => Ok(*answer && parent(path).is_some()),
        }
    }

    /// Whether a path is a directory.
    pub fn is_directory(&self, path: &str) -> (r: Result<bool, Stop>)
        ensures
            found(r) == is_directory_at(*self, path@),
    {
        match self.directories.get(path) {
            None => Err(Stop::Asked(Question::IsDirectory(path.to_owned()))),
            Some(answer) => Ok(*answer),
        }
    }

    /// The manifest that a file holds.
    pub fn load_manifest(&self, path: &str) -> (r: Result<&SimplexConfig, Stop>)
        ensures
            match r {
                Ok(config) => manifest_of(*self, path@) == Ok::<SimplexConfig, StopView>(*config),
                Err(stop) => manifest_of(*self, path@) == Err::<SimplexConfig, StopView>(stop@),
            },
    {
        match self.manifests.get(path) {
            None => Err(Stop::Asked(Question::Manifest(path.to_owned()))),
            Some(Ok(config)) => Ok(config),
            Some(Err(ManifestFailure::Read(source))) => Err(
                Stop::Failed(
                    ProjectError::Read { path: path.to_owned(), source: source.clone() },
                ),
            ),
            Some(Err(ManifestFailure::Parse(source))) => Err(
                Stop::Failed(
                    ProjectError::Parse { path: path.to_owned(), source: source.clone() },
                ),
            ),
        }
    }
}

} // verus!
