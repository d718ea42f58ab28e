//! Why a project could not be read.

use vstd::prelude::*;
use vstd::string::StringExecFns;

use crate::chars::join3;

verus! {

/// Why a project could not be read.
#[derive(Debug)]
pub enum ProjectError {
    Read { path: String, source: String },
    Parse { path: String, source: String },
    Canonicalize { path: String, source: String },
    MissingConfiguredManifest(String),
    InvalidDependency { name: String, manifest: String },
    MissingGitDependency { name: String, url: String, expected: String },
    MissingDependencyManifest { name: String, root: String },
    InvalidGitUrl(String),
    Compiler(String),
}

/// What a [`ProjectError`] says.
#[verifier::ext_equal]
pub enum ErrorView {
    Read { path: Seq<char>, source: Seq<char> },
    Parse { path: Seq<char>, source: Seq<char> },
    Canonicalize { path: Seq<char>, source: Seq<char> },
    MissingConfiguredManifest(Seq<char>),
    InvalidDependency { name: Seq<char>, manifest: Seq<char> },
    MissingGitDependency { name: Seq<char>, url: Seq<char>, expected: Seq<char> },
    MissingDependencyManifest { name: Seq<char>, root: Seq<char> },
    InvalidGitUrl(Seq<char>),
    Compiler(Seq<char>),
}

impl View for ProjectError {
    type V = ErrorView;

    open spec fn view(&self) -> ErrorView {
        match self {
            ProjectError::Read { path, source } => ErrorView::Read {
                path: path@,
                source: source@,
            },
            ProjectError::Parse { path, source } => ErrorView::Parse {
                path: path@,
                source: source@,
            },
            ProjectError::Canonicalize { path, source } => ErrorView::Canonicalize {
                path: path@,
                source: source@,
            },
            ProjectError::MissingConfiguredManifest(path) => ErrorView::MissingConfiguredManifest(
                path@,
            ),
            ProjectError::InvalidDependency { name, manifest } => ErrorView::InvalidDependency {
                name: name@,
                manifest: manifest@,
            },
            ProjectError::MissingGitDependency {
                name,
                url,
                expected,
            } => ErrorView::MissingGitDependency {
                name: name@,
                url: url@,
                expected: expected@,
            },
            ProjectError::MissingDependencyManifest {
                name,
                root,
            } => ErrorView::MissingDependencyManifest { name: name@, root: root@ },
            ProjectError::InvalidGitUrl(url) => ErrorView::InvalidGitUrl(url@),
            ProjectError::Compiler(message) => ErrorView::Compiler(message@),
        }
    }
}

impl ErrorView {
    /// What the user is told.
    pub open spec fn message(self) -> Seq<char> {
        match self {
            ErrorView::Read { path, source } => "Unable to read `"@ + path + "`: "@ + source,
            ErrorView::Parse { path, source } => "Unable to parse `"@ + path + "`: "@ + source,
            ErrorView::Canonicalize { path, source } => "Unable to resolve `"@ + path + "`: "@
                + source,
            ErrorView::MissingConfiguredManifest(path) =>
                "Configured Simplex manifest was not found at `"@ + path + "`"@,
            ErrorView::InvalidDependency { name, manifest } => "Dependency `"@ + name + "` in `"@
                + manifest + "` must set exactly one of `path` or `git`"@,
            ErrorView::MissingGitDependency { name, url, expected } => "Git dependency `"@ + name
                + "` from `"@ + url + "` is not installed at `"@ + expected + "`"@,
            ErrorView::MissingDependencyManifest { name, root } => "Dependency `"@ + name
                + "` is missing a Simplex manifest in `"@ + root + "`"@,
            ErrorView::InvalidGitUrl(url) => "Invalid git dependency URL `"@ + url + "`"@,
            ErrorView::Compiler(message) => "Unable to build compiler dependency mappings: "@
                + message,
        }
    }
}

impl ProjectError {
    /// What the user is told.
    pub fn message(&self) -> (r: String)
        ensures
            r@ == self@.message(),
    {
        match self {
            ProjectError::Read { path, source } => {
                let mut text: String = join3("Unable to read `", path.as_str(), "`: ");
                text.append(source.as_str());
                text
            },
            ProjectError::Parse { path, source } => {
                let mut text: String = join3("Unable to parse `", path.as_str(), "`: ");
                text.append(source.as_str());
                text
            },
            ProjectError::Canonicalize { path, source } => {
                let mut text: String = join3("Unable to resolve `", path.as_str(), "`: ");
                text.append(source.as_str());
                text
            },
            ProjectError::MissingConfiguredManifest(path) => join3(
                "Configured Simplex manifest was not found at `",
                path.as_str(),
                "`",
            ),
            ProjectError::InvalidDependency { name, manifest } => {
                let mut text: String = join3("Dependency `", name.as_str(), "` in `");
                text.append(manifest.as_str());
                text.append("` must set exactly one of `path` or `git`");
                text
            },
            ProjectError::MissingGitDependency { name, url, expected } => {
                let mut text: String = join3("Git dependency `", name.as_str(), "` from `");
                text.append(url.as_str());
                text.append("` is not installed at `");
                text.append(expected.as_str());
                text.append("`");
                text
            },
            ProjectError::MissingDependencyManifest { name, root } => {
                let mut text: String = join3(
                    "Dependency `",
                    name.as_str(),
                    "` is missing a Simplex manifest in `",
                );
                text.append(root.as_str());
                text.append("`");
                text
            },
            ProjectError::InvalidGitUrl(url) => join3(
                "Invalid git dependency URL `",
                url.as_str(),
                "`",
            ),
            ProjectError::Compiler(message) => crate::chars::join2(
                "Unable to build compiler dependency mappings: ",
                message.as_str(),
            ),
        }
    }
}

/// Whether a text holds another.
pub open spec fn holds(text: Seq<char>, part: Seq<char>) -> bool {
    exists|front: Seq<char>, back: Seq<char>| text == #[trigger] (front + part + back)
}

proof fn lemma_holds(front: Seq<char>, part: Seq<char>, back: Seq<char>)
    ensures
        holds(front + part + back, part),
{
}

/// What the user is told names all that an error knows of.
pub proof fn law_message_names_its_cause(error: ErrorView)
    ensures
        match error {
            ErrorView::Read { path, source }
            | ErrorView::Parse { path, source }
            | ErrorView::Canonicalize { path, source } => holds(error.message(), path) && holds(
                error.message(),
                source,
            ),
            ErrorView::MissingConfiguredManifest(path) => holds(error.message(), path),
            ErrorView::InvalidDependency { name, manifest } => holds(error.message(), name)
                && holds(error.message(), manifest),
            ErrorView::MissingGitDependency { name, url, expected } => holds(error.message(), name)
                && holds(error.message(), url) && holds(error.message(), expected),
            ErrorView::MissingDependencyManifest { name, root } => holds(error.message(), name)
                && holds(error.message(), root),
            ErrorView::InvalidGitUrl(url) => holds(error.message(), url),
            ErrorView::Compiler(message) => holds(error.message(), message),
        },
{
    let none = Seq::<char>::empty();
    match error {
        ErrorView::Read { path, source } => {
            lemma_parts("Unable to read `"@, path, "`: "@, source, none, none, none);
        },
        ErrorView::Parse { path, source } => {
            lemma_parts("Unable to parse `"@, path, "`: "@, source, none, none, none);
        },
        ErrorView::Canonicalize { path, source } => {
            lemma_parts("Unable to resolve `"@, path, "`: "@, source, none, none, none);
        },
        ErrorView::MissingConfiguredManifest(path) => {
            lemma_holds("Configured Simplex manifest was not found at `"@, path, "`"@);
        },
        ErrorView::InvalidDependency { name, manifest } => {
            lemma_parts(
                "Dependency `"@,
                name,
                "` in `"@,
                manifest,
                "` must set exactly one of `path` or `git`"@,
                none,
                none,
            );
        },
        ErrorView::MissingGitDependency { name, url, expected } => {
            lemma_parts(
                "Git dependency `"@,
                name,
                "` from `"@,
                url,
                "` is not installed at `"@,
                expected,
                "`"@,
            );
        },
        ErrorView::MissingDependencyManifest { name, root } => {
            lemma_parts(
                "Dependency `"@,
                name,
                "` is missing a Simplex manifest in `"@,
                root,
                "`"@,
                none,
                none,
            );
        },
        ErrorView::InvalidGitUrl(url) => {
            lemma_holds("Invalid git dependency URL `"@, url, "`"@);
        },
        ErrorView::Compiler(message) => {
            let front = "Unable to build compiler dependency mappings: "@;
            lemma_holds(front, message, none);
            assert(front + message + none =~= front + message);
        },
    }
}

/// A text in seven parts holds the second, the fourth and the sixth.
proof fn lemma_parts(
    a: Seq<char>,
    b: Seq<char>,
    c: Seq<char>,
    d: Seq<char>,
    e: Seq<char>,
    f: Seq<char>,
    g: Seq<char>,
)
    ensures
        holds(a + b + c + d + e + f + g, b),
        holds(a + b + c + d + e + f + g, d),
        holds(a + b + c + d + e + f + g, f),
        f.len() == 0 && g.len() == 0 ==> a + b + c + d + e + f + g == a + b + c + d + e,
        e.len() == 0 && f.len() == 0 && g.len() == 0 ==> a + b + c + d + e + f + g == a + b + c + d,
{
    let all = a + b + c + d + e + f + g;
    lemma_holds(a, b, c + d + e + f + g);
    assert(all =~= a + b + (c + d + e + f + g));
    lemma_holds(a + b + c, d, e + f + g);
    assert(all =~= a + b + c + d + (e + f + g));
    lemma_holds(a + b + c + d + e, f, g);
    if f.len() == 0 && g.len() == 0 {
        assert(all =~= a + b + c + d + e);
    }
    if e.len() == 0 && f.len() == 0 && g.len() == 0 {
        assert(all =~= a + b + c + d);
    }
}

} // verus!
