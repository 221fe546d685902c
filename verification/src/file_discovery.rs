//! Choosing where the files to process come from, and matching extensions.
use crate::config::models::{InputConfig, InputView};
use crate::text::{decimal, decimal_chars, string_from_chars};
use vstd::prelude::*;
use vstd::string::StringExecFns;

verus! {

/// The files found, and the paths that could not be used with the reason.
#[derive(Debug, Clone)]
pub struct FileDiscoveryResult {
    pub files: Vec<std::path::PathBuf>,
    pub errors: Vec<(std::path::PathBuf, String)>,
}

/// The text of `FileDiscoveryResult::summary` for the given counts.
pub open spec fn summary_text(files: nat, errors: nat) -> Seq<char> {
    "Найдено файлов: "@ + decimal(files) + " | Ошибок: "@ + decimal(errors)
}

impl FileDiscoveryResult {
    /// How many files were found and how many paths failed.
    pub fn summary(&self) -> (r: String)
        ensures
            r@ == summary_text(self.files@.len(), self.errors@.len()),
    {
        let mut r = String::new();
        r.append("Найдено файлов: ");
        r.append(string_from_chars(&decimal_chars(self.files.len() as u64)).as_str());
        r.append(" | Ошибок: ");
        r.append(string_from_chars(&decimal_chars(self.errors.len() as u64)).as_str());
        r
    }
}

/// The one source of files that is used.
#[derive(Debug, Clone)]
pub enum FileSource {
    /// The listed files.
    Files(Vec<String>),
    /// One file.
    File(String),
    /// Paths that match a glob pattern.
    Glob(String),
    /// Files in a directory (and its subdirectories when `recursive`) whose
    /// extension is one of `extensions`.
    Directory { path: String, recursive: bool, extensions: Vec<String> },
    /// No source is set.
    Nothing,
}

/// `FileSource` with texts as character sequences.
pub enum SourceView {
    Files(Seq<Seq<char>>),
    File(Seq<char>),
    Glob(Seq<char>),
    Directory { path: Seq<char>, recursive: bool, extensions: Seq<Seq<char>> },
    Nothing,
}

impl View for FileSource {
    type V = SourceView;

    open spec fn view(&self) -> SourceView {
        match self {
            FileSource::Files(v) => SourceView::Files(crate::text::texts(v@)),
            FileSource::File(f) => SourceView::File(f@),
            FileSource::Glob(g) => SourceView::Glob(g@),
            FileSource::Directory { path, recursive, extensions } => SourceView::Directory {
                path: path@,
                recursive: *recursive,
                extensions: crate::text::texts(extensions@),
            },
            FileSource::Nothing => SourceView::Nothing,
        }
    }
}

/// The source that is used, by priority: the list of files (when not empty),
/// the single file, the glob pattern, the directory.
pub open spec fn chosen_source(i: InputView) -> SourceView {
    if i.files.len() != 0 {
        SourceView::Files(i.files)
    } else if i.file is Some {
        SourceView::File(i.file->0)
    } else if i.glob is Some {
        SourceView::Glob(i.glob->0)
    } else if i.directory is Some {
        SourceView::Directory { path: i.directory->0, recursive: i.recursive, extensions: i.extensions }
    } else {
        SourceView::Nothing
    }
}

/// Picks the source of files; see `chosen_source`.
pub fn select_source(config: &InputConfig) -> (r: FileSource)
    ensures
        r@ == chosen_source(config@),
{
    if config.files.len() != 0 {
        FileSource::Files(crate::text::copy_texts(&config.files))
    } else if let Some(f) = &config.file {
        FileSource::File(f.clone())
    } else if let Some(g) = &config.glob {
        FileSource::Glob(g.clone())
    } else if let Some(d) = &config.directory {
        FileSource::Directory {
            path: d.clone(),
            recursive: config.recursive,
            extensions: crate::text::copy_texts(&config.extensions),
        }
    } else {
        FileSource::Nothing
    }
}

/// What `str::to_lowercase` makes of a text (Unicode lowercase mapping).
pub uninterp spec fn lowercase(s: Seq<char>) -> Seq<char>;

/// `str::to_lowercase`. Claimed: the result is `lowercase(s)`, a function of
/// the text alone; the Unicode case tables themselves are not stated.
#[verifier::external_body]
fn to_lowercase(s: &str) -> (r: String)
    ensures
        r@ == lowercase(s@),
{
    s.to_lowercase()
}

/// An extension (without its dot) matches a configured one: the configured
/// extension, lowercased, is the lowercased extension with or without a
/// leading dot.
pub open spec fn extension_listed(ext: Seq<char>, extensions: Seq<Seq<char>>) -> bool {
    exists|i: int|
        0 <= i < extensions.len() && (lowercase(extensions[i]) == seq!['.'] + lowercase(ext)
            || lowercase(extensions[i]) == lowercase(ext))
}

/// Whether a file extension (the part after the last dot, without the dot)
/// is one of `extensions`; see `extension_listed`.
pub fn extension_matches(ext: &str, extensions: &[String]) -> (r: bool)
    ensures
        r == extension_listed(ext@, crate::text::texts(extensions@)),
{
    proof {
        reveal_strlit(".");
    }
    let lower = to_lowercase(ext);
    let mut with_dot = String::new();
    with_dot.append(".");
    with_dot.append(lower.as_str());
    let n = extensions.len();
    let mut k: usize = 0;
    while k < n
        invariant
            0 <= k <= n,
            n == extensions@.len(),
            lower@ == lowercase(ext@),
            with_dot@ == seq!['.'] + lowercase(ext@),
            forall|i: int|
                0 <= i < k ==> !(lowercase(#[trigger] extensions@[i]@) == seq!['.'] + lowercase(ext@)
                    || lowercase(extensions@[i]@) == lowercase(ext@)),
        decreases n - k,
    {
        let e = to_lowercase(extensions[k].as_str());
        if e == with_dot || e == lower {
            assert(crate::text::texts(extensions@)[k as int] == extensions@[k as int]@);
            return true;
        }
        k = k + 1;
    }
    proof {
        let t = crate::text::texts(extensions@);
        if extension_listed(ext@, t) {
            let i = choose|i: int|
                0 <= i < t.len() && (lowercase(t[i]) == seq!['.'] + lowercase(ext@) || lowercase(t[i])
                    == lowercase(ext@));
            assert(t[i] == extensions@[i]@);
        }
    }
    false
}

/// The chosen source carries the configuration's own settings: a non-empty
/// list of files wins and is used as it is; otherwise the single file, then
/// the glob pattern; a directory is used only when none of those is set, and
/// then with the configured recursion and the configured extensions
/// unchanged; with nothing set there is no source.
pub proof fn lemma_source_follows_config(i: InputView)
    ensures
        i.files.len() != 0 ==> chosen_source(i) == SourceView::Files(i.files),
        i.files.len() == 0 && i.file is Some ==> chosen_source(i) == SourceView::File(i.file->0),
        i.files.len() == 0 && i.file is None && i.glob is Some ==> chosen_source(i) == SourceView::Glob(i.glob->0),
        i.files.len() == 0 && i.file is None && i.glob is None && i.directory is Some ==> (chosen_source(i)
            matches SourceView::Directory { path, recursive, extensions } && path == i.directory->0 && recursive
            == i.recursive && extensions == i.extensions),
        i.files.len() == 0 && i.file is None && i.glob is None && i.directory is None ==> chosen_source(i)
            == SourceView::Nothing,
{
}

} // verus!
