//! Resolves `use` paths to file paths.
//!
//! A file is a module: `use a.b.c` names `a/b/c.kore`, relative to the
//! directory of the file that contains the `use`.

use crate::text::concat2;
use vstd::prelude::*;

verus! {

/// The parent of a file path, as `Path::parent` of std computes it.
pub uninterp spec fn parent_dir(path: Seq<char>) -> Option<Seq<char>>;

/// A path extended by one component, as `PathBuf::push` of std computes it.
pub uninterp spec fn joined_path(base: Seq<char>, component: Seq<char>) -> Seq<char>;

/// Calls `Path::parent` of std. The result is named by `parent_dir`; a path
/// that is UTF-8 has a UTF-8 parent, so the conversion back loses nothing.
#[verifier::external_body]
fn path_parent(path: &str) -> (r: Option<String>)
    ensures
        match r {
            Some(p) => parent_dir(path@) == Some(p@),
            None => parent_dir(path@) is None,
        },
{
    std::path::Path::new(path).parent().map(|p| p.to_string_lossy().into_owned())
}

/// Calls `PathBuf::push` of std on a copy of `base`. The result is named by
/// `joined_path`.
#[verifier::external_body]
fn path_join(base: &str, component: &str) -> (r: String)
    ensures
        r@ == joined_path(base@, component@),
{
    let mut p = std::path::PathBuf::from(base);
    p.push(component);
    p.to_string_lossy().into_owned()
}

/// Resolves `use` paths relative to one module's directory.
pub struct PathResolver {
    current_dir: String,
}

/// The directory of a file: its parent, or `.` when it has none.
pub open spec fn dir_of(file: Seq<char>) -> Seq<char> {
    match parent_dir(file) {
        Some(p) => p,
        None => "."@,
    }
}

/// `dir` followed by each of `segs` as directories.
pub open spec fn descend(dir: Seq<char>, segs: Seq<String>) -> Seq<char>
    decreases segs.len(),
{
    if segs.len() == 0 {
        dir
    } else {
        joined_path(descend(dir, segs.drop_last()), segs.last()@)
    }
}

/// The file a non-empty `use` path names: every segment but the last is a
/// directory, the last one a `.kore` file.
pub open spec fn use_file(dir: Seq<char>, segs: Seq<String>) -> Seq<char> {
    joined_path(descend(dir, segs.drop_last()), segs.last()@ + ".kore"@)
}

/// Why a `use` path could not be resolved.
#[derive(Debug, Clone, PartialEq, Eq)]
pub enum PathError {
    /// The path has no segment.
    EmptyPath,
    /// No file at the path.
    FileNotFound(String),
}

impl PathError {
    /// The message that reports the error.
    pub fn message(&self) -> (s: String)
        ensures
            s@ == match self {
                PathError::EmptyPath => "empty use path"@,
                PathError::FileNotFound(p) => "file not found: "@ + p@,
            },
    {
        match self {
            PathError::EmptyPath => String::from_str("empty use path"),
            PathError::FileNotFound(p) => concat2("file not found: ", p.as_str()),
        }
    }
}

impl PathResolver {
    pub closed spec fn dir(&self) -> Seq<char> {
        self.current_dir@
    }

    /// A resolver for the module in `current_file`.
    pub fn new(current_file: &str) -> (r: PathResolver)
        ensures
            r.dir() == dir_of(current_file@),
    {
        let current_dir = match path_parent(current_file) {
            Some(p) => p,
            None => String::from_str("."),
        };
        PathResolver { current_dir }
    }

    /// The file path a `use` path names.
    pub fn resolve_use_path(&self, segments: &[String]) -> (r: Result<String, PathError>)
        ensures
            segments@.len() == 0 ==> r == Err::<String, PathError>(PathError::EmptyPath),
            segments@.len() > 0 ==> (r matches Ok(p) && p@ == use_file(self.dir(), segments@)),
    {
        if segments.len() == 0 {
            return Err(PathError::EmptyPath);
        }
        let last = segments.len() - 1;
        let mut path = self.current_dir.clone();
        let mut i: usize = 0;
        while i < last
            invariant
                last == segments@.len() - 1,
                i <= last,
                path@ == descend(self.dir(), segments@.take(i as int)),
            decreases last - i,
        {
            proof {
                assert(segments@.take(i + 1).drop_last() =~= segments@.take(i as int));
            }
            path = path_join(path.as_str(), segments[i].as_str());
            i = i + 1;
        }
        proof {
            assert(segments@.take(last as int) =~= segments@.drop_last());
        }
        let file_name = concat2(segments[last].as_str(), ".kore");
        Ok(path_join(path.as_str(), file_name.as_str()))
    }

    /// The directory `use` paths are resolved against.
    pub fn current_dir(&self) -> (d: &str)
        ensures
            d@ == self.dir(),
    {
        self.current_dir.as_str()
    }
}

} // verus!
