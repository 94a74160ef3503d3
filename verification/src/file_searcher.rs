use vstd::prelude::*;
use std::path::PathBuf;
use crate::text::chars_of;

verus! {

/// Whether `text` ends with `suffix`.
pub open spec fn ends_with(text: Seq<char>, suffix: Seq<char>) -> bool {
    suffix.len() <= text.len() && text.skip(text.len() - suffix.len()) =~= suffix
}

/// Where source files are looked for.
pub struct FileSearcher {
    target_dir: PathBuf,
}

impl FileSearcher {
    /// The directory that is searched.
    pub closed spec fn directory(&self) -> PathBuf {
        self.target_dir
    }

    /// A searcher of the directory `target_dir`.
    pub fn new(target_dir: PathBuf) -> (searcher: FileSearcher)
        ensures
            searcher.directory() == target_dir,
    {
        FileSearcher { target_dir }
    }

    /// The directory that is searched.
    pub fn target_dir(&self) -> (dir: &PathBuf)
        ensures
            *dir == self.directory(),
    {
        &self.target_dir
    }

    /// Whether the file name `file_name` ends with `suffix`.
    pub fn has_suffix(file_name: &str, suffix: &str) -> (b: bool)
        ensures
            b == ends_with(file_name@, suffix@),
    {
        let name = chars_of(file_name);
        let end = chars_of(suffix);
        if end.len() > name.len() {
            return false;
        }
        let shift = name.len() - end.len();
        let mut k: usize = 0;
        while k < end.len()
            invariant
                k <= end.len(),
                name@ == file_name@,
                end@ == suffix@,
                shift + end.len() == name.len(),
                forall|j: int| 0 <= j < k ==> name[shift + j] == end[j],
            decreases end.len() - k,
        {
            if name[shift + k] != end[k] {
                proof {
                    let tail = file_name@.skip(file_name@.len() - suffix@.len());
                    assert(tail[k as int] == name[shift + k]);
                    assert(tail != suffix@);
                }
                return false;
            }
            k += 1;
        }
        true
    }
}

} // verus!
