//! Collecting page source files from directory listings.
//!
//! The collector keeps the directories that are still to be listed and
//! the source files found so far. A caller lists one directory at a time
//! and reports what it holds; a directory that cannot be listed is simply
//! not reported.

use vstd::prelude::*;
use crate::detect::RouteError;
use crate::text::{same_text, texts};

verus! {

/// One entry of a directory listing.
#[derive(Debug, PartialEq, Eq)]
pub struct Entry {
    /// The entry's path, from the directory the scan began at.
    pub path: String,
    /// Whether the entry is a directory.
    pub is_dir: bool,
    /// The extension of the entry's name, without the dot: what follows the
    /// last dot of a name that has one after its first character.
    pub extension: Option<String>,
}

/// Whether `extension` marks a page source file: exactly `ts` or `tsx`.
pub open spec fn is_source_extension(extension: Seq<char>) -> bool {
    extension == "ts"@ || extension == "tsx"@
}

impl Entry {
    /// The entry is a file whose extension is `ts` or `tsx`.
    pub open spec fn is_source_file(self) -> bool {
        &&& !self.is_dir
        &&& self.extension matches Some(ext) && is_source_extension(ext@)
    }
}

/// The paths of the page source files among `entries`, in order.
pub open spec fn source_files(entries: Seq<Entry>) -> Seq<Seq<char>>
    decreases entries.len(),
{
    if entries.len() == 0 {
        Seq::empty()
    } else if entries.last().is_source_file() {
        source_files(entries.drop_last()).push(entries.last().path@)
    } else {
        source_files(entries.drop_last())
    }
}

/// The paths of the directories among `entries`, in order.
pub open spec fn subdirectories(entries: Seq<Entry>) -> Seq<Seq<char>>
    decreases entries.len(),
{
    if entries.len() == 0 {
        Seq::empty()
    } else if entries.last().is_dir {
        subdirectories(entries.drop_last()).push(entries.last().path@)
    } else {
        subdirectories(entries.drop_last())
    }
}

/// Whether `extension` is `ts` or `tsx`.
pub fn has_source_extension(extension: &str) -> (yes: bool)
    ensures
        yes == is_source_extension(extension@),
{
    same_text(extension, "tsx") || same_text(extension, "ts")
}

/// The state of a scan: directories still to be listed, files found so far.
pub struct FileCollector {
    pending: Vec<String>,
    files: Vec<String>,
}

impl FileCollector {
    /// The directories still to be listed; the next one is the last.
    pub closed spec fn pending(&self) -> Seq<Seq<char>> {
        texts(self.pending@)
    }

    /// The source files found so far, in the order they were reported.
    pub closed spec fn files(&self) -> Seq<Seq<char>> {
        texts(self.files@)
    }

    /// A scan that begins at `root`.
    pub fn new(root: &str) -> (collector: FileCollector)
        ensures
            collector.pending() == seq![root@],
            collector.files() == Seq::<Seq<char>>::empty(),
    {
        let mut pending: Vec<String> = Vec::new();
        pending.push(String::from_str(root));
        let collector = FileCollector { pending, files: Vec::new() };
        assert(collector.pending() =~= seq![root@]);
        assert(collector.files() =~= Seq::<Seq<char>>::empty());
        collector
    }

    /// Takes the next directory to list, or `None` once the scan is over.
    pub fn next_directory(&mut self) -> (dir: Option<String>)
        ensures
            final(self).files() == old(self).files(),
            old(self).pending().len() == 0 ==> dir is None && final(self).pending() == old(
                self,
            ).pending(),
            old(self).pending().len() > 0 ==> dir is Some && dir->Some_0@ == old(
                self,
            ).pending().last() && final(self).pending() == old(self).pending().drop_last(),
    {
        let dir = self.pending.pop();
        assert(old(self).pending().len() > 0 ==> final(self).pending() =~= old(
            self,
        ).pending().drop_last());
        dir
    }

    /// Takes in the listing of one directory: its source files are found,
    /// its directories are to be listed, the rest is passed over.
    pub fn record(&mut self, entries: &Vec<Entry>)
        ensures
            final(self).files() == old(self).files() + source_files(entries@),
            final(self).pending() == old(self).pending() + subdirectories(entries@),
    {
        let n: usize = entries.len();
        let mut i: usize = 0;
        assert(entries@.take(0) =~= Seq::<Entry>::empty());
        while i < n
            invariant
                n == entries.len(),
                i <= n,
                self.files() =~= old(self).files() + source_files(entries@.take(i as int)),
                self.pending() =~= old(self).pending() + subdirectories(entries@.take(i as int)),
            decreases n - i,
        {
            let entry = &entries[i];
            let ghost files_before = self.files();
            let ghost pending_before = self.pending();
            assert(entries@.take(i + 1).drop_last() =~= entries@.take(i as int));
            assert(entries@.take(i + 1).last() == *entry);
            if entry.is_dir {
                self.pending.push(entry.path.clone());
                assert(self.pending() =~= pending_before.push(entry.path@));
            } else {
                let wanted = match &entry.extension {
                    Some(ext) => has_source_extension(ext.as_str()),
                    None => false,
                };
                if wanted {
                    self.files.push(entry.path.clone());
                    assert(self.files() =~= files_before.push(entry.path@));
                }
            }
            i += 1;
        }
        assert(entries@.take(n as int) =~= entries@);
    }

    /// Ends the scan and hands out the files found.
    pub fn into_files(self) -> (files: Vec<String>)
        ensures
            texts(files@) == self.files(),
    {
        self.files
    }
}

/// What the scan of `pages_dir` begins with: the error naming the
/// directory where it does not exist, a collector that starts at it
/// where it does.
pub fn get_routes(pages_dir: &str, exists: bool) -> (scan: Result<FileCollector, RouteError>)
    ensures
        exists ==> scan is Ok && scan->Ok_0.pending() == seq![pages_dir@] && scan->Ok_0.files()
            == Seq::<Seq<char>>::empty(),
        !exists ==> (scan matches Err(RouteError::DirectoryNotFound { directory }) && directory@
            == pages_dir@),
{
    if !exists {
        return Err(RouteError::DirectoryNotFound { directory: String::from_str(pages_dir) });
    }
    Ok(FileCollector::new(pages_dir))
}

/// What is found among `entries` is exactly the paths of the source files there.
pub proof fn lemma_source_files_membership(entries: Seq<Entry>, path: Seq<char>)
    ensures
        source_files(entries).contains(path) <==> exists|i: int|
            0 <= i < entries.len() && (#[trigger] entries[i]).is_source_file() && entries[i].path@
                == path,
    decreases entries.len(),
{
    if entries.len() > 0 {
        let rest = entries.drop_last();
        let found = source_files(rest);
        lemma_source_files_membership(rest, path);
        if source_files(entries).contains(path) {
            let k = choose|k: int| 0 <= k < source_files(entries).len() && source_files(entries)[k]
                == path;
            if k < found.len() {
                assert(found[k] == path);
                assert(found.contains(path));
                let i = choose|i: int|
                    0 <= i < rest.len() && (#[trigger] rest[i]).is_source_file() && rest[i].path@
                        == path;
                assert(entries[i] == rest[i]);
            } else {
                assert(entries[entries.len() - 1].is_source_file());
            }
        }
        if exists|i: int|
            0 <= i < entries.len() && (#[trigger] entries[i]).is_source_file() && entries[i].path@
                == path {
            let i = choose|i: int|
                0 <= i < entries.len() && (#[trigger] entries[i]).is_source_file()
                    && entries[i].path@ == path;
            if i < rest.len() {
                assert(rest[i] == entries[i]);
                assert(found.contains(path));
                let k = choose|k: int| 0 <= k < found.len() && found[k] == path;
                assert(source_files(entries)[k] == path);
            } else {
                assert(source_files(entries)[found.len() as int] == path);
            }
        }
    }
}

} // verus!
