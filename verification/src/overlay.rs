//! The source overlay: the texts that the editor holds and has not saved,
//! shadowing the files on disk for one session.

use crate::error::Error;
use vstd::prelude::*;
use vstd::string::*;

verus! {

/// An override: the text that the editor holds for a path.
pub struct Entry {
    pub path: String,
    pub content: String,
}

/// The overrides that a list of entries stands for. A later entry for a
/// path replaces an earlier one.
pub open spec fn overrides_of(entries: Seq<Entry>) -> Map<Seq<char>, Seq<char>>
    decreases entries.len(),
{
    if entries.len() == 0 {
        Map::empty()
    } else {
        overrides_of(entries.drop_last()).insert(entries.last().path@, entries.last().content@)
    }
}

/// The text that a read of `path` sees: the override where there is one,
/// else what the disk gave, if it gave anything.
pub open spec fn visible_text(
    overrides: Map<Seq<char>, Seq<char>>,
    path: Seq<char>,
    disk: Option<Seq<char>>,
) -> Option<Seq<char>> {
    if overrides.dom().contains(path) {
        Some(overrides[path])
    } else {
        disk
    }
}

/// Overlay precedence: once a text is written for a path, a read of the
/// path gives that text whatever the disk holds; once the override is
/// cleared again, a read gives what the disk holds; and neither step
/// changes what a read of another path gives.
pub proof fn lemma_overlay_precedence(
    overrides: Map<Seq<char>, Seq<char>>,
    path: Seq<char>,
    text: Seq<char>,
    disk: Option<Seq<char>>,
)
    ensures
        visible_text(overrides.insert(path, text), path, disk) == Some(text),
        visible_text(overrides.insert(path, text).remove(path), path, disk) == disk,
        forall|other: Seq<char>, on_disk: Option<Seq<char>>|
            other != path ==> #[trigger] visible_text(
                overrides.insert(path, text),
                other,
                on_disk,
            ) == visible_text(overrides, other, on_disk),
        forall|other: Seq<char>, on_disk: Option<Seq<char>>|
            other != path ==> #[trigger] visible_text(overrides.remove(path), other, on_disk)
                == visible_text(overrides, other, on_disk),
{
}

/// Taking out an entry for a path changes nothing for the other paths.
proof fn lemma_remove_entry(entries: Seq<Entry>, i: int, path: Seq<char>)
    requires
        0 <= i < entries.len(),
        entries[i].path@ == path,
    ensures
        overrides_of(entries.remove(i)).remove(path) == overrides_of(entries).remove(path),
    decreases entries.len(),
{
    if i == entries.len() - 1 {
        assert(entries.remove(i) =~= entries.drop_last());
        assert(overrides_of(entries.remove(i)).remove(path) =~= overrides_of(entries).remove(path));
    } else {
        assert(entries.remove(i).drop_last() =~= entries.drop_last().remove(i));
        assert(entries.remove(i).last() == entries.last());
        lemma_remove_entry(entries.drop_last(), i, path);
        let shorter = overrides_of(entries.drop_last());
        let shortened = overrides_of(entries.drop_last().remove(i));
        let last = entries.last();
        assert(shortened.insert(last.path@, last.content@).remove(path) =~= shortened.remove(
            path,
        ).insert(last.path@, last.content@).remove(path));
        assert(shorter.insert(last.path@, last.content@).remove(path) =~= shorter.remove(
            path,
        ).insert(last.path@, last.content@).remove(path));
    }
}

/// Entries for other paths give no override for a path.
proof fn lemma_absent(entries: Seq<Entry>, path: Seq<char>)
    requires
        forall|k: int| 0 <= k < entries.len() ==> (#[trigger] entries[k]).path@ != path,
    ensures
        !overrides_of(entries).dom().contains(path),
    decreases entries.len(),
{
    if entries.len() > 0 {
        assert(entries.last() == entries[entries.len() - 1]);
        lemma_absent(entries.drop_last(), path);
    }
}

/// The overlay. It holds the overrides in memory and never touches the
/// files themselves.
pub struct FileSystemProxy {
    entries: Vec<Entry>,
}

impl View for FileSystemProxy {
    type V = Map<Seq<char>, Seq<char>>;

    /// The overrides, by path.
    closed spec fn view(&self) -> Map<Seq<char>, Seq<char>> {
        overrides_of(self.entries@)
    }
}

impl FileSystemProxy {
    /// An overlay without overrides.
    pub fn new() -> (proxy: FileSystemProxy)
        ensures
            proxy@ == Map::<Seq<char>, Seq<char>>::empty(),
    {
        FileSystemProxy { entries: Vec::new() }
    }

    /// Removes the override of a path, if there is one.
    pub fn delete_mem_cache(&mut self, path: &str) -> (result: Result<(), Error>)
        ensures
            result is Ok,
            final(self)@ == old(self)@.remove(path@),
    {
        let key = path.to_owned();
        let mut i: usize = 0;
        while i < self.entries.len()
            invariant
                i <= self.entries@.len(),
                key@ == path@,
                forall|k: int| 0 <= k < i ==> (#[trigger] self.entries@[k]).path@ != path@,
                overrides_of(self.entries@).remove(path@) == overrides_of(old(self).entries@).remove(
                    path@,
                ),
            decreases self.entries@.len() - i,
        {
            if self.entries[i].path == key {
                proof {
                    lemma_remove_entry(self.entries@, i as int, path@);
                }
                self.entries.remove(i);
            } else {
                i += 1;
            }
        }
        proof {
            lemma_absent(self.entries@, path@);
            assert(overrides_of(self.entries@).remove(path@) =~= overrides_of(self.entries@));
        }
        Ok(())
    }

    /// Installs a text as the override of a path, in place of an earlier
    /// override if there is one.
    pub fn write_mem_cache(&mut self, path: &str, content: &str) -> (result: Result<(), Error>)
        ensures
            result is Ok,
            final(self)@ == old(self)@.insert(path@, content@),
    {
        let _ = self.delete_mem_cache(path);
        let ghost cleared = self.entries@;
        self.entries.push(Entry { path: path.to_owned(), content: content.to_owned() });
        proof {
            assert(self.entries@.drop_last() =~= cleared);
            assert(old(self)@.remove(path@).insert(path@, content@) =~= old(self)@.insert(
                path@,
                content@,
            ));
        }
        Ok(())
    }

    /// The override of a path, if there is one.
    pub fn read_mem_cache(&self, path: &str) -> (content: Option<&String>)
        ensures
            content is Some <==> self@.dom().contains(path@),
            content matches Some(text) ==> text@ == self@[path@],
    {
        let key = path.to_owned();
        let mut i: usize = self.entries.len();
        assert(self.entries@.take(i as int) =~= self.entries@);
        while i > 0
            invariant
                i <= self.entries@.len(),
                key@ == path@,
                overrides_of(self.entries@).dom().contains(path@) <==> overrides_of(
                    self.entries@.take(i as int),
                ).dom().contains(path@),
                overrides_of(self.entries@).dom().contains(path@) ==> overrides_of(
                    self.entries@,
                )[path@] == overrides_of(self.entries@.take(i as int))[path@],
            decreases i,
        {
            assert(self.entries@.take(i as int).drop_last() =~= self.entries@.take(i - 1));
            i -= 1;
            if self.entries[i].path == key {
                return Some(&self.entries[i].content);
            }
        }
        None
    }

    /// The text of a file as the session sees it: the override of the path
    /// where there is one, else what was read from disk. `disk` is `None`
    /// where the file does not exist or could not be read.
    pub fn read(&self, path: &str, disk: Option<String>) -> (result: Result<String, Error>)
        ensures
            match result {
                Ok(text) => visible_text(self@, path@, disk.deep_view()) == Some(text@),
                Err(Error::FileUnavailable { path: missing }) => {
                    &&& visible_text(self@, path@, disk.deep_view()) is None
                    &&& missing@ == path@
                },
                Err(_) => false,
            },
    {
        match self.read_mem_cache(path) {
            Some(text) => Ok(text.clone()),
            None => match disk {
                Some(text) => Ok(text),
                None => Err(Error::FileUnavailable { path: path.to_owned() }),
            },
        }
    }
}

} // verus!
