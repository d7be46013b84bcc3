//! Safe materialization of license text. The directory the tool writes
//! into is modelled as a store mapping paths to file contents; the
//! collision rule — write directly when the path is free, otherwise
//! write to whatever path the user chose at the prompt — is decided
//! and proved here, and the surrounding program mirrors it on the real
//! filesystem.

use vstd::prelude::*;

verus! {

/// The files of one directory, newest write first; an earlier entry
/// for the same path is shadowed by a later write, which stands in
/// front of it.
pub struct FileStore {
    entries: Vec<(String, String)>,
}

/// The mapping from path to contents that a list of writes, newest
/// first, amounts to.
pub open spec fn map_of(entries: Seq<(String, String)>) -> Map<Seq<char>, Seq<char>>
    decreases entries.len(),
{
    if entries.len() == 0 {
        Map::empty()
    } else {
        map_of(entries.skip(1)).insert(entries[0].0@, entries[0].1@)
    }
}

impl View for FileStore {
    type V = Map<Seq<char>, Seq<char>>;

    closed spec fn view(&self) -> Map<Seq<char>, Seq<char>> {
        map_of(self.entries@)
    }
}

impl FileStore {
    /// An empty directory: no path holds a file.
    pub fn new() -> (store: FileStore)
        ensures
            store@ == Map::<Seq<char>, Seq<char>>::empty(),
    {
        FileStore { entries: Vec::new() }
    }

    /// Whether a file already exists at `path`.
    pub fn exists_at(&self, path: &String) -> (r: bool)
        ensures
            r == self@.contains_key(path@),
    {
        let n = self.entries.len();
        let mut i: usize = 0;
        proof {
            assert(self.entries@.skip(0) =~= self.entries@);
        }
        while i < n
            invariant
                i <= n,
                n == self.entries.len(),
                self@.contains_key(path@) == map_of(self.entries@.skip(i as int)).contains_key(
                    path@,
                ),
            decreases n - i,
        {
            let ghost rest = self.entries@.skip(i as int);
            if self.entries[i].0.eq(path) {
                proof {
                    assert(rest[0] == self.entries@[i as int]);
                    assert(map_of(rest).contains_key(path@));
                }
                return true;
            }
            proof {
                assert(rest[0] == self.entries@[i as int]);
                assert(rest.skip(1) =~= self.entries@.skip(i + 1));
                assert(map_of(rest) == map_of(rest.skip(1)).insert(rest[0].0@, rest[0].1@));
            }
            i = i + 1;
        }
        proof {
            assert(self.entries@.skip(n as int) =~= Seq::<(String, String)>::empty());
        }
        false
    }

    /// The contents of the file at `path`, or `None` when no file
    /// exists there.
    pub fn contents_of(&self, path: &String) -> (r: Option<&String>)
        ensures
            match r {
                Some(c) => self@.contains_key(path@) && c@ == self@[path@],
                None => !self@.contains_key(path@),
            },
    {
        let n = self.entries.len();
        let mut i: usize = 0;
        proof {
            assert(self.entries@.skip(0) =~= self.entries@);
        }
        while i < n
            invariant
                i <= n,
                n == self.entries.len(),
                self@.contains_key(path@) == map_of(self.entries@.skip(i as int)).contains_key(
                    path@,
                ),
                self@.contains_key(path@) ==> self@[path@] == map_of(
                    self.entries@.skip(i as int),
                )[path@],
            decreases n - i,
        {
            let ghost rest = self.entries@.skip(i as int);
            if self.entries[i].0.eq(path) {
                proof {
                    assert(rest[0] == self.entries@[i as int]);
                    assert(map_of(rest).contains_key(path@));
                    assert(map_of(rest)[path@] == rest[0].1@);
                }
                return Some(&self.entries[i].1);
            }
            proof {
                assert(rest[0] == self.entries@[i as int]);
                assert(rest.skip(1) =~= self.entries@.skip(i + 1));
                assert(map_of(rest) == map_of(rest.skip(1)).insert(rest[0].0@, rest[0].1@));
            }
            i = i + 1;
        }
        proof {
            assert(self.entries@.skip(n as int) =~= Seq::<(String, String)>::empty());
        }
        None
    }

    /// Writes `content` to `path` unconditionally: afterwards `path`
    /// holds exactly `content` and every other path is untouched.
    pub fn write(&mut self, path: &String, content: &String)
        ensures
            final(self)@ == old(self)@.insert(path@, content@),
    {
        let ghost before = self.entries@;
        self.entries.insert(0, (path.clone(), content.clone()));
        proof {
            assert(self.entries@.skip(1) =~= before);
            assert(self.entries@[0].0@ == path@);
            assert(self.entries@[0].1@ == content@);
        }
    }
}

/// Writes the instantiated text without silently clobbering an
/// existing file: a free `path` is written to directly, while an
/// occupied one is written to at `chosen`, the path the user supplied
/// at the prompt (supplying `path` itself again means overwrite).
pub fn write_license(store: &mut FileStore, path: &String, content: &String, chosen: &String)
    ensures
        !old(store)@.contains_key(path@) ==> final(store)@ == old(store)@.insert(
            path@,
            content@,
        ),
        old(store)@.contains_key(path@) ==> final(store)@ == old(store)@.insert(
            chosen@,
            content@,
        ),
{
    if store.exists_at(path) {
        store.write(chosen, content);
    } else {
        store.write(path, content);
    }
}

/// Writing to a path where no file exists creates that file, with
/// contents exactly equal to the supplied text.
pub proof fn lemma_write_fresh(
    dir: Map<Seq<char>, Seq<char>>,
    path: Seq<char>,
    content: Seq<char>,
)
    requires
        !dir.contains_key(path),
    ensures
        dir.insert(path, content).contains_key(path),
        dir.insert(path, content)[path] == content,
{
}

/// Writing to a path where a file exists replaces its contents in
/// full with the supplied text.
pub proof fn lemma_write_overwrites(
    dir: Map<Seq<char>, Seq<char>>,
    path: Seq<char>,
    content: Seq<char>,
)
    requires
        dir.contains_key(path),
    ensures
        dir.insert(path, content).contains_key(path),
        dir.insert(path, content)[path] == content,
{
}

/// Writing to one path leaves every other path untouched: a file that
/// existed elsewhere keeps its contents, and no file appears at a path
/// that had none.
pub proof fn lemma_write_preserves_others(
    dir: Map<Seq<char>, Seq<char>>,
    path: Seq<char>,
    content: Seq<char>,
    other: Seq<char>,
)
    requires
        other != path,
    ensures
        dir.insert(path, content).contains_key(other) == dir.contains_key(other),
        dir.contains_key(other) ==> dir.insert(path, content)[other] == dir[other],
{
}

} // verus!
