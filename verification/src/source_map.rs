//! Source files, the session-scoped source map, and the file store.
//!
//! A [`SourceFile`] is an immutable record of one input. The [`SourceMap`] is
//! an arena of such records: a file's identity is its index in the arena, and
//! loading the same name twice yields the same index. That index — never the
//! path string — is what deduplication tests, so two path strings that reach
//! the same underlying file compare equal.
//!
//! The [`FileStore`] is the snapshot of the reachable file system handed to
//! one compile invocation: a list of `(path, text)` entries plus optional
//! standard-input text. All path lookup happens against this snapshot.

use vstd::prelude::*;

use crate::text::text_chars;

verus! {

/// The identity tag of a source file: a real on-disk path, or standard input.
pub enum FileName {
    Real(Vec<char>),
    Stdin,
}

impl View for FileName {
    type V = Option<Seq<char>>;

    /// A real file's name is `Some(path)`; standard input is `None`.
    open spec fn view(&self) -> Option<Seq<char>> {
        match self {
            FileName::Real(p) => Some(p@),
            FileName::Stdin => None,
        }
    }
}

/// One immutable input: its name and its decoded text.
pub struct SourceFile {
    pub name: FileName,
    pub src: Vec<char>,
}

impl View for SourceFile {
    type V = (Option<Seq<char>>, Seq<char>);

    open spec fn view(&self) -> (Option<Seq<char>>, Seq<char>) {
        (self.name@, self.src@)
    }
}

/// First index at or after `i` whose name is `name`, or `-1` if none.
pub open spec fn name_index_from(
    files: Seq<(Option<Seq<char>>, Seq<char>)>,
    name: Option<Seq<char>>,
    i: int,
) -> int
    decreases files.len() - i,
{
    if i < 0 || i >= files.len() {
        -1
    } else if files[i].0 === name {
        i
    } else {
        name_index_from(files, name, i + 1)
    }
}

/// First index of `name` in the arena, or `-1` if absent.
pub open spec fn name_index(files: Seq<(Option<Seq<char>>, Seq<char>)>, name: Option<Seq<char>>) -> int {
    name_index_from(files, name, 0)
}

/// What loading `(name, src)` does to the arena: the unchanged arena and the
/// existing index if the name is present, else the extended arena and the
/// fresh index.
pub open spec fn spec_load(
    files: Seq<(Option<Seq<char>>, Seq<char>)>,
    name: Option<Seq<char>>,
    src: Seq<char>,
) -> (Seq<(Option<Seq<char>>, Seq<char>)>, int) {
    let i = name_index(files, name);
    if i >= 0 {
        (files, i)
    } else {
        (files.push((name, src)), files.len() as int)
    }
}

/// The arena of loaded source files for one compile session.
pub struct SourceMap {
    files: Vec<SourceFile>,
}

impl View for SourceMap {
    type V = Seq<(Option<Seq<char>>, Seq<char>)>;

    closed spec fn view(&self) -> Seq<(Option<Seq<char>>, Seq<char>)> {
        self.files@.map_values(|f: SourceFile| f@)
    }
}

impl SourceMap {
    /// A fresh, empty source map.
    pub fn new() -> (r: SourceMap)
        ensures
            r@ === Seq::<(Option<Seq<char>>, Seq<char>)>::empty(),
    {
        let r = SourceMap { files: Vec::new() };
        proof {
            assert(r@ =~= Seq::<(Option<Seq<char>>, Seq<char>)>::empty());
        }
        r
    }

    /// How many files have been loaded.
    pub fn len(&self) -> (n: usize)
        ensures
            n == self@.len(),
    {
        self.files.len()
    }

    /// The file with the given id.
    pub fn file(&self, id: usize) -> (r: &SourceFile)
        requires
            id < self@.len(),
        ensures
            r@ === self@[id as int],
    {
        &self.files[id]
    }

    /// First id under the given name, if any.
    fn find_name(&self, name: &FileName) -> (r: Option<usize>)
        ensures
            match r {
                Some(i) => name_index(self@, name@) == i as int && i < self@.len(),
                None => name_index(self@, name@) == -1,
            },
    {
        let n = self.files.len();
        let mut i: usize = 0;
        while i < n
            invariant
                n == self@.len(),
                i <= n,
                forall|k: int| 0 <= k < i ==> !(self@[k].0 === name@),
            decreases n - i,
        {
            let same = match (&self.files[i].name, name) {
                (FileName::Stdin, FileName::Stdin) => true,
                (FileName::Real(a), FileName::Real(b)) => crate::text::chars_eq(a, b),
                _ => false,
            };
            proof {
                assert(self@[i as int].0 === self.files@[i as int].name@);
            }
            if same {
                proof {
                    lemma_name_index_hit(self@, name@, 0, i as int);
                }
                return Some(i);
            }
            i = i + 1;
        }
        proof {
            lemma_name_index_miss(self@, name@, 0);
        }
        None
    }

    /// Loads `(name, src)`: returns the existing id if the name is already
    /// present, else appends a fresh file and returns its id. Same name in,
    /// same id out — this is the identity that deduplication relies on.
    pub fn load(&mut self, name: FileName, src: Vec<char>) -> (id: usize)
        ensures
            (final(self)@, id as int) === spec_load(old(self)@, name@, src@),
            id < final(self)@.len(),
    {
        match self.find_name(&name) {
            Some(i) => i,
            None => {
                let id = self.files.len();
                let ghost oldv = self@;
                let ghost namev = name@;
                let ghost srcv = src@;
                self.files.push(SourceFile { name, src });
                proof {
                    assert(self@ =~= oldv.push((namev, srcv)));
                }
                id
            },
        }
    }
}

/// If every entry in `[j, i)` misses `name` and entry `i` hits it, the first
/// index at or after `j` is `i`.
pub proof fn lemma_name_index_hit(
    files: Seq<(Option<Seq<char>>, Seq<char>)>,
    name: Option<Seq<char>>,
    j: int,
    i: int,
)
    requires
        0 <= j <= i < files.len(),
        forall|k: int| j <= k < i ==> !(files[k].0 === name),
        files[i].0 === name,
    ensures
        name_index_from(files, name, j) == i,
    decreases i - j,
{
    if j < i {
        lemma_name_index_hit(files, name, j + 1, i);
    }
}

/// A hit is a valid index bearing the name.
pub proof fn lemma_name_index_valid(
    files: Seq<(Option<Seq<char>>, Seq<char>)>,
    name: Option<Seq<char>>,
    j: int,
)
    requires
        0 <= j,
    ensures
        name_index_from(files, name, j) == -1 || (j <= name_index_from(files, name, j)
            < files.len() && files[name_index_from(files, name, j)].0 == name),
    decreases files.len() - j,
{
    if j < files.len() && !(files[j].0 == name) {
        lemma_name_index_valid(files, name, j + 1);
    }
}

/// If there is no hit at or after `j`, every entry there misses `name`.
pub proof fn lemma_name_index_none(
    files: Seq<(Option<Seq<char>>, Seq<char>)>,
    name: Option<Seq<char>>,
    j: int,
)
    requires
        0 <= j,
        name_index_from(files, name, j) == -1,
    ensures
        forall|k: int| j <= k < files.len() ==> !((#[trigger] files[k]).0 == name),
    decreases files.len() - j,
{
    if j < files.len() {
        lemma_name_index_none(files, name, j + 1);
    }
}

/// If every entry at or after `j` misses `name`, there is no hit.
pub proof fn lemma_name_index_miss(
    files: Seq<(Option<Seq<char>>, Seq<char>)>,
    name: Option<Seq<char>>,
    j: int,
)
    requires
        0 <= j,
        forall|k: int| j <= k < files.len() ==> !(files[k].0 === name),
    ensures
        name_index_from(files, name, j) == -1,
    decreases files.len() - j,
{
    if j < files.len() {
        lemma_name_index_miss(files, name, j + 1);
    }
}

/// One `(path, text)` entry of a [`FileStore`].
struct StoreEntry {
    path: Vec<char>,
    src: Vec<char>,
}

/// The snapshot of the file system handed to one compile invocation.
pub struct FileStore {
    entries: Vec<StoreEntry>,
    stdin: Option<Vec<char>>,
}

/// The spec view of a file store: its `(path, text)` entries and its
/// standard-input text, if any.
pub struct StoreView {
    pub entries: Seq<(Seq<char>, Seq<char>)>,
    pub stdin: Option<Seq<char>>,
}

impl View for FileStore {
    type V = StoreView;

    closed spec fn view(&self) -> StoreView {
        StoreView {
            entries: self.entries@.map_values(|f: StoreEntry| (f.path@, f.src@)),
            stdin: match self.stdin {
                Some(s) => Some(s@),
                None => None,
            },
        }
    }
}

impl FileStore {
    /// An empty snapshot: no files, no standard input.
    pub fn new() -> (r: FileStore)
        ensures
            r@.entries === Seq::<(Seq<char>, Seq<char>)>::empty(),
            r@.stdin is None,
    {
        let r = FileStore { entries: Vec::new(), stdin: None };
        proof {
            assert(r@.entries =~= Seq::<(Seq<char>, Seq<char>)>::empty());
        }
        r
    }

    /// Adds one `(path, text)` entry.
    pub fn add_file(&mut self, path: &str, src: &str)
        ensures
            final(self)@.entries === old(self)@.entries.push((path@, src@)),
            final(self)@.stdin === old(self)@.stdin,
    {
        let ghost oldv = self@.entries;
        self.entries.push(StoreEntry { path: text_chars(path), src: text_chars(src) });
        proof {
            assert(self@.entries =~= oldv.push((path@, src@)));
        }
    }

    /// Sets the standard-input text.
    pub fn set_stdin(&mut self, src: &str)
        ensures
            final(self)@.entries === old(self)@.entries,
            final(self)@.stdin === Some(src@),
    {
        self.stdin = Some(text_chars(src));
    }

    /// How many entries the snapshot holds.
    pub fn len(&self) -> (n: usize)
        ensures
            n == self@.entries.len(),
    {
        self.entries.len()
    }

    /// The path of entry `i`.
    pub(crate) fn entry_path(&self, i: usize) -> (r: &Vec<char>)
        requires
            i < self@.entries.len(),
        ensures
            r@ === self@.entries[i as int].0,
    {
        &self.entries[i].path
    }

    /// The text of entry `i`.
    pub(crate) fn entry_src(&self, i: usize) -> (r: &Vec<char>)
        requires
            i < self@.entries.len(),
        ensures
            r@ === self@.entries[i as int].1,
    {
        &self.entries[i].src
    }

    /// The standard-input text, if set.
    pub(crate) fn stdin_src(&self) -> (r: Option<&Vec<char>>)
        ensures
            match r {
                Some(s) => self@.stdin === Some(s@),
                None => self@.stdin is None,
            },
    {
        match &self.stdin {
            Some(s) => Some(s),
            None => None,
        }
    }
}

} // verus!
