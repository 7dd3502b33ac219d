//! The files that the server offers: each under its name, at most once, with
//! the part of its contents not yet read. Each file is read as an open file
//! is: a read gives what is left and leaves nothing, so a second read of the
//! same file gives nothing.

use vstd::prelude::*;
use vstd::utf8::encode_utf8;

use crate::text::bytes_eq;

verus! {

/// The files as (UTF-8 bytes of the name, contents not yet read), in the
/// order their names were first added.
pub type FilesView = Seq<(Seq<u8>, Seq<u8>)>;

/// No name stands twice.
pub open spec fn names_distinct(files: FilesView) -> bool {
    forall|i: int, j: int| 0 <= i < j < files.len() ==> files[i].0 != files[j].0
}

/// The position of `name`, if it is there.
pub open spec fn position(files: FilesView, name: Seq<u8>) -> Option<int> {
    if exists|i: int| 0 <= i < files.len() && (#[trigger] files[i]).0 == name {
        Some(choose|i: int| 0 <= i < files.len() && (#[trigger] files[i]).0 == name)
    } else {
        None
    }
}

/// The contents stored under `name`, if any.
pub open spec fn lookup(files: FilesView, name: Seq<u8>) -> Option<Seq<u8>> {
    match position(files, name) {
        Some(i) => Some(files[i].1),
        None => None,
    }
}

/// The files after storing `contents` under `name`: the contents of a name
/// already there are replaced in place, a new name comes last.
pub open spec fn inserted(files: FilesView, name: Seq<u8>, contents: Seq<u8>) -> FilesView {
    match position(files, name) {
        Some(i) => files.update(i, (name, contents)),
        None => files.push((name, contents)),
    }
}

/// The files after reading the file named `name` to its end: its contents
/// left unread become empty; nothing changes where no file has that name.
pub open spec fn read_out(files: FilesView, name: Seq<u8>) -> FilesView {
    match position(files, name) {
        Some(i) => files.update(i, (name, seq![])),
        None => files,
    }
}

/// A set of named files, kept in memory.
pub struct FileTree {
    files: Vec<(String, Vec<u8>)>,
}

impl View for FileTree {
    type V = FilesView;

    closed spec fn view(&self) -> FilesView {
        self.files@.map_values(|f: (String, Vec<u8>)| (encode_utf8(f.0@), f.1@))
    }
}

impl FileTree {
    #[verifier::type_invariant]
    closed spec fn wf(self) -> bool {
        names_distinct(self@)
    }

    /// The names, in the order they were first added.
    pub closed spec fn names(&self) -> Seq<Seq<char>> {
        self.files@.map_values(|f: (String, Vec<u8>)| f.0@)
    }

    /// A tree with no file.
    pub fn new() -> (r: Self)
        ensures
            r@ == Seq::<(Seq<u8>, Seq<u8>)>::empty(),
    {
        let r = FileTree { files: Vec::new() };
        assert(r@ =~= Seq::<(Seq<u8>, Seq<u8>)>::empty());
        r
    }

    /// Stores `contents` under `name`, replacing what was stored under it.
    pub fn insert(&mut self, name: String, contents: Vec<u8>)
        ensures
            final(self)@ == inserted(old(self)@, encode_utf8(name@), contents@),
    {
        proof {
            use_type_invariant(&*self);
        }
        let ghost before = self@;
        let ghost key = encode_utf8(name@);
        let mut i: usize = 0;
        while i < self.files.len()
            invariant
                0 <= i <= self.files@.len(),
                self@ == before,
                before == old(self)@,
                names_distinct(before),
                key == encode_utf8(name@),
                forall|j: int| 0 <= j < i ==> (#[trigger] before[j]).0 != key,
            decreases self.files@.len() - i,
        {
            if bytes_eq(self.files[i].0.as_str().as_bytes(), name.as_str().as_bytes()) {
                proof {
                    assert(before[i as int].0 == key);
                    let k = choose|k: int| 0 <= k < before.len() && (#[trigger] before[k]).0 == key;
                    assert(k == i as int);
                }
                let ghost expected = inserted(before, key, contents@);
                let mut files: Vec<(String, Vec<u8>)> = Vec::new();
        std::mem::swap(&mut files, &mut self.files);
                files.set(i, (name, contents));
                assert(files@.map_values(|f: (String, Vec<u8>)| (encode_utf8(f.0@), f.1@))
                    =~= expected);
                proof {
                    assert forall|a: int, b: int| 0 <= a < b < expected.len() implies expected[a].0
                        != expected[b].0 by {
                        assert(expected[a].0 == before[a].0);
                        assert(expected[b].0 == before[b].0);
                    }
                }
                self.files = files;
                return;
            }
            i = i + 1;
        }
        let ghost expected = inserted(before, key, contents@);
        let mut files: Vec<(String, Vec<u8>)> = Vec::new();
        std::mem::swap(&mut files, &mut self.files);
        files.push((name, contents));
        proof {
            assert(position(before, key) is None);
            assert(files@.map_values(|f: (String, Vec<u8>)| (encode_utf8(f.0@), f.1@))
                =~= expected);
            assert forall|a: int, b: int| 0 <= a < b < expected.len() implies expected[a].0
                != expected[b].0 by {
                if b < before.len() {
                    assert(expected[a] == before[a]);
                    assert(expected[b] == before[b]);
                } else {
                    assert(expected[a] == before[a]);
                }
            }
        }
        self.files = files;
    }

    /// The names, in the order they were first added, each once.
    pub fn file_names(&self) -> (r: Vec<String>)
        ensures
            r@.map_values(|s: String| s@) == self.names(),
            r@.map_values(|s: String| encode_utf8(s@)) == self@.map_values(
                |f: (Seq<u8>, Seq<u8>)| f.0,
            ),
            forall|i: int, j: int| 0 <= i < j < r@.len() ==> r@[i]@ != r@[j]@,
    {
        proof {
            use_type_invariant(self);
        }
        let mut r: Vec<String> = Vec::new();
        let mut i: usize = 0;
        while i < self.files.len()
            invariant
                0 <= i <= self.files@.len(),
                r@.len() == i,
                forall|j: int| 0 <= j < i ==> (#[trigger] r@[j])@ == self.files@[j].0@,
            decreases self.files@.len() - i,
        {
            r.push(self.files[i].0.clone());
            i = i + 1;
        }
        assert(r@.map_values(|s: String| s@) =~= self.names());
        assert(r@.map_values(|s: String| encode_utf8(s@)) =~= self@.map_values(
            |f: (Seq<u8>, Seq<u8>)| f.0,
        ));
        assert forall|a: int, b: int| 0 <= a < b < r@.len() implies r@[a]@ != r@[b]@ by {
            assert(self@[a].0 == encode_utf8(r@[a]@));
            assert(self@[b].0 == encode_utf8(r@[b]@));
        }
        r
    }

    /// Reads the file named `name` (UTF-8 bytes) to its end: gives what was
    /// left unread of it, which is then empty; `None`, with nothing changed,
    /// where no file has that name.
    pub fn read_file_bytes(&mut self, name: &[u8]) -> (r: Option<Vec<u8>>)
        ensures
            match lookup(old(self)@, name@) {
                Some(c) => r matches Some(v) && v@ == c,
                None => r is None,
            },
            final(self)@ == read_out(old(self)@, name@),
    {
        proof {
            use_type_invariant(&*self);
        }
        let ghost before = self@;
        let mut i: usize = 0;
        while i < self.files.len()
            invariant
                0 <= i <= self.files@.len(),
                self@ == before,
                before == old(self)@,
                names_distinct(before),
                forall|j: int| 0 <= j < i ==> (#[trigger] before[j]).0 != name@,
            decreases self.files@.len() - i,
        {
            if bytes_eq(self.files[i].0.as_str().as_bytes(), name) {
                proof {
                    assert(before[i as int].0 == name@);
                    let k = choose|k: int| 0 <= k < before.len() && (#[trigger] before[k]).0 == name@;
                    assert(k == i as int);
                }
                let ghost expected = read_out(before, name@);
                let mut files: Vec<(String, Vec<u8>)> = Vec::new();
                std::mem::swap(&mut files, &mut self.files);
                let (n, contents) = files.remove(i);
                files.insert(i, (n, Vec::new()));
                assert(files@.map_values(|f: (String, Vec<u8>)| (encode_utf8(f.0@), f.1@))
                    =~= expected);
                proof {
                    assert forall|a: int, b: int| 0 <= a < b < expected.len() implies expected[a].0
                        != expected[b].0 by {
                        assert(expected[a].0 == before[a].0);
                        assert(expected[b].0 == before[b].0);
                    }
                }
                self.files = files;
                return Some(contents);
            }
            i = i + 1;
        }
        None
    }

    /// Reads the file named `name` to its end.
    pub fn read_file(&mut self, name: &str) -> (r: Option<Vec<u8>>)
        ensures
            match lookup(old(self)@, encode_utf8(name@)) {
                Some(c) => r matches Some(v) && v@ == c,
                None => r is None,
            },
            final(self)@ == read_out(old(self)@, encode_utf8(name@)),
    {
        self.read_file_bytes(name.as_bytes())
    }

    /// The contents stored under the name whose UTF-8 bytes are `name`.
    pub fn get_file_bytes(&self, name: &[u8]) -> (r: Option<&Vec<u8>>)
        ensures
            match lookup(self@, name@) {
                Some(c) => r matches Some(v) && v@ == c,
                None => r is None,
            },
    {
        proof {
            use_type_invariant(self);
        }
        let mut i: usize = 0;
        while i < self.files.len()
            invariant
                0 <= i <= self.files@.len(),
                names_distinct(self@),
                forall|j: int| 0 <= j < i ==> (#[trigger] self@[j]).0 != name@,
            decreases self.files@.len() - i,
        {
            if bytes_eq(self.files[i].0.as_str().as_bytes(), name) {
                proof {
                    assert(self@[i as int].0 == name@);
                    let k = choose|k: int| 0 <= k < self@.len() && (#[trigger] self@[k]).0 == name@;
                    assert(k == i as int);
                }
                return Some(&self.files[i].1);
            }
            i = i + 1;
        }
        None
    }

    /// The contents stored under `name`.
    pub fn get_file(&self, name: &str) -> (r: Option<&Vec<u8>>)
        ensures
            match lookup(self@, encode_utf8(name@)) {
                Some(c) => r matches Some(v) && v@ == c,
                None => r is None,
            },
    {
        self.get_file_bytes(name.as_bytes())
    }
}

/// Storing under a name and then looking that name up gives what was stored,
/// and no name comes to stand twice.
pub proof fn law_lookup_after_insert(files: FilesView, name: Seq<u8>, contents: Seq<u8>)
    requires
        names_distinct(files),
    ensures
        lookup(inserted(files, name, contents), name) == Some(contents),
        names_distinct(inserted(files, name, contents)),
{
    let r = inserted(files, name, contents);
    match position(files, name) {
        Some(i) => {
            assert(r[i].0 == name);
            let k = choose|k: int| 0 <= k < r.len() && (#[trigger] r[k]).0 == name;
            if k != i {
                assert(r[k] == files[k]);
            }
            assert forall|a: int, b: int| 0 <= a < b < r.len() implies r[a].0 != r[b].0 by {
                assert(r[a].0 == files[a].0);
                assert(r[b].0 == files[b].0);
            }
        },
        None => {
            assert(r[files.len() as int].0 == name);
            let k = choose|k: int| 0 <= k < r.len() && (#[trigger] r[k]).0 == name;
            if k < files.len() {
                assert(r[k] == files[k]);
            }
            assert forall|a: int, b: int| 0 <= a < b < r.len() implies r[a].0 != r[b].0 by {
                assert(r[a] == files[a]);
                if b < files.len() {
                    assert(r[b] == files[b]);
                }
            }
        },
    }
}

/// Reading a file to its end leaves nothing of it to read again, and leaves
/// every other file as it was.
pub proof fn law_read_leaves_nothing(files: FilesView, name: Seq<u8>, other: Seq<u8>)
    requires
        names_distinct(files),
        other != name,
    ensures
        lookup(files, name) is Some ==> lookup(read_out(files, name), name) == Some(Seq::<u8>::empty()),
        lookup(read_out(files, name), other) == lookup(files, other),
        names_distinct(read_out(files, name)),
{
    let r = read_out(files, name);
    match position(files, name) {
        Some(i) => {
            assert(r[i].0 == name);
            let k = choose|k: int| 0 <= k < r.len() && (#[trigger] r[k]).0 == name;
            if k != i {
                assert(r[k] == files[k]);
            }
            assert forall|a: int, b: int| 0 <= a < b < r.len() implies r[a].0 != r[b].0 by {
                assert(r[a].0 == files[a].0);
                assert(r[b].0 == files[b].0);
            }
            if exists|j: int| 0 <= j < files.len() && (#[trigger] files[j]).0 == other {
                let k1 = choose|j: int| 0 <= j < files.len() && (#[trigger] files[j]).0 == other;
                assert(r[k1] == files[k1]);
                let k2 = choose|j: int| 0 <= j < r.len() && (#[trigger] r[j]).0 == other;
                assert(r[k2].0 == files[k2].0);
                assert(k2 != i);
                assert(r[k2] == files[k2]);
            } else {
                if exists|j: int| 0 <= j < r.len() && (#[trigger] r[j]).0 == other {
                    let k2 = choose|j: int| 0 <= j < r.len() && (#[trigger] r[j]).0 == other;
                    assert(r[k2].0 == files[k2].0);
                }
            }
        },
        None => {},
    }
}

/// Storing under one name leaves what every other name looks up unchanged.
pub proof fn law_insert_keeps_other_names(
    files: FilesView,
    name: Seq<u8>,
    contents: Seq<u8>,
    other: Seq<u8>,
)
    requires
        names_distinct(files),
        other != name,
    ensures
        lookup(inserted(files, name, contents), other) == lookup(files, other),
{
    let r = inserted(files, name, contents);
    if exists|i: int| 0 <= i < files.len() && (#[trigger] files[i]).0 == other {
        let k = choose|i: int| 0 <= i < files.len() && (#[trigger] files[i]).0 == other;
        assert(r[k].0 == other);
        assert(r[k] == files[k]);
        let k2 = choose|i: int| 0 <= i < r.len() && (#[trigger] r[i]).0 == other;
        if k2 < files.len() {
            assert(r[k2].0 == files[k2].0);
        }
        assert(k2 < files.len());
        assert(r[k2] == files[k2]);
    } else {
        if exists|i: int| 0 <= i < r.len() && (#[trigger] r[i]).0 == other {
            let k2 = choose|i: int| 0 <= i < r.len() && (#[trigger] r[i]).0 == other;
            if k2 < files.len() {
                assert(r[k2].0 == files[k2].0);
            }
        }
    }
}

} // verus!
