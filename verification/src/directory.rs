//! One directory of the store: named files, each holding a record or the
//! reason why no record could be had from it.

use vstd::prelude::*;
use crate::entities::not_found_message;

verus! {

/// What a file is in contracts: its name and what reading it gives.
pub struct FileView<V> {
    pub name: Seq<char>,
    pub content: Result<V, Seq<char>>,
}

/// Whether `files` holds a file called `name`.
pub open spec fn has_file<V>(files: Seq<FileView<V>>, name: Seq<char>) -> bool {
    exists|i: int| 0 <= i < files.len() && (#[trigger] files[i]).name == name
}

/// The place of the file called `name` among `files`.
pub open spec fn position_of<V>(files: Seq<FileView<V>>, name: Seq<char>) -> int {
    choose|i: int| 0 <= i < files.len() && (#[trigger] files[i]).name == name
}

/// The names of `files`, in their order.
pub open spec fn file_names<V>(files: Seq<FileView<V>>) -> Seq<Seq<char>> {
    Seq::new(files.len(), |i: int| files[i].name)
}

/// No two of `files` share a name.
pub open spec fn distinct_names<V>(files: Seq<FileView<V>>) -> bool {
    forall|i: int, j: int|
        0 <= i < files.len() && 0 <= j < files.len() && (#[trigger] files[i]).name == (
        #[trigger] files[j]).name ==> i == j
}

/// What reading the file called `name` gives: its content, or the failure
/// for a file that is not there.
pub open spec fn read_file<V>(files: Seq<FileView<V>>, name: Seq<char>) -> Result<V, Seq<char>> {
    if has_file(files, name) {
        files[position_of(files, name)].content
    } else {
        Err(not_found_message())
    }
}

/// `files` after `content` was written under `name`: an existing file keeps
/// its place and gets the new content, a new file goes to the end.
pub open spec fn with_file<V>(
    files: Seq<FileView<V>>,
    name: Seq<char>,
    content: Result<V, Seq<char>>,
) -> Seq<FileView<V>> {
    if has_file(files, name) {
        files.update(position_of(files, name), FileView { name, content })
    } else {
        files.push(FileView { name, content })
    }
}

/// What a file's content is in contracts.
pub open spec fn content_view<R: View>(content: Result<R, String>) -> Result<R::V, Seq<char>> {
    match content {
        Ok(record) => Ok(record@),
        Err(message) => Err(message@),
    }
}

/// A file of a directory: `content` is the record that the file decodes to,
/// or the message of the failure to read or decode it.
pub struct DirectoryFile<R> {
    pub name: String,
    pub content: Result<R, String>,
}

impl<R: View> View for DirectoryFile<R> {
    type V = FileView<R::V>;

    open spec fn view(&self) -> FileView<R::V> {
        FileView { name: self.name@, content: content_view(self.content) }
    }
}

/// The files of one directory, in the order in which a listing gives them.
pub struct Directory<R> {
    files: Vec<DirectoryFile<R>>,
}

impl<R: View> View for Directory<R> {
    type V = Seq<FileView<R::V>>;

    closed spec fn view(&self) -> Seq<FileView<R::V>> {
        self.files@.map_values(|f: DirectoryFile<R>| f@)
    }
}

impl<R: View> Directory<R> {
    /// A directory never holds two files of one name.
    pub open spec fn wf(&self) -> bool {
        distinct_names(self@)
    }

    /// The empty directory.
    pub fn new() -> (dir: Self)
        ensures
            dir@ == Seq::<FileView<R::V>>::empty(),
            dir.wf(),
    {
        let dir = Directory { files: Vec::new() };
        assert(dir@ =~= Seq::<FileView<R::V>>::empty());
        dir
    }

    /// The number of files.
    pub fn len(&self) -> (n: usize)
        ensures
            n == self@.len(),
    {
        self.files.len()
    }

    /// The name of the file at place `i` of the listing.
    pub fn name_at(&self, i: usize) -> (name: &String)
        requires
            i < self@.len(),
        ensures
            name@ == self@[i as int].name,
    {
        &self.files[i].name
    }

    /// The names of the files, in the order of the listing.
    pub fn names(&self) -> (names: Vec<String>)
        ensures
            names@.len() == self@.len(),
            forall|i: int|
                0 <= i < names@.len() ==> (#[trigger] names@[i])@ == file_names(self@)[i],
    {
        let mut names: Vec<String> = Vec::new();
        let mut i: usize = 0;
        while i < self.files.len()
            invariant
                i <= self.files.len(),
                names@.len() == i,
                forall|k: int| 0 <= k < i ==> (#[trigger] names@[k])@ == self@[k].name,
            decreases self.files.len() - i,
        {
            names.push(self.files[i].name.clone());
            i += 1;
        }
        names
    }

    /// The place of the file called `name`, if the directory holds one.
    pub fn find(&self, name: &str) -> (place: Option<usize>)
        requires
            self.wf(),
        ensures
            match place {
                Some(i) => has_file(self@, name@) && i == position_of(self@, name@) && i
                    < self@.len(),
                None => !has_file(self@, name@),
            },
    {
        let wanted = name.to_owned();
        let mut i: usize = 0;
        while i < self.files.len()
            invariant
                i <= self.files.len(),
                wanted@ == name@,
                self.wf(),
                forall|k: int| 0 <= k < i ==> (#[trigger] self@[k]).name != name@,
            decreases self.files.len() - i,
        {
            if self.files[i].name == wanted {
                assert(self@[i as int].name == name@);
                assert(self@[position_of(self@, name@)].name == name@);
                return Some(i);
            }
            i += 1;
        }
        None
    }

    /// What reading the file called `name` gives, if the directory holds one.
    pub fn get(&self, name: &str) -> (content: Option<&Result<R, String>>)
        requires
            self.wf(),
        ensures
            match content {
                Some(c) => has_file(self@, name@) && content_view(*c) == self@[position_of(
                    self@,
                    name@,
                )].content,
                None => !has_file(self@, name@),
            },
    {
        match self.find(name) {
            Some(i) => Some(&self.files[i].content),
            None => None,
        }
    }

    /// Takes one entry of a listing into the directory. An entry whose name
    /// is no text names no record and is left out.
    pub fn add_listed(&mut self, name: Option<String>, content: Result<R, String>)
        requires
            old(self).wf(),
        ensures
            final(self).wf(),
            final(self)@ == match name {
                Some(text) => with_file(old(self)@, text@, content_view(content)),
                None => old(self)@,
            },
    {
        match name {
            Some(text) => self.put(text, content),
            None => {},
        }
    }

    /// Writes `content` under `name`, in place of what a file of that name
    /// held before.
    pub fn put(&mut self, name: String, content: Result<R, String>)
        requires
            old(self).wf(),
        ensures
            final(self)@ == with_file(old(self)@, name@, content_view(content)),
            final(self).wf(),
    {
        let place = self.find(name.as_str());
        let ghost before = self@;
        let ghost added = FileView { name: name@, content: content_view(content) };
        match place {
            Some(i) => {
                self.files.set(i, DirectoryFile { name, content });
                assert(self@ =~= before.update(i as int, added));
            },
            None => {
                self.files.push(DirectoryFile { name, content });
                assert(self@ =~= before.push(added));
            },
        }
    }
}

/// In a directory without repeated names, the file at place `i` is the one
/// that its name finds.
pub proof fn lemma_file_at_place<V>(files: Seq<FileView<V>>, i: int)
    requires
        distinct_names(files),
        0 <= i < files.len(),
    ensures
        has_file(files, files[i].name),
        position_of(files, files[i].name) == i,
        read_file(files, files[i].name) == files[i].content,
{
    let name = files[i].name;
    assert(files[i].name == name);
    let p = position_of(files, name);
    assert(0 <= p < files.len() && files[p].name == name);
}

/// What a write does to a directory without repeated names: the written name
/// reads as the new content, every other name reads as before, the files
/// that were there keep their places, and the listing grows by one exactly
/// when the name is new.
pub proof fn lemma_with_file<V>(
    files: Seq<FileView<V>>,
    name: Seq<char>,
    content: Result<V, Seq<char>>,
)
    requires
        distinct_names(files),
    ensures
        distinct_names(with_file(files, name, content)),
        has_file(with_file(files, name, content), name),
        read_file(with_file(files, name, content), name) == content,
        with_file(files, name, content).len() == files.len() + if has_file(files, name) {
            0int
        } else {
            1int
        },
        forall|i: int|
            0 <= i < files.len() ==> (#[trigger] with_file(files, name, content)[i]).name
                == files[i].name,
        forall|other: Seq<char>|
            #![trigger has_file(with_file(files, name, content), other)]
            #![trigger read_file(with_file(files, name, content), other)]
            other != name ==> has_file(with_file(files, name, content), other) == has_file(
                files,
                other,
            ) && read_file(with_file(files, name, content), other) == read_file(files, other),
{
    let out = with_file(files, name, content);
    let place = if has_file(files, name) {
        position_of(files, name)
    } else {
        files.len() as int
    };
    assert(out.len() > place && out[place].name == name && out[place].content == content);
    assert forall|i: int| 0 <= i < out.len() implies (#[trigger] out[i]).name == (if i
        < files.len() {
        files[i].name
    } else {
        name
    }) by {}
    assert forall|i: int, j: int|
        0 <= i < out.len() && 0 <= j < out.len() && (#[trigger] out[i]).name == (
        #[trigger] out[j]).name implies i == j by {
        if i < files.len() && j < files.len() {
            assert(files[i].name == files[j].name);
        } else if i < files.len() {
            assert(files[i].name == name);
        } else if j < files.len() {
            assert(files[j].name == name);
        }
    }
    lemma_file_at_place(out, place);
    assert forall|other: Seq<char>| other != name implies has_file(out, other) == has_file(
        files,
        other,
    ) && read_file(out, other) == read_file(files, other) by {
        if has_file(files, other) {
            let j = position_of(files, other);
            assert(files[j].name == other);
            assert(out[j].name == other);
            lemma_file_at_place(out, j);
            assert(out[j].content == files[j].content);
        }
        if has_file(out, other) {
            let k = position_of(out, other);
            assert(out[k].name == other);
            assert(files[k].name == other);
        }
    }
}

} // verus!
