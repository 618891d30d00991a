//! A picture of the file system: what is known of its folders and files.
//!
//! The functions of this crate that look at a vault take such a picture. Whoever
//! calls them reads the disk, and carries out what they decide.

use crate::path::{
    components, extension, extension_of, file_name, file_name_of, is_absolute, path_components,
};
use crate::text::{
    from_chars, order_texts, same, text_order, to_chars, views, Order,
};
use vstd::prelude::*;

pub mod laws;

verus! {

/// A file: its path, its text or why it cannot be read, and its times in seconds
/// since 1970.
#[derive(Debug, PartialEq, Eq)]
pub struct FileEntry {
    pub path: String,
    pub content: Result<String, String>,
    pub modified: Option<u64>,
    pub created: Option<u64>,
}

/// The folders and files that are there.
#[derive(Debug, PartialEq, Eq)]
pub struct Tree {
    pub folders: Vec<String>,
    pub files: Vec<FileEntry>,
}

/// A file with its texts as sequences of characters.
pub struct FileView {
    pub path: Seq<char>,
    pub content: Result<Seq<char>, Seq<char>>,
    pub modified: Option<u64>,
    pub created: Option<u64>,
}

/// Folders and files with their texts as sequences of characters.
pub struct Picture {
    pub folders: Seq<Seq<char>>,
    pub files: Seq<FileView>,
}

impl View for FileEntry {
    type V = FileView;

    open spec fn view(&self) -> FileView {
        FileView {
            path: self.path@,
            content: match self.content {
                Ok(t) => Ok(t@),
                Err(e) => Err(e@),
            },
            modified: self.modified,
            created: self.created,
        }
    }
}

/// What files are.
pub open spec fn file_views(v: Seq<FileEntry>) -> Seq<FileView> {
    Seq::new(v.len(), |i: int| v[i]@)
}

impl View for Tree {
    type V = Picture;

    open spec fn view(&self) -> Picture {
        Picture {
            folders: crate::text::string_views(self.folders@),
            files: file_views(self.files@),
        }
    }
}

/// Whether two paths lead to the same place: they have the same components.
pub open spec fn same_place(a: Seq<char>, b: Seq<char>) -> bool {
    is_absolute(a) == is_absolute(b) && components(a) == components(b)
}

/// Whether there is a folder at a path.
pub open spec fn has_folder(p: Picture, path: Seq<char>) -> bool {
    exists|i: int| 0 <= i < p.folders.len() && same_place(#[trigger] p.folders[i], path)
}

/// The first file at a path, from a position on.
pub open spec fn file_at(files: Seq<FileView>, path: Seq<char>, from: int) -> Option<int>
    decreases files.len() - from,
{
    if from < 0 || from >= files.len() {
        None
    } else if same_place(files[from].path, path) {
        Some(from)
    } else {
        file_at(files, path, from + 1)
    }
}

/// Whether there is a file at a path.
pub open spec fn has_file(p: Picture, path: Seq<char>) -> bool {
    file_at(p.files, path, 0) is Some
}

/// Whether there is anything at a path.
pub open spec fn is_taken(p: Picture, path: Seq<char>) -> bool {
    has_folder(p, path) || has_file(p, path)
}

/// Tells whether two lists of texts are the same.
pub fn same_lists(a: &Vec<Vec<char>>, b: &Vec<Vec<char>>) -> (r: bool)
    ensures
        r == (views(a@) == views(b@)),
{
    if a.len() != b.len() {
        assert(views(a@).len() != views(b@).len());
        return false;
    }
    let mut i: usize = 0;
    while i < a.len()
        invariant
            i <= a.len() == b.len(),
            forall|k: int| 0 <= k < i ==> a@[k]@ == b@[k]@,
        decreases a.len() - i,
    {
        if !same(&a[i], &b[i]) {
            assert(views(a@)[i as int] != views(b@)[i as int]);
            return false;
        }
        i += 1;
    }
    assert(views(a@) =~= views(b@));
    true
}

/// Tells whether a path starts at the root of the file system.
pub fn starts_at_root(path: &str) -> (r: bool)
    ensures
        r == is_absolute(path@),
{
    let p: Vec<char> = to_chars(path);
    p.len() > 0 && p[0] == '/'
}

/// Tells whether two paths lead to the same place.
pub fn is_same_place(a: &str, b: &str) -> (r: bool)
    ensures
        r == same_place(a@, b@),
{
    starts_at_root(a) == starts_at_root(b) && same_lists(&path_components(a), &path_components(b))
}

// ── The order of paths ─────────────────────────────────────────────────────

/// The order of two paths, given by their components.
pub open spec fn components_order(a: Seq<Seq<char>>, b: Seq<Seq<char>>) -> Order
    decreases a.len(),
{
    if a.len() == 0 && b.len() == 0 {
        Order::Equal
    } else if a.len() == 0 {
        Order::Less
    } else if b.len() == 0 {
        Order::Greater
    } else if a[0] == b[0] {
        components_order(a.skip(1), b.skip(1))
    } else {
        text_order(a[0], b[0])
    }
}

/// The order of two paths: component by component.
pub open spec fn path_order(a: Seq<char>, b: Seq<char>) -> Order {
    components_order(components(a), components(b))
}

/// Orders two paths.
pub fn order_paths(a: &str, b: &str) -> (r: Order)
    ensures
        r == path_order(a@, b@),
{
    let x: Vec<Vec<char>> = path_components(a);
    let y: Vec<Vec<char>> = path_components(b);
    let ghost xv = views(x@);
    let ghost yv = views(y@);
    let mut i: usize = 0;
    assert(xv.skip(0) =~= xv);
    assert(yv.skip(0) =~= yv);
    while i < x.len() && i < y.len()
        invariant
            xv == views(x@),
            yv == views(y@),
            i <= x.len(),
            i <= y.len(),
            path_order(a@, b@) == components_order(xv.skip(i as int), yv.skip(i as int)),
        decreases x.len() - i,
    {
        assert(xv.skip(i as int)[0] == x@[i as int]@);
        assert(yv.skip(i as int)[0] == y@[i as int]@);
        if !same(&x[i], &y[i]) {
            return order_texts(from_chars(&x[i]).as_str(), from_chars(&y[i]).as_str());
        }
        assert(xv.skip(i as int).skip(1) =~= xv.skip(i + 1));
        assert(yv.skip(i as int).skip(1) =~= yv.skip(i + 1));
        i += 1;
    }
    if x.len() == y.len() {
        Order::Equal
    } else if i == x.len() {
        Order::Less
    } else {
        Order::Greater
    }
}

/// Tells whether a path comes after another.
fn comes_after(a: &str, b: &str) -> (r: bool)
    ensures
        r == (path_order(a@, b@) == Order::Greater),
{
    order_paths(a, b) == Order::Greater
}

// ── Notes in a folder ──────────────────────────────────────────────────────

/// Whether a name is hidden.
pub open spec fn is_hidden(name: Seq<char>) -> bool {
    name.len() > 0 && name[0] == '.'
}

/// Whether a path lies in a folder: directly, or, where subfolders count, at any
/// depth with no hidden name on the way.
pub open spec fn lies_in(path: Seq<char>, folder: Seq<char>, recursive: bool) -> bool {
    let cs = components(path);
    let fs = components(folder);
    &&& is_absolute(path) == is_absolute(folder)
    &&& fs.len() < cs.len()
    &&& cs.take(fs.len() as int) == fs
    &&& if recursive {
        forall|i: int| fs.len() <= i < cs.len() ==> !is_hidden(#[trigger] cs[i])
    } else {
        cs.len() == fs.len() + 1
    }
}

/// Whether a path names a note.
pub open spec fn is_note(path: Seq<char>) -> bool {
    match file_name(path) {
        Some(n) => extension(n) == Some("md"@),
        None => false,
    }
}

/// Files in order with one more: behind those that do not come after it.
pub open spec fn with_file(files: Seq<FileView>, f: FileView) -> Seq<FileView>
    decreases files.len(),
{
    if files.len() > 0 && path_order(files.last().path, f.path) == Order::Greater {
        with_file(files.drop_last(), f).push(files.last())
    } else {
        files.push(f)
    }
}

/// The notes of a folder in the order of their paths.
pub open spec fn notes_in(files: Seq<FileView>, folder: Seq<char>, recursive: bool) -> Seq<FileView>
    decreases files.len(),
{
    if files.len() == 0 {
        seq![]
    } else if is_note(files.last().path) && lies_in(files.last().path, folder, recursive) {
        with_file(notes_in(files.drop_last(), folder, recursive), files.last())
    } else {
        notes_in(files.drop_last(), folder, recursive)
    }
}

/// Tells whether a path names a note.
pub fn names_note(path: &str) -> (r: bool)
    ensures
        r == is_note(path@),
{
    match file_name_of(path) {
        Some(n) => match extension_of(n.as_str()) {
            Some(e) => crate::text::same_text(e.as_str(), "md"),
            None => false,
        },
        None => false,
    }
}

/// Tells whether a path lies in a folder.
pub fn is_in_folder(path: &str, folder: &str, recursive: bool) -> (r: bool)
    ensures
        r == lies_in(path@, folder@, recursive),
{
    if starts_at_root(path) != starts_at_root(folder) {
        return false;
    }
    let cs: Vec<Vec<char>> = path_components(path);
    let fs: Vec<Vec<char>> = path_components(folder);
    let ghost cv = views(cs@);
    let ghost fv = views(fs@);
    if fs.len() >= cs.len() {
        return false;
    }
    let head: Vec<Vec<char>> = crate::writer::copy_lines(&cs, 0, fs.len());
    assert(views(head@) =~= cv.take(fv.len() as int));
    if !same_lists(&head, &fs) {
        return false;
    }
    if !recursive {
        return cs.len() - fs.len() == 1;
    }
    let mut i: usize = fs.len();
    while i < cs.len()
        invariant
            cv == views(cs@),
            fv == views(fs@),
            cv == components(path@),
            fv == components(folder@),
            recursive,
            fs.len() <= i <= cs.len(),
            forall|k: int| fs.len() <= k < i ==> !is_hidden(#[trigger] cv[k]),
        decreases cs.len() - i,
    {
        assert(cv[i as int] == cs@[i as int]@);
        if cs[i].len() > 0 && cs[i][0] == '.' {
            assert(is_hidden(cv[i as int]));
            return false;
        }
        i += 1;
    }
    true
}

/// The files at some positions.
pub open spec fn picked(files: Seq<FileView>, at: Seq<usize>) -> Seq<FileView> {
    Seq::new(at.len(), |k: int| files[at[k] as int])
}

impl Tree {
    /// Tells whether there is a folder at a path.
    pub fn is_dir(&self, path: &str) -> (r: bool)
        ensures
            r == has_folder(self@, path@),
    {
        let mut i: usize = 0;
        while i < self.folders.len()
            invariant
                i <= self.folders.len(),
                forall|k: int| 0 <= k < i ==> !same_place(#[trigger] self@.folders[k], path@),
            decreases self.folders.len() - i,
        {
            if is_same_place(self.folders[i].as_str(), path) {
                assert(same_place(self@.folders[i as int], path@));
                return true;
            }
            i += 1;
        }
        false
    }

    /// Finds the file at a path.
    pub fn find_file(&self, path: &str) -> (r: Option<usize>)
        ensures
            match r {
                Some(i) => file_at(self@.files, path@, 0) == Some(i as int) && i < self.files.len(),
                None => file_at(self@.files, path@, 0) is None,
            },
    {
        let mut i: usize = 0;
        while i < self.files.len()
            invariant
                i <= self.files.len(),
                file_at(self@.files, path@, 0) == file_at(self@.files, path@, i as int),
            decreases self.files.len() - i,
        {
            if is_same_place(self.files[i].path.as_str(), path) {
                return Some(i);
            }
            i += 1;
        }
        None
    }

    /// Tells whether there is a file at a path.
    pub fn is_file(&self, path: &str) -> (r: bool)
        ensures
            r == has_file(self@, path@),
    {
        self.find_file(path).is_some()
    }

    /// Tells whether there is anything at a path.
    pub fn has(&self, path: &str) -> (r: bool)
        ensures
            r == is_taken(self@, path@),
    {
        self.is_dir(path) || self.is_file(path)
    }

    /// Finds the notes of a folder, in the order of their paths.
    pub fn find_notes(&self, folder: &str, recursive: bool) -> (r: Vec<usize>)
        ensures
            picked(self@.files, r@) == notes_in(self@.files, folder@, recursive),
            forall|k: int| 0 <= k < r.len() ==> (#[trigger] r@[k]) < self.files.len(),
    {
        let ghost files = self@.files;
        let mut out: Vec<usize> = Vec::new();
        let mut i: usize = 0;
        assert(files.take(0) =~= seq![]);
        assert(picked(files, out@) =~= seq![]);
        while i < self.files.len()
            invariant
                files == self@.files,
                i <= self.files.len(),
                picked(files, out@) == notes_in(files.take(i as int), folder@, recursive),
                forall|k: int| 0 <= k < out.len() ==> (#[trigger] out@[k]) < self.files.len(),
            decreases self.files.len() - i,
        {
            assert(files.take(i + 1).drop_last() =~= files.take(i as int));
            let path: &str = self.files[i].path.as_str();
            if names_note(path) && is_in_folder(path, folder, recursive) {
                self.place_file(&mut out, i);
            }
            i += 1;
        }
        assert(files.take(i as int) =~= files);
        out
    }

    /// Puts a file in its place among others.
    fn place_file(&self, at: &mut Vec<usize>, i: usize)
        requires
            i < self.files.len(),
            forall|k: int| 0 <= k < old(at).len() ==> (#[trigger] old(at)@[k]) < self.files.len(),
        ensures
            picked(self@.files, final(at)@) == with_file(
                picked(self@.files, old(at)@),
                self@.files[i as int],
            ),
            forall|k: int| 0 <= k < final(at).len() ==> (#[trigger] final(at)@[k])
                < self.files.len(),
    {
        let ghost files = self@.files;
        let ghost before = picked(files, at@);
        let ghost start = at@;
        let ghost f = files[i as int];
        let mut j: usize = at.len();
        assert(before.take(j as int) =~= before);
        assert(with_file(before.take(j as int), f) + before.skip(j as int) =~= with_file(before, f));
        while j > 0 && comes_after(
            self.files[at[j - 1]].path.as_str(),
            self.files[i].path.as_str(),
        )
            invariant
                files == self@.files,
                f == files[i as int],
                i < self.files.len(),
                at@ == start,
                j <= at.len(),
                before == picked(files, start),
                forall|k: int| 0 <= k < at.len() ==> (#[trigger] at@[k]) < self.files.len(),
                with_file(before.take(j as int), f) + before.skip(j as int) == with_file(before, f),
            decreases j,
        {
            proof {
                let head = before.take(j as int);
                assert(head.drop_last() =~= before.take(j - 1));
                assert(head.last() == before[j - 1]);
                assert(with_file(before.take(j - 1), f).push(before[j - 1]) + before.skip(j as int)
                    =~= with_file(before.take(j - 1), f) + before.skip(j - 1));
            }
            j -= 1;
        }
        at.insert(j, i);
        proof {
            if j > 0 {
                assert(before.take(j as int).last() == before[j - 1]);
            }
            assert(with_file(before.take(j as int), f) == before.take(j as int).push(f));
            assert(picked(files, at@) =~= before.take(j as int).push(f) + before.skip(j as int));
        }
    }
}

} // verus!
