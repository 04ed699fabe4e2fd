//! Text viewer for archive-bundled documents (readme, terms of use, etc.).
//!
//! `TextViewerModel` holds the list of text files found in the most recently
//! listed archive plus the documents the user opened from that list. Paths
//! are archive-internal paths, compared by their components: repeated
//! separators, a trailing separator and `.` components after the first do not
//! make two paths differ.
use vstd::prelude::*;
use vstd::string::StrSliceExecFns;
use crate::text::{chars_eq, chars_of, is_sep};

verus! {

/// Cap on characters kept per opened document.
pub const MAX_DISPLAY_CHARS: usize = 1_000_000;

/// One text file found in an archive. Raw bytes are kept as extracted and
/// decoded lazily when the user opens the file.
pub struct TextFileEntry {
    /// Internal archive path (unique key within the list).
    pub path: String,
    /// File name used for list display and window titles.
    pub name: String,
    pub data: Vec<u8>,
}

/// One opened document (backing state for a text-viewer window).
pub struct TextDoc {
    /// Internal archive path (also the window-id seed).
    pub path: String,
    pub title: String,
    pub content: String,
    /// True when `content` was cut off at `MAX_DISPLAY_CHARS`.
    pub truncated: bool,
    /// Cleared when the user closes the window.
    pub open: bool,
}

/// Core state of the text viewer.
pub struct TextViewerModel {
    /// Text files found in the current archive (list-window contents).
    pub files: Vec<TextFileEntry>,
    /// Documents opened from the list.
    pub docs: Vec<TextDoc>,
    /// Whether the file-list window is shown.
    pub list_visible: bool,
}

/// A finished component joins the list unless it is empty, or a `.` that is not
/// the first component.
pub open spec fn finish_component(done: Seq<Seq<char>>, cur: Seq<char>) -> Seq<Seq<char>> {
    if cur.len() == 0 || (cur == seq!['.'] && done.len() > 0) {
        done
    } else {
        done.push(cur)
    }
}

/// The components finished after reading the first `n` characters of `p`, and the
/// one being read. A path that starts with a separator starts with the root
/// component `/`.
pub open spec fn components_upto(p: Seq<char>, n: int) -> (Seq<Seq<char>>, Seq<char>)
    decreases n,
{
    if n <= 0 {
        (if p.len() > 0 && is_sep(p[0]) { seq![seq!['/']] } else { Seq::empty() }, Seq::empty())
    } else {
        let prev = components_upto(p, n - 1);
        if is_sep(p[n - 1]) {
            (finish_component(prev.0, prev.1), Seq::empty())
        } else {
            (prev.0, prev.1.push(p[n - 1]))
        }
    }
}

/// The components of a path; two paths name the same file when these agree.
pub open spec fn path_key(p: Seq<char>) -> Seq<Seq<char>> {
    let st = components_upto(p, p.len() as int);
    finish_component(st.0, st.1)
}

/// The views of a list of character vectors.
pub open spec fn char_views(v: Seq<Vec<char>>) -> Seq<Seq<char>> {
    v.map_values(|c: Vec<char>| c@)
}

/// The components of the path `p`.
fn components_of(p: &String) -> (r: Vec<Vec<char>>)
    ensures
        char_views(r@) == path_key(p@),
{
    let cs = chars_of(p.as_str());
    let mut done: Vec<Vec<char>> = Vec::new();
    if cs.len() > 0 && (cs[0] == '/' || cs[0] == '\\') {
        let root: Vec<char> = vec!['/'];
        assert(root@ =~= seq!['/']);
        done.push(root);
        assert(char_views(done@) =~= seq![seq!['/']]);
    } else {
        assert(char_views(done@) =~= Seq::<Seq<char>>::empty());
    }
    let mut cur: Vec<char> = Vec::new();
    let mut i: usize = 0;
    while i < cs.len()
        invariant
            i <= cs@.len(),
            cs@ == p@,
            char_views(done@) == components_upto(p@, i as int).0,
            cur@ == components_upto(p@, i as int).1,
        decreases cs.len() - i,
    {
        let c = cs[i];
        if c == '/' || c == '\\' {
            finish_into(&mut done, cur);
            cur = Vec::new();
        } else {
            cur.push(c);
        }
        i = i + 1;
    }
    finish_into(&mut done, cur);
    done
}

/// Add a finished component to `done` (see [`finish_component`]).
fn finish_into(done: &mut Vec<Vec<char>>, cur: Vec<char>)
    ensures
        char_views(final(done)@) == finish_component(char_views(old(done)@), cur@),
{
    let dot = cur.len() == 1 && cur[0] == '.';
    if cur.len() == 0 || (dot && done.len() > 0) {
        if dot {
            assert(cur@ =~= seq!['.']);
        }
        return;
    }
    proof {
        if cur@ == seq!['.'] {
            assert(cur@[0] == '.');
        }
    }
    let ghost d0 = done@;
    done.push(cur);
    assert(char_views(done@) =~= char_views(d0).push(cur@));
}

/// Whether two paths name the same file (their components agree).
pub fn same_path(a: &String, b: &String) -> (r: bool)
    ensures
        r == (path_key(a@) == path_key(b@)),
{
    let ca = components_of(a);
    let cb = components_of(b);
    if ca.len() != cb.len() {
        assert(char_views(ca@).len() != char_views(cb@).len());
        return false;
    }
    let mut i: usize = 0;
    while i < ca.len()
        invariant
            i <= ca@.len() == cb@.len(),
            char_views(ca@) == path_key(a@),
            char_views(cb@) == path_key(b@),
            forall|k: int| 0 <= k < i ==> ca@[k]@ == cb@[k]@,
        decreases ca.len() - i,
    {
        if !chars_eq(&ca[i], cb[i].as_slice()) {
            assert(char_views(ca@)[i as int] != char_views(cb@)[i as int]);
            assert(path_key(a@)[i as int] != path_key(b@)[i as int]);
            return false;
        }
        i = i + 1;
    }
    assert(char_views(ca@) =~= char_views(cb@));
    true
}

/// The paths of a list of files.
pub open spec fn file_paths(files: Seq<TextFileEntry>) -> Seq<Seq<char>> {
    files.map_values(|f: TextFileEntry| f.path@)
}

/// Whether some file of `files` has path `p`.
pub open spec fn has_path(files: Seq<TextFileEntry>, p: Seq<char>) -> bool {
    exists|i: int| 0 <= i < files.len() && path_key(files[i].path@) == path_key(p)
}

/// `existing` extended by the files of `added`, in order, skipping each file whose
/// path is already listed (including files taken from `added` before it).
pub open spec fn merged(existing: Seq<TextFileEntry>, added: Seq<TextFileEntry>) -> Seq<TextFileEntry>
    decreases added.len(),
{
    if added.len() == 0 {
        existing
    } else {
        let m = merged(existing, added.drop_last());
        if has_path(m, added.last().path@) {
            m
        } else {
            m.push(added.last())
        }
    }
}

/// No two files share a path.
pub open spec fn unique_paths(files: Seq<TextFileEntry>) -> bool {
    forall|i: int, j: int| 0 <= i < j < files.len() ==> path_key(files[i].path@) != path_key(files[j].path@)
}

/// `i` is the first document with path `p`.
pub open spec fn is_first_doc(docs: Seq<TextDoc>, p: Seq<char>, i: int) -> bool {
    &&& 0 <= i < docs.len()
    &&& path_key(docs[i].path@) == path_key(p)
    &&& forall|j: int| 0 <= j < i ==> path_key(docs[j].path@) != path_key(p)
}

/// The text kept for display: at most `MAX_DISPLAY_CHARS` characters.
pub open spec fn display_text(decoded: Seq<char>) -> Seq<char> {
    if decoded.len() > MAX_DISPLAY_CHARS {
        decoded.take(MAX_DISPLAY_CHARS as int)
    } else {
        decoded
    }
}

/// Whether some file of `files` has the path `p`.
fn contains_path(files: &Vec<TextFileEntry>, p: &String) -> (r: bool)
    ensures
        r == has_path(files@, p@),
{
    let mut i: usize = 0;
    while i < files.len()
        invariant
            i <= files.len(),
            forall|j: int| 0 <= j < i ==> path_key(files@[j].path@) != path_key(p@),
        decreases files.len() - i,
    {
        if same_path(&files[i].path, p) {
            return true;
        }
        i = i + 1;
    }
    false
}

impl Default for TextViewerModel {
    fn default() -> (r: Self)
        ensures
            r.files@.len() == 0,
            r.docs@.len() == 0,
            !r.list_visible,
    {
        TextViewerModel { files: Vec::new(), docs: Vec::new(), list_visible: false }
    }
}

impl TextViewerModel {
    /// Replace the file list (fresh archive listing). Open documents are closed
    /// because they belong to the previous archive; an empty listing also hides
    /// the list window.
    pub fn replace_files(&mut self, files: Vec<TextFileEntry>)
        ensures
            final(self).files@ == files@,
            final(self).docs@.len() == 0,
            final(self).list_visible == (old(self).list_visible && files@.len() > 0),
    {
        self.files = files;
        self.docs.clear();
        if self.files.len() == 0 {
            self.list_visible = false;
        }
    }

    /// Merge additional files (append load). Entries whose path is already
    /// listed are skipped; open documents stay open.
    pub fn extend_files(&mut self, files: Vec<TextFileEntry>)
        ensures
            final(self).files@ == merged(old(self).files@, files@),
            final(self).docs@ == old(self).docs@,
            final(self).list_visible == old(self).list_visible,
    {
        let mut rest = files;
        let ghost all = rest@;
        let ghost mut taken: int = 0;
        while rest.len() > 0
            invariant
                0 <= taken <= all.len(),
                rest@ == all.skip(taken),
                self.files@ == merged(old(self).files@, all.take(taken)),
                self.docs@ == old(self).docs@,
                self.list_visible == old(self).list_visible,
            decreases rest.len(),
        {
            let f = rest.remove(0);
            proof {
                assert(all.take(taken + 1).drop_last() =~= all.take(taken));
                assert(all.take(taken + 1).last() == f);
                assert(rest@ =~= all.skip(taken + 1));
                taken = taken + 1;
            }
            if !contains_path(&self.files, &f.path) {
                self.files.push(f);
            }
        }
        assert(all.take(all.len() as int) =~= all);
    }

    /// Whether the document of `files[index]` is open.
    pub fn is_file_open(&self, index: usize) -> (r: bool)
        requires
            index < self.files@.len(),
        ensures
            r == exists|j: int|
                0 <= j < self.docs@.len() && self.docs@[j].open && path_key(self.docs@[j].path@)
                    == path_key(self.files@[index as int].path@),
    {
        let p = &self.files[index].path;
        let mut j: usize = 0;
        while j < self.docs.len()
            invariant
                j <= self.docs@.len(),
                *p == self.files@[index as int].path,
                forall|k: int|
                    0 <= k < j ==> !(self.docs@[k].open && path_key(self.docs@[k].path@) == path_key(p@)),
            decreases self.docs.len() - j,
        {
            if self.docs[j].open && same_path(&self.docs[j].path, p) {
                return true;
            }
            j = j + 1;
        }
        false
    }

    /// Open the document for `files[index]`, decoding it with `decode` on first
    /// open (the text is cut at `MAX_DISPLAY_CHARS` characters). An already opened
    /// document is reopened instead. Returns the document's path, which identifies
    /// its window, or `None` when `index` is out of range.
    pub fn open_doc<F: Fn(&Vec<u8>) -> String>(&mut self, index: usize, decode: F) -> (r: Option<String>)
        requires
            forall|d: &Vec<u8>| #[trigger] decode.requires((d,)),
        ensures
            index >= old(self).files@.len() ==> r is None && final(self).docs@ == old(self).docs@,
            index < old(self).files@.len() ==> {
                let file = old(self).files@[index as int];
                &&& r matches Some(p) && p@ == file.path@
                &&& if exists|i: int| is_first_doc(old(self).docs@, file.path@, i) {
                    let i = choose|i: int| is_first_doc(old(self).docs@, file.path@, i);
                    &&& final(self).docs@.len() == old(self).docs@.len()
                    &&& final(self).docs@[i].open
                    &&& final(self).docs@[i].path == old(self).docs@[i].path
                    &&& final(self).docs@[i].title == old(self).docs@[i].title
                    &&& final(self).docs@[i].content == old(self).docs@[i].content
                    &&& final(self).docs@[i].truncated == old(self).docs@[i].truncated
                    &&& forall|j: int| 0 <= j < old(self).docs@.len() && j != i ==> final(self).docs@[j] == old(self).docs@[j]
                } else {
                    &&& final(self).docs@.len() == old(self).docs@.len() + 1
                    &&& forall|j: int| 0 <= j < old(self).docs@.len() ==> final(self).docs@[j] == old(self).docs@[j]
                    &&& ({
                        let d = final(self).docs@.last();
                        &&& d.path@ == file.path@
                        &&& d.title@ == file.name@
                        &&& d.open
                        &&& exists|s: String| decode.ensures((&file.data,), s) && d.content@ == display_text(s@)
                            && d.truncated == (s@.len() > MAX_DISPLAY_CHARS)
                    })
                }
            },
            final(self).files@ == old(self).files@,
            final(self).list_visible == old(self).list_visible,
    {
        if index >= self.files.len() {
            return None;
        }
        let path = self.files[index].path.clone();
        let mut i: usize = 0;
        while i < self.docs.len()
            invariant
                i <= self.docs@.len(),
                index < self.files@.len(),
                path@ == self.files@[index as int].path@,
                self.docs@ == old(self).docs@,
                self.files@ == old(self).files@,
                self.list_visible == old(self).list_visible,
                forall|j: int| 0 <= j < i ==> path_key(self.docs@[j].path@) != path_key(path@),
            decreases self.docs.len() - i,
        {
            if same_path(&self.docs[i].path, &path) {
                proof {
                    assert(is_first_doc(old(self).docs@, path@, i as int));
                    let k = choose|k: int| is_first_doc(old(self).docs@, path@, k);
                    if k < i {
                        assert(path_key(old(self).docs@[k].path@) != path_key(path@));
                    } else if k > i {
                        assert(path_key(old(self).docs@[i as int].path@) != path_key(path@));
                    }
                }
                let ghost before = self.docs@;
                self.docs.set(i, TextDoc {
                    path: self.docs[i].path.clone(),
                    title: self.docs[i].title.clone(),
                    content: self.docs[i].content.clone(),
                    truncated: self.docs[i].truncated,
                    open: true,
                });
                return Some(path);
            }
            i = i + 1;
        }
        let decoded = decode(&self.files[index].data);
        let ghost dec = decoded;
        assert(!exists|k: int| is_first_doc(old(self).docs@, path@, k));
        let n = decoded.as_str().unicode_len();
        let (content, truncated) = if n > MAX_DISPLAY_CHARS {
            (decoded.as_str().substring_char(0, MAX_DISPLAY_CHARS).to_owned(), true)
        } else {
            (decoded, false)
        };
        let title = self.files[index].name.clone();
        assert(content@ == display_text(dec@));
        let ghost before = self.docs@;
        self.docs.push(TextDoc { path: path.clone(), title, content, truncated, open: true });
        assert(decode.ensures((&old(self).files@[index as int].data,), dec));
        assert(self.docs@.last().content@ == display_text(dec@));
        Some(path)
    }
}

// ---------------------------------------------------------------------------
// Laws
// ---------------------------------------------------------------------------

/// Merging files keeps the paths of the list unique.
pub proof fn merge_keeps_paths_unique(existing: Seq<TextFileEntry>, added: Seq<TextFileEntry>)
    requires
        unique_paths(existing),
    ensures
        unique_paths(merged(existing, added)),
    decreases added.len(),
{
    if added.len() > 0 {
        merge_keeps_paths_unique(existing, added.drop_last());
        let m = merged(existing, added.drop_last());
        if !has_path(m, added.last().path@) {
            let m2 = m.push(added.last());
            assert forall|i: int, j: int| 0 <= i < j < m2.len() implies path_key(m2[i].path@) != path_key(
                m2[j].path@,
            ) by {
                if j == m.len() {
                    assert(path_key(m[i].path@) != path_key(added.last().path@));
                }
            }
        }
    }
}

/// Merging never drops a listed file and lists every added path.
pub proof fn merge_keeps_and_covers(existing: Seq<TextFileEntry>, added: Seq<TextFileEntry>)
    ensures
        merged(existing, added).len() >= existing.len(),
        forall|i: int| 0 <= i < existing.len() ==> merged(existing, added)[i] == existing[i],
        forall|k: int| 0 <= k < added.len() ==> has_path(merged(existing, added), #[trigger] added[k].path@),
    decreases added.len(),
{
    if added.len() > 0 {
        let a0 = added.drop_last();
        merge_keeps_and_covers(existing, a0);
        let m = merged(existing, a0);
        assert forall|k: int| 0 <= k < added.len() implies has_path(merged(existing, added), #[trigger] added[k].path@) by {
            if k < a0.len() {
                assert(added[k] == a0[k]);
                assert(has_path(m, a0[k].path@));
                let w = choose|w: int| 0 <= w < m.len() && path_key(m[w].path@) == path_key(a0[k].path@);
                if !has_path(m, added.last().path@) {
                    assert(m.push(added.last())[w] == m[w]);
                }
            } else {
                if !has_path(m, added.last().path@) {
                    assert(m.push(added.last())[m.len() as int] == added.last());
                }
            }
        }
    }
}

} // verus!
