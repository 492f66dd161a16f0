use vstd::prelude::*;
use vstd::string::*;
use crate::classify::{is_space_char, chars_of, content_end};

verus! {

/// The lines of a text, each as a sequence of characters.
pub open spec fn lines_view(v: Seq<String>) -> Seq<Seq<char>> {
    v.map_values(|s: String| s@)
}

pub struct FileModel {
    pub path: Seq<char>,
    pub lines: Seq<Seq<char>>,
}

/// One source file: its path relative to the crate's directory
/// (`src/lib.rs`, `src/a/b.rs`) and its lines, trailing whitespace removed.
pub struct SourceFile {
    pub path: String,
    pub lines: Vec<String>,
}

impl View for SourceFile {
    type V = FileModel;

    open spec fn view(&self) -> FileModel {
        FileModel { path: self.path@, lines: lines_view(self.lines@) }
    }
}

/// The files that module paths are resolved against.
pub struct SourceTree {
    pub files: Vec<SourceFile>,
}

impl View for SourceTree {
    type V = Seq<FileModel>;

    open spec fn view(&self) -> Seq<FileModel> {
        self.files@.map_values(|f: SourceFile| f@)
    }
}

/// Index of the first file at or after `i` whose path is `p`.
pub open spec fn find_from(files: Seq<FileModel>, p: Seq<char>, i: int) -> Option<int>
    decreases files.len() - i,
{
    if i < 0 || i >= files.len() {
        None
    } else if files[i].path == p {
        Some(i)
    } else {
        find_from(files, p, i + 1)
    }
}

/// Index of the first file whose path is `p`.
pub open spec fn find_file(files: Seq<FileModel>, p: Seq<char>) -> Option<int> {
    find_from(files, p, 0)
}

pub open spec fn src_dir() -> Seq<char> {
    seq!['s', 'r', 'c', '/']
}

/// `src/<stem>.rs`: a module kept in a file of its own.
pub open spec fn flat_candidate(stem: Seq<char>) -> Seq<char> {
    src_dir() + stem + seq!['.', 'r', 's']
}

/// `src/<stem>/mod.rs`: a module kept as the index of a directory.
pub open spec fn index_candidate(stem: Seq<char>) -> Seq<char> {
    src_dir() + stem + seq!['/', 'm', 'o', 'd', '.', 'r', 's']
}

/// The file that backs the module at `stem`: the flat file if there is one,
/// else the directory index.
pub open spec fn find_module(files: Seq<FileModel>, stem: Seq<char>) -> Option<int> {
    if find_file(files, flat_candidate(stem)) is Some {
        find_file(files, flat_candidate(stem))
    } else {
        find_file(files, index_candidate(stem))
    }
}

/// The sum of the lengths of all file paths: no path is longer.
pub open spec fn path_bound(files: Seq<FileModel>) -> int
    decreases files.len(),
{
    if files.len() == 0 {
        0
    } else {
        path_bound(files.drop_last()) + files.last().path.len()
    }
}

pub proof fn lemma_path_bound(files: Seq<FileModel>)
    ensures
        path_bound(files) >= 0,
        forall|i: int| 0 <= i < files.len() ==> files[i].path.len() <= path_bound(files),
    decreases files.len(),
{
    if files.len() > 0 {
        lemma_path_bound(files.drop_last());
        assert forall|i: int| 0 <= i < files.len() implies files[i].path.len() <= path_bound(
            files,
        ) by {
            if i < files.len() - 1 {
                assert(files[i] == files.drop_last()[i]);
            }
        }
    }
}

proof fn lemma_find_from(files: Seq<FileModel>, p: Seq<char>, i: int)
    requires
        0 <= i,
    ensures
        find_from(files, p, i) matches Some(j) ==> i <= j < files.len() && files[j].path == p,
        find_from(files, p, i) is None ==> forall|j: int|
            i <= j < files.len() ==> files[j].path != p,
    decreases files.len() - i,
{
    if i < files.len() && files[i].path != p {
        lemma_find_from(files, p, i + 1);
    }
}

/// A found module's file is named after its stem.
pub proof fn lemma_find_module(files: Seq<FileModel>, stem: Seq<char>)
    ensures
        find_module(files, stem) matches Some(j) ==> 0 <= j < files.len() && (files[j].path
            == flat_candidate(stem) || files[j].path == index_candidate(stem)),
{
    lemma_find_from(files, flat_candidate(stem), 0);
    lemma_find_from(files, index_candidate(stem), 0);
}

impl SourceTree {
    /// Index of the first file whose path is `p`.
    pub fn find(&self, p: &String) -> (r: Option<usize>)
        ensures
            r matches Some(i) ==> find_file(self@, p@) == Some(i as int) && i < self.files@.len(),
            r is None ==> find_file(self@, p@) is None,
    {
        let mut i: usize = 0;
        while i < self.files.len()
            invariant
                i <= self.files@.len(),
                self@.len() == self.files@.len(),
                find_from(self@, p@, i as int) == find_file(self@, p@),
            decreases self.files@.len() - i,
        {
            if self.files[i].path == *p {
                return Some(i);
            }
            i = i + 1;
        }
        None
    }

    /// Index of the file that backs the module at `stem`.
    pub fn find_module(&self, stem: &String) -> (r: Option<usize>)
        ensures
            r matches Some(i) ==> find_module(self@, stem@) == Some(i as int),
            r is None ==> find_module(self@, stem@) is None,
    {
        let flat = candidate_path(stem, false);
        match self.find(&flat) {
            Some(i) => Some(i),
            None => self.find(&candidate_path(stem, true)),
        }
    }
}

/// The path of the file for the module at `stem`: the directory index when
/// `index` holds, else the flat file.
pub fn candidate_path(stem: &String, index: bool) -> (r: String)
    ensures
        r@ == if index {
            index_candidate(stem@)
        } else {
            flat_candidate(stem@)
        },
{
    proof {
        reveal_strlit("src/");
        reveal_strlit(".rs");
        reveal_strlit("/mod.rs");
    }
    let mut r = String::from_str("src/");
    r.append(stem.as_str());
    if index {
        r.append("/mod.rs");
        assert(r@ =~= index_candidate(stem@));
    } else {
        r.append(".rs");
        assert(r@ =~= flat_candidate(stem@));
    }
    r
}

/// Index of the first line break of `s` at or after `i`, or the length of `s`.
pub open spec fn line_end(s: Seq<char>, i: int) -> int
    decreases s.len() - i,
{
    if 0 <= i < s.len() && s[i] != '\n' {
        line_end(s, i + 1)
    } else {
        i
    }
}

/// The lines of `s` from index `i` on: the pieces between line breaks, each
/// without trailing whitespace; a final line break ends the last line and
/// starts no new one.
pub open spec fn lines_from(s: Seq<char>, i: int) -> Seq<Seq<char>>
    decreases s.len() + 1 - i,
    via lines_from_decreases
{
    if i < 0 || i >= s.len() {
        Seq::empty()
    } else {
        let e = line_end(s, i);
        seq![s.subrange(i, content_end(s, i, e))] + lines_from(s, e + 1)
    }
}

proof fn lemma_line_end(s: Seq<char>, i: int)
    requires
        0 <= i <= s.len(),
    ensures
        i <= line_end(s, i) <= s.len(),
    decreases s.len() - i,
{
    if i < s.len() && s[i] != '\n' {
        lemma_line_end(s, i + 1);
    }
}

#[via_fn]
proof fn lines_from_decreases(s: Seq<char>, i: int) {
    if 0 <= i < s.len() {
        lemma_line_end(s, i);
    }
}

/// The source lines of a file's text: split at line breaks, trailing
/// whitespace removed from each.
pub fn source_lines(text: &str) -> (r: Vec<String>)
    ensures
        lines_view(r@) == lines_from(text@, 0),
{
    let s = chars_of(text);
    let n = s.len();
    let mut r: Vec<String> = Vec::new();
    let mut pos: usize = 0;
    assert(lines_view(r@) =~= Seq::<Seq<char>>::empty());
    assert(Seq::<Seq<char>>::empty() + lines_from(s@, 0) =~= lines_from(s@, 0));
    while pos < n
        invariant
            n == s@.len(),
            s@ == text@,
            pos <= n,
            lines_view(r@) + lines_from(s@, pos as int) == lines_from(s@, 0),
        decreases n - pos,
    {
        let mut e = pos;
        while e < n && s[e] != '\n'
            invariant
                n == s@.len(),
                pos <= e <= n,
                line_end(s@, e as int) == line_end(s@, pos as int),
            decreases n - e,
        {
            e = e + 1;
        }
        let mut t = e;
        while t > pos && is_space_char(s[t - 1])
            invariant
                n == s@.len(),
                pos <= t <= e <= n,
                content_end(s@, pos as int, t as int) == content_end(s@, pos as int, e as int),
            decreases t - pos,
        {
            t = t - 1;
        }
        let line = text.substring_char(pos, t).to_owned();
        let ghost before = lines_view(r@);
        r.push(line);
        assert(lines_view(r@) =~= before.push(line@));
        assert(lines_from(s@, pos as int) == seq![line@] + lines_from(s@, e + 1));
        assert(before.push(line@) + lines_from(s@, e + 1) =~= before + (seq![line@] + lines_from(
            s@,
            e + 1,
        )));
        if e < n {
            pos = e + 1;
        } else {
            assert(lines_from(s@, e + 1) == lines_from(s@, n as int));
            pos = n;
        }
    }
    assert(lines_view(r@) + lines_from(s@, n as int) =~= lines_view(r@));
    r
}

} // verus!
