//! Source scanning: walking a directory tree while pruning excluded
//! directories by name, keeping the files whose extension marks them
//! as Python source, and naming the local packages a tree defines.
use vstd::prelude::*;

use crate::strutil::{
    contains_str, join_with, split_char_range, split_on, str_eq, str_view, lemma_join_split,
};

verus! {

/// The view of one walked entry: its path and whether it is a file.
pub struct WalkEntry {
    pub path: String,
    pub is_file: bool,
}

/// The file-name part of a path: what follows the last slash.
pub open spec fn file_name_of(path: Seq<char>) -> Seq<char> {
    split_on(path, '/').last()
}

/// The extension of a path, under the usual rule: the part of the file
/// name after its final dot, except that a name with no dot, or a name
/// whose only dot is its leading character, has none.
pub open spec fn file_ext(path: Seq<char>) -> Option<Seq<char>> {
    let segs = split_on(file_name_of(path), '.');
    if segs.len() >= 2 && !(segs.len() == 2 && segs[0].len() == 0) {
        Some(segs.last())
    } else {
        None
    }
}

/// The stem of a path: its file name without the extension.
pub open spec fn file_stem_of(path: Seq<char>) -> Seq<char> {
    let fname = file_name_of(path);
    let segs = split_on(fname, '.');
    if segs.len() >= 2 && !(segs.len() == 2 && segs[0].len() == 0) {
        join_with(segs.drop_last(), '.')
    } else {
        fname
    }
}

/// Whether a walked entry counts as a Python source file.
pub open spec fn is_python_file(e: (Seq<char>, bool)) -> bool {
    e.1 && file_ext(e.0) == Some("py"@)
}

/// The view of a walk entry, as a function value.
pub open spec fn entry_view() -> spec_fn(WalkEntry) -> (Seq<char>, bool) {
    |e: WalkEntry| (e.path@, e.is_file)
}

/// The paths of the Python source files among the walked entries, in
/// walk order.
pub open spec fn python_files_of(entries: Seq<(Seq<char>, bool)>) -> Seq<Seq<char>>
    decreases entries.len(),
{
    if entries.len() == 0 {
        Seq::empty()
    } else {
        python_files_of(entries.drop_last()) + (if is_python_file(entries.last()) {
            seq![entries.last().0]
        } else {
            Seq::empty()
        })
    }
}

/// The stems of a list of paths, in order: the names under which the
/// walked tree's entries can be imported locally.
pub open spec fn stems_of(paths: Seq<Seq<char>>) -> Seq<Seq<char>> {
    paths.map_values(|p: Seq<char>| file_stem_of(p))
}

/// Computes a path's extension.
fn ext_of(path: &str) -> (r: Option<String>)
    ensures
        match r {
            Some(e) => file_ext(path@) == Some(e@),
            None => file_ext(path@) is None,
        },
{
    let n = path.unicode_len();
    let fsegs = split_char_range(path, 0, n, '/');
    proof {
        assert(path@.subrange(0, n as int) =~= path@);
        assert(split_on(path@, '/').len() >= 1);
        assert(fsegs@.map_values(str_view()).len() >= 1);
    }
    let fname = &fsegs[fsegs.len() - 1];
    proof {
        assert(fname@ == file_name_of(path@));
    }
    let fn_len = fname.as_str().unicode_len();
    let segs = split_char_range(fname.as_str(), 0, fn_len, '.');
    proof {
        assert(fname@.subrange(0, fn_len as int) =~= fname@);
    }
    let ghost sv = segs@.map_values(str_view());
    if segs.len() >= 2 {
        let first_empty = segs[0].as_str().unicode_len() == 0;
        if !(segs.len() == 2 && first_empty) {
            let e = segs[segs.len() - 1].clone();
            proof {
                assert(sv.last() == e@);
            }
            return Some(e);
        }
    }
    None
}

/// Computes a path's stem.
pub fn stem_of(path: &str) -> (r: String)
    ensures
        r@ == file_stem_of(path@),
{
    let n = path.unicode_len();
    let fsegs = split_char_range(path, 0, n, '/');
    proof {
        assert(path@.subrange(0, n as int) =~= path@);
        assert(split_on(path@, '/').len() >= 1);
        assert(fsegs@.map_values(str_view()).len() >= 1);
    }
    let fname = &fsegs[fsegs.len() - 1];
    proof {
        assert(fname@ == file_name_of(path@));
    }
    let fn_len = fname.as_str().unicode_len();
    let segs = split_char_range(fname.as_str(), 0, fn_len, '.');
    proof {
        assert(fname@.subrange(0, fn_len as int) =~= fname@);
    }
    let ghost sv = segs@.map_values(str_view());
    if segs.len() >= 2 {
        let first_empty = segs[0].as_str().unicode_len() == 0;
        if !(segs.len() == 2 && first_empty) {
            let ext_len = segs[segs.len() - 1].as_str().unicode_len();
            proof {
                lemma_join_split(fname@, '.');
                assert(sv.last() == sv[sv.len() - 1]);
                assert(join_with(sv, '.') == fname@);
                crate::strutil::lemma_join_push(sv.drop_last(), '.', sv.last());
                assert(sv.drop_last().push(sv.last()) =~= sv);
                assert(fname@ == join_with(sv.drop_last(), '.') + seq!['.'] + sv.last());
                assert(fname@.take(fn_len - ext_len - 1) =~= join_with(sv.drop_last(), '.'));
            }
            let stem = fname.as_str().substring_char(0, fn_len - ext_len - 1);
            return String::from_str(stem);
        }
    }
    proof {
        assert(file_stem_of(path@) == fname@);
    }
    fname.clone()
}

/// The scanner: the directory base names excluded from traversal.
pub struct PythonFileFinder {
    excluded_dirs: Vec<String>,
}

impl View for PythonFileFinder {
    type V = Seq<Seq<char>>;

    closed spec fn view(&self) -> Seq<Seq<char>> {
        self.excluded_dirs@.map_values(str_view())
    }
}

impl PythonFileFinder {
    /// A scanner with the default exclusions.
    pub fn new() -> (r: Self)
        ensures
            r@ == seq!["venv"@, ".git"@],
    {
        let mut v: Vec<String> = Vec::new();
        v.push(String::from_str("venv"));
        v.push(String::from_str(".git"));
        let r = PythonFileFinder { excluded_dirs: v };
        proof {
            assert(r@ =~= seq!["venv"@, ".git"@]);
        }
        r
    }

    /// Adds directory names to exclude from the search.
    pub fn exclude_dirs(self, dirs: Vec<String>) -> (r: Self)
        ensures
            r@ == self@ + dirs@.map_values(str_view()),
    {
        let ghost before = self@;
        let ghost added = dirs@.map_values(str_view());
        let mut v = self.excluded_dirs;
        let mut dirs = dirs;
        v.append(&mut dirs);
        let r = PythonFileFinder { excluded_dirs: v };
        proof {
            assert(r@ =~= before + added);
        }
        r
    }

    /// Whether a directory base name is excluded.
    pub fn is_excluded(&self, name: &str) -> (r: bool)
        ensures
            r == self@.contains(name@),
    {
        contains_str(&self.excluded_dirs, name)
    }

    /// Relies on walkdir::WalkDir: walks the tree rooted at `root`,
    /// following symbolic links, skipping every directory (with all it
    /// holds) whose base name `is_excluded`, and hands back each kept
    /// entry's path with whether it is a file.  Nothing comes back when
    /// any entry fails (a permission error, a broken traversal).  The
    /// result depends on the state of the file system, so no more is
    /// promised of it; what the scanner guarantees is stated on the
    /// verified functions that consume the entries.
    #[verifier::external_body]
    fn walk_tree(&self, root: &str) -> (r: Option<Vec<WalkEntry>>) {
        let walk = walkdir::WalkDir::new(root).follow_links(true).into_iter();
        let keep = |e: &walkdir::DirEntry| !e.file_type().is_dir()
            || e.file_name().to_str().map_or(true, |n| !self.is_excluded(n));
        let mut out: Vec<WalkEntry> = Vec::new();
        for entry in walk.filter_entry(keep) {
            let Ok(e) = entry else { return None };
            let path = e.path().to_string_lossy().into_owned();
            out.push(WalkEntry { path, is_file: e.file_type().is_file() });
        }
        Some(out)
    }

    /// Selects the Python source files among walked entries.
    fn select_python_files(entries: &Vec<WalkEntry>) -> (r: Vec<String>)
        ensures
            r@.map_values(str_view()) == python_files_of(entries@.map_values(entry_view())),
    {
        let ghost ev = entries@.map_values(entry_view());
        let mut out: Vec<String> = Vec::new();
        proof {
            assert(ev.take(0) =~= Seq::<(Seq<char>, bool)>::empty());
        }
        let mut i: usize = 0;
        while i < entries.len()
            invariant
                ev == entries@.map_values(entry_view()),
                0 <= i <= entries.len(),
                out@.map_values(str_view()) == python_files_of(ev.take(i as int)),
            decreases entries.len() - i,
        {
            let ghost prior = out@.map_values(str_view());
            proof {
                assert(ev.take(i + 1).drop_last() =~= ev.take(i as int));
                assert(ev.take(i + 1).last() == ev[i as int]);
                assert(ev[i as int] == (entries@[i as int].path@, entries@[i as int].is_file));
            }
            let e = &entries[i];
            if e.is_file {
                match ext_of(e.path.as_str()) {
                    Some(ext) => {
                        if str_eq(ext.as_str(), "py") {
                            out.push(e.path.clone());
                            proof {
                                assert(is_python_file(ev[i as int]));
                                assert(out@.map_values(str_view()) =~= prior.push(
                                    ev[i as int].0));
                            }
                        } else {
                            proof {
                                assert(!is_python_file(ev[i as int]));
                            }
                        }
                    },
                    None => {
                        proof {
                            assert(!is_python_file(ev[i as int]));
                        }
                    },
                }
            } else {
                proof {
                    assert(!is_python_file(ev[i as int]));
                }
            }
            i += 1;
        }
        proof {
            assert(ev.take(entries.len() as int) =~= ev);
        }
        out
    }

    /// Finds the Python source files under `start_path`, pruning
    /// excluded directories.  Every returned path names a file whose
    /// extension is `py`; nothing comes back when traversal fails.
    pub fn find_files(&self, start_path: &str) -> (r: Option<Vec<String>>)
        ensures
            match r {
                Some(files) => forall|i: int|
                    0 <= i < files@.len() ==> file_ext((#[trigger] files@[i])@) == Some("py"@),
                None => true,
            },
    {
        match self.walk_tree(start_path) {
            Some(entries) => {
                let files = Self::select_python_files(&entries);
                proof {
                    let ghost ev = entries@.map_values(entry_view());
                    lemma_python_files_ext(ev);
                    assert forall|i: int| 0 <= i < files@.len() implies file_ext(
                        (#[trigger] files@[i])@) == Some("py"@) by {
                        assert(files@.map_values(str_view())[i] == files@[i]@);
                    }
                }
                Some(files)
            },
            None => None,
        }
    }

    /// Finds every kept entry of the tree under `start_path`, files and
    /// directories alike: an import can name either.  Nothing comes
    /// back when traversal fails.
    pub fn find_local_packages(&self, start_path: &str) -> (r: Option<Vec<String>>) {
        match self.walk_tree(start_path) {
            Some(entries) => {
                let mut out: Vec<String> = Vec::new();
                let mut i: usize = 0;
                while i < entries.len()
                    invariant
                        0 <= i <= entries.len(),
                    decreases entries.len() - i,
                {
                    out.push(entries[i].path.clone());
                    i += 1;
                }
                Some(out)
            },
            None => None,
        }
    }
}

/// Every selected Python file path has the `py` extension.
proof fn lemma_python_files_ext(entries: Seq<(Seq<char>, bool)>)
    ensures
        forall|i: int|
            0 <= i < python_files_of(entries).len() ==> file_ext(
                #[trigger] python_files_of(entries)[i],
            ) == Some("py"@),
    decreases entries.len(),
{
    if entries.len() > 0 {
        lemma_python_files_ext(entries.drop_last());
        let ps = python_files_of(entries);
        let pre = python_files_of(entries.drop_last());
        assert forall|i: int| 0 <= i < ps.len() implies file_ext(#[trigger] ps[i]) == Some(
            "py"@,
        ) by {
            if i < pre.len() {
                assert(ps[i] == pre[i]);
            } else {
                assert(is_python_file(entries.last()));
                assert(ps[i] == entries.last().0);
            }
        }
    }
}

/// The stems of a list of paths: the local package names a scan found.
pub fn local_package_names(paths: &Vec<String>) -> (r: Vec<String>)
    ensures
        r@.map_values(str_view()) == stems_of(paths@.map_values(str_view())),
{
    let ghost pv = paths@.map_values(str_view());
    let mut out: Vec<String> = Vec::new();
    let mut i: usize = 0;
    while i < paths.len()
        invariant
            pv == paths@.map_values(str_view()),
            0 <= i <= paths.len(),
            out@.map_values(str_view()) =~= stems_of(pv).take(i as int),
        decreases paths.len() - i,
    {
        let ghost prior = out@.map_values(str_view());
        let st = stem_of(paths[i].as_str());
        out.push(st);
        proof {
            assert(pv[i as int] == paths@[i as int]@);
            assert(st@ == file_stem_of(pv[i as int]));
            assert(stems_of(pv)[i as int] == file_stem_of(pv[i as int]));
            assert(out@.map_values(str_view()) =~= prior.push(st@));
            assert(stems_of(pv).take(i + 1) =~= stems_of(pv).take(i as int).push(
                stems_of(pv)[i as int]));
        }
        i += 1;
    }
    proof {
        assert(stems_of(pv).take(paths.len() as int) =~= stems_of(pv));
    }
    out
}

} // verus!
