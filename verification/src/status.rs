//! Parser for `git status --porcelain=v1` output. Each line carries an
//! index and a worktree status character and a path; a line whose two
//! characters are both `?` is untracked, and a line with both an index and
//! a worktree change contributes one staged and one unstaged entry.

use vstd::prelude::*;

use crate::text::find_from;
use crate::text::find_sub;
use crate::text::from_chars;
use crate::text::spec_lines;
use crate::text::split_lines;
use crate::text::sub_vec;
use crate::text::to_chars;

verus! {

/// One file's status, as one porcelain line reports it.
#[derive(Debug, Clone, PartialEq)]
pub struct FileStatus {
    pub path: String,
    pub original_path: Option<String>,
    pub index_status: String,
    pub worktree_status: String,
}

/// Mathematical model of a `FileStatus`.
pub struct FileStatusModel {
    pub path: Seq<char>,
    pub original_path: Option<Seq<char>>,
    pub index_status: Seq<char>,
    pub worktree_status: Seq<char>,
}

impl View for FileStatus {
    type V = FileStatusModel;

    open spec fn view(&self) -> FileStatusModel {
        FileStatusModel {
            path: self.path@,
            original_path: match self.original_path {
                Some(p) => Some(p@),
                None => None,
            },
            index_status: self.index_status@,
            worktree_status: self.worktree_status@,
        }
    }
}

/// The three categorized status lists, with the repository context that the
/// caller who invoked git fills in.
#[derive(Debug, Clone, PartialEq)]
pub struct GitStatusResult {
    pub staged: Vec<FileStatus>,
    pub unstaged: Vec<FileStatus>,
    pub untracked: Vec<FileStatus>,
    pub repo_root: String,
    pub branch_name: String,
}

/// What a single porcelain line yields: `None` for lines under four
/// characters; otherwise the first two characters are the index and worktree
/// status, the text from offset 3 is the path, and for `R`/`C` index status
/// an `old -> new` path field is split at the first `" -> "`.
pub open spec fn porcelain_line_entry(line: Seq<char>) -> Option<FileStatusModel> {
    if line.len() < 4 {
        None
    } else {
        let idx = line[0];
        let wt = line[1];
        let path_part = line.skip(3);
        if (idx == 'R' || idx == 'C') && find_from(path_part, " -> "@, 0) is Some {
            let k = find_from(path_part, " -> "@, 0)->Some_0;
            Some(
                FileStatusModel {
                    path: path_part.skip(k + 4),
                    original_path: Some(path_part.take(k)),
                    index_status: seq![idx],
                    worktree_status: seq![wt],
                },
            )
        } else {
            Some(
                FileStatusModel {
                    path: path_part,
                    original_path: None,
                    index_status: seq![idx],
                    worktree_status: seq![wt],
                },
            )
        }
    }
}

/// The staged entry a line contributes: index changes other than `?` and
/// space, with the worktree column forced to a space.
pub open spec fn staged_entry(line: Seq<char>) -> Option<FileStatusModel> {
    match porcelain_line_entry(line) {
        None => None,
        Some(st) => {
            let idx = st.index_status[0];
            let wt = st.worktree_status[0];
            if idx == '?' && wt == '?' {
                None
            } else if idx != ' ' && idx != '?' {
                Some(
                    FileStatusModel {
                        path: st.path,
                        original_path: st.original_path,
                        index_status: st.index_status,
                        worktree_status: seq![' '],
                    },
                )
            } else {
                None
            }
        },
    }
}

/// The unstaged entry a line contributes: worktree changes other than `?`
/// and space, with the index column forced to a space and no original path.
pub open spec fn unstaged_entry(line: Seq<char>) -> Option<FileStatusModel> {
    match porcelain_line_entry(line) {
        None => None,
        Some(st) => {
            let idx = st.index_status[0];
            let wt = st.worktree_status[0];
            if idx == '?' && wt == '?' {
                None
            } else if wt != ' ' && wt != '?' {
                Some(
                    FileStatusModel {
                        path: st.path,
                        original_path: None,
                        index_status: seq![' '],
                        worktree_status: st.worktree_status,
                    },
                )
            } else {
                None
            }
        },
    }
}

/// The untracked entry a line contributes: both columns `?`.
pub open spec fn untracked_entry(line: Seq<char>) -> Option<FileStatusModel> {
    match porcelain_line_entry(line) {
        None => None,
        Some(st) => {
            if st.index_status[0] == '?' && st.worktree_status[0] == '?' {
                Some(st)
            } else {
                None
            }
        },
    }
}

/// Entries contributed by a line sequence under one of the three entry maps.
pub open spec fn collected_entries(
    lines: Seq<Seq<char>>,
    f: spec_fn(Seq<char>) -> Option<FileStatusModel>,
) -> Seq<FileStatusModel>
    decreases lines.len(),
{
    if lines.len() == 0 {
        Seq::empty()
    } else {
        collected_entries(lines.drop_last(), f) + match f(lines.last()) {
            Some(m) => seq![m],
            None => Seq::empty(),
        }
    }
}

/// Parse one porcelain-v1 line.
pub fn parse_porcelain_line(line: &str) -> (r: Option<FileStatus>)
    ensures
        match r {
            Some(f) => porcelain_line_entry(line@) == Some(f@),
            None => porcelain_line_entry(line@) is None,
        },
{
    let chars = to_chars(line);
    parse_porcelain_line_chars(&chars)
}

fn parse_porcelain_line_chars(chars: &Vec<char>) -> (r: Option<FileStatus>)
    ensures
        match r {
            Some(f) => porcelain_line_entry(chars@) == Some(f@),
            None => porcelain_line_entry(chars@) is None,
        },
{
    let n = chars.len();
    if n < 4 {
        return None;
    }
    let idx = chars[0];
    let wt = chars[1];
    let path_part = sub_vec(chars, 3, n);
    assert(path_part@ =~= chars@.skip(3));
    let mut idx_vec: Vec<char> = Vec::new();
    idx_vec.push(idx);
    let mut wt_vec: Vec<char> = Vec::new();
    wt_vec.push(wt);
    assert(idx_vec@ =~= seq![idx]);
    assert(wt_vec@ =~= seq![wt]);
    let index_status = from_chars(&idx_vec);
    let worktree_status = from_chars(&wt_vec);
    if idx == 'R' || idx == 'C' {
        proof {
            reveal_strlit(" -> ");
        }
        match find_sub(&path_part, " -> ") {
            Some(k) => {
                let orig = sub_vec(&path_part, 0, k);
                let new_path = sub_vec(&path_part, k + 4, path_part.len());
                assert(orig@ =~= path_part@.take(k as int));
                assert(new_path@ =~= path_part@.skip(k as int + 4));
                return Some(
                    FileStatus {
                        path: from_chars(&new_path),
                        original_path: Some(from_chars(&orig)),
                        index_status,
                        worktree_status,
                    },
                );
            },
            None => {
                return Some(
                    FileStatus {
                        path: from_chars(&path_part),
                        original_path: None,
                        index_status,
                        worktree_status,
                    },
                );
            },
        }
    }
    Some(
        FileStatus {
            path: from_chars(&path_part),
            original_path: None,
            index_status,
            worktree_status,
        },
    )
}

/// Parse full porcelain-v1 output into (staged, unstaged, untracked), each
/// in document order; a line with both an index and a worktree change
/// contributes to both of the first two lists.
pub fn parse_porcelain_status(output: &str) -> (r: (
    Vec<FileStatus>,
    Vec<FileStatus>,
    Vec<FileStatus>,
))
    ensures
        ({
            let lines = spec_lines(output@);
            &&& r.0@.len() == collected_entries(lines, |l: Seq<char>| staged_entry(l)).len()
            &&& forall|i: int|
                0 <= i < r.0@.len() ==> #[trigger] r.0@[i]@ == collected_entries(
                    lines,
                    |l: Seq<char>| staged_entry(l),
                )[i]
            &&& r.1@.len() == collected_entries(lines, |l: Seq<char>| unstaged_entry(l)).len()
            &&& forall|i: int|
                0 <= i < r.1@.len() ==> #[trigger] r.1@[i]@ == collected_entries(
                    lines,
                    |l: Seq<char>| unstaged_entry(l),
                )[i]
            &&& r.2@.len() == collected_entries(lines, |l: Seq<char>| untracked_entry(l)).len()
            &&& forall|i: int|
                0 <= i < r.2@.len() ==> #[trigger] r.2@[i]@ == collected_entries(
                    lines,
                    |l: Seq<char>| untracked_entry(l),
                )[i]
        }),
{
    let chars = to_chars(output);
    let lines = split_lines(&chars);
    let ghost ldv = lines.deep_view();
    let ghost fs = |l: Seq<char>| staged_entry(l);
    let ghost fu = |l: Seq<char>| unstaged_entry(l);
    let ghost ft = |l: Seq<char>| untracked_entry(l);
    let mut staged: Vec<FileStatus> = Vec::new();
    let mut unstaged: Vec<FileStatus> = Vec::new();
    let mut untracked: Vec<FileStatus> = Vec::new();
    let mut i: usize = 0;
    assert(ldv.take(0) =~= Seq::<Seq<char>>::empty());
    while i < lines.len()
        invariant
            i <= lines@.len(),
            ldv == lines.deep_view(),
            ldv.len() == lines@.len(),
            fs == (|l: Seq<char>| staged_entry(l)),
            fu == (|l: Seq<char>| unstaged_entry(l)),
            ft == (|l: Seq<char>| untracked_entry(l)),
            staged@.len() == collected_entries(ldv.take(i as int), fs).len(),
            forall|j: int|
                0 <= j < staged@.len() ==> #[trigger] staged@[j]@ == collected_entries(
                    ldv.take(i as int),
                    fs,
                )[j],
            unstaged@.len() == collected_entries(ldv.take(i as int), fu).len(),
            forall|j: int|
                0 <= j < unstaged@.len() ==> #[trigger] unstaged@[j]@ == collected_entries(
                    ldv.take(i as int),
                    fu,
                )[j],
            untracked@.len() == collected_entries(ldv.take(i as int), ft).len(),
            forall|j: int|
                0 <= j < untracked@.len() ==> #[trigger] untracked@[j]@ == collected_entries(
                    ldv.take(i as int),
                    ft,
                )[j],
        decreases lines@.len() - i,
    {
        let ghost pre1 = ldv.take(i as int + 1);
        assert(pre1.drop_last() =~~= ldv.take(i as int));
        assert(pre1.last() == ldv[i as int]);
        assert(lines@[i as int]@ == ldv[i as int]);
        let line = &lines[i];
        if line.len() != 0 {
            match parse_porcelain_line_chars(line) {
                Some(status) => {
                    let idx = status.index_status.as_str().get_char(0);
                    let wt = status.worktree_status.as_str().get_char(0);
                    if idx == '?' && wt == '?' {
                        untracked.push(status);
                    } else {
                        if idx != ' ' && idx != '?' {
                            let mut sp: Vec<char> = Vec::new();
                            sp.push(' ');
                            assert(sp@ =~= seq![' ']);
                            staged.push(
                                FileStatus {
                                    path: status.path.clone(),
                                    original_path: status.original_path.clone(),
                                    index_status: status.index_status.clone(),
                                    worktree_status: from_chars(&sp),
                                },
                            );
                        }
                        if wt != ' ' && wt != '?' {
                            let mut sp: Vec<char> = Vec::new();
                            sp.push(' ');
                            assert(sp@ =~= seq![' ']);
                            unstaged.push(
                                FileStatus {
                                    path: status.path.clone(),
                                    original_path: None,
                                    index_status: from_chars(&sp),
                                    worktree_status: status.worktree_status.clone(),
                                },
                            );
                        }
                    }
                },
                None => {},
            }
        } else {
            assert(porcelain_line_entry(ldv[i as int]) is None);
        }
        assert(collected_entries(pre1, fs) == collected_entries(ldv.take(i as int), fs) + match fs(
            ldv[i as int],
        ) {
            Some(m) => seq![m],
            None => Seq::<FileStatusModel>::empty(),
        });
        assert(collected_entries(pre1, fu) == collected_entries(ldv.take(i as int), fu) + match fu(
            ldv[i as int],
        ) {
            Some(m) => seq![m],
            None => Seq::<FileStatusModel>::empty(),
        });
        assert(collected_entries(pre1, ft) == collected_entries(ldv.take(i as int), ft) + match ft(
            ldv[i as int],
        ) {
            Some(m) => seq![m],
            None => Seq::<FileStatusModel>::empty(),
        });
        i = i + 1;
    }
    assert(ldv.take(ldv.len() as int) =~~= ldv);
    (staged, unstaged, untracked)
}

} // verus!
