//! Parser for `git diff-tree --no-commit-id -r --name-status` output:
//! one tab-separated line per changed file.

use vstd::prelude::*;

use crate::text::from_chars;
use crate::text::spec_split_char;
use crate::text::spec_lines;
use crate::text::split_at_char;
use crate::text::split_lines;
use crate::text::to_chars;

verus! {

/// One changed file of a commit.
#[derive(Debug, Clone, PartialEq)]
pub struct CommitFileInfo {
    pub path: String,
    pub original_path: Option<String>,
    pub status: String,
}

/// Mathematical model of a `CommitFileInfo`.
pub struct CommitFileModel {
    pub path: Seq<char>,
    pub original_path: Option<Seq<char>>,
    pub status: Seq<char>,
}

impl View for CommitFileInfo {
    type V = CommitFileModel;

    open spec fn view(&self) -> CommitFileModel {
        CommitFileModel {
            path: self.path@,
            original_path: match self.original_path {
                Some(p) => Some(p@),
                None => None,
            },
            status: self.status@,
        }
    }
}

/// What one line contributes: its first tab field's first character is the
/// status (`R100` collapses to `R`); renames and copies with three fields
/// carry old and new path; lines with fewer than two fields are skipped.
pub open spec fn diff_tree_line_entry(line: Seq<char>) -> Option<CommitFileModel> {
    if line.len() == 0 {
        None
    } else {
        let parts = spec_split_char(line, '\t');
        if parts.len() < 2 {
            None
        } else {
            let status = if parts[0].len() == 0 {
                '?'
            } else {
                parts[0][0]
            };
            if (status == 'R' || status == 'C') && parts.len() >= 3 {
                Some(
                    CommitFileModel {
                        path: parts[2],
                        original_path: Some(parts[1]),
                        status: seq![status],
                    },
                )
            } else {
                Some(
                    CommitFileModel {
                        path: parts[1],
                        original_path: None,
                        status: seq![status],
                    },
                )
            }
        }
    }
}

/// The entries of the lines processed so far, in document order.
pub open spec fn diff_tree_entries(lines: Seq<Seq<char>>) -> Seq<CommitFileModel>
    decreases lines.len(),
{
    if lines.len() == 0 {
        Seq::empty()
    } else {
        diff_tree_entries(lines.drop_last()) + match diff_tree_line_entry(lines.last()) {
            Some(m) => seq![m],
            None => Seq::empty(),
        }
    }
}

pub open spec fn spec_parse_diff_tree(text: Seq<char>) -> Seq<CommitFileModel> {
    diff_tree_entries(spec_lines(text))
}

fn diff_tree_line(line: &Vec<char>) -> (r: Option<CommitFileInfo>)
    ensures
        match r {
            Some(f) => diff_tree_line_entry(line@) == Some(f@),
            None => diff_tree_line_entry(line@) is None,
        },
{
    if line.len() == 0 {
        return None;
    }
    let parts = split_at_char(line, '\t');
    let ghost pdv = parts.deep_view();
    if parts.len() < 2 {
        return None;
    }
    assert(parts@[0]@ == pdv[0] && parts@[1]@ == pdv[1]);
    let status_char: char = if parts[0].len() == 0 {
        '?'
    } else {
        parts[0][0]
    };
    let mut status_vec: Vec<char> = Vec::new();
    status_vec.push(status_char);
    assert(status_vec@ =~= seq![status_char]);
    let status = from_chars(&status_vec);
    if (status_char == 'R' || status_char == 'C') && parts.len() >= 3 {
        assert(parts@[2]@ == pdv[2]);
        Some(
            CommitFileInfo {
                path: from_chars(&parts[2]),
                original_path: Some(from_chars(&parts[1])),
                status,
            },
        )
    } else {
        Some(CommitFileInfo { path: from_chars(&parts[1]), original_path: None, status })
    }
}

/// Parse `git diff-tree --name-status` output: one entry per line that has
/// at least two tab-separated fields, in document order.
pub fn parse_diff_tree_output(output: &str) -> (r: Vec<CommitFileInfo>)
    ensures
        r@.len() == spec_parse_diff_tree(output@).len(),
        forall|i: int|
            0 <= i < r@.len() ==> #[trigger] r@[i]@ == spec_parse_diff_tree(output@)[i],
{
    let chars = to_chars(output);
    let lines = split_lines(&chars);
    let ghost ldv = lines.deep_view();
    let ghost model = spec_parse_diff_tree(output@);
    let mut r: Vec<CommitFileInfo> = Vec::new();
    let mut i: usize = 0;
    assert(ldv.take(0) =~= Seq::<Seq<char>>::empty());
    while i < lines.len()
        invariant
            i <= lines@.len(),
            ldv == lines.deep_view(),
            ldv.len() == lines@.len(),
            model == diff_tree_entries(ldv),
            r@.len() == diff_tree_entries(ldv.take(i as int)).len(),
            forall|j: int|
                0 <= j < r@.len() ==> #[trigger] r@[j]@ == diff_tree_entries(ldv.take(i as int))[j],
        decreases lines@.len() - i,
    {
        let ghost pre1 = ldv.take(i as int + 1);
        assert(pre1.drop_last() =~~= ldv.take(i as int));
        assert(pre1.last() == ldv[i as int]);
        assert(lines@[i as int]@ == ldv[i as int]);
        match diff_tree_line(&lines[i]) {
            Some(f) => {
                r.push(f);
            },
            None => {},
        }
        assert(diff_tree_entries(pre1) == diff_tree_entries(ldv.take(i as int)) + match
            diff_tree_line_entry(ldv[i as int]) {
            Some(m) => seq![m],
            None => Seq::<CommitFileModel>::empty(),
        });
        i = i + 1;
    }
    assert(ldv.take(ldv.len() as int) =~~= ldv);
    r
}

} // verus!
