//! Detection of which git working-state file a path refers to, from its
//! file name (`git-rebase-todo`, `COMMIT_EDITMSG`, `MERGE_MSG`, ...).

use vstd::prelude::*;

use crate::text::sub_vec;
use crate::text::to_chars;
use crate::text::chars_eq_lit;

verus! {

#[derive(Debug, Clone, PartialEq, Eq, Structural)]
pub enum GitFileType {
    RebaseTodo,
    CommitMsg,
    MergeMsg,
    SquashMsg,
    TagMsg,
    Unknown,
}

/// A file's content together with its path and detected kind.
#[derive(Debug, Clone, PartialEq)]
pub struct FileContent {
    pub path: String,
    pub content: String,
    pub file_type: GitFileType,
}

/// Index of the last occurrence of `c` in `s`.
pub open spec fn rfind_char(s: Seq<char>, c: char) -> Option<int>
    decreases s.len(),
{
    if s.len() == 0 {
        None
    } else if s.last() == c {
        Some(s.len() - 1)
    } else {
        rfind_char(s.drop_last(), c)
    }
}

/// The component after the last `/` of a path (the whole path when it has none).
pub open spec fn file_name_of(s: Seq<char>) -> Seq<char> {
    match rfind_char(s, '/') {
        Some(i) => s.skip(i + 1),
        None => s,
    }
}

pub open spec fn spec_detect_file_type(path: Seq<char>) -> GitFileType {
    let name = file_name_of(path);
    if name == "git-rebase-todo"@ {
        GitFileType::RebaseTodo
    } else if name == "COMMIT_EDITMSG"@ {
        GitFileType::CommitMsg
    } else if name == "MERGE_MSG"@ {
        GitFileType::MergeMsg
    } else if name == "SQUASH_MSG"@ {
        GitFileType::SquashMsg
    } else if name == "TAG_EDITMSG"@ {
        GitFileType::TagMsg
    } else {
        GitFileType::Unknown
    }
}

/// Last occurrence of `c` in `v`.
pub fn rfind_char_vec(v: &Vec<char>, c: char) -> (r: Option<usize>)
    ensures
        match r {
            Some(k) => rfind_char(v@, c) == Some(k as int) && k < v@.len(),
            None => rfind_char(v@, c) is None,
        },
{
    let mut i: usize = v.len();
    assert(v@.take(i as int) =~= v@);
    while i > 0
        invariant
            i <= v@.len(),
            rfind_char(v@, c) == rfind_char(v@.take(i as int), c),
        decreases i,
    {
        assert(v@.take(i as int).last() == v@[i as int - 1]);
        assert(v@.take(i as int).drop_last() =~= v@.take(i as int - 1));
        if v[i - 1] == c {
            return Some(i - 1);
        }
        i = i - 1;
    }
    assert(v@.take(0) =~= Seq::<char>::empty());
    None
}

/// Detect the git file type from a path, by its final path component.
pub fn detect_file_type(path: &str) -> (r: GitFileType)
    ensures
        r == spec_detect_file_type(path@),
{
    let chars = to_chars(path);
    let n = chars.len();
    let name = match rfind_char_vec(&chars, '/') {
        Some(i) => {
            let r = sub_vec(&chars, i + 1, n);
            assert(r@ =~= chars@.skip(i + 1));
            r
        },
        None => chars,
    };
    if chars_eq_lit(&name, "git-rebase-todo") {
        GitFileType::RebaseTodo
    } else if chars_eq_lit(&name, "COMMIT_EDITMSG") {
        GitFileType::CommitMsg
    } else if chars_eq_lit(&name, "MERGE_MSG") {
        GitFileType::MergeMsg
    } else if chars_eq_lit(&name, "SQUASH_MSG") {
        GitFileType::SquashMsg
    } else if chars_eq_lit(&name, "TAG_EDITMSG") {
        GitFileType::TagMsg
    } else {
        GitFileType::Unknown
    }
}

} // verus!
