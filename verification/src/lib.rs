//! Verified parsers and serializers for git working-state text formats:
//! merge-conflict markers, rebase-todo scripts, commit messages, and the
//! output of `git status --porcelain=v1`, `git diff-tree --name-status`,
//! and `git blame --line-porcelain`.

pub mod blame;
pub mod commit;
pub mod conflict;
pub mod date;
pub mod detector;
pub mod diff_tree;
pub mod error;
pub mod escape;
pub mod merge;
pub mod rebase;
pub mod status;
pub mod text;
