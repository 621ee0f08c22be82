//! Escaping of strings for embedding in a double-quoted shell argument or
//! an AppleScript string literal.

use vstd::prelude::*;

use crate::text::from_chars;
use crate::text::to_chars;

verus! {

/// How one character is escaped inside a double-quoted shell argument:
/// backslash, double quote, dollar and backtick get a leading backslash.
pub open spec fn shell_escape_char(c: char) -> Seq<char> {
    if c == '\\' {
        seq!['\\', '\\']
    } else if c == '"' {
        seq!['\\', '"']
    } else if c == '$' {
        seq!['\\', '$']
    } else if c == '`' {
        seq!['\\', '`']
    } else {
        seq![c]
    }
}

/// `s` with every character shell-escaped, in order.
pub open spec fn shell_escaped(s: Seq<char>) -> Seq<char>
    decreases s.len(),
{
    if s.len() == 0 {
        Seq::empty()
    } else {
        shell_escaped(s.drop_last()) + shell_escape_char(s.last())
    }
}

/// How one character is escaped inside an AppleScript string literal:
/// backslash and double quote get a leading backslash.
pub open spec fn applescript_escape_char(c: char) -> Seq<char> {
    if c == '\\' {
        seq!['\\', '\\']
    } else if c == '"' {
        seq!['\\', '"']
    } else {
        seq![c]
    }
}

pub open spec fn applescript_escaped(s: Seq<char>) -> Seq<char>
    decreases s.len(),
{
    if s.len() == 0 {
        Seq::empty()
    } else {
        applescript_escaped(s.drop_last()) + applescript_escape_char(s.last())
    }
}

/// Escape a string for use inside a double-quoted shell argument.
pub fn shell_escape(s: &str) -> (r: String)
    ensures
        r@ == shell_escaped(s@),
{
    let chars = to_chars(s);
    let mut out: Vec<char> = Vec::new();
    let mut i: usize = 0;
    assert(chars@.take(0) =~= Seq::<char>::empty());
    while i < chars.len()
        invariant
            i <= chars@.len(),
            chars@ == s@,
            out@ == shell_escaped(chars@.take(i as int)),
        decreases chars@.len() - i,
    {
        let ghost pre1 = chars@.take(i as int + 1);
        assert(pre1.drop_last() =~= chars@.take(i as int));
        assert(pre1.last() == chars@[i as int]);
        let c = chars[i];
        if c == '\\' {
            out.push('\\');
            out.push('\\');
        } else if c == '"' {
            out.push('\\');
            out.push('"');
        } else if c == '$' {
            out.push('\\');
            out.push('$');
        } else if c == '`' {
            out.push('\\');
            out.push('`');
        } else {
            out.push(c);
        }
        assert(out@ =~= shell_escaped(pre1));
        i = i + 1;
    }
    assert(chars@.take(chars@.len() as int) =~= chars@);
    from_chars(&out)
}

/// Escape a string for use inside an AppleScript double-quoted string.
pub fn escape_applescript(s: &str) -> (r: String)
    ensures
        r@ == applescript_escaped(s@),
{
    let chars = to_chars(s);
    let mut out: Vec<char> = Vec::new();
    let mut i: usize = 0;
    assert(chars@.take(0) =~= Seq::<char>::empty());
    while i < chars.len()
        invariant
            i <= chars@.len(),
            chars@ == s@,
            out@ == applescript_escaped(chars@.take(i as int)),
        decreases chars@.len() - i,
    {
        let ghost pre1 = chars@.take(i as int + 1);
        assert(pre1.drop_last() =~= chars@.take(i as int));
        assert(pre1.last() == chars@[i as int]);
        let c = chars[i];
        if c == '\\' {
            out.push('\\');
            out.push('\\');
        } else if c == '"' {
            out.push('\\');
            out.push('"');
        } else {
            out.push(c);
        }
        assert(out@ =~= applescript_escaped(pre1));
        i = i + 1;
    }
    assert(chars@.take(chars@.len() as int) =~= chars@);
    from_chars(&out)
}

} // verus!
