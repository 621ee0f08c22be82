//! Character-level text primitives shared by all parsers: line splitting,
//! trimming, prefix tests, and conversions between `&str`/`String` and
//! `Vec<char>`, each specified over `Seq<char>` views.

use vstd::prelude::*;
use vstd::string::StrSliceExecFns;

verus! {

/// The Unicode `White_Space` characters, as recognized by `char::is_whitespace`.
pub open spec fn is_ws(c: char) -> bool {
    c == ' ' || c == '\t' || c == '\n' || c == '\u{B}' || c == '\u{C}' || c == '\r'
        || c == '\u{85}' || c == '\u{A0}' || c == '\u{1680}'
        || ('\u{2000}' <= c && c <= '\u{200A}')
        || c == '\u{2028}' || c == '\u{2029}' || c == '\u{202F}' || c == '\u{205F}'
        || c == '\u{3000}'
}

pub fn is_ws_char(c: char) -> (r: bool)
    ensures
        r == is_ws(c),
{
    c == ' ' || c == '\t' || c == '\n' || c == '\u{B}' || c == '\u{C}' || c == '\r'
        || c == '\u{85}' || c == '\u{A0}' || c == '\u{1680}'
        || ('\u{2000}' <= c && c <= '\u{200A}')
        || c == '\u{2028}' || c == '\u{2029}' || c == '\u{202F}' || c == '\u{205F}'
        || c == '\u{3000}'
}

/// Collect the characters of a string slice.
pub fn to_chars(s: &str) -> (r: Vec<char>)
    ensures
        r@ == s@,
{
    let n = s.unicode_len();
    let mut r: Vec<char> = Vec::new();
    let mut i: usize = 0;
    while i < n
        invariant
            i <= n,
            n == s@.len(),
            r@ == s@.take(i as int),
        decreases n - i,
    {
        r.push(s.get_char(i));
        assert(r@ =~= s@.take(i + 1 as int));
        i = i + 1;
    }
    assert(s@.take(n as int) =~= s@);
    r
}

/// Relies on `String`'s `FromIterator<char>` impl (via `Iterator::collect`):
/// the collected string holds exactly the iterated characters, in order.
#[verifier::external_body]
pub(crate) fn from_chars(v: &Vec<char>) -> (r: String)
    ensures
        r@ == v@,
{
    v.iter().collect()
}

/// A line's trailing carriage return, removed when the line was ended by "\r\n".
pub open spec fn strip_cr(l: Seq<char>) -> Seq<char> {
    if l.len() > 0 && l.last() == '\r' {
        l.drop_last()
    } else {
        l
    }
}

/// Line splitting with the semantics of `str::lines`: `cur` is the partial
/// line accumulated so far, `rest` the text not yet scanned.
pub open spec fn lines_from(cur: Seq<char>, rest: Seq<char>) -> Seq<Seq<char>>
    decreases rest.len(),
{
    if rest.len() == 0 {
        if cur.len() == 0 {
            Seq::empty()
        } else {
            seq![cur]
        }
    } else if rest[0] == '\n' {
        seq![strip_cr(cur)] + lines_from(Seq::empty(), rest.drop_first())
    } else {
        lines_from(cur.push(rest[0]), rest.drop_first())
    }
}

/// The lines of `s`, as `str::lines` yields them: terminated by `"\n"` or
/// `"\r\n"` (the terminator is dropped), with an optional final unterminated line.
pub open spec fn spec_lines(s: Seq<char>) -> Seq<Seq<char>> {
    lines_from(Seq::empty(), s)
}

/// Split text into lines, mirroring `str::lines`.
pub fn split_lines(text: &Vec<char>) -> (r: Vec<Vec<char>>)
    ensures
        r.deep_view() == spec_lines(text@),
{
    let mut r: Vec<Vec<char>> = Vec::new();
    let mut cur: Vec<char> = Vec::new();
    let mut i: usize = 0;
    assert(text@.skip(0) =~= text@);
    assert(r.deep_view() + lines_from(cur@, text@) =~~= spec_lines(text@));
    while i < text.len()
        invariant
            i <= text@.len(),
            spec_lines(text@) == r.deep_view() + lines_from(cur@, text@.skip(i as int)),
        decreases text@.len() - i,
    {
        let ghost rest = text@.skip(i as int);
        let ghost prev_r = r.deep_view();
        let ghost prev_cur = cur@;
        assert(rest.len() > 0);
        assert(rest[0] == text@[i as int]);
        assert(rest.drop_first() =~= text@.skip(i as int + 1));
        let c = text[i];
        if c == '\n' {
            let mut line = cur;
            cur = Vec::new();
            if line.len() > 0 && line[line.len() - 1] == '\r' {
                let _ = line.pop();
            }
            assert(line@ == strip_cr(prev_cur));
            r.push(line);
            assert(r.deep_view() =~~= prev_r.push(strip_cr(prev_cur)));
            assert(lines_from(prev_cur, rest) == seq![strip_cr(prev_cur)] + lines_from(
                cur@,
                rest.drop_first(),
            ));
            assert(r.deep_view() + lines_from(cur@, text@.skip(i as int + 1)) =~~= prev_r
                + lines_from(prev_cur, rest));
        } else {
            cur.push(c);
            assert(lines_from(prev_cur, rest) == lines_from(prev_cur.push(c), rest.drop_first()));
        }
        i = i + 1;
    }
    assert(text@.skip(text@.len() as int) =~= Seq::<char>::empty());
    let ghost prev_r = r.deep_view();
    let ghost last = cur@;
    if cur.len() > 0 {
        r.push(cur);
        assert(lines_from(last, Seq::empty()) == seq![last]);
        assert(r.deep_view() =~~= prev_r.push(last));
        assert(r.deep_view() =~~= prev_r + lines_from(last, Seq::empty()));
    } else {
        assert(prev_r + lines_from(last, Seq::empty()) =~~= prev_r);
    }
    r
}

/// Leading whitespace removed, as `str::trim_start`.
pub open spec fn trim_start_spec(s: Seq<char>) -> Seq<char>
    decreases s.len(),
{
    if s.len() > 0 && is_ws(s[0]) {
        trim_start_spec(s.drop_first())
    } else {
        s
    }
}

/// Trailing whitespace removed, as `str::trim_end`.
pub open spec fn trim_end_spec(s: Seq<char>) -> Seq<char>
    decreases s.len(),
{
    if s.len() > 0 && is_ws(s.last()) {
        trim_end_spec(s.drop_last())
    } else {
        s
    }
}

/// Both ends trimmed, as `str::trim`.
pub open spec fn trim_spec(s: Seq<char>) -> Seq<char> {
    trim_end_spec(trim_start_spec(s))
}

/// Copy of `v[from..to]`.
pub fn sub_vec(v: &Vec<char>, from: usize, to: usize) -> (r: Vec<char>)
    requires
        from <= to <= v@.len(),
    ensures
        r@ == v@.subrange(from as int, to as int),
{
    let mut r: Vec<char> = Vec::new();
    let mut i: usize = from;
    while i < to
        invariant
            from <= i <= to <= v@.len(),
            r@ == v@.subrange(from as int, i as int),
        decreases to - i,
    {
        r.push(v[i]);
        assert(r@ =~= v@.subrange(from as int, i as int + 1));
        i = i + 1;
    }
    r
}

/// Trim whitespace from both ends, as `str::trim`.
pub fn trim(v: &Vec<char>) -> (r: Vec<char>)
    ensures
        r@ == trim_spec(v@),
{
    let mut lo: usize = 0;
    assert(v@.skip(0) =~= v@);
    while lo < v.len() && is_ws_char(v[lo])
        invariant
            lo <= v@.len(),
            trim_start_spec(v@) == trim_start_spec(v@.skip(lo as int)),
        decreases v@.len() - lo,
    {
        assert(v@.skip(lo as int).drop_first() =~= v@.skip(lo as int + 1));
        lo = lo + 1;
    }
    assert(trim_start_spec(v@.skip(lo as int)) == v@.skip(lo as int));
    let ghost t = v@.skip(lo as int);
    let mut hi: usize = v.len();
    assert(v@.subrange(lo as int, hi as int) =~= t);
    while hi > lo && is_ws_char(v[hi - 1])
        invariant
            lo <= hi <= v@.len(),
            trim_end_spec(t) == trim_end_spec(v@.subrange(lo as int, hi as int)),
        decreases hi,
    {
        assert(v@.subrange(lo as int, hi as int).drop_last() =~= v@.subrange(
            lo as int,
            hi as int - 1,
        ));
        hi = hi - 1;
    }
    assert(trim_end_spec(v@.subrange(lo as int, hi as int)) == v@.subrange(lo as int, hi as int));
    sub_vec(v, lo, hi)
}

/// `p` is a prefix of `s`.
pub open spec fn has_prefix(s: Seq<char>, p: Seq<char>) -> bool {
    p.len() <= s.len() && s.take(p.len() as int) == p
}

/// Prefix test against a string slice, as `str::starts_with`.
pub fn starts_with_lit(v: &Vec<char>, p: &str) -> (r: bool)
    ensures
        r == has_prefix(v@, p@),
{
    let n = p.unicode_len();
    if n > v.len() {
        return false;
    }
    let mut i: usize = 0;
    while i < n
        invariant
            i <= n,
            n == p@.len(),
            n <= v@.len(),
            forall|j: int| 0 <= j < i ==> v@[j] == p@[j],
        decreases n - i,
    {
        if v[i] != p.get_char(i) {
            assert(v@.take(p@.len() as int)[i as int] != p@[i as int]);
            return false;
        }
        i = i + 1;
    }
    assert(v@.take(p@.len() as int) =~= p@);
    true
}

/// Character-for-character equality with a string slice.
pub fn chars_eq_lit(v: &Vec<char>, p: &str) -> (r: bool)
    ensures
        r == (v@ == p@),
{
    let n = p.unicode_len();
    if n != v.len() {
        return false;
    }
    let mut i: usize = 0;
    while i < n
        invariant
            i <= n,
            n == p@.len(),
            n == v@.len(),
            forall|j: int| 0 <= j < i ==> v@[j] == p@[j],
        decreases n - i,
    {
        if v[i] != p.get_char(i) {
            return false;
        }
        i = i + 1;
    }
    assert(v@ =~= p@);
    true
}

/// Index of the first occurrence of `p` in `s` at or after `i`.
pub open spec fn find_from(s: Seq<char>, p: Seq<char>, i: int) -> Option<int>
    decreases s.len() - i,
{
    if i < 0 || i + p.len() > s.len() {
        None
    } else if p.len() == 0 || s.subrange(i, i + p.len()) == p {
        Some(i)
    } else {
        find_from(s, p, i + 1)
    }
}

fn match_at(v: &Vec<char>, p: &str, i: usize) -> (r: bool)
    requires
        i + p@.len() <= v@.len(),
    ensures
        r == (v@.subrange(i as int, i as int + p@.len() as int) == p@),
{
    let n = p.unicode_len();
    let vlen = v.len();
    let mut j: usize = 0;
    while j < n
        invariant
            j <= n,
            n == p@.len(),
            i + n <= v@.len(),
            vlen == v@.len(),
            forall|k: int| 0 <= k < j ==> v@[i + k] == p@[k],
        decreases n - j,
    {
        if v[i + j] != p.get_char(j) {
            assert(v@.subrange(i as int, i as int + p@.len() as int)[j as int] != p@[j as int]);
            return false;
        }
        j = j + 1;
    }
    assert(v@.subrange(i as int, i as int + p@.len() as int) =~= p@);
    true
}

/// First occurrence of `p` in `v`, as `str::find` with a literal pattern.
pub fn find_sub(v: &Vec<char>, p: &str) -> (r: Option<usize>)
    ensures
        match r {
            Some(k) => find_from(v@, p@, 0) == Some(k as int) && k + p@.len() <= v@.len(),
            None => find_from(v@, p@, 0) is None,
        },
{
    let n = p.unicode_len();
    if n > v.len() {
        return None;
    }
    if n == 0 {
        assert(v@.subrange(0, 0) =~= p@);
        return Some(0);
    }
    let mut i: usize = 0;
    while i <= v.len() - n
        invariant
            n == p@.len(),
            1 <= n <= v@.len(),
            i <= v@.len() - n + 1,
            find_from(v@, p@, 0) == find_from(v@, p@, i as int),
        decreases v@.len() - i,
    {
        if match_at(v, p, i) {
            return Some(i);
        }
        i = i + 1;
    }
    None
}

/// Splitting on a separator character, as `str::split(sep)`: empty fields kept.
pub open spec fn split_char_from(cur: Seq<char>, rest: Seq<char>, sep: char) -> Seq<Seq<char>>
    decreases rest.len(),
{
    if rest.len() == 0 {
        seq![cur]
    } else if rest[0] == sep {
        seq![cur] + split_char_from(Seq::empty(), rest.drop_first(), sep)
    } else {
        split_char_from(cur.push(rest[0]), rest.drop_first(), sep)
    }
}

pub open spec fn spec_split_char(s: Seq<char>, sep: char) -> Seq<Seq<char>> {
    split_char_from(Seq::empty(), s, sep)
}

/// Split on a separator character, mirroring `str::split(sep)`.
pub fn split_at_char(v: &Vec<char>, sep: char) -> (r: Vec<Vec<char>>)
    ensures
        r.deep_view() == spec_split_char(v@, sep),
{
    let mut r: Vec<Vec<char>> = Vec::new();
    let mut cur: Vec<char> = Vec::new();
    let mut i: usize = 0;
    assert(v@.skip(0) =~= v@);
    assert(r.deep_view() + split_char_from(cur@, v@, sep) =~~= spec_split_char(v@, sep));
    while i < v.len()
        invariant
            i <= v@.len(),
            spec_split_char(v@, sep) == r.deep_view() + split_char_from(
                cur@,
                v@.skip(i as int),
                sep,
            ),
        decreases v@.len() - i,
    {
        let ghost rest = v@.skip(i as int);
        let ghost prev_r = r.deep_view();
        let ghost prev_cur = cur@;
        assert(rest[0] == v@[i as int]);
        assert(rest.drop_first() =~= v@.skip(i as int + 1));
        let c = v[i];
        if c == sep {
            let line = cur;
            cur = Vec::new();
            r.push(line);
            assert(r.deep_view() =~~= prev_r.push(prev_cur));
            assert(r.deep_view() + split_char_from(cur@, v@.skip(i as int + 1), sep) =~~= prev_r
                + split_char_from(prev_cur, rest, sep));
        } else {
            cur.push(c);
        }
        i = i + 1;
    }
    assert(v@.skip(v@.len() as int) =~= Seq::<char>::empty());
    let ghost prev_r = r.deep_view();
    let ghost last = cur@;
    r.push(cur);
    assert(r.deep_view() =~~= prev_r.push(last));
    assert(r.deep_view() =~~= prev_r + split_char_from(last, Seq::empty(), sep));
    r
}

/// Splitting on whitespace runs, as `str::split_whitespace`: no empty tokens.
pub open spec fn split_ws_from(cur: Seq<char>, rest: Seq<char>) -> Seq<Seq<char>>
    decreases rest.len(),
{
    if rest.len() == 0 {
        if cur.len() == 0 {
            Seq::empty()
        } else {
            seq![cur]
        }
    } else if is_ws(rest[0]) {
        if cur.len() == 0 {
            split_ws_from(Seq::empty(), rest.drop_first())
        } else {
            seq![cur] + split_ws_from(Seq::empty(), rest.drop_first())
        }
    } else {
        split_ws_from(cur.push(rest[0]), rest.drop_first())
    }
}

pub open spec fn spec_split_ws(s: Seq<char>) -> Seq<Seq<char>> {
    split_ws_from(Seq::empty(), s)
}

/// Split on whitespace, mirroring `str::split_whitespace`.
pub fn split_whitespace(v: &Vec<char>) -> (r: Vec<Vec<char>>)
    ensures
        r.deep_view() == spec_split_ws(v@),
{
    let mut r: Vec<Vec<char>> = Vec::new();
    let mut cur: Vec<char> = Vec::new();
    let mut i: usize = 0;
    assert(v@.skip(0) =~= v@);
    assert(r.deep_view() + split_ws_from(cur@, v@) =~~= spec_split_ws(v@));
    while i < v.len()
        invariant
            i <= v@.len(),
            spec_split_ws(v@) == r.deep_view() + split_ws_from(cur@, v@.skip(i as int)),
        decreases v@.len() - i,
    {
        let ghost rest = v@.skip(i as int);
        let ghost prev_r = r.deep_view();
        let ghost prev_cur = cur@;
        assert(rest[0] == v@[i as int]);
        assert(rest.drop_first() =~= v@.skip(i as int + 1));
        let c = v[i];
        if is_ws_char(c) {
            if cur.len() > 0 {
                let tok = cur;
                cur = Vec::new();
                r.push(tok);
                assert(r.deep_view() =~~= prev_r.push(prev_cur));
                assert(r.deep_view() + split_ws_from(cur@, v@.skip(i as int + 1)) =~~= prev_r
                    + split_ws_from(prev_cur, rest));
            } else {
                assert(prev_cur =~= Seq::<char>::empty());
                assert(split_ws_from(prev_cur, rest) == split_ws_from(
                    Seq::empty(),
                    rest.drop_first(),
                ));
            }
        } else {
            cur.push(c);
        }
        i = i + 1;
    }
    assert(v@.skip(v@.len() as int) =~= Seq::<char>::empty());
    let ghost prev_r = r.deep_view();
    let ghost last = cur@;
    if cur.len() > 0 {
        r.push(cur);
        assert(r.deep_view() =~~= prev_r.push(last));
        assert(r.deep_view() =~~= prev_r + split_ws_from(last, Seq::empty()));
    } else {
        assert(prev_r + split_ws_from(last, Seq::empty()) =~~= prev_r);
    }
    r
}

/// One whitespace split, as one step of `str::splitn(_, char::is_whitespace)`:
/// the part before the first whitespace character, and what follows it.
pub open spec fn split_once_ws_from(cur: Seq<char>, rest: Seq<char>) -> (Seq<char>, Option<
    Seq<char>,
>)
    decreases rest.len(),
{
    if rest.len() == 0 {
        (cur, None::<Seq<char>>)
    } else if is_ws(rest[0]) {
        (cur, Some(rest.drop_first()))
    } else {
        split_once_ws_from(cur.push(rest[0]), rest.drop_first())
    }
}

pub open spec fn spec_split_once_ws(s: Seq<char>) -> (Seq<char>, Option<Seq<char>>) {
    split_once_ws_from(Seq::empty(), s)
}

/// Split at the first whitespace character.
pub fn split_once_ws(v: &Vec<char>) -> (r: (Vec<char>, Option<Vec<char>>))
    ensures
        r.0@ == spec_split_once_ws(v@).0,
        match r.1 {
            Some(t) => spec_split_once_ws(v@).1 == Some(t@),
            None => spec_split_once_ws(v@).1 is None,
        },
{
    let mut i: usize = 0;
    assert(v@.skip(0) =~= v@);
    assert(v@.take(0int) =~= Seq::<char>::empty());
    while i < v.len()
        invariant
            i <= v@.len(),
            forall|j: int| 0 <= j < i ==> !is_ws(v@[j]),
            spec_split_once_ws(v@) == split_once_ws_from(
                v@.take(i as int),
                v@.skip(i as int),
            ),
        decreases v@.len() - i,
    {
        let ghost rest = v@.skip(i as int);
        assert(rest[0] == v@[i as int]);
        assert(rest.drop_first() =~= v@.skip(i as int + 1));
        if is_ws_char(v[i]) {
            let before = sub_vec(v, 0, i);
            let after = sub_vec(v, i + 1, v.len());
            assert(before@ =~= v@.take(i as int));
            assert(after@ =~= v@.skip(i as int).drop_first());
            return (before, Some(after));
        }
        assert(v@.take(i as int).push(v@[i as int]) =~= v@.take(i as int + 1));
        i = i + 1;
    }
    assert(v@.take(v@.len() as int) =~= v@);
    assert(v@.skip(v@.len() as int) =~= Seq::<char>::empty());
    let whole = sub_vec(v, 0, v.len());
    assert(whole@ =~= v@);
    (whole, None)
}

/// Split at the first occurrence of a character, as `str::split_once`.
pub open spec fn split_once_char_from(cur: Seq<char>, rest: Seq<char>, sep: char) -> (Seq<char>,
    Option<Seq<char>>)
    decreases rest.len(),
{
    if rest.len() == 0 {
        (cur, None::<Seq<char>>)
    } else if rest[0] == sep {
        (cur, Some(rest.drop_first()))
    } else {
        split_once_char_from(cur.push(rest[0]), rest.drop_first(), sep)
    }
}

pub open spec fn spec_split_once_char(s: Seq<char>, sep: char) -> (Seq<char>, Option<Seq<char>>) {
    split_once_char_from(Seq::empty(), s, sep)
}

pub fn split_once_at_char(v: &Vec<char>, sep: char) -> (r: (Vec<char>, Option<Vec<char>>))
    ensures
        r.0@ == spec_split_once_char(v@, sep).0,
        match r.1 {
            Some(t) => spec_split_once_char(v@, sep).1 == Some(t@),
            None => spec_split_once_char(v@, sep).1 is None,
        },
{
    let mut i: usize = 0;
    assert(v@.skip(0) =~= v@);
    assert(v@.take(0int) =~= Seq::<char>::empty());
    while i < v.len()
        invariant
            i <= v@.len(),
            spec_split_once_char(v@, sep) == split_once_char_from(
                v@.take(i as int),
                v@.skip(i as int),
                sep,
            ),
        decreases v@.len() - i,
    {
        let ghost rest = v@.skip(i as int);
        assert(rest[0] == v@[i as int]);
        assert(rest.drop_first() =~= v@.skip(i as int + 1));
        if v[i] == sep {
            let before = sub_vec(v, 0, i);
            let after = sub_vec(v, i + 1, v.len());
            assert(before@ =~= v@.take(i as int));
            assert(after@ =~= v@.skip(i as int).drop_first());
            return (before, Some(after));
        }
        assert(v@.take(i as int).push(v@[i as int]) =~= v@.take(i as int + 1));
        i = i + 1;
    }
    assert(v@.take(v@.len() as int) =~= v@);
    let whole = sub_vec(v, 0, v.len());
    assert(whole@ =~= v@);
    (whole, None)
}

/// Joining parts with a separator, as `[_]::join`.
pub open spec fn join_with(parts: Seq<Seq<char>>, sep: Seq<char>) -> Seq<char>
    decreases parts.len(),
{
    if parts.len() == 0 {
        Seq::empty()
    } else if parts.len() == 1 {
        parts[0]
    } else {
        parts[0] + sep + join_with(parts.drop_first(), sep)
    }
}

pub proof fn lemma_join_push(ps: Seq<Seq<char>>, p: Seq<char>, sep: Seq<char>)
    ensures
        join_with(ps.push(p), sep) == if ps.len() == 0 {
            p
        } else {
            join_with(ps, sep) + sep + p
        },
    decreases ps.len(),
{
    if ps.len() == 0 {
        assert(ps.push(p).len() == 1);
        assert(ps.push(p)[0] == p);
    } else if ps.len() == 1 {
        assert(ps.push(p).drop_first() =~~= ps.drop_first().push(p));
        lemma_join_push(ps.drop_first(), p, sep);
        assert(ps.drop_first().push(p)[0] == p);
        assert(join_with(ps.push(p), sep) == ps[0] + sep + p);
    } else {
        lemma_join_push(ps.drop_first(), p, sep);
        assert(ps.push(p).drop_first() =~~= ps.drop_first().push(p));
        assert(join_with(ps.push(p), sep) == ps[0] + sep + join_with(ps.drop_first().push(p), sep));
        assert(join_with(ps.drop_first().push(p), sep) == join_with(ps.drop_first(), sep) + sep
            + p);
        assert(ps[0] + sep + (join_with(ps.drop_first(), sep) + sep + p) =~= (ps[0] + sep
            + join_with(ps.drop_first(), sep)) + sep + p);
    }
}

/// Join parts with a separator, mirroring `[_]::join`.
pub fn join_parts(parts: &Vec<Vec<char>>, sep: &str) -> (r: Vec<char>)
    ensures
        r@ == join_with(parts.deep_view(), sep@),
{
    let mut r: Vec<char> = Vec::new();
    let mut i: usize = 0;
    while i < parts.len()
        invariant
            i <= parts@.len(),
            parts.deep_view().len() == parts@.len(),
            r@ == join_with(parts.deep_view().take(i as int), sep@),
        decreases parts@.len() - i,
    {
        let ghost dv = parts.deep_view();
        let ghost prev = r@;
        if i > 0 {
            let mut sv = to_chars(sep);
            r.append(&mut sv);
        }
        let mut part = sub_vec(&parts[i], 0, parts[i].len());
        let ghost pv = part@;
        assert(pv =~= dv[i as int]);
        r.append(&mut part);
        proof {
            lemma_join_push(dv.take(i as int), dv[i as int], sep@);
            assert(dv.take(i as int).push(dv[i as int]) =~~= dv.take(i as int + 1));
            if i > 0 {
                assert(r@ =~= join_with(dv.take(i as int + 1), sep@));
            } else {
                assert(dv.take(0int).len() == 0);
                assert(join_with(dv.take(0int), sep@) == Seq::<char>::empty());
                assert(prev + pv =~= dv[0int]);
                assert(r@ =~= join_with(dv.take(1int), sep@));
            }
        }
        i = i + 1;
    }
    assert(parts.deep_view().take(parts@.len() as int) =~~= parts.deep_view());
    r
}


/// ASCII lowercase of one character, as `char::to_ascii_lowercase`.
pub open spec fn lower_char(c: char) -> char {
    if 'A' <= c && c <= 'Z' {
        (((c as u8) + 32) as u8) as char
    } else {
        c
    }
}

pub fn to_lower_char(c: char) -> (r: char)
    ensures
        r == lower_char(c),
{
    if 'A' <= c && c <= 'Z' {
        ((c as u8) + 32) as char
    } else {
        c
    }
}

/// `s` mapped to ASCII lowercase.
pub open spec fn ascii_lower(s: Seq<char>) -> Seq<char> {
    s.map_values(|c: char| lower_char(c))
}

/// ASCII-lowercase a character sequence, as `str::to_lowercase` does for
/// ASCII input (only the letters `A`-`Z` are folded).
pub fn to_ascii_lowercase(v: &Vec<char>) -> (r: Vec<char>)
    ensures
        r@ == ascii_lower(v@),
{
    let mut r: Vec<char> = Vec::new();
    let mut i: usize = 0;
    while i < v.len()
        invariant
            i <= v@.len(),
            r@ =~= ascii_lower(v@.take(i as int)),
        decreases v@.len() - i,
    {
        r.push(to_lower_char(v[i]));
        assert(v@.take(i as int + 1) =~= v@.take(i as int).push(v@[i as int]));
        assert(r@ =~= ascii_lower(v@.take(i as int + 1)));
        i = i + 1;
    }
    assert(v@.take(v@.len() as int) =~= v@);
    r
}

/// ASCII-case-insensitive equality, as `str::eq_ignore_ascii_case`.
pub open spec fn eq_ignore_case(a: Seq<char>, b: Seq<char>) -> bool {
    ascii_lower(a) == ascii_lower(b)
}

/// Compare against a string slice ignoring ASCII case.
pub fn eq_ignore_case_lit(v: &Vec<char>, p: &str) -> (r: bool)
    ensures
        r == eq_ignore_case(v@, p@),
{
    let n = p.unicode_len();
    if n != v.len() {
        assert(ascii_lower(v@).len() != ascii_lower(p@).len());
        return false;
    }
    let mut i: usize = 0;
    while i < n
        invariant
            i <= n,
            n == p@.len(),
            n == v@.len(),
            forall|j: int| 0 <= j < i ==> lower_char(v@[j]) == lower_char(p@[j]),
        decreases n - i,
    {
        if to_lower_char(v[i]) != to_lower_char(p.get_char(i)) {
            assert(ascii_lower(v@)[i as int] != ascii_lower(p@)[i as int]);
            return false;
        }
        i = i + 1;
    }
    assert(ascii_lower(v@) =~= ascii_lower(p@));
    true
}

pub open spec fn is_digit(c: char) -> bool {
    '0' <= c && c <= '9'
}

pub fn is_digit_char(c: char) -> (r: bool)
    ensures
        r == is_digit(c),
{
    '0' <= c && c <= '9'
}

pub open spec fn is_alpha(c: char) -> bool {
    ('a' <= c && c <= 'z') || ('A' <= c && c <= 'Z')
}

pub fn is_alpha_char(c: char) -> (r: bool)
    ensures
        r == is_alpha(c),
{
    ('a' <= c && c <= 'z') || ('A' <= c && c <= 'Z')
}

pub open spec fn is_alnum(c: char) -> bool {
    is_alpha(c) || is_digit(c)
}

pub fn is_alnum_char(c: char) -> (r: bool)
    ensures
        r == is_alnum(c),
{
    is_alpha_char(c) || is_digit_char(c)
}

pub open spec fn is_hex_digit(c: char) -> bool {
    is_digit(c) || ('a' <= c && c <= 'f') || ('A' <= c && c <= 'F')
}

pub fn is_hex_digit_char(c: char) -> (r: bool)
    ensures
        r == is_hex_digit(c),
{
    is_digit_char(c) || ('a' <= c && c <= 'f') || ('A' <= c && c <= 'F')
}

/// Leading occurrences of a character removed, as `str::trim_start_matches`
/// with a `char` pattern.
pub open spec fn strip_leading(s: Seq<char>, c: char) -> Seq<char>
    decreases s.len(),
{
    if s.len() > 0 && s[0] == c {
        strip_leading(s.drop_first(), c)
    } else {
        s
    }
}

pub fn strip_leading_char(v: &Vec<char>, c: char) -> (r: Vec<char>)
    ensures
        r@ == strip_leading(v@, c),
{
    let mut lo: usize = 0;
    assert(v@.skip(0) =~= v@);
    while lo < v.len() && v[lo] == c
        invariant
            lo <= v@.len(),
            strip_leading(v@, c) == strip_leading(v@.skip(lo as int), c),
        decreases v@.len() - lo,
    {
        assert(v@.skip(lo as int).drop_first() =~= v@.skip(lo as int + 1));
        lo = lo + 1;
    }
    assert(strip_leading(v@.skip(lo as int), c) == v@.skip(lo as int));
    sub_vec(v, lo, v.len())
}

pub open spec fn digit_char(d: int) -> char {
    if d == 0 {
        '0'
    } else if d == 1 {
        '1'
    } else if d == 2 {
        '2'
    } else if d == 3 {
        '3'
    } else if d == 4 {
        '4'
    } else if d == 5 {
        '5'
    } else if d == 6 {
        '6'
    } else if d == 7 {
        '7'
    } else if d == 8 {
        '8'
    } else {
        '9'
    }
}

/// Decimal digits of a non-negative integer, most significant first.
pub open spec fn dec_digits(n: int) -> Seq<char>
    decreases n,
{
    if n < 10 {
        seq![digit_char(n)]
    } else {
        dec_digits(n / 10).push(digit_char(n % 10))
    }
}

fn digit_char_of(d: u64) -> (c: char)
    requires
        d < 10,
    ensures
        c == digit_char(d as int),
{
    if d == 0 {
        '0'
    } else if d == 1 {
        '1'
    } else if d == 2 {
        '2'
    } else if d == 3 {
        '3'
    } else if d == 4 {
        '4'
    } else if d == 5 {
        '5'
    } else if d == 6 {
        '6'
    } else if d == 7 {
        '7'
    } else if d == 8 {
        '8'
    } else {
        '9'
    }
}

/// Append the decimal digits of `n`.
pub fn push_decimal_u64(out: &mut Vec<char>, n: u64)
    ensures
        final(out)@ == old(out)@ + dec_digits(n as int),
    decreases n,
{
    if n < 10 {
        out.push(digit_char_of(n));
        assert(final(out)@ =~= old(out)@ + dec_digits(n as int));
    } else {
        push_decimal_u64(out, n / 10);
        out.push(digit_char_of(n % 10));
        assert(final(out)@ =~= old(out)@ + dec_digits(n as int));
    }
}

/// `s` left-padded with zeros to width `w`, as the `{:0w}` format of a
/// non-negative number.
pub open spec fn zero_pad(s: Seq<char>, w: int) -> Seq<char> {
    if s.len() >= w {
        s
    } else {
        Seq::new((w - s.len()) as nat, |i: int| '0') + s
    }
}

/// The decimal digits of `n`, zero-padded to width `w`.
pub fn u64_padded(n: u64, w: usize) -> (r: Vec<char>)
    ensures
        r@ == zero_pad(dec_digits(n as int), w as int),
{
    let mut d: Vec<char> = Vec::new();
    push_decimal_u64(&mut d, n);
    assert(d@ =~= dec_digits(n as int));
    let mut r: Vec<char> = Vec::new();
    let mut k: usize = d.len();
    while k < w
        invariant
            d@ == dec_digits(n as int),
            d@.len() <= k <= w || (k == d@.len() && k >= w),
            r@ =~= Seq::new((k - d@.len()) as nat, |i: int| '0'),
        decreases w - k,
    {
        r.push('0');
        assert(r@ =~= Seq::new((k + 1 - d@.len()) as nat, |i: int| '0'));
        k = k + 1;
    }
    let ghost zs = r@;
    r.append(&mut d);
    assert(r@ =~= zero_pad(dec_digits(n as int), w as int));
    r
}

/// Rendering of `n` as Rust's `{:0w}` format: a minus sign counts toward
/// the width, zeros pad after the sign.
pub open spec fn fmt_int_pad(n: int, w: int) -> Seq<char> {
    if n < 0 {
        seq!['-'] + zero_pad(dec_digits(-n), w - 1)
    } else {
        zero_pad(dec_digits(n), w)
    }
}

/// Append `n` zero-padded to width `w`, as `{:0w}` formats an `i64`.
pub fn push_i64_padded(out: &mut Vec<char>, n: i64, w: usize)
    requires
        1 <= w,
    ensures
        final(out)@ == old(out)@ + fmt_int_pad(n as int, w as int),
{
    if n < 0 {
        let mag: u64 = if n == i64::MIN {
            9223372036854775808u64
        } else {
            (-n) as u64
        };
        assert(mag as int == -(n as int));
        out.push('-');
        let mut digits = u64_padded(mag, w - 1);
        let ghost dv = digits@;
        out.append(&mut digits);
        assert(final(out)@ =~= old(out)@ + fmt_int_pad(n as int, w as int));
    } else {
        let mut digits = u64_padded(n as u64, w);
        let ghost dv = digits@;
        out.append(&mut digits);
        assert(final(out)@ =~= old(out)@ + fmt_int_pad(n as int, w as int));
    }
}


pub open spec fn all_digits(s: Seq<char>) -> bool {
    forall|i: int| 0 <= i < s.len() ==> is_digit(s[i])
}

pub open spec fn digit_val(c: char) -> int {
    c as int - '0' as int
}

/// Value of a string of decimal digits.
pub open spec fn dec_val(s: Seq<char>) -> int
    decreases s.len(),
{
    if s.len() == 0 {
        0
    } else {
        dec_val(s.drop_last()) * 10 + digit_val(s.last())
    }
}

pub proof fn lemma_dec_val_nonneg(s: Seq<char>)
    requires
        all_digits(s),
    ensures
        dec_val(s) >= 0,
    decreases s.len(),
{
    if s.len() > 0 {
        assert(all_digits(s.drop_last()));
        lemma_dec_val_nonneg(s.drop_last());
    }
}

pub proof fn lemma_dec_val_prefix(s: Seq<char>, k: int)
    requires
        all_digits(s),
        0 <= k <= s.len(),
    ensures
        dec_val(s.take(k)) <= dec_val(s),
    decreases s.len(),
{
    if k == s.len() {
        assert(s.take(k) =~= s);
    } else {
        assert(all_digits(s.drop_last()));
        assert(s.take(k) =~= s.drop_last().take(k));
        lemma_dec_val_prefix(s.drop_last(), k);
        lemma_dec_val_nonneg(s.drop_last());
    }
}

/// What `str::parse::<i64>()` yields, with errors (bad characters, empty
/// digits, out-of-range values) collapsed to 0 as `unwrap_or(0)` does.
pub open spec fn spec_parse_i64(s: Seq<char>) -> int {
    let neg = s.len() > 0 && s[0] == '-';
    let body = if s.len() > 0 && (s[0] == '+' || s[0] == '-') {
        s.drop_first()
    } else {
        s
    };
    if body.len() > 0 && all_digits(body) {
        let v = if neg {
            -dec_val(body)
        } else {
            dec_val(body)
        };
        if i64::MIN <= v <= i64::MAX {
            v
        } else {
            0
        }
    } else {
        0
    }
}

/// What `str::parse::<usize>()` yields, errors collapsed to 0.
pub open spec fn spec_parse_usize(s: Seq<char>) -> int {
    let body = if s.len() > 0 && s[0] == '+' {
        s.drop_first()
    } else {
        s
    };
    if body.len() > 0 && all_digits(body) && dec_val(body) <= usize::MAX {
        dec_val(body)
    } else {
        0
    }
}

fn char_digit_val(c: char) -> (d: u64)
    requires
        is_digit(c),
    ensures
        d as int == digit_val(c),
        d < 10,
{
    ((c as u32) - ('0' as u32)) as u64
}

/// Parse a decimal integer, mirroring `str::parse::<i64>().unwrap_or(0)`.
pub fn parse_i64_or_zero(v: &Vec<char>) -> (r: i64)
    ensures
        r as int == spec_parse_i64(v@),
{
    let has_sign = v.len() > 0 && (v[0] == '+' || v[0] == '-');
    let neg = v.len() > 0 && v[0] == '-';
    let start: usize = if has_sign {
        1
    } else {
        0
    };
    let ghost body = v@.skip(start as int);
    proof {
        if has_sign {
            assert(body =~= v@.drop_first());
        } else {
            assert(body =~= v@);
        }
    }
    if v.len() == start {
        return 0;
    }
    let mut acc: u64 = 0;
    let mut i: usize = start;
    assert(v@.subrange(start as int, start as int) =~= Seq::<char>::empty());
    while i < v.len()
        invariant
            start <= i <= v@.len(),
            start <= 1,
            body == v@.skip(start as int),
            has_sign == (v@.len() > 0 && (v@[0] == '+' || v@[0] == '-')),
            neg == (v@.len() > 0 && v@[0] == '-'),
            body == (if has_sign {
                v@.drop_first()
            } else {
                v@
            }),
            forall|j: int| start <= j < i ==> is_digit(v@[j]),
            acc as int == dec_val(v@.subrange(start as int, i as int)),
            acc <= 9223372036854775808u64,
        decreases v@.len() - i,
    {
        let c = v[i];
        if !is_digit_char(c) {
            assert(!all_digits(body)) by {
                assert(body[i - start as int] == v@[i as int]);
            }
            return 0;
        }
        let d = char_digit_val(c);
        let ghost pre = v@.subrange(start as int, i as int);
        let ghost pre1 = v@.subrange(start as int, i as int + 1);
        assert(pre1.drop_last() =~= pre);
        assert(pre1.last() == v@[i as int]);
        if acc > (9223372036854775808u64 - d) / 10 {
            proof {
                assert(acc * 10 + d > 9223372036854775808);
                assert(dec_val(pre1) > 9223372036854775808);
                if all_digits(body) {
                    lemma_dec_val_prefix(body, i + 1 - start as int);
                    assert(body.take(i + 1 - start as int) =~= pre1);
                }
            }
            return 0;
        }
        assert(acc * 10 + d <= 9223372036854775808) by {
            assert(acc <= (9223372036854775808 - d as int) / 10);
        };
        acc = acc * 10 + d;
        i = i + 1;
    }
    assert(v@.subrange(start as int, v@.len() as int) =~= body);
    assert(all_digits(body));
    assert(acc as int == dec_val(body));
    if neg {
        if acc == 9223372036854775808u64 {
            i64::MIN
        } else {
            -(acc as i64)
        }
    } else {
        if acc == 9223372036854775808u64 {
            0
        } else {
            acc as i64
        }
    }
}

fn char_digit_val_usize(c: char) -> (d: usize)
    requires
        is_digit(c),
    ensures
        d as int == digit_val(c),
        d < 10,
{
    ((c as u32) - ('0' as u32)) as usize
}

/// Parse a decimal integer, mirroring `str::parse::<usize>().unwrap_or(0)`.
pub fn parse_usize_or_zero(v: &Vec<char>) -> (r: usize)
    ensures
        r as int == spec_parse_usize(v@),
{
    let has_sign = v.len() > 0 && v[0] == '+';
    let start: usize = if has_sign {
        1
    } else {
        0
    };
    let ghost body = v@.skip(start as int);
    proof {
        if has_sign {
            assert(body =~= v@.drop_first());
        } else {
            assert(body =~= v@);
        }
    }
    if v.len() == start {
        return 0;
    }
    let mut acc: usize = 0;
    let mut i: usize = start;
    assert(v@.subrange(start as int, start as int) =~= Seq::<char>::empty());
    while i < v.len()
        invariant
            start <= i <= v@.len(),
            start <= 1,
            body == v@.skip(start as int),
            has_sign == (v@.len() > 0 && v@[0] == '+'),
            body == (if has_sign {
                v@.drop_first()
            } else {
                v@
            }),
            forall|j: int| start <= j < i ==> is_digit(v@[j]),
            acc as int == dec_val(v@.subrange(start as int, i as int)),
        decreases v@.len() - i,
    {
        let c = v[i];
        if !is_digit_char(c) {
            assert(!all_digits(body)) by {
                assert(body[i - start as int] == v@[i as int]);
            }
            return 0;
        }
        let d = char_digit_val_usize(c);
        let ghost pre = v@.subrange(start as int, i as int);
        let ghost pre1 = v@.subrange(start as int, i as int + 1);
        assert(pre1.drop_last() =~= pre);
        assert(pre1.last() == v@[i as int]);
        if acc > (usize::MAX - d) / 10 {
            proof {
                assert(acc * 10 + d > usize::MAX);
                assert(dec_val(pre1) > usize::MAX);
                if all_digits(body) {
                    lemma_dec_val_prefix(body, i + 1 - start as int);
                    assert(body.take(i + 1 - start as int) =~= pre1);
                }
            }
            return 0;
        }
        assert(acc * 10 + d <= usize::MAX) by {
            assert(acc <= (usize::MAX - d as int) / 10);
        };
        acc = acc * 10 + d;
        i = i + 1;
    }
    assert(v@.subrange(start as int, v@.len() as int) =~= body);
    assert(all_digits(body));
    acc
}


/// No character of `s` is whitespace.
pub open spec fn ws_free(s: Seq<char>) -> bool {
    forall|i: int| 0 <= i < s.len() ==> !is_ws(s[i])
}

/// Splitting a whitespace-free prefix followed by a space yields that
/// prefix and the remainder.
pub proof fn lemma_split_once_ws_sep(cur: Seq<char>, a: Seq<char>, rest: Seq<char>)
    requires
        ws_free(a),
        a.len() > 0 ==> true,
    ensures
        split_once_ws_from(cur, a + seq![' '] + rest) == (cur + a, Some(rest)),
    decreases a.len(),
{
    let s = a + seq![' '] + rest;
    if a.len() == 0 {
        assert(s[0] == ' ');
        assert(s.drop_first() =~= rest);
        assert(cur + a =~= cur);
    } else {
        assert(s[0] == a[0]);
        assert(!is_ws(a[0]));
        assert(ws_free(a.drop_first()));
        assert(s.drop_first() =~= a.drop_first() + seq![' '] + rest);
        lemma_split_once_ws_sep(cur.push(a[0]), a.drop_first(), rest);
        assert(cur.push(a[0]) + a.drop_first() =~= cur + a);
    }
}

/// Splitting a whitespace-free string yields the whole string and nothing.
pub proof fn lemma_split_once_ws_whole(cur: Seq<char>, a: Seq<char>)
    requires
        ws_free(a),
    ensures
        split_once_ws_from(cur, a) == (cur + a, None::<Seq<char>>),
    decreases a.len(),
{
    if a.len() == 0 {
        assert(cur + a =~= cur);
    } else {
        assert(!is_ws(a[0]));
        assert(ws_free(a.drop_first()));
        lemma_split_once_ws_whole(cur.push(a[0]), a.drop_first());
        assert(a.drop_first() =~= a.drop_first());
        assert(cur.push(a[0]) + a.drop_first() =~= cur + a);
    }
}

/// A string whose first and last characters are not whitespace is its own
/// trimmed form.
pub proof fn lemma_trim_stable(s: Seq<char>)
    requires
        s.len() == 0 || (!is_ws(s[0]) && !is_ws(s.last())),
    ensures
        trim_spec(s) == s,
{
    assert(trim_start_spec(s) == s);
    assert(trim_end_spec(s) == s);
}

/// Scanning a whitespace-free chunk of the input only grows the current
/// token.
pub proof fn lemma_split_ws_chunk(cur: Seq<char>, t: Seq<char>, u: Seq<char>)
    requires
        ws_free(t),
    ensures
        split_ws_from(cur, t + u) == split_ws_from(cur + t, u),
    decreases t.len(),
{
    if t.len() == 0 {
        assert(t + u =~= u);
        assert(cur + t =~= cur);
    } else {
        let s = t + u;
        assert(s[0] == t[0]);
        assert(!is_ws(t[0]));
        assert(ws_free(t.drop_first()));
        assert(s.drop_first() =~= t.drop_first() + u);
        lemma_split_ws_chunk(cur.push(t[0]), t.drop_first(), u);
        assert(cur.push(t[0]) + t.drop_first() =~= cur + t);
    }
}

/// Splitting the space-joined form of nonempty whitespace-free tokens
/// recovers exactly those tokens.
pub proof fn lemma_split_ws_join(toks: Seq<Seq<char>>)
    requires
        forall|i: int|
            0 <= i < toks.len() ==> (#[trigger] toks[i]).len() > 0 && ws_free(toks[i]),
    ensures
        spec_split_ws(join_with(toks, seq![' '])) == toks,
    decreases toks.len(),
{
    if toks.len() == 0 {
        assert(spec_split_ws(Seq::<char>::empty()) =~~= Seq::<Seq<char>>::empty());
        assert(spec_split_ws(join_with(toks, seq![' '])) =~~= toks);
    } else if toks.len() == 1 {
        let t = toks[0];
        lemma_split_ws_chunk(Seq::empty(), t, Seq::empty());
        assert(t + Seq::<char>::empty() =~= t);
        assert(Seq::<char>::empty() + t =~= t);
        assert(split_ws_from(t, Seq::empty()) == seq![t]);
        assert(spec_split_ws(join_with(toks, seq![' '])) =~~= toks);
    } else {
        let t = toks[0];
        let rest = toks.drop_first();
        let j = join_with(toks, seq![' ']);
        assert(j == t + seq![' '] + join_with(rest, seq![' ']));
        lemma_split_ws_chunk(Seq::empty(), t, seq![' '] + join_with(rest, seq![' ']));
        assert(t + (seq![' '] + join_with(rest, seq![' '])) =~= j);
        assert(Seq::<char>::empty() + t =~= t);
        let u = seq![' '] + join_with(rest, seq![' ']);
        assert(u[0] == ' ');
        assert(is_ws(' '));
        assert(t.len() > 0);
        assert(split_ws_from(t, u) == seq![t] + split_ws_from(
            Seq::empty(),
            u.drop_first(),
        ));
        assert(u.drop_first() =~= join_with(rest, seq![' ']));
        lemma_split_ws_join(rest);
        assert(seq![t] + rest =~~= toks);
    }
}

/// Scanning a chunk with no newline only grows the current line.
pub proof fn lemma_lines_chunk(cur: Seq<char>, t: Seq<char>, u: Seq<char>)
    requires
        forall|i: int| 0 <= i < t.len() ==> t[i] != '\n',
    ensures
        lines_from(cur, t + u) == lines_from(cur + t, u),
    decreases t.len(),
{
    if t.len() == 0 {
        assert(t + u =~= u);
        assert(cur + t =~= cur);
    } else {
        let s = t + u;
        assert(s[0] == t[0]);
        assert(s.drop_first() =~= t.drop_first() + u);
        lemma_lines_chunk(cur.push(t[0]), t.drop_first(), u);
        assert(cur.push(t[0]) + t.drop_first() =~= cur + t);
    }
}

/// Splitting the newline-joined form of lines free of newlines and
/// carriage returns recovers exactly those lines, provided the final line
/// is nonempty (a trailing empty line would be dropped).
pub proof fn lemma_lines_join(ls: Seq<Seq<char>>)
    requires
        forall|i: int|
            0 <= i < ls.len() ==> {
                let l = #[trigger] ls[i];
                forall|k: int| 0 <= k < l.len() ==> l[k] != '\n' && l[k] != '\r'
            },
        ls.len() > 0 ==> ls.last().len() > 0,
    ensures
        spec_lines(join_with(ls, seq!['\n'])) == ls,
    decreases ls.len(),
{
    if ls.len() == 0 {
        assert(spec_lines(Seq::<char>::empty()) =~~= Seq::<Seq<char>>::empty());
        assert(spec_lines(join_with(ls, seq!['\n'])) =~~= ls);
    } else if ls.len() == 1 {
        let l = ls[0];
        lemma_lines_chunk(Seq::empty(), l, Seq::empty());
        assert(l + Seq::<char>::empty() =~= l);
        assert(Seq::<char>::empty() + l =~= l);
        assert(lines_from(l, Seq::empty()) == seq![l]);
        assert(spec_lines(join_with(ls, seq!['\n'])) =~~= ls);
    } else {
        let l = ls[0];
        let rest = ls.drop_first();
        let j = join_with(ls, seq!['\n']);
        assert(j == l + seq!['\n'] + join_with(rest, seq!['\n']));
        lemma_lines_chunk(Seq::empty(), l, seq!['\n'] + join_with(rest, seq!['\n']));
        assert(l + (seq!['\n'] + join_with(rest, seq!['\n'])) =~= j);
        assert(Seq::<char>::empty() + l =~= l);
        let u = seq!['\n'] + join_with(rest, seq!['\n']);
        assert(u[0] == '\n');
        assert(strip_cr(l) == l) by {
            if l.len() > 0 {
                assert(l.last() != '\r');
            }
        }
        assert(lines_from(l, u) == seq![l] + lines_from(Seq::empty(), u.drop_first()));
        assert(u.drop_first() =~= join_with(rest, seq!['\n']));
        lemma_lines_join(rest);
        assert(seq![l] + rest =~~= ls);
    }
}


/// Every whitespace character of `s` is a plain space.
pub open spec fn space_only_ws(s: Seq<char>) -> bool {
    forall|i: int| 0 <= i < s.len() ==> (is_ws(#[trigger] s[i]) ==> s[i] == ' ')
}

/// How one whitespace split decomposes a string whose only whitespace is
/// spaces: either no split, or the string is the two halves around one space.
pub proof fn lemma_split_once_ws_shape(cur: Seq<char>, c: Seq<char>)
    requires
        space_only_ws(c),
    ensures
        ({
            let r = split_once_ws_from(cur, c);
            match r.1 {
                None => r.0 == cur + c,
                Some(rest) => cur + c == r.0 + seq![' '] + rest,
            }
        }),
    decreases c.len(),
{
    if c.len() == 0 {
        assert(cur + c =~= cur);
    } else if is_ws(c[0]) {
        assert(c[0] == ' ');
        assert(cur + c =~= cur + seq![' '] + c.drop_first());
    } else {
        assert(space_only_ws(c.drop_first()));
        lemma_split_once_ws_shape(cur.push(c[0]), c.drop_first());
        assert(cur.push(c[0]) + c.drop_first() =~= cur + c);
        let r = split_once_ws_from(cur.push(c[0]), c.drop_first());
        match r.1 {
            None => {},
            Some(rest) => {
                assert(cur + c == r.0 + seq![' '] + rest);
            },
        }
    }
}

/// Joining concatenated nonempty part lists splits over the separator.
pub proof fn lemma_join_concat(a: Seq<Seq<char>>, b: Seq<Seq<char>>, sep: Seq<char>)
    requires
        a.len() > 0,
        b.len() > 0,
    ensures
        join_with(a + b, sep) == join_with(a, sep) + sep + join_with(b, sep),
    decreases a.len(),
{
    if a.len() == 1 {
        assert((a + b).drop_first() =~~= b);
        assert((a + b)[0] == a[0]);
        assert((a + b).len() >= 2);
        assert(join_with(a + b, sep) == a[0] + sep + join_with(b, sep));
    } else {
        lemma_join_concat(a.drop_first(), b, sep);
        assert((a + b).drop_first() =~~= a.drop_first() + b);
        assert((a + b)[0] == a[0]);
        assert(join_with(a + b, sep) == a[0] + sep + join_with(a.drop_first() + b, sep));
        assert(a[0] + sep + (join_with(a.drop_first(), sep) + sep + join_with(b, sep)) =~= (a[0]
            + sep + join_with(a.drop_first(), sep)) + sep + join_with(b, sep));
    }
}

/// The tokens of a whitespace split are nonempty and whitespace-free.
pub proof fn lemma_split_ws_tokens_from(cur: Seq<char>, rest: Seq<char>)
    requires
        ws_free(cur),
    ensures
        forall|i: int|
            0 <= i < split_ws_from(cur, rest).len() ==> {
                let t = #[trigger] split_ws_from(cur, rest)[i];
                t.len() > 0 && ws_free(t)
            },
    decreases rest.len(),
{
    if rest.len() == 0 {
        if cur.len() > 0 {
            assert(split_ws_from(cur, rest) == seq![cur]);
            assert(split_ws_from(cur, rest)[0] == cur);
        }
    } else if is_ws(rest[0]) {
        lemma_split_ws_tokens_from(Seq::empty(), rest.drop_first());
        let tail = split_ws_from(Seq::empty(), rest.drop_first());
        let whole = split_ws_from(cur, rest);
        if cur.len() > 0 {
            assert(whole == seq![cur] + tail);
            assert forall|i: int| 0 <= i < whole.len() implies {
                let t = #[trigger] whole[i];
                t.len() > 0 && ws_free(t)
            } by {
                if i == 0 {
                    assert(whole[0] == cur);
                } else {
                    assert(whole[i] == tail[i - 1]);
                }
            }
        } else {
            assert(whole == tail);
            assert forall|i: int| 0 <= i < whole.len() implies {
                let t = #[trigger] whole[i];
                t.len() > 0 && ws_free(t)
            } by {
                assert(whole[i] == tail[i]);
            }
        }
    } else {
        assert(ws_free(cur.push(rest[0])));
        lemma_split_ws_tokens_from(cur.push(rest[0]), rest.drop_first());
        let tail = split_ws_from(cur.push(rest[0]), rest.drop_first());
        let whole = split_ws_from(cur, rest);
        assert(whole == tail);
        assert forall|i: int| 0 <= i < whole.len() implies {
            let t = #[trigger] whole[i];
            t.len() > 0 && ws_free(t)
        } by {
            assert(whole[i] == tail[i]);
        }
    }
}

/// The tokens of `split_whitespace` are nonempty and whitespace-free.
pub proof fn lemma_split_ws_tokens(s: Seq<char>)
    ensures
        forall|i: int|
            0 <= i < spec_split_ws(s).len() ==> {
                let t = #[trigger] spec_split_ws(s)[i];
                t.len() > 0 && ws_free(t)
            },
{
    lemma_split_ws_tokens_from(Seq::empty(), s);
}


/// Splitting at a separator character after a prefix free of it yields
/// that prefix and the remainder.
pub proof fn lemma_split_once_char_sep(cur: Seq<char>, a: Seq<char>, rest: Seq<char>, sep: char)
    requires
        forall|i: int| 0 <= i < a.len() ==> a[i] != sep,
    ensures
        split_once_char_from(cur, a + seq![sep] + rest, sep) == (cur + a, Some(rest)),
    decreases a.len(),
{
    let s = a + seq![sep] + rest;
    if a.len() == 0 {
        assert(s[0] == sep);
        assert(s.drop_first() =~= rest);
        assert(cur + a =~= cur);
    } else {
        assert(s[0] == a[0]);
        assert(s.drop_first() =~= a.drop_first() + seq![sep] + rest);
        lemma_split_once_char_sep(cur.push(a[0]), a.drop_first(), rest, sep);
        assert(cur.push(a[0]) + a.drop_first() =~= cur + a);
    }
}

/// The last character of a nonempty join whose final part is nonempty.
pub proof fn lemma_join_last(ps: Seq<Seq<char>>, sep: Seq<char>)
    requires
        ps.len() > 0,
        ps.last().len() > 0,
    ensures
        join_with(ps, sep).len() > 0,
        join_with(ps, sep).last() == ps.last().last(),
    decreases ps.len(),
{
    if ps.len() == 1 {
    } else {
        lemma_join_last(ps.drop_first(), sep);
        assert(ps.drop_first().last() == ps.last());
        let j = join_with(ps, sep);
        assert(j == ps[0] + sep + join_with(ps.drop_first(), sep));
        assert(j.last() == join_with(ps.drop_first(), sep).last());
    }
}

/// A single line without newlines splits into itself.
pub proof fn lemma_lines_single(l: Seq<char>)
    requires
        l.len() > 0,
        forall|k: int| 0 <= k < l.len() ==> l[k] != '\n',
    ensures
        spec_lines(l) == seq![l],
{
    lemma_lines_chunk(Seq::empty(), l, Seq::empty());
    assert(l + Seq::<char>::empty() =~= l);
    assert(Seq::<char>::empty() + l =~= l);
    assert(lines_from(l, Seq::empty()) == seq![l]);
}

} // verus!
