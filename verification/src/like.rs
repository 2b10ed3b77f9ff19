//! SQL-LIKE-style pattern matching over note names: `%` matches any run of
//! characters (including the empty run), `_` matches exactly one character,
//! and any other character matches itself ignoring ASCII case, as the
//! default collation of the backing store does.

use vstd::prelude::*;

verus! {

/// ASCII case folding: the upper-case letters `A`..`Z` map to their
/// lower-case counterparts, every other character to itself.
pub open spec fn fold_char(c: char) -> char {
    if 65 <= c as u32 && c as u32 <= 90 {
        ((c as u8) + 32) as char
    } else {
        c
    }
}

/// Whether the pattern suffix `p[pi..]` matches the text suffix `s[si..]`.
pub open spec fn like_from(p: Seq<char>, s: Seq<char>, pi: int, si: int) -> bool
    decreases p.len() - pi, s.len() - si,
    when 0 <= pi <= p.len() && 0 <= si <= s.len()
{
    if pi == p.len() {
        si == s.len()
    } else if p[pi] == '%' {
        like_from(p, s, pi + 1, si) || (si < s.len() && like_from(p, s, pi, si + 1))
    } else if p[pi] == '_' {
        si < s.len() && like_from(p, s, pi + 1, si + 1)
    } else {
        si < s.len() && fold_char(p[pi]) == fold_char(s[si]) && like_from(p, s, pi + 1, si + 1)
    }
}

/// Whether the whole pattern `p` matches the whole text `s`.
pub open spec fn like_matches(p: Seq<char>, s: Seq<char>) -> bool {
    like_from(p, s, 0, 0)
}

/// ASCII case folding of one character.
pub fn fold_char_exec(c: char) -> (r: char)
    ensures
        r == fold_char(c),
{
    let code = c as u32;
    if 65 <= code && code <= 90 {
        ((c as u8) + 32) as char
    } else {
        c
    }
}

fn like_from_exec(p: &str, s: &str, pi: usize, si: usize) -> (r: bool)
    requires
        pi <= p@.len(),
        si <= s@.len(),
    ensures
        r == like_from(p@, s@, pi as int, si as int),
    decreases p@.len() - pi, s@.len() - si,
{
    let plen = p.unicode_len();
    let slen = s.unicode_len();
    if pi == plen {
        si == slen
    } else {
        let c = p.get_char(pi);
        if c == '%' {
            if like_from_exec(p, s, pi + 1, si) {
                true
            } else if si < slen {
                like_from_exec(p, s, pi, si + 1)
            } else {
                false
            }
        } else if c == '_' {
            si < slen && like_from_exec(p, s, pi + 1, si + 1)
        } else if si < slen {
            let folded_p = fold_char_exec(c);
            let folded_s = fold_char_exec(s.get_char(si));
            folded_p == folded_s && like_from_exec(p, s, pi + 1, si + 1)
        } else {
            false
        }
    }
}

/// Whether `s` matches `pattern` under the LIKE-style semantics above.
pub fn like_match(pattern: &str, s: &str) -> (r: bool)
    ensures
        r == like_matches(pattern@, s@),
{
    like_from_exec(pattern, s, 0, 0)
}

} // verus!
