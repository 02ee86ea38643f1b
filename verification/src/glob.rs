//! Glob pattern matching for the KEYS command.
//!
//! Patterns support `*` (any run of bytes, possibly empty) and `?` (any
//! one byte); every other byte matches only itself.

use vstd::prelude::*;

verus! {

/// Whether the glob pattern `p` matches the whole text `s`.
pub open spec fn glob_match(p: Seq<u8>, s: Seq<u8>) -> bool
    decreases p.len(), s.len(),
{
    if p.len() == 0 {
        s.len() == 0
    } else if p[0] == 0x2A {
        glob_match(p.skip(1), s) || (s.len() > 0 && glob_match(p, s.skip(1)))
    } else {
        s.len() > 0 && (p[0] == 0x3F || p[0] == s[0]) && glob_match(p.skip(1), s.skip(1))
    }
}

/// Match `pattern[pi..]` against `text[si..]`.
fn glob_match_at(pattern: &[u8], text: &[u8], pi: usize, si: usize) -> (r: bool)
    requires
        pi <= pattern@.len(),
        si <= text@.len(),
    ensures
        r == glob_match(pattern@.skip(pi as int), text@.skip(si as int)),
    decreases pattern@.len() - pi, text@.len() - si,
{
    let ghost p = pattern@.skip(pi as int);
    let ghost s = text@.skip(si as int);
    if pi == pattern.len() {
        si == text.len()
    } else if pattern[pi] == 0x2A {
        proof {
            assert(p[0] == 0x2A);
            assert(p.skip(1) =~= pattern@.skip(pi + 1));
            if si < text@.len() {
                assert(s.skip(1) =~= text@.skip(si + 1));
            }
        }
        if glob_match_at(pattern, text, pi + 1, si) {
            true
        } else {
            si < text.len() && glob_match_at(pattern, text, pi, si + 1)
        }
    } else {
        proof {
            assert(p[0] == pattern@[pi as int]);
            assert(p.skip(1) =~= pattern@.skip(pi + 1));
            if si < text@.len() {
                assert(s[0] == text@[si as int]);
                assert(s.skip(1) =~= text@.skip(si + 1));
            }
        }
        si < text.len() && (pattern[pi] == 0x3F || pattern[pi] == text[si])
            && glob_match_at(pattern, text, pi + 1, si + 1)
    }
}

/// Whether the glob `pattern` matches the whole of `text`.
pub fn matches_glob(pattern: &[u8], text: &[u8]) -> (r: bool)
    ensures
        r == glob_match(pattern@, text@),
{
    proof {
        assert(pattern@.skip(0) =~= pattern@);
        assert(text@.skip(0) =~= text@);
    }
    glob_match_at(pattern, text, 0, 0)
}

/// The lone `*` pattern matches every text.
pub proof fn lemma_star_matches_all(s: Seq<u8>)
    ensures
        glob_match(seq![0x2Au8], s),
    decreases s.len(),
{
    let p = seq![0x2Au8];
    assert(p.skip(1) =~= Seq::<u8>::empty());
    assert(p.len() == 1 && p[0] == 0x2A);
    assert(glob_match(p, s) == (glob_match(p.skip(1), s) || (s.len() > 0 && glob_match(
        p,
        s.skip(1),
    ))));
    if s.len() == 0 {
        assert(glob_match(p.skip(1), s));
    } else {
        lemma_star_matches_all(s.skip(1));
    }
}

} // verus!
