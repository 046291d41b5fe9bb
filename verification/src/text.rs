//! Verified text post-processing: whitespace trimming, command-echo
//! stripping, and line-terminator normalisation.
//!
//! Trimming is over the ASCII whitespace characters space, tab, carriage
//! return and line feed — the characters that occur around terminal output.

use vstd::prelude::*;
use vstd::string::StrSliceExecFns;

verus! {

/// A character that trimming removes from either end of a result.
pub open spec fn is_space(c: char) -> bool {
    c == ' ' || c == '\t' || c == '\r' || c == '\n'
}

/// The length of the run of whitespace at the front of `s`.
pub open spec fn leading_spaces(s: Seq<char>) -> int
    decreases s.len(),
{
    if s.len() == 0 {
        0
    } else if is_space(s[0]) {
        1 + leading_spaces(s.drop_first())
    } else {
        0
    }
}

/// The length of the run of whitespace at the back of `s`.
pub open spec fn trailing_spaces(s: Seq<char>) -> int
    decreases s.len(),
{
    if s.len() == 0 {
        0
    } else if is_space(s[s.len() - 1]) {
        1 + trailing_spaces(s.drop_last())
    } else {
        0
    }
}

/// `s` without its leading and trailing whitespace.
pub open spec fn trim_spec(s: Seq<char>) -> Seq<char> {
    if leading_spaces(s) == s.len() {
        Seq::empty()
    } else {
        s.subrange(leading_spaces(s), s.len() - trailing_spaces(s))
    }
}

/// `leading_spaces` is pinned down by what stands at each index: it is the
/// first index that does not hold whitespace, or the length when all do.
pub proof fn lemma_leading_spaces_at(s: Seq<char>, a: int)
    requires
        0 <= a <= s.len(),
        forall|j: int| 0 <= j < a ==> is_space(s[j]),
        a == s.len() || !is_space(s[a]),
    ensures
        leading_spaces(s) == a,
    decreases s.len(),
{
    if a == 0 {
    } else {
        lemma_leading_spaces_at(s.drop_first(), a - 1);
    }
}

/// `trailing_spaces` counted from the last index that holds non-whitespace.
pub proof fn lemma_trailing_spaces_at(s: Seq<char>, b: int)
    requires
        0 <= b <= s.len(),
        forall|j: int| b <= j < s.len() ==> is_space(s[j]),
        b == 0 || !is_space(s[b - 1]),
    ensures
        trailing_spaces(s) == s.len() - b,
    decreases s.len(),
{
    if b == s.len() {
    } else {
        lemma_trailing_spaces_at(s.drop_last(), b);
    }
}

/// Whether trimming removes this character.
pub fn is_space_char(c: char) -> (r: bool)
    ensures
        r == is_space(c),
{
    c == ' ' || c == '\t' || c == '\r' || c == '\n'
}

/// Remove leading and trailing whitespace.
pub fn trim(s: &str) -> (r: String)
    ensures
        r@ == trim_spec(s@),
{
    let n = s.unicode_len();
    let mut a: usize = 0;
    while a < n && is_space_char(s.get_char(a))
        invariant
            0 <= a <= n,
            n == s@.len(),
            forall|j: int| 0 <= j < a ==> is_space(s@[j]),
        decreases n - a,
    {
        a = a + 1;
    }
    proof {
        lemma_leading_spaces_at(s@, a as int);
    }
    if a == n {
        return String::new();
    }
    let mut b: usize = n;
    while b > a && is_space_char(s.get_char(b - 1))
        invariant
            a < b <= n,
            n == s@.len(),
            !is_space(s@[a as int]),
            forall|j: int| b <= j < n ==> is_space(s@[j]),
        decreases b,
    {
        proof {
            assert(b - 1 > a) by {
                if b - 1 == a {
                    assert(is_space(s@[a as int]));
                }
            }
        }
        b = b - 1;
    }
    proof {
        lemma_trailing_spaces_at(s@, b as int);
    }
    let cut = s.substring_char(a, b);
    cut.to_owned()
}

/// `out` with a leading echo of `cmd` removed and the remainder trimmed;
/// `out` unchanged when it does not start with `cmd`.
pub open spec fn strip_echo_spec(cmd: Seq<char>, out: Seq<char>) -> Seq<char> {
    if cmd.len() <= out.len() && out.take(cmd.len() as int) == cmd {
        trim_spec(out.skip(cmd.len() as int))
    } else {
        out
    }
}

/// Strip a leading echo of the sent command from captured output, trimming
/// whatever follows it; output that does not start with the command is
/// returned unchanged.
pub fn strip_echo(cmd: &str, out: &str) -> (r: String)
    ensures
        r@ == strip_echo_spec(cmd@, out@),
{
    let m = cmd.unicode_len();
    let n = out.unicode_len();
    if m > n {
        return out.to_owned();
    }
    let mut i: usize = 0;
    while i < m
        invariant
            0 <= i <= m <= n,
            m == cmd@.len(),
            n == out@.len(),
            forall|j: int| 0 <= j < i ==> out@[j] == cmd@[j],
        decreases m - i,
    {
        if out.get_char(i) != cmd.get_char(i) {
            proof {
                assert(out@.take(m as int)[i as int] != cmd@[i as int]);
            }
            return out.to_owned();
        }
        i = i + 1;
    }
    proof {
        assert(out@.take(m as int) =~= cmd@);
    }
    let rest = out.substring_char(m, n);
    proof {
        assert(rest@ =~= out@.skip(m as int));
    }
    trim(rest)
}

/// `s` itself when it already ends in a line feed, otherwise `s` with one
/// appended.
pub open spec fn with_newline(s: Seq<char>) -> Seq<char> {
    if s.len() > 0 && s[s.len() - 1] == '\n' {
        s
    } else {
        s.push('\n')
    }
}

/// Terminate a command line: append a line feed unless one is already there.
pub fn format_enter_str(s: &str) -> (r: String)
    ensures
        r@ == with_newline(s@),
{
    let n = s.unicode_len();
    if n > 0 && s.get_char(n - 1) == '\n' {
        s.to_owned()
    } else {
        let mut r = s.to_owned();
        r.append("\n");
        proof {
            reveal_strlit("\n");
            assert(r@ =~= s@.push('\n'));
        }
        r
    }
}

} // verus!
