//! Reading the process id that a running instance left in its pid file.

use vstd::prelude::*;
use crate::decimal::{parse_i32, parsed_i32};

verus! {

/// `char::is_whitespace`: the characters of Unicode's `White_Space` property.
pub open spec fn is_white_space(c: char) -> bool {
    let x = c as int;
    ||| 0x09 <= x <= 0x0d
    ||| x == 0x20
    ||| x == 0x85
    ||| x == 0xa0
    ||| x == 0x1680
    ||| 0x2000 <= x <= 0x200a
    ||| x == 0x2028
    ||| x == 0x2029
    ||| x == 0x202f
    ||| x == 0x205f
    ||| x == 0x3000
}

/// `s` without its leading white space.
pub open spec fn trim_start(s: Seq<char>) -> Seq<char>
    decreases s.len(),
{
    if s.len() > 0 && is_white_space(s[0]) {
        trim_start(s.drop_first())
    } else {
        s
    }
}

/// `s` without its trailing white space.
pub open spec fn trim_end(s: Seq<char>) -> Seq<char>
    decreases s.len(),
{
    if s.len() > 0 && is_white_space(s.last()) {
        trim_end(s.drop_last())
    } else {
        s
    }
}

/// `str::trim`: `s` without leading and trailing white space.
pub open spec fn trimmed(s: Seq<char>) -> Seq<char> {
    trim_end(trim_start(s))
}

/// Whether `c` is white space.
fn white_space(c: char) -> (r: bool)
    ensures
        r == is_white_space(c),
{
    let x = c as u32;
    (0x09 <= x && x <= 0x0d) || x == 0x20 || x == 0x85 || x == 0xa0 || x == 0x1680 || (0x2000 <= x
        && x <= 0x200a) || x == 0x2028 || x == 0x2029 || x == 0x202f || x == 0x205f || x == 0x3000
}

/// Removing a leading white-space character leaves the same start-trimmed text.
proof fn lemma_trim_start_step(s: Seq<char>, i: int)
    requires
        0 <= i < s.len(),
        is_white_space(s[i]),
    ensures
        trim_start(s.skip(i)) == trim_start(s.skip(i + 1)),
{
    assert(s.skip(i).drop_first() =~= s.skip(i + 1));
}

/// Removing a trailing white-space character leaves the same end-trimmed text.
proof fn lemma_trim_end_step(s: Seq<char>, j: int)
    requires
        0 < j <= s.len(),
        is_white_space(s[j - 1]),
    ensures
        trim_end(s.take(j)) == trim_end(s.take(j - 1)),
{
    assert(s.take(j).drop_last() =~= s.take(j - 1));
}

/// `str::trim`.
pub fn trim(s: &str) -> (t: String)
    ensures
        t@ == trimmed(s@),
{
    let v = crate::text::chars_of(s);
    let mut i: usize = 0;
    assert(v@.skip(0) =~= v@);
    while i < v.len() && white_space(v[i])
        invariant
            i <= v@.len(),
            trim_start(v@) == trim_start(v@.skip(i as int)),
        decreases v.len() - i,
    {
        proof {
            lemma_trim_start_step(v@, i as int);
        }
        i = i + 1;
    }
    let ghost u = v@.skip(i as int);
    assert(trim_start(v@) == u);
    let mut j: usize = v.len();
    assert(u.take(u.len() as int) =~= u);
    while j > i && white_space(v[j - 1])
        invariant
            i <= j <= v@.len(),
            u == v@.skip(i as int),
            trim_end(u) == trim_end(u.take(j - i)),
        decreases j,
    {
        proof {
            assert(u[j - 1 - i] == v@[j - 1]);
            lemma_trim_end_step(u, j - i);
        }
        j = j - 1;
    }
    assert(trim_end(u.take(j - i)) == u.take(j - i));
    let mut out: Vec<char> = Vec::new();
    let mut k: usize = i;
    while k < j
        invariant
            i <= k <= j <= v@.len(),
            out@ == v@.subrange(i as int, k as int),
        decreases j - k,
    {
        out.push(v[k]);
        k = k + 1;
        assert(out@ =~= v@.subrange(i as int, k as int));
    }
    assert(out@ =~= u.take(j - i));
    crate::text::string_of(&out)
}

/// The process id written in a pid file's text: the text, trimmed, read as
/// an `i32`; `None` when it does not read as one.
pub fn parse_pid(content: &str) -> (pid: Option<i32>)
    ensures
        pid == parsed_i32(trimmed(content@)),
{
    let t = trim(content);
    parse_i32(t.as_str())
}

} // verus!
