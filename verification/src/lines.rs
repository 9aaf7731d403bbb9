//! Splitting text into lines, with the same semantics as `str::lines`:
//! lines end at `\n`, a line's trailing `\r` (from a `\r\n` ending) is
//! dropped, and a final line ending is optional.

use vstd::prelude::*;

verus! {

/// `s` with one trailing carriage return removed, if it has one.
pub open spec fn strip_cr(s: Seq<char>) -> Seq<char> {
    if s.len() > 0 && s.last() == '\r' {
        s.drop_last()
    } else {
        s
    }
}

/// The index of the first line feed in `s`, or `s.len()` if there is none.
pub open spec fn line_break_at(s: Seq<char>) -> int
    decreases s.len(),
{
    if s.len() == 0 {
        0
    } else if s[0] == '\n' {
        0
    } else {
        1 + line_break_at(s.drop_first())
    }
}

pub proof fn lemma_line_break_at(s: Seq<char>)
    ensures
        0 <= line_break_at(s) <= s.len(),
        line_break_at(s) < s.len() ==> s[line_break_at(s)] == '\n',
        forall|j: int| 0 <= j < line_break_at(s) ==> s[j] != '\n',
    decreases s.len(),
{
    if s.len() > 0 && s[0] != '\n' {
        lemma_line_break_at(s.drop_first());
        assert forall|j: int| 0 <= j < line_break_at(s) implies s[j] != '\n' by {
            if j > 0 {
                assert(s.drop_first()[j - 1] == s[j]);
            }
        }
    }
}

/// The first line feed is at the unique index that no line feed precedes.
pub proof fn lemma_line_break_at_is(s: Seq<char>, i: int)
    requires
        0 <= i <= s.len(),
        forall|j: int| 0 <= j < i ==> s[j] != '\n',
        i < s.len() ==> s[i] == '\n',
    ensures
        line_break_at(s) == i,
    decreases s.len(),
{
    if s.len() > 0 && s[0] != '\n' {
        lemma_line_break_at_is(s.drop_first(), i - 1);
    }
}

/// The lines of `s`, as `str::lines` yields them.
pub open spec fn lines_of(s: Seq<char>) -> Seq<Seq<char>>
    decreases s.len(),
    via lines_of_decreases
{
    if s.len() == 0 {
        Seq::empty()
    } else {
        let i = line_break_at(s);
        if i >= s.len() {
            seq![strip_cr(s)]
        } else {
            seq![strip_cr(s.take(i))] + lines_of(s.skip(i + 1))
        }
    }
}

#[via_fn]
proof fn lines_of_decreases(s: Seq<char>) {
    lemma_line_break_at(s);
}

/// A leading line without line feeds, then a break, then the rest: the
/// lines are that line and the rest's lines.
pub proof fn lemma_lines_head(a: Seq<char>, rest: Seq<char>)
    requires
        crate::text::no_newline(a),
    ensures
        lines_of(a + seq!['\n'] + rest) == seq![strip_cr(a)] + lines_of(rest),
{
    let m = a + seq!['\n'] + rest;
    lemma_line_break_at_is(m, a.len() as int);
    assert(m.take(a.len() as int) =~= a);
    assert(m.skip(a.len() as int + 1) =~= rest);
}

/// A non-empty text without line feeds is one line.
pub proof fn lemma_lines_single(a: Seq<char>)
    requires
        crate::text::no_newline(a),
        a.len() > 0,
    ensures
        lines_of(a) == seq![strip_cr(a)],
{
    lemma_line_break_at_is(a, a.len() as int);
}

/// Extracts `s.take(e)` with a trailing carriage return dropped.
fn take_strip_cr(s: &str, e: usize) -> (r: String)
    requires
        e <= s@.len(),
    ensures
        r@ == strip_cr(s@.take(e as int)),
{
    if e > 0 && s.get_char(e - 1) == '\r' {
        let r = s.substring_char(0, e - 1).to_owned();
        proof {
            assert(s@.take(e as int).drop_last() =~= s@.subrange(0, e - 1));
        }
        r
    } else {
        let r = s.substring_char(0, e).to_owned();
        proof {
            assert(s@.take(e as int) =~= s@.subrange(0, e as int));
        }
        r
    }
}

/// Splits `s` into its lines.
pub fn split_lines(s: &str) -> (r: Vec<String>)
    ensures
        r@.map_values(|l: String| l@) == lines_of(s@),
    decreases s@.len(),
{
    let n = s.unicode_len();
    if n == 0 {
        let r: Vec<String> = Vec::new();
        proof {
            assert(r@.map_values(|l: String| l@) =~= lines_of(s@));
        }
        return r;
    }
    let mut i: usize = 0;
    while i < n && s.get_char(i) != '\n'
        invariant
            0 <= i <= n,
            n == s@.len(),
            forall|j: int| 0 <= j < i ==> s@[j] != '\n',
        decreases n - i,
    {
        i += 1;
    }
    proof {
        lemma_line_break_at_is(s@, i as int);
    }
    let line = take_strip_cr(s, i);
    let mut r: Vec<String> = Vec::new();
    r.push(line);
    if i == n {
        proof {
            assert(s@.take(n as int) =~= s@);
            assert(r@.map_values(|l: String| l@) =~= lines_of(s@));
        }
        r
    } else {
        let rest = s.substring_char(i + 1, n);
        let mut tail = split_lines(rest);
        r.append(&mut tail);
        proof {
            assert(rest@ =~= s@.skip(i + 1));
            assert(r@.map_values(|l: String| l@) =~= lines_of(s@));
        }
        r
    }
}

} // verus!
