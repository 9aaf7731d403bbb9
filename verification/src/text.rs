//! Text helpers shared by the engine: whitespace trimming with `str::trim`
//! semantics, prefix tests, and the lexicographic order on character
//! sequences used as the deterministic tiebreak when sorting commits.

use crate::chars::is_space;
use crate::chars::is_space_char;
use vstd::prelude::*;

verus! {

/// `s` without its leading whitespace.
pub open spec fn trim_start_spec(s: Seq<char>) -> Seq<char>
    decreases s.len(),
{
    if s.len() > 0 && is_space_char(s[0]) {
        trim_start_spec(s.drop_first())
    } else {
        s
    }
}

/// `s` without its trailing whitespace.
pub open spec fn trim_end_spec(s: Seq<char>) -> Seq<char>
    decreases s.len(),
{
    if s.len() > 0 && is_space_char(s.last()) {
        trim_end_spec(s.drop_last())
    } else {
        s
    }
}

/// `s` without leading and trailing whitespace, as `str::trim` yields it.
pub open spec fn trim_spec(s: Seq<char>) -> Seq<char> {
    trim_end_spec(trim_start_spec(s))
}

proof fn lemma_trim_start_at(s: Seq<char>, a: int)
    requires
        0 <= a <= s.len(),
        forall|j: int| 0 <= j < a ==> is_space_char(#[trigger] s[j]),
        a < s.len() ==> !is_space_char(s[a]),
    ensures
        trim_start_spec(s) =~= s.skip(a),
    decreases s.len(),
{
    if a == 0 {
        assert(s.skip(0) =~= s);
    } else {
        lemma_trim_start_at(s.drop_first(), a - 1);
        assert(s.drop_first().skip(a - 1) =~= s.skip(a));
    }
}

proof fn lemma_trim_end_at(s: Seq<char>, b: int)
    requires
        0 <= b <= s.len(),
        forall|j: int| b <= j < s.len() ==> is_space_char(#[trigger] s[j]),
        b > 0 ==> !is_space_char(s[b - 1]),
    ensures
        trim_end_spec(s) =~= s.take(b),
    decreases s.len(),
{
    if b == s.len() {
        if s.len() > 0 {
            assert(!is_space_char(s.last()));
        }
        assert(s.take(b) =~= s);
    } else {
        assert(is_space_char(s.last()));
        lemma_trim_end_at(s.drop_last(), b);
        assert(s.drop_last().take(b) =~= s.take(b));
    }
}

/// `s` trimmed of leading and trailing whitespace.
pub fn trimmed<'a>(s: &'a str) -> (r: &'a str)
    ensures
        r@ == trim_spec(s@),
{
    let n = s.unicode_len();
    let mut a: usize = 0;
    while a < n && is_space(s.get_char(a))
        invariant
            0 <= a <= n,
            n == s@.len(),
            forall|j: int| 0 <= j < a ==> is_space_char(#[trigger] s@[j]),
        decreases n - a,
    {
        a += 1;
    }
    let mut b: usize = n;
    while b > a && is_space(s.get_char(b - 1))
        invariant
            a <= b <= n,
            n == s@.len(),
            forall|j: int| b <= j < n ==> is_space_char(#[trigger] s@[j]),
        decreases b,
    {
        b -= 1;
    }
    proof {
        lemma_trim_start_at(s@, a as int);
        let t = s@.skip(a as int);
        lemma_trim_end_at(t, b - a);
        assert(t.take(b - a) =~= s@.subrange(a as int, b as int));
    }
    s.substring_char(a, b)
}

/// `s` holds no line feed, so it stays on one line of any text it is
/// embedded in.
pub open spec fn no_newline(s: Seq<char>) -> bool {
    forall|i: int| 0 <= i < s.len() ==> #[trigger] s[i] != '\n'
}

/// Decides whether a string holds a line feed.
pub fn contains_newline(s: &str) -> (b: bool)
    ensures
        b == !no_newline(s@),
{
    let n = s.unicode_len();
    let mut i: usize = 0;
    while i < n
        invariant
            0 <= i <= n,
            n == s@.len(),
            forall|j: int| 0 <= j < i ==> #[trigger] s@[j] != '\n',
        decreases n - i,
    {
        if s.get_char(i) == '\n' {
            return true;
        }
        i += 1;
    }
    false
}

/// `p` is a prefix of `s`.
pub fn str_starts_with(s: &str, p: &str) -> (b: bool)
    ensures
        b == p@.is_prefix_of(s@),
{
    let ns = s.unicode_len();
    let np = p.unicode_len();
    if np > ns {
        return false;
    }
    let mut i: usize = 0;
    while i < np
        invariant
            0 <= i <= np <= ns,
            ns == s@.len(),
            np == p@.len(),
            forall|j: int| 0 <= j < i ==> s@[j] == p@[j],
        decreases np - i,
    {
        if s.get_char(i) != p.get_char(i) {
            assert(!p@.is_prefix_of(s@));
            return false;
        }
        i += 1;
    }
    proof {
        assert(p@ =~= s@.subrange(0, np as int));
    }
    true
}

/// Strict lexicographic order on character sequences, by Unicode scalar
/// value, with a proper prefix ordered before its extensions.
pub open spec fn lex_lt(a: Seq<char>, b: Seq<char>) -> bool
    decreases a.len() + b.len(),
{
    if b.len() == 0 {
        false
    } else if a.len() == 0 {
        true
    } else if (a[0] as u32) < (b[0] as u32) {
        true
    } else if a[0] == b[0] {
        lex_lt(a.drop_first(), b.drop_first())
    } else {
        false
    }
}

pub proof fn lemma_lex_irrefl(a: Seq<char>)
    ensures
        !lex_lt(a, a),
    decreases a.len(),
{
    if a.len() > 0 {
        lemma_lex_irrefl(a.drop_first());
    }
}

pub proof fn lemma_lex_total(a: Seq<char>, b: Seq<char>)
    ensures
        lex_lt(a, b) || lex_lt(b, a) || a =~= b,
    decreases a.len() + b.len(),
{
    if a.len() > 0 && b.len() > 0 && a[0] == b[0] {
        lemma_lex_total(a.drop_first(), b.drop_first());
        if a.drop_first() =~= b.drop_first() {
            assert forall|i: int| 0 <= i < a.len() implies a[i] == b[i] by {
                if i > 0 {
                    assert(a.drop_first()[i - 1] == b.drop_first()[i - 1]);
                }
            }
            assert(a =~= b);
        }
    } else if a.len() > 0 && b.len() > 0 {
        vstd::utf8::char_u32_cast(a[0], a[0] as u32);
        vstd::utf8::char_u32_cast(b[0], b[0] as u32);
    }
}

pub proof fn lemma_lex_trans(a: Seq<char>, b: Seq<char>, c: Seq<char>)
    requires
        lex_lt(a, b),
        lex_lt(b, c),
    ensures
        lex_lt(a, c),
    decreases a.len() + b.len() + c.len(),
{
    if a.len() > 0 && b.len() > 0 && c.len() > 0 && a[0] == b[0] && b[0] == c[0] {
        lemma_lex_trans(a.drop_first(), b.drop_first(), c.drop_first());
    }
}

pub proof fn lemma_lex_asym(a: Seq<char>, b: Seq<char>)
    requires
        lex_lt(a, b),
    ensures
        !lex_lt(b, a),
{
    if lex_lt(b, a) {
        lemma_lex_trans(a, b, a);
        lemma_lex_irrefl(a);
    }
}

proof fn lemma_lex_skip(a: Seq<char>, b: Seq<char>, i: int)
    requires
        0 <= i <= a.len(),
        i <= b.len(),
        forall|j: int| 0 <= j < i ==> a[j] == b[j],
    ensures
        lex_lt(a, b) == lex_lt(a.skip(i), b.skip(i)),
    decreases i,
{
    if i > 0 {
        assert(a[0] == b[0]);
        assert(a.drop_first().skip(i - 1) =~= a.skip(i));
        assert(b.drop_first().skip(i - 1) =~= b.skip(i));
        lemma_lex_skip(a.drop_first(), b.drop_first(), i - 1);
    } else {
        assert(a.skip(0) =~= a);
        assert(b.skip(0) =~= b);
    }
}

/// Decides the lexicographic order on two strings.
pub fn str_lex_lt(a: &str, b: &str) -> (r: bool)
    ensures
        r == lex_lt(a@, b@),
{
    let na = a.unicode_len();
    let nb = b.unicode_len();
    let mut i: usize = 0;
    loop
        invariant
            0 <= i <= na,
            i <= nb,
            na == a@.len(),
            nb == b@.len(),
            forall|j: int| 0 <= j < i ==> a@[j] == b@[j],
        decreases na - i,
    {
        proof {
            lemma_lex_skip(a@, b@, i as int);
        }
        if i >= na {
            return i < nb;
        }
        if i >= nb {
            return false;
        }
        let ca = a.get_char(i);
        let cb = b.get_char(i);
        if (ca as u32) < (cb as u32) {
            assert(a@.skip(i as int)[0] == ca);
            assert(b@.skip(i as int)[0] == cb);
            return true;
        }
        if ca != cb {
            assert(a@.skip(i as int)[0] == ca);
            assert(b@.skip(i as int)[0] == cb);
            return false;
        }
        i += 1;
    }
}

} // verus!
