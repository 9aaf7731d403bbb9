//! The provenance marker: the `Vanity-Source-Commit: ` line embedded in every
//! mirrored commit message, and the scanner that recovers the set of already
//! mirrored source hashes from a target repository's commit messages.
//!
//! A marker line is recognized by its fixed prefix; what follows is trimmed,
//! folded to lowercase, and accepted only if it is exactly 40 hexadecimal
//! characters. Malformed candidates are ignored, since target history may
//! hold unrelated commits.

use crate::chars::all_hex;
use crate::chars::is_hex_char;
use crate::chars::lower_hex;
use crate::chars::lower_hex_char;
use crate::chars::str_all_hex;
use crate::lines::lines_of;
use crate::lines::split_lines;
use crate::numeral::digit_str;
use crate::text::str_starts_with;
use crate::text::trim_spec;
use crate::text::trimmed;
use vstd::prelude::*;

verus! {

/// The literal every marker line starts with.
pub open spec fn marker_prefix_spec() -> Seq<char> {
    "Vanity-Source-Commit: "@
}

/// The literal every marker line starts with.
pub fn marker_prefix() -> (r: &'static str)
    ensures
        r@ == marker_prefix_spec(),
{
    "Vanity-Source-Commit: "
}

/// The source hash a single line records, if the line is a well-formed
/// marker.
pub open spec fn line_marker(line: Seq<char>) -> Option<Seq<char>> {
    let p = marker_prefix_spec();
    if p.is_prefix_of(line) {
        let t = trim_spec(line.skip(p.len() as int));
        if t.len() == 40 && all_hex(t) {
            Some(lower_hex(t))
        } else {
            None
        }
    } else {
        None
    }
}

/// Every source hash some line of `m` records.
pub open spec fn message_markers(m: Seq<char>) -> Set<Seq<char>> {
    Set::new(
        |h: Seq<char>|
            exists|i: int|
                0 <= i < lines_of(m).len() && line_marker(#[trigger] lines_of(m)[i]) == Some(h),
    )
}

fn hex_char_str(c: char) -> (r: &'static str)
    requires
        is_hex_char(c),
    ensures
        r@ =~= seq![lower_hex_char(c)],
{
    let u = c as u32;
    proof {
        vstd::utf8::char_u32_cast(c, u);
    }
    if u <= 0x39 {
        digit_str((u - 0x30) as u64)
    } else if u == 0x61 || u == 0x41 {
        proof {
            reveal_strlit("a");
        }
        "a"
    } else if u == 0x62 || u == 0x42 {
        proof {
            reveal_strlit("b");
        }
        "b"
    } else if u == 0x63 || u == 0x43 {
        proof {
            reveal_strlit("c");
        }
        "c"
    } else if u == 0x64 || u == 0x44 {
        proof {
            reveal_strlit("d");
        }
        "d"
    } else if u == 0x65 || u == 0x45 {
        proof {
            reveal_strlit("e");
        }
        "e"
    } else {
        proof {
            reveal_strlit("f");
        }
        "f"
    }
}

/// Folds a string of hexadecimal digits to lowercase.
fn fold_hex_lower(s: &str) -> (r: String)
    requires
        all_hex(s@),
    ensures
        r@ == lower_hex(s@),
{
    let n = s.unicode_len();
    let mut r = String::new();
    let mut i: usize = 0;
    while i < n
        invariant
            0 <= i <= n,
            n == s@.len(),
            all_hex(s@),
            r@ == lower_hex(s@.take(i as int)),
        decreases n - i,
    {
        let c = s.get_char(i);
        r.append(hex_char_str(c));
        proof {
            assert(lower_hex(s@.take(i as int)) + seq![lower_hex_char(c)] =~= lower_hex(
                s@.take(i + 1),
            ));
        }
        i += 1;
    }
    proof {
        assert(s@.take(n as int) =~= s@);
    }
    r
}

/// Scans one line of a commit message for a marker, returning the normalized
/// source hash it records.
pub fn scan_line(line: &str) -> (r: Option<String>)
    ensures
        match r {
            Some(h) => line_marker(line@) == Some(h@),
            None => line_marker(line@) is None,
        },
{
    let p = marker_prefix();
    if !str_starts_with(line, p) {
        return None;
    }
    let np = p.unicode_len();
    let n = line.unicode_len();
    let rest = line.substring_char(np, n);
    proof {
        assert(rest@ =~= line@.skip(np as int));
    }
    let t = trimmed(rest);
    if t.unicode_len() == 40 && str_all_hex(t) {
        Some(fold_hex_lower(t))
    } else {
        None
    }
}

/// The set of source hashes already mirrored into the target repository,
/// as recovered from its commit messages.
pub struct MirroredMarkerSet {
    entries: Vec<String>,
}

impl View for MirroredMarkerSet {
    type V = Set<Seq<char>>;

    closed spec fn view(&self) -> Set<Seq<char>> {
        self.entries@.map_values(|s: String| s@).to_set()
    }
}

impl MirroredMarkerSet {
    /// The recorded hashes are held each exactly once, so the count of
    /// entries is the cardinality of the set. Every constructor and mutator
    /// preserves this.
    pub closed spec fn wf(self) -> bool {
        self.entries@.map_values(|s: String| s@).no_duplicates()
    }

    /// An empty set.
    pub fn new() -> (r: Self)
        ensures
            r@ == Set::<Seq<char>>::empty(),
            r.wf(),
    {
        let r = MirroredMarkerSet { entries: Vec::new() };
        proof {
            assert(r.entries@.map_values(|s: String| s@) =~= Seq::<Seq<char>>::empty());
            assert(r@ =~= Set::<Seq<char>>::empty());
        }
        r
    }

    /// Whether `h` is recorded.
    pub fn contains(&self, h: &String) -> (b: bool)
        ensures
            b == self@.contains(h@),
    {
        let ghost vs = self.entries@.map_values(|s: String| s@);
        let n = self.entries.len();
        let mut i: usize = 0;
        while i < n
            invariant
                0 <= i <= n,
                n == self.entries@.len(),
                vs == self.entries@.map_values(|s: String| s@),
                forall|j: int| 0 <= j < i ==> vs[j] != h@,
            decreases n - i,
        {
            if self.entries[i].eq(h) {
                assert(vs[i as int] == h@);
                return true;
            }
            i += 1;
        }
        assert(!vs.contains(h@));
        false
    }

    /// Records `h`.
    pub fn insert(&mut self, h: String)
        requires
            old(self).wf(),
        ensures
            final(self)@ == old(self)@.insert(h@),
            final(self).wf(),
    {
        if self.contains(&h) {
            proof {
                assert(self@.insert(h@) =~= self@);
            }
        } else {
            let ghost vs = self.entries@.map_values(|s: String| s@);
            self.entries.push(h);
            proof {
                assert(self.entries@.map_values(|s: String| s@) =~= vs + seq![h@]);
                Seq::lemma_to_set_insert_commutes(vs, h@);
            }
        }
    }

    /// How many distinct hashes are recorded.
    pub fn len(&self) -> (n: usize)
        requires
            self.wf(),
        ensures
            n == self@.len(),
    {
        proof {
            self.entries@.map_values(|s: String| s@).unique_seq_to_set();
        }
        self.entries.len()
    }

    /// Records every marker the given commit message holds.
    pub fn add_from_message(&mut self, message: &str)
        requires
            old(self).wf(),
        ensures
            final(self)@ == old(self)@.union(message_markers(message@)),
            final(self).wf(),
    {
        let lines = split_lines(message);
        let ghost ls = lines_of(message@);
        let n = lines.len();
        let mut i: usize = 0;
        while i < n
            invariant
                0 <= i <= n,
                n == lines@.len(),
                ls == lines_of(message@),
                lines@.map_values(|l: String| l@) == ls,
                self.wf(),
                self@ == old(self)@.union(
                    Set::new(
                        |h: Seq<char>|
                            exists|j: int|
                                0 <= j < i && line_marker(#[trigger] ls[j]) == Some(h),
                    ),
                ),
            decreases n - i,
        {
            let ghost before = self@;
            match scan_line(lines[i].as_str()) {
                Some(h) => {
                    proof {
                        assert(lines@.map_values(|l: String| l@)[i as int] == ls[i as int]);
                    }
                    self.insert(h);
                },
                None => {
                    proof {
                        assert(lines@.map_values(|l: String| l@)[i as int] == ls[i as int]);
                    }
                },
            }
            proof {
                assert(self@ =~= old(self)@.union(
                    Set::new(
                        |h: Seq<char>|
                            exists|j: int|
                                0 <= j < i + 1 && line_marker(#[trigger] ls[j]) == Some(h),
                    ),
                ));
            }
            i += 1;
        }
        proof {
            assert(self@ =~= old(self)@.union(message_markers(message@)));
        }
    }
}

} // verus!
