//! The persisted configuration: one optional target repository path and an
//! ordered list of source repository paths, and its plain line-based text
//! form (`this=<path>` and `read=<path>` lines).
//!
//! Reading and writing the file itself is the application's work; the
//! parsing and rendering of its content live here.

use crate::lines::lemma_lines_head;
use crate::lines::lemma_lines_single;
use crate::lines::lines_of;
use crate::lines::split_lines;
use crate::lines::strip_cr;
use crate::text::no_newline;
use crate::text::str_starts_with;
use vstd::prelude::*;

verus! {

/// The mirroring configuration: the target repository and the source
/// repositories, as canonical path strings.
pub struct VanityConfig {
    /// The target repository vanity commits are written to.
    pub this_repo: Option<String>,
    /// The source repositories whose history is mirrored, in order.
    pub read_repos: Vec<String>,
}

/// The mathematical value of a [`VanityConfig`].
#[verifier::ext_equal]
pub struct VanityConfigView {
    pub this_repo: Option<Seq<char>>,
    pub read_repos: Seq<Seq<char>>,
}

impl View for VanityConfig {
    type V = VanityConfigView;

    open spec fn view(&self) -> VanityConfigView {
        VanityConfigView {
            this_repo: match self.this_repo {
                Some(p) => Some(p@),
                None => None,
            },
            read_repos: self.read_repos@.map_values(|p: String| p@),
        }
    }
}

impl Default for VanityConfig {
    /// The empty configuration: no target, no sources.
    fn default() -> (r: Self)
        ensures
            r@.this_repo is None,
            r@.read_repos == Seq::<Seq<char>>::empty(),
    {
        let r = VanityConfig { this_repo: None, read_repos: Vec::new() };
        proof {
            assert(r@.read_repos =~= Seq::<Seq<char>>::empty());
        }
        r
    }
}

/// The configuration a sequence of lines describes: the last `this=` line
/// wins, `read=` lines accumulate in order, other lines are ignored.
pub open spec fn parse_lines_spec(ls: Seq<Seq<char>>) -> VanityConfigView
    decreases ls.len(),
{
    if ls.len() == 0 {
        VanityConfigView { this_repo: None, read_repos: Seq::empty() }
    } else {
        let prev = parse_lines_spec(ls.drop_last());
        let l = ls.last();
        if "this="@.is_prefix_of(l) {
            VanityConfigView { this_repo: Some(l.skip(5)), read_repos: prev.read_repos }
        } else if "read="@.is_prefix_of(l) {
            VanityConfigView {
                this_repo: prev.this_repo,
                read_repos: prev.read_repos.push(l.skip(5)),
            }
        } else {
            prev
        }
    }
}

/// The configuration a config file's content describes.
pub open spec fn parse_config_spec(content: Seq<char>) -> VanityConfigView {
    parse_lines_spec(lines_of(content))
}

/// Parses config file content (see [`parse_config_spec`]).
pub fn parse_config(content: &str) -> (r: VanityConfig)
    ensures
        r@ == parse_config_spec(content@),
{
    let lines = split_lines(content);
    let ghost ls = lines_of(content@);
    let mut config = VanityConfig::default();
    proof {
        assert(config@ =~= parse_lines_spec(ls.take(0)));
    }
    let n = lines.len();
    let mut i: usize = 0;
    while i < n
        invariant
            0 <= i <= n,
            n == lines@.len(),
            ls == lines_of(content@),
            lines@.map_values(|l: String| l@) == ls,
            config@ == parse_lines_spec(ls.take(i as int)),
        decreases n - i,
    {
        let line = &lines[i];
        let nl = line.as_str().unicode_len();
        proof {
            assert(lines@.map_values(|l: String| l@)[i as int] == ls[i as int]);
            assert(ls.take(i as int + 1).drop_last() =~= ls.take(i as int));
        }
        if str_starts_with(line.as_str(), "this=") {
            proof {
                reveal_strlit("this=");
            }
            let value = line.as_str().substring_char(5, nl).to_owned();
            proof {
                assert(value@ =~= ls[i as int].skip(5));
            }
            config.this_repo = Some(value);
        } else if str_starts_with(line.as_str(), "read=") {
            proof {
                reveal_strlit("read=");
            }
            let value = line.as_str().substring_char(5, nl).to_owned();
            proof {
                assert(value@ =~= ls[i as int].skip(5));
            }
            let ghost prev = config@.read_repos;
            config.read_repos.push(value);
            proof {
                assert(config@.read_repos =~= prev.push(ls[i as int].skip(5)));
            }
        }
        i += 1;
    }
    proof {
        assert(ls.take(n as int) =~= ls);
    }
    config
}

/// The lines the configuration is saved as: the target first, then each
/// source in order.
pub open spec fn config_lines_spec(c: VanityConfigView) -> Seq<Seq<char>> {
    let head: Seq<Seq<char>> = match c.this_repo {
        Some(p) => seq!["this="@ + p],
        None => Seq::empty(),
    };
    head + c.read_repos.map_values(|p: Seq<char>| "read="@ + p)
}

/// Lines joined with single line feeds, no trailing one.
pub open spec fn join_lines_spec(ls: Seq<Seq<char>>) -> Seq<char>
    decreases ls.len(),
{
    if ls.len() == 0 {
        Seq::empty()
    } else if ls.len() == 1 {
        ls[0]
    } else {
        join_lines_spec(ls.drop_last()) + seq!['\n'] + ls.last()
    }
}

/// Renders the configuration as config file content: the joined
/// [`config_lines_spec`] lines.
pub fn render_config(config: &VanityConfig) -> (r: String)
    ensures
        r@ == join_lines_spec(config_lines_spec(config@)),
{
    let ghost cls = config_lines_spec(config@);
    let mut out = String::new();
    let has_head = config.this_repo.is_some();
    let ghost mut done: int = 0;
    match &config.this_repo {
        Some(p) => {
            out.append("this=");
            out.append(p.as_str());
            proof {
                done = 1;
                assert(cls.take(1) =~= seq!["this="@ + p@]);
                assert(out@ =~= join_lines_spec(cls.take(1)));
            }
        },
        None => {
            proof {
                assert(out@ =~= join_lines_spec(cls.take(0)));
            }
        },
    }
    let n = config.read_repos.len();
    let mut i: usize = 0;
    while i < n
        invariant
            0 <= i <= n,
            n == config.read_repos@.len(),
            cls == config_lines_spec(config@),
            has_head == config@.this_repo is Some,
            done == i + if has_head {
                1int
            } else {
                0int
            },
            cls.len() == n + if has_head {
                1int
            } else {
                0int
            },
            out@ == join_lines_spec(cls.take(done)),
        decreases n - i,
    {
        if i > 0 || has_head {
            out.append("\n");
        }
        out.append("read=");
        out.append(config.read_repos[i].as_str());
        proof {
            reveal_strlit("\n");
            assert(cls[done] == "read="@ + config.read_repos@[i as int]@);
            assert(cls.take(done + 1).drop_last() =~= cls.take(done));
            assert(cls.take(done + 1).last() == cls[done]);
            if done == 0 {
                assert(out@ =~= join_lines_spec(cls.take(done + 1)));
            } else {
                assert(out@ =~= join_lines_spec(cls.take(done)) + seq!['\n'] + cls[done]);
                assert(out@ =~= join_lines_spec(cls.take(done + 1)));
            }
            done = done + 1;
        }
        i += 1;
    }
    proof {
        assert(cls.take(done) =~= cls);
    }
    out
}

/// A path that stays on its own config line: no line feed inside, no
/// trailing carriage return to be eaten by line splitting.
pub open spec fn line_safe(p: Seq<char>) -> bool {
    no_newline(p) && (p.len() > 0 ==> p.last() != '\r')
}

proof fn lemma_join_front(ls: Seq<Seq<char>>)
    requires
        ls.len() >= 2,
    ensures
        join_lines_spec(ls) == ls[0] + seq!['\n'] + join_lines_spec(ls.drop_first()),
    decreases ls.len(),
{
    if ls.len() == 2 {
        assert(ls.drop_last()[0] == ls[0]);
        assert(join_lines_spec(ls.drop_last()) == ls[0]);
        assert(ls.drop_first()[0] == ls[1]);
        assert(join_lines_spec(ls.drop_first()) == ls[1]);
    } else {
        lemma_join_front(ls.drop_last());
        assert(ls.drop_last()[0] == ls[0]);
        assert(ls.drop_last().drop_first() =~= ls.drop_first().drop_last());
        assert(ls.drop_first().len() >= 2);
        assert(ls.drop_first().last() == ls.last());
        assert(join_lines_spec(ls.drop_first()) == join_lines_spec(ls.drop_first().drop_last())
            + seq!['\n'] + ls.last());
        assert((ls[0] + seq!['\n'] + join_lines_spec(ls.drop_first().drop_last())) + seq!['\n']
            + ls.last() =~= ls[0] + seq!['\n'] + join_lines_spec(ls.drop_first()));
    }
}

proof fn lemma_lines_of_join(ls: Seq<Seq<char>>)
    requires
        forall|i: int|
            0 <= i < ls.len() ==> (#[trigger] ls[i]).len() > 0 && no_newline(ls[i])
                && ls[i].last() != '\r',
    ensures
        lines_of(join_lines_spec(ls)) == ls,
    decreases ls.len(),
{
    if ls.len() == 0 {
        assert(lines_of(join_lines_spec(ls)) =~= ls);
    } else if ls.len() == 1 {
        lemma_lines_single(ls[0]);
        assert(strip_cr(ls[0]) == ls[0]);
        assert(lines_of(join_lines_spec(ls)) =~= ls);
    } else {
        lemma_join_front(ls);
        lemma_lines_head(ls[0], join_lines_spec(ls.drop_first()));
        lemma_lines_of_join(ls.drop_first());
        assert(strip_cr(ls[0]) == ls[0]);
        assert(seq![ls[0]] + ls.drop_first() =~= ls);
    }
}

proof fn lemma_parse_config_lines(c: VanityConfigView)
    requires
        c.this_repo matches Some(p) ==> no_newline(p),
        forall|i: int| 0 <= i < c.read_repos.len() ==> no_newline(#[trigger] c.read_repos[i]),
    ensures
        parse_lines_spec(config_lines_spec(c)) == c,
    decreases c.read_repos.len(),
{
    reveal_strlit("this=");
    reveal_strlit("read=");
    let ls = config_lines_spec(c);
    if c.read_repos.len() == 0 {
        match c.this_repo {
            None => {
                assert(ls =~= Seq::<Seq<char>>::empty());
                assert(parse_lines_spec(ls) =~= c);
            },
            Some(p) => {
                assert(ls =~= seq!["this="@ + p]);
                let l = ls.last();
                assert(l.take(5) =~= "this="@);
                assert("this="@.is_prefix_of(l));
                assert(l.skip(5) =~= p);
                assert(ls.drop_last() =~= Seq::<Seq<char>>::empty());
                assert(parse_lines_spec(Seq::<Seq<char>>::empty()).read_repos
                    =~= Seq::<Seq<char>>::empty());
                assert(parse_lines_spec(ls).this_repo == Some(l.skip(5)));
                assert(l.skip(5) == p);
                assert(parse_lines_spec(ls).read_repos =~= c.read_repos);
                assert(parse_lines_spec(ls) =~= c);
            },
        }
    } else {
        let c0 = VanityConfigView {
            this_repo: c.this_repo,
            read_repos: c.read_repos.drop_last(),
        };
        lemma_parse_config_lines(c0);
        assert(config_lines_spec(c0) =~= ls.drop_last());
        let l = ls.last();
        assert(l == "read="@ + c.read_repos.last());
        assert(l.take(5) =~= "read="@);
        assert("read="@.is_prefix_of(l));
        if "this="@.is_prefix_of(l) {
            assert(l[0] == "this="@[0]);
            assert(l[0] == "read="@[0]);
            assert(false);
        }
        assert(l.skip(5) =~= c.read_repos.last());
        assert(parse_lines_spec(ls).read_repos =~= c.read_repos);
        assert(parse_lines_spec(ls) =~= c);
    }
}

/// Saving and re-loading preserves the configuration: parsing the rendered
/// config file content yields the configuration it was rendered from, as
/// long as every configured path stays on its own line.
pub proof fn lemma_config_round_trip(c: VanityConfigView)
    requires
        c.this_repo matches Some(p) ==> line_safe(p),
        forall|i: int| 0 <= i < c.read_repos.len() ==> line_safe(#[trigger] c.read_repos[i]),
    ensures
        parse_config_spec(join_lines_spec(config_lines_spec(c))) == c,
{
    reveal_strlit("this=");
    reveal_strlit("read=");
    let ls = config_lines_spec(c);
    assert forall|i: int|
        0 <= i < ls.len() implies (#[trigger] ls[i]).len() > 0 && no_newline(ls[i]) && ls[i].last()
        != '\r' by {
        match c.this_repo {
            Some(p) => {
                if i == 0 {
                    assert(ls[i] == "this="@ + p);
                    if p.len() == 0 {
                        assert(ls[i].last() == '=');
                    } else {
                        assert(ls[i].last() == p.last());
                    }
                } else {
                    assert(ls[i] == "read="@ + c.read_repos[i - 1]);
                    let q = c.read_repos[i - 1];
                    if q.len() == 0 {
                        assert(ls[i].last() == '=');
                    } else {
                        assert(ls[i].last() == q.last());
                    }
                }
            },
            None => {
                assert(ls[i] == "read="@ + c.read_repos[i]);
                let q = c.read_repos[i];
                if q.len() == 0 {
                    assert(ls[i].last() == '=');
                } else {
                    assert(ls[i].last() == q.last());
                }
            },
        }
    }
    lemma_lines_of_join(ls);
    lemma_parse_config_lines(c);
}

impl VanityConfig {
    /// Sets the target repository to the given canonical path and returns
    /// the path.
    pub fn set_this_repo(&mut self, path: String) -> (r: String)
        ensures
            final(self)@.this_repo == Some(path@),
            final(self)@.read_repos == old(self)@.read_repos,
            r@ == path@,
    {
        let r = path.clone();
        self.this_repo = Some(path);
        r
    }

    /// Whether a source repository path is already configured.
    pub fn has_read_repo(&self, path: &String) -> (b: bool)
        ensures
            b == self@.read_repos.contains(path@),
    {
        let n = self.read_repos.len();
        let ghost rs = self@.read_repos;
        let mut i: usize = 0;
        while i < n
            invariant
                0 <= i <= n,
                n == self.read_repos@.len(),
                rs == self@.read_repos,
                forall|j: int| 0 <= j < i ==> rs[j] != path@,
            decreases n - i,
        {
            assert(rs[i as int] == self.read_repos@[i as int]@);
            if self.read_repos[i].eq(path) {
                return true;
            }
            i += 1;
        }
        assert(!rs.contains(path@));
        false
    }

    /// Adds a source repository by its canonical path, unless it is already
    /// configured, and returns the path.
    pub fn add_read_repo(&mut self, path: String) -> (r: String)
        ensures
            final(self)@.this_repo == old(self)@.this_repo,
            final(self)@.read_repos == if old(self)@.read_repos.contains(path@) {
                old(self)@.read_repos
            } else {
                old(self)@.read_repos.push(path@)
            },
            r@ == path@,
    {
        let r = path.clone();
        if !self.has_read_repo(&path) {
            let ghost prev = self@.read_repos;
            self.read_repos.push(path);
            proof {
                assert(self@.read_repos =~= prev.push(r@));
            }
        }
        r
    }
}

} // verus!
