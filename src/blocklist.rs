//! The blocklist: the set of known disposable-mail domains, read once from
//! newline-separated text and only looked up afterwards.

use vstd::hash_set::StringHashSet;
use vstd::prelude::*;
use vstd::string::*;

use crate::text::{lemma_lacks_char, normalize, normalized, split_once_char};

verus! {

broadcast use vstd::string::group_string_axioms;

/// The pieces of `s` between line feeds, in order. A text that ends in a
/// line feed has an empty last piece; a `\r` before a line feed stays on its
/// line (normalising removes it).
pub open spec fn lines_of(s: Seq<char>) -> Seq<Seq<char>>
    decreases s.len(),
{
    if s.len() == 0 {
        seq![Seq::<char>::empty()]
    } else {
        let rest = lines_of(s.drop_first());
        if s[0] == '\n' {
            seq![Seq::<char>::empty()] + rest
        } else {
            rest.update(0, seq![s[0]] + rest[0])
        }
    }
}

/// A normalised line that names a domain: neither empty nor a comment.
pub open spec fn is_entry(d: Seq<char>) -> bool {
    d.len() > 0 && d[0] != '#'
}

/// The entries among lines that are already normalised.
pub open spec fn entry_set(normal: Seq<Seq<char>>) -> Set<Seq<char>> {
    Set::new(
        |d: Seq<char>|
            exists|i: int| 0 <= i < normal.len() && d == normal[i] && is_entry(#[trigger] normal[i]),
    )
}

/// The domains that a sequence of lines lists.
pub open spec fn entries(lines: Seq<Seq<char>>) -> Set<Seq<char>> {
    entry_set(lines.map_values(|l: Seq<char>| normalized(l)))
}

/// The texts held by a vector of strings.
pub open spec fn texts(v: Seq<String>) -> Seq<Seq<char>> {
    v.map_values(|s: String| s@)
}

/// The set of domains that a blocklist text lists.
pub open spec fn listed_in(text: Seq<char>) -> Set<Seq<char>> {
    entries(lines_of(text))
}

/// Every domain that a blocklist text lists is the normal form of one of
/// its lines, and is neither empty nor a comment.
pub proof fn lemma_listed_are_entries(text: Seq<char>, d: Seq<char>)
    requires
        listed_in(text).contains(d),
    ensures
        is_entry(d),
        exists|i: int| 0 <= i < lines_of(text).len() && d == normalized(lines_of(text)[i]),
{
}

/// A text without line feeds is one line.
proof fn lemma_lines_single(a: Seq<char>)
    requires
        !a.contains('\n'),
    ensures
        lines_of(a) == seq![a],
    decreases a.len(),
{
    if a.len() > 0 {
        let t = a.drop_first();
        lemma_lacks_char(a, '\n');
        lemma_lines_single(t);
        assert(seq![a[0]] + t =~= a);
        assert(lines_of(a) =~= seq![a]);
    } else {
        assert(a =~= Seq::<char>::empty());
        assert(lines_of(a) =~= seq![a]);
    }
}

/// A first line `a` ended by a line feed is split off the rest.
proof fn lemma_lines_split(a: Seq<char>, b: Seq<char>)
    requires
        !a.contains('\n'),
    ensures
        lines_of(a + seq!['\n'] + b) == seq![a] + lines_of(b),
    decreases a.len(),
{
    let s = a + seq!['\n'] + b;
    if a.len() == 0 {
        assert(a =~= Seq::<char>::empty());
        assert(s.drop_first() =~= b);
        assert(s[0] == '\n');
        assert(lines_of(s) =~= seq![a] + lines_of(b));
    } else {
        let t = a.drop_first();
        lemma_lacks_char(a, '\n');
        lemma_lines_split(t, b);
        assert(s.drop_first() =~= t + seq!['\n'] + b);
        assert(s[0] == a[0]);
        assert(seq![a[0]] + t =~= a);
        assert(lines_of(s) =~= seq![a] + lines_of(b));
    }
}

/// Adding one normalised line adds it, if it is an entry.
proof fn lemma_entry_set_push(normal: Seq<Seq<char>>, d: Seq<char>)
    ensures
        entry_set(normal.push(d)) == if is_entry(d) {
            entry_set(normal).insert(d)
        } else {
            entry_set(normal)
        },
{
    let n2 = normal.push(d);
    let expected = if is_entry(d) {
        entry_set(normal).insert(d)
    } else {
        entry_set(normal)
    };
    assert forall|x: Seq<char>| entry_set(n2).contains(x) implies expected.contains(x) by {
        let i = choose|i: int| 0 <= i < n2.len() && x == n2[i] && is_entry(#[trigger] n2[i]);
        if i < normal.len() {
            assert(n2[i] == normal[i]);
        }
    }
    assert forall|x: Seq<char>| expected.contains(x) implies entry_set(n2).contains(x) by {
        if entry_set(normal).contains(x) {
            let i = choose|i: int|
                0 <= i < normal.len() && x == normal[i] && is_entry(#[trigger] normal[i]);
            assert(n2[i] == normal[i]);
        } else {
            assert(n2[normal.len() as int] == d);
        }
    }
    assert(entry_set(n2) =~= expected);
}

/// The known disposable-mail domains, each trimmed and lowercased.
pub struct Blocklist {
    domains: StringHashSet,
}

impl View for Blocklist {
    type V = Set<Seq<char>>;

    closed spec fn view(&self) -> Set<Seq<char>> {
        self.domains@
    }
}

impl Blocklist {
    /// Reads a blocklist from text: one domain per line, compared in
    /// normal form; blank lines and lines that start with `#` are skipped,
    /// and a domain listed twice is kept once.
    pub fn from_text(text: &str) -> (r: Blocklist)
        ensures
            r@ == listed_in(text@),
    {
        let mut normal: Vec<String> = Vec::new();
        let mut rest: &str = text;
        let ghost mut done: Seq<Seq<char>> = Seq::empty();
        let mut more = true;
        proof {
            assert(done + lines_of(rest@) =~= lines_of(text@));
            assert(texts(normal@) =~= done.map_values(|l: Seq<char>| normalized(l)));
        }
        while more
            invariant
                more ==> lines_of(text@) == done + lines_of(rest@),
                !more ==> lines_of(text@) == done,
                texts(normal@) == done.map_values(|l: Seq<char>| normalized(l)),
            decreases rest@.len() + if more {
                1int
            } else {
                0int
            },
        {
            let line: &str;
            match split_once_char(rest, '\n') {
                Some((a, b)) => {
                    proof {
                        lemma_lines_split(a@, b@);
                        assert(done + lines_of(rest@) =~= done.push(a@) + lines_of(b@));
                    }
                    line = a;
                    rest = b;
                },
                None => {
                    proof {
                        lemma_lines_single(rest@);
                        assert(done + lines_of(rest@) =~= done.push(rest@));
                    }
                    line = rest;
                    more = false;
                },
            }
            let d = normalize(line);
            let ghost before = normal@;
            let ghost d_text = d@;
            proof {
                done = done.push(line@);
            }
            normal.push(d);
            proof {
                assert(normal@ == before.push(d));
                assert(texts(normal@) =~= texts(before).push(d_text));
                assert(texts(normal@) =~= done.map_values(|l: Seq<char>| normalized(l)));
            }
        }
        Blocklist::from_normalized(&normal)
    }

    /// Builds a blocklist from lines that are already normalised, keeping
    /// those that are neither empty nor a comment.
    pub fn from_normalized(lines: &Vec<String>) -> (r: Blocklist)
        ensures
            r@ == entry_set(texts(lines@)),
    {
        let mut domains = StringHashSet::new();
        let n = lines.len();
        let mut i: usize = 0;
        proof {
            assert(texts(lines@).take(0) =~= Seq::<Seq<char>>::empty());
            assert(entry_set(Seq::<Seq<char>>::empty()) =~= Set::<Seq<char>>::empty());
        }
        while i < n
            invariant
                n == lines@.len(),
                i <= n,
                domains@ == entry_set(texts(lines@).take(i as int)),
            decreases n - i,
        {
            let d = &lines[i];
            proof {
                lemma_entry_set_push(texts(lines@).take(i as int), d@);
                assert(texts(lines@).take(i + 1) =~= texts(lines@).take(i as int).push(d@));
            }
            if !d.as_str().is_empty() && d.as_str().get_char(0) != '#' {
                domains.insert(d.clone());
            }
            i = i + 1;
        }
        proof {
            assert(texts(lines@).take(n as int) =~= texts(lines@));
        }
        Blocklist { domains }
    }

    /// The number of domains listed.
    pub fn len(&self) -> (r: usize)
        ensures
            r == self@.len(),
    {
        self.domains.len()
    }

    /// Whether `domain` is listed exactly as given (no normalisation).
    pub fn contains_exact(&self, domain: &str) -> (r: bool)
        ensures
            r == self@.contains(domain@),
    {
        self.domains.contains(domain)
    }
}

} // verus!
