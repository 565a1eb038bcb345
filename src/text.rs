//! Text helpers: Unicode whitespace trimming, lowercasing, and the
//! normal form that domains are compared in.

use vstd::prelude::*;
use vstd::std_specs::iter::IteratorSpec;
use vstd::string::*;

verus! {

broadcast use vstd::string::group_string_axioms;

/// The characters with the Unicode `White_Space` property.
pub open spec fn is_space(c: char) -> bool {
    let u = c as u32;
    ||| 0x09 <= u <= 0x0D
    ||| u == 0x20
    ||| u == 0x85
    ||| u == 0xA0
    ||| u == 0x1680
    ||| 0x2000 <= u <= 0x200A
    ||| u == 0x2028
    ||| u == 0x2029
    ||| u == 0x202F
    ||| u == 0x205F
    ||| u == 0x3000
}

/// `s` without its leading whitespace.
pub open spec fn trim_start(s: Seq<char>) -> Seq<char>
    decreases s.len(),
{
    if s.len() > 0 && is_space(s[0]) {
        trim_start(s.drop_first())
    } else {
        s
    }
}

/// `s` without its trailing whitespace.
pub open spec fn trim_end(s: Seq<char>) -> Seq<char>
    decreases s.len(),
{
    if s.len() > 0 && is_space(s.last()) {
        trim_end(s.drop_last())
    } else {
        s
    }
}

/// `s` without leading or trailing whitespace.
pub open spec fn trimmed(s: Seq<char>) -> Seq<char> {
    trim_end(trim_start(s))
}

/// Whether `c` is Unicode whitespace.
pub fn is_space_char(c: char) -> (r: bool)
    ensures
        r == is_space(c),
{
    let u = c as u32;
    (0x09 <= u && u <= 0x0D) || u == 0x20 || u == 0x85 || u == 0xA0 || u == 0x1680 || (0x2000
        <= u && u <= 0x200A) || u == 0x2028 || u == 0x2029 || u == 0x202F || u == 0x205F || u
        == 0x3000
}

proof fn lemma_trim_start_skip(s: Seq<char>, i: int)
    requires
        0 <= i <= s.len(),
        forall|k: int| 0 <= k < i ==> is_space(#[trigger] s[k]),
    ensures
        trim_start(s) == trim_start(s.skip(i)),
    decreases i,
{
    if i == 0 {
        assert(s.skip(0) =~= s);
    } else {
        assert(is_space(s[0]));
        let t = s.drop_first();
        assert forall|k: int| 0 <= k < i - 1 implies is_space(#[trigger] t[k]) by {
            assert(t[k] == s[k + 1]);
        }
        lemma_trim_start_skip(t, i - 1);
        assert(t.skip(i - 1) =~= s.skip(i));
    }
}

proof fn lemma_trim_end_take(s: Seq<char>, m: int)
    requires
        0 <= m <= s.len(),
        forall|k: int| m <= k < s.len() ==> is_space(#[trigger] s[k]),
    ensures
        trim_end(s) == trim_end(s.take(m)),
    decreases s.len() - m,
{
    if m == s.len() {
        assert(s.take(m) =~= s);
    } else {
        assert(is_space(s.last()));
        let t = s.drop_last();
        assert forall|k: int| m <= k < t.len() implies is_space(#[trigger] t[k]) by {
            assert(t[k] == s[k]);
        }
        lemma_trim_end_take(t, m);
        assert(t.take(m) =~= s.take(m));
    }
}

proof fn lemma_trim_start_append(s: Seq<char>, post: Seq<char>)
    ensures
        trim_start(s).len() > 0 ==> trim_start(s + post) == trim_start(s) + post,
        trim_start(s).len() == 0 ==> trim_start(s + post) == trim_start(post),
    decreases s.len(),
{
    let x = s + post;
    if s.len() == 0 {
        assert(x =~= post);
    } else {
        assert(x[0] == s[0]);
        assert(x.drop_first() =~= s.drop_first() + post);
        if is_space(s[0]) {
            lemma_trim_start_append(s.drop_first(), post);
        }
    }
}

/// Whitespace around a text does not change its trimmed form.
pub proof fn lemma_trimmed_padding(s: Seq<char>, pre: Seq<char>, post: Seq<char>)
    requires
        forall|k: int| 0 <= k < pre.len() ==> is_space(#[trigger] pre[k]),
        forall|k: int| 0 <= k < post.len() ==> is_space(#[trigger] post[k]),
    ensures
        trimmed(pre + s + post) == trimmed(s),
{
    let x = pre + s + post;
    assert forall|k: int| 0 <= k < pre.len() implies is_space(#[trigger] x[k]) by {
        assert(x[k] == pre[k]);
    }
    lemma_trim_start_skip(x, pre.len() as int);
    assert(x.skip(pre.len() as int) =~= s + post);
    lemma_trim_start_append(s, post);
    let t = trim_start(s);
    if t.len() > 0 {
        let y = t + post;
        assert forall|k: int| t.len() <= k < y.len() implies is_space(#[trigger] y[k]) by {
            assert(y[k] == post[k - t.len()]);
        }
        lemma_trim_end_take(y, t.len() as int);
        assert(y.take(t.len() as int) =~= t);
    } else {
        lemma_trim_start_skip(post, post.len() as int);
        assert(trim_start(post.skip(post.len() as int)) =~= Seq::<char>::empty());
        assert(t =~= Seq::<char>::empty());
    }
}

/// Removes leading and trailing Unicode whitespace.
pub fn trim(s: &str) -> (r: &str)
    ensures
        r@ == trimmed(s@),
{
    let n = s.unicode_len();
    let mut it = s.chars();
    let mut i: usize = 0;
    let mut seen = false;
    let mut first: usize = 0;
    let mut end: usize = 0;
    while i < n
        invariant
            n == s@.len(),
            i <= n,
            it.remaining() == s@.skip(i as int),
            !seen ==> forall|k: int| 0 <= k < i ==> is_space(#[trigger] s@[k]),
            seen ==> {
                &&& first < end <= i
                &&& !is_space(s@[first as int])
                &&& !is_space(s@[end - 1])
                &&& forall|k: int| 0 <= k < first ==> is_space(#[trigger] s@[k])
                &&& forall|k: int| end <= k < i ==> is_space(#[trigger] s@[k])
            },
        decreases n - i,
    {
        let c = match it.next() {
            Some(c) => c,
            None => {
                assert(false);
                ' '
            },
        };
        assert(c == s@[i as int]);
        assert(s@.skip(i as int).drop_first() =~= s@.skip(i + 1));
        if !is_space_char(c) {
            if !seen {
                seen = true;
                first = i;
            }
            end = i + 1;
        }
        i = i + 1;
    }
    if seen {
        proof {
            lemma_trim_start_skip(s@, first as int);
            let t = s@.skip(first as int);
            assert(trim_start(t) == t);
            assert forall|k: int| end - first <= k < t.len() implies is_space(#[trigger] t[k]) by {
                assert(t[k] == s@[k + first]);
            }
            lemma_trim_end_take(t, end - first);
            let u = t.take(end - first);
            assert(u.last() == s@[end - 1]);
            assert(trim_end(u) == u);
            assert(u =~= s@.subrange(first as int, end as int));
        }
        s.substring_char(first, end)
    } else {
        proof {
            lemma_trim_start_skip(s@, n as int);
            assert(trim_start(s@.skip(n as int)) =~= Seq::<char>::empty());
        }
        s.substring_char(n, n)
    }
}

/// A nonempty text without `c` starts with another character, and its tail
/// has no `c` either.
pub proof fn lemma_lacks_char(a: Seq<char>, c: char)
    requires
        a.len() > 0,
        !a.contains(c),
    ensures
        a[0] != c,
        !a.drop_first().contains(c),
{
    let t = a.drop_first();
    if t.contains(c) {
        let k = choose|k: int| 0 <= k < t.len() && t[k] == c;
        assert(a[k + 1] == c);
    }
    if a[0] == c {
        assert(a.contains(c));
    }
}

/// What `str::to_lowercase` makes of a sequence of characters.
pub uninterp spec fn lower_of(s: Seq<char>) -> Seq<char>;

/// Relies on `str::to_lowercase`: the Unicode lowercase mapping of the
/// characters, which depends on them alone.
#[verifier::external_body]
fn lowercase(s: &str) -> (r: String)
    ensures
        r@ == lower_of(s@),
{
    s.to_lowercase()
}

/// The form in which domains are compared: trimmed, then lowercased.
pub open spec fn normalized(s: Seq<char>) -> Seq<char> {
    lower_of(trimmed(s))
}

/// Trims `s` and lowercases what is left.
pub fn normalize(s: &str) -> (r: String)
    ensures
        r@ == normalized(s@),
{
    lowercase(trim(s))
}

/// Relies on `str::split_once` with a `char` pattern: it splits around the
/// first occurrence of `sep`, or gives `None` when `sep` does not occur.
#[verifier::external_body]
pub(crate) fn split_once_char(s: &str, sep: char) -> (r: Option<(&str, &str)>)
    ensures
        match r {
            None => !s@.contains(sep),
            Some((a, b)) => s@ == a@ + seq![sep] + b@ && !a@.contains(sep),
        },
{
    s.split_once(sep)
}

} // verus!
