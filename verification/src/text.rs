//! Character-sequence utilities: splitting at a separator, joining with a
//! separator, trimming surrounding blanks, and substring search. These carry
//! the lemmas that the reference and manifest parsers build on.

use vstd::prelude::*;

verus! {

/// Tokens of `s` split at every occurrence of `sep`, with `cur` the token
/// accumulated so far. Splitting the empty sequence yields one empty token.
pub open spec fn split_from(s: Seq<char>, sep: char, cur: Seq<char>) -> Seq<Seq<char>>
    decreases s.len(),
{
    if s.len() == 0 {
        seq![cur]
    } else if s[0] == sep {
        seq![cur] + split_from(s.drop_first(), sep, Seq::empty())
    } else {
        split_from(s.drop_first(), sep, cur.push(s[0]))
    }
}

pub open spec fn split_chars(s: Seq<char>, sep: char) -> Seq<Seq<char>> {
    split_from(s, sep, Seq::empty())
}

pub open spec fn join_chars(parts: Seq<Seq<char>>, sep: char) -> Seq<char>
    decreases parts.len(),
{
    if parts.len() == 0 {
        Seq::empty()
    } else if parts.len() == 1 {
        parts[0]
    } else {
        parts[0] + seq![sep] + join_chars(parts.drop_first(), sep)
    }
}

/// The view of every element of a vector of strings.
pub open spec fn views_of(parts: Seq<String>) -> Seq<Seq<char>> {
    parts.map_values(|p: String| p@)
}

pub proof fn lemma_split_from_len(s: Seq<char>, sep: char, cur: Seq<char>)
    ensures
        split_from(s, sep, cur).len() >= 1,
    decreases s.len(),
{
    if s.len() == 0 {
    } else if s[0] == sep {
        lemma_split_from_len(s.drop_first(), sep, Seq::empty());
    } else {
        lemma_split_from_len(s.drop_first(), sep, cur.push(s[0]));
    }
}

/// A stretch with no separator splits into a single token.
pub proof fn lemma_split_from_no_sep(s: Seq<char>, sep: char, cur: Seq<char>)
    requires
        forall|j: int| 0 <= j < s.len() ==> s[j] != sep,
    ensures
        split_from(s, sep, cur) == seq![cur + s],
    decreases s.len(),
{
    if s.len() == 0 {
        assert(cur + s =~= cur);
        assert(split_from(s, sep, cur) =~= seq![cur + s]);
    } else {
        lemma_split_from_no_sep(s.drop_first(), sep, cur.push(s[0]));
        assert(cur.push(s[0]) + s.drop_first() =~= cur + s);
    }
}

/// Splitting peels the stretch before the first separator off as one token.
pub proof fn lemma_split_from_first_sep(s: Seq<char>, sep: char, cur: Seq<char>, i: int)
    requires
        0 <= i < s.len(),
        s[i] == sep,
        forall|j: int| 0 <= j < i ==> s[j] != sep,
    ensures
        split_from(s, sep, cur) == seq![cur + s.take(i)] + split_from(
            s.skip(i + 1),
            sep,
            Seq::empty(),
        ),
    decreases i,
{
    if i == 0 {
        assert(cur + s.take(0) =~= cur);
        assert(s.skip(1) =~= s.drop_first());
        assert(split_from(s, sep, cur) =~= seq![cur + s.take(0)] + split_from(
            s.skip(1),
            sep,
            Seq::empty(),
        ));
    } else {
        lemma_split_from_first_sep(s.drop_first(), sep, cur.push(s[0]), i - 1);
        assert(cur.push(s[0]) + s.drop_first().take(i - 1) =~= cur + s.take(i));
        assert(s.drop_first().skip(i) =~= s.skip(i + 1));
    }
}

/// `t` does not contain the character `sep`.
pub open spec fn no_sep(t: Seq<char>, sep: char) -> bool {
    forall|k: int| 0 <= k < t.len() ==> t[k] != sep
}

/// No token produced by splitting contains the separator.
pub proof fn lemma_split_from_tokens(s: Seq<char>, sep: char, cur: Seq<char>)
    requires
        no_sep(cur, sep),
    ensures
        forall|t: int| 0 <= t < split_from(s, sep, cur).len() ==> no_sep(
            #[trigger] split_from(s, sep, cur)[t],
            sep,
        ),
    decreases s.len(),
{
    if s.len() == 0 {
        assert(split_from(s, sep, cur) =~= seq![cur]);
        assert(split_from(s, sep, cur)[0] == cur);
    } else if s[0] == sep {
        lemma_split_from_tokens(s.drop_first(), sep, Seq::empty());
        let rest = split_from(s.drop_first(), sep, Seq::empty());
        assert forall|t: int| 0 <= t < split_from(s, sep, cur).len() implies no_sep(
            #[trigger] split_from(s, sep, cur)[t],
            sep,
        ) by {
            if t > 0 {
                assert(split_from(s, sep, cur)[t] == rest[t - 1]);
            }
        }
    } else {
        assert(no_sep(cur.push(s[0]), sep)) by {
            assert forall|k: int| 0 <= k < cur.push(s[0]).len() implies cur.push(s[0])[k] != sep by {
                if k < cur.len() {
                    assert(cur.push(s[0])[k] == cur[k]);
                }
            }
        }
        lemma_split_from_tokens(s.drop_first(), sep, cur.push(s[0]));
        let rest = split_from(s.drop_first(), sep, cur.push(s[0]));
        assert forall|t: int| 0 <= t < split_from(s, sep, cur).len() implies no_sep(
            #[trigger] split_from(s, sep, cur)[t],
            sep,
        ) by {
            assert(split_from(s, sep, cur)[t] == rest[t]);
        }
    }
}

/// Joining the tokens of a split restores the original sequence.
pub proof fn lemma_join_split_from(s: Seq<char>, sep: char, cur: Seq<char>)
    ensures
        join_chars(split_from(s, sep, cur), sep) == cur + s,
    decreases s.len(),
{
    lemma_split_from_len(s, sep, cur);
    if s.len() == 0 {
        assert(cur + s =~= cur);
    } else if s[0] == sep {
        lemma_join_split_from(s.drop_first(), sep, Seq::empty());
        lemma_split_from_len(s.drop_first(), sep, Seq::empty());
        let rest = split_from(s.drop_first(), sep, Seq::empty());
        let whole = seq![cur] + rest;
        assert(whole.drop_first() =~= rest);
        assert(whole[0] == cur);
        assert(Seq::<char>::empty() + s.drop_first() =~= s.drop_first());
        assert(cur + seq![sep] + s.drop_first() =~= cur + s);
    } else {
        lemma_join_split_from(s.drop_first(), sep, cur.push(s[0]));
        assert(cur.push(s[0]) + s.drop_first() =~= cur + s);
    }
}

pub proof fn lemma_join_split(s: Seq<char>, sep: char)
    ensures
        join_chars(split_chars(s, sep), sep) == s,
{
    lemma_join_split_from(s, sep, Seq::empty());
    assert(Seq::<char>::empty() + s =~= s);
}

/// Splitting the join of nonempty-or-not tokens that avoid the separator
/// restores the tokens.
pub proof fn lemma_split_join(parts: Seq<Seq<char>>, sep: char)
    requires
        parts.len() >= 1,
        forall|t: int| 0 <= t < parts.len() ==> no_sep(#[trigger] parts[t], sep),
    ensures
        split_chars(join_chars(parts, sep), sep) == parts,
    decreases parts.len(),
{
    if parts.len() == 1 {
        lemma_split_from_no_sep(parts[0], sep, Seq::empty());
        assert(Seq::<char>::empty() + parts[0] =~= parts[0]);
        assert(split_chars(join_chars(parts, sep), sep) =~= parts);
    } else {
        let s = join_chars(parts, sep);
        let i = parts[0].len() as int;
        let tail = join_chars(parts.drop_first(), sep);
        assert(s == parts[0] + seq![sep] + tail);
        assert(s[i] == sep);
        assert forall|j: int| 0 <= j < i implies s[j] != sep by {
            assert(s[j] == parts[0][j]);
            assert(no_sep(parts[0], sep));
        }
        lemma_split_from_first_sep(s, sep, Seq::empty(), i);
        assert(Seq::<char>::empty() + s.take(i) =~= parts[0]);
        assert(s.skip(i + 1) =~= tail);
        assert forall|t: int| 0 <= t < parts.drop_first().len() implies no_sep(
            #[trigger] parts.drop_first()[t],
            sep,
        ) by {
            assert(parts.drop_first()[t] == parts[t + 1]);
        }
        lemma_split_join(parts.drop_first(), sep);
        assert(seq![parts[0]] + parts.drop_first() =~= parts);
    }
}

/// Character-for-character string equality.
pub fn str_eq(a: &str, b: &str) -> (r: bool)
    ensures
        r == (a@ == b@),
{
    let na = a.unicode_len();
    let nb = b.unicode_len();
    if na != nb {
        return false;
    }
    let mut i: usize = 0;
    while i < na
        invariant
            na == a@.len(),
            nb == b@.len(),
            na == nb,
            i <= na,
            forall|j: int| 0 <= j < i ==> a@[j] == b@[j],
        decreases na - i,
    {
        if a.get_char(i) != b.get_char(i) {
            return false;
        }
        i += 1;
    }
    proof {
        assert(a@ =~= b@);
    }
    true
}

/// Splits a string at every occurrence of `sep`.
pub fn split_str(s: &str, sep: char) -> (parts: Vec<String>)
    ensures
        views_of(parts@) == split_chars(s@, sep),
{
    let n = s.unicode_len();
    let mut parts: Vec<String> = Vec::new();
    let mut start: usize = 0;
    let mut i: usize = 0;
    proof {
        assert(s@.skip(0) =~= s@);
        assert(views_of(parts@) =~= Seq::<Seq<char>>::empty());
        assert(views_of(parts@) + split_from(s@, sep, Seq::empty()) =~= split_from(
            s@,
            sep,
            Seq::empty(),
        ));
    }
    while i < n
        invariant
            n == s@.len(),
            start <= i <= n,
            forall|j: int| start <= j < i ==> s@[j] != sep,
            split_chars(s@, sep) == views_of(parts@) + split_from(
                s@.skip(start as int),
                sep,
                Seq::empty(),
            ),
        decreases n - i,
    {
        if s.get_char(i) == sep {
            let tok = s.substring_char(start, i).to_owned();
            proof {
                let rest = s@.skip(start as int);
                lemma_split_from_first_sep(rest, sep, Seq::empty(), i - start);
                assert(Seq::<char>::empty() + rest.take(i - start) =~= s@.subrange(
                    start as int,
                    i as int,
                ));
                assert(rest.skip(i - start + 1) =~= s@.skip(i + 1));
                assert(views_of(parts@.push(tok)) =~= views_of(parts@) + seq![tok@]);
                assert(views_of(parts@) + (seq![tok@] + split_from(
                    s@.skip(i + 1),
                    sep,
                    Seq::empty(),
                )) =~= views_of(parts@.push(tok)) + split_from(s@.skip(i + 1), sep, Seq::empty()));
            }
            parts.push(tok);
            start = i + 1;
        }
        i += 1;
    }
    let tok = s.substring_char(start, n).to_owned();
    proof {
        let rest = s@.skip(start as int);
        lemma_split_from_no_sep(rest, sep, Seq::empty());
        assert(Seq::<char>::empty() + rest =~= s@.subrange(start as int, n as int));
        assert(views_of(parts@.push(tok)) =~= views_of(parts@) + seq![tok@]);
        assert(views_of(parts@) + seq![tok@] =~= views_of(parts@.push(tok)));
    }
    parts.push(tok);
    parts
}

/// The join of `tokens.push(t)` extends the join of `tokens`.
pub proof fn lemma_join_push(parts: Seq<Seq<char>>, t: Seq<char>, sep: char)
    ensures
        parts.len() == 0 ==> join_chars(parts.push(t), sep) == t,
        parts.len() >= 1 ==> join_chars(parts.push(t), sep) == join_chars(parts, sep) + seq![sep]
            + t,
    decreases parts.len(),
{
    if parts.len() == 0 {
        assert(parts.push(t)[0] == t);
    } else if parts.len() == 1 {
        assert(parts.push(t)[0] == parts[0]);
        assert(parts.push(t).drop_first() =~= seq![t]);
        assert(join_chars(seq![t], sep) == t);
        assert(join_chars(parts.push(t), sep) == parts[0] + seq![sep] + t);
    } else {
        lemma_join_push(parts.drop_first(), t, sep);
        assert(parts.push(t).drop_first() =~= parts.drop_first().push(t));
        assert(parts[0] + seq![sep] + (join_chars(parts.drop_first(), sep) + seq![sep] + t) =~= (
        parts[0] + seq![sep] + join_chars(parts.drop_first(), sep)) + seq![sep] + t);
    }
}

/// Joins strings with a one-character separator.
pub fn join_strings(parts: &Vec<String>, sep: &str) -> (r: String)
    requires
        sep@.len() == 1,
    ensures
        r@ == join_chars(views_of(parts@), sep@[0]),
{
    let mut r = String::new();
    let mut i: usize = 0;
    while i < parts.len()
        invariant
            sep@.len() == 1,
            i <= parts@.len(),
            r@ == join_chars(views_of(parts@).take(i as int), sep@[0]),
        decreases parts@.len() - i,
    {
        if i > 0 {
            r.append(sep);
        }
        r.append(parts[i].as_str());
        proof {
            let vs = views_of(parts@);
            assert(vs.take(i + 1) =~= vs.take(i as int).push(vs[i as int]));
            lemma_join_push(vs.take(i as int), vs[i as int], sep@[0]);
            assert(seq![sep@[0]] =~= sep@);
        }
        i += 1;
    }
    proof {
        assert(views_of(parts@).take(parts@.len() as int) =~= views_of(parts@));
    }
    r
}

/// Blank characters trimmed from line ends: space, tab, carriage return.
pub open spec fn is_blank_char(c: char) -> bool {
    c == ' ' || c == '\t' || c == '\r'
}

pub open spec fn trim_front(s: Seq<char>) -> Seq<char>
    decreases s.len(),
{
    if s.len() > 0 && is_blank_char(s[0]) {
        trim_front(s.drop_first())
    } else {
        s
    }
}

pub open spec fn trim_back(s: Seq<char>) -> Seq<char>
    decreases s.len(),
{
    if s.len() > 0 && is_blank_char(s.last()) {
        trim_back(s.drop_last())
    } else {
        s
    }
}

pub open spec fn trim_spec(s: Seq<char>) -> Seq<char> {
    trim_back(trim_front(s))
}

proof fn lemma_trim_front_skip(s: Seq<char>, a: int)
    requires
        0 <= a <= s.len(),
        forall|j: int| 0 <= j < a ==> is_blank_char(s[j]),
        a < s.len() ==> !is_blank_char(s[a]),
    ensures
        trim_front(s) == s.skip(a),
    decreases a,
{
    if a == 0 {
        if s.len() > 0 {
            assert(trim_front(s) == s);
        }
        assert(s.skip(0) =~= s);
    } else {
        lemma_trim_front_skip(s.drop_first(), a - 1);
        assert(s.drop_first().skip(a - 1) =~= s.skip(a));
    }
}

proof fn lemma_trim_back_take(s: Seq<char>, b: int)
    requires
        0 <= b <= s.len(),
        forall|j: int| b <= j < s.len() ==> is_blank_char(s[j]),
        b > 0 ==> !is_blank_char(s[b - 1]),
    ensures
        trim_back(s) == s.take(b),
    decreases s.len() - b,
{
    if b == s.len() {
        if b > 0 {
            assert(trim_back(s) == s);
        }
        assert(s.take(b) =~= s);
    } else {
        assert(is_blank_char(s.last()));
        lemma_trim_back_take(s.drop_last(), b);
        assert(s.drop_last().take(b) =~= s.take(b));
    }
}

/// Trims blanks from both ends of a string.
pub fn trim(s: &str) -> (r: &str)
    ensures
        r@ == trim_spec(s@),
{
    let n = s.unicode_len();
    let mut a: usize = 0;
    while a < n && is_blank(s.get_char(a))
        invariant
            n == s@.len(),
            a <= n,
            forall|j: int| 0 <= j < a ==> is_blank_char(s@[j]),
        decreases n - a,
    {
        a += 1;
    }
    proof {
        lemma_trim_front_skip(s@, a as int);
    }
    if a == n {
        proof {
            assert(s@.skip(a as int) =~= Seq::<char>::empty());
            assert(trim_back(Seq::<char>::empty()) =~= Seq::<char>::empty());
            assert(s@.subrange(a as int, a as int) =~= Seq::<char>::empty());
        }
        return s.substring_char(a, a);
    }
    let mut b: usize = n;
    while b > a && is_blank(s.get_char(b - 1))
        invariant
            n == s@.len(),
            a <= b <= n,
            a < n,
            !is_blank_char(s@[a as int]),
            forall|j: int| b <= j < n ==> is_blank_char(s@[j]),
        decreases b,
    {
        b -= 1;
    }
    proof {
        let f = s@.skip(a as int);
        lemma_trim_back_take(f, b - a);
        assert(f.take(b - a) =~= s@.subrange(a as int, b as int));
    }
    s.substring_char(a, b)
}

/// Executable test for a blank character.
pub fn is_blank(c: char) -> (r: bool)
    ensures
        r == is_blank_char(c),
{
    c == ' ' || c == '\t' || c == '\r'
}

/// A sequence without the separator splits into itself alone.
pub proof fn lemma_split_one(s: Seq<char>, sep: char)
    requires
        no_sep(s, sep),
    ensures
        split_chars(s, sep) == seq![s],
{
    lemma_split_from_no_sep(s, sep, Seq::empty());
    assert(Seq::<char>::empty() + s =~= s);
}

/// A sequence assembled from two separator-free halves splits into them.
pub proof fn lemma_split_two(s: Seq<char>, a: Seq<char>, b: Seq<char>, sep: char)
    requires
        s == a + seq![sep] + b,
        no_sep(a, sep),
        no_sep(b, sep),
    ensures
        split_chars(s, sep) == seq![a, b],
{
    let parts = seq![a, b];
    assert(parts[0] == a);
    assert(parts[1] == b);
    assert(join_chars(parts, sep) =~= a + seq![sep] + b) by {
        assert(parts.drop_first() =~= seq![b]);
        assert(join_chars(seq![b], sep) == b);
    }
    lemma_split_join(parts, sep);
}

/// The index of the first occurrence of `c` in `s`, or -1.
pub open spec fn index_of_first(s: Seq<char>, c: char) -> int
    decreases s.len(),
{
    if s.len() == 0 {
        -1
    } else if s[0] == c {
        0
    } else {
        let r = index_of_first(s.drop_first(), c);
        if r < 0 {
            -1
        } else {
            r + 1
        }
    }
}

proof fn lemma_index_of_first(s: Seq<char>, c: char, i: int)
    requires
        0 <= i <= s.len(),
        forall|j: int| 0 <= j < i ==> s[j] != c,
        i < s.len() ==> s[i] == c,
    ensures
        index_of_first(s, c) == if i == s.len() {
            -1int
        } else {
            i
        },
    decreases i,
{
    if i == 0 {
    } else {
        lemma_index_of_first(s.drop_first(), c, i - 1);
    }
}

/// The position of the first occurrence of `c`.
pub fn find_char(s: &str, c: char) -> (r: Option<usize>)
    ensures
        r matches Some(i) ==> i < s@.len() && s@[i as int] == c && index_of_first(s@, c)
            == i as int,
        r is None ==> index_of_first(s@, c) == -1 && forall|j: int| 0 <= j < s@.len() ==> s@[j]
            != c,
{
    let n = s.unicode_len();
    let mut i: usize = 0;
    while i < n
        invariant
            n == s@.len(),
            i <= n,
            forall|j: int| 0 <= j < i ==> s@[j] != c,
        decreases n - i,
    {
        if s.get_char(i) == c {
            proof {
                lemma_index_of_first(s@, c, i as int);
            }
            return Some(i);
        }
        i += 1;
    }
    proof {
        lemma_index_of_first(s@, c, n as int);
    }
    None
}

/// `needle` occurs contiguously inside `hay`.
pub open spec fn contains_seq(hay: Seq<char>, needle: Seq<char>) -> bool {
    exists|i: int|
        0 <= i <= hay.len() - needle.len() && #[trigger] hay.subrange(i, i + needle.len())
            == needle
}

/// Substring search.
pub fn contains_str(hay: &str, needle: &str) -> (r: bool)
    ensures
        r == contains_seq(hay@, needle@),
{
    let hl = hay.unicode_len();
    let nl = needle.unicode_len();
    if nl > hl {
        return false;
    }
    if nl == 0 {
        proof {
            let w: int = 0;
            assert(hay@.subrange(w, w + needle@.len()) =~= needle@);
        }
        return true;
    }
    let mut i: usize = 0;
    while i <= hl - nl
        invariant
            hl == hay@.len(),
            nl == needle@.len(),
            0 < nl <= hl,
            i <= hl - nl + 1,
            forall|k: int| 0 <= k < i ==> #[trigger] hay@.subrange(k, k + nl) != needle@,
        decreases hl - nl + 1 - i,
    {
        let mut j: usize = 0;
        let mut matched = true;
        while j < nl && matched
            invariant
                hl == hay@.len(),
                nl == needle@.len(),
                i + nl <= hl,
                j <= nl,
                matched ==> forall|m: int| 0 <= m < j ==> hay@[i + m] == needle@[m],
                !matched ==> hay@.subrange(i as int, i + nl) != needle@,
            decreases nl - j + (if matched {
                1int
            } else {
                0int
            }),
        {
            if hay.get_char(i + j) != needle.get_char(j) {
                proof {
                    assert(hay@.subrange(i as int, i + nl)[j as int] == hay@[i + j]);
                }
                matched = false;
            } else {
                j += 1;
            }
        }
        if matched {
            proof {
                assert(hay@.subrange(i as int, i + nl) =~= needle@);
            }
            return true;
        }
        i += 1;
    }
    proof {
        assert forall|k: int| 0 <= k <= hay@.len() - needle@.len() implies #[trigger] hay@.subrange(
            k,
            k + needle@.len(),
        ) != needle@ by {
            assert(0 <= k < i);
        }
    }
    false
}

} // verus!
