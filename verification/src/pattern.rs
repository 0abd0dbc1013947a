//! File-name patterns of the `exclude` list, in glob syntax: `*` matches
//! any run of characters (the empty one too), `?` matches any one
//! character, `[...]` matches one character of a set (`[!...]` one not in
//! it), where `a-z` stands for a range and a `]` right after the opening
//! bracket is a member; every other character, including a `[` that opens
//! no set, matches itself.

use crate::text::chars_of;
use vstd::prelude::*;

verus! {

/// The first `]` in `p` at or after `from`.
pub open spec fn find_close(p: Seq<char>, from: int) -> Option<int>
    decreases p.len() - from,
{
    if from < 0 || from >= p.len() {
        None
    } else if p[from] == ']' {
        Some(from)
    } else {
        find_close(p, from + 1)
    }
}

/// The set that the `[` at `i` opens, if it opens one: whether it is
/// negated, where its members begin, and where its closing `]` stands.
pub open spec fn class_at(p: Seq<char>, i: int) -> Option<(bool, int, int)> {
    if i + 4 <= p.len() && p[i + 1] == '!' {
        match find_close(p, i + 3) {
            Some(c) => Some((true, i + 2, c)),
            None => None,
        }
    } else if i + 3 <= p.len() && p[i + 1] != '!' {
        match find_close(p, i + 2) {
            Some(c) => Some((false, i + 1, c)),
            None => None,
        }
    } else {
        None
    }
}

/// Whether `c` is among the members `p[x..end]` of a set: a member
/// followed by `-` and another is the range between them.
pub open spec fn in_class(p: Seq<char>, x: int, end: int, c: char) -> bool
    decreases end - x,
{
    if x >= end || x < 0 || end > p.len() {
        false
    } else if x + 3 <= end && p[x + 1] == '-' {
        ((p[x] as u32) <= (c as u32) && (c as u32) <= (p[x + 2] as u32)) || in_class(
            p,
            x + 3,
            end,
            c,
        )
    } else {
        p[x] == c || in_class(p, x + 1, end, c)
    }
}

/// Whether the `[` at `i` opens a set.
pub open spec fn class_opens(p: Seq<char>, i: int) -> bool {
    match class_at(p, i) {
        Some((_, _, cl)) => i < cl < p.len(),
        None => false,
    }
}

/// Whether the pattern `p` from position `i` on matches the name `s`
/// from position `j` on.
pub open spec fn matches_from(p: Seq<char>, s: Seq<char>, i: int, j: int) -> bool
    decreases p.len() - i, s.len() - j,
{
    if i >= p.len() || i < 0 {
        j == s.len()
    } else if p[i] == '*' {
        matches_from(p, s, i + 1, j) || (0 <= j < s.len() && matches_from(p, s, i, j + 1))
    } else if p[i] == '[' && class_opens(p, i) {
        let (neg, st, cl) = class_at(p, i)->0;
        0 <= j < s.len() && in_class(p, st, cl, s[j]) != neg && matches_from(p, s, cl + 1, j + 1)
    } else {
        0 <= j < s.len() && (p[i] == '?' || p[i] == s[j]) && matches_from(p, s, i + 1, j + 1)
    }
}

/// Whether the whole name `s` matches the whole pattern `p`.
pub open spec fn pattern_matches(p: Seq<char>, s: Seq<char>) -> bool {
    matches_from(p, s, 0, 0)
}

proof fn lemma_find_close(p: Seq<char>, from: int)
    ensures
        match find_close(p, from) {
            Some(c) => from <= c < p.len() && p[c] == ']',
            None => true,
        },
    decreases p.len() - from,
{
    if 0 <= from < p.len() && p[from] != ']' {
        lemma_find_close(p, from + 1);
    }
}

/// The first `]` in `p` at or after `from`.
fn find_close_exec(p: &Vec<char>, from: usize) -> (r: Option<usize>)
    ensures
        match r {
            Some(c) => find_close(p@, from as int) == Some(c as int),
            None => find_close(p@, from as int) is None,
        },
{
    let mut k = from;
    while k < p.len()
        invariant
            from <= k,
            find_close(p@, from as int) == find_close(p@, k as int),
        decreases p.len() - k,
    {
        if p[k] == ']' {
            return Some(k);
        }
        k += 1;
    }
    None
}

/// The set that the `[` at `i` opens, if any.
fn class_at_exec(p: &Vec<char>, i: usize) -> (r: Option<(bool, usize, usize)>)
    requires
        i < p@.len(),
    ensures
        match r {
            Some((neg, st, cl)) => class_at(p@, i as int) == Some((neg, st as int, cl as int)),
            None => class_at(p@, i as int) is None,
        },
{
    let len = p.len();
    if len - i >= 4 && p[i + 1] == '!' {
        match find_close_exec(p, i + 3) {
            Some(c) => Some((true, i + 2, c)),
            None => None,
        }
    } else if len - i >= 3 && p[i + 1] != '!' {
        match find_close_exec(p, i + 2) {
            Some(c) => Some((false, i + 1, c)),
            None => None,
        }
    } else {
        None
    }
}

/// Whether `c` is among the members `p[x..end]` of a set.
fn in_class_exec(p: &Vec<char>, x: usize, end: usize, c: char) -> (b: bool)
    requires
        end <= p@.len(),
    ensures
        b == in_class(p@, x as int, end as int, c),
{
    let mut y = x;
    while y < end
        invariant
            x <= y,
            end <= p@.len(),
            in_class(p@, x as int, end as int, c) == in_class(p@, y as int, end as int, c),
        decreases end - y,
    {
        if end - y >= 3 && p[y + 1] == '-' {
            if (p[y] as u32) <= (c as u32) && (c as u32) <= (p[y + 2] as u32) {
                return true;
            }
            y += 3;
        } else {
            if p[y] == c {
                return true;
            }
            y += 1;
        }
    }
    false
}

/// Whether `name` matches `pattern`.
pub fn matches_pattern(pattern: &str, name: &str) -> (b: bool)
    ensures
        b == pattern_matches(pattern@, name@),
{
    let p = chars_of(pattern);
    let s = chars_of(name);
    let n = s.len();
    let m = p.len();
    // `rows[t][j]` tells whether the pattern from `m - t` matches the name
    // from `j`.
    let mut last: Vec<bool> = Vec::new();
    let mut j: usize = 0;
    while j < n
        invariant
            j <= n,
            n == s@.len(),
            m == p@.len(),
            last@.len() == j,
            forall|k: int| 0 <= k < j ==> last@[k] == matches_from(p@, s@, m as int, k),
        decreases n - j,
    {
        last.push(false);
        j += 1;
    }
    last.push(true);
    let mut rows: Vec<Vec<bool>> = Vec::new();
    rows.push(last);
    let mut i: usize = m;
    while i > 0
        invariant
            i <= m,
            m == p@.len(),
            n == s@.len(),
            rows@.len() == m - i + 1,
            forall|t: int| 0 <= t < rows@.len() ==> (#[trigger] rows@[t])@.len() == n + 1,
            forall|t: int, k: int|
                #![trigger rows@[t]@[k]]
                0 <= t < rows@.len() && 0 <= k <= n ==> rows@[t]@[k] == matches_from(p@, s@, m - t, k),
        decreases i,
    {
        i -= 1;
        let c = p[i];
        let class = if c == '[' {
            class_at_exec(&p, i)
        } else {
            None
        };
        let ghost cls = class_at(p@, i as int);
        proof {
            if cls is Some {
                if p@[i as int + 1] == '!' && i + 4 <= m {
                    lemma_find_close(p@, i + 3);
                } else {
                    lemma_find_close(p@, i + 2);
                }
            }
        }
        let next = &rows[m - i - 1];
        assert(forall|k: int| 0 <= k <= n ==> next@[k] == matches_from(p@, s@, i + 1, k));
        let mut cur: Vec<bool> = Vec::new();
        let mut k: usize = 0;
        while k < n
            invariant
                k <= n,
                cur@.len() == k,
            decreases n - k,
        {
            cur.push(false);
            k += 1;
        }
        cur.push(c == '*' && next[n]);
        let mut q: usize = n;
        while q > 0
            invariant
                q <= n,
                i < m,
                m == p@.len(),
                c == p@[i as int],
                n == s@.len(),
                cls == class_at(p@, i as int),
                c == '[' ==> match class {
                    Some((neg, st, cl)) => cls == Some((neg, st as int, cl as int)),
                    None => cls is None,
                },
                c != '[' ==> class is None,
                cls matches Some((neg, st, cl)) ==> i < st <= cl < m,
                cur@.len() == n + 1,
                next@.len() == n + 1,
                rows@.len() == m - i,
                forall|t: int| 0 <= t < rows@.len() ==> (#[trigger] rows@[t])@.len() == n + 1,
                forall|t: int, k: int|
                    #![trigger rows@[t]@[k]]
                    0 <= t < rows@.len() && 0 <= k <= n ==> rows@[t]@[k] == matches_from(p@, s@, m - t, k),
                forall|k: int| 0 <= k <= n ==> next@[k] == matches_from(p@, s@, i + 1, k),
                forall|k: int| q <= k <= n ==> cur@[k] == matches_from(p@, s@, i as int, k),
            decreases q,
        {
            q -= 1;
            let b = if c == '*' {
                next[q] || cur[q + 1]
            } else {
                match class {
                    Some((neg, st, cl)) => {
                        let after = &rows[m - cl - 1];
                        assert(after@.len() == n + 1);
                        in_class_exec(&p, st, cl, s[q]) != neg && after[q + 1]
                    },
                    None => (c == '?' || c == s[q]) && next[q + 1],
                }
            };
            assert(b == matches_from(p@, s@, i as int, q as int));
            cur[q] = b;
        }
        rows.push(cur);
    }
    let first = &rows[m];
    assert(first@[0] == matches_from(p@, s@, 0, 0));
    first[0]
}

/// The index of the first of `patterns` that `name` matches.
pub open spec fn first_match(patterns: Seq<String>, name: Seq<char>) -> Option<int>
    decreases patterns.len(),
{
    if patterns.len() == 0 {
        None
    } else {
        match first_match(patterns.drop_last(), name) {
            Some(k) => Some(k),
            None => if pattern_matches(patterns.last()@, name) {
                Some(patterns.len() - 1)
            } else {
                None
            },
        }
    }
}

/// The first of `patterns` that `name` matches, if any.
pub fn first_matching(patterns: &Vec<String>, name: &str) -> (r: Option<usize>)
    ensures
        match r {
            Some(k) => first_match(patterns@, name@) == Some(k as int),
            None => first_match(patterns@, name@) is None,
        },
{
    let mut r: Option<usize> = None;
    let mut i: usize = 0;
    assert(patterns@.take(0) =~= Seq::<String>::empty());
    while i < patterns.len()
        invariant
            i <= patterns@.len(),
            match r {
                Some(k) => first_match(patterns@.take(i as int), name@) == Some(k as int),
                None => first_match(patterns@.take(i as int), name@) is None,
            },
        decreases patterns.len() - i,
    {
        let ghost t = patterns@.take(i + 1);
        assert(t.drop_last() =~= patterns@.take(i as int));
        assert(t.last() == patterns@[i as int]);
        if r.is_none() && matches_pattern(patterns[i].as_str(), name) {
            r = Some(i);
        }
        i += 1;
    }
    assert(patterns@.take(patterns.len() as int) =~= patterns@);
    r
}

/// A name matched by some pattern has a first matching pattern, and no
/// earlier pattern matches it; a name no pattern matches has none.
pub proof fn law_first_match_is_first(patterns: Seq<String>, name: Seq<char>)
    ensures
        match first_match(patterns, name) {
            Some(k) => 0 <= k < patterns.len() && pattern_matches(patterns[k]@, name) && forall|
                l: int,
            | 0 <= l < k ==> !pattern_matches(#[trigger] patterns[l]@, name),
            None => forall|l: int|
                0 <= l < patterns.len() ==> !pattern_matches(#[trigger] patterns[l]@, name),
        },
    decreases patterns.len(),
{
    if patterns.len() > 0 {
        let p = patterns.drop_last();
        law_first_match_is_first(p, name);
        assert forall|l: int| 0 <= l < p.len() implies p[l] == patterns[l] by {}
        assert(patterns.last() == patterns[patterns.len() - 1]);
    }
}

/// A one-range set `[lo-hi]` matches a one-character name `c` exactly
/// when `lo <= c <= hi`, both ends included (`lo` is not the `!` that
/// would negate the set, and `hi` is not a `]` that would close it early).
pub proof fn law_range_includes_both_ends(lo: char, hi: char, c: char)
    requires
        lo != '!',
        hi != ']',
    ensures
        pattern_matches(seq!['[', lo, '-', hi, ']'], seq![c]) <==> ((lo as u32) <= (c as u32)
            && (c as u32) <= (hi as u32)),
{
    let p = seq!['[', lo, '-', hi, ']'];
    let s = seq![c];
    reveal_with_fuel(find_close, 4);
    assert(find_close(p, 2) == Some(4int));
    assert(class_at(p, 0) == Some((false, 1int, 4int)));
    assert(!in_class(p, 4, 4, c));
    assert(matches_from(p, s, 5, 1));
}

/// A one-member set `[a]` matches a one-character name `c` exactly when
/// `c` is `a` (`a` is not the `!` that would negate the set).
pub proof fn law_set_member_matches_itself(a: char, c: char)
    requires
        a != '!',
    ensures
        pattern_matches(seq!['[', a, ']'], seq![c]) <==> c == a,
{
    let p = seq!['[', a, ']'];
    let s = seq![c];
    reveal_with_fuel(find_close, 2);
    assert(find_close(p, 2) == Some(2int));
    assert(class_at(p, 0) == Some((false, 1int, 2int)));
    assert(!in_class(p, 2, 2, c));
    assert(matches_from(p, s, 3, 1));
}

/// `?` matches any one character, and `*` matches any name at all.
pub proof fn law_wildcards(c: char, name: Seq<char>)
    ensures
        pattern_matches(seq!['?'], seq![c]),
        pattern_matches(seq!['*'], name),
{
    assert(matches_from(seq!['?'], seq![c], 1, 1));
    lemma_star_tail(name, 0);
}

proof fn lemma_star_tail(name: Seq<char>, j: int)
    requires
        0 <= j <= name.len(),
    ensures
        matches_from(seq!['*'], name, 0, j),
    decreases name.len() - j,
{
    if j < name.len() {
        lemma_star_tail(name, j + 1);
    } else {
        assert(matches_from(seq!['*'], name, 1, j));
    }
}

/// Whether `c` is an ordinary character of a pattern, one that matches
/// only itself.
pub open spec fn is_plain(c: char) -> bool {
    c != '*' && c != '?' && c != '['
}

proof fn lemma_plain_from(p: Seq<char>, s: Seq<char>, i: int, j: int)
    requires
        0 <= i <= p.len(),
        0 <= j <= s.len(),
        forall|k: int| i <= k < p.len() ==> is_plain(#[trigger] p[k]),
    ensures
        matches_from(p, s, i, j) <==> s.skip(j) =~= p.skip(i),
    decreases p.len() - i,
{
    if i < p.len() {
        assert(is_plain(p[i]));
        if j < s.len() {
            lemma_plain_from(p, s, i + 1, j + 1);
            assert(s.skip(j + 1) =~= s.skip(j).skip(1));
            assert(p.skip(i + 1) =~= p.skip(i).skip(1));
            assert(s.skip(j)[0] == s[j]);
            assert(p.skip(i)[0] == p[i]);
            assert(s.skip(j) =~= seq![s[j]] + s.skip(j + 1));
            assert(p.skip(i) =~= seq![p[i]] + p.skip(i + 1));
        } else {
            assert(s.skip(j).len() == 0);
            assert(p.skip(i).len() > 0);
        }
    } else {
        assert(p.skip(i).len() == 0);
        if j < s.len() {
            assert(s.skip(j).len() > 0);
        }
    }
}

/// A pattern of ordinary characters matches exactly the name it spells.
pub proof fn law_plain_pattern_matches_itself(p: Seq<char>, s: Seq<char>)
    requires
        forall|k: int| 0 <= k < p.len() ==> is_plain(#[trigger] p[k]),
    ensures
        pattern_matches(p, s) <==> s == p,
{
    lemma_plain_from(p, s, 0, 0);
    assert(s.skip(0) =~= s);
    assert(p.skip(0) =~= p);
}

proof fn lemma_star_then_plain(t: Seq<char>, s: Seq<char>, j: int)
    requires
        0 <= j <= s.len(),
        forall|k: int| 0 <= k < t.len() ==> is_plain(#[trigger] t[k]),
    ensures
        matches_from(seq!['*'] + t, s, 0, j) <==> (j <= s.len() - t.len() && s.skip(
            s.len() - t.len(),
        ) == t),
    decreases s.len() - j,
{
    let p = seq!['*'] + t;
    assert forall|k: int| 1 <= k < p.len() implies is_plain(#[trigger] p[k]) by {
        assert(p[k] == t[k - 1]);
    }
    lemma_plain_from(p, s, 1, j);
    assert(p.skip(1) =~= t);
    if j < s.len() {
        lemma_star_then_plain(t, s, j + 1);
    }
    if s.skip(j) == t {
        assert(s.skip(j).len() == s.len() - j);
    }
    if j == s.len() - t.len() && s.skip(s.len() - t.len()) == t {
        assert(s.skip(j) == t);
    }
}

/// A pattern `*t`, with `t` of ordinary characters, matches exactly the
/// names that end in `t`: `*.part` excludes every name ending in `.part`.
pub proof fn law_star_suffix(t: Seq<char>, s: Seq<char>)
    requires
        forall|k: int| 0 <= k < t.len() ==> is_plain(#[trigger] t[k]),
    ensures
        pattern_matches(seq!['*'] + t, s) <==> (t.len() <= s.len() && s.skip(s.len() - t.len())
            == t),
{
    lemma_star_then_plain(t, s, 0);
}

/// `?` matches exactly the one-character names.
pub proof fn law_question_mark(s: Seq<char>)
    ensures
        pattern_matches(seq!['?'], s) <==> s.len() == 1,
{
    if s.len() == 1 {
        assert(matches_from(seq!['?'], s, 1, 1));
    }
    if s.len() > 1 {
        assert(!matches_from(seq!['?'], s, 1, 1));
    }
}

/// A negated one-member set `[!a]` matches a one-character name `c`
/// exactly when `c` is not `a`.
pub proof fn law_negated_set(a: char, c: char)
    ensures
        pattern_matches(seq!['[', '!', a, ']'], seq![c]) <==> c != a,
{
    let p = seq!['[', '!', a, ']'];
    let s = seq![c];
    reveal_with_fuel(find_close, 2);
    assert(find_close(p, 3) == Some(3int));
    assert(class_at(p, 0) == Some((true, 2int, 3int)));
    assert(!in_class(p, 3, 3, c));
    assert(matches_from(p, s, 4, 1));
}

} // verus!
