//! Character-level helpers: whitespace, trimming, prefixes, line splitting
//! and the lexicographic order of texts.

use vstd::prelude::*;

verus! {

/// The code points with the Unicode property `White_Space`.
pub open spec fn is_whitespace(c: char) -> bool {
    let u = c as u32;
    ||| 0x09 <= u <= 0x0D
    ||| u == 0x20
    ||| u == 0x85
    ||| u == 0xA0
    ||| u == 0x1680
    ||| 0x2000 <= u <= 0x200A
    ||| u == 0x2028
    ||| u == 0x2029
    ||| u == 0x202F
    ||| u == 0x205F
    ||| u == 0x3000
}

/// The test for whitespace, as a value.
pub open spec fn whitespace() -> spec_fn(char) -> bool {
    |c: char| is_whitespace(c)
}

/// The test for anything but whitespace, as a value.
pub open spec fn non_whitespace() -> spec_fn(char) -> bool {
    |c: char| !is_whitespace(c)
}

/// How many characters at the front of `s` pass the test `p`, counted up
/// to the first one that fails it.
pub open spec fn leading_run(s: Seq<char>, p: spec_fn(char) -> bool) -> nat
    decreases s.len(),
{
    if s.len() > 0 && p(s[0]) {
        1 + leading_run(s.drop_first(), p)
    } else {
        0
    }
}

/// How many whitespace characters `s` begins with.
pub open spec fn leading_whitespace(s: Seq<char>) -> nat {
    leading_run(s, whitespace())
}

/// How many whitespace characters `s` ends with.
pub open spec fn trailing_whitespace(s: Seq<char>) -> nat
    decreases s.len(),
{
    if s.len() > 0 && is_whitespace(s.last()) {
        1 + trailing_whitespace(s.drop_last())
    } else {
        0
    }
}

/// `s` without the whitespace around it.
pub open spec fn trim(s: Seq<char>) -> Seq<char> {
    let rest = s.skip(leading_whitespace(s) as int);
    rest.take(rest.len() - trailing_whitespace(rest))
}

/// Whether `s` begins with a whitespace character.
pub open spec fn is_indented(s: Seq<char>) -> bool {
    s.len() > 0 && is_whitespace(s[0])
}

/// The lines of `s`: the pieces between its newline characters. A text
/// with `k` newlines has `k + 1` lines, the last of which may be empty.
pub open spec fn split_lines(s: Seq<char>) -> Seq<Seq<char>>
    decreases s.len(),
{
    if s.len() == 0 {
        seq![Seq::<char>::empty()]
    } else {
        let before = split_lines(s.drop_last());
        if s.last() == '\n' {
            before.push(Seq::<char>::empty())
        } else {
            before.drop_last().push(before.last().push(s.last()))
        }
    }
}

/// Whether `pattern` stands in `s` at index `i`.
pub open spec fn occurs_at(s: Seq<char>, pattern: Seq<char>, i: int) -> bool {
    0 <= i <= s.len() && pattern.is_prefix_of(s.skip(i))
}

/// The first index from `i` on at which `pattern` stands in `s`.
pub open spec fn find_from(s: Seq<char>, pattern: Seq<char>, i: int) -> Option<int>
    decreases s.len() + 1 - i,
{
    if i < 0 || i > s.len() {
        None
    } else if occurs_at(s, pattern, i) {
        Some(i)
    } else {
        find_from(s, pattern, i + 1)
    }
}

/// The first index at which `pattern` stands in `s`.
pub open spec fn find(s: Seq<char>, pattern: Seq<char>) -> Option<int> {
    find_from(s, pattern, 0)
}

/// The first word of `s`: what stands between the whitespace that `s`
/// begins with and the next whitespace.
pub open spec fn first_token(s: Seq<char>) -> Seq<char> {
    let rest = s.skip(leading_whitespace(s) as int);
    rest.take(leading_run(rest, non_whitespace()) as int)
}

/// Strict lexicographic order by code point.
pub open spec fn lex_lt(a: Seq<char>, b: Seq<char>) -> bool
    decreases a.len(),
{
    if b.len() == 0 {
        false
    } else if a.len() == 0 {
        true
    } else if a[0] != b[0] {
        (a[0] as u32) < (b[0] as u32)
    } else {
        lex_lt(a.drop_first(), b.drop_first())
    }
}

/// A leading run lies within the text, holds only characters that pass
/// the test, and ends at the end of the text or before a character that
/// fails the test.
pub proof fn lemma_leading_run_props(s: Seq<char>, p: spec_fn(char) -> bool)
    ensures
        leading_run(s, p) <= s.len(),
        forall|k: int| 0 <= k < leading_run(s, p) ==> p(#[trigger] s[k]),
        leading_run(s, p) == s.len() || !p(s[leading_run(s, p) as int]),
    decreases s.len(),
{
    if s.len() > 0 && p(s[0]) {
        let t = s.drop_first();
        lemma_leading_run_props(t, p);
        assert forall|k: int| 0 <= k < leading_run(s, p) implies p(#[trigger] s[k]) by {
            if k > 0 {
                assert(s[k] == t[k - 1]);
            }
        }
        if leading_run(s, p) < s.len() {
            assert(s[leading_run(s, p) as int] == t[leading_run(t, p) as int]);
        }
    }
}

pub proof fn lemma_trailing_whitespace_props(s: Seq<char>)
    ensures
        trailing_whitespace(s) <= s.len(),
        forall|k: int|
            s.len() - trailing_whitespace(s) <= k < s.len() ==> is_whitespace(#[trigger] s[k]),
        trailing_whitespace(s) == s.len() || !is_whitespace(
            s[s.len() - trailing_whitespace(s) - 1],
        ),
    decreases s.len(),
{
    if s.len() > 0 && is_whitespace(s.last()) {
        let t = s.drop_last();
        lemma_trailing_whitespace_props(t);
        assert forall|k: int|
            s.len() - trailing_whitespace(s) <= k < s.len() implies is_whitespace(
            #[trigger] s[k],
        ) by {
            if k < s.len() - 1 {
                assert(s[k] == t[k]);
            }
        }
        if trailing_whitespace(s) < s.len() {
            assert(s[s.len() - trailing_whitespace(s) - 1] == t[t.len() - trailing_whitespace(t)
                - 1]);
        }
    }
}

/// The leading run ends at the first character that fails the test.
pub proof fn lemma_leading_run_is(s: Seq<char>, p: spec_fn(char) -> bool, a: int)
    requires
        0 <= a <= s.len(),
        forall|k: int| 0 <= k < a ==> p(#[trigger] s[k]),
        a == s.len() || !p(s[a]),
    ensures
        leading_run(s, p) == a,
    decreases a,
{
    if a > 0 {
        let t = s.drop_first();
        assert(p(s[0]));
        assert forall|k: int| 0 <= k < a - 1 implies p(#[trigger] t[k]) by {
            assert(t[k] == s[k + 1]);
        }
        if a - 1 < t.len() {
            assert(t[a - 1] == s[a]);
        }
        lemma_leading_run_is(t, p, a - 1);
    }
}

/// The whitespace at the back of `s` begins after the last character that
/// is not whitespace.
pub proof fn lemma_trailing_whitespace_is(s: Seq<char>, c: int)
    requires
        0 <= c <= s.len(),
        forall|k: int| s.len() - c <= k < s.len() ==> is_whitespace(#[trigger] s[k]),
        c == s.len() || !is_whitespace(s[s.len() - c - 1]),
    ensures
        trailing_whitespace(s) == c,
    decreases c,
{
    if c > 0 {
        let t = s.drop_last();
        assert(is_whitespace(s[s.len() - 1]));
        assert forall|k: int| t.len() - (c - 1) <= k < t.len() implies is_whitespace(
            #[trigger] t[k],
        ) by {
            assert(t[k] == s[k]);
        }
        if c - 1 < t.len() {
            assert(t[t.len() - (c - 1) - 1] == s[s.len() - c - 1]);
        }
        lemma_trailing_whitespace_is(t, c - 1);
    }
}

/// `trim(s)` is the part of `s` between its first and its last character
/// that is not whitespace.
pub proof fn lemma_trim_is_subrange(s: Seq<char>, a: int, b: int)
    requires
        0 <= a <= b <= s.len(),
        forall|k: int| 0 <= k < a ==> is_whitespace(#[trigger] s[k]),
        forall|k: int| b <= k < s.len() ==> is_whitespace(#[trigger] s[k]),
        a == s.len() || !is_whitespace(s[a]),
        a == b || !is_whitespace(s[b - 1]),
    ensures
        leading_whitespace(s) == a,
        trim(s) == s.subrange(a, b),
{
    lemma_leading_run_is(s, whitespace(), a);
    let rest = s.skip(a);
    let c = s.len() - b;
    assert forall|k: int| rest.len() - c <= k < rest.len() implies is_whitespace(
        #[trigger] rest[k],
    ) by {
        assert(rest[k] == s[k + a]);
    }
    if c < rest.len() {
        assert(rest[rest.len() - c - 1] == s[b - 1]);
    } else {
        assert(a == b);
        assert(a == s.len() || b < s.len());
        if a < s.len() {
            assert(is_whitespace(s[b]));
        }
    }
    lemma_trailing_whitespace_is(rest, c);
    assert(rest.take(rest.len() - c) =~= s.subrange(a, b));
}

/// A trimmed text neither begins nor ends with whitespace.
pub proof fn lemma_trim_ends(s: Seq<char>)
    ensures
        trim(s).len() <= s.len(),
        trim(s).len() > 0 ==> !is_whitespace(trim(s)[0]) && !is_whitespace(trim(s).last()),
{
    lemma_leading_run_props(s, whitespace());
    let rest = s.skip(leading_whitespace(s) as int);
    lemma_trailing_whitespace_props(rest);
    if trim(s).len() > 0 {
        assert(trim(s)[0] == s[leading_whitespace(s) as int]);
        assert(trim(s).last() == rest[rest.len() - trailing_whitespace(rest) - 1]);
    }
}

/// What `find_from` returns is the first place from `i` on where the
/// pattern stands, and it returns nothing only where there is none.
pub proof fn lemma_find_from_is_first(s: Seq<char>, pattern: Seq<char>, i: int)
    requires
        0 <= i,
    ensures
        find_from(s, pattern, i) matches Some(at) ==> i <= at && occurs_at(s, pattern, at)
            && forall|j: int| i <= j < at ==> !occurs_at(s, pattern, j),
        find_from(s, pattern, i) is None ==> forall|j: int| i <= j ==> !occurs_at(s, pattern, j),
    decreases s.len() + 1 - i,
{
    if i <= s.len() && !occurs_at(s, pattern, i) {
        lemma_find_from_is_first(s, pattern, i + 1);
    }
}

pub proof fn lemma_lex_lt_irreflexive(a: Seq<char>)
    ensures
        !lex_lt(a, a),
    decreases a.len(),
{
    if a.len() > 0 {
        lemma_lex_lt_irreflexive(a.drop_first());
    }
}

pub proof fn lemma_lex_lt_transitive(a: Seq<char>, b: Seq<char>, c: Seq<char>)
    requires
        lex_lt(a, b),
        lex_lt(b, c),
    ensures
        lex_lt(a, c),
    decreases a.len(),
{
    if a.len() > 0 && a[0] == b[0] && b[0] == c[0] {
        lemma_lex_lt_transitive(a.drop_first(), b.drop_first(), c.drop_first());
    }
}

/// Of two different texts one comes before the other.
pub proof fn lemma_lex_lt_total(a: Seq<char>, b: Seq<char>)
    ensures
        lex_lt(a, b) || lex_lt(b, a) || a == b,
    decreases a.len(),
{
    if a.len() == 0 || b.len() == 0 {
        if a.len() == 0 && b.len() == 0 {
            assert(a =~= b);
        }
    } else if a[0] == b[0] {
        lemma_lex_lt_total(a.drop_first(), b.drop_first());
        if a.drop_first() == b.drop_first() {
            assert(a =~= seq![a[0]] + a.drop_first());
            assert(b =~= seq![b[0]] + b.drop_first());
        }
    } else {
        vstd::utf8::char_u32_cast(a[0], a[0] as u32);
        vstd::utf8::char_u32_cast(b[0], b[0] as u32);
    }
}

/// Decides whether `c` is a whitespace character.
pub fn char_is_whitespace(c: char) -> (r: bool)
    ensures
        r == is_whitespace(c),
{
    let u: u32 = c as u32;
    (0x09 <= u && u <= 0x0D) || u == 0x20 || u == 0x85 || u == 0xA0 || u == 0x1680 || (0x2000 <= u
        && u <= 0x200A) || u == 0x2028 || u == 0x2029 || u == 0x202F || u == 0x205F || u == 0x3000
}

/// The characters of `s`, in order.
pub fn to_chars(s: &str) -> (v: Vec<char>)
    ensures
        v@ == s@,
{
    let mut v: Vec<char> = Vec::new();
    for c in it: s.chars()
        invariant
            v@ == it.seq().take(it.index()),
            it.seq() == s@,
    {
        v.push(c);
    }
    v
}

/// The bounds of the trimmed part of `v`: it reaches from the first index
/// to the second, which is not included.
pub fn trim_bounds(v: &Vec<char>) -> (r: (usize, usize))
    ensures
        r.0 <= r.1 <= v.len(),
        r.0 == leading_whitespace(v@),
        v@.subrange(r.0 as int, r.1 as int) == trim(v@),
{
    let n = v.len();
    let mut a: usize = 0;
    while a < n && char_is_whitespace(v[a])
        invariant
            a <= n,
            n == v.len(),
            forall|k: int| 0 <= k < a ==> is_whitespace(#[trigger] v@[k]),
        decreases n - a,
    {
        a += 1;
    }
    let mut b: usize = n;
    while b > a && char_is_whitespace(v[b - 1])
        invariant
            a <= b <= n,
            n == v.len(),
            forall|k: int| b <= k < n ==> is_whitespace(#[trigger] v@[k]),
        decreases b,
    {
        b -= 1;
    }
    proof {
        lemma_trim_is_subrange(v@, a as int, b as int);
    }
    (a, b)
}

/// Whether the part of `v` from `from` to `to` begins with `prefix`.
pub fn has_prefix(v: &Vec<char>, from: usize, to: usize, prefix: &Vec<char>) -> (r: bool)
    requires
        from <= to <= v.len(),
    ensures
        r == prefix@.is_prefix_of(v@.subrange(from as int, to as int)),
{
    let n = prefix.len();
    if n > to - from {
        return false;
    }
    let ghost part = v@.subrange(from as int, to as int);
    let mut i: usize = 0;
    while i < n
        invariant
            i <= n,
            n == prefix.len(),
            n <= to - from,
            from <= to <= v.len(),
            part == v@.subrange(from as int, to as int),
            forall|k: int| 0 <= k < i ==> prefix@[k] == #[trigger] part[k],
        decreases n - i,
    {
        if prefix[i] != v[from + i] {
            proof {
                assert(part[i as int] == v@[from + i]);
                assert(part.subrange(0, n as int)[i as int] == part[i as int]);
            }
            return false;
        }
        proof {
            assert(part[i as int] == v@[from + i]);
        }
        i += 1;
    }
    proof {
        assert(prefix@ =~= part.subrange(0, n as int));
    }
    true
}

/// The first index at which `pattern` stands in `v`.
pub fn find_in(v: &Vec<char>, pattern: &Vec<char>) -> (r: Option<usize>)
    ensures
        r is Some <==> find(v@, pattern@) is Some,
        r matches Some(i) ==> find(v@, pattern@) == Some(i as int),
{
    let n = v.len();
    let mut i: usize = 0;
    while i < n
        invariant
            i <= n,
            n == v.len(),
            find(v@, pattern@) == find_from(v@, pattern@, i as int),
        decreases n - i,
    {
        proof {
            assert(v@.subrange(i as int, n as int) =~= v@.skip(i as int));
        }
        if has_prefix(v, i, n, pattern) {
            return Some(i);
        }
        i += 1;
    }
    proof {
        assert(v@.subrange(n as int, n as int) =~= v@.skip(n as int));
        assert(find_from(v@, pattern@, n + 1) is None);
    }
    if has_prefix(v, n, n, pattern) {
        Some(n)
    } else {
        None
    }
}

/// The bounds of the first word of `v` from index `from` on.
pub fn token_bounds(v: &Vec<char>, from: usize) -> (r: (usize, usize))
    requires
        from <= v.len(),
    ensures
        from <= r.0 <= r.1 <= v.len(),
        v@.subrange(r.0 as int, r.1 as int) == first_token(v@.skip(from as int)),
{
    let n = v.len();
    let ghost s = v@.skip(from as int);
    let mut a: usize = from;
    while a < n && char_is_whitespace(v[a])
        invariant
            from <= a <= n,
            n == v.len(),
            forall|k: int| from <= k < a ==> is_whitespace(#[trigger] v@[k]),
        decreases n - a,
    {
        a += 1;
    }
    let mut b: usize = a;
    while b < n && !char_is_whitespace(v[b])
        invariant
            a <= b <= n,
            n == v.len(),
            forall|k: int| a <= k < b ==> !is_whitespace(#[trigger] v@[k]),
        decreases n - b,
    {
        b += 1;
    }
    proof {
        assert forall|k: int| 0 <= k < a - from implies (whitespace())(#[trigger] s[k]) by {
            assert(s[k] == v@[from + k]);
        }
        lemma_leading_run_is(s, whitespace(), a - from);
        let rest = s.skip(a - from);
        assert(rest =~= v@.skip(a as int));
        assert forall|k: int| 0 <= k < b - a implies (non_whitespace())(#[trigger] rest[k]) by {
            assert(rest[k] == v@[a + k]);
        }
        lemma_leading_run_is(rest, non_whitespace(), b - a);
        assert(rest.take(b - a) =~= v@.subrange(a as int, b as int));
    }
    (a, b)
}

/// Whether `a` comes strictly before `b` in lexicographic order.
pub fn text_less(a: &str, b: &str) -> (r: bool)
    ensures
        r == lex_lt(a@, b@),
{
    let x = to_chars(a);
    let y = to_chars(b);
    let mut i: usize = 0;
    proof {
        assert(x@.skip(0) =~= x@);
        assert(y@.skip(0) =~= y@);
    }
    loop
        invariant
            i <= x.len(),
            i <= y.len(),
            x@ == a@,
            y@ == b@,
            lex_lt(a@, b@) == lex_lt(x@.skip(i as int), y@.skip(i as int)),
        decreases x.len() - i,
    {
        let ghost xs = x@.skip(i as int);
        let ghost ys = y@.skip(i as int);
        if i >= y.len() {
            return false;
        }
        if i >= x.len() {
            return true;
        }
        proof {
            assert(xs[0] == x@[i as int]);
            assert(ys[0] == y@[i as int]);
            assert(xs.drop_first() =~= x@.skip(i + 1));
            assert(ys.drop_first() =~= y@.skip(i + 1));
        }
        if x[i] != y[i] {
            return (x[i] as u32) < (y[i] as u32);
        }
        i += 1;
    }
}

/// The lines of `text`, as [`split_lines`] defines them.
pub fn lines_of(text: &str) -> (lines: Vec<String>)
    ensures
        lines.deep_view() == split_lines(text@),
{
    let chars = to_chars(text);
    let n = chars.len();
    let mut lines: Vec<String> = Vec::new();
    let mut start: usize = 0;
    let mut j: usize = 0;
    proof {
        assert(text@.take(0) =~= Seq::<char>::empty());
        assert(text@.subrange(0, 0) =~= Seq::<char>::empty());
        assert(lines.deep_view() =~= Seq::<Seq<char>>::empty());
        assert(split_lines(text@.take(0)) =~= lines.deep_view().push(text@.subrange(0, 0)));
    }
    while j < n
        invariant
            start <= j <= n,
            n == chars.len(),
            chars@ == text@,
            split_lines(text@.take(j as int)) == lines.deep_view().push(
                text@.subrange(start as int, j as int),
            ),
        decreases n - j,
    {
        let ghost before = split_lines(text@.take(j as int));
        proof {
            assert(text@.take(j + 1).drop_last() =~= text@.take(j as int));
            assert(text@.take(j + 1).last() == text@[j as int]);
        }
        if chars[j] == '\n' {
            let line = text.substring_char(start, j).to_owned();
            let ghost old_lines = lines.deep_view();
            lines.push(line);
            proof {
                assert(lines.deep_view() =~= old_lines.push(text@.subrange(start as int, j as int)));
                assert(text@.subrange(j + 1, j + 1) =~= Seq::<char>::empty());
            }
            start = j + 1;
        } else {
            proof {
                assert(before.drop_last() =~= lines.deep_view());
                assert(before.last().push(text@[j as int]) =~= text@.subrange(
                    start as int,
                    j + 1,
                ));
            }
        }
        j += 1;
    }
    let line = text.substring_char(start, n).to_owned();
    let ghost old_lines = lines.deep_view();
    lines.push(line);
    proof {
        assert(lines.deep_view() =~= old_lines.push(text@.subrange(start as int, n as int)));
        assert(text@.take(n as int) =~= text@);
    }
    lines
}

} // verus!
