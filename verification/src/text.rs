//! String primitives over the character view of `str`: comparison, prefix
//! and suffix tests, splitting at a character, trimming and line splitting.
use vstd::prelude::*;

verus! {

/// Position of the first occurrence of `c` in `s`, or -1 when `c` does not occur.
pub open spec fn char_pos(s: Seq<char>, c: char) -> int
    decreases s.len(),
{
    if s.len() == 0 {
        -1
    } else if s[0] == c {
        0
    } else {
        let r = char_pos(s.drop_first(), c);
        if r < 0 {
            -1
        } else {
            r + 1
        }
    }
}

/// `char_pos` is the index of the first occurrence, and -1 exactly when there is none.
pub proof fn lemma_char_pos(s: Seq<char>, c: char)
    ensures
        -1 <= char_pos(s, c) < s.len(),
        char_pos(s, c) >= 0 ==> s[char_pos(s, c)] == c,
        forall|j: int| 0 <= j < s.len() && (char_pos(s, c) < 0 || j < char_pos(s, c)) ==> s[j] != c,
    decreases s.len(),
{
    if s.len() > 0 && s[0] != c {
        lemma_char_pos(s.drop_first(), c);
        assert forall|j: int|
            0 <= j < s.len() && (char_pos(s, c) < 0 || j < char_pos(s, c)) implies s[j] != c by {
            if j > 0 {
                assert(s[j] == s.drop_first()[j - 1]);
            }
        }
    }
}

/// Characterises `char_pos` by the scan that computes it.
pub proof fn lemma_char_pos_unique(s: Seq<char>, c: char, i: int)
    requires
        -1 <= i < s.len(),
        i >= 0 ==> s[i] == c,
        forall|j: int| 0 <= j < s.len() && (i < 0 || j < i) ==> s[j] != c,
    ensures
        char_pos(s, c) == i,
{
    lemma_char_pos(s, c);
    let p = char_pos(s, c);
    if p >= 0 && i >= 0 {
        if p < i {
            assert(s[p] != c);
        }
        if i < p {
            assert(s[i] != c);
        }
    } else if p >= 0 {
        assert(s[p] != c);
    } else if i >= 0 {
        assert(s[i] != c);
    }
}

/// The part of `s` before the first `c`: what `s.split(c).next()` yields.
pub open spec fn first_segment(s: Seq<char>, c: char) -> Seq<char> {
    if char_pos(s, c) < 0 {
        s
    } else {
        s.take(char_pos(s, c))
    }
}

/// What `s.split_once(c)` yields: the parts before and after the first `c`.
pub open spec fn split_once_spec(s: Seq<char>, c: char) -> Option<(Seq<char>, Seq<char>)> {
    if char_pos(s, c) < 0 {
        None
    } else {
        Some((s.take(char_pos(s, c)), s.skip(char_pos(s, c) + 1)))
    }
}

pub open spec fn seq_starts_with(s: Seq<char>, p: Seq<char>) -> bool {
    p.len() <= s.len() && s.take(p.len() as int) == p
}

/// What `s.strip_prefix(p)` yields.
pub open spec fn strip_prefix_spec(s: Seq<char>, p: Seq<char>) -> Option<Seq<char>> {
    if seq_starts_with(s, p) {
        Some(s.skip(p.len() as int))
    } else {
        None
    }
}

/// Three-way lexicographic comparison by code point (-1, 0 or 1), the order
/// of `str`: UTF-8 byte order and code point order agree.
pub open spec fn lex_order(a: Seq<char>, b: Seq<char>) -> int
    decreases a.len(),
{
    if a.len() == 0 {
        if b.len() == 0 {
            0
        } else {
            -1
        }
    } else if b.len() == 0 {
        1
    } else if a[0] < b[0] {
        -1
    } else if a[0] > b[0] {
        1
    } else {
        lex_order(a.drop_first(), b.drop_first())
    }
}

/// The comparison is a total order: it is antisymmetric, it is 0 only on equal
/// sequences, and it is transitive.
pub proof fn lemma_lex_order_props(a: Seq<char>, b: Seq<char>)
    ensures
        -1 <= lex_order(a, b) <= 1,
        lex_order(a, b) == -lex_order(b, a),
        lex_order(a, b) == 0 <==> a == b,
    decreases a.len(),
{
    if a.len() > 0 && b.len() > 0 {
        lemma_lex_order_props(a.drop_first(), b.drop_first());
        if a[0] == b[0] && a.drop_first() == b.drop_first() {
            assert(a =~= seq![a[0]] + a.drop_first());
            assert(b =~= seq![b[0]] + b.drop_first());
        }
    } else if a.len() == 0 && b.len() == 0 {
        assert(a =~= b);
    }
}

pub proof fn lemma_lex_order_transitive(a: Seq<char>, b: Seq<char>, c: Seq<char>)
    requires
        lex_order(a, b) < 0,
        lex_order(b, c) < 0,
    ensures
        lex_order(a, c) < 0,
    decreases a.len(),
{
    if a.len() > 0 && b.len() > 0 && c.len() > 0 {
        if a[0] == b[0] && b[0] == c[0] {
            lemma_lex_order_transitive(a.drop_first(), b.drop_first(), c.drop_first());
        }
    }
}

/// The characters that `char::is_whitespace` accepts: those with the Unicode
/// `White_Space` property.
pub open spec fn is_white_space(c: char) -> bool {
    let u = c as u32;
    ||| 0x09 <= u <= 0x0d
    ||| u == 0x20
    ||| u == 0x85
    ||| u == 0xa0
    ||| u == 0x1680
    ||| 0x2000 <= u <= 0x200a
    ||| u == 0x2028
    ||| u == 0x2029
    ||| u == 0x202f
    ||| u == 0x205f
    ||| u == 0x3000
}

/// Number of leading white-space characters of `s`.
pub open spec fn leading_ws(s: Seq<char>) -> nat
    decreases s.len(),
{
    if s.len() > 0 && is_white_space(s[0]) {
        1 + leading_ws(s.drop_first())
    } else {
        0
    }
}

/// Number of trailing white-space characters of `s`.
pub open spec fn trailing_ws(s: Seq<char>) -> nat
    decreases s.len(),
{
    if s.len() > 0 && is_white_space(s.last()) {
        1 + trailing_ws(s.drop_last())
    } else {
        0
    }
}

/// What `str::trim` yields: `s` without its leading and trailing white space.
pub open spec fn trim_spec(s: Seq<char>) -> Seq<char> {
    let front = s.skip(leading_ws(s) as int);
    front.take(front.len() - trailing_ws(front))
}

pub proof fn lemma_leading_ws_unique(s: Seq<char>, k: int)
    requires
        0 <= k <= s.len(),
        forall|j: int| 0 <= j < k ==> is_white_space(#[trigger] s[j]),
        k < s.len() ==> !is_white_space(s[k]),
    ensures
        leading_ws(s) == k,
    decreases s.len(),
{
    if k > 0 {
        assert(is_white_space(s[0]));
        assert forall|j: int| 0 <= j < k - 1 implies is_white_space(#[trigger] s.drop_first()[j]) by {
            assert(is_white_space(s[j + 1]));
        }
        lemma_leading_ws_unique(s.drop_first(), k - 1);
    }
}

pub proof fn lemma_trailing_ws_unique(s: Seq<char>, k: int)
    requires
        0 <= k <= s.len(),
        forall|j: int| s.len() - k <= j < s.len() ==> is_white_space(#[trigger] s[j]),
        k < s.len() ==> !is_white_space(s[s.len() - k - 1]),
    ensures
        trailing_ws(s) == k,
    decreases s.len(),
{
    if k > 0 {
        assert(is_white_space(s[s.len() - 1]));
        assert forall|j: int|
            s.drop_last().len() - (k - 1) <= j < s.drop_last().len() implies is_white_space(
            #[trigger] s.drop_last()[j],
        ) by {
            assert(is_white_space(s[j]));
        }
        lemma_trailing_ws_unique(s.drop_last(), k - 1);
    }
}

/// Splits `s` at every `sep`, as `str::split(sep)` does: one more piece than
/// there are separators, empty pieces included.
pub open spec fn split_on(s: Seq<char>, sep: char) -> Seq<Seq<char>>
    decreases s.len(),
{
    if s.len() == 0 {
        seq![Seq::<char>::empty()]
    } else {
        let rest = split_on(s.drop_last(), sep);
        if s.last() == sep {
            rest.push(Seq::<char>::empty())
        } else {
            rest.update(rest.len() - 1, rest.last().push(s.last()))
        }
    }
}

pub proof fn lemma_split_on_len(s: Seq<char>, sep: char)
    ensures
        split_on(s, sep).len() >= 1,
    decreases s.len(),
{
    if s.len() > 0 {
        lemma_split_on_len(s.drop_last(), sep);
    }
}

/// Appending characters that hold no separator extends the last piece.
pub proof fn lemma_split_on_append(x: Seq<char>, b: Seq<char>, sep: char)
    requires
        forall|j: int| 0 <= j < b.len() ==> b[j] != sep,
    ensures
        split_on(x + b, sep) == split_on(x, sep).update(
            split_on(x, sep).len() - 1,
            split_on(x, sep).last() + b,
        ),
    decreases b.len(),
{
    lemma_split_on_len(x, sep);
    if b.len() == 0 {
        assert(x + b =~= x);
        assert(split_on(x, sep).last() + b =~= split_on(x, sep).last());
        assert(split_on(x, sep).update(split_on(x, sep).len() - 1, split_on(x, sep).last())
            =~= split_on(x, sep));
    } else {
        let b0 = b.drop_last();
        lemma_split_on_append(x, b0, sep);
        assert((x + b).drop_last() =~= x + b0);
        assert((x + b).last() == b.last());
        let p = split_on(x, sep);
        assert(b.last() == b[b.len() - 1]);
        assert(b.last() != sep);
        let rest = split_on(x + b0, sep);
        assert(rest.len() == p.len());
        assert(rest.last() == p.last() + b0);
        assert(p.last() + b0 + seq![b.last()] =~= p.last() + b);
        assert((p.last() + b0).push(b.last()) =~= p.last() + b);
        assert(split_on(x + b, sep) =~= p.update(p.len() - 1, p.last() + b));
    }
}

/// A line of `str::lines` without its line ending: a `'\r'` that closes a
/// line ended by `'\n'` is dropped.
pub open spec fn strip_cr(line: Seq<char>) -> Seq<char> {
    if line.len() > 0 && line.last() == '\r' {
        line.drop_last()
    } else {
        line
    }
}

/// The non-empty lines of `s`, as `s.lines().filter(|l| !l.is_empty())` yields
/// them: each piece between newlines, with a closing `'\r'` dropped when a
/// newline follows it; empty lines are left out.
pub open spec fn nonempty_lines(s: Seq<char>) -> Seq<Seq<char>> {
    nonempty_lines_of(split_on(s, '\n'))
}

pub open spec fn nonempty_lines_of(pieces: Seq<Seq<char>>) -> Seq<Seq<char>>
    decreases pieces.len(),
{
    if pieces.len() == 0 {
        Seq::empty()
    } else {
        let init = pieces.drop_last();
        let prev = nonempty_lines_of_init(init);
        let last = pieces.last();
        if last.len() == 0 {
            prev
        } else {
            prev.push(last)
        }
    }
}

/// The pieces before the last one are all followed by a newline.
pub open spec fn nonempty_lines_of_init(pieces: Seq<Seq<char>>) -> Seq<Seq<char>>
    decreases pieces.len(),
{
    if pieces.len() == 0 {
        Seq::empty()
    } else {
        let prev = nonempty_lines_of_init(pieces.drop_last());
        let line = strip_cr(pieces.last());
        if line.len() == 0 {
            prev
        } else {
            prev.push(line)
        }
    }
}

/// Exact equality of the character views.
pub fn str_eq(a: &str, b: &str) -> (r: bool)
    ensures
        r == (a@ == b@),
{
    let n = a.unicode_len();
    if n != b.unicode_len() {
        return false;
    }
    let mut i: usize = 0;
    while i < n
        invariant
            n == a@.len(),
            n == b@.len(),
            i <= n,
            forall|j: int| 0 <= j < i ==> a@[j] == b@[j],
        decreases n - i,
    {
        if a.get_char(i) != b.get_char(i) {
            return false;
        }
        i += 1;
    }
    assert(a@ =~= b@);
    true
}

/// Lexicographic comparison by code point: -1, 0 or 1.
pub fn str_order(a: &str, b: &str) -> (r: i8)
    ensures
        r == lex_order(a@, b@),
{
    let n = a.unicode_len();
    let m = b.unicode_len();
    let mut i: usize = 0;
    assert(a@.skip(0) =~= a@);
    assert(b@.skip(0) =~= b@);
    while i < n && i < m
        invariant
            n == a@.len(),
            m == b@.len(),
            i <= n,
            i <= m,
            lex_order(a@, b@) == lex_order(a@.skip(i as int), b@.skip(i as int)),
        decreases n - i,
    {
        let x = a.get_char(i);
        let y = b.get_char(i);
        assert(a@.skip(i as int)[0] == x);
        assert(b@.skip(i as int)[0] == y);
        assert(a@.skip(i as int).drop_first() =~= a@.skip(i + 1));
        assert(b@.skip(i as int).drop_first() =~= b@.skip(i + 1));
        if x < y {
            return -1;
        }
        if x > y {
            return 1;
        }
        i += 1;
    }
    if i < n {
        assert(b@.skip(i as int).len() == 0);
        1
    } else if i < m {
        -1
    } else {
        0
    }
}

/// Whether `s` starts with `p`.
pub fn starts_with(s: &str, p: &str) -> (r: bool)
    ensures
        r == seq_starts_with(s@, p@),
{
    let n = s.unicode_len();
    let m = p.unicode_len();
    if m > n {
        return false;
    }
    let mut i: usize = 0;
    while i < m
        invariant
            n == s@.len(),
            m == p@.len(),
            m <= n,
            i <= m,
            forall|j: int| 0 <= j < i ==> s@[j] == p@[j],
        decreases m - i,
    {
        if s.get_char(i) != p.get_char(i) {
            assert(s@.take(m as int)[i as int] != p@[i as int]);
            return false;
        }
        i += 1;
    }
    assert(s@.take(m as int) =~= p@);
    true
}

/// What `str::strip_prefix` yields.
pub fn strip_prefix<'a>(s: &'a str, p: &str) -> (r: Option<&'a str>)
    ensures
        match r {
            Some(rest) => strip_prefix_spec(s@, p@) == Some(rest@),
            None => strip_prefix_spec(s@, p@) is None,
        },
{
    if starts_with(s, p) {
        let n = s.unicode_len();
        let m = p.unicode_len();
        Some(s.substring_char(m, n))
    } else {
        None
    }
}

/// Index of the first `c` in `s`, as `char_pos` describes it.
pub fn find_char(s: &str, c: char) -> (r: Option<usize>)
    ensures
        match r {
            Some(i) => char_pos(s@, c) == i,
            None => char_pos(s@, c) == -1,
        },
{
    let n = s.unicode_len();
    let mut i: usize = 0;
    while i < n
        invariant
            n == s@.len(),
            i <= n,
            forall|j: int| 0 <= j < i ==> s@[j] != c,
        decreases n - i,
    {
        if s.get_char(i) == c {
            proof {
                lemma_char_pos_unique(s@, c, i as int);
            }
            return Some(i);
        }
        i += 1;
    }
    proof {
        lemma_char_pos_unique(s@, c, -1);
    }
    None
}

/// What `s.split(c).next()` yields.
pub fn first_segment_of<'a>(s: &'a str, c: char) -> (r: &'a str)
    ensures
        r@ == first_segment(s@, c),
{
    proof {
        lemma_char_pos(s@, c);
    }
    match find_char(s, c) {
        Some(i) => s.substring_char(0, i),
        None => s,
    }
}

/// What `str::split_once` with a character pattern yields.
pub fn split_once<'a>(s: &'a str, c: char) -> (r: Option<(&'a str, &'a str)>)
    ensures
        match r {
            Some((a, b)) => split_once_spec(s@, c) == Some((a@, b@)),
            None => split_once_spec(s@, c) is None,
        },
{
    proof {
        lemma_char_pos(s@, c);
    }
    match find_char(s, c) {
        Some(i) => {
            let n = s.unicode_len();
            Some((s.substring_char(0, i), s.substring_char(i + 1, n)))
        },
        None => None,
    }
}

/// Whether `s` contains `c`.
pub fn contains_char(s: &str, c: char) -> (r: bool)
    ensures
        r == (char_pos(s@, c) >= 0),
{
    find_char(s, c).is_some()
}

/// What `char::is_whitespace` answers.
pub fn is_whitespace(c: char) -> (r: bool)
    ensures
        r == is_white_space(c),
{
    let u = c as u32;
    (0x09 <= u && u <= 0x0d) || u == 0x20 || u == 0x85 || u == 0xa0 || u == 0x1680 || (0x2000
        <= u && u <= 0x200a) || u == 0x2028 || u == 0x2029 || u == 0x202f || u == 0x205f || u
        == 0x3000
}

/// What `str::trim` yields.
pub fn trim(s: &str) -> (r: &str)
    ensures
        r@ == trim_spec(s@),
{
    let n = s.unicode_len();
    let mut a: usize = 0;
    while a < n && is_whitespace(s.get_char(a))
        invariant
            n == s@.len(),
            a <= n,
            forall|j: int| 0 <= j < a ==> is_white_space(#[trigger] s@[j]),
        decreases n - a,
    {
        a += 1;
    }
    proof {
        lemma_leading_ws_unique(s@, a as int);
    }
    let ghost front = s@.skip(a as int);
    let mut b: usize = n;
    while b > a && is_whitespace(s.get_char(b - 1))
        invariant
            n == s@.len(),
            a <= b <= n,
            front == s@.skip(a as int),
            forall|j: int| b <= j < n ==> is_white_space(#[trigger] s@[j]),
        decreases b,
    {
        b -= 1;
    }
    proof {
        assert forall|j: int|
            front.len() - (n - b) <= j < front.len() implies is_white_space(#[trigger] front[j]) by {
            assert(front[j] == s@[a + j]);
        }
        if b > a {
            assert(front[front.len() - (n - b) - 1] == s@[b - 1]);
        }
        lemma_trailing_ws_unique(front, (n - b) as int);
        assert(front.take(front.len() - (n - b)) =~= s@.subrange(a as int, b as int));
    }
    s.substring_char(a, b)
}

/// `a` followed by `b`, as a new string.
pub fn concat(a: &str, b: &str) -> (r: String)
    ensures
        r@ == a@ + b@,
{
    let mut r = String::from_str(a);
    r.append(b);
    r
}

/// Splitting at the first `c` loses nothing: the parts around it, joined by
/// `c`, give back `s`, and the first part holds no `c`.
pub proof fn lemma_split_once_rejoins(s: Seq<char>, c: char)
    ensures
        split_once_spec(s, c) matches Some((a, b)) ==> a + seq![c] + b == s && char_pos(a, c) < 0,
        split_once_spec(s, c) is None ==> char_pos(s, c) < 0,
{
    lemma_char_pos(s, c);
    if let Some((a, b)) = split_once_spec(s, c) {
        let p = char_pos(s, c);
        assert(a + seq![c] + b =~= s);
        assert forall|j: int| 0 <= j < a.len() implies a[j] != c by {
            assert(a[j] == s[j]);
        }
        lemma_char_pos_unique(a, c, -1);
    }
}

/// The first segment of `p + [c] + rest`, when `p` holds no `c`, is `p`.
pub proof fn lemma_first_segment_of_joined(p: Seq<char>, c: char, rest: Seq<char>)
    requires
        forall|j: int| 0 <= j < p.len() ==> p[j] != c,
    ensures
        first_segment(p + seq![c] + rest, c) == p,
        split_once_spec(p + seq![c] + rest, c) == Some((p, rest)),
{
    let s = p + seq![c] + rest;
    assert forall|j: int| 0 <= j < s.len() && j < p.len() implies s[j] != c by {
        assert(s[j] == p[j]);
    }
    assert(s[p.len() as int] == c);
    lemma_char_pos_unique(s, c, p.len() as int);
    assert(s.take(p.len() as int) =~= p);
    assert(s.skip(p.len() as int + 1) =~= rest);
}

} // verus!
