//! Character-level helpers shared by the markup tokenizer and the layout
//! builder: locating a separator and splitting text into lines.
use vstd::prelude::*;

verus! {

/// Position of the first `c` in `s`, or `s.len()` when `s` holds no `c`.
pub open spec fn find_char(s: Seq<char>, c: char) -> nat
    decreases s.len(),
{
    if s.len() == 0 {
        0
    } else if s[0] == c {
        0
    } else {
        1 + find_char(s.drop_first(), c)
    }
}

/// The pieces of `s` between line feeds, in order. Like `str::split('\n')`,
/// there is always at least one piece, possibly empty.
pub open spec fn lines_of(s: Seq<char>) -> Seq<Seq<char>>
    decreases s.len(),
{
    let k = find_char(s, '\n') as int;
    if k < s.len() {
        seq![s.subrange(0, k)].add(lines_of(s.subrange(k + 1, s.len() as int)))
    } else {
        seq![s]
    }
}

/// `find_char` is pinned down by the first occurrence.
pub proof fn lemma_find_char(s: Seq<char>, c: char, k: int)
    requires
        0 <= k <= s.len(),
        forall|i: int| 0 <= i < k ==> s[i] != c,
        k < s.len() ==> s[k] == c,
    ensures
        find_char(s, c) == k,
    decreases k,
{
    if k > 0 {
        lemma_find_char(s.drop_first(), c, k - 1);
    }
}

/// Every position before the first `c` holds something else.
pub proof fn lemma_before_first(s: Seq<char>, c: char, i: int)
    requires
        0 <= i < find_char(s, c),
    ensures
        i < s.len(),
        s[i] != c,
    decreases s.len(),
{
    if i > 0 {
        lemma_before_first(s.drop_first(), c, i - 1);
    }
}

/// Where the first `c` is found, `c` stands.
pub proof fn lemma_at_first(s: Seq<char>, c: char)
    requires
        find_char(s, c) < s.len(),
    ensures
        s[find_char(s, c) as int] == c,
    decreases s.len(),
{
    if s[0] != c {
        lemma_at_first(s.drop_first(), c);
    }
}

pub proof fn lemma_find_char_bound(s: Seq<char>, c: char)
    ensures
        find_char(s, c) <= s.len(),
    decreases s.len(),
{
    if s.len() > 0 && s[0] != c {
        lemma_find_char_bound(s.drop_first(), c);
    }
}

/// Lines joined back together, a line feed between each two.
pub open spec fn join_lines(ls: Seq<Seq<char>>) -> Seq<char>
    decreases ls.len(),
{
    if ls.len() <= 1 {
        if ls.len() == 1 {
            ls[0]
        } else {
            seq![]
        }
    } else {
        ls[0] + seq!['\n'] + join_lines(ls.drop_first())
    }
}

/// Splitting into lines loses nothing and keeps the order: no line holds a
/// line feed, and joining the lines with line feeds gives the text back.
pub proof fn lemma_lines_rejoin(s: Seq<char>)
    ensures
        join_lines(lines_of(s)) == s,
        forall|i: int, j: int|
            0 <= i < lines_of(s).len() && 0 <= j < lines_of(s)[i].len() ==> #[trigger] lines_of(
                s,
            )[i][j] != '\n',
    decreases s.len(),
{
    lemma_find_char_bound(s, '\n');
    let k = find_char(s, '\n') as int;
    if k < s.len() {
        let head = s.subrange(0, k);
        let rest = s.subrange(k + 1, s.len() as int);
        lemma_lines_rejoin(rest);
        lemma_at_first(s, '\n');
        assert forall|j: int| 0 <= j < head.len() implies head[j] != '\n' by {
            lemma_before_first(s, '\n', j);
        }
        let ls = lines_of(s);
        assert(ls == seq![head] + lines_of(rest));
        assert(ls.drop_first() =~= lines_of(rest));
        assert(s =~= head + seq!['\n'] + rest);
        assert forall|i: int, j: int|
            0 <= i < ls.len() && 0 <= j < ls[i].len() implies #[trigger] ls[i][j] != '\n' by {
            if i > 0 {
                assert(ls[i] == lines_of(rest)[i - 1]);
            }
        }
    } else {
        assert forall|j: int| 0 <= j < s.len() implies s[j] != '\n' by {
            lemma_before_first(s, '\n', j);
        }
    }
}

/// The characters of `s`, one element each.
pub fn chars_of(s: &str) -> (r: Vec<char>)
    ensures
        r@ == s@,
{
    let n = s.unicode_len();
    let mut r: Vec<char> = Vec::new();
    let mut i: usize = 0;
    while i < n
        invariant
            n == s@.len(),
            i <= n,
            r@ == s@.subrange(0, i as int),
        decreases n - i,
    {
        r.push(s.get_char(i));
        i = i + 1;
        assert(r@ =~= s@.subrange(0, i as int));
    }
    assert(r@ =~= s@);
    r
}

/// First position at or after `start` that holds `c`, or `chars.len()`.
pub fn find_from(chars: &Vec<char>, start: usize, c: char) -> (r: usize)
    requires
        start <= chars@.len(),
    ensures
        start <= r <= chars@.len(),
        forall|j: int| start <= j < r ==> chars@[j] != c,
        r < chars@.len() ==> chars@[r as int] == c,
        r == start + find_char(chars@.subrange(start as int, chars@.len() as int), c),
{
    let mut i = start;
    while i < chars.len() && chars[i] != c
        invariant
            start <= i <= chars@.len(),
            forall|j: int| start <= j < i ==> chars@[j] != c,
        decreases chars@.len() - i,
    {
        i = i + 1;
    }
    proof {
        let sub = chars@.subrange(start as int, chars@.len() as int);
        lemma_find_char(sub, c, i - start);
    }
    i
}

/// The characters `s[from..to]` (counted in characters) as a `String`.
pub fn string_of(s: &str, from: usize, to: usize) -> (r: String)
    requires
        from <= to <= s@.len(),
    ensures
        r@ == s@.subrange(from as int, to as int),
{
    s.substring_char(from, to).to_owned()
}

/// The views of a sequence of strings.
pub open spec fn strings_view(v: Seq<String>) -> Seq<Seq<char>> {
    v.map_values(|x: String| x@)
}

/// Splits `s` at each line feed, keeping the pieces in order.
pub fn split_lines(s: &str) -> (r: Vec<String>)
    ensures
        strings_view(r@) == lines_of(s@),
{
    let chars = chars_of(s);
    let n = chars.len();
    let mut r: Vec<String> = Vec::new();
    let mut pos: usize = 0;
    assert(s@.subrange(0, n as int) =~= s@);
    assert(strings_view(r@) + lines_of(s@) =~= lines_of(s@));
    loop
        invariant
            chars@ == s@,
            n == s@.len(),
            pos <= n,
            strings_view(r@) + lines_of(s@.subrange(pos as int, n as int)) == lines_of(s@),
        decreases n - pos,
    {
        let ghost before = r@;
        let ghost sub = s@.subrange(pos as int, n as int);
        let k = find_from(&chars, pos, '\n');
        assert(chars@.subrange(pos as int, chars@.len() as int) == sub);
        if k == n {
            r.push(string_of(s, pos, n));
            assert(sub.subrange(0, sub.len() as int) =~= sub);
            assert(strings_view(r@) =~= strings_view(before) + lines_of(sub));
            return r;
        }
        r.push(string_of(s, pos, k));
        assert(sub.subrange(0, k - pos) =~= s@.subrange(pos as int, k as int));
        assert(sub.subrange(k - pos + 1, sub.len() as int) =~= s@.subrange(k + 1, n as int));
        let ghost rest = s@.subrange(k + 1, n as int);
        assert(lines_of(sub) == seq![s@.subrange(pos as int, k as int)] + lines_of(rest));
        assert(strings_view(r@) =~= strings_view(before) + seq![s@.subrange(pos as int, k as int)]);
        assert(strings_view(r@) + lines_of(rest) =~= strings_view(before) + lines_of(sub));
        pos = k + 1;
    }
}

/// Whether `a` and `b` hold the same characters.
pub fn same_text(a: &str, b: &str) -> (r: bool)
    ensures
        r == (a@ == b@),
{
    let n = a.unicode_len();
    if n != b.unicode_len() {
        return false;
    }
    let mut i: usize = 0;
    while i < n
        invariant
            n == a@.len(),
            n == b@.len(),
            i <= n,
            a@.subrange(0, i as int) == b@.subrange(0, i as int),
        decreases n - i,
    {
        if a.get_char(i) != b.get_char(i) {
            return false;
        }
        assert(a@.subrange(0, i + 1) =~= a@.subrange(0, i as int).push(a@[i as int]));
        assert(b@.subrange(0, i + 1) =~= b@.subrange(0, i as int).push(b@[i as int]));
        i = i + 1;
    }
    assert(a@.subrange(0, n as int) =~= a@);
    assert(b@.subrange(0, n as int) =~= b@);
    true
}

} // verus!
