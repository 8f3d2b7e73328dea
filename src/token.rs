//! Inline style markup: `attribute:value;` segments.
//!
//! A token is one match of `N*:N*;`, where `N` is a name character
//! (`[A-Za-z0-9_%-]`), taken left to right without overlap. Since a match
//! holds no `;` but its last character, each `;` ends at most one match: the
//! value is the run of name characters right before the `;`, a `:` must stand
//! right before that run, and the attribute is the run of name characters
//! right before the `:`. A `;` without such a match, and whatever follows the
//! last `;`, yields nothing.
use vstd::prelude::*;
use crate::text::{
    chars_of, find_char, find_from, lemma_at_first, lemma_before_first, lemma_find_char,
    lemma_find_char_bound, string_of, strings_view,
};

verus! {

/// One `attribute:value` pair found in inline markup.
#[derive(Clone, Debug)]
pub struct StyleToken {
    pub attribute: String,
    pub value: String,
}

impl View for StyleToken {
    type V = (Seq<char>, Seq<char>);

    open spec fn view(&self) -> (Seq<char>, Seq<char>) {
        (self.attribute@, self.value@)
    }
}

/// The views of a token list.
pub open spec fn tokens_view(v: Seq<StyleToken>) -> Seq<(Seq<char>, Seq<char>)> {
    v.map_values(|t: StyleToken| t@)
}

/// Characters allowed in an attribute name or a value.
pub open spec fn is_name_char(c: char) -> bool {
    ('a' <= c && c <= 'z') || ('A' <= c && c <= 'Z') || ('0' <= c && c <= '9') || c == '_'
        || c == '%' || c == '-'
}

/// Length of the longest run of name characters at the end of `s`.
pub open spec fn trailing_run(s: Seq<char>) -> nat
    decreases s.len(),
{
    if s.len() > 0 && is_name_char(s.last()) {
        1 + trailing_run(s.drop_last())
    } else {
        0
    }
}

/// The match that ends at the `;` closing the piece `seg`, if there is one.
pub open spec fn segment_token(seg: Seq<char>) -> Option<(Seq<char>, Seq<char>)> {
    let v = seg.len() - trailing_run(seg);
    if v >= 1 && seg[v - 1] == ':' {
        let head = seg.subrange(0, v - 1);
        let a = head.len() - trailing_run(head);
        Some((head.subrange(a, head.len() as int), seg.subrange(v, seg.len() as int)))
    } else {
        None
    }
}

pub open spec fn all_name_chars(s: Seq<char>) -> bool {
    forall|i: int| 0 <= i < s.len() ==> is_name_char(#[trigger] s[i])
}

/// `t` reads `N*:N*`: the text of a match without its closing `;`.
pub open spec fn is_match_body(t: Seq<char>) -> bool {
    exists|c: int|
        0 <= c < t.len() && t[c] == ':' && all_name_chars(#[trigger] t.subrange(0, c))
            && all_name_chars(t.subrange(c + 1, t.len() as int))
}

pub proof fn lemma_trailing_run(s: Seq<char>)
    ensures
        trailing_run(s) <= s.len(),
        forall|i: int| s.len() - trailing_run(s) <= i < s.len() ==> is_name_char(#[trigger] s[i]),
        trailing_run(s) < s.len() ==> !is_name_char(s[s.len() - trailing_run(s) - 1]),
    decreases s.len(),
{
    if s.len() > 0 && is_name_char(s.last()) {
        let d = s.drop_last();
        lemma_trailing_run(d);
        assert forall|i: int| s.len() - trailing_run(s) <= i < s.len() implies is_name_char(
            #[trigger] s[i],
        ) by {
            if i < s.len() - 1 {
                assert(s[i] == d[i]);
            }
        }
    }
}

/// A piece yields a token exactly when some tail of it reads `N*:N*`, and
/// the token is the longest such tail, cut at its `:`: the attribute does not
/// continue to the left.
pub proof fn lemma_segment_token_is_leftmost_match(seg: Seq<char>)
    ensures
        segment_token(seg) is Some <==> exists|i: int|
            0 <= i <= seg.len() && is_match_body(#[trigger] seg.subrange(i, seg.len() as int)),
        segment_token(seg) matches Some((a, v)) ==> {
            let k = seg.len() - v.len() - 1 - a.len();
            &&& 0 <= k
            &&& seg.subrange(k, seg.len() as int) == a + seq![':'] + v
            &&& all_name_chars(a)
            &&& all_name_chars(v)
            &&& (k == 0 || !is_name_char(seg[k - 1]))
        },
{
    lemma_trailing_run(seg);
    let n = seg.len() as int;
    let v = n - trailing_run(seg);
    if v >= 1 && seg[v - 1] == ':' {
        let head = seg.subrange(0, v - 1);
        lemma_trailing_run(head);
        let a = head.len() - trailing_run(head);
        let at = head.subrange(a, head.len() as int);
        let vt = seg.subrange(v, n);
        assert(all_name_chars(at)) by {
            assert forall|i: int| 0 <= i < at.len() implies is_name_char(#[trigger] at[i]) by {
                assert(at[i] == head[a + i]);
            }
        }
        assert(all_name_chars(vt)) by {
            assert forall|i: int| 0 <= i < vt.len() implies is_name_char(#[trigger] vt[i]) by {
                assert(vt[i] == seg[v + i]);
            }
        }
        let t = seg.subrange(a, n);
        assert(t =~= at + seq![':'] + vt);
        assert(t.subrange(0, at.len() as int) =~= at);
        assert(t.subrange(at.len() + 1 as int, t.len() as int) =~= vt);
        assert(is_match_body(seg.subrange(a, n)));
        if a > 0 {
            assert(seg[a - 1] == head[a - 1]);
        }
    } else {
        assert forall|i: int| 0 <= i <= n implies !is_match_body(
            #[trigger] seg.subrange(i, n),
        ) by {
            let t = seg.subrange(i, n);
            if is_match_body(t) {
                let c = choose|c: int|
                    0 <= c < t.len() && t[c] == ':' && all_name_chars(#[trigger] t.subrange(0, c))
                        && all_name_chars(t.subrange(c + 1, t.len() as int));
                let tail = t.subrange(c + 1, t.len() as int);
                // every character after the `:` is a name character, so the
                // trailing run reaches back to the `:` and stops there
                if v > i + c + 1 {
                    assert(tail[v - 1 - (i + c + 1)] == seg[v - 1]);
                } else if v < i + c + 1 {
                    assert(seg[i + c] == t[c]);
                }
                assert(seg[v - 1] == t[c]);
            }
        }
    }
}

/// The tokens of markup `s`, in the order they appear.
pub open spec fn tokens_of(s: Seq<char>) -> Seq<(Seq<char>, Seq<char>)>
    decreases s.len(),
{
    let k = find_char(s, ';') as int;
    if k < s.len() {
        let rest = tokens_of(s.subrange(k + 1, s.len() as int));
        match segment_token(s.subrange(0, k)) {
            Some(t) => seq![t].add(rest),
            None => rest,
        }
    } else {
        seq![]
    }
}

/// Text after the last `;` never adds a token: markup followed by a tail
/// without `;` has the tokens of the markup alone.
pub proof fn lemma_trailing_text_ignored(s: Seq<char>, tail: Seq<char>)
    requires
        forall|i: int| 0 <= i < tail.len() ==> tail[i] != ';',
    ensures
        tokens_of(s + tail) == tokens_of(s),
    decreases s.len(),
{
    let st = s + tail;
    lemma_find_char_bound(s, ';');
    let k = find_char(s, ';') as int;
    if k < s.len() {
        lemma_at_first(s, ';');
        assert forall|i: int| 0 <= i < k implies st[i] != ';' by {
            lemma_before_first(s, ';', i);
        }
        lemma_find_char(st, ';', k);
        assert(st.subrange(0, k) =~= s.subrange(0, k));
        assert(st.subrange(k + 1, st.len() as int) =~= s.subrange(k + 1, s.len() as int) + tail);
        lemma_trailing_text_ignored(s.subrange(k + 1, s.len() as int), tail);
    } else {
        assert forall|i: int| 0 <= i < st.len() implies st[i] != ';' by {
            if i < s.len() {
                lemma_before_first(s, ';', i);
            } else {
                assert(st[i] == tail[i - s.len()]);
            }
        }
        lemma_find_char(st, ';', st.len() as int);
    }
}

fn is_name_char_exec(c: char) -> (r: bool)
    ensures
        r == is_name_char(c),
{
    ('a' <= c && c <= 'z') || ('A' <= c && c <= 'Z') || ('0' <= c && c <= '9') || c == '_'
        || c == '%' || c == '-'
}

/// Start of the longest run of name characters that ends at `hi`, not
/// reaching below `lo`.
fn run_start(chars: &Vec<char>, lo: usize, hi: usize) -> (r: usize)
    requires
        lo <= hi <= chars@.len(),
    ensures
        lo <= r <= hi,
        r == hi - trailing_run(chars@.subrange(lo as int, hi as int)),
{
    let mut i = hi;
    while i > lo && is_name_char_exec(chars[i - 1])
        invariant
            lo <= i <= hi <= chars@.len(),
            trailing_run(chars@.subrange(lo as int, hi as int)) == (hi - i) + trailing_run(
                chars@.subrange(lo as int, i as int),
            ),
        decreases i,
    {
        assert(chars@.subrange(lo as int, i as int).drop_last() =~= chars@.subrange(
            lo as int,
            i - 1,
        ));
        i = i - 1;
    }
    i
}

/// Reads the piece `s[from..to]`, which was closed by a `;`.
fn read_segment(s: &str, chars: &Vec<char>, from: usize, to: usize) -> (r: Option<StyleToken>)
    requires
        chars@ == s@,
        from <= to <= chars@.len(),
    ensures
        match r {
            Some(t) => segment_token(s@.subrange(from as int, to as int)) == Some(t@),
            None => segment_token(s@.subrange(from as int, to as int)) is None,
        },
{
    let ghost seg = s@.subrange(from as int, to as int);
    let v = run_start(chars, from, to);
    assert(chars@.subrange(from as int, to as int) == seg);
    if v == from || chars[v - 1] != ':' {
        return None;
    }
    let a = run_start(chars, from, v - 1);
    let ghost head = seg.subrange(0, v - 1 - from);
    assert(head =~= chars@.subrange(from as int, v - 1));
    assert(head.subrange(a - from, head.len() as int) =~= chars@.subrange(a as int, v - 1));
    assert(seg.subrange(v - from, seg.len() as int) =~= chars@.subrange(v as int, to as int));
    Some(StyleToken { attribute: string_of(s, a, v - 1), value: string_of(s, v, to) })
}

/// The tokens of inline markup, in order of appearance: the matches of
/// `N*:N*;`. Text outside a match is skipped; empty markup gives no tokens.
pub fn parse_tokens(raw: &str) -> (r: Vec<StyleToken>)
    ensures
        tokens_view(r@) == tokens_of(raw@),
{
    let chars = chars_of(raw);
    let n = chars.len();
    let mut r: Vec<StyleToken> = Vec::new();
    let mut pos: usize = 0;
    assert(raw@.subrange(0, n as int) =~= raw@);
    assert(tokens_view(r@) + tokens_of(raw@) =~= tokens_of(raw@));
    loop
        invariant
            chars@ == raw@,
            n == raw@.len(),
            pos <= n,
            tokens_view(r@) + tokens_of(raw@.subrange(pos as int, n as int)) == tokens_of(raw@),
        decreases n - pos,
    {
        let ghost before = r@;
        let ghost sub = raw@.subrange(pos as int, n as int);
        let k = find_from(&chars, pos, ';');
        assert(chars@.subrange(pos as int, chars@.len() as int) == sub);
        if k == n {
            assert(tokens_of(sub) == Seq::<(Seq<char>, Seq<char>)>::empty());
            assert(tokens_view(r@) =~= tokens_view(r@) + tokens_of(sub));
            return r;
        }
        let ghost rest = raw@.subrange(k + 1, n as int);
        assert(sub.subrange(0, k - pos) =~= raw@.subrange(pos as int, k as int));
        assert(sub.subrange(k - pos + 1, sub.len() as int) =~= rest);
        match read_segment(raw, &chars, pos, k) {
            Some(t) => {
                r.push(t);
                assert(tokens_view(r@) =~= tokens_view(before) + seq![t@]);
                assert(tokens_view(r@) + tokens_of(rest) =~= tokens_view(before) + tokens_of(
                    sub,
                ));
            },
            None => {},
        }
        pos = k + 1;
    }
}

/// The parts of markup `s` that hold no token, in order: each piece closed by
/// a `;` that ends no match, and the text after the last `;` if there is any.
pub open spec fn skipped_of(s: Seq<char>) -> Seq<Seq<char>>
    decreases s.len(),
{
    let k = find_char(s, ';') as int;
    if k < s.len() {
        let rest = skipped_of(s.subrange(k + 1, s.len() as int));
        if segment_token(s.subrange(0, k)) is None {
            seq![s.subrange(0, k)].add(rest)
        } else {
            rest
        }
    } else if s.len() > 0 {
        seq![s]
    } else {
        seq![]
    }
}

/// Diagnostics for markup: the pieces that tokenizing passed over.
pub fn skipped_pieces(raw: &str) -> (r: Vec<String>)
    ensures
        strings_view(r@) == skipped_of(raw@),
{
    let chars = chars_of(raw);
    let n = chars.len();
    let mut r: Vec<String> = Vec::new();
    let mut pos: usize = 0;
    assert(raw@.subrange(0, n as int) =~= raw@);
    assert(strings_view(r@) + skipped_of(raw@) =~= skipped_of(raw@));
    loop
        invariant
            chars@ == raw@,
            n == raw@.len(),
            pos <= n,
            strings_view(r@) + skipped_of(raw@.subrange(pos as int, n as int)) == skipped_of(raw@),
        decreases n - pos,
    {
        let ghost before = r@;
        let ghost sub = raw@.subrange(pos as int, n as int);
        let k = find_from(&chars, pos, ';');
        assert(chars@.subrange(pos as int, chars@.len() as int) == sub);
        if k == n {
            if pos < n {
                r.push(string_of(raw, pos, n));
                assert(strings_view(r@) =~= strings_view(before) + skipped_of(sub));
            } else {
                assert(strings_view(r@) =~= strings_view(r@) + skipped_of(sub));
            }
            return r;
        }
        let ghost rest = raw@.subrange(k + 1, n as int);
        assert(sub.subrange(0, k - pos) =~= raw@.subrange(pos as int, k as int));
        assert(sub.subrange(k - pos + 1, sub.len() as int) =~= rest);
        if read_segment(raw, &chars, pos, k).is_none() {
            r.push(string_of(raw, pos, k));
            assert(strings_view(r@) =~= strings_view(before) + seq![raw@.subrange(pos as int, k as int)]);
            assert(strings_view(r@) + skipped_of(rest) =~= strings_view(before) + skipped_of(sub));
        }
        pos = k + 1;
    }
}

} // verus!
