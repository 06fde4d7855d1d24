//! Character-level text handling shared by the parsers of this crate.
use vstd::prelude::*;

verus! {

/// Whether `c` has the Unicode `White_Space` property, which is what
/// `char::is_whitespace` tests.
pub open spec fn is_ws(c: char) -> bool {
    ||| c == ' '
    ||| ('\u{9}' <= c && c <= '\u{D}')
    ||| c == '\u{85}'
    ||| c == '\u{A0}'
    ||| c == '\u{1680}'
    ||| ('\u{2000}' <= c && c <= '\u{200A}')
    ||| c == '\u{2028}'
    ||| c == '\u{2029}'
    ||| c == '\u{202F}'
    ||| c == '\u{205F}'
    ||| c == '\u{3000}'
}

/// Executable form of [`is_ws`].
pub fn is_whitespace(c: char) -> (b: bool)
    ensures
        b == is_ws(c),
{
    c == ' ' || ('\u{9}' <= c && c <= '\u{D}') || c == '\u{85}' || c == '\u{A0}' || c == '\u{1680}'
        || ('\u{2000}' <= c && c <= '\u{200A}') || c == '\u{2028}' || c == '\u{2029}' || c
        == '\u{202F}' || c == '\u{205F}' || c == '\u{3000}'
}

/// `cur`, as a one-element list when it is not empty.
pub open spec fn nonempty_piece(cur: Seq<char>) -> Seq<Seq<char>> {
    if cur.len() == 0 {
        seq![]
    } else {
        seq![cur]
    }
}

/// The maximal runs of non-whitespace characters of `cur + s`, where `cur`
/// is a run that has been started before `s`.
pub open spec fn words_from(s: Seq<char>, cur: Seq<char>) -> Seq<Seq<char>>
    decreases s.len(),
{
    if s.len() == 0 {
        nonempty_piece(cur)
    } else if is_ws(s[0]) {
        nonempty_piece(cur) + words_from(s.drop_first(), seq![])
    } else {
        words_from(s.drop_first(), cur.push(s[0]))
    }
}

/// The whitespace-separated words of `s`, as `str::split_whitespace` yields them.
pub open spec fn words(s: Seq<char>) -> Seq<Seq<char>> {
    words_from(s, seq![])
}

/// `s` without the last character when that character is `'\r'`.
pub open spec fn strip_cr(s: Seq<char>) -> Seq<char> {
    if s.len() > 0 && s.last() == '\r' {
        s.drop_last()
    } else {
        s
    }
}

/// The lines of `cur + s`, where `cur` is the part of the current line
/// that has been read before `s`.
pub open spec fn lines_from(s: Seq<char>, cur: Seq<char>) -> Seq<Seq<char>>
    decreases s.len(),
{
    if s.len() == 0 {
        nonempty_piece(cur)
    } else if s[0] == '\n' {
        seq![strip_cr(cur)] + lines_from(s.drop_first(), seq![])
    } else {
        lines_from(s.drop_first(), cur.push(s[0]))
    }
}

/// The lines of `s`, as `str::lines` yields them: split at `'\n'`, a `'\r'`
/// right before the `'\n'` dropped, and no empty line after a final `'\n'`.
pub open spec fn lines(s: Seq<char>) -> Seq<Seq<char>> {
    lines_from(s, seq![])
}

/// The pieces of `cur + s` between occurrences of `sep`.
pub open spec fn split_from(s: Seq<char>, sep: char, cur: Seq<char>) -> Seq<Seq<char>>
    decreases s.len(),
{
    if s.len() == 0 {
        seq![cur]
    } else if s[0] == sep {
        seq![cur] + split_from(s.drop_first(), sep, seq![])
    } else {
        split_from(s.drop_first(), sep, cur.push(s[0]))
    }
}

/// The pieces of `s` between occurrences of `sep`, as `str::split` with a
/// character pattern yields them (always at least one piece).
pub open spec fn split_on(s: Seq<char>, sep: char) -> Seq<Seq<char>> {
    split_from(s, sep, seq![])
}

/// `s` without its whitespace characters.
pub open spec fn remove_ws(s: Seq<char>) -> Seq<char> {
    s.filter(|c: char| !is_ws(c))
}

/// Whether `s` begins with `prefix`.
pub open spec fn has_prefix(s: Seq<char>, prefix: Seq<char>) -> bool {
    prefix.len() <= s.len() && s.take(prefix.len() as int) == prefix
}

/// Removing whitespace twice removes no more than removing it once.
pub proof fn lemma_remove_ws_idempotent(s: Seq<char>)
    ensures
        remove_ws(remove_ws(s)) == remove_ws(s),
    decreases s.len(),
{
    reveal(Seq::filter);
    if s.len() > 0 {
        lemma_remove_ws_idempotent(s.drop_last());
        let r = remove_ws(s.drop_last());
        if !is_ws(s.last()) {
            assert(remove_ws(s) == r.push(s.last()));
            assert(r.push(s.last()).drop_last() == r);
        }
    }
}

/// A text without whitespace is left as it is by [`remove_ws`].
pub proof fn lemma_remove_ws_none(s: Seq<char>)
    requires
        forall|i: int| 0 <= i < s.len() ==> !is_ws(#[trigger] s[i]),
    ensures
        remove_ws(s) == s,
    decreases s.len(),
{
    reveal(Seq::filter);
    if s.len() > 0 {
        lemma_remove_ws_none(s.drop_last());
        assert(s.drop_last().push(s.last()) == s);
    }
}

/// A text without `sep` is one piece.
pub proof fn lemma_split_none(s: Seq<char>, sep: char, cur: Seq<char>)
    requires
        forall|i: int| 0 <= i < s.len() ==> #[trigger] s[i] != sep,
    ensures
        split_from(s, sep, cur) == seq![cur + s],
    decreases s.len(),
{
    if s.len() == 0 {
        assert(cur + s == cur);
    } else {
        assert forall|i: int| 0 <= i < s.drop_first().len() implies #[trigger] s.drop_first()[i]
            != sep by {
            assert(s.drop_first()[i] == s[i + 1]);
        }
        lemma_split_none(s.drop_first(), sep, cur.push(s[0]));
        assert(cur.push(s[0]) + s.drop_first() == cur + s);
    }
}

/// The part of `s` after its last `sep`; all of `s` when it has none.
pub open spec fn after_last(s: Seq<char>, sep: char) -> Seq<char>
    decreases s.len(),
{
    if s.len() == 0 {
        s
    } else if s.last() == sep {
        seq![]
    } else {
        after_last(s.drop_last(), sep).push(s.last())
    }
}

/// What follows the last `sep` of `a + d`, where `a` ends with `sep` and `d`
/// holds none, is `d`.
pub proof fn lemma_after_last_suffix(a: Seq<char>, d: Seq<char>, sep: char)
    requires
        a.len() > 0,
        a.last() == sep,
        forall|i: int| 0 <= i < d.len() ==> #[trigger] d[i] != sep,
    ensures
        after_last(a + d, sep) == d,
    decreases d.len(),
{
    if d.len() == 0 {
        assert(a + d == a);
    } else {
        let s = a + d;
        assert(s.drop_last() == a + d.drop_last());
        assert(s.last() == d.last());
        assert(d[d.len() - 1] != sep);
        assert forall|i: int| 0 <= i < d.drop_last().len() implies #[trigger] d.drop_last()[i] != sep by {
            assert(d.drop_last()[i] == d[i]);
        }
        lemma_after_last_suffix(a, d.drop_last(), sep);
        assert(d.drop_last().push(d.last()) == d);
    }
}

/// Whether `c` occurs in `s`.
pub fn contains_char(s: &[char], c: char) -> (b: bool)
    ensures
        b == s@.contains(c),
{
    let mut i: usize = 0;
    while i < s.len()
        invariant
            0 <= i <= s.len(),
            forall|j: int| 0 <= j < i ==> s@[j] != c,
        decreases s.len() - i,
    {
        if s[i] == c {
            assert(s@[i as int] == c);
            return true;
        }
        i += 1;
    }
    false
}

/// The part of `s` after its last `sep`; all of `s` when it has none.
pub fn suffix_after_last(s: &[char], sep: char) -> (r: Vec<char>)
    ensures
        r@ == after_last(s@, sep),
{
    let mut i: usize = s.len();
    assert(s@.take(s.len() as int) == s@);
    assert(s@.skip(s.len() as int) =~= Seq::<char>::empty());
    while i > 0 && s[i - 1] != sep
        invariant
            0 <= i <= s.len(),
            after_last(s@, sep) == after_last(s@.take(i as int), sep) + s@.skip(i as int),
            forall|j: int| i <= j < s.len() ==> s@[j] != sep,
        decreases i,
    {
        let ghost p = s@.take(i as int);
        assert(p.drop_last() == s@.take(i - 1));
        assert(p.last() == s@[i - 1]);
        assert(after_last(p, sep) == after_last(s@.take(i - 1), sep).push(s@[i - 1]));
        assert(s@.skip(i - 1) == seq![s@[i - 1]] + s@.skip(i as int));
        assert(after_last(s@.take(i - 1), sep).push(s@[i - 1]) + s@.skip(i as int)
            == after_last(s@.take(i - 1), sep) + s@.skip(i - 1));
        i -= 1;
    }
    let mut r: Vec<char> = Vec::new();
    let mut j: usize = i;
    proof {
        if i > 0 {
            let p = s@.take(i as int);
            assert(p.last() == s@[i - 1]);
            assert(after_last(p, sep) == Seq::<char>::empty());
        } else {
            assert(s@.take(0) =~= Seq::<char>::empty());
        }
        assert(after_last(s@, sep) == s@.skip(i as int));
    }
    while j < s.len()
        invariant
            i <= j <= s.len(),
            r@ == s@.subrange(i as int, j as int),
        decreases s.len() - j,
    {
        r.push(s[j]);
        j += 1;
    }
    assert(r@ == s@.skip(i as int));
    r
}

/// Lines read after a text that ends a line continue as the lines of what
/// follows.
pub proof fn lemma_lines_from_concat(a: Seq<char>, b: Seq<char>, cur: Seq<char>)
    requires
        a.len() > 0,
        a.last() == '\n',
    ensures
        lines_from(a + b, cur) == lines_from(a, cur) + lines(b),
    decreases a.len(),
{
    let ab = a + b;
    assert(ab[0] == a[0]);
    assert(ab.drop_first() == a.drop_first() + b);
    if a[0] == '\n' {
        if a.len() == 1 {
            assert(a.drop_first() + b == b);
            assert(lines_from(a.drop_first(), seq![]) == Seq::<Seq<char>>::empty());
        } else {
            assert(a.drop_first().last() == a.last());
            lemma_lines_from_concat(a.drop_first(), b, seq![]);
        }
        assert(lines_from(a + b, cur) == seq![strip_cr(cur)] + lines_from(a.drop_first() + b, seq![]));
    } else {
        assert(a.drop_first().last() == a.last());
        lemma_lines_from_concat(a.drop_first(), b, cur.push(a[0]));
    }
}

/// The lines of two texts, the first empty or ending a line, are the lines
/// of the first followed by the lines of the second.
pub proof fn lemma_lines_concat(a: Seq<char>, b: Seq<char>)
    requires
        a.len() == 0 || a.last() == '\n',
    ensures
        lines(a + b) == lines(a) + lines(b),
{
    if a.len() == 0 {
        assert(a + b == b);
        assert(lines(a) == Seq::<Seq<char>>::empty());
    } else {
        lemma_lines_from_concat(a, b, seq![]);
    }
}

/// The characters of `s`, in order.
pub fn chars_of(s: &str) -> (v: Vec<char>)
    ensures
        v@ == s@,
{
    let mut v: Vec<char> = Vec::new();
    for c in it: s.chars()
        invariant
            v@ == it.history(),
    {
        v.push(c);
    }
    v
}

/// A `String` that holds `chars`; `String: FromIterator<char>`.
#[verifier::external_body]
pub(crate) fn string_from_chars(chars: &[char]) -> (s: String)
    ensures
        s@ == chars@,
{
    chars.iter().collect()
}

/// Whether two texts are equal, character by character.
pub fn str_eq(a: &str, b: &str) -> (b_eq: bool)
    ensures
        b_eq == (a@ == b@),
{
    let x = chars_of(a);
    let y = chars_of(b);
    if x.len() != y.len() {
        return false;
    }
    let mut i: usize = 0;
    while i < x.len()
        invariant
            0 <= i <= x.len(),
            x.len() == y.len(),
            x@ == a@,
            y@ == b@,
            forall|j: int| 0 <= j < i ==> x@[j] == y@[j],
        decreases x.len() - i,
    {
        if x[i] != y[i] {
            assert(a@[i as int] != b@[i as int]);
            return false;
        }
        i += 1;
    }
    assert(x@ =~= y@);
    true
}

/// Splits `s` into its whitespace-separated words.
pub fn split_words(s: &[char]) -> (ws: Vec<Vec<char>>)
    ensures
        ws@.map_values(|w: Vec<char>| w@) == words(s@),
{
    let mut ws: Vec<Vec<char>> = Vec::new();
    let mut cur: Vec<char> = Vec::new();
    let mut i: usize = 0;
    assert(s@.skip(0) == s@);
    assert(ws@.map_values(|w: Vec<char>| w@) + words_from(s@, cur@) == words_from(s@, cur@));
    while i < s.len()
        invariant
            0 <= i <= s.len(),
            words(s@) == ws@.map_values(|w: Vec<char>| w@) + words_from(s@.skip(i as int), cur@),
        decreases s.len() - i,
    {
        let c = s[i];
        let ghost rest = s@.skip(i as int);
        assert(rest[0] == c);
        assert(rest.drop_first() == s@.skip(i + 1));
        if is_whitespace(c) {
            if cur.len() > 0 {
                let ghost old_ws = ws@;
                ws.push(cur);
                assert(ws@.map_values(|w: Vec<char>| w@) == old_ws.map_values(|w: Vec<char>| w@)
                    + nonempty_piece(cur@));
                cur = Vec::new();
            } else {
                assert(nonempty_piece(cur@) == Seq::<Seq<char>>::empty());
                cur = Vec::new();
            }
        } else {
            cur.push(c);
        }
        i += 1;
    }
    assert(s@.skip(i as int).len() == 0);
    if cur.len() > 0 {
        let ghost old_ws = ws@;
        ws.push(cur);
        assert(ws@.map_values(|w: Vec<char>| w@) == old_ws.map_values(|w: Vec<char>| w@)
            + nonempty_piece(cur@));
    }
    ws
}

/// Splits `s` into its lines.
pub fn split_lines(s: &[char]) -> (ls: Vec<Vec<char>>)
    ensures
        ls@.map_values(|l: Vec<char>| l@) == lines(s@),
{
    let mut ls: Vec<Vec<char>> = Vec::new();
    let mut cur: Vec<char> = Vec::new();
    let mut i: usize = 0;
    assert(s@.skip(0) == s@);
    assert(ls@.map_values(|l: Vec<char>| l@) + lines_from(s@, cur@) == lines_from(s@, cur@));
    while i < s.len()
        invariant
            0 <= i <= s.len(),
            lines(s@) == ls@.map_values(|l: Vec<char>| l@) + lines_from(s@.skip(i as int), cur@),
        decreases s.len() - i,
    {
        let c = s[i];
        let ghost rest = s@.skip(i as int);
        assert(rest[0] == c);
        assert(rest.drop_first() == s@.skip(i + 1));
        if c == '\n' {
            if cur.len() > 0 && cur[cur.len() - 1] == '\r' {
                cur.pop();
            }
            let ghost old_ls = ls@;
            ls.push(cur);
            assert(ls@.map_values(|l: Vec<char>| l@) == old_ls.map_values(|l: Vec<char>| l@)
                + seq![cur@]);
            cur = Vec::new();
        } else {
            cur.push(c);
        }
        i += 1;
    }
    assert(s@.skip(i as int).len() == 0);
    if cur.len() > 0 {
        let ghost old_ls = ls@;
        ls.push(cur);
        assert(ls@.map_values(|l: Vec<char>| l@) == old_ls.map_values(|l: Vec<char>| l@)
            + nonempty_piece(cur@));
    }
    ls
}

/// Splits `s` at each occurrence of `sep`.
pub fn split_char(s: &[char], sep: char) -> (ps: Vec<Vec<char>>)
    ensures
        ps@.map_values(|p: Vec<char>| p@) == split_on(s@, sep),
{
    let mut ps: Vec<Vec<char>> = Vec::new();
    let mut cur: Vec<char> = Vec::new();
    let mut i: usize = 0;
    assert(s@.skip(0) == s@);
    assert(ps@.map_values(|p: Vec<char>| p@) + split_from(s@, sep, cur@) == split_from(s@, sep, cur@));
    while i < s.len()
        invariant
            0 <= i <= s.len(),
            split_on(s@, sep) == ps@.map_values(|p: Vec<char>| p@) + split_from(s@.skip(i as int), sep, cur@),
        decreases s.len() - i,
    {
        let c = s[i];
        let ghost rest = s@.skip(i as int);
        assert(rest[0] == c);
        assert(rest.drop_first() == s@.skip(i + 1));
        if c == sep {
            let ghost old_ps = ps@;
            ps.push(cur);
            assert(ps@.map_values(|p: Vec<char>| p@) == old_ps.map_values(|p: Vec<char>| p@)
                + seq![cur@]);
            cur = Vec::new();
        } else {
            cur.push(c);
        }
        i += 1;
    }
    assert(s@.skip(i as int).len() == 0);
    let ghost old_ps = ps@;
    ps.push(cur);
    assert(ps@.map_values(|p: Vec<char>| p@) == old_ps.map_values(|p: Vec<char>| p@) + seq![cur@]);
    ps
}

/// `s` without its whitespace characters.
pub fn without_whitespace(s: &[char]) -> (r: Vec<char>)
    ensures
        r@ == remove_ws(s@),
{
    let mut r: Vec<char> = Vec::new();
    let mut i: usize = 0;
    while i < s.len()
        invariant
            0 <= i <= s.len(),
            r@ == remove_ws(s@.take(i as int)),
        decreases s.len() - i,
    {
        let c = s[i];
        assert(s@.take(i + 1).drop_last() == s@.take(i as int));
        proof {
            reveal(Seq::filter);
        }
        if !is_whitespace(c) {
            r.push(c);
        }
        i += 1;
    }
    assert(s@.take(s.len() as int) == s@);
    r
}

/// Whether `s` begins with `prefix`.
pub fn starts_with(s: &[char], prefix: &str) -> (b: bool)
    ensures
        b == has_prefix(s@, prefix@),
{
    let p = chars_of(prefix);
    if p.len() > s.len() {
        return false;
    }
    let mut i: usize = 0;
    while i < p.len()
        invariant
            p@ == prefix@,
            p.len() <= s.len(),
            0 <= i <= p.len(),
            forall|j: int| 0 <= j < i ==> s@[j] == p@[j],
        decreases p.len() - i,
    {
        if s[i] != p[i] {
            assert(s@.take(p.len() as int)[i as int] != p@[i as int]);
            return false;
        }
        i += 1;
    }
    assert(s@.take(p.len() as int) =~= p@);
    true
}

} // verus!
