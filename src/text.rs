//! Character-level helpers: decimal and hex digits, comparison, splitting.

use vstd::prelude::*;

verus! {

/// The text of one decimal digit.
pub open spec fn digit_text(d: int) -> Seq<char> {
    if d == 0 {
        "0"@
    } else if d == 1 {
        "1"@
    } else if d == 2 {
        "2"@
    } else if d == 3 {
        "3"@
    } else if d == 4 {
        "4"@
    } else if d == 5 {
        "5"@
    } else if d == 6 {
        "6"@
    } else if d == 7 {
        "7"@
    } else if d == 8 {
        "8"@
    } else {
        "9"@
    }
}

/// Decimal rendering of `n`, without leading zeros.
pub open spec fn dec_text(n: nat) -> Seq<char>
    decreases n,
{
    if n < 10 {
        digit_text(n as int)
    } else {
        dec_text(n / 10) + digit_text((n % 10) as int)
    }
}

fn digit_str(d: u64) -> (r: &'static str)
    requires
        d < 10,
    ensures
        r@ == digit_text(d as int),
{
    if d == 0 {
        "0"
    } else if d == 1 {
        "1"
    } else if d == 2 {
        "2"
    } else if d == 3 {
        "3"
    } else if d == 4 {
        "4"
    } else if d == 5 {
        "5"
    } else if d == 6 {
        "6"
    } else if d == 7 {
        "7"
    } else if d == 8 {
        "8"
    } else {
        "9"
    }
}

/// Renders `n` in decimal.
pub fn decimal(n: u64) -> (r: String)
    ensures
        r@ == dec_text(n as nat),
    decreases n,
{
    if n < 10 {
        String::from_str(digit_str(n))
    } else {
        let mut s = decimal(n / 10);
        s.append(digit_str(n % 10));
        s
    }
}

/// `s` extended by `t`.
pub fn concat(s: String, t: &str) -> (r: String)
    ensures
        r@ == s@ + t@,
{
    let mut s = s;
    s.append(t);
    s
}

/// A copy of `s`.
pub fn owned(s: &str) -> (r: String)
    ensures
        r@ == s@,
{
    String::from_str(s)
}

pub fn str_eq(a: &str, b: &str) -> (r: bool)
    ensures
        r == (a@ == b@),
{
    let n = a.unicode_len();
    if n != b.unicode_len() {
        return false;
    }
    let mut i: usize = 0;
    while i < n
        invariant
            n == a@.len(),
            n == b@.len(),
            i <= n,
            a@.subrange(0, i as int) == b@.subrange(0, i as int),
        decreases n - i,
    {
        if a.get_char(i) != b.get_char(i) {
            assert(a@[i as int] != b@[i as int]);
            return false;
        }
        assert(a@.subrange(0, i + 1) == a@.subrange(0, i as int).push(a@[i as int]));
        assert(b@.subrange(0, i + 1) == b@.subrange(0, i as int).push(b@[i as int]));
        i = i + 1;
    }
    assert(a@ == a@.subrange(0, n as int));
    assert(b@ == b@.subrange(0, n as int));
    true
}

pub open spec fn is_prefix(p: Seq<char>, s: Seq<char>) -> bool {
    p.len() <= s.len() && s.subrange(0, p.len() as int) == p
}

pub fn starts_with(s: &str, p: &str) -> (r: bool)
    ensures
        r == is_prefix(p@, s@),
{
    let n = p.unicode_len();
    if n > s.unicode_len() {
        return false;
    }
    let mut i: usize = 0;
    while i < n
        invariant
            n == p@.len(),
            n <= s@.len(),
            i <= n,
            s@.subrange(0, i as int) == p@.subrange(0, i as int),
        decreases n - i,
    {
        if s.get_char(i) != p.get_char(i) {
            assert(s@.subrange(0, n as int)[i as int] != p@[i as int]);
            return false;
        }
        assert(s@.subrange(0, i + 1) == s@.subrange(0, i as int).push(s@[i as int]));
        assert(p@.subrange(0, i + 1) == p@.subrange(0, i as int).push(p@[i as int]));
        i = i + 1;
    }
    assert(p@ == p@.subrange(0, n as int));
    true
}

/// Pieces of `s` between occurrences of `sep`, empty pieces kept.
pub open spec fn split_spec(s: Seq<char>, sep: char) -> Seq<Seq<char>>
    decreases s.len(),
{
    if s.len() == 0 {
        seq![Seq::<char>::empty()]
    } else {
        let rest = split_spec(s.drop_last(), sep);
        if s.last() == sep {
            rest.push(Seq::<char>::empty())
        } else {
            rest.update(rest.len() - 1, rest.last().push(s.last()))
        }
    }
}

pub proof fn lemma_split_nonempty(s: Seq<char>, sep: char)
    ensures
        split_spec(s, sep).len() >= 1,
    decreases s.len(),
{
    if s.len() > 0 {
        lemma_split_nonempty(s.drop_last(), sep);
    }
}

/// The non-empty pieces of `ss`, in order.
pub open spec fn nonempty_of(ss: Seq<Seq<char>>) -> Seq<Seq<char>>
    decreases ss.len(),
{
    if ss.len() == 0 {
        Seq::empty()
    } else {
        let rest = nonempty_of(ss.drop_last());
        if ss.last().len() > 0 {
            rest.push(ss.last())
        } else {
            rest
        }
    }
}

/// The words of `s` separated by `sep`, empty ones dropped.
pub open spec fn words_spec(s: Seq<char>, sep: char) -> Seq<Seq<char>> {
    nonempty_of(split_spec(s, sep))
}

pub open spec fn views(v: Seq<String>) -> Seq<Seq<char>> {
    v.map_values(|x: String| x@)
}

/// Splits `s` at every `sep`.
pub fn split_char(s: &str, sep: char) -> (r: Vec<String>)
    ensures
        views(r@) == split_spec(s@, sep),
{
    let n = s.unicode_len();
    let mut pieces: Vec<String> = Vec::new();
    let mut start: usize = 0;
    let mut i: usize = 0;
    proof {
        assert(s@.subrange(0, 0) == Seq::<char>::empty());
        assert(views(pieces@) == Seq::<Seq<char>>::empty());
    }
    while i < n
        invariant
            n == s@.len(),
            start <= i <= n,
            split_spec(s@.subrange(0, i as int), sep) == views(pieces@).push(
                s@.subrange(start as int, i as int),
            ),
        decreases n - i,
    {
        let c = s.get_char(i);
        proof {
            let pre = s@.subrange(0, i + 1);
            assert(pre.drop_last() == s@.subrange(0, i as int));
            assert(pre.last() == c);
        }
        if c == sep {
            let piece = owned(s.substring_char(start, i));
            proof {
                assert(views(pieces@.push(piece)) == views(pieces@).push(piece@));
            }
            pieces.push(piece);
            start = i + 1;
            proof {
                assert(s@.subrange(start as int, start as int) == Seq::<char>::empty());
            }
        } else {
            proof {
                assert(s@.subrange(start as int, i + 1) == s@.subrange(start as int, i as int).push(c));
            }
        }
        i = i + 1;
    }
    let last = owned(s.substring_char(start, n));
    proof {
        assert(s@.subrange(0, n as int) == s@);
        assert(views(pieces@.push(last)) == views(pieces@).push(last@));
    }
    pieces.push(last);
    pieces
}

/// Keeps the non-empty strings of `v`, in order.
pub fn drop_empty(v: Vec<String>) -> (r: Vec<String>)
    ensures
        views(r@) == nonempty_of(views(v@)),
{
    let mut out: Vec<String> = Vec::new();
    let mut i: usize = 0;
    proof {
        assert(views(v@.subrange(0, 0)) == Seq::<Seq<char>>::empty());
        assert(views(out@) == Seq::<Seq<char>>::empty());
    }
    while i < v.len()
        invariant
            i <= v.len(),
            views(out@) == nonempty_of(views(v@.subrange(0, i as int))),
        decreases v.len() - i,
    {
        proof {
            let pre = views(v@.subrange(0, i + 1));
            assert(pre.drop_last() == views(v@.subrange(0, i as int)));
            assert(pre.last() == v@[i as int]@);
        }
        if v[i].as_str().unicode_len() > 0 {
            let w = owned(v[i].as_str());
            proof {
                assert(views(out@.push(w)) == views(out@).push(w@));
            }
            out.push(w);
        }
        i = i + 1;
    }
    proof {
        assert(v@.subrange(0, v@.len() as int) == v@);
    }
    out
}

/// The words of `s` separated by `sep`.
pub fn words(s: &str, sep: char) -> (r: Vec<String>)
    ensures
        views(r@) == words_spec(s@, sep),
{
    drop_empty(split_char(s, sep))
}

/// Index of the first `c` in `s`.
pub fn find_char(s: &str, c: char) -> (r: Option<usize>)
    ensures
        match r {
            Some(i) => i < s@.len() && s@[i as int] == c && forall|j: int|
                0 <= j < i ==> s@[j] != c,
            None => forall|j: int| 0 <= j < s@.len() ==> s@[j] != c,
        },
{
    let n = s.unicode_len();
    let mut i: usize = 0;
    while i < n
        invariant
            n == s@.len(),
            i <= n,
            forall|j: int| 0 <= j < i ==> s@[j] != c,
        decreases n - i,
    {
        if s.get_char(i) == c {
            return Some(i);
        }
        i = i + 1;
    }
    None
}

} // verus!

verus! {

/// The lines of `s`: pieces between newlines, without a trailing empty one.
pub open spec fn lines_spec(s: Seq<char>) -> Seq<Seq<char>> {
    let p = split_spec(s, '\n');
    if p.len() > 0 && p.last().len() == 0 {
        p.drop_last()
    } else {
        p
    }
}

/// Splits `s` into lines, as `str::lines` does on text without `\r`.
pub fn lines_of(s: &str) -> (r: Vec<String>)
    ensures
        views(r@) == lines_spec(s@),
{
    let mut v = split_char(s, '\n');
    proof {
        lemma_split_nonempty(s@, '\n');
    }
    let n = v.len();
    if v[n - 1].as_str().unicode_len() == 0 {
        let _ = v.pop();
        proof {
            assert(views(v@) == split_spec(s@, '\n').drop_last());
        }
    }
    v
}

} // verus!

verus! {

pub open spec fn is_ws(c: char) -> bool {
    c == ' ' || c == '\t' || c == '\n' || c == '\r'
}

/// Pieces of `s` between whitespace characters, empty pieces kept.
pub open spec fn split_ws_spec(s: Seq<char>) -> Seq<Seq<char>>
    decreases s.len(),
{
    if s.len() == 0 {
        seq![Seq::<char>::empty()]
    } else {
        let rest = split_ws_spec(s.drop_last());
        if is_ws(s.last()) {
            rest.push(Seq::<char>::empty())
        } else {
            rest.update(rest.len() - 1, rest.last().push(s.last()))
        }
    }
}

/// The whitespace-separated fields of `s`.
pub open spec fn fields_spec(s: Seq<char>) -> Seq<Seq<char>> {
    nonempty_of(split_ws_spec(s))
}

fn split_ws(s: &str) -> (r: Vec<String>)
    ensures
        views(r@) == split_ws_spec(s@),
{
    let n = s.unicode_len();
    let mut pieces: Vec<String> = Vec::new();
    let mut start: usize = 0;
    let mut i: usize = 0;
    proof {
        assert(s@.subrange(0, 0) == Seq::<char>::empty());
        assert(views(pieces@) == Seq::<Seq<char>>::empty());
    }
    while i < n
        invariant
            n == s@.len(),
            start <= i <= n,
            split_ws_spec(s@.subrange(0, i as int)) == views(pieces@).push(
                s@.subrange(start as int, i as int),
            ),
        decreases n - i,
    {
        let c = s.get_char(i);
        proof {
            let pre = s@.subrange(0, i + 1);
            assert(pre.drop_last() == s@.subrange(0, i as int));
            assert(pre.last() == c);
        }
        if c == ' ' || c == '\t' || c == '\n' || c == '\r' {
            let piece = owned(s.substring_char(start, i));
            proof {
                assert(views(pieces@.push(piece)) == views(pieces@).push(piece@));
            }
            pieces.push(piece);
            start = i + 1;
            proof {
                assert(s@.subrange(start as int, start as int) == Seq::<char>::empty());
            }
        } else {
            proof {
                assert(s@.subrange(start as int, i + 1) == s@.subrange(start as int, i as int).push(c));
            }
        }
        i = i + 1;
    }
    let last = owned(s.substring_char(start, n));
    proof {
        assert(s@.subrange(0, n as int) == s@);
        assert(views(pieces@.push(last)) == views(pieces@).push(last@));
    }
    pieces.push(last);
    pieces
}

/// The whitespace-separated fields of `s`, as `str::split_whitespace`
/// gives them for ASCII whitespace.
pub fn fields(s: &str) -> (r: Vec<String>)
    ensures
        views(r@) == fields_spec(s@),
{
    drop_empty(split_ws(s))
}

/// Index of the first occurrence of `p` in `s`, or `s.len()`.
pub open spec fn find_spec(s: Seq<char>, p: Seq<char>, i: int) -> int
    decreases s.len() + 1 - i,
{
    if i < 0 || i + p.len() > s.len() {
        s.len() as int
    } else if s.subrange(i, i + p.len()) == p {
        i
    } else {
        find_spec(s, p, i + 1)
    }
}

pub proof fn lemma_find_bounds(s: Seq<char>, p: Seq<char>, i: int)
    requires
        0 <= i,
    ensures
        find_spec(s, p, i) == s.len() || (i <= find_spec(s, p, i) && find_spec(s, p, i) + p.len() <= s.len()),
    decreases s.len() + 1 - i,
{
    if i + p.len() <= s.len() && s.subrange(i, i + p.len()) != p {
        lemma_find_bounds(s, p, i + 1);
    }
}

/// Index of the first occurrence of `p` in `s`, or its length.
pub fn find_str(s: &str, p: &str) -> (r: usize)
    ensures
        r == find_spec(s@, p@, 0),
{
    let n = s.unicode_len();
    let m = p.unicode_len();
    if m == 0 {
        assert(s@.subrange(0, 0) == p@);
        return 0;
    }
    if m > n {
        return n;
    }
    let mut i: usize = 0;
    while i <= n - m
        invariant
            n == s@.len(),
            m == p@.len(),
            1 <= m <= n,
            find_spec(s@, p@, 0) == find_spec(s@, p@, i as int),
        decreases n + 1 - i,
    {
        if str_eq(s.substring_char(i, i + m), p) {
            return i;
        }
        i = i + 1;
    }
    n
}

} // verus!
