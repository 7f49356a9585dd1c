//! Character-level text operations, each with the meaning of its std
//! counterpart on `str` stated as a spec function.

use vstd::prelude::*;

verus! {

/// The Unicode `White_Space` characters: what `char::is_whitespace` accepts.
pub open spec fn is_ws(c: char) -> bool {
    let n = c as int;
    ||| n == 0x20 || (0x09 <= n <= 0x0D) || n == 0x85 || n == 0xA0 || n == 0x1680
    ||| (0x2000 <= n <= 0x200A) || n == 0x2028 || n == 0x2029 || n == 0x202F
    ||| n == 0x205F || n == 0x3000
}

/// `s` without its leading whitespace.
pub open spec fn trim_start(s: Seq<char>) -> Seq<char>
    decreases s.len(),
{
    if s.len() > 0 && is_ws(s[0]) {
        trim_start(s.drop_first())
    } else {
        s
    }
}

/// `s` without its trailing whitespace.
pub open spec fn trim_end(s: Seq<char>) -> Seq<char>
    decreases s.len(),
{
    if s.len() > 0 && is_ws(s.last()) {
        trim_end(s.drop_last())
    } else {
        s
    }
}

/// `s` without leading or trailing whitespace.
pub open spec fn trim(s: Seq<char>) -> Seq<char> {
    trim_end(trim_start(s))
}

/// The index of the first `c` in `s`.
pub open spec fn find_index(s: Seq<char>, c: char) -> Option<int>
    decreases s.len(),
{
    if s.len() == 0 {
        None
    } else if s[0] == c {
        Some(0)
    } else {
        match find_index(s.drop_first(), c) {
            Some(k) => Some(k + 1),
            None => None,
        }
    }
}

/// The index of the last `c` in `s`.
pub open spec fn rfind_index(s: Seq<char>, c: char) -> Option<int>
    decreases s.len(),
{
    if s.len() == 0 {
        None
    } else if s.last() == c {
        Some(s.len() - 1)
    } else {
        rfind_index(s.drop_last(), c)
    }
}

/// `s` begins with `p`.
pub open spec fn starts_with(s: Seq<char>, p: Seq<char>) -> bool {
    p.len() <= s.len() && s.take(p.len() as int) == p
}

/// A line without the carriage return of a `\r\n` ending.
pub open spec fn strip_cr(s: Seq<char>) -> Seq<char> {
    if s.len() > 0 && s.last() == '\r' {
        s.drop_last()
    } else {
        s
    }
}

/// The lines of `s` as `str::lines` yields them: split at `\n`, a `\r` before
/// it dropped, and no empty line after a final `\n`.
pub open spec fn lines_of(s: Seq<char>) -> Seq<Seq<char>>
    decreases s.len(),
{
    if s.len() == 0 {
        seq![]
    } else {
        match find_index(s, '\n') {
            Some(p) => if 0 <= p < s.len() {
                seq![strip_cr(s.take(p))] + lines_of(s.skip(p + 1))
            } else {
                seq![]
            },
            None => seq![s],
        }
    }
}

/// The views of a sequence of strings.
pub open spec fn views(v: Seq<String>) -> Seq<Seq<char>> {
    v.map_values(|s: String| s@)
}

/// Where `find_index` answers, the index lies within `s` and holds `c`, and
/// no earlier index holds `c`.
pub proof fn lemma_find_index(s: Seq<char>, c: char)
    ensures
        match find_index(s, c) {
            Some(k) => 0 <= k < s.len() && s[k] == c && forall|j: int| 0 <= j < k ==> s[j] != c,
            None => forall|j: int| 0 <= j < s.len() ==> s[j] != c,
        },
    decreases s.len(),
{
    if s.len() > 0 && s[0] != c {
        lemma_find_index(s.drop_first(), c);
        match find_index(s.drop_first(), c) {
            Some(k) => {
                assert forall|j: int| 0 <= j < k + 1 implies s[j] != c by {
                    if j > 0 {
                        assert(s[j] == s.drop_first()[j - 1]);
                    }
                }
            },
            None => {
                assert forall|j: int| 0 <= j < s.len() implies s[j] != c by {
                    if j > 0 {
                        assert(s[j] == s.drop_first()[j - 1]);
                    }
                }
            },
        }
    }
}

/// Where `rfind_index` answers, the index lies within `s` and holds `c`, and
/// no later index holds `c`.
pub proof fn lemma_rfind_index(s: Seq<char>, c: char)
    ensures
        match rfind_index(s, c) {
            Some(k) => 0 <= k < s.len() && s[k] == c && forall|j: int| k < j < s.len() ==> s[j] != c,
            None => forall|j: int| 0 <= j < s.len() ==> s[j] != c,
        },
    decreases s.len(),
{
    if s.len() > 0 && s.last() != c {
        lemma_rfind_index(s.drop_last(), c);
        assert forall|j: int| 0 <= j < s.len() - 1 implies s[j] == s.drop_last()[j] by {}
    }
}

/// The last index of `c` in `v`.
pub fn rfind_in(v: &Vec<char>, c: char) -> (r: Option<usize>)
    ensures
        match rfind_index(v@, c) {
            Some(k) => r matches Some(x) && x == k,
            None => r is None,
        },
{
    let mut k: usize = v.len();
    assert(v@.take(v@.len() as int) == v@);
    while k > 0
        invariant
            k <= v@.len(),
            rfind_index(v@, c) == rfind_index(v@.take(k as int), c),
        decreases k,
    {
        assert(v@.take(k as int).drop_last() == v@.take(k - 1));
        assert(v@.take(k as int).last() == v@[k - 1]);
        if v[k - 1] == c {
            return Some(k - 1);
        }
        k = k - 1;
    }
    None
}

/// The first `c` of `a + b` is the first of `a`, or else the first of `b`.
pub proof fn lemma_find_index_concat(a: Seq<char>, b: Seq<char>, c: char)
    ensures
        find_index(a + b, c) == match find_index(a, c) {
            Some(k) => Some(k),
            None => match find_index(b, c) {
                Some(k) => Some(a.len() + k),
                None => None::<int>,
            },
        },
    decreases a.len(),
{
    if a.len() == 0 {
        assert(a + b == b);
    } else {
        assert((a + b).drop_first() == a.drop_first() + b);
        lemma_find_index_concat(a.drop_first(), b, c);
    }
}

/// A line without newlines, followed by a newline, after text that is empty
/// or ends with a newline, adds exactly that line.
pub proof fn lemma_lines_of_append_line(h: Seq<char>, x: Seq<char>)
    requires
        h.len() == 0 || h.last() == '\n',
        forall|i: int| 0 <= i < x.len() ==> x[i] != '\n',
    ensures
        lines_of(h + x + seq!['\n']) == lines_of(h) + seq![strip_cr(x)],
    decreases h.len(),
{
    let s = h + x + seq!['\n'];
    lemma_find_index(x, '\n');
    lemma_find_index_concat(x, seq!['\n'], '\n');
    assert(find_index(seq!['\n'], '\n') == Some(0int));
    if h.len() == 0 {
        assert(s == x + seq!['\n']);
        assert(find_index(s, '\n') == Some(x.len() as int));
        assert(s.take(x.len() as int) == x);
        assert(s.skip(x.len() as int + 1) == Seq::<char>::empty());
        assert(lines_of(s.skip(x.len() as int + 1)) == Seq::<Seq<char>>::empty());
        assert(lines_of(s) == seq![strip_cr(x)]);
        assert(lines_of(h) == Seq::<Seq<char>>::empty());
        assert(lines_of(h) + seq![strip_cr(x)] == seq![strip_cr(x)]);
    } else {
        lemma_find_index(h, '\n');
        assert(s == h + (x + seq!['\n']));
        lemma_find_index_concat(h, x + seq!['\n'], '\n');
        let p = find_index(h, '\n')->0;
        assert(find_index(s, '\n') == Some(p));
        assert(s.take(p) == h.take(p));
        let t = h.skip(p + 1);
        assert(s.skip(p + 1) == t + x + seq!['\n']);
        if t.len() > 0 {
            assert(t.last() == h.last());
        }
        lemma_lines_of_append_line(t, x);
        assert(lines_of(s) == seq![strip_cr(h.take(p))] + lines_of(t + x + seq!['\n']));
        assert(lines_of(h) == seq![strip_cr(h.take(p))] + lines_of(t));
        assert(seq![strip_cr(h.take(p))] + (lines_of(t) + seq![strip_cr(x)]) == (seq![
            strip_cr(h.take(p)),
        ] + lines_of(t)) + seq![strip_cr(x)]);
    }
}

/// The Unicode whitespace test of `char::is_whitespace`.
pub fn is_whitespace(c: char) -> (r: bool)
    ensures
        r == is_ws(c),
{
    let n = c as u32;
    n == 0x20 || (0x09 <= n && n <= 0x0D) || n == 0x85 || n == 0xA0 || n == 0x1680 || (0x2000
        <= n && n <= 0x200A) || n == 0x2028 || n == 0x2029 || n == 0x202F || n == 0x205F || n
        == 0x3000
}

/// The characters of `s`.
pub fn chars_of(s: &str) -> (r: Vec<char>)
    ensures
        r@ == s@,
{
    let n = s.unicode_len();
    let mut r: Vec<char> = Vec::new();
    let mut i: usize = 0;
    while i < n
        invariant
            n == s@.len(),
            i <= n,
            r@ == s@.take(i as int),
        decreases n - i,
    {
        let c = s.get_char(i);
        r.push(c);
        i = i + 1;
        assert(r@ == s@.take(i as int));
    }
    assert(s@.take(n as int) == s@);
    r
}

/// The characters of `s` from `from` up to `to`, as a new string.
pub fn slice(s: &str, from: usize, to: usize) -> (r: String)
    requires
        from <= to <= s@.len(),
    ensures
        r@ == s@.subrange(from as int, to as int),
{
    s.substring_char(from, to).to_owned()
}

/// The first index of `c` in `v` from `lo` up to `hi`.
pub fn find_in(v: &Vec<char>, lo: usize, hi: usize, c: char) -> (r: Option<usize>)
    requires
        lo <= hi <= v@.len(),
    ensures
        match find_index(v@.subrange(lo as int, hi as int), c) {
            Some(k) => r matches Some(x) && x == lo + k,
            None => r is None,
        },
        match r {
            Some(k) => lo <= k < hi && v@[k as int] == c,
            None => true,
        },
{
    let mut k: usize = lo;
    while k < hi
        invariant
            lo <= k <= hi <= v@.len(),
            forall|j: int| lo <= j < k ==> v@[j] != c,
        decreases hi - k,
    {
        if v[k] == c {
            proof {
                lemma_find_index(v@.subrange(lo as int, hi as int), c);
                let s = v@.subrange(lo as int, hi as int);
                assert(s[k - lo] == c);
                match find_index(s, c) {
                    Some(m) => {
                        if m < k - lo {
                            assert(v@[lo + m] == s[m]);
                        }
                    },
                    None => {},
                }
            }
            return Some(k);
        }
        k = k + 1;
    }
    proof {
        lemma_find_index(v@.subrange(lo as int, hi as int), c);
        let s = v@.subrange(lo as int, hi as int);
        match find_index(s, c) {
            Some(m) => {
                assert(v@[lo + m] == s[m]);
            },
            None => {},
        }
    }
    None
}

/// The first index from `lo` that holds no whitespace, before `hi`.
pub fn skip_ws_forward(v: &Vec<char>, lo: usize, hi: usize) -> (r: usize)
    requires
        lo <= hi <= v@.len(),
    ensures
        lo <= r <= hi,
        trim_start(v@.subrange(lo as int, hi as int)) == v@.subrange(r as int, hi as int),
{
    let mut a: usize = lo;
    while a < hi && is_whitespace(v[a])
        invariant
            lo <= a <= hi <= v@.len(),
            trim_start(v@.subrange(lo as int, hi as int)) == trim_start(
                v@.subrange(a as int, hi as int),
            ),
        decreases hi - a,
    {
        assert(v@.subrange(a as int, hi as int).drop_first() == v@.subrange(a + 1, hi as int));
        a = a + 1;
    }
    a
}

/// The end, after `lo`, of the range up to `hi` without trailing whitespace.
pub fn skip_ws_backward(v: &Vec<char>, lo: usize, hi: usize) -> (r: usize)
    requires
        lo <= hi <= v@.len(),
    ensures
        lo <= r <= hi,
        trim_end(v@.subrange(lo as int, hi as int)) == v@.subrange(lo as int, r as int),
{
    let mut b: usize = hi;
    while b > lo && is_whitespace(v[b - 1])
        invariant
            lo <= b <= hi <= v@.len(),
            trim_end(v@.subrange(lo as int, hi as int)) == trim_end(
                v@.subrange(lo as int, b as int),
            ),
        decreases b - lo,
    {
        assert(v@.subrange(lo as int, b as int).drop_last() == v@.subrange(lo as int, b - 1));
        b = b - 1;
    }
    b
}

/// Whether `v` holds `p` at `at`.
pub fn has_at(v: &Vec<char>, at: usize, hi: usize, p: &Vec<char>) -> (r: bool)
    requires
        at <= hi <= v@.len(),
    ensures
        r == starts_with(v@.subrange(at as int, hi as int), p@),
{
    if p.len() > hi - at {
        return false;
    }
    let mut i: usize = 0;
    while i < p.len()
        invariant
            p@.len() <= hi - at,
            at <= hi <= v@.len(),
            i <= p@.len(),
            forall|j: int| 0 <= j < i ==> v@[at + j] == p@[j],
        decreases p.len() - i,
    {
        if v[at + i] != p[i] {
            assert(v@.subrange(at as int, hi as int).take(p@.len() as int)[i as int] == v@[at + i]);
            return false;
        }
        i = i + 1;
    }
    assert(v@.subrange(at as int, hi as int).take(p@.len() as int) == p@);
    true
}

/// The lines of `s`, as `str::lines` yields them.
pub fn split_lines(s: &str) -> (r: Vec<String>)
    ensures
        views(r@) == lines_of(s@),
{
    let v = chars_of(s);
    let n = v.len();
    let mut r: Vec<String> = Vec::new();
    let mut pos: usize = 0;
    assert(s@.skip(0) == s@);
    assert(views(r@) == Seq::<Seq<char>>::empty());
    while pos < n
        invariant
            v@ == s@,
            n == v@.len(),
            pos <= n,
            lines_of(s@) == views(r@) + lines_of(s@.skip(pos as int)),
        decreases n - pos,
    {
        let rest = Ghost(s@.skip(pos as int));
        assert(v@.subrange(pos as int, n as int) == rest@);
        let found = find_in(&v, pos, n, '\n');
        proof {
            lemma_find_index(rest@, '\n');
        }
        let end = match found {
            Some(k) => k,
            None => n,
        };
        let mut stop = end;
        if end > pos && end < n && v[end - 1] == '\r' {
            stop = end - 1;
        }
        let line = slice(s, pos, stop);
        let ghost old_r = r@;
        r.push(line);
        proof {
            assert(views(r@) == views(old_r).push(line@));
            match found {
                Some(k) => {
                    let p = k - pos;
                    assert(rest@.take(p) == s@.subrange(pos as int, end as int));
                    assert(rest@.skip(p + 1) == s@.skip(k + 1));
                    if stop < end {
                        assert(strip_cr(rest@.take(p)) == s@.subrange(pos as int, stop as int));
                    }
                    assert(lines_of(rest@) == seq![strip_cr(rest@.take(p))] + lines_of(
                        rest@.skip(p + 1),
                    ));
                },
                None => {
                    assert(rest@ == s@.subrange(pos as int, n as int));
                    assert(s@.skip(n as int) == Seq::<char>::empty());
                },
            }
        }
        pos = match found {
            Some(k) => k + 1,
            None => n,
        };
    }
    assert(s@.skip(n as int) == Seq::<char>::empty());
    r
}

} // verus!
