use vstd::prelude::*;
use vstd::string::*;

verus! {

/// Whether `c` is an ASCII letter or digit.
pub open spec fn is_ascii_alnum(c: char) -> bool {
    ('0' as u32 <= c as u32 <= '9' as u32) || ('a' as u32 <= c as u32 <= 'z' as u32) || (
    'A' as u32 <= c as u32 <= 'Z' as u32)
}

/// Whether `c` has the Unicode `White_Space` property.
pub open spec fn is_whitespace(c: char) -> bool {
    let u = c as u32;
    ||| 0x9 <= u <= 0xD
    ||| u == 0x20
    ||| u == 0x85
    ||| u == 0xA0
    ||| u == 0x1680
    ||| 0x2000 <= u <= 0x200A
    ||| u == 0x2028
    ||| u == 0x2029
    ||| u == 0x202F
    ||| u == 0x205F
    ||| u == 0x3000
}

pub fn ascii_alnum(c: char) -> (r: bool)
    ensures
        r == is_ascii_alnum(c),
{
    let u = c as u32;
    (48 <= u && u <= 57) || (97 <= u && u <= 122) || (65 <= u && u <= 90)
}

pub fn whitespace(c: char) -> (r: bool)
    ensures
        r == is_whitespace(c),
{
    let u = c as u32;
    (0x9 <= u && u <= 0xD) || u == 0x20 || u == 0x85 || u == 0xA0 || u == 0x1680 || (0x2000 <= u
        && u <= 0x200A) || u == 0x2028 || u == 0x2029 || u == 0x202F || u == 0x205F || u == 0x3000
}

/// `s` with leading whitespace removed.
pub open spec fn trim_start(s: Seq<char>) -> Seq<char>
    decreases s.len(),
{
    if s.len() > 0 && is_whitespace(s[0]) {
        trim_start(s.drop_first())
    } else {
        s
    }
}

/// `s` with trailing whitespace removed.
pub open spec fn trim_end(s: Seq<char>) -> Seq<char>
    decreases s.len(),
{
    if s.len() > 0 && is_whitespace(s.last()) {
        trim_end(s.drop_last())
    } else {
        s
    }
}

/// `s` with leading and trailing whitespace removed.
pub open spec fn trim(s: Seq<char>) -> Seq<char> {
    trim_end(trim_start(s))
}

/// Whether every character of `s` is whitespace.
pub open spec fn all_whitespace(s: Seq<char>) -> bool {
    forall|i: int| 0 <= i < s.len() ==> is_whitespace(#[trigger] s[i])
}

proof fn lemma_trim_start_skip(s: Seq<char>, i: int)
    requires
        0 <= i <= s.len(),
        forall|j: int| 0 <= j < i ==> is_whitespace(#[trigger] s[j]),
    ensures
        trim_start(s) == trim_start(s.subrange(i, s.len() as int)),
    decreases i,
{
    if i == 0 {
        assert(s.subrange(0, s.len() as int) =~= s);
    } else {
        assert(is_whitespace(s[0]));
        let t = s.drop_first();
        assert forall|j: int| 0 <= j < i - 1 implies is_whitespace(#[trigger] t[j]) by {
            assert(t[j] == s[j + 1]);
        }
        lemma_trim_start_skip(t, i - 1);
        assert(t.subrange(i - 1, t.len() as int) =~= s.subrange(i, s.len() as int));
    }
}

proof fn lemma_trim_end_skip(s: Seq<char>, k: int)
    requires
        0 <= k <= s.len(),
        forall|j: int| k <= j < s.len() ==> is_whitespace(#[trigger] s[j]),
    ensures
        trim_end(s) == trim_end(s.subrange(0, k)),
    decreases s.len() - k,
{
    if k == s.len() {
        assert(s.subrange(0, k) =~= s);
    } else {
        assert(is_whitespace(s.last()));
        let t = s.drop_last();
        lemma_trim_end_skip(t, k);
        assert(t.subrange(0, k) =~= s.subrange(0, k));
    }
}

/// Copies `v[lo..hi]`.
pub fn slice_chars(v: &Vec<char>, lo: usize, hi: usize) -> (r: Vec<char>)
    requires
        lo <= hi <= v.len(),
    ensures
        r@ == v@.subrange(lo as int, hi as int),
{
    let mut r: Vec<char> = Vec::new();
    let mut i = lo;
    while i < hi
        invariant
            lo <= i <= hi <= v.len(),
            r@ == v@.subrange(lo as int, i as int),
        decreases hi - i,
    {
        r.push(v[i]);
        i = i + 1;
    }
    r
}

/// The characters of `s` with surrounding whitespace removed.
pub fn trim_chars(v: &Vec<char>) -> (r: Vec<char>)
    ensures
        r@ == trim(v@),
{
    let n = v.len();
    let mut lo: usize = 0;
    while lo < n && whitespace(v[lo])
        invariant
            lo <= n == v.len(),
            forall|j: int| 0 <= j < lo ==> is_whitespace(#[trigger] v@[j]),
        decreases n - lo,
    {
        lo = lo + 1;
    }
    proof {
        lemma_trim_start_skip(v@, lo as int);
    }
    let ghost rest = v@.subrange(lo as int, n as int);
    assert(trim_start(rest) == rest);
    let mut hi: usize = n;
    while hi > lo && whitespace(v[hi - 1])
        invariant
            lo <= hi <= n == v.len(),
            forall|j: int| hi <= j < n ==> is_whitespace(#[trigger] v@[j]),
        decreases hi,
    {
        hi = hi - 1;
    }
    proof {
        assert forall|j: int| (hi - lo) <= j < rest.len() implies is_whitespace(
            #[trigger] rest[j],
        ) by {
            assert(rest[j] == v@[lo + j]);
        }
        lemma_trim_end_skip(rest, hi - lo);
        assert(rest.subrange(0, hi - lo) =~= v@.subrange(lo as int, hi as int));
        let kept = v@.subrange(lo as int, hi as int);
        if kept.len() > 0 {
            assert(kept.last() == v@[hi - 1]);
        }
    }
    slice_chars(v, lo, hi)
}

/// The characters of `s`, in order.
pub fn chars_of(s: &str) -> (r: Vec<char>)
    ensures
        r@ == s@,
{
    let n = s.unicode_len();
    let mut r: Vec<char> = Vec::new();
    let mut i: usize = 0;
    while i < n
        invariant
            n == s@.len(),
            i <= n,
            r@ == s@.subrange(0, i as int),
        decreases n - i,
    {
        r.push(s.get_char(i));
        i = i + 1;
    }
    r
}

/// Appends `c` to `s` (std `String::push`).
#[verifier::external_body]
fn push_char(s: &mut String, c: char)
    ensures
        final(s)@ == old(s)@.push(c),
{
    s.push(c);
}

/// A `String` holding exactly the characters of `v`.
pub fn string_of(v: &Vec<char>) -> (r: String)
    ensures
        r@ == v@,
{
    let mut r = String::new();
    let mut i: usize = 0;
    while i < v.len()
        invariant
            i <= v.len(),
            r@ == v@.subrange(0, i as int),
        decreases v.len() - i,
    {
        push_char(&mut r, v[i]);
        i = i + 1;
    }
    r
}

/// `s` with surrounding whitespace removed (std `str::trim`).
pub fn trim_str(s: &str) -> (r: String)
    ensures
        r@ == trim(s@),
{
    string_of(&trim_chars(&chars_of(s)))
}


/// How a list of fields is delimited.
#[derive(Clone, Copy, Debug, PartialEq, Eq)]
pub enum Separator {
    /// A single character.
    Char(char),
    /// A comma or any whitespace character.
    CommaOrWhitespace,
}

pub open spec fn is_separator(sep: Separator, c: char) -> bool {
    match sep {
        Separator::Char(d) => c == d,
        Separator::CommaOrWhitespace => c == ',' || is_whitespace(c),
    }
}

fn separator_matches(sep: Separator, c: char) -> (r: bool)
    ensures
        r == is_separator(sep, c),
{
    match sep {
        Separator::Char(d) => c == d,
        Separator::CommaOrWhitespace => c == ',' || whitespace(c),
    }
}

/// Index of the first character of `s` that satisfies `p`, or `s.len()` when there is none.
pub open spec fn first_index(s: Seq<char>, p: spec_fn(char) -> bool) -> int
    decreases s.len(),
{
    if s.len() == 0 {
        0
    } else if p(s[0]) {
        0
    } else {
        1 + first_index(s.drop_first(), p)
    }
}

pub proof fn lemma_first_index(s: Seq<char>, p: spec_fn(char) -> bool)
    ensures
        0 <= first_index(s, p) <= s.len(),
        forall|j: int| 0 <= j < first_index(s, p) ==> !p(#[trigger] s[j]),
        first_index(s, p) < s.len() ==> p(s[first_index(s, p)]),
    decreases s.len(),
{
    if s.len() > 0 && !p(s[0]) {
        lemma_first_index(s.drop_first(), p);
        assert forall|j: int| 0 <= j < first_index(s, p) implies !p(#[trigger] s[j]) by {
            if j > 0 {
                assert(s[j] == s.drop_first()[j - 1]);
            }
        }
    }
}

pub proof fn lemma_first_index_at(s: Seq<char>, p: spec_fn(char) -> bool, k: int)
    requires
        0 <= k <= s.len(),
        forall|j: int| 0 <= j < k ==> !p(#[trigger] s[j]),
        k < s.len() ==> p(s[k]),
    ensures
        first_index(s, p) == k,
{
    lemma_first_index(s, p);
    if first_index(s, p) < k {
        assert(p(s[first_index(s, p)]));
    }
    if first_index(s, p) > k {
        assert(!p(s[k]));
    }
}

/// The pieces of `s` between separators, as `str::split` yields them.
pub open spec fn split_by(s: Seq<char>, sep: Separator) -> Seq<Seq<char>>
    decreases s.len(),
{
    let k = first_index(s, |c: char| is_separator(sep, c));
    if k >= s.len() {
        seq![s]
    } else {
        if k < 0 {
            seq![]
        } else {
            seq![s.subrange(0, k)] + split_by(s.subrange(k + 1, s.len() as int), sep)
        }
    }
}

/// Splitting at a character the join of `a` and `b` around that character gives the pieces
/// of `a` followed by the pieces of `b`.
pub proof fn lemma_split_join(a: Seq<char>, b: Seq<char>, d: char)
    ensures
        split_by(a + seq![d] + b, Separator::Char(d)) == split_by(a, Separator::Char(d)) + split_by(
            b,
            Separator::Char(d),
        ),
    decreases a.len(),
{
    let sep = Separator::Char(d);
    let p = |c: char| is_separator(sep, c);
    let s = a + seq![d] + b;
    lemma_first_index(a, p);
    let k = first_index(a, p);
    assert forall|j: int| 0 <= j < k implies !p(#[trigger] s[j]) by {
        assert(s[j] == a[j]);
    }
    if k < a.len() {
        assert(s[k] == a[k]);
        lemma_first_index_at(s, p, k);
        let rest = a.subrange(k + 1, a.len() as int);
        assert(s.subrange(k + 1, s.len() as int) =~= rest + seq![d] + b);
        assert(s.subrange(0, k) =~= a.subrange(0, k));
        lemma_split_join(rest, b, d);
        assert(split_by(s, sep) =~= seq![a.subrange(0, k)] + (split_by(rest, sep) + split_by(b, sep)));
    } else {
        assert(s[a.len() as int] == d);
        lemma_first_index_at(s, p, a.len() as int);
        assert(s.subrange(a.len() as int + 1, s.len() as int) =~= b);
        assert(s.subrange(0, a.len() as int) =~= a);
        assert(split_by(a, sep) == seq![a]);
    }
}

/// The views of a sequence of character vectors.
pub open spec fn char_views(v: Seq<Vec<char>>) -> Seq<Seq<char>> {
    v.map_values(|x: Vec<char>| x@)
}

/// Splits `v` at every separator (std `str::split`).
pub fn split_chars(v: &Vec<char>, sep: Separator) -> (r: Vec<Vec<char>>)
    ensures
        char_views(r@) == split_by(v@, sep),
{
    let ghost p = |c: char| is_separator(sep, c);
    let n = v.len();
    let mut out: Vec<Vec<char>> = Vec::new();
    let mut start: usize = 0;
    let mut i: usize = 0;
    proof {
        assert(v@.subrange(0, n as int) =~= v@);
        assert(char_views(out@) + split_by(v@, sep) =~= split_by(v@, sep));
    }
    while i < n
        invariant
            n == v.len(),
            start <= i <= n,
            p == (|c: char| is_separator(sep, c)),
            forall|j: int| start <= j < i ==> !is_separator(sep, #[trigger] v@[j]),
            split_by(v@, sep) == char_views(out@) + split_by(v@.subrange(start as int, n as int), sep),
        decreases n - i,
    {
        if separator_matches(sep, v[i]) {
            let piece = slice_chars(v, start, i);
            let ghost rest = v@.subrange(start as int, n as int);
            proof {
                assert forall|j: int| 0 <= j < i - start implies !p(#[trigger] rest[j]) by {
                    assert(rest[j] == v@[start + j]);
                }
                assert(rest[i - start] == v@[i as int]);
                lemma_first_index_at(rest, p, i - start);
                assert(rest.subrange(0, i - start) =~= piece@);
                assert(rest.subrange(i - start + 1, rest.len() as int) =~= v@.subrange(
                    i + 1,
                    n as int,
                ));
                assert(char_views(out@.push(piece)) =~= char_views(out@).push(piece@));
            }
            out.push(piece);
            start = i + 1;
        }
        i = i + 1;
    }
    let piece = slice_chars(v, start, n);
    proof {
        let rest = v@.subrange(start as int, n as int);
        assert forall|j: int| 0 <= j < rest.len() implies !p(#[trigger] rest[j]) by {
            assert(rest[j] == v@[start + j]);
        }
        lemma_first_index_at(rest, p, rest.len() as int);
        assert(char_views(out@.push(piece)) =~= char_views(out@).push(piece@));
        assert(char_views(out@) + seq![rest] =~= char_views(out@).push(piece@));
    }
    out.push(piece);
    out
}


/// The predicate that holds of `c` alone.
pub open spec fn char_eq(c: char) -> spec_fn(char) -> bool {
    |x: char| x == c
}

/// At most `n` pieces of `s` split at `c`, the last holding the remainder (std `str::splitn`).
pub open spec fn splitn_at(s: Seq<char>, n: nat, c: char) -> Seq<Seq<char>>
    decreases n,
{
    if n == 0 {
        seq![]
    } else if n == 1 {
        seq![s]
    } else {
        let k = first_index(s, char_eq(c));
        if k >= s.len() || k < 0 {
            seq![s]
        } else {
            seq![s.subrange(0, k)] + splitn_at(s.subrange(k + 1, s.len() as int), (n - 1) as nat, c)
        }
    }
}

/// Index of the first `c` in `v` at or after `from`, or `v.len()` when there is none.
fn find_char_from(v: &Vec<char>, from: usize, c: char) -> (r: usize)
    requires
        from <= v.len(),
    ensures
        from <= r <= v.len(),
        r - from == first_index(v@.subrange(from as int, v.len() as int), char_eq(c)),
{
    let ghost rest = v@.subrange(from as int, v.len() as int);
    let mut i = from;
    while i < v.len() && v[i] != c
        invariant
            from <= i <= v.len(),
            forall|j: int| from <= j < i ==> v@[j] != c,
        decreases v.len() - i,
    {
        i = i + 1;
    }
    proof {
        let p = char_eq(c);
        assert forall|j: int| 0 <= j < i - from implies !p(#[trigger] rest[j]) by {
            assert(rest[j] == v@[from + j]);
        }
        if i < v.len() {
            assert(rest[i - from] == v@[i as int]);
        }
        lemma_first_index_at(rest, p, i - from);
    }
    i
}

/// Splits `v` at `c` into at most `n` pieces (std `str::splitn`).
pub fn splitn_chars(v: &Vec<char>, n: usize, c: char) -> (r: Vec<Vec<char>>)
    ensures
        char_views(r@) == splitn_at(v@, n as nat, c),
{
    let mut out: Vec<Vec<char>> = Vec::new();
    if n == 0 {
        assert(char_views(out@) =~= Seq::<Seq<char>>::empty());
        return out;
    }
    let len = v.len();
    let mut start: usize = 0;
    let mut left: usize = n;
    proof {
        assert(v@.subrange(0, len as int) =~= v@);
        assert(char_views(out@) + splitn_at(v@, n as nat, c) =~= splitn_at(v@, n as nat, c));
    }
    loop
        invariant
            len == v.len(),
            start <= len,
            1 <= left <= n,
            splitn_at(v@, n as nat, c) == char_views(out@) + splitn_at(
                v@.subrange(start as int, len as int),
                left as nat,
                c,
            ),
        decreases left,
    {
        let ghost rest = v@.subrange(start as int, len as int);
        if left == 1 {
            let piece = slice_chars(v, start, len);
            proof {
                assert(char_views(out@.push(piece)) =~= char_views(out@).push(piece@));
                assert(char_views(out@) + seq![rest] =~= char_views(out@).push(piece@));
            }
            out.push(piece);
            return out;
        }
        let k = find_char_from(v, start, c);
        if k == len {
            let piece = slice_chars(v, start, len);
            proof {
                assert(char_views(out@.push(piece)) =~= char_views(out@).push(piece@));
                assert(char_views(out@) + seq![rest] =~= char_views(out@).push(piece@));
            }
            out.push(piece);
            return out;
        }
        let piece = slice_chars(v, start, k);
        proof {
            assert(rest.subrange(0, k - start) =~= piece@);
            assert(rest.subrange(k - start + 1, rest.len() as int) =~= v@.subrange(
                k + 1,
                len as int,
            ));
            assert(char_views(out@.push(piece)) =~= char_views(out@).push(piece@));
        }
        out.push(piece);
        start = k + 1;
        left = left - 1;
    }
}

/// `t` without one trailing carriage return.
pub open spec fn strip_cr(t: Seq<char>) -> Seq<char> {
    if t.len() > 0 && t.last() == '\r' {
        t.drop_last()
    } else {
        t
    }
}

/// The lines of `s` as `str::lines` yields them: split at `\n`, a `\r` before the `\n`
/// dropped, and no empty line after a final `\n`.
pub open spec fn lines_of(s: Seq<char>) -> Seq<Seq<char>>
    decreases s.len(),
{
    if s.len() == 0 {
        seq![]
    } else {
        let k = first_index(s, char_eq('\n'));
        if k >= s.len() || k < 0 {
            seq![s]
        } else {
            seq![strip_cr(s.subrange(0, k))] + lines_of(s.subrange(k + 1, s.len() as int))
        }
    }
}

/// Splits `v` into lines (std `str::lines`).
pub fn lines_chars(v: &Vec<char>) -> (r: Vec<Vec<char>>)
    ensures
        char_views(r@) == lines_of(v@),
{
    let mut out: Vec<Vec<char>> = Vec::new();
    let len = v.len();
    let mut start: usize = 0;
    proof {
        assert(v@.subrange(0, len as int) =~= v@);
        assert(char_views(out@) + lines_of(v@) =~= lines_of(v@));
    }
    while start < len
        invariant
            len == v.len(),
            start <= len,
            lines_of(v@) == char_views(out@) + lines_of(v@.subrange(start as int, len as int)),
        decreases len - start,
    {
        let ghost rest = v@.subrange(start as int, len as int);
        let k = find_char_from(v, start, '\n');
        if k == len {
            let piece = slice_chars(v, start, len);
            proof {
                assert(char_views(out@.push(piece)) =~= char_views(out@).push(piece@));
                assert(char_views(out@) + seq![rest] =~= char_views(out@).push(piece@));
                assert(v@.subrange(len as int, len as int).len() == 0);
                assert(lines_of(v@.subrange(len as int, len as int)) =~= Seq::<Seq<char>>::empty());
                assert(char_views(out@.push(piece)) + lines_of(v@.subrange(len as int, len as int))
                    =~= char_views(out@.push(piece)));
            }
            out.push(piece);
            start = len;
        } else {
            let end = if k > start && v[k - 1] == '\r' {
                k - 1
            } else {
                k
            };
            let piece = slice_chars(v, start, end);
            proof {
                assert(strip_cr(rest.subrange(0, k - start)) =~= piece@);
                assert(rest.subrange(k - start + 1, rest.len() as int) =~= v@.subrange(
                    k + 1,
                    len as int,
                ));
                assert(char_views(out@.push(piece)) =~= char_views(out@).push(piece@));
            }
            out.push(piece);
            start = k + 1;
        }
    }
    proof {
        assert(v@.subrange(start as int, len as int).len() == 0);
        assert(lines_of(v@.subrange(start as int, len as int)) =~= Seq::<Seq<char>>::empty());
        assert(char_views(out@) + Seq::<Seq<char>>::empty() =~= char_views(out@));
    }
    out
}

/// Whether `s` begins with `p`.
pub open spec fn has_prefix(s: Seq<char>, p: Seq<char>) -> bool {
    p.len() <= s.len() && s.subrange(0, p.len() as int) == p
}

/// Whether `v` begins with `p` (std `str::starts_with`).
pub fn starts_with_chars(v: &Vec<char>, p: &Vec<char>) -> (r: bool)
    ensures
        r == has_prefix(v@, p@),
{
    if p.len() > v.len() {
        return false;
    }
    let mut i: usize = 0;
    while i < p.len()
        invariant
            p.len() <= v.len(),
            i <= p.len(),
            forall|j: int| 0 <= j < i ==> v@[j] == p@[j],
        decreases p.len() - i,
    {
        if v[i] != p[i] {
            assert(v@.subrange(0, p.len() as int)[i as int] != p@[i as int]);
            return false;
        }
        i = i + 1;
    }
    assert(v@.subrange(0, p.len() as int) =~= p@);
    true
}


/// Index of the last character of `s` that satisfies `p`, or `-1` when there is none.
pub open spec fn last_index(s: Seq<char>, p: spec_fn(char) -> bool) -> int
    decreases s.len(),
{
    if s.len() == 0 {
        -1
    } else if p(s.last()) {
        s.len() - 1
    } else {
        last_index(s.drop_last(), p)
    }
}

pub proof fn lemma_last_index(s: Seq<char>, p: spec_fn(char) -> bool)
    ensures
        -1 <= last_index(s, p) < s.len(),
        forall|j: int| last_index(s, p) < j < s.len() ==> !p(#[trigger] s[j]),
        last_index(s, p) >= 0 ==> p(s[last_index(s, p)]),
    decreases s.len(),
{
    if s.len() > 0 && !p(s.last()) {
        lemma_last_index(s.drop_last(), p);
        assert forall|j: int| last_index(s, p) < j < s.len() implies !p(#[trigger] s[j]) by {
            if j < s.len() - 1 {
                assert(s[j] == s.drop_last()[j]);
            }
        }
    }
}

pub proof fn lemma_last_index_at(s: Seq<char>, p: spec_fn(char) -> bool, k: int)
    requires
        -1 <= k < s.len(),
        forall|j: int| k < j < s.len() ==> !p(#[trigger] s[j]),
        k >= 0 ==> p(s[k]),
    ensures
        last_index(s, p) == k,
{
    lemma_last_index(s, p);
    if last_index(s, p) > k {
        assert(p(s[last_index(s, p)]));
    }
    if last_index(s, p) < k {
        assert(!p(s[k]));
    }
}

/// `s` split at its last `c` (std `str::rsplit_once`).
pub open spec fn rsplit_once_at(s: Seq<char>, c: char) -> Option<(Seq<char>, Seq<char>)> {
    let k = last_index(s, char_eq(c));
    if k < 0 {
        None
    } else {
        Some((s.subrange(0, k), s.subrange(k + 1, s.len() as int)))
    }
}

/// Splits `v` at its last `c` (std `str::rsplit_once`).
pub fn rsplit_once_chars(v: &Vec<char>, c: char) -> (r: Option<(Vec<char>, Vec<char>)>)
    ensures
        match r {
            Some((a, b)) => rsplit_once_at(v@, c) == Some((a@, b@)),
            None => rsplit_once_at(v@, c) is None,
        },
{
    let mut i = v.len();
    while i > 0 && v[i - 1] != c
        invariant
            i <= v.len(),
            forall|j: int| i <= j < v.len() ==> v@[j] != c,
        decreases i,
    {
        i = i - 1;
    }
    proof {
        lemma_last_index_at(v@, char_eq(c), i - 1);
    }
    if i == 0 {
        None
    } else {
        Some((slice_chars(v, 0, i - 1), slice_chars(v, i, v.len())))
    }
}

/// Whether `c` occurs in `s`.
pub open spec fn contains_char(s: Seq<char>, c: char) -> bool {
    exists|i: int| 0 <= i < s.len() && s[i] == c
}

/// Index of the first `a` immediately followed by `b` in `s`, or `s.len()` when there is none.
pub open spec fn find_pair(s: Seq<char>, a: char, b: char) -> int
    decreases s.len(),
{
    if s.len() < 2 {
        s.len() as int
    } else if s[0] == a && s[1] == b {
        0
    } else {
        1 + find_pair(s.drop_first(), a, b)
    }
}

pub proof fn lemma_find_pair_at(s: Seq<char>, a: char, b: char, k: int)
    requires
        0 <= k <= s.len(),
        forall|j: int| 0 <= j < k && j + 1 < s.len() ==> !(s[j] == a && #[trigger] s[j + 1] == b),
        k < s.len() ==> k + 1 < s.len() && s[k] == a && s[k + 1] == b,
        k == s.len() ==> forall|j: int| 0 <= j && j + 1 < s.len() ==> !(s[j] == a && #[trigger] s[j + 1] == b),
    ensures
        find_pair(s, a, b) == k,
    decreases s.len(),
{
    if s.len() < 2 {
    } else if s[0] == a && s[1] == b {
        if k > 0 {
            assert(!(s[0int] == a && s[0int + 1] == b));
        }
    } else {
        let t = s.drop_first();
        if k == 0 {
            assert(false);
        }
        assert forall|j: int| 0 <= j < k - 1 && j + 1 < t.len() implies !(t[j] == a && #[trigger] t[j + 1] == b) by {
            assert(t[j] == s[j + 1] && t[j + 1] == s[(j + 1) + 1]);
        }
        if k == s.len() {
            assert forall|j: int| 0 <= j && j + 1 < t.len() implies !(t[j] == a && #[trigger] t[j + 1] == b) by {
                assert(t[j] == s[j + 1] && t[j + 1] == s[(j + 1) + 1]);
            }
        } else {
            assert(t[k - 1] == s[k] && t[k] == s[k + 1]);
        }
        lemma_find_pair_at(t, a, b, k - 1);
    }
}

/// Index of the first `a` followed by `b` in `v` (std `str::find` on a two-character pattern).
pub fn find_pair_chars(v: &Vec<char>, a: char, b: char) -> (r: usize)
    ensures
        r as int == find_pair(v@, a, b),
        r <= v.len(),
{
    let n = v.len();
    if n < 2 {
        proof {
            lemma_find_pair_at(v@, a, b, n as int);
        }
        return n;
    }
    let mut i: usize = 0;
    while i + 1 < n
        invariant
            n == v.len(),
            n >= 2,
            i + 1 <= n,
            forall|j: int| 0 <= j < i && j + 1 < n ==> !(v@[j] == a && #[trigger] v@[j + 1] == b),
        decreases n - i,
    {
        if v[i] == a && v[i + 1] == b {
            proof {
                lemma_find_pair_at(v@, a, b, i as int);
            }
            return i;
        }
        i = i + 1;
    }
    proof {
        lemma_find_pair_at(v@, a, b, n as int);
    }
    n
}

/// Whether `c` is an ASCII decimal digit.
pub open spec fn is_digit(c: char) -> bool {
    '0' as u32 <= c as u32 <= '9' as u32
}

/// The value of the ASCII digit `c`.
pub open spec fn digit_value(c: char) -> nat {
    (c as u32 - '0' as u32) as nat
}

/// The value of a string of decimal digits.
pub open spec fn decimal_value(s: Seq<char>) -> nat
    decreases s.len(),
{
    if s.len() == 0 {
        0
    } else {
        decimal_value(s.drop_last()) * 10 + digit_value(s.last())
    }
}

/// `s` without one leading `+`.
pub open spec fn unsigned_digits(s: Seq<char>) -> Seq<char> {
    if s.len() > 0 && s[0] == '+' {
        s.drop_first()
    } else {
        s
    }
}

/// Whether every character of `d` is an ASCII digit.
pub open spec fn all_digits(d: Seq<char>) -> bool {
    forall|i: int| 0 <= i < d.len() ==> is_digit(#[trigger] d[i])
}

/// What `str::parse::<u16>` gives: an optional `+`, then one or more ASCII digits whose
/// value is at most `u16::MAX`.
pub open spec fn parse_u16_spec(s: Seq<char>) -> Option<u16> {
    let d = unsigned_digits(s);
    if d.len() == 0 || !all_digits(d) || decimal_value(d) > u16::MAX {
        None
    } else {
        Some(decimal_value(d) as u16)
    }
}

/// Parses a port number (std `str::parse::<u16>`).
pub fn parse_u16_chars(v: &Vec<char>) -> (r: Option<u16>)
    ensures
        r == parse_u16_spec(v@),
{
    let n = v.len();
    let start: usize = if n > 0 && v[0] == '+' {
        1
    } else {
        0
    };
    let ghost d = unsigned_digits(v@);
    assert(d =~= v@.subrange(start as int, n as int));
    if start == n {
        return None;
    }
    let mut value: u32 = 0;
    let mut overflow = false;
    let mut i = start;
    assert(d.subrange(0, 0) =~= Seq::<char>::empty());
    while i < n
        invariant
            start < n == v.len(),
            start <= i <= n,
            d == v@.subrange(start as int, n as int),
            d == unsigned_digits(v@),
            forall|j: int| 0 <= j < i - start ==> is_digit(#[trigger] d[j]),
            !overflow ==> value as nat == decimal_value(d.subrange(0, i - start)) && value
                <= 65535,
            overflow ==> decimal_value(d.subrange(0, i - start)) > 65535,
        decreases n - i,
    {
        let ch = v[i];
        let u = ch as u32;
        if u < 48 || u > 57 {
            assert(!is_digit(d[i - start]));
            assert(!all_digits(d));
            return None;
        }
        proof {
            let prev = d.subrange(0, i - start);
            let next = d.subrange(0, i - start + 1);
            assert(next.drop_last() =~= prev);
            assert(next.last() == ch);
        }
        if !overflow {
            value = value * 10 + (u - 48);
            if value > 65535 {
                overflow = true;
            }
        }
        i = i + 1;
    }
    assert(d.subrange(0, n - start) =~= d);
    if overflow {
        None
    } else {
        Some(value as u16)
    }
}

/// The decimal digit character for `d < 10`.
pub open spec fn digit_char(d: nat) -> char {
    if d == 0 {
        '0'
    } else if d == 1 {
        '1'
    } else if d == 2 {
        '2'
    } else if d == 3 {
        '3'
    } else if d == 4 {
        '4'
    } else if d == 5 {
        '5'
    } else if d == 6 {
        '6'
    } else if d == 7 {
        '7'
    } else if d == 8 {
        '8'
    } else {
        '9'
    }
}

/// The decimal representation of `n`, without leading zeros.
pub open spec fn decimal(n: nat) -> Seq<char>
    decreases n,
{
    if n < 10 {
        seq![digit_char(n)]
    } else {
        decimal(n / 10).push(digit_char(n % 10))
    }
}

fn digit_char_exec(d: u64) -> (c: char)
    requires
        d < 10,
    ensures
        c == digit_char(d as nat),
{
    if d == 0 {
        '0'
    } else if d == 1 {
        '1'
    } else if d == 2 {
        '2'
    } else if d == 3 {
        '3'
    } else if d == 4 {
        '4'
    } else if d == 5 {
        '5'
    } else if d == 6 {
        '6'
    } else if d == 7 {
        '7'
    } else if d == 8 {
        '8'
    } else {
        '9'
    }
}

/// The decimal digits of `n` (std `u64::to_string`).
pub fn decimal_chars(n: u64) -> (r: Vec<char>)
    ensures
        r@ == decimal(n as nat),
    decreases n,
{
    if n < 10 {
        let mut v: Vec<char> = Vec::new();
        v.push(digit_char_exec(n));
        assert(v@ =~= seq![digit_char(n as nat)]);
        v
    } else {
        let mut v = decimal_chars(n / 10);
        v.push(digit_char_exec(n % 10));
        v
    }
}

/// The decimal representation of `n` as a string.
pub fn decimal_string(n: u64) -> (r: String)
    ensures
        r@ == decimal(n as nat),
{
    string_of(&decimal_chars(n))
}


/// The views of a sequence of strings.
pub open spec fn string_views(v: Seq<String>) -> Seq<Seq<char>> {
    v.map_values(|x: String| x@)
}

/// `list` joined with `sep` between neighbours (std `join`).
pub open spec fn join_with(list: Seq<Seq<char>>, sep: Seq<char>) -> Seq<char>
    decreases list.len(),
{
    if list.len() == 0 {
        seq![]
    } else if list.len() == 1 {
        list[0]
    } else {
        join_with(list.drop_last(), sep) + sep + list.last()
    }
}

/// Joins `list` with `sep` between neighbours (std `[String]::join`).
pub fn join_strings(list: &Vec<String>, sep: &str) -> (r: String)
    ensures
        r@ == join_with(string_views(list@), sep@),
{
    let mut r = String::new();
    let mut i: usize = 0;
    while i < list.len()
        invariant
            i <= list.len(),
            r@ == join_with(string_views(list@.subrange(0, i as int)), sep@),
        decreases list.len() - i,
    {
        proof {
            let pre = string_views(list@.subrange(0, i as int));
            let post = string_views(list@.subrange(0, i + 1));
            assert(post.drop_last() =~= pre);
            assert(post.last() == list@[i as int]@);
            if i == 0 {
                assert(pre.len() == 0);
                assert(post =~= seq![list@[0]@]);
            }
        }
        if i > 0 {
            r.append(sep);
        }
        r.append(list[i].as_str());
        i = i + 1;
    }
    assert(list@.subrange(0, list.len() as int) =~= list@);
    r
}

/// The decimal representation of an integer, with a leading `-` when negative.
pub open spec fn signed_decimal(i: int) -> Seq<char> {
    if i < 0 {
        seq!['-'] + decimal((-i) as nat)
    } else {
        decimal(i as nat)
    }
}

/// The decimal representation of `i` (std `i32::to_string`).
pub fn signed_decimal_string(i: i32) -> (r: String)
    ensures
        r@ == signed_decimal(i as int),
{
    if i < 0 {
        let magnitude: u64 = (0i64 - (i as i64)) as u64;
        let mut r = String::new();
        push_char(&mut r, '-');
        let digits = decimal_string(magnitude);
        r.append(digits.as_str());
        assert(r@ =~= seq!['-'] + decimal((-i) as nat));
        r
    } else {
        decimal_string(i as u64)
    }
}

} // verus!
