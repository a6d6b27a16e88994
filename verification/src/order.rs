use crate::text::chars_of;
use vstd::prelude::*;
use vstd::string::*;

verus! {

/// Lexicographic order on character sequences by code point, which is the order of `str`'s
/// `Ord` (UTF-8 byte order agrees with code point order).
pub open spec fn seq_le(a: Seq<char>, b: Seq<char>) -> bool
    decreases a.len(),
{
    if a.len() == 0 {
        true
    } else if b.len() == 0 {
        false
    } else if (a[0] as u32) < (b[0] as u32) {
        true
    } else if (a[0] as u32) > (b[0] as u32) {
        false
    } else {
        seq_le(a.drop_first(), b.drop_first())
    }
}

pub proof fn lemma_seq_le_total(a: Seq<char>, b: Seq<char>)
    ensures
        seq_le(a, b) || seq_le(b, a),
    decreases a.len(),
{
    if a.len() > 0 && b.len() > 0 && a[0] as u32 == b[0] as u32 {
        lemma_seq_le_total(a.drop_first(), b.drop_first());
    }
}

pub proof fn lemma_seq_le_trans(a: Seq<char>, b: Seq<char>, c: Seq<char>)
    requires
        seq_le(a, b),
        seq_le(b, c),
    ensures
        seq_le(a, c),
    decreases a.len(),
{
    if a.len() > 0 && b.len() > 0 && c.len() > 0 && a[0] as u32 == b[0] as u32 && b[0] as u32
        == c[0] as u32 {
        lemma_seq_le_trans(a.drop_first(), b.drop_first(), c.drop_first());
    }
}

/// Whether `a` comes no later than `b` (std `str` ordering `<=`).
pub fn chars_le(a: &Vec<char>, b: &Vec<char>) -> (r: bool)
    ensures
        r == seq_le(a@, b@),
{
    let mut i: usize = 0;
    assert(a@.subrange(0, a.len() as int) =~= a@);
    assert(b@.subrange(0, b.len() as int) =~= b@);
    while i < a.len() && i < b.len() && a[i] == b[i]
        invariant
            i <= a.len(),
            i <= b.len(),
            seq_le(a@, b@) == seq_le(
                a@.subrange(i as int, a.len() as int),
                b@.subrange(i as int, b.len() as int),
            ),
        decreases a.len() - i,
    {
        proof {
            let x = a@.subrange(i as int, a.len() as int);
            let y = b@.subrange(i as int, b.len() as int);
            assert(x.drop_first() =~= a@.subrange(i + 1, a.len() as int));
            assert(y.drop_first() =~= b@.subrange(i + 1, b.len() as int));
            assert(x[0] == a@[i as int]);
            assert(y[0] == b@[i as int]);
        }
        i = i + 1;
    }
    proof {
        let x = a@.subrange(i as int, a.len() as int);
        let y = b@.subrange(i as int, b.len() as int);
        if x.len() > 0 {
            assert(x[0] == a@[i as int]);
        }
        if y.len() > 0 {
            assert(y[0] == b@[i as int]);
        }
        if x.len() > 0 && y.len() > 0 && x[0] as u32 == y[0] as u32 {
            vstd::utf8::char_u32_cast(x[0], x[0] as u32);
            vstd::utf8::char_u32_cast(y[0], y[0] as u32);
        }
    }
    if i == a.len() {
        true
    } else if i == b.len() {
        false
    } else {
        (a[i] as u32) < (b[i] as u32)
    }
}

/// Something with a name to be sorted by.
pub trait Named {
    spec fn key(&self) -> Seq<char>;

    fn key_chars(&self) -> (r: Vec<char>)
        ensures
            r@ == self.key(),
    ;
}

impl Named for String {
    open spec fn key(&self) -> Seq<char> {
        self@
    }

    fn key_chars(&self) -> (r: Vec<char>) {
        chars_of(self.as_str())
    }
}

/// Whether `s` is in order by name.
pub open spec fn sorted_by_key<T: Named>(s: Seq<T>) -> bool {
    forall|i: int, j: int| 0 <= i < j < s.len() ==> seq_le(#[trigger] s[i].key(), #[trigger] s[j].key())
}

/// Whether `p` lists every index below `n` exactly once.
pub open spec fn is_permutation(p: Seq<int>, n: int) -> bool {
    &&& p.len() == n
    &&& forall|k: int| 0 <= k < n ==> 0 <= #[trigger] p[k] < n
    &&& forall|k: int, l: int| 0 <= k < l < n ==> #[trigger] p[k] != #[trigger] p[l]
}

/// Whether `p` takes `s` to `r`: `r[k]` is `s[p[k]]`.
pub open spec fn permutes<T>(p: Seq<int>, r: Seq<T>, s: Seq<T>) -> bool {
    is_permutation(p, s.len() as int) && r.len() == s.len() && forall|k: int|
        0 <= k < r.len() ==> #[trigger] r[k] == s[p[k]]
}

/// Whether `r` holds the elements of `s` rearranged.
pub open spec fn rearranges<T>(r: Seq<T>, s: Seq<T>) -> bool {
    exists|p: Seq<int>| permutes(p, r, s)
}

/// Where `x` goes in `s`: before the first element whose name comes after its own.
pub open spec fn insert_pos<T: Named>(s: Seq<T>, x: T) -> int
    decreases s.len(),
{
    if s.len() == 0 {
        0
    } else if !seq_le(s[0].key(), x.key()) {
        0
    } else {
        1 + insert_pos(s.drop_first(), x)
    }
}

/// `s` sorted by name by insertion, elements with equal names in the order they had.
pub open spec fn insertion_sorted<T: Named>(s: Seq<T>) -> Seq<T>
    decreases s.len(),
{
    if s.len() == 0 {
        s
    } else {
        let r = insertion_sorted(s.drop_last());
        r.insert(insert_pos(r, s.last()), s.last())
    }
}

proof fn lemma_insert_pos_at<T: Named>(s: Seq<T>, x: T, k: int)
    requires
        0 <= k <= s.len(),
        forall|j: int| 0 <= j < k ==> seq_le(#[trigger] s[j].key(), x.key()),
        k < s.len() ==> !seq_le(s[k].key(), x.key()),
    ensures
        insert_pos(s, x) == k,
    decreases s.len(),
{
    if s.len() > 0 && k > 0 {
        let t = s.drop_first();
        assert(seq_le(s[0].key(), x.key()));
        assert forall|j: int| 0 <= j < k - 1 implies seq_le(#[trigger] t[j].key(), x.key()) by {
            assert(t[j] == s[j + 1]);
        }
        if k < s.len() {
            assert(t[k - 1] == s[k]);
        }
        lemma_insert_pos_at(t, x, k - 1);
    }
}

/// Where `x` goes in `s` when elements are named by `key`: before the first element whose
/// name comes after its own.
pub open spec fn insert_pos_by<A>(s: Seq<A>, x: A, key: spec_fn(A) -> Seq<char>) -> int
    decreases s.len(),
{
    if s.len() == 0 {
        0
    } else if !seq_le(key(s[0]), key(x)) {
        0
    } else {
        1 + insert_pos_by(s.drop_first(), x, key)
    }
}

/// `s` sorted by the names that `key` gives, elements with equal names in the order they had.
pub open spec fn insertion_sorted_by<A>(s: Seq<A>, key: spec_fn(A) -> Seq<char>) -> Seq<A>
    decreases s.len(),
{
    if s.len() == 0 {
        s
    } else {
        let r = insertion_sorted_by(s.drop_last(), key);
        r.insert(insert_pos_by(r, s.last(), key), s.last())
    }
}

proof fn lemma_insert_pos_map<T: Named, A>(
    r: Seq<T>,
    x: T,
    f: spec_fn(T) -> A,
    key: spec_fn(A) -> Seq<char>,
)
    requires
        forall|t: T| #[trigger] key(f(t)) == t.key(),
    ensures
        insert_pos(r, x) == insert_pos_by(r.map_values(f), f(x), key),
        0 <= insert_pos(r, x) <= r.len(),
    decreases r.len(),
{
    if r.len() > 0 {
        assert(r.map_values(f).drop_first() =~= r.drop_first().map_values(f));
        assert(key(f(r[0])) == r[0].key());
        assert(key(f(x)) == x.key());
        lemma_insert_pos_map(r.drop_first(), x, f, key);
    }
}

/// Taking each element to its view commutes with the stable sort by name, when views keep
/// the names.
pub proof fn lemma_sorted_map<T: Named, A>(
    s: Seq<T>,
    f: spec_fn(T) -> A,
    key: spec_fn(A) -> Seq<char>,
)
    requires
        forall|t: T| #[trigger] key(f(t)) == t.key(),
    ensures
        insertion_sorted(s).map_values(f) == insertion_sorted_by(s.map_values(f), key),
    decreases s.len(),
{
    if s.len() == 0 {
        assert(s.map_values(f) =~= Seq::<A>::empty());
        assert(insertion_sorted(s).map_values(f) =~= Seq::<A>::empty());
    } else {
        let r = insertion_sorted(s.drop_last());
        lemma_sorted_map(s.drop_last(), f, key);
        assert(s.map_values(f).drop_last() =~= s.drop_last().map_values(f));
        assert(s.map_values(f).last() == f(s.last()));
        lemma_insert_pos_map(r, s.last(), f, key);
        let k = insert_pos(r, s.last());
        assert(r.insert(k, s.last()).map_values(f) =~= r.map_values(f).insert(k, f(s.last())));
    }
}

/// Sorts by name; elements with equal names keep their order (std `sort_by` on names).
pub fn sort_by_name<T: Named>(v: Vec<T>) -> (r: Vec<T>)
    ensures
        r@ == insertion_sorted(v@),
        sorted_by_key(r@),
        rearranges(r@, v@),
{
    let ghost orig = v@;
    let mut input = v;
    let mut out: Vec<T> = Vec::new();
    let ghost mut p: Seq<int> = Seq::empty();
    let n = input.len();
    let mut i: usize = 0;
    assert(orig.subrange(0, 0) =~= Seq::<T>::empty());
    while i < n
        invariant
            n == orig.len(),
            i <= n,
            input@ == orig.subrange(i as int, n as int),
            out@.len() == i,
            p.len() == i,
            forall|k: int| 0 <= k < i ==> 0 <= #[trigger] p[k] < i,
            forall|k: int, l: int| 0 <= k < l < i ==> #[trigger] p[k] != #[trigger] p[l],
            forall|k: int| 0 <= k < i ==> #[trigger] out@[k] == orig[p[k]],
            sorted_by_key(out@),
            out@ == insertion_sorted(orig.subrange(0, i as int)),
        decreases n - i,
    {
        let x = input.remove(0);
        assert(x == orig[i as int]);
        let xk = x.key_chars();
        let mut pos: usize = 0;
        while pos < out.len() && chars_le(&out[pos].key_chars(), &xk)
            invariant
                pos <= out.len(),
                xk@ == x.key(),
                forall|k: int| 0 <= k < pos ==> seq_le(#[trigger] out@[k].key(), x.key()),
            decreases out.len() - pos,
        {
            pos = pos + 1;
        }
        let ghost old_out = out@;
        proof {
            if pos < out.len() {
                lemma_seq_le_total(out@[pos as int].key(), x.key());
            }
            assert forall|k: int| pos <= k < old_out.len() implies seq_le(
                x.key(),
                #[trigger] old_out[k].key(),
            ) by {
                lemma_seq_le_total(out@[pos as int].key(), x.key());
                if k > pos {
                    lemma_seq_le_trans(x.key(), old_out[pos as int].key(), old_out[k].key());
                }
            }
        }
        proof {
            lemma_insert_pos_at(old_out, x, pos as int);
            let pre = orig.subrange(0, i as int);
            let post = orig.subrange(0, i + 1);
            assert(post.drop_last() =~= pre);
            assert(post.last() == x);
        }
        out.insert(pos, x);
        proof {
            let new_p = p.insert(pos as int, i as int);
            assert forall|k: int| 0 <= k < i + 1 implies 0 <= #[trigger] new_p[k] < i + 1 by {
                if k < pos {
                    assert(new_p[k] == p[k]);
                } else if k > pos {
                    assert(new_p[k] == p[k - 1]);
                }
            }
            assert forall|k: int, l: int| 0 <= k < l < i + 1 implies #[trigger] new_p[k]
                != #[trigger] new_p[l] by {
                if k < pos {
                    assert(new_p[k] == p[k]);
                } else if k > pos {
                    assert(new_p[k] == p[k - 1]);
                }
                if l < pos {
                    assert(new_p[l] == p[l]);
                } else if l > pos {
                    assert(new_p[l] == p[l - 1]);
                }
            }
            assert forall|k: int| 0 <= k < i + 1 implies #[trigger] out@[k] == orig[new_p[k]] by {
                if k < pos {
                    assert(out@[k] == old_out[k]);
                    assert(new_p[k] == p[k]);
                } else if k > pos {
                    assert(out@[k] == old_out[k - 1]);
                    assert(new_p[k] == p[k - 1]);
                }
            }
            assert forall|a: int, b: int| 0 <= a < b < out@.len() implies seq_le(
                #[trigger] out@[a].key(),
                #[trigger] out@[b].key(),
            ) by {
                if b < pos {
                    assert(out@[a] == old_out[a] && out@[b] == old_out[b]);
                } else if b == pos {
                    assert(out@[a] == old_out[a]);
                } else if a > pos {
                    assert(out@[a] == old_out[a - 1] && out@[b] == old_out[b - 1]);
                } else if a == pos {
                    assert(out@[b] == old_out[b - 1]);
                } else {
                    assert(out@[a] == old_out[a] && out@[b] == old_out[b - 1]);
                    lemma_seq_le_trans(old_out[a].key(), x.key(), old_out[b - 1].key());
                }
            }
            p = new_p;
            assert(input@ =~= orig.subrange(i + 1, n as int));
        }
        i = i + 1;
    }
    proof {
        assert(permutes(p, out@, orig));
        assert(orig.subrange(0, n as int) =~= orig);
    }
    out
}

} // verus!
