//! Entries keyed by a string name (tags, baggage items, log fields), the
//! byte order on names, and the merge rules that keep names unique.
use vstd::prelude::*;
use vstd::utf8::*;
use std::cmp::Ordering;

verus! {

/// A value carrying a string name.
pub trait Named {
    spec fn name_view(&self) -> Seq<char>;

    fn name_str(&self) -> (r: &str)
        ensures
            r@ == self.name_view(),
    ;
}

/// Strict lexicographic order on byte strings (the order of `str`'s `Ord`).
pub open spec fn bytes_lt(a: Seq<u8>, b: Seq<u8>) -> bool
    decreases a.len(),
{
    if a.len() == 0 {
        b.len() > 0
    } else if b.len() == 0 {
        false
    } else if a[0] != b[0] {
        a[0] < b[0]
    } else {
        bytes_lt(a.drop_first(), b.drop_first())
    }
}

/// Strict order on names: by their UTF-8 bytes.
#[verifier::opaque]
pub open spec fn name_lt(a: Seq<char>, b: Seq<char>) -> bool {
    bytes_lt(encode_utf8(a), encode_utf8(b))
}

pub proof fn lemma_bytes_lt_irreflexive(a: Seq<u8>)
    ensures
        !bytes_lt(a, a),
    decreases a.len(),
{
    if a.len() > 0 {
        lemma_bytes_lt_irreflexive(a.drop_first());
    }
}

pub proof fn lemma_bytes_lt_transitive(a: Seq<u8>, b: Seq<u8>, c: Seq<u8>)
    requires
        bytes_lt(a, b),
        bytes_lt(b, c),
    ensures
        bytes_lt(a, c),
    decreases a.len(),
{
    if a.len() > 0 && b.len() > 0 && c.len() > 0 && a[0] == b[0] && b[0] == c[0] {
        lemma_bytes_lt_transitive(a.drop_first(), b.drop_first(), c.drop_first());
    }
}

proof fn lemma_bytes_lt_skip(a: Seq<u8>, b: Seq<u8>, i: int)
    requires
        0 <= i <= a.len(),
        i <= b.len(),
        a.take(i) == b.take(i),
    ensures
        bytes_lt(a, b) == bytes_lt(a.skip(i), b.skip(i)),
    decreases i,
{
    if i > 0 {
        assert(a[0] == a.take(i)[0]);
        assert(b[0] == b.take(i)[0]);
        assert(a.drop_first().take(i - 1) =~= a.take(i).drop_first());
        assert(b.drop_first().take(i - 1) =~= b.take(i).drop_first());
        lemma_bytes_lt_skip(a.drop_first(), b.drop_first(), i - 1);
        assert(a.drop_first().skip(i - 1) =~= a.skip(i));
        assert(b.drop_first().skip(i - 1) =~= b.skip(i));
    } else {
        assert(a.skip(0) =~= a);
        assert(b.skip(0) =~= b);
    }
}

pub proof fn lemma_name_lt_irreflexive(a: Seq<char>)
    ensures
        !name_lt(a, a),
{
    reveal(name_lt);
    lemma_bytes_lt_irreflexive(encode_utf8(a));
}

pub proof fn lemma_name_lt_transitive(a: Seq<char>, b: Seq<char>, c: Seq<char>)
    requires
        name_lt(a, b),
        name_lt(b, c),
    ensures
        name_lt(a, c),
{
    reveal(name_lt);
    lemma_bytes_lt_transitive(encode_utf8(a), encode_utf8(b), encode_utf8(c));
}

/// Two names are equal exactly when their UTF-8 encodings are.
pub proof fn lemma_encode_injective(a: Seq<char>, b: Seq<char>)
    requires
        encode_utf8(a) == encode_utf8(b),
    ensures
        a == b,
{
    encode_utf8_decode_utf8(a);
    encode_utf8_decode_utf8(b);
}

/// Compares two names byte by byte, as `str`'s `Ord` does.
pub fn compare_names(a: &str, b: &str) -> (r: Ordering)
    ensures
        r == Ordering::Less <==> name_lt(a@, b@),
        r == Ordering::Equal <==> a@ == b@,
        r == Ordering::Greater <==> name_lt(b@, a@),
{
    reveal(name_lt);
    let x = a.as_bytes();
    let y = b.as_bytes();
    let ghost xs = encode_utf8(a@);
    let ghost ys = encode_utf8(b@);
    let mut i: usize = 0;
    while i < x.len() && i < y.len()
        invariant
            xs == encode_utf8(a@),
            ys == encode_utf8(b@),
            x@ == xs,
            y@ == ys,
            i <= x@.len(),
            i <= y@.len(),
            xs.take(i as int) == ys.take(i as int),
        decreases x@.len() - i,
    {
        if x[i] != y[i] {
            proof {
                reveal(name_lt);
                lemma_bytes_lt_skip(xs, ys, i as int);
                lemma_bytes_lt_skip(ys, xs, i as int);
                assert(xs.skip(i as int)[0] == xs[i as int]);
                assert(ys.skip(i as int)[0] == ys[i as int]);
                if xs == ys {
                    assert(xs[i as int] == ys[i as int]);
                }
                if a@ == b@ {
                    assert(xs == ys);
                }
            }
            if x[i] < y[i] {
                return Ordering::Less;
            } else {
                return Ordering::Greater;
            }
        }
        proof {
            assert(xs.take(i + 1) =~= xs.take(i as int).push(xs[i as int]));
            assert(ys.take(i + 1) =~= ys.take(i as int).push(ys[i as int]));
        }
        i = i + 1;
    }
    proof {
        reveal(name_lt);
        lemma_bytes_lt_skip(xs, ys, i as int);
        lemma_bytes_lt_skip(ys, xs, i as int);
        if xs.len() == ys.len() {
            assert(xs =~= xs.take(i as int));
            assert(ys =~= ys.take(i as int));
            lemma_encode_injective(a@, b@);
        }
        if a@ == b@ {
            assert(xs == ys);
        }
    }
    if x.len() < y.len() {
        Ordering::Less
    } else if x.len() == y.len() {
        Ordering::Equal
    } else {
        Ordering::Greater
    }
}

/// Names in strictly increasing order (hence pairwise distinct).
pub open spec fn names_sorted<E: Named>(s: Seq<E>) -> bool {
    forall|i: int, j: int|
        0 <= i < j < s.len() ==> name_lt(#[trigger] s[i].name_view(), #[trigger] s[j].name_view())
}

/// No two entries share a name.
pub open spec fn unique_names<E: Named>(s: Seq<E>) -> bool {
    forall|i: int, j: int|
        0 <= i < j < s.len() ==> #[trigger] s[i].name_view() != #[trigger] s[j].name_view()
}

/// `s[j]` is the last entry of `s` with its name.
pub open spec fn is_last_of_name<E: Named>(s: Seq<E>, j: int) -> bool {
    &&& 0 <= j < s.len()
    &&& forall|k: int| j < k < s.len() ==> #[trigger] s[k].name_view() != s[j].name_view()
}

/// `r` is `s` with one entry per name, the last one given for it, sorted by
/// name: what reversing, stably sorting by name and keeping the first of each
/// run of equal names yields.
pub open spec fn is_normalization<E: Named>(s: Seq<E>, r: Seq<E>) -> bool {
    &&& names_sorted(r)
    &&& drawn_from(s, 0, r)
    &&& covers(s, 0, r)
}

pub proof fn lemma_sorted_unique<E: Named>(s: Seq<E>)
    requires
        names_sorted(s),
    ensures
        unique_names(s),
{
    assert forall|i: int, j: int| 0 <= i < j < s.len() implies #[trigger] s[i].name_view() != #[trigger] s[j].name_view() by {
        lemma_name_lt_irreflexive(s[i].name_view());
    }
}

/// Where `name` stands or would stand in a list sorted by name: the index of
/// the first entry not below it, and whether that entry has the name.
fn position_of<E: Named>(r: &Vec<E>, name: &str) -> (res: (usize, bool))
    requires
        names_sorted(r@),
    ensures
        res.0 <= r@.len(),
        forall|q: int| 0 <= q < res.0 ==> name_lt(#[trigger] r@[q].name_view(), name@),
        res.1 ==> res.0 < r@.len() && r@[res.0 as int].name_view() == name@,
        !res.1 ==> forall|q: int| res.0 <= q < r@.len() ==> name_lt(name@, #[trigger] r@[q].name_view()),
{
    let mut p: usize = 0;
    while p < r.len()
        invariant
            names_sorted(r@),
            p <= r@.len(),
            forall|q: int| 0 <= q < p ==> name_lt(#[trigger] r@[q].name_view(), name@),
        decreases r@.len() - p,
    {
        match compare_names(r[p].name_str(), name) {
            Ordering::Less => {
                p = p + 1;
            },
            Ordering::Equal => {
                return (p, true);
            },
            Ordering::Greater => {
                proof {
                    assert forall|q: int| p <= q < r@.len() implies name_lt(name@, #[trigger] r@[q].name_view()) by {
                        if q > p {
                            lemma_name_lt_transitive(name@, r@[p as int].name_view(), r@[q].name_view());
                        }
                    }
                }
                return (p, false);
            },
        }
    }
    (p, false)
}

/// Each entry of `r` is the last entry of `s` with its name, at index `m` or later.
#[verifier::opaque]
pub open spec fn drawn_from<E: Named>(s: Seq<E>, m: int, r: Seq<E>) -> bool {
    forall|a: int|
        #![trigger r[a]]
        0 <= a < r.len() ==> exists|j: int| #![trigger s[j]] m <= j && is_last_of_name(s, j) && r[a] == s[j]
}

/// Each name of `s` from index `m` on is the name of an entry of `r`.
#[verifier::opaque]
pub open spec fn covers<E: Named>(s: Seq<E>, m: int, r: Seq<E>) -> bool {
    forall|j: int|
        #![trigger s[j]]
        m <= j < s.len() ==> exists|a: int| #![trigger r[a]]
            0 <= a < r.len() && r[a].name_view() == s[j].name_view()
}

pub proof fn lemma_drawn_at<E: Named>(s: Seq<E>, m: int, r: Seq<E>, a: int)
    requires
        drawn_from(s, m, r),
        0 <= a < r.len(),
    ensures
        exists|j: int| #![trigger s[j]] m <= j && is_last_of_name(s, j) && r[a] == s[j],
{
    reveal(drawn_from);
    let x = r[a];
    assert(exists|j: int| #![trigger s[j]] m <= j && is_last_of_name(s, j) && r[a] == s[j]);
}

pub proof fn lemma_covers_at<E: Named>(s: Seq<E>, m: int, r: Seq<E>, j: int)
    requires
        covers(s, m, r),
        m <= j < s.len(),
    ensures
        exists|a: int| #![trigger r[a]] 0 <= a < r.len() && r[a].name_view() == s[j].name_view(),
{
    reveal(covers);
    let x = s[j].name_view();
    assert(exists|a: int| #![trigger r[a]] 0 <= a < r.len() && r[a].name_view() == s[j].name_view());
}

proof fn lemma_step_insert<E: Named>(s: Seq<E>, n: int, r0: Seq<E>, p: int)
    requires
        0 <= n < s.len(),
        names_sorted(r0),
        drawn_from(s, n + 1, r0),
        covers(s, n + 1, r0),
        0 <= p <= r0.len(),
        forall|q: int| 0 <= q < p ==> name_lt(#[trigger] r0[q].name_view(), s[n].name_view()),
        forall|q: int| p <= q < r0.len() ==> name_lt(s[n].name_view(), #[trigger] r0[q].name_view()),
    ensures
        names_sorted(r0.insert(p, s[n])),
        drawn_from(s, n, r0.insert(p, s[n])),
        covers(s, n, r0.insert(p, s[n])),
{
    let e = s[n];
    let rr = r0.insert(p, e);
    assert(rr.len() == r0.len() + 1);
    assert(forall|a: int| 0 <= a < p ==> rr[a] == r0[a]);
    assert(forall|a: int| p < a < rr.len() ==> rr[a] == r0[a - 1]);
    assert(rr[p] == e);
    assert forall|a: int| 0 <= a < r0.len() implies r0[a].name_view() != e.name_view() by {
        lemma_name_lt_irreflexive(e.name_view());
    }
    assert forall|k: int| n < k < s.len() implies #[trigger] s[k].name_view() != s[n].name_view() by {
        lemma_covers_at(s, n + 1, r0, k);
    }
    assert(is_last_of_name(s, n));
    assert forall|i: int, j: int| 0 <= i < j < rr.len() implies name_lt(
        #[trigger] rr[i].name_view(),
        #[trigger] rr[j].name_view(),
    ) by {
        if i < p && j > p {
            lemma_name_lt_transitive(rr[i].name_view(), e.name_view(), rr[j].name_view());
        }
    }
    assert(drawn_from(s, n, rr)) by {
        reveal(drawn_from);
        assert forall|a: int| #![trigger rr[a]] 0 <= a < rr.len() implies exists|j: int| #![trigger s[j]]
            n <= j && is_last_of_name(s, j) && rr[a] == s[j] by {
            if a < p {
                lemma_drawn_at(s, n + 1, r0, a);
            } else if a > p {
                lemma_drawn_at(s, n + 1, r0, a - 1);
            } else {
                assert(rr[a] == s[n]);
            }
        }
    }
    assert(covers(s, n, rr)) by {
        reveal(covers);
        assert forall|j: int| #![trigger s[j]] n <= j < s.len() implies exists|a: int| #![trigger rr[a]]
            0 <= a < rr.len() && rr[a].name_view() == s[j].name_view() by {
            if j == n {
                assert(rr[p].name_view() == s[j].name_view());
            } else {
                lemma_covers_at(s, n + 1, r0, j);
                let a = choose|a: int| 0 <= a < r0.len() && r0[a].name_view() == s[j].name_view();
                if a < p {
                    assert(rr[a].name_view() == s[j].name_view());
                } else {
                    assert(rr[a + 1].name_view() == s[j].name_view());
                }
            }
        }
    }
}

proof fn lemma_step_skip<E: Named>(s: Seq<E>, n: int, r0: Seq<E>, p: int)
    requires
        0 <= n < s.len(),
        drawn_from(s, n + 1, r0),
        covers(s, n + 1, r0),
        0 <= p < r0.len(),
        r0[p].name_view() == s[n].name_view(),
    ensures
        drawn_from(s, n, r0),
        covers(s, n, r0),
{
    assert(drawn_from(s, n, r0)) by {
        reveal(drawn_from);
        assert forall|a: int| #![trigger r0[a]] 0 <= a < r0.len() implies exists|j: int| #![trigger s[j]]
            n <= j && is_last_of_name(s, j) && r0[a] == s[j] by {
            lemma_drawn_at(s, n + 1, r0, a);
        }
    }
    assert(covers(s, n, r0)) by {
        reveal(covers);
        assert forall|j: int| #![trigger s[j]] n <= j < s.len() implies exists|a: int| #![trigger r0[a]]
            0 <= a < r0.len() && r0[a].name_view() == s[j].name_view() by {
            if j == n {
                assert(r0[p].name_view() == s[j].name_view());
            } else {
                lemma_covers_at(s, n + 1, r0, j);
            }
        }
    }
}

/// Keeps one entry per name, the last one given, and sorts the entries by name.
pub fn normalize<E: Named>(v: Vec<E>) -> (r: Vec<E>)
    ensures
        is_normalization(v@, r@),
{
    let ghost s = v@;
    let mut v = v;
    let mut r: Vec<E> = Vec::new();
    proof {
        reveal(drawn_from);
        reveal(covers);
    }
    while v.len() > 0
        invariant
            v@ == s.take(v@.len() as int),
            v@.len() <= s.len(),
            names_sorted(r@),
            drawn_from(s, v@.len() as int, r@),
            covers(s, v@.len() as int, r@),
        decreases v@.len(),
    {
        let ghost n = (v@.len() - 1) as int;
        let ghost r0 = r@;
        let e = v.pop().unwrap();
        assert(e == s[n]);
        assert(v@ =~= s.take(n));
        let (p, found) = position_of(&r, e.name_str());
        if !found {
            proof {
                lemma_step_insert(s, n, r0, p as int);
            }
            r.insert(p, e);
        } else {
            proof {
                lemma_step_skip(s, n, r0, p as int);
            }
        }
    }
    r
}

/// `s` without its entries named `n`, in their order.
pub open spec fn without_name<E: Named>(s: Seq<E>, n: Seq<char>) -> Seq<E>
    decreases s.len(),
{
    if s.len() == 0 {
        s
    } else {
        let r = without_name(s.drop_last(), n);
        if s.last().name_view() == n {
            r
        } else {
            r.push(s.last())
        }
    }
}

/// `s` after setting `e`: entries with `e`'s name removed, then `e` appended.
pub open spec fn put_entry<E: Named>(s: Seq<E>, e: E) -> Seq<E> {
    without_name(s, e.name_view()).push(e)
}

/// `s[i]` is the first entry of `s` named `n`.
pub open spec fn is_first_named<E: Named>(s: Seq<E>, n: Seq<char>, i: int) -> bool {
    &&& 0 <= i < s.len()
    &&& s[i].name_view() == n
    &&& forall|k: int| 0 <= k < i ==> #[trigger] s[k].name_view() != n
}

/// Whether some entry of `s` is named `n`.
pub open spec fn has_name<E: Named>(s: Seq<E>, n: Seq<char>) -> bool {
    exists|i: int| 0 <= i < s.len() && #[trigger] s[i].name_view() == n
}

/// Every entry of `without_name(s, n)` is an entry of `s` not named `n`, and
/// every entry of `s` not named `n` is kept.
pub proof fn lemma_without_name<E: Named>(s: Seq<E>, n: Seq<char>)
    ensures
        forall|i: int|
            0 <= i < without_name(s, n).len() ==> #[trigger] without_name(s, n)[i].name_view() != n,
        forall|i: int| 0 <= i < without_name(s, n).len() ==> s.contains(#[trigger] without_name(s, n)[i]),
        forall|x: E| s.contains(x) && x.name_view() != n ==> #[trigger] without_name(s, n).contains(x),
        without_name(s, n).len() <= s.len(),
    decreases s.len(),
{
    if s.len() > 0 {
        let t = s.drop_last();
        lemma_without_name(t, n);
        let r = without_name(t, n);
        assert forall|i: int| 0 <= i < without_name(s, n).len() implies {
            &&& without_name(s, n)[i].name_view() != n
            &&& s.contains(#[trigger] without_name(s, n)[i])
        } by {
            if i < r.len() {
                assert(t.contains(r[i]));
                assert(without_name(s, n)[i] == r[i]);
                let k = choose|k: int| 0 <= k < t.len() && t[k] == r[i];
                assert(s[k] == t[k]);
            } else {
                assert(s[s.len() - 1] == s.last());
            }
        }
        assert forall|x: E| s.contains(x) && x.name_view() != n implies #[trigger] without_name(s, n).contains(x) by {
            let k = choose|k: int| 0 <= k < s.len() && s[k] == x;
            if k < s.len() - 1 {
                assert(t[k] == x);
                assert(r.contains(x));
                let m = choose|m: int| 0 <= m < r.len() && r[m] == x;
                assert(without_name(s, n)[m] == x);
            } else {
                assert(without_name(s, n)[r.len() as int] == x);
            }
        }
    }
}

/// Without entries named `n`, a list of unique names keeps unique names.
proof fn lemma_without_name_unique<E: Named>(s: Seq<E>, n: Seq<char>)
    requires
        unique_names(s),
    ensures
        unique_names(without_name(s, n)),
    decreases s.len(),
{
    if s.len() > 0 {
        let t = s.drop_last();
        assert(unique_names(t));
        lemma_without_name_unique(t, n);
        lemma_without_name(t, n);
        let r = without_name(t, n);
        if s.last().name_view() != n {
            let w = r.push(s.last());
            assert forall|i: int, j: int| 0 <= i < j < w.len() implies #[trigger] w[i].name_view() != #[trigger] w[j].name_view() by {
                if j == w.len() - 1 {
                    assert(w[i] == r[i]);
                    assert(t.contains(r[i]));
                    let k = choose|k: int| 0 <= k < t.len() && t[k] == r[i];
                    assert(s[k] == t[k]);
                    assert(s[s.len() - 1] == s.last());
                } else {
                    assert(w[i] == r[i] && w[j] == r[j]);
                }
            }
        }
    }
}

/// Setting an entry keeps names unique.
pub proof fn lemma_put_unique<E: Named>(s: Seq<E>, e: E)
    requires
        unique_names(s),
    ensures
        unique_names(put_entry(s, e)),
{
    lemma_without_name_unique(s, e.name_view());
    lemma_without_name(s, e.name_view());
    let r = without_name(s, e.name_view());
    let w = r.push(e);
    assert forall|i: int, j: int| 0 <= i < j < w.len() implies #[trigger] w[i].name_view() != #[trigger] w[j].name_view() by {
        if j == w.len() - 1 {
            assert(w[i] == r[i]);
        } else {
            assert(w[i] == r[i] && w[j] == r[j]);
        }
    }
}

/// Sets `e`: removes every entry with its name, then appends it.
pub fn put_named<E: Named>(v: &mut Vec<E>, e: E)
    ensures
        final(v)@ == put_entry(old(v)@, e),
{
    let ghost s = old(v)@;
    let mut rest: Vec<E> = Vec::new();
    std::mem::swap(v, &mut rest);
    let ghost n = e.name_view();
    let total = rest.len();
    let mut i: usize = 0;
    while rest.len() > 0
        invariant
            n == e.name_view(),
            s.len() == total,
            i + rest@.len() == s.len(),
            rest@ == s.skip(i as int),
            v@ == without_name(s.take(i as int), n),
        decreases rest@.len(),
    {
        let x = rest.remove(0);
        proof {
            assert(x == s[i as int]);
            assert(s.take(i + 1).drop_last() =~= s.take(i as int));
            assert(s.take(i + 1).last() == x);
            assert(rest@ =~= s.skip(i + 1));
        }
        match compare_names(x.name_str(), e.name_str()) {
            Ordering::Equal => {},
            _ => {
                v.push(x);
            },
        }
        i = i + 1;
    }
    proof {
        assert(s.skip(i as int).len() == 0);
        assert(s.take(i as int) =~= s);
    }
    v.push(e);
}

/// The first entry named `name`, if any.
pub fn find_named<'a, E: Named>(v: &'a Vec<E>, name: &str) -> (r: Option<&'a E>)
    ensures
        match r {
            Some(x) => exists|i: int| is_first_named(v@, name@, i) && *x == v@[i],
            None => !has_name(v@, name@),
        },
{
    let mut i: usize = 0;
    while i < v.len()
        invariant
            i <= v@.len(),
            forall|k: int| 0 <= k < i ==> #[trigger] v@[k].name_view() != name@,
        decreases v@.len() - i,
    {
        match compare_names(v[i].name_str(), name) {
            Ordering::Equal => {
                assert(is_first_named(v@, name@, i as int));
                return Some(&v[i]);
            },
            _ => {},
        }
        i = i + 1;
    }
    None
}

/// `s` after setting `e` in a list sorted by name: `e` takes the place of
/// the entry with its name, or else goes where its name sorts.
pub open spec fn put_sorted<E: Named>(s: Seq<E>, e: E) -> Seq<E>
    decreases s.len(),
{
    if s.len() == 0 {
        seq![e]
    } else if s[0].name_view() == e.name_view() {
        seq![e] + s.drop_first()
    } else if name_lt(s[0].name_view(), e.name_view()) {
        seq![s[0]] + put_sorted(s.drop_first(), e)
    } else {
        seq![e] + s
    }
}

/// Where `put_sorted` puts `e`, given the index `p` of the first entry not
/// below `e`'s name.
proof fn lemma_put_sorted_at<E: Named>(s: Seq<E>, e: E, p: int, found: bool)
    requires
        names_sorted(s),
        0 <= p <= s.len(),
        forall|q: int| 0 <= q < p ==> name_lt(#[trigger] s[q].name_view(), e.name_view()),
        found ==> p < s.len() && s[p].name_view() == e.name_view(),
        !found ==> forall|q: int| p <= q < s.len() ==> name_lt(e.name_view(), #[trigger] s[q].name_view()),
    ensures
        found ==> put_sorted(s, e) == s.update(p, e),
        !found ==> put_sorted(s, e) == s.insert(p, e),
    decreases s.len(),
{
    if s.len() > 0 {
        let t = s.drop_first();
        if p > 0 {
            assert(name_lt(s[0].name_view(), e.name_view()));
            lemma_name_lt_irreflexive(e.name_view());
            assert(s[0].name_view() != e.name_view());
            assert(names_sorted(t));
            lemma_put_sorted_at(t, e, p - 1, found);
            if found {
                assert(s.update(p, e) =~= seq![s[0]] + t.update(p - 1, e));
            } else {
                assert(s.insert(p, e) =~= seq![s[0]] + t.insert(p - 1, e));
            }
        } else if found {
            assert(s.update(0, e) =~= seq![e] + t);
        } else {
            lemma_name_lt_irreflexive(e.name_view());
            assert(s[0].name_view() != e.name_view());
            if name_lt(s[0].name_view(), e.name_view()) {
                lemma_name_lt_asymmetric(s[0].name_view(), e.name_view());
            }
            assert(s.insert(0, e) =~= seq![e] + s);
        }
    } else {
        assert(s.insert(0, e) =~= seq![e]);
    }
}

pub proof fn lemma_name_lt_asymmetric(a: Seq<char>, b: Seq<char>)
    requires
        name_lt(a, b),
    ensures
        !name_lt(b, a),
{
    if name_lt(b, a) {
        lemma_name_lt_transitive(a, b, a);
        lemma_name_lt_irreflexive(a);
    }
}

/// Setting `e` in a list sorted by name keeps it sorted; the result holds
/// `e` and the entries of other names, and nothing else.
pub proof fn lemma_put_sorted<E: Named>(s: Seq<E>, e: E)
    requires
        names_sorted(s),
    ensures
        names_sorted(put_sorted(s, e)),
        put_sorted(s, e).contains(e),
        forall|x: E| #[trigger] s.contains(x) && x.name_view() != e.name_view() ==> put_sorted(s, e).contains(x),
        forall|i: int| 0 <= i < put_sorted(s, e).len() ==> {
            ||| #[trigger] put_sorted(s, e)[i] == e
            ||| (s.contains(put_sorted(s, e)[i]) && put_sorted(s, e)[i].name_view() != e.name_view())
        },
{
    let (p, found) = choose_position(s, e);
    lemma_put_sorted_at(s, e, p, found);
    lemma_sorted_unique(s);
    let r = put_sorted(s, e);
    if found {
        assert(r[p] == e);
        assert forall|i: int, j: int| 0 <= i < j < r.len() implies name_lt(
            #[trigger] r[i].name_view(),
            #[trigger] r[j].name_view(),
        ) by {}
        assert forall|x: E| #[trigger] s.contains(x) && x.name_view() != e.name_view() implies r.contains(x) by {
            let k = choose|k: int| 0 <= k < s.len() && s[k] == x;
            assert(k != p);
            assert(r[k] == x);
        }
        assert forall|i: int| 0 <= i < r.len() implies {
            ||| #[trigger] r[i] == e
            ||| (s.contains(r[i]) && r[i].name_view() != e.name_view())
        } by {
            if i != p {
                assert(r[i] == s[i]);
                assert(s.contains(s[i]));
            }
        }
    } else {
        assert(r[p] == e);
        assert forall|i: int, j: int| 0 <= i < j < r.len() implies name_lt(
            #[trigger] r[i].name_view(),
            #[trigger] r[j].name_view(),
        ) by {
            if i < p && j > p {
                lemma_name_lt_transitive(r[i].name_view(), e.name_view(), r[j].name_view());
            } else if i < p && j == p {
            } else if i == p {
                assert(r[j] == s[j - 1]);
            } else if i > p {
                assert(r[i] == s[i - 1] && r[j] == s[j - 1]);
            } else {
                assert(r[i] == s[i] && r[j] == s[j]);
            }
        }
        assert forall|x: E| #[trigger] s.contains(x) && x.name_view() != e.name_view() implies r.contains(x) by {
            let k = choose|k: int| 0 <= k < s.len() && s[k] == x;
            if k < p {
                assert(r[k] == x);
            } else {
                assert(r[k + 1] == x);
            }
        }
        assert forall|i: int| 0 <= i < r.len() implies {
            ||| #[trigger] r[i] == e
            ||| (s.contains(r[i]) && r[i].name_view() != e.name_view())
        } by {
            lemma_name_lt_irreflexive(e.name_view());
            if i < p {
                assert(r[i] == s[i]);
                assert(s.contains(s[i]));
            } else if i > p {
                assert(r[i] == s[i - 1]);
                assert(s.contains(s[i - 1]));
            }
        }
    }
}

/// The index of the first entry of a sorted list not below `e`'s name, and
/// whether that entry has the name.
proof fn choose_position<E: Named>(s: Seq<E>, e: E) -> (res: (int, bool))
    requires
        names_sorted(s),
    ensures
        0 <= res.0 <= s.len(),
        forall|q: int| 0 <= q < res.0 ==> name_lt(#[trigger] s[q].name_view(), e.name_view()),
        res.1 ==> res.0 < s.len() && s[res.0].name_view() == e.name_view(),
        !res.1 ==> forall|q: int| res.0 <= q < s.len() ==> name_lt(e.name_view(), #[trigger] s[q].name_view()),
    decreases s.len(),
{
    if s.len() == 0 {
        (0, false)
    } else if name_lt(s[0].name_view(), e.name_view()) {
        let t = s.drop_first();
        assert(names_sorted(t));
        let (p, f) = choose_position(t, e);
        assert forall|q: int| 0 <= q < p + 1 implies name_lt(#[trigger] s[q].name_view(), e.name_view()) by {
            if q > 0 {
                assert(s[q] == t[q - 1]);
            }
        }
        assert forall|q: int| !f && p + 1 <= q < s.len() implies name_lt(e.name_view(), #[trigger] s[q].name_view()) by {
            assert(s[q] == t[q - 1]);
        }
        (p + 1, f)
    } else if s[0].name_view() == e.name_view() {
        (0, true)
    } else {
        lemma_names_total(s[0].name_view(), e.name_view());
        assert forall|q: int| 0 <= q < s.len() implies name_lt(e.name_view(), #[trigger] s[q].name_view()) by {
            if q > 0 {
                lemma_name_lt_transitive(e.name_view(), s[0].name_view(), s[q].name_view());
            }
        }
        (0, false)
    }
}

/// Any two distinct names are ordered one way or the other.
pub proof fn lemma_names_total(a: Seq<char>, b: Seq<char>)
    requires
        a != b,
    ensures
        name_lt(a, b) || name_lt(b, a),
{
    reveal(name_lt);
    if encode_utf8(a) == encode_utf8(b) {
        lemma_encode_injective(a, b);
    }
    lemma_bytes_lt_total(encode_utf8(a), encode_utf8(b));
}

proof fn lemma_bytes_lt_total(a: Seq<u8>, b: Seq<u8>)
    requires
        a != b,
    ensures
        bytes_lt(a, b) || bytes_lt(b, a),
    decreases a.len(),
{
    if a.len() > 0 && b.len() > 0 && a[0] == b[0] {
        if a.drop_first() == b.drop_first() {
            assert(a =~= seq![a[0]] + a.drop_first());
            assert(b =~= seq![b[0]] + b.drop_first());
        }
        lemma_bytes_lt_total(a.drop_first(), b.drop_first());
    } else if a.len() == 0 && b.len() == 0 {
        assert(a =~= b);
    }
}

/// Sets `e` in a list sorted by name: replaces the entry with its name, or
/// else inserts it where its name sorts.
pub fn put_sorted_named<E: Named>(v: &mut Vec<E>, e: E)
    ensures
        final(v)@ == put_sorted(old(v)@, e),
{
    let ghost s = v@;
    let mut i: usize = 0;
    proof {
        assert(s.take(0) + s.skip(0) =~= s);
        assert(s.take(0) + put_sorted(s.skip(0), e) =~= put_sorted(s, e));
    }
    while i < v.len()
        invariant
            v@ == s,
            s == old(v)@,
            i <= s.len(),
            put_sorted(s, e) == s.take(i as int) + put_sorted(s.skip(i as int), e),
        decreases s.len() - i,
    {
        let ghost t = s.skip(i as int);
        assert(t[0] == s[i as int]);
        match compare_names(v[i].name_str(), e.name_str()) {
            Ordering::Less => {
                proof {
                    lemma_name_lt_irreflexive(e.name_view());
                    assert(t.drop_first() =~= s.skip(i + 1));
                    assert(s.take(i + 1) =~= s.take(i as int).push(s[i as int]));
                    assert(s.take(i as int) + (seq![s[i as int]] + put_sorted(s.skip(i + 1), e))
                        =~= s.take(i + 1) + put_sorted(s.skip(i + 1), e));
                }
                i = i + 1;
            },
            Ordering::Equal => {
                proof {
                    assert(t.drop_first() =~= s.skip(i + 1));
                    assert(put_sorted(t, e) == seq![e] + t.drop_first());
                    assert(s.take(i as int) + (seq![e] + s.skip(i + 1)) =~= s.update(i as int, e));
                }
                v.set(i, e);
                return;
            },
            Ordering::Greater => {
                proof {
                    lemma_name_lt_irreflexive(e.name_view());
                    lemma_name_lt_asymmetric(e.name_view(), s[i as int].name_view());
                    assert(put_sorted(t, e) == seq![e] + t);
                    assert(s.take(i as int) + (seq![e] + t) =~= s.take(i as int) + (seq![e] + s.skip(i as int)));
                    assert(s.take(i as int) + (seq![e] + s.skip(i as int)) =~= s.insert(i as int, e));
                }
                v.insert(i, e);
                return;
            },
        }
    }
    proof {
        assert(s.skip(i as int) =~= Seq::<E>::empty());
        assert(s.take(i as int) + seq![e] =~= s.push(e));
    }
    v.push(e);
}

/// `s` after setting each entry of `es`, in order, in sorted place.
pub open spec fn put_all_sorted<E: Named>(s: Seq<E>, es: Seq<E>) -> Seq<E>
    decreases es.len(),
{
    if es.len() == 0 {
        s
    } else {
        put_sorted(put_all_sorted(s, es.drop_last()), es.last())
    }
}

/// After any sequence of sets on a list sorted by name, it is still sorted
/// (so names are unique) and holds, for each name set, the last entry set
/// with it.
pub proof fn lemma_put_all_last_wins<E: Named>(s: Seq<E>, es: Seq<E>)
    requires
        names_sorted(s),
    ensures
        names_sorted(put_all_sorted(s, es)),
        unique_names(put_all_sorted(s, es)),
        forall|j: int| is_last_of_name(es, j) ==> put_all_sorted(s, es).contains(#[trigger] es[j]),
    decreases es.len(),
{
    if es.len() > 0 {
        let t = es.drop_last();
        let e = es.last();
        lemma_put_all_last_wins(s, t);
        let r0 = put_all_sorted(s, t);
        lemma_put_sorted(r0, e);
        assert forall|j: int| is_last_of_name(es, j) implies put_all_sorted(s, es).contains(#[trigger] es[j]) by {
            if j < es.len() - 1 {
                assert(es[j] == t[j]);
                assert(is_last_of_name(t, j));
                assert(es[j].name_view() != e.name_view());
                assert(r0.contains(t[j]));
            }
        }
    }
    lemma_sorted_unique(put_all_sorted(s, es));
}

/// Setting entries named `a`, `b`, `a` in turn (`a` and `b` distinct) leaves
/// exactly one entry named `a`, the third, and exactly one named `b`, the
/// second, whatever the list held before.
pub proof fn lemma_put_aba<E: Named>(s: Seq<E>, e1: E, e2: E, e3: E)
    requires
        e1.name_view() == e3.name_view(),
        e1.name_view() != e2.name_view(),
    ensures
        ({
            let r = put_entry(put_entry(put_entry(s, e1), e2), e3);
            &&& r.contains(e3)
            &&& r.contains(e2)
            &&& forall|i: int| 0 <= i < r.len() && #[trigger] r[i].name_view() == e3.name_view() ==> r[i] == e3
            &&& forall|i: int| 0 <= i < r.len() && #[trigger] r[i].name_view() == e2.name_view() ==> r[i] == e2
        }),
{
    let r1 = put_entry(s, e1);
    let r2 = put_entry(r1, e2);
    let r = put_entry(r2, e3);
    let a = e3.name_view();
    let b = e2.name_view();
    lemma_without_name(r1, b);
    lemma_without_name(r2, a);
    let w1 = without_name(r1, b);
    let w2 = without_name(r2, a);
    assert(r[w2.len() as int] == e3);
    assert(r2[w1.len() as int] == e2);
    assert(r2.contains(e2));
    assert(w2.contains(e2));
    let k = choose|k: int| 0 <= k < w2.len() && w2[k] == e2;
    assert(r[k] == e2);
    assert forall|i: int| 0 <= i < r.len() && #[trigger] r[i].name_view() == b implies r[i] == e2 by {
        if i < w2.len() {
            assert(r[i] == w2[i]);
            assert(r2.contains(w2[i]));
            let m = choose|m: int| 0 <= m < r2.len() && r2[m] == w2[i];
            if m < w1.len() {
                assert(r2[m] == w1[m]);
            }
        }
    }
}

} // verus!
