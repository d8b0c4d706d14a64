//! Character-level helpers on names: equality, the lexicographic order that
//! `String`'s `Ord` uses, and sorting a list of distinct names.
use vstd::prelude::*;
use vstd::string::*;

verus! {

/// Lexicographic order on character sequences, comparing code points.
///
/// For valid UTF-8 text this is the same order as comparing the encoded
/// bytes, which is how `String` and `str` order themselves.
pub open spec fn seq_lt(a: Seq<char>, b: Seq<char>) -> bool
    decreases a.len(),
{
    if b.len() == 0 {
        false
    } else if a.len() == 0 {
        true
    } else if a[0] != b[0] {
        (a[0] as int) < (b[0] as int)
    } else {
        seq_lt(a.drop_first(), b.drop_first())
    }
}

/// The views of a sequence of strings.
pub open spec fn string_views(v: Seq<String>) -> Seq<Seq<char>> {
    v.map_values(|s: String| s@)
}

/// Every element is strictly below every later element.
pub open spec fn strictly_sorted(s: Seq<Seq<char>>) -> bool {
    forall|i: int, j: int| 0 <= i < j < s.len() ==> seq_lt(#[trigger] s[i], #[trigger] s[j])
}

pub proof fn lemma_seq_lt_irreflexive(a: Seq<char>)
    ensures
        !seq_lt(a, a),
    decreases a.len(),
{
    if a.len() > 0 {
        lemma_seq_lt_irreflexive(a.drop_first());
    }
}

pub proof fn lemma_seq_lt_transitive(a: Seq<char>, b: Seq<char>, c: Seq<char>)
    requires
        seq_lt(a, b),
        seq_lt(b, c),
    ensures
        seq_lt(a, c),
    decreases a.len(),
{
    if a.len() > 0 && b.len() > 0 && c.len() > 0 {
        if a[0] == b[0] && b[0] == c[0] {
            lemma_seq_lt_transitive(a.drop_first(), b.drop_first(), c.drop_first());
        }
    }
}

pub proof fn lemma_seq_lt_total(a: Seq<char>, b: Seq<char>)
    requires
        a != b,
    ensures
        seq_lt(a, b) || seq_lt(b, a),
    decreases a.len(),
{
    if a.len() > 0 && b.len() > 0 {
        if a[0] == b[0] {
            if a.drop_first() == b.drop_first() {
                assert(a =~= seq![a[0]] + a.drop_first());
                assert(b =~= seq![b[0]] + b.drop_first());
            }
            lemma_seq_lt_total(a.drop_first(), b.drop_first());
        } else {
            assert((a[0] as int) != (b[0] as int));
        }
    } else if a.len() == 0 && b.len() == 0 {
        assert(a =~= b);
    }
}

pub proof fn lemma_seq_lt_asymmetric(a: Seq<char>, b: Seq<char>)
    requires
        seq_lt(a, b),
    ensures
        !seq_lt(b, a),
{
    if seq_lt(b, a) {
        lemma_seq_lt_transitive(a, b, a);
        lemma_seq_lt_irreflexive(a);
    }
}

/// Character-wise equality of two strings.
pub fn str_equal(a: &str, b: &str) -> (r: bool)
    ensures
        r == (a@ == b@),
{
    let la = a.unicode_len();
    let lb = b.unicode_len();
    if la != lb {
        return false;
    }
    let mut i: usize = 0;
    while i < la
        invariant
            la == a@.len(),
            lb == b@.len(),
            la == lb,
            i <= la,
            forall|k: int| 0 <= k < i ==> a@[k] == b@[k],
        decreases la - i,
    {
        if a.get_char(i) != b.get_char(i) {
            return false;
        }
        i = i + 1;
    }
    assert(a@ =~= b@);
    true
}

/// Whether one of `v` is `s`.
pub fn contains_str(v: &Vec<String>, s: &str) -> (r: bool)
    ensures
        r == string_views(v@).contains(s@),
{
    let n = v.len();
    let mut i: usize = 0;
    while i < n
        invariant
            n == v@.len(),
            i <= n,
            forall|k: int| 0 <= k < i ==> v@[k]@ != s@,
        decreases n - i,
    {
        if str_equal(v[i].as_str(), s) {
            assert(string_views(v@)[i as int] == s@);
            return true;
        }
        i = i + 1;
    }
    assert forall|k: int| 0 <= k < string_views(v@).len() implies string_views(v@)[k] != s@ by {
        assert(string_views(v@)[k] == v@[k]@);
    }
    false
}

/// `v` with `s` added at the end.
pub fn pushed(v: &Vec<String>, s: &str) -> (r: Vec<String>)
    ensures
        string_views(r@) == string_views(v@).push(s@),
{
    let mut r: Vec<String> = Vec::new();
    let n = v.len();
    for i in 0..n
        invariant
            n == v@.len(),
            string_views(r@) == string_views(v@).take(i as int),
    {
        let ghost before = r@;
        r.push(v[i].clone());
        assert(string_views(r@) =~= string_views(before).push(v@[i as int]@));
        assert(string_views(v@).take(i + 1) =~= string_views(v@).take(i as int).push(v@[i as int]@));
    }
    let ghost before = r@;
    r.push(String::from_str(s));
    assert(string_views(v@).take(n as int) =~= string_views(v@));
    assert(string_views(r@) =~= string_views(before).push(s@));
    r
}

/// Whether `a` sorts strictly before `b`, as `String`'s order has it.
pub fn str_less(a: &str, b: &str) -> (r: bool)
    ensures
        r == seq_lt(a@, b@),
{
    let la = a.unicode_len();
    let lb = b.unicode_len();
    let mut i: usize = 0;
    assert(a@.skip(0) =~= a@);
    assert(b@.skip(0) =~= b@);
    while i < la && i < lb
        invariant
            la == a@.len(),
            lb == b@.len(),
            i <= la,
            i <= lb,
            seq_lt(a@, b@) == seq_lt(a@.skip(i as int), b@.skip(i as int)),
        decreases la - i,
    {
        let ca = a.get_char(i);
        let cb = b.get_char(i);
        if ca != cb {
            return (ca as u32) < (cb as u32);
        }
        assert(a@.skip(i as int).drop_first() =~= a@.skip(i + 1));
        assert(b@.skip(i as int).drop_first() =~= b@.skip(i + 1));
        i = i + 1;
    }
    i < lb
}

/// Neither element is above a later one.
pub open spec fn sorted_le(s: Seq<Seq<char>>) -> bool {
    forall|i: int, j: int| 0 <= i < j < s.len() ==> !seq_lt(#[trigger] s[j], #[trigger] s[i])
}

/// `q` with `x` inserted before the first element that is not below `x`.
pub open spec fn insert_sorted(x: Seq<char>, q: Seq<Seq<char>>) -> Seq<Seq<char>>
    decreases q.len(),
{
    if q.len() == 0 {
        seq![x]
    } else if seq_lt(q[0], x) {
        seq![q[0]] + insert_sorted(x, q.drop_first())
    } else {
        seq![x] + q
    }
}

/// `s` sorted into ascending order (by insertion, so that equal elements
/// keep their order).
pub open spec fn sort_seq(s: Seq<Seq<char>>) -> Seq<Seq<char>>
    decreases s.len(),
{
    if s.len() == 0 {
        s
    } else {
        insert_sorted(s.last(), sort_seq(s.drop_last()))
    }
}

/// Not below is transitive.
proof fn lemma_not_lt_transitive(a: Seq<char>, b: Seq<char>, c: Seq<char>)
    requires
        !seq_lt(b, a),
        !seq_lt(c, b),
    ensures
        !seq_lt(c, a),
{
    if seq_lt(c, a) {
        if a != b {
            lemma_seq_lt_total(a, b);
            lemma_seq_lt_transitive(c, a, b);
        }
    }
}

proof fn lemma_insert_sorted_at(x: Seq<char>, q: Seq<Seq<char>>, j: int)
    requires
        0 <= j <= q.len(),
        forall|k: int| 0 <= k < j ==> seq_lt(#[trigger] q[k], x),
        j < q.len() ==> !seq_lt(q[j], x),
    ensures
        insert_sorted(x, q) == q.insert(j, x),
    decreases q.len(),
{
    if j == 0 {
        if q.len() > 0 {
            assert(seq![x] + q =~= q.insert(0, x));
        } else {
            assert(seq![x] =~= q.insert(0, x));
        }
    } else {
        assert(seq_lt(q[0], x));
        let rest = q.drop_first();
        assert forall|k: int| 0 <= k < j - 1 implies seq_lt(#[trigger] rest[k], x) by {
            assert(rest[k] == q[k + 1]);
        }
        lemma_insert_sorted_at(x, rest, j - 1);
        assert(seq![q[0]] + rest.insert(j - 1, x) =~= q.insert(j, x));
    }
}

/// Inserting keeps every element and adds `x`.
pub proof fn lemma_insert_sorted_contains(x: Seq<char>, q: Seq<Seq<char>>)
    ensures
        insert_sorted(x, q).len() == q.len() + 1,
        forall|y: Seq<char>| #[trigger] insert_sorted(x, q).contains(y) <==> (y == x || q.contains(y)),
    decreases q.len(),
{
    if q.len() == 0 {
        assert(seq![x][0] == x);
    } else if seq_lt(q[0], x) {
        let rest = q.drop_first();
        lemma_insert_sorted_contains(x, rest);
        let r = seq![q[0]] + insert_sorted(x, rest);
        assert forall|y: Seq<char>| #[trigger] r.contains(y) <==> (y == x || q.contains(y)) by {
            if r.contains(y) {
                let k = choose|k: int| 0 <= k < r.len() && r[k] == y;
                if k > 0 {
                    assert(insert_sorted(x, rest)[k - 1] == y);
                    assert(insert_sorted(x, rest).contains(y));
                    if y != x {
                        let m = choose|m: int| 0 <= m < rest.len() && rest[m] == y;
                        assert(q[m + 1] == y);
                    }
                }
            }
            if y == x {
                assert(insert_sorted(x, rest).contains(y));
                let k = choose|k: int| 0 <= k < insert_sorted(x, rest).len() && insert_sorted(x, rest)[k] == y;
                assert(r[k + 1] == y);
            }
            if q.contains(y) {
                let m = choose|m: int| 0 <= m < q.len() && q[m] == y;
                if m == 0 {
                    assert(r[0] == y);
                } else {
                    assert(rest[m - 1] == y);
                    assert(insert_sorted(x, rest).contains(y));
                    let k = choose|k: int| 0 <= k < insert_sorted(x, rest).len() && insert_sorted(x, rest)[k] == y;
                    assert(r[k + 1] == y);
                }
            }
        }
    } else {
        let r = seq![x] + q;
        assert forall|y: Seq<char>| #[trigger] r.contains(y) <==> (y == x || q.contains(y)) by {
            if r.contains(y) {
                let k = choose|k: int| 0 <= k < r.len() && r[k] == y;
                if k > 0 {
                    assert(q[k - 1] == y);
                }
            }
            if y == x {
                assert(r[0] == y);
            }
            if q.contains(y) {
                let m = choose|m: int| 0 <= m < q.len() && q[m] == y;
                assert(r[m + 1] == y);
            }
        }
    }
}

/// Inserting into a sorted sequence keeps it sorted; inserting a new
/// element into a strictly sorted one keeps it strictly sorted.
pub proof fn lemma_insert_sorted_sorted(x: Seq<char>, q: Seq<Seq<char>>)
    requires
        sorted_le(q),
    ensures
        sorted_le(insert_sorted(x, q)),
        strictly_sorted(q) && !q.contains(x) ==> strictly_sorted(insert_sorted(x, q)),
    decreases q.len(),
{
    if q.len() == 0 {
    } else if seq_lt(q[0], x) {
        let rest = q.drop_first();
        assert(sorted_le(rest)) by {
            assert forall|i: int, j: int| 0 <= i < j < rest.len() implies !seq_lt(
                #[trigger] rest[j],
                #[trigger] rest[i],
            ) by {
                assert(rest[i] == q[i + 1] && rest[j] == q[j + 1]);
            }
        }
        lemma_insert_sorted_sorted(x, rest);
        lemma_insert_sorted_contains(x, rest);
        let t = insert_sorted(x, rest);
        let r = seq![q[0]] + t;
        assert forall|i: int, j: int| 0 <= i < j < r.len() implies !seq_lt(
            #[trigger] r[j],
            #[trigger] r[i],
        ) by {
            if i == 0 {
                assert(r[j] == t[j - 1]);
                assert(t.contains(t[j - 1]));
                if t[j - 1] == x {
                    lemma_seq_lt_asymmetric(q[0], x);
                } else {
                    let m = choose|m: int| 0 <= m < rest.len() && rest[m] == t[j - 1];
                    assert(q[m + 1] == t[j - 1]);
                }
            } else {
                assert(r[i] == t[i - 1] && r[j] == t[j - 1]);
            }
        }
        if strictly_sorted(q) && !q.contains(x) {
            assert(strictly_sorted(rest)) by {
                assert forall|i: int, j: int| 0 <= i < j < rest.len() implies seq_lt(
                    #[trigger] rest[i],
                    #[trigger] rest[j],
                ) by {
                    assert(rest[i] == q[i + 1] && rest[j] == q[j + 1]);
                }
            }
            assert(!rest.contains(x)) by {
                if rest.contains(x) {
                    let m = choose|m: int| 0 <= m < rest.len() && rest[m] == x;
                    assert(q[m + 1] == x);
                }
            }
            assert forall|i: int, j: int| 0 <= i < j < r.len() implies seq_lt(
                #[trigger] r[i],
                #[trigger] r[j],
            ) by {
                if i == 0 {
                    assert(r[j] == t[j - 1]);
                    assert(t.contains(t[j - 1]));
                    if t[j - 1] != x {
                        let m = choose|m: int| 0 <= m < rest.len() && rest[m] == t[j - 1];
                        assert(q[m + 1] == t[j - 1]);
                    }
                } else {
                    assert(r[i] == t[i - 1] && r[j] == t[j - 1]);
                }
            }
        }
    } else {
        let r = seq![x] + q;
        assert forall|i: int, j: int| 0 <= i < j < r.len() implies !seq_lt(
            #[trigger] r[j],
            #[trigger] r[i],
        ) by {
            if i == 0 {
                assert(r[j] == q[j - 1]);
                if j - 1 > 0 {
                    assert(!seq_lt(q[j - 1], q[0]));
                    lemma_not_lt_transitive(x, q[0], q[j - 1]);
                }
            } else {
                assert(r[i] == q[i - 1] && r[j] == q[j - 1]);
            }
        }
        if strictly_sorted(q) && !q.contains(x) {
            assert forall|i: int, j: int| 0 <= i < j < r.len() implies seq_lt(
                #[trigger] r[i],
                #[trigger] r[j],
            ) by {
                if i == 0 {
                    assert(r[j] == q[j - 1]);
                    if j - 1 > 0 {
                        assert(!seq_lt(q[j - 1], q[0]));
                        lemma_not_lt_transitive(x, q[0], q[j - 1]);
                    }
                    assert(!seq_lt(r[j], x));
                    assert(r[j] != x);
                    lemma_seq_lt_total(x, r[j]);
                } else {
                    assert(r[i] == q[i - 1] && r[j] == q[j - 1]);
                }
            }
        }
    }
}


/// Inserting adds `x` to the elements, counted with repeats.
pub proof fn lemma_insert_sorted_multiset(x: Seq<char>, q: Seq<Seq<char>>)
    ensures
        insert_sorted(x, q).to_multiset() == q.to_multiset().insert(x),
    decreases q.len(),
{
    if q.len() == 0 {
        assert(seq![x] =~= q.insert(0, x));
        vstd::seq_lib::to_multiset_insert(q, 0, x);
    } else if seq_lt(q[0], x) {
        let rest = q.drop_first();
        let t = insert_sorted(x, rest);
        lemma_insert_sorted_multiset(x, rest);
        assert(seq![q[0]] + t =~= t.insert(0, q[0]));
        vstd::seq_lib::to_multiset_insert(t, 0, q[0]);
        assert(q =~= rest.insert(0, q[0]));
        vstd::seq_lib::to_multiset_insert(rest, 0, q[0]);
        assert(insert_sorted(x, q).to_multiset() =~= q.to_multiset().insert(x));
    } else {
        assert(seq![x] + q =~= q.insert(0, x));
        vstd::seq_lib::to_multiset_insert(q, 0, x);
    }
}

/// Sorting keeps exactly the elements (counted with repeats), puts them in
/// ascending order, and,
/// when no element occurs twice, in strictly ascending order.
pub proof fn lemma_sort_seq(s: Seq<Seq<char>>)
    ensures
        sort_seq(s).len() == s.len(),
        forall|y: Seq<char>| #[trigger] sort_seq(s).contains(y) <==> s.contains(y),
        sort_seq(s).to_multiset() == s.to_multiset(),
        sorted_le(sort_seq(s)),
        s.no_duplicates() ==> strictly_sorted(sort_seq(s)),
    decreases s.len(),
{
    if s.len() > 0 {
        let init = s.drop_last();
        lemma_sort_seq(init);
        lemma_insert_sorted_contains(s.last(), sort_seq(init));
        lemma_insert_sorted_sorted(s.last(), sort_seq(init));
        lemma_insert_sorted_multiset(s.last(), sort_seq(init));
        assert(s =~= init.insert(init.len() as int, s.last()));
        vstd::seq_lib::to_multiset_insert(init, init.len() as int, s.last());
        assert forall|y: Seq<char>| #[trigger] sort_seq(s).contains(y) <==> s.contains(y) by {
            if init.contains(y) {
                let m = choose|m: int| 0 <= m < init.len() && init[m] == y;
                assert(s[m] == y);
            }
            if s.contains(y) && y != s.last() {
                let m = choose|m: int| 0 <= m < s.len() && s[m] == y;
                assert(init[m] == y);
            }
            if y == s.last() {
                assert(s[s.len() - 1] == y);
            }
        }
        if s.no_duplicates() {
            assert(init.no_duplicates()) by {
                assert forall|i: int, j: int| 0 <= i < init.len() && 0 <= j < init.len() && i != j
                    implies init[i] != init[j] by {
                    assert(init[i] == s[i] && init[j] == s[j]);
                }
            }
            assert(!init.contains(s.last())) by {
                if init.contains(s.last()) {
                    let m = choose|m: int| 0 <= m < init.len() && init[m] == s.last();
                    assert(s[m] == s[s.len() - 1]);
                }
            }
        }
    }
}

/// Sorts a list of names into ascending order.
pub fn sort_strings(names: &Vec<String>) -> (r: Vec<String>)
    ensures
        string_views(r@) == sort_seq(string_views(names@)),
{
    let mut out: Vec<String> = Vec::new();
    let n = names.len();
    assert(string_views(names@).take(0) =~= Seq::<Seq<char>>::empty());
    for i in 0..n
        invariant
            n == names@.len(),
            string_views(out@) == sort_seq(string_views(names@).take(i as int)),
    {
        let x = names[i].clone();
        let ghost xv = x@;
        let ghost q = string_views(out@);
        let mut j: usize = 0;
        while j < out.len() && str_less(out[j].as_str(), x.as_str())
            invariant
                j <= out@.len(),
                xv == x@,
                q == string_views(out@),
                forall|k: int| 0 <= k < j ==> seq_lt(#[trigger] q[k], xv),
            decreases out@.len() - j,
        {
            assert(q[j as int] == out@[j as int]@);
            j = j + 1;
        }
        proof {
            if j < out@.len() {
                assert(q[j as int] == out@[j as int]@);
            }
            lemma_insert_sorted_at(xv, q, j as int);
            let t = string_views(names@).take(i + 1);
            assert(t.drop_last() =~= string_views(names@).take(i as int));
            assert(t.last() == xv);
        }
        out.insert(j, x);
        assert(string_views(out@) =~= q.insert(j as int, xv));
    }
    assert(string_views(names@).take(n as int) =~= string_views(names@));
    out
}

} // verus!
