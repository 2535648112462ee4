use vstd::prelude::*;

verus! {

/// Lexicographic order on key sequences: a proper prefix comes first.
pub open spec fn lex_lt(a: Seq<u64>, b: Seq<u64>) -> bool
    decreases a.len(),
{
    if a.len() == 0 {
        b.len() > 0
    } else if b.len() == 0 {
        false
    } else if a[0] != b[0] {
        a[0] < b[0]
    } else {
        lex_lt(a.drop_first(), b.drop_first())
    }
}

/// No key comes before itself.
pub proof fn lemma_lex_irreflexive(a: Seq<u64>)
    ensures
        !lex_lt(a, a),
    decreases a.len(),
{
    if a.len() > 0 {
        lemma_lex_irreflexive(a.drop_first());
    }
}

/// The key order is transitive.
pub proof fn lemma_lex_transitive(a: Seq<u64>, b: Seq<u64>, c: Seq<u64>)
    requires
        lex_lt(a, b),
        lex_lt(b, c),
    ensures
        lex_lt(a, c),
    decreases a.len(),
{
    if a.len() > 0 && b.len() > 0 && c.len() > 0 && a[0] == b[0] && b[0] == c[0] {
        lemma_lex_transitive(a.drop_first(), b.drop_first(), c.drop_first());
    }
}

/// Of two different keys, one comes first.
pub proof fn lemma_lex_total(a: Seq<u64>, b: Seq<u64>)
    requires
        a != b,
    ensures
        lex_lt(a, b) || lex_lt(b, a),
    decreases a.len(),
{
    if a.len() == 0 && b.len() == 0 {
        assert(a =~= b);
    }
    if a.len() > 0 && b.len() > 0 && a[0] == b[0] {
        if a.drop_first() == b.drop_first() {
            assert(a.drop_first().len() == a.len() - 1);
            assert(b.drop_first().len() == b.len() - 1);
            assert forall|i: int| 0 <= i < a.len() implies a[i] == b[i] by {
                if i > 0 {
                    assert(a[i] == a.drop_first()[i - 1]);
                    assert(b[i] == b.drop_first()[i - 1]);
                }
            }
            assert(a =~= b);
        } else {
            lemma_lex_total(a.drop_first(), b.drop_first());
        }
    }
}

/// Whether the entry at index `i` goes before the one at index `j`: by key,
/// and between equal keys by index, so that the order is total and strict.
pub open spec fn goes_before(keys: Seq<Seq<u64>>, i: usize, j: usize) -> bool {
    lex_lt(keys[i as int], keys[j as int]) || (keys[i as int] == keys[j as int] && i < j)
}

/// `s` lists indices in strictly ascending order of `goes_before`.
pub open spec fn sorted_by(keys: Seq<Seq<u64>>, s: Seq<usize>) -> bool {
    forall|a: int, b: int| 0 <= a < b < s.len() ==> goes_before(keys, #[trigger] s[a], #[trigger] s[b])
}

/// No index goes before itself.
pub proof fn lemma_before_irreflexive(keys: Seq<Seq<u64>>, i: usize)
    ensures
        !goes_before(keys, i, i),
{
    lemma_lex_irreflexive(keys[i as int]);
}

/// The index order is transitive.
pub proof fn lemma_before_transitive(keys: Seq<Seq<u64>>, i: usize, j: usize, k: usize)
    requires
        goes_before(keys, i, j),
        goes_before(keys, j, k),
    ensures
        goes_before(keys, i, k),
{
    if lex_lt(keys[i as int], keys[j as int]) && lex_lt(keys[j as int], keys[k as int]) {
        lemma_lex_transitive(keys[i as int], keys[j as int], keys[k as int]);
    }
}

/// Of two different indices, one goes first.
pub proof fn lemma_before_total(keys: Seq<Seq<u64>>, i: usize, j: usize)
    requires
        i != j,
    ensures
        goes_before(keys, i, j) || goes_before(keys, j, i),
{
    if keys[i as int] != keys[j as int] {
        lemma_lex_total(keys[i as int], keys[j as int]);
    }
}

/// Two indices never go before each other.
pub proof fn lemma_before_asymmetric(keys: Seq<Seq<u64>>, i: usize, j: usize)
    requires
        goes_before(keys, i, j),
    ensures
        !goes_before(keys, j, i),
{
    if goes_before(keys, j, i) {
        lemma_before_transitive(keys, i, j, i);
        lemma_before_irreflexive(keys, i);
    }
}

/// Two strictly sorted lists of the same indices are the same list.
pub proof fn lemma_sorted_unique(keys: Seq<Seq<u64>>, s: Seq<usize>, t: Seq<usize>)
    requires
        sorted_by(keys, s),
        sorted_by(keys, t),
        forall|x: usize| s.contains(x) <==> t.contains(x),
    ensures
        s == t,
    decreases s.len(),
{
    if s.len() == 0 {
        if t.len() > 0 {
            assert(t.contains(t[0]));
        }
        assert(s =~= t);
    } else {
        assert(s.contains(s[0]));
        assert(t.len() > 0);
        assert(t.contains(t[0]));
        let k = choose|k: int| 0 <= k < s.len() && s[k] == t[0];
        let m = choose|m: int| 0 <= m < t.len() && t[m] == s[0];
        if k > 0 && m > 0 {
            assert(goes_before(keys, s[0], s[k]));
            assert(goes_before(keys, t[0], t[m]));
            lemma_before_asymmetric(keys, s[0], t[0]);
        }
        if k > 0 && m == 0 {
            assert(goes_before(keys, s[0], s[k]));
            lemma_before_irreflexive(keys, s[0]);
        }
        if k == 0 && m > 0 {
            assert(goes_before(keys, t[0], t[m]));
            lemma_before_irreflexive(keys, t[0]);
        }
        assert(s[0] == t[0]);
        let s1 = s.drop_first();
        let t1 = t.drop_first();
        assert forall|x: usize| s1.contains(x) implies t1.contains(x) by {
            let a = choose|a: int| 0 <= a < s1.len() && s1[a] == x;
            assert(s[a + 1] == x);
            assert(goes_before(keys, s[0], s[a + 1]));
            lemma_before_irreflexive(keys, x);
            assert(t.contains(x));
            let b = choose|b: int| 0 <= b < t.len() && t[b] == x;
            assert(b != 0);
            assert(t1[b - 1] == x);
        }
        assert forall|x: usize| t1.contains(x) implies s1.contains(x) by {
            let a = choose|a: int| 0 <= a < t1.len() && t1[a] == x;
            assert(t[a + 1] == x);
            assert(goes_before(keys, t[0], t[a + 1]));
            lemma_before_irreflexive(keys, x);
            assert(s.contains(x));
            let b = choose|b: int| 0 <= b < s.len() && s[b] == x;
            assert(b != 0);
            assert(s1[b - 1] == x);
        }
        assert(sorted_by(keys, s1)) by {
            assert forall|a: int, b: int| 0 <= a < b < s1.len() implies goes_before(
                keys,
                #[trigger] s1[a],
                #[trigger] s1[b],
            ) by {
                assert(s1[a] == s[a + 1] && s1[b] == s[b + 1]);
            }
        }
        assert(sorted_by(keys, t1)) by {
            assert forall|a: int, b: int| 0 <= a < b < t1.len() implies goes_before(
                keys,
                #[trigger] t1[a],
                #[trigger] t1[b],
            ) by {
                assert(t1[a] == t[a + 1] && t1[b] == t[b + 1]);
            }
        }
        lemma_sorted_unique(keys, s1, t1);
        assert forall|i: int| 0 <= i < s.len() implies s[i] == t[i] by {
            if i > 0 {
                assert(s[i] == s1[i - 1]);
                assert(t[i] == t1[i - 1]);
            }
        }
        assert(s =~= t);
    }
}

/// Whether key `a` comes before key `b`.
pub fn lex_less(a: &Vec<u64>, b: &Vec<u64>) -> (r: bool)
    ensures
        r == lex_lt(a@, b@),
{
    assert(a@.skip(0) =~= a@);
    assert(b@.skip(0) =~= b@);
    let mut i: usize = 0;
    while i < a.len() && i < b.len()
        invariant
            i <= a@.len(),
            i <= b@.len(),
            lex_lt(a@, b@) == lex_lt(a@.skip(i as int), b@.skip(i as int)),
        decreases a.len() - i,
    {
        if a[i] != b[i] {
            return a[i] < b[i];
        }
        assert(a@.skip(i as int).drop_first() =~= a@.skip(i + 1));
        assert(b@.skip(i as int).drop_first() =~= b@.skip(i + 1));
        i = i + 1;
    }
    i < b.len()
}

/// Whether index `i` goes before index `j` under `keys`.
fn before(keys: &Vec<Vec<u64>>, i: usize, j: usize) -> (r: bool)
    requires
        i < keys@.len(),
        j < keys@.len(),
    ensures
        r == goes_before(keys_view(keys@), i, j),
{
    if lex_less(&keys[i], &keys[j]) {
        true
    } else if lex_less(&keys[j], &keys[i]) {
        false
    } else {
        proof {
            if keys@[i as int]@ != keys@[j as int]@ {
                lemma_lex_total(keys@[i as int]@, keys@[j as int]@);
            }
        }
        i < j
    }
}

/// The keys as plain sequences.
pub open spec fn keys_view(keys: Seq<Vec<u64>>) -> Seq<Seq<u64>> {
    keys.map_values(|k: Vec<u64>| k@)
}

/// The indices of `ids` in ascending order of their keys, equal keys in
/// ascending order of index.
pub fn sort_by_keys(keys: &Vec<Vec<u64>>, ids: &Vec<usize>) -> (r: Vec<usize>)
    requires
        ids@.no_duplicates(),
        forall|a: int| 0 <= a < ids@.len() ==> #[trigger] ids@[a] < keys@.len(),
    ensures
        sorted_by(keys_view(keys@), r@),
        forall|x: usize| r@.contains(x) <==> ids@.contains(x),
        forall|a: int| 0 <= a < r@.len() ==> #[trigger] r@[a] < keys@.len(),
{
    let ghost kv = keys_view(keys@);
    let mut out: Vec<usize> = Vec::new();
    let mut i: usize = 0;
    while i < ids.len()
        invariant
            i <= ids@.len(),
            kv == keys_view(keys@),
            ids@.no_duplicates(),
            forall|a: int| 0 <= a < ids@.len() ==> #[trigger] ids@[a] < keys@.len(),
            sorted_by(kv, out@),
            forall|x: usize| out@.contains(x) <==> ids@.take(i as int).contains(x),
            forall|a: int| 0 <= a < out@.len() ==> #[trigger] out@[a] < keys@.len(),
        decreases ids.len() - i,
    {
        let x = ids[i];
        assert(!out@.contains(x)) by {
            if out@.contains(x) {
                let a = choose|a: int| 0 <= a < i && ids@.take(i as int)[a] == x;
                assert(ids@[a] == ids@[i as int]);
            }
        }
        let mut p: usize = 0;
        while p < out.len()
            invariant
                p <= out@.len(),
                kv == keys_view(keys@),
                x < keys@.len(),
                forall|a: int| 0 <= a < out@.len() ==> #[trigger] out@[a] < keys@.len(),
                forall|a: int| 0 <= a < p ==> !goes_before(kv, x, #[trigger] out@[a]),
            ensures
                p <= out@.len(),
                forall|a: int| 0 <= a < p ==> !goes_before(kv, x, #[trigger] out@[a]),
                p == out@.len() || goes_before(kv, x, out@[p as int]),
            decreases out.len() - p,
        {
            if before(keys, x, out[p]) {
                break;
            }
            p = p + 1;
        }
        let ghost old_out = out@;
        let ghost prefix = ids@.take(i as int);
        assert(forall|y: usize| old_out.contains(y) <==> prefix.contains(y));
        out.insert(p, x);
        proof {
            old_out.insert_ensures(p as int, x);
            assert forall|a: int, b: int| 0 <= a < b < out@.len() implies goes_before(
                kv,
                #[trigger] out@[a],
                #[trigger] out@[b],
            ) by {
                if b < p {
                } else if a < p && b == p {
                    assert(old_out.contains(old_out[a]));
                    assert(!goes_before(kv, x, old_out[a]));
                    lemma_before_total(kv, x, old_out[a]);
                } else if a < p && b > p {
                    assert(out@[b] == old_out[b - 1]);
                } else if a == p {
                    assert(out@[b] == old_out[b - 1]);
                    if b - 1 > p {
                        assert(goes_before(kv, old_out[p as int], old_out[b - 1]));
                        lemma_before_transitive(kv, x, old_out[p as int], old_out[b - 1]);
                    }
                } else {
                    assert(out@[a] == old_out[a - 1]);
                    assert(out@[b] == old_out[b - 1]);
                }
            }
            assert forall|y: usize| out@.contains(y) <==> ids@.take(i + 1).contains(y) by {
                let next = ids@.take(i + 1);
                assert(next =~= prefix.push(x));
                if out@.contains(y) {
                    let a = choose|a: int| 0 <= a < out@.len() && out@[a] == y;
                    if a < p {
                        assert(out@[a] == old_out.insert(p as int, x)[a]);
                        assert(old_out.contains(y));
                        let c = choose|c: int| 0 <= c < prefix.len() && prefix[c] == y;
                        assert(next[c] == y);
                    } else if a > p {
                        assert(old_out[a - 1] == y);
                        assert(old_out.contains(y));
                        let c = choose|c: int| 0 <= c < prefix.len() && prefix[c] == y;
                        assert(next[c] == y);
                    } else {
                        assert(next[i as int] == y);
                    }
                    assert(next.contains(y));
                }
                if next.contains(y) {
                    let c = choose|c: int| 0 <= c < next.len() && next[c] == y;
                    if c < i {
                        assert(prefix[c] == y);
                        assert(prefix.contains(y));
                        assert(old_out.contains(y));
                        let a = choose|a: int| 0 <= a < old_out.len() && old_out[a] == y;
                        if a < p {
                            assert(out@[a] == old_out.insert(p as int, x)[a]);
                        } else {
                            assert(out@[a + 1] == y);
                        }
                    } else {
                        assert(out@[p as int] == x);
                    }
                    assert(out@.contains(y));
                }
            }
            assert forall|a: int| 0 <= a < out@.len() implies #[trigger] out@[a] < keys@.len() by {
                if a > p {
                    assert(out@[a] == old_out[a - 1]);
                }
            }
        }
        i = i + 1;
    }
    assert(ids@.take(ids@.len() as int) =~= ids@);
    out
}

} // verus!
