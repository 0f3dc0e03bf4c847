//! Identifier strings: equality, lexicographic order and membership.
use vstd::prelude::*;

verus! {

/// Lexicographic order on character sequences, by code point, as the
/// document store orders string keys.
pub open spec fn lex_lt(a: Seq<char>, b: Seq<char>) -> bool
    decreases a.len(),
{
    if b.len() == 0 {
        false
    } else if a.len() == 0 {
        true
    } else if (a[0] as int) < (b[0] as int) {
        true
    } else if a[0] == b[0] {
        lex_lt(a.drop_first(), b.drop_first())
    } else {
        false
    }
}

/// The characters with the Unicode White_Space property.
pub open spec fn is_white_space(c: char) -> bool {
    let n = c as int;
    ||| 0x9 <= n <= 0xD
    ||| n == 0x20
    ||| n == 0x85
    ||| n == 0xA0
    ||| n == 0x1680
    ||| 0x2000 <= n <= 0x200A
    ||| n == 0x2028
    ||| n == 0x2029
    ||| n == 0x202F
    ||| n == 0x205F
    ||| n == 0x3000
}

/// The identifiers held by a list of strings.
pub open spec fn ids_of(v: Seq<String>) -> Seq<Seq<char>> {
    v.map_values(|s: String| s@)
}

/// Whether two identifiers are the same text.
pub fn id_eq(a: &str, b: &str) -> (r: bool)
    ensures
        r == (a@ == b@),
{
    let n = a.unicode_len();
    let m = b.unicode_len();
    if n != m {
        return false;
    }
    let mut i: usize = 0;
    while i < n
        invariant
            n == a@.len(),
            m == b@.len(),
            n == m,
            i <= n,
            a@.subrange(0, i as int) == b@.subrange(0, i as int),
        decreases n - i,
    {
        if a.get_char(i) != b.get_char(i) {
            assert(a@[i as int] != b@[i as int]);
            return false;
        }
        assert(a@.subrange(0, i + 1) == a@.subrange(0, i as int).push(a@[i as int]));
        assert(b@.subrange(0, i + 1) == b@.subrange(0, i as int).push(b@[i as int]));
        i = i + 1;
    }
    assert(a@ == a@.subrange(0, n as int));
    assert(b@ == b@.subrange(0, n as int));
    true
}

proof fn lemma_lex_lt_common_prefix(a: Seq<char>, b: Seq<char>, i: int)
    requires
        0 <= i <= a.len(),
        i <= b.len(),
        a.subrange(0, i) == b.subrange(0, i),
    ensures
        lex_lt(a, b) == lex_lt(a.subrange(i, a.len() as int), b.subrange(i, b.len() as int)),
    decreases i,
{
    if i > 0 {
        assert(a[0] == a.subrange(0, i)[0]);
        assert(b[0] == b.subrange(0, i)[0]);
        assert(a.drop_first().subrange(0, i - 1) == a.subrange(0, i).drop_first());
        assert(b.drop_first().subrange(0, i - 1) == b.subrange(0, i).drop_first());
        lemma_lex_lt_common_prefix(a.drop_first(), b.drop_first(), i - 1);
        assert(a.drop_first().subrange(i - 1, a.len() - 1) == a.subrange(i, a.len() as int));
        assert(b.drop_first().subrange(i - 1, b.len() - 1) == b.subrange(i, b.len() as int));
    } else {
        assert(a.subrange(0, a.len() as int) == a);
        assert(b.subrange(0, b.len() as int) == b);
    }
}

/// Whether identifier `a` sorts strictly before identifier `b`.
pub fn id_lt(a: &str, b: &str) -> (r: bool)
    ensures
        r == lex_lt(a@, b@),
{
    let n = a.unicode_len();
    let m = b.unicode_len();
    let mut i: usize = 0;
    while i < n && i < m
        invariant
            n == a@.len(),
            m == b@.len(),
            i <= n,
            i <= m,
            a@.subrange(0, i as int) == b@.subrange(0, i as int),
        decreases n - i,
    {
        let x = a.get_char(i);
        let y = b.get_char(i);
        if x != y {
            proof {
                lemma_lex_lt_common_prefix(a@, b@, i as int);
                let ra = a@.subrange(i as int, n as int);
                let rb = b@.subrange(i as int, m as int);
                assert(ra[0] == x);
                assert(rb[0] == y);
            }
            return (x as u32) < (y as u32);
        }
        assert(a@.subrange(0, i + 1) == a@.subrange(0, i as int).push(a@[i as int]));
        assert(b@.subrange(0, i + 1) == b@.subrange(0, i as int).push(b@[i as int]));
        i = i + 1;
    }
    proof {
        lemma_lex_lt_common_prefix(a@, b@, i as int);
    }
    i < m
}

/// Whether the list holds the identifier.
pub fn contains_id(v: &Vec<String>, id: &str) -> (r: bool)
    ensures
        r == ids_of(v@).contains(id@),
{
    let mut i: usize = 0;
    while i < v.len()
        invariant
            i <= v.len(),
            forall|j: int| 0 <= j < i ==> v@[j]@ != id@,
        decreases v.len() - i,
    {
        if id_eq(v[i].as_str(), id) {
            assert(ids_of(v@)[i as int] == id@);
            return true;
        }
        i = i + 1;
    }
    assert(!ids_of(v@).contains(id@)) by {
        if ids_of(v@).contains(id@) {
            let k = choose|k: int| 0 <= k < ids_of(v@).len() && ids_of(v@)[k] == id@;
            assert(v@[k]@ == id@);
        }
    }
    false
}

/// The identifiers held by a list of strings, as a set.
pub open spec fn id_set(v: Seq<String>) -> Set<Seq<char>> {
    Set::new(|x: Seq<char>| exists|i: int| 0 <= i < v.len() && #[trigger] v[i]@ == x)
}

/// No identifier appears twice in the list.
pub open spec fn distinct_ids(v: Seq<String>) -> bool {
    forall|i: int, j: int| 0 <= i < v.len() && 0 <= j < v.len() && i != j ==> v[i]@ != v[j]@
}

/// The list without any entry equal to `id`, the rest kept in order.
pub fn without_id(v: &Vec<String>, id: &str) -> (r: Vec<String>)
    ensures
        id_set(r@) == id_set(v@).remove(id@),
        distinct_ids(v@) ==> distinct_ids(r@),
{
    let mut out: Vec<String> = Vec::new();
    let mut i: usize = 0;
    while i < v.len()
        invariant
            i <= v.len(),
            id_set(out@) == id_set(v@.subrange(0, i as int)).remove(id@),
            forall|a: int| #![trigger out@[a]] 0 <= a < out.len() ==> exists|b: int| #![trigger v@[b]] 0 <= b < i && out@[a] == v@[b],
            distinct_ids(v@) ==> distinct_ids(out@),
        decreases v.len() - i,
    {
        let ghost prev = out@;
        assert(v@.subrange(0, i + 1) =~= v@.subrange(0, i as int).push(v@[i as int]));
        if !id_eq(v[i].as_str(), id) {
            let s = v[i].clone();
            out.push(s);
            proof {
                assert(out@ =~= prev.push(v@[i as int]));
                let ghost pre = v@.subrange(0, i as int);
                let ghost pre1 = v@.subrange(0, i + 1);
                assert(pre1[i as int] == v@[i as int]);
                assert(v@[i as int]@ != id@);
                assert forall|x: Seq<char>| id_set(out@).contains(x) == id_set(pre1).remove(id@).contains(x) by {
                    if id_set(out@).contains(x) {
                        let b = choose|b: int| 0 <= b < out@.len() && #[trigger] out@[b]@ == x;
                        if b < prev.len() {
                            assert(out@[b] == prev[b]);
                            assert(id_set(prev).contains(x));
                            let c = choose|c: int| 0 <= c < pre.len() && #[trigger] pre[c]@ == x;
                            assert(pre1[c] == pre[c]);
                        } else {
                            assert(out@[b] == v@[i as int]);
                        }
                        assert(id_set(pre1).contains(x));
                    }
                    if id_set(pre1).remove(id@).contains(x) {
                        let c = choose|c: int| 0 <= c < pre1.len() && #[trigger] pre1[c]@ == x;
                        if c < i {
                            assert(pre1[c] == pre[c]);
                            assert(id_set(pre).contains(x));
                            assert(id_set(prev).contains(x));
                            let b = choose|b: int| 0 <= b < prev.len() && #[trigger] prev[b]@ == x;
                            assert(out@[b] == prev[b]);
                        } else {
                            assert(out@[prev.len() as int] == v@[i as int]);
                        }
                    }
                }
                assert(id_set(out@) =~= id_set(pre1).remove(id@));
                assert forall|a: int| #![trigger out@[a]] 0 <= a < out.len() implies exists|b: int| #![trigger v@[b]] 0 <= b < i + 1 && out@[a] == v@[b] by {
                    if a < prev.len() {
                        assert(out@[a] == prev[a]);
                    } else {
                        assert(out@[a] == v@[i as int]);
                    }
                }
                if distinct_ids(v@) {
                    assert forall|a: int, b: int| 0 <= a < out.len() && 0 <= b < out.len() && a != b implies out@[a]@ != out@[b]@ by {
                        if a < prev.len() && b < prev.len() {
                            assert(out@[a] == prev[a] && out@[b] == prev[b]);
                        } else if a < prev.len() {
                            assert(out@[a] == prev[a]);
                            let k = choose|k: int| #![trigger v@[k]] 0 <= k < i && prev[a] == v@[k];
                        } else {
                            assert(out@[b] == prev[b]);
                            let k = choose|k: int| #![trigger v@[k]] 0 <= k < i && prev[b] == v@[k];
                        }
                    }
                }
            }
        } else {
            proof {
                assert(id_set(out@) =~= id_set(v@.subrange(0, i + 1)).remove(id@)) by {
                    assert forall|x: Seq<char>| id_set(v@.subrange(0, i + 1)).contains(x) && x != id@ implies id_set(v@.subrange(0, i as int)).contains(x) by {
                        let b = choose|b: int| 0 <= b < i + 1 && #[trigger] v@.subrange(0, i + 1)[b]@ == x;
                        assert(v@.subrange(0, i as int)[b] == v@.subrange(0, i + 1)[b]);
                    }
                    assert forall|x: Seq<char>| id_set(v@.subrange(0, i as int)).contains(x) implies id_set(v@.subrange(0, i + 1)).contains(x) by {
                        let b = choose|b: int| 0 <= b < i && #[trigger] v@.subrange(0, i as int)[b]@ == x;
                        assert(v@.subrange(0, i as int)[b] == v@.subrange(0, i + 1)[b]);
                    }
                }
            }
        }
        i = i + 1;
    }
    assert(v@.subrange(0, i as int) == v@);
    out
}

/// Growing a prefix of the list by one entry adds that entry's identifier.
pub proof fn lemma_id_set_prefix(v: Seq<String>, i: int)
    requires
        0 <= i < v.len(),
    ensures
        id_set(v.subrange(0, i + 1)) == id_set(v.subrange(0, i)).insert(v[i]@),
{
    let a = v.subrange(0, i);
    let b = v.subrange(0, i + 1);
    assert forall|x: Seq<char>| id_set(b).contains(x) implies id_set(a).insert(v[i]@).contains(x) by {
        let k = choose|k: int| 0 <= k < b.len() && #[trigger] b[k]@ == x;
        if k < i {
            assert(a[k] == b[k]);
        }
    }
    assert forall|x: Seq<char>| id_set(a).insert(v[i]@).contains(x) implies id_set(b).contains(x) by {
        if x == v[i]@ {
            assert(b[i] == v[i]);
        } else {
            let k = choose|k: int| 0 <= k < a.len() && #[trigger] a[k]@ == x;
            assert(a[k] == b[k]);
        }
    }
    assert(id_set(b) =~= id_set(a).insert(v[i]@));
}

/// The whole list is its longest prefix.
pub proof fn lemma_id_set_full(v: Seq<String>)
    ensures
        id_set(v.subrange(0, v.len() as int)) == id_set(v),
        id_set(v.subrange(0, 0)) == Set::<Seq<char>>::empty(),
{
    assert(v.subrange(0, v.len() as int) == v);
    assert(id_set(v.subrange(0, 0)) =~= Set::<Seq<char>>::empty());
}

/// Membership in the list of identifiers and in their set agree.
pub proof fn lemma_ids_of_contains(v: Seq<String>, x: Seq<char>)
    ensures
        ids_of(v).contains(x) == id_set(v).contains(x),
{
    if ids_of(v).contains(x) {
        let k = choose|k: int| 0 <= k < ids_of(v).len() && ids_of(v)[k] == x;
        assert(v[k]@ == x);
    }
    if id_set(v).contains(x) {
        let k = choose|k: int| 0 <= k < v.len() && #[trigger] v[k]@ == x;
        assert(ids_of(v)[k] == x);
    }
}

/// No sequence sorts before itself.
pub proof fn lemma_lex_irreflexive(a: Seq<char>)
    ensures
        !lex_lt(a, a),
    decreases a.len(),
{
    if a.len() > 0 {
        lemma_lex_irreflexive(a.drop_first());
    }
}

/// The order is transitive.
pub proof fn lemma_lex_transitive(a: Seq<char>, b: Seq<char>, c: Seq<char>)
    requires
        lex_lt(a, b),
        lex_lt(b, c),
    ensures
        lex_lt(a, c),
    decreases a.len(),
{
    if a.len() > 0 && b.len() > 0 && c.len() > 0 && a[0] == b[0] && b[0] == c[0] {
        lemma_lex_transitive(a.drop_first(), b.drop_first(), c.drop_first());
    }
}

/// Two different sequences are ordered one way or the other.
pub proof fn lemma_lex_total(a: Seq<char>, b: Seq<char>)
    requires
        a != b,
    ensures
        lex_lt(a, b) || lex_lt(b, a),
    decreases a.len(),
{
    if a.len() > 0 && b.len() > 0 {
        if a[0] == b[0] {
            if a.drop_first() == b.drop_first() {
                assert(a =~= seq![a[0]] + a.drop_first());
                assert(b =~= seq![b[0]] + b.drop_first());
            }
            lemma_lex_total(a.drop_first(), b.drop_first());
        } else {
            assert((a[0] as int) != (b[0] as int));
        }
    } else if a.len() == 0 && b.len() == 0 {
        assert(a =~= b);
    }
}

/// Appending an identifier the list does not hold adds it to the list's set
/// of identifiers and keeps the identifiers distinct.
pub proof fn lemma_push_fresh_id(prev: Seq<String>, s: String)
    requires
        !id_set(prev).contains(s@),
    ensures
        id_set(prev.push(s)) == id_set(prev).insert(s@),
        distinct_ids(prev) ==> distinct_ids(prev.push(s)),
{
    let next = prev.push(s);
    assert forall|y: Seq<char>| id_set(next).contains(y) == id_set(prev).insert(s@).contains(y) by {
        if id_set(next).contains(y) {
            let k = choose|k: int| 0 <= k < next.len() && #[trigger] next[k]@ == y;
            if k < prev.len() {
                assert(next[k] == prev[k]);
            }
        }
        if id_set(prev).contains(y) {
            let k = choose|k: int| 0 <= k < prev.len() && #[trigger] prev[k]@ == y;
            assert(next[k] == prev[k]);
        }
        if y == s@ {
            assert(next[prev.len() as int]@ == y);
        }
    }
    assert(id_set(next) =~= id_set(prev).insert(s@));
    if distinct_ids(prev) {
        assert forall|a: int, b: int| 0 <= a < next.len() && 0 <= b < next.len() && a != b implies next[a]@ != next[b]@ by {
            if a < prev.len() && b < prev.len() {
                assert(next[a] == prev[a] && next[b] == prev[b]);
            } else if a < prev.len() {
                assert(next[a] == prev[a]);
                assert(id_set(prev).contains(prev[a]@));
            } else {
                assert(next[b] == prev[b]);
                assert(id_set(prev).contains(prev[b]@));
            }
        }
    }
}

/// The elements of a sequence of identifiers, as a set.
pub open spec fn seq_set(s: Seq<Seq<char>>) -> Set<Seq<char>> {
    Set::new(|x: Seq<char>| s.contains(x))
}

/// The identifiers of a list as a set are the set of its identifiers, and
/// the list has distinct identifiers exactly when that sequence has no
/// duplicates.
pub proof fn lemma_ids_model(v: Seq<String>)
    ensures
        id_set(v) == seq_set(ids_of(v)),
        ids_of(v).len() == v.len(),
        distinct_ids(v) == ids_of(v).no_duplicates(),
{
    assert forall|x: Seq<char>| id_set(v).contains(x) == seq_set(ids_of(v)).contains(x) by {
        lemma_ids_of_contains(v, x);
    }
    assert(id_set(v) =~= seq_set(ids_of(v)));
    assert forall|i: int| 0 <= i < v.len() implies ids_of(v)[i] == v[i]@ by {}
    if distinct_ids(v) {
        assert forall|i: int, j: int| 0 <= i < ids_of(v).len() && 0 <= j < ids_of(v).len() && i != j implies ids_of(v)[i] != ids_of(v)[j] by {
            assert(ids_of(v)[i] == v[i]@ && ids_of(v)[j] == v[j]@);
        }
    }
    if ids_of(v).no_duplicates() {
        assert forall|i: int, j: int| 0 <= i < v.len() && 0 <= j < v.len() && i != j implies v[i]@ != v[j]@ by {
            assert(ids_of(v)[i] == v[i]@ && ids_of(v)[j] == v[j]@);
        }
    }
}

} // verus!
