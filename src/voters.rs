//! Deduplication of voter identifiers.
use vstd::prelude::*;

verus! {

broadcast use vstd::seq_lib::group_seq_properties;

/// The contents of each string, in order.
pub open spec fn texts(v: Seq<String>) -> Seq<Seq<char>> {
    v.map_values(|s: String| s@)
}

/// Equal strings stand next to one another: whatever lies between two equal
/// strings equals them too.
pub open spec fn grouped(v: Seq<Seq<char>>) -> bool {
    forall|i: int, j: int, k: int|
        0 <= i < j < k < v.len() && #[trigger] v[i] == #[trigger] v[k] ==> #[trigger] v[j] == v[i]
}

/// Relies on `slice::sort`: the result is a permutation of the input in
/// ascending order of `String`'s total order, so strings with equal contents
/// end up adjacent.
#[verifier::external_body]
fn sort_strings(v: &mut Vec<String>)
    ensures
        texts(final(v)@).to_multiset() == texts(old(v)@).to_multiset(),
        grouped(texts(final(v)@)),
{
    v.sort();
}

/// Every distinct string of `v`, each once.
pub fn distinct(v: Vec<String>) -> (r: Vec<String>)
    ensures
        texts(r@).no_duplicates(),
        texts(r@).to_set() == texts(v@).to_set(),
{
    let mut s = v;
    sort_strings(&mut s);
    let ghost t = texts(s@);
    proof {
        assert(t.to_set() == texts(v@).to_set()) by {
            assert forall|x: Seq<char>| t.contains(x) <==> texts(v@).contains(x) by {
                assert(t.to_multiset().count(x) == texts(v@).to_multiset().count(x));
            }
            assert(t.to_set() =~= texts(v@).to_set());
        }
    }
    let mut r: Vec<String> = Vec::new();
    let mut i: usize = 0;
    while i < s.len()
        invariant
            i <= s.len(),
            t == texts(s@),
            grouped(t),
            texts(r@).no_duplicates(),
            texts(r@).to_set() == t.take(i as int).to_set(),
            i > 0 ==> r.len() > 0 && r@.last()@ == t[i - 1],
            i == 0 ==> r.len() == 0,
        decreases s.len() - i,
    {
        assert(t.take(i + 1) == t.take(i as int).push(t[i as int]));
        if r.len() == 0 || r[r.len() - 1] != s[i] {
            proof {
                assert(t[i as int] == s@[i as int]@);
                if i > 0 {
                    assert(r@.last()@ != s@[i as int]@);
                }
                assert forall|k: int| 0 <= k < r.len() implies texts(r@)[k] != t[i as int] by {
                    if texts(r@)[k] == t[i as int] {
                        assert(texts(r@).to_set().contains(texts(r@)[k]));
                        let j = choose|j: int| 0 <= j < i && t.take(i as int)[j] == t[i as int];
                        assert(t[j] == t[i as int]);
                        assert(t[i - 1] == t[j]);
                    }
                }
                assert(texts(r@.push(s@[i as int])) =~= texts(r@).push(t[i as int]));
                assert(texts(r@).push(t[i as int]).to_set() =~= texts(r@).to_set().insert(t[i as int]));
                assert(t.take(i as int).push(t[i as int]).to_set() =~= t.take(i as int).to_set().insert(t[i as int]));
            }
            r.push(s[i].clone());
        } else {
            proof {
                assert(t.take(i as int)[i - 1] == t[i - 1]);
                assert(t.take(i as int).contains(t[i as int]));
                assert(t.take(i as int).push(t[i as int]).to_set() =~= t.take(i as int).to_set());
            }
        }
        i = i + 1;
    }
    assert(t.take(s.len() as int) =~= t);
    r
}

} // verus!
