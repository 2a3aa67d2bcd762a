//! Sorting by a byte-string key, as names are sorted for listing.
use vstd::prelude::*;
use crate::bytes::{compare_bytes, lemma_lex_total, lemma_lex_transitive, lex_lt, utf8, Order};
use crate::network::NetworkRecord;

verus! {

/// Something listed in the order of a byte-string key.
pub trait SortKey {
    /// The key.
    spec fn sort_key(&self) -> Seq<u8>;

    /// The key's bytes.
    fn key_bytes(&self) -> (r: &[u8])
        ensures
            r@ == self.sort_key(),
    ;
}

impl SortKey for Vec<u8> {
    open spec fn sort_key(&self) -> Seq<u8> {
        self@
    }

    fn key_bytes(&self) -> (r: &[u8]) {
        self.as_slice()
    }
}

impl SortKey for NetworkRecord {
    /// Records are listed by name.
    open spec fn sort_key(&self) -> Seq<u8> {
        utf8(self.name@)
    }

    fn key_bytes(&self) -> (r: &[u8]) {
        self.name.as_str().as_bytes()
    }
}

/// The keys of a list, in order.
pub open spec fn keys_of<T: SortKey>(s: Seq<T>) -> Seq<Seq<u8>> {
    s.map_values(|x: T| x.sort_key())
}

/// No key comes before the one in front of it.
pub open spec fn keys_ascending(k: Seq<Seq<u8>>) -> bool {
    forall|i: int, j: int| 0 <= i < j < k.len() ==> !lex_lt(#[trigger] k[j], #[trigger] k[i])
}

proof fn lemma_insert_ascending(k: Seq<Seq<u8>>, x: Seq<u8>, p: int)
    requires
        keys_ascending(k),
        0 <= p <= k.len(),
        forall|m: int| 0 <= m < p ==> !lex_lt(x, #[trigger] k[m]),
        p < k.len() ==> lex_lt(x, k[p]),
    ensures
        keys_ascending(k.insert(p, x)),
{
    let r = k.insert(p, x);
    assert forall|i: int, j: int| 0 <= i < j < r.len() implies !lex_lt(#[trigger] r[j], #[trigger] r[i]) by {
        if i < p && j < p {
            assert(r[i] == k[i] && r[j] == k[j]);
        } else if i < p && j == p {
            assert(r[i] == k[i]);
        } else if i < p {
            assert(r[i] == k[i] && r[j] == k[j - 1]);
        } else if i == p {
            assert(r[j] == k[j - 1]);
            lemma_lex_total(k[p], k[j - 1]);
            if j - 1 > p {
                assert(!lex_lt(k[j - 1], k[p]));
                if lex_lt(k[j - 1], x) {
                    if k[p] == k[j - 1] {
                        lemma_lex_total(x, k[p]);
                    } else {
                        lemma_lex_transitive(k[p], k[j - 1], x);
                        lemma_lex_total(x, k[p]);
                    }
                }
            } else {
                lemma_lex_total(x, k[p]);
            }
        } else {
            assert(r[i] == k[i - 1] && r[j] == k[j - 1]);
        }
    }
}

/// Sorts by key: the same items, keys never decreasing.
pub fn sort_by_key<T: SortKey>(items: Vec<T>) -> (r: Vec<T>)
    ensures
        keys_ascending(keys_of(r@)),
        r@.to_multiset() == items@.to_multiset(),
        keys_of(r@).to_multiset() == keys_of(items@).to_multiset(),
{
    broadcast use vstd::seq_lib::group_to_multiset_ensures, vstd::multiset::group_multiset_axioms;

    let ghost orig = items@;
    let mut rest = items;
    let mut out: Vec<T> = Vec::new();
    proof {
        assert(out@ =~= Seq::<T>::empty());
        assert(keys_of(out@) =~= Seq::<Seq<u8>>::empty());
        assert(out@.to_multiset() =~= vstd::multiset::Multiset::empty());
        assert(keys_of(out@).to_multiset() =~= vstd::multiset::Multiset::empty());
    }
    while rest.len() > 0
        invariant
            keys_ascending(keys_of(out@)),
            out@.to_multiset().add(rest@.to_multiset()) == orig.to_multiset(),
            keys_of(out@).to_multiset().add(keys_of(rest@).to_multiset()) == keys_of(
                orig,
            ).to_multiset(),
        decreases rest.len(),
    {
        let ghost before_rest = rest@;
        let ghost before_out = out@;
        let x = rest.remove(0);
        proof {
            vstd::seq_lib::to_multiset_remove(before_rest, 0);
            assert(keys_of(rest@) =~= keys_of(before_rest).remove(0));
            vstd::seq_lib::to_multiset_remove(keys_of(before_rest), 0);
        }
        let mut p: usize = 0;
        let mut found: bool = false;
        while p < out.len() && !found
            invariant
                p <= out@.len(),
                out@ == before_out,
                forall|m: int| 0 <= m < p ==> !lex_lt(x.sort_key(), #[trigger] keys_of(out@)[m]),
                found ==> p < out@.len() && lex_lt(x.sort_key(), keys_of(out@)[p as int]),
            decreases out.len() - p + (if found { 0int } else { 1int }),
        {
            match compare_bytes(x.key_bytes(), out[p].key_bytes()) {
                Order::Less => {
                    found = true;
                },
                _ => {
                    p = p + 1;
                },
            }
        }
        proof {
            lemma_insert_ascending(keys_of(out@), x.sort_key(), p as int);
            assert(keys_of(out@.insert(p as int, x)) =~= keys_of(out@).insert(p as int, x.sort_key()));
            vstd::seq_lib::to_multiset_insert(out@, p as int, x);
            vstd::seq_lib::to_multiset_insert(keys_of(out@), p as int, x.sort_key());
        }
        out.insert(p, x);
        proof {
            assert(before_rest[0] == x);
            assert(keys_of(before_rest)[0] == x.sort_key());
            assert(before_rest.contains(x));
            assert(keys_of(before_rest).contains(x.sort_key()));
            vstd::seq_lib::to_multiset_contains(before_rest, x);
            vstd::seq_lib::to_multiset_contains(keys_of(before_rest), x.sort_key());
            assert(before_rest.to_multiset().count(x) > 0);
            assert(keys_of(before_rest).to_multiset().count(x.sort_key()) > 0);
            assert(out@.to_multiset() == before_out.to_multiset().insert(x));
            assert(rest@.to_multiset() == before_rest.to_multiset().remove(x));
            assert(before_out.to_multiset().insert(x).add(before_rest.to_multiset().remove(x))
                =~= before_out.to_multiset().add(before_rest.to_multiset()));
            assert(keys_of(before_out).to_multiset().insert(x.sort_key()).add(
                keys_of(before_rest).to_multiset().remove(x.sort_key()),
            ) =~= keys_of(before_out).to_multiset().add(keys_of(before_rest).to_multiset()));
            assert(out@.to_multiset().add(rest@.to_multiset()) =~= orig.to_multiset());
            assert(keys_of(out@).to_multiset().add(keys_of(rest@).to_multiset()) =~= keys_of(
                orig,
            ).to_multiset());
        }
    }
    proof {
        assert(rest@ =~= Seq::<T>::empty());
        assert(keys_of(rest@) =~= Seq::<Seq<u8>>::empty());
        assert(out@.to_multiset() =~= out@.to_multiset().add(rest@.to_multiset()));
        assert(keys_of(out@).to_multiset() =~= keys_of(out@).to_multiset().add(
            keys_of(rest@).to_multiset(),
        ));
    }
    out
}

} // verus!
