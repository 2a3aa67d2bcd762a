//! Key/value attributes: the rows that a RouterOS command returns and the
//! settings of a plugin configuration. Keys are unique and kept in byte order.
use vstd::prelude::*;
use crate::bytes::{
    bytes_eq, compare_bytes, find_byte, first_index, lemma_lex_total, lemma_lex_transitive, lex_lt,
    slice_vec, Order,
};
use crate::wire::words_view;

verus! {

/// The contents of a list of key/value pairs.
pub open spec fn pairs_view(s: Seq<(Vec<u8>, Vec<u8>)>) -> Seq<(Seq<u8>, Seq<u8>)> {
    s.map_values(|e: (Vec<u8>, Vec<u8>)| (e.0@, e.1@))
}

/// Keys strictly increase along the list (so none occurs twice).
pub open spec fn keys_sorted(s: Seq<(Seq<u8>, Seq<u8>)>) -> bool {
    forall|i: int, j: int| 0 <= i < j < s.len() ==> lex_lt(#[trigger] s[i].0, #[trigger] s[j].0)
}

/// The value stored under `k`, if any.
pub open spec fn lookup(s: Seq<(Seq<u8>, Seq<u8>)>, k: Seq<u8>) -> Option<Seq<u8>>
    decreases s.len(),
{
    if s.len() == 0 {
        None
    } else if s[0].0 == k {
        Some(s[0].1)
    } else {
        lookup(s.drop_first(), k)
    }
}

/// Whether some entry of `s` has key `x`.
pub open spec fn has_key(s: Seq<(Seq<u8>, Seq<u8>)>, x: Seq<u8>) -> bool {
    exists|j: int| 0 <= j < s.len() && #[trigger] s[j].0 == x
}

/// `s` with `k` set to `v`: an existing entry for `k` takes the new value,
/// otherwise the entry goes before the first larger key.
pub open spec fn insert_sorted(s: Seq<(Seq<u8>, Seq<u8>)>, k: Seq<u8>, v: Seq<u8>) -> Seq<
    (Seq<u8>, Seq<u8>),
>
    decreases s.len(),
{
    if s.len() == 0 {
        seq![(k, v)]
    } else if s[0].0 == k {
        s.update(0, (k, v))
    } else if lex_lt(k, s[0].0) {
        seq![(k, v)] + s
    } else {
        seq![s[0]] + insert_sorted(s.drop_first(), k, v)
    }
}

/// A set of attributes: values under unique keys, kept in key order.
pub struct Attrs {
    entries: Vec<(Vec<u8>, Vec<u8>)>,
}

impl View for Attrs {
    type V = Seq<(Seq<u8>, Seq<u8>)>;

    closed spec fn view(&self) -> Seq<(Seq<u8>, Seq<u8>)> {
        pairs_view(self.entries@)
    }
}

proof fn lemma_insert_sorted_at(s: Seq<(Seq<u8>, Seq<u8>)>, k: Seq<u8>, v: Seq<u8>, i: int)
    requires
        0 <= i <= s.len(),
        forall|j: int| 0 <= j < i ==> lex_lt(#[trigger] s[j].0, k),
        i < s.len() ==> !lex_lt(s[i].0, k),
    ensures
        insert_sorted(s, k, v) == (if i < s.len() && s[i].0 == k {
            s.update(i, (k, v))
        } else {
            s.insert(i, (k, v))
        }),
    decreases i,
{
    if i == 0 {
        if s.len() > 0 {
            if s[0].0 != k {
                lemma_lex_total(s[0].0, k);
            }
        }
        if s.len() == 0 {
            assert(s.insert(0, (k, v)) =~= seq![(k, v)]);
        } else if s[0].0 != k {
            assert(s.insert(0, (k, v)) =~= seq![(k, v)] + s);
        }
    } else {
        let t = s.drop_first();
        assert forall|j: int| 0 <= j < i - 1 implies lex_lt(#[trigger] t[j].0, k) by {
            assert(t[j] == s[j + 1]);
        }
        lemma_lex_total(s[0].0, k);
        lemma_insert_sorted_at(t, k, v, i - 1);
        if i < s.len() && s[i].0 == k {
            assert(seq![s[0]] + t.update(i - 1, (k, v)) =~= s.update(i, (k, v)));
        } else {
            assert(seq![s[0]] + t.insert(i - 1, (k, v)) =~= s.insert(i, (k, v)));
        }
    }
}

/// Setting a key keeps the keys in order.
pub proof fn lemma_insert_keeps_order(s: Seq<(Seq<u8>, Seq<u8>)>, k: Seq<u8>, v: Seq<u8>)
    requires
        keys_sorted(s),
    ensures
        keys_sorted(insert_sorted(s, k, v)),
        forall|x: Seq<u8>| #[trigger] has_key(insert_sorted(s, k, v), x) ==> x == k || has_key(s, x),
    decreases s.len(),
{
    if s.len() == 0 {
    } else if s[0].0 == k {
        let r = s.update(0, (k, v));
        assert forall|i: int, j: int| 0 <= i < j < r.len() implies lex_lt(
            #[trigger] r[i].0,
            #[trigger] r[j].0,
        ) by {
            assert(s[i].0 == r[i].0);
            assert(s[j].0 == r[j].0);
        }
        assert forall|x: Seq<u8>| #[trigger] has_key(r, x) implies x == k || has_key(s, x) by {
            let j = choose|j: int| 0 <= j < r.len() && #[trigger] r[j].0 == x;
            assert(s[j].0 == r[j].0);
        }
    } else if lex_lt(k, s[0].0) {
        let r = seq![(k, v)] + s;
        assert forall|i: int, j: int| 0 <= i < j < r.len() implies lex_lt(
            #[trigger] r[i].0,
            #[trigger] r[j].0,
        ) by {
            if i == 0 {
                if j > 1 {
                    assert(lex_lt(s[0].0, s[j - 1].0));
                    lemma_lex_transitive(k, s[0].0, s[j - 1].0);
                }
            } else {
                assert(r[i] == s[i - 1]);
                assert(r[j] == s[j - 1]);
            }
        }
        assert forall|x: Seq<u8>| #[trigger] has_key(r, x) implies x == k || has_key(s, x) by {
            let j = choose|j: int| 0 <= j < r.len() && #[trigger] r[j].0 == x;
            if j > 0 {
                assert(r[j] == s[j - 1]);
            }
        }
    } else {
        let t = s.drop_first();
        assert(keys_sorted(t)) by {
            assert forall|i: int, j: int| 0 <= i < j < t.len() implies lex_lt(
                #[trigger] t[i].0,
                #[trigger] t[j].0,
            ) by {
                assert(t[i] == s[i + 1]);
                assert(t[j] == s[j + 1]);
            }
        }
        lemma_insert_keeps_order(t, k, v);
        lemma_lex_total(s[0].0, k);
        let rt = insert_sorted(t, k, v);
        let r = seq![s[0]] + rt;
        assert forall|i: int, j: int| 0 <= i < j < r.len() implies lex_lt(
            #[trigger] r[i].0,
            #[trigger] r[j].0,
        ) by {
            if i == 0 {
                assert(r[j] == rt[j - 1]);
                let x = rt[j - 1].0;
                assert(has_key(rt, x));
                if x != k {
                    let m = choose|m: int| 0 <= m < t.len() && #[trigger] t[m].0 == x;
                    assert(t[m] == s[m + 1]);
                }
            } else {
                assert(r[i] == rt[i - 1]);
                assert(r[j] == rt[j - 1]);
            }
        }
        assert forall|x: Seq<u8>| #[trigger] has_key(r, x) implies x == k || has_key(s, x) by {
            let j = choose|j: int| 0 <= j < r.len() && #[trigger] r[j].0 == x;
            if j > 0 {
                assert(r[j] == rt[j - 1]);
                assert(has_key(rt, x));
                if x != k {
                    let m = choose|m: int| 0 <= m < t.len() && #[trigger] t[m].0 == x;
                    assert(t[m] == s[m + 1]);
                }
            }
        }
    }
}

/// After setting `k` to `v`, looking up `k` gives `v` and every other key
/// gives what it gave before.
pub proof fn lemma_lookup_insert(
    s: Seq<(Seq<u8>, Seq<u8>)>,
    k: Seq<u8>,
    v: Seq<u8>,
    other: Seq<u8>,
)
    ensures
        lookup(insert_sorted(s, k, v), k) == Some(v),
        other != k ==> lookup(insert_sorted(s, k, v), other) == lookup(s, other),
    decreases s.len(),
{
    if s.len() == 0 {
        assert(seq![(k, v)].drop_first() =~= s);
    } else if s[0].0 == k {
        assert(s.update(0, (k, v)).drop_first() =~= s.drop_first());
    } else if lex_lt(k, s[0].0) {
        assert((seq![(k, v)] + s).drop_first() =~= s);
    } else {
        lemma_lookup_insert(s.drop_first(), k, v, other);
        assert((seq![s[0]] + insert_sorted(s.drop_first(), k, v)).drop_first()
            =~= insert_sorted(s.drop_first(), k, v));
    }
}

impl Attrs {
    /// Keys stay unique and in order.
    #[verifier::type_invariant]
    spec fn keys_in_order(&self) -> bool {
        keys_sorted(pairs_view(self.entries@))
    }

    /// No attributes.
    pub fn new() -> (r: Attrs)
        ensures
            r@ == Seq::<(Seq<u8>, Seq<u8>)>::empty(),
    {
        let r = Attrs { entries: Vec::new() };
        assert(r@ =~= Seq::<(Seq<u8>, Seq<u8>)>::empty());
        r
    }

    /// The number of keys.
    pub fn len(&self) -> (r: usize)
        ensures
            r == self@.len(),
    {
        self.entries.len()
    }

    /// All entries, in key order.
    pub fn entries(&self) -> (r: &Vec<(Vec<u8>, Vec<u8>)>)
        ensures
            pairs_view(r@) == self@,
            keys_sorted(self@),
    {
        proof {
            use_type_invariant(self);
        }
        &self.entries
    }

    /// The attributes of entries whose keys are already strictly in order.
    pub(crate) fn from_sorted(entries: Vec<(Vec<u8>, Vec<u8>)>) -> (r: Attrs)
        requires
            keys_sorted(pairs_view(entries@)),
        ensures
            r@ == pairs_view(entries@),
    {
        Attrs { entries }
    }

    /// The value under `key`, if there is one.
    pub fn get(&self, key: &[u8]) -> (r: Option<&Vec<u8>>)
        ensures
            match r {
                Some(v) => lookup(self@, key@) == Some(v@),
                None => lookup(self@, key@) is None,
            },
    {
        let mut i: usize = 0;
        assert(self@.skip(0) =~= self@);
        while i < self.entries.len()
            invariant
                i <= self@.len(),
                self@ == pairs_view(self.entries@),
                lookup(self@, key@) == lookup(self@.skip(i as int), key@),
            decreases self.entries.len() - i,
        {
            assert(self@.skip(i as int)[0] == self@[i as int]);
            assert(self@.skip(i as int).drop_first() =~= self@.skip(i + 1));
            if bytes_eq(self.entries[i].0.as_slice(), key) {
                return Some(&self.entries[i].1);
            }
            i = i + 1;
        }
        None
    }

    /// Sets `key` to `value`, replacing an earlier value.
    pub fn insert(&mut self, key: Vec<u8>, value: Vec<u8>)
        ensures
            final(self)@ == insert_sorted(old(self)@, key@, value@),
            keys_sorted(final(self)@),
    {
        proof {
            use_type_invariant(&*self);
        }
        let ghost s = self@;
        let mut i: usize = 0;
        let mut found: bool = false;
        while i < self.entries.len() && !found
            invariant
                i <= s.len(),
                s == self@,
                self@ == pairs_view(self.entries@),
                forall|j: int| 0 <= j < i ==> lex_lt(#[trigger] s[j].0, key@),
                found ==> i < s.len() && !lex_lt(s[i as int].0, key@),
            decreases self.entries.len() - i + (if found { 0int } else { 1int }),
        {
            match compare_bytes(self.entries[i].0.as_slice(), key.as_slice()) {
                Order::Less => {
                    i = i + 1;
                },
                _ => {
                    found = true;
                },
            }
        }
        proof {
            if i < s.len() {
                assert(!lex_lt(s[i as int].0, key@));
            }
            lemma_insert_sorted_at(s, key@, value@, i as int);
            lemma_insert_keeps_order(s, key@, value@);
        }
        let mut entries: Vec<(Vec<u8>, Vec<u8>)> = Vec::new();
        std::mem::swap(&mut entries, &mut self.entries);
        assert(pairs_view(entries@) == s);
        if i < entries.len() && bytes_eq(entries[i].0.as_slice(), key.as_slice()) {
            entries.set(i, (key, value));
            assert(pairs_view(entries@) =~= s.update(i as int, (key@, value@)));
        } else {
            entries.insert(i, (key, value));
            assert(pairs_view(entries@) =~= s.insert(i as int, (key@, value@)));
        }
        self.entries = entries;
    }
}

/// The key and value of a word `=key=value`: the key runs up to the first `=`
/// after the leading one; words of any other shape carry none.
pub open spec fn word_attr(w: Seq<u8>) -> Option<(Seq<u8>, Seq<u8>)> {
    if w.len() > 0 && w[0] == 61u8 {
        match first_index(w.drop_first(), 61u8) {
            Some(i) => Some((w.drop_first().take(i), w.drop_first().skip(i + 1))),
            None => None,
        }
    } else {
        None
    }
}

/// The attributes of a list of words, the later of two words with one key winning.
pub open spec fn attrs_of(ws: Seq<Seq<u8>>) -> Seq<(Seq<u8>, Seq<u8>)>
    decreases ws.len(),
{
    if ws.len() == 0 {
        Seq::empty()
    } else {
        match word_attr(ws.last()) {
            Some(kv) => insert_sorted(attrs_of(ws.drop_last()), kv.0, kv.1),
            None => attrs_of(ws.drop_last()),
        }
    }
}

/// Attributes always come out in key order.
pub proof fn lemma_attrs_sorted(ws: Seq<Seq<u8>>)
    ensures
        keys_sorted(attrs_of(ws)),
    decreases ws.len(),
{
    if ws.len() > 0 {
        lemma_attrs_sorted(ws.drop_last());
        match word_attr(ws.last()) {
            Some(kv) => lemma_insert_keeps_order(attrs_of(ws.drop_last()), kv.0, kv.1),
            None => {},
        }
    }
}

/// The key and value of one `=key=value` word.
pub fn parse_word_attr(w: &[u8]) -> (r: Option<(Vec<u8>, Vec<u8>)>)
    ensures
        match r {
            Some(kv) => word_attr(w@) == Some((kv.0@, kv.1@)),
            None => word_attr(w@) is None,
        },
{
    if w.len() == 0 || w[0] != 61u8 {
        return None;
    }
    let rest = vstd::slice::slice_subrange(w, 1, w.len());
    assert(rest@ =~= w@.drop_first());
    match find_byte(rest, 61u8) {
        Some(i) => {
            let k = slice_vec(rest, 0, i);
            let v = slice_vec(rest, i + 1, rest.len());
            assert(k@ =~= rest@.take(i as int));
            assert(v@ =~= rest@.skip(i + 1));
            Some((k, v))
        },
        None => None,
    }
}

/// The attributes of the words of a reply: each `=key=value` word sets `key`.
pub fn parse_attrs(words: &[Vec<u8>]) -> (r: Attrs)
    ensures
        r@ == attrs_of(words_view(words@)),
{
    let mut r = Attrs::new();
    let mut i: usize = 0;
    while i < words.len()
        invariant
            i <= words@.len(),
            r@ == attrs_of(words_view(words@).take(i as int)),
        decreases words.len() - i,
    {
        let ghost ws = words_view(words@);
        proof {
            assert(ws.take(i + 1).drop_last() =~= ws.take(i as int));
            assert(ws.take(i + 1).last() == words@[i as int]@);
        }
        match parse_word_attr(words[i].as_slice()) {
            Some(kv) => {
                r.insert(kv.0, kv.1);
            },
            None => {},
        }
        i = i + 1;
    }
    assert(words_view(words@).take(i as int) =~= words_view(words@));
    r
}


/// The attributes that setting each pair in turn gives, starting from none.
pub open spec fn from_pairs(pairs: Seq<(Seq<u8>, Seq<u8>)>) -> Seq<(Seq<u8>, Seq<u8>)>
    decreases pairs.len(),
{
    if pairs.len() == 0 {
        Seq::empty()
    } else {
        insert_sorted(from_pairs(pairs.drop_last()), pairs.last().0, pairs.last().1)
    }
}

/// Setting pairs one by one keeps the keys in order.
pub proof fn lemma_from_pairs_sorted(pairs: Seq<(Seq<u8>, Seq<u8>)>)
    ensures
        keys_sorted(from_pairs(pairs)),
    decreases pairs.len(),
{
    if pairs.len() > 0 {
        lemma_from_pairs_sorted(pairs.drop_last());
        lemma_insert_keeps_order(from_pairs(pairs.drop_last()), pairs.last().0, pairs.last().1);
    }
}

/// Setting pairs with distinct keys gives every key its value, and no other
/// key a value, in key order.
pub proof fn lemma_from_pairs(pairs: Seq<(Seq<u8>, Seq<u8>)>)
    requires
        forall|i: int, j: int| 0 <= i < j < pairs.len() ==> #[trigger] pairs[i].0 != #[trigger] pairs[j].0,
    ensures
        keys_sorted(from_pairs(pairs)),
        forall|i: int| 0 <= i < pairs.len() ==> lookup(from_pairs(pairs), #[trigger] pairs[i].0) == Some(pairs[i].1),
        forall|k: Seq<u8>| (forall|i: int| 0 <= i < pairs.len() ==> #[trigger] pairs[i].0 != k) ==> lookup(from_pairs(pairs), k) is None,
    decreases pairs.len(),
{
    if pairs.len() > 0 {
        let init = pairs.drop_last();
        let last = pairs.last();
        assert forall|i: int, j: int| 0 <= i < j < init.len() implies #[trigger] init[i].0 != #[trigger] init[j].0 by {
            assert(init[i] == pairs[i] && init[j] == pairs[j]);
        }
        lemma_from_pairs(init);
        lemma_insert_keeps_order(from_pairs(init), last.0, last.1);
        assert forall|i: int| 0 <= i < pairs.len() implies lookup(from_pairs(pairs), #[trigger] pairs[i].0) == Some(pairs[i].1) by {
            lemma_lookup_insert(from_pairs(init), last.0, last.1, pairs[i].0);
            if i < pairs.len() - 1 {
                assert(init[i] == pairs[i]);
            }
        }
        assert forall|k: Seq<u8>| (forall|i: int| 0 <= i < pairs.len() ==> #[trigger] pairs[i].0 != k) implies lookup(from_pairs(pairs), k) is None by {
            lemma_lookup_insert(from_pairs(init), last.0, last.1, k);
            assert forall|i: int| 0 <= i < init.len() implies #[trigger] init[i].0 != k by {
                assert(init[i] == pairs[i]);
            }
        }
    }
}


/// Of two words with the same key, the later one's value is the one kept;
/// words that carry no key change nothing.
pub proof fn lemma_later_word_wins(ws: Seq<Seq<u8>>, w: Seq<u8>, k: Seq<u8>)
    ensures
        word_attr(w) matches Some(kv) ==> lookup(attrs_of(ws.push(w)), kv.0) == Some(kv.1),
        word_attr(w) matches Some(kv) && kv.0 != k ==> lookup(attrs_of(ws.push(w)), k) == lookup(attrs_of(ws), k),
        word_attr(w) is None ==> attrs_of(ws.push(w)) == attrs_of(ws),
{
    assert(ws.push(w).drop_last() =~= ws);
    match word_attr(w) {
        Some(kv) => lemma_lookup_insert(attrs_of(ws), kv.0, kv.1, k),
        None => {},
    }
}

} // verus!
