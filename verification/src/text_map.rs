//! An ordered map keyed by text.
//!
//! Keys are kept in the order `String`'s `Ord` gives them, which compares the
//! UTF-8 bytes and therefore the code points one by one; that is the order in
//! which a `BTreeMap<String, _>` yields its entries, and the order the JSON
//! files are written in.
use vstd::prelude::*;

verus! {

/// `a` sorts strictly before `b`, comparing code points from index `i` on.
pub open spec fn lex_lt_from(a: Seq<char>, b: Seq<char>, i: int) -> bool
    decreases a.len() - i,
{
    if i < 0 || i >= a.len() {
        0 <= i < b.len()
    } else if i >= b.len() {
        false
    } else if a[i] != b[i] {
        (a[i] as int) < (b[i] as int)
    } else {
        lex_lt_from(a, b, i + 1)
    }
}

/// `a` sorts strictly before `b` in the order of `String`'s `Ord`.
pub open spec fn lex_lt(a: Seq<char>, b: Seq<char>) -> bool {
    lex_lt_from(a, b, 0)
}

/// The keys are in strictly increasing order.
pub open spec fn strictly_sorted(keys: Seq<Seq<char>>) -> bool {
    forall|i: int, j: int| 0 <= i < j < keys.len() ==> lex_lt(#[trigger] keys[i], #[trigger] keys[j])
}

proof fn lemma_lex_irreflexive_from(a: Seq<char>, i: int)
    requires
        0 <= i <= a.len(),
    ensures
        !lex_lt_from(a, a, i),
    decreases a.len() - i,
{
    if i < a.len() {
        lemma_lex_irreflexive_from(a, i + 1);
    }
}

/// Nothing sorts before itself.
pub proof fn lemma_lex_irreflexive(a: Seq<char>)
    ensures
        !lex_lt(a, a),
{
    lemma_lex_irreflexive_from(a, 0);
}

proof fn lemma_lex_transitive_from(a: Seq<char>, b: Seq<char>, c: Seq<char>, i: int)
    requires
        0 <= i,
        lex_lt_from(a, b, i),
        lex_lt_from(b, c, i),
    ensures
        lex_lt_from(a, c, i),
    decreases a.len() - i,
{
    if i < a.len() && i < b.len() && i < c.len() && a[i] == b[i] && b[i] == c[i] {
        lemma_lex_transitive_from(a, b, c, i + 1);
    }
}

/// The order is transitive.
pub proof fn lemma_lex_transitive(a: Seq<char>, b: Seq<char>, c: Seq<char>)
    requires
        lex_lt(a, b),
        lex_lt(b, c),
    ensures
        lex_lt(a, c),
{
    lemma_lex_transitive_from(a, b, c, 0);
}

proof fn lemma_lex_total_from(a: Seq<char>, b: Seq<char>, i: int)
    requires
        0 <= i <= a.len(),
        i <= b.len(),
        a.subrange(0, i) == b.subrange(0, i),
        a != b,
    ensures
        lex_lt_from(a, b, i) || lex_lt_from(b, a, i),
    decreases a.len() - i,
{
    if i < a.len() && i < b.len() {
        if a[i] == b[i] {
            assert(a.subrange(0, i + 1) =~= a.subrange(0, i).push(a[i]));
            assert(b.subrange(0, i + 1) =~= b.subrange(0, i).push(b[i]));
            lemma_lex_total_from(a, b, i + 1);
            assert(lex_lt_from(a, b, i) == lex_lt_from(a, b, i + 1));
            assert(lex_lt_from(b, a, i) == lex_lt_from(b, a, i + 1));
        } else {
            assert((a[i] as int) != (b[i] as int));
        }
    } else if i == a.len() && i == b.len() {
        assert(a =~= a.subrange(0, i));
        assert(b =~= b.subrange(0, i));
    }
}

/// Two different texts are ordered one way or the other.
pub proof fn lemma_lex_total(a: Seq<char>, b: Seq<char>)
    requires
        a != b,
    ensures
        lex_lt(a, b) || lex_lt(b, a),
{
    assert(a.subrange(0, 0) =~= b.subrange(0, 0));
    lemma_lex_total_from(a, b, 0);
}

/// Strict order implies the texts differ.
pub proof fn lemma_lex_distinct(a: Seq<char>, b: Seq<char>)
    requires
        lex_lt(a, b),
    ensures
        a != b,
        !lex_lt(b, a),
{
    lemma_lex_irreflexive(a);
    if lex_lt(b, a) {
        lemma_lex_transitive(a, b, a);
    }
}

/// Two strictly sorted sequences with the same elements are the same sequence.
pub proof fn lemma_sorted_unique(a: Seq<Seq<char>>, b: Seq<Seq<char>>)
    requires
        strictly_sorted(a),
        strictly_sorted(b),
        a.to_set() == b.to_set(),
    ensures
        a == b,
    decreases a.len(),
{
    if a.len() == 0 {
        if b.len() > 0 {
            assert(b.to_set().contains(b[0]));
        }
        assert(a =~= b);
    } else {
        assert(a.to_set().contains(a[0]));
        assert(b.to_set().contains(a[0]));
        assert(b.len() > 0);
        assert(b.to_set().contains(b[0]));
        assert(a.to_set().contains(b[0]));
        let k = choose|k: int| 0 <= k < a.len() && a[k] == b[0];
        let m = choose|m: int| 0 <= m < b.len() && b[m] == a[0];
        if k > 0 && m > 0 {
            assert(lex_lt(a[0], a[k]));
            assert(lex_lt(b[0], b[m]));
            lemma_lex_distinct(a[0], b[0]);
        }
        assert(a[0] == b[0]);
        let a1 = a.drop_first();
        let b1 = b.drop_first();
        assert forall|x: Seq<char>| a1.to_set().contains(x) <==> b1.to_set().contains(x) by {
            if a1.to_set().contains(x) {
                let i = choose|i: int| 0 <= i < a1.len() && a1[i] == x;
                assert(a[i + 1] == x);
                assert(a.to_set().contains(x));
                assert(b.to_set().contains(x));
                let j = choose|j: int| 0 <= j < b.len() && b[j] == x;
                lemma_lex_distinct(a[0], a[i + 1]);
                if j == 0 {
                    assert(false);
                }
                assert(b1[j - 1] == x);
            }
            if b1.to_set().contains(x) {
                let i = choose|i: int| 0 <= i < b1.len() && b1[i] == x;
                assert(b[i + 1] == x);
                assert(b.to_set().contains(x));
                assert(a.to_set().contains(x));
                let j = choose|j: int| 0 <= j < a.len() && a[j] == x;
                lemma_lex_distinct(b[0], b[i + 1]);
                if j == 0 {
                    assert(false);
                }
                assert(a1[j - 1] == x);
            }
        }
        assert(a1.to_set() =~= b1.to_set());
        assert forall|i: int, j: int| 0 <= i < j < a1.len() implies lex_lt(#[trigger] a1[i], #[trigger] a1[j]) by {
            assert(a1[i] == a[i + 1] && a1[j] == a[j + 1]);
        }
        assert forall|i: int, j: int| 0 <= i < j < b1.len() implies lex_lt(#[trigger] b1[i], #[trigger] b1[j]) by {
            assert(b1[i] == b[i + 1] && b1[j] == b[j + 1]);
        }
        lemma_sorted_unique(a1, b1);
        assert(a.len() == b.len());
        assert forall|i: int| 0 <= i < a.len() implies a[i] == b[i] by {
            if i > 0 {
                assert(a[i] == a1[i - 1]);
                assert(b[i] == b1[i - 1]);
            }
        }
        assert(a =~= b);
    }
}

/// The keys of a finite set of texts, in ascending order.
pub open spec fn key_order(keys: Set<Seq<char>>) -> Seq<Seq<char>> {
    choose|s: Seq<Seq<char>>| strictly_sorted(s) && s.to_set() == keys
}

/// The text's characters, one by one.
pub fn text_chars(s: &str) -> (v: Vec<char>)
    ensures
        v@ == s@,
{
    let mut out: Vec<char> = Vec::new();
    for c in it: s.chars()
        invariant
            out@ == it.seq().take(it.index() as int),
            it.seq() == s@,
    {
        out.push(c);
    }
    out
}

/// Whether `a` sorts strictly before `b`.
pub fn chars_lt(a: &Vec<char>, b: &Vec<char>) -> (r: bool)
    ensures
        r == lex_lt(a@, b@),
{
    let mut i: usize = 0;
    while i < a.len() && i < b.len() && a[i] == b[i]
        invariant
            0 <= i <= a.len(),
            i <= b.len(),
            lex_lt(a@, b@) == lex_lt_from(a@, b@, i as int),
        decreases a.len() - i,
    {
        i = i + 1;
    }
    if i >= a.len() {
        i < b.len()
    } else if i >= b.len() {
        false
    } else {
        a[i] < b[i]
    }
}

/// Whether two character sequences are equal.
pub fn chars_eq(a: &Vec<char>, b: &Vec<char>) -> (r: bool)
    ensures
        r == (a@ == b@),
{
    if a.len() != b.len() {
        return false;
    }
    let mut i: usize = 0;
    while i < a.len()
        invariant
            a.len() == b.len(),
            0 <= i <= a.len(),
            forall|j: int| 0 <= j < i ==> a@[j] == b@[j],
        decreases a.len() - i,
    {
        if a[i] != b[i] {
            return false;
        }
        i = i + 1;
    }
    assert(a@ =~= b@);
    true
}

#[derive(Debug, Clone)]
struct TextEntry<V> {
    key: String,
    key_chars: Vec<char>,
    value: V,
}

/// A map from text keys to values, its entries in ascending key order.
#[derive(Debug)]
pub struct TextMap<V> {
    entries: Vec<TextEntry<V>>,
}

/// The map whose keys are `keys` and whose value at `keys[i]` is `values[i]`.
pub open spec fn map_of<V>(keys: Seq<Seq<char>>, values: Seq<V>) -> Map<Seq<char>, V> {
    Map::new(
        |k: Seq<char>| keys.contains(k),
        |k: Seq<char>| values[choose|i: int| 0 <= i < keys.len() && keys[i] == k],
    )
}

impl<V> TextMap<V> {
    /// The keys, in ascending order.
    pub closed spec fn keys_seq(&self) -> Seq<Seq<char>> {
        self.entries@.map_values(|e: TextEntry<V>| e.key_chars@)
    }

    /// The values, in the order of their keys.
    pub closed spec fn values_seq(&self) -> Seq<V> {
        self.entries@.map_values(|e: TextEntry<V>| e.value)
    }

    /// Every key's text matches its cached characters, and the keys ascend.
    #[verifier::type_invariant]
    pub closed spec fn well_formed(&self) -> bool {
        &&& forall|i: int|
            0 <= i < self.entries@.len() ==> (#[trigger] self.entries@[i]).key@
                == self.entries@[i].key_chars@
        &&& strictly_sorted(self.keys_seq())
    }

    /// The facts every map carries: its keys are sorted and unique, and its view
    /// maps the `i`-th key to the `i`-th value.
    pub proof fn lemma_shape(&self)
        requires
            self.well_formed(),
        ensures
            strictly_sorted(self.keys_seq()),
            self.keys_seq().no_duplicates(),
            self.keys_seq().len() == self.values_seq().len(),
            self@ == map_of(self.keys_seq(), self.values_seq()),
            self@.dom() == self.keys_seq().to_set(),
            self@.dom().finite(),
            self@.dom().len() == self.keys_seq().len(),
            forall|i: int|
                0 <= i < self.keys_seq().len() ==> #[trigger] self@[self.keys_seq()[i]]
                    == self.values_seq()[i],
    {
        let keys = self.keys_seq();
        let values = self.values_seq();
        assert forall|i: int, j: int| 0 <= i < keys.len() && 0 <= j < keys.len() && i != j implies
            keys[i] != keys[j] by {
            if i < j {
                lemma_lex_distinct(keys[i], keys[j]);
            } else {
                lemma_lex_distinct(keys[j], keys[i]);
            }
        }
        assert forall|i: int| 0 <= i < keys.len() implies #[trigger] self@[keys[i]] == values[i] by {
            assert(keys.contains(keys[i]));
            let j = choose|j: int| 0 <= j < keys.len() && keys[j] == keys[i];
            assert(j == i);
        }
        assert(self@.dom() =~= keys.to_set());
        keys.unique_seq_to_set();
        vstd::seq_lib::seq_to_set_is_finite(keys);
    }

    /// A map's keys are its view's keys in ascending order.
    pub proof fn lemma_keys_in_order(&self)
        requires
            self.well_formed(),
        ensures
            self.keys_seq() == key_order(self@.dom()),
    {
        self.lemma_shape();
        let k = key_order(self@.dom());
        assert(strictly_sorted(self.keys_seq()) && self.keys_seq().to_set() == self@.dom());
        lemma_sorted_unique(k, self.keys_seq());
    }

    /// An empty map.
    pub fn new() -> (r: Self)
        ensures
            r@ == Map::<Seq<char>, V>::empty(),
            r.keys_seq() == Seq::<Seq<char>>::empty(),
            r.values_seq() == Seq::<V>::empty(),
    {
        let r = TextMap { entries: Vec::new() };
        assert(r.keys_seq() =~= Seq::<Seq<char>>::empty());
        assert(r.values_seq() =~= Seq::<V>::empty());
        assert(r@ =~= Map::<Seq<char>, V>::empty());
        r
    }

    /// The number of entries.
    pub fn len(&self) -> (r: usize)
        ensures
            r == self.keys_seq().len(),
            r == self@.dom().len(),
    {
        proof {
            use_type_invariant(self);
            self.lemma_shape();
        }
        self.entries.len()
    }

    /// Whether the map has no entries.
    pub fn is_empty(&self) -> (r: bool)
        ensures
            r == (self.keys_seq().len() == 0),
            r == (self@.dom().len() == 0),
    {
        self.len() == 0
    }

    /// The `i`-th key in ascending order.
    pub fn key_at(&self, i: usize) -> (r: &String)
        requires
            i < self.keys_seq().len(),
        ensures
            r@ == self.keys_seq()[i as int],
    {
        proof {
            use_type_invariant(self);
        }
        &self.entries[i].key
    }

    /// The keys, in ascending order.
    pub fn keys(&self) -> (r: Vec<String>)
        ensures
            crate::text::texts(r@) == self.keys_seq(),
    {
        proof {
            use_type_invariant(self);
        }
        let mut r: Vec<String> = Vec::new();
        for i in 0..self.entries.len()
            invariant
                self.well_formed(),
                crate::text::texts(r@) == self.keys_seq().take(i as int),
        {
            let ghost before = r@;
            r.push(self.entries[i].key.clone());
            proof {
                assert(self.entries@[i as int].key@ == self.entries@[i as int].key_chars@);
                let a = crate::text::texts(r@);
                let b = self.keys_seq().take(i + 1);
                assert(i < self.entries@.len());
                assert(self.keys_seq().len() == self.entries@.len());
                assert(crate::text::texts(before).len() == i);
                assert(a.len() == b.len());
                assert forall|k: int| 0 <= k < a.len() implies a[k] == b[k] by {
                    if k < i {
                        assert(r@[k] == before[k]);
                        assert(crate::text::texts(before)[k] == self.keys_seq().take(i as int)[k]);
                    }
                }
                assert(a =~= b);
            }
        }
        proof {
            assert(self.keys_seq().take(self.entries@.len() as int) =~= self.keys_seq());
        }
        r
    }

    /// The keys, as a map whose values are empty.
    pub fn key_set(&self) -> (r: TextMap<()>)
        ensures
            r@.dom() == self@.dom(),
            r.keys_seq() == self.keys_seq(),
    {
        proof {
            use_type_invariant(self);
        }
        let mut entries: Vec<TextEntry<()>> = Vec::new();
        for i in 0..self.entries.len()
            invariant
                self.well_formed(),
                entries@.len() == i,
                forall|j: int|
                    0 <= j < i ==> (#[trigger] entries@[j]).key@ == self.entries@[j].key@
                        && entries@[j].key_chars@ == self.entries@[j].key_chars@,
        {
            let key = self.entries[i].key.clone();
            let key_chars = text_chars(key.as_str());
            entries.push(TextEntry { key, key_chars, value: () });
        }
        let ghost new_keys = entries@.map_values(|e: TextEntry<()>| e.key_chars@);
        assert(new_keys =~= self.keys_seq());
        let r = TextMap { entries };
        proof {
            r.lemma_shape();
            self.lemma_shape();
            assert(r@.dom() =~= self@.dom());
        }
        r
    }

    /// The value of the `i`-th key in ascending order.
    pub fn value_at(&self, i: usize) -> (r: &V)
        requires
            i < self.keys_seq().len(),
        ensures
            *r == self.values_seq()[i as int],
    {
        &self.entries[i].value
    }

    /// Where `key` stands: the number of keys sorting before it, and whether
    /// the key at that position is `key` itself.
    fn locate(&self, key: &Vec<char>) -> (r: (usize, bool))
        ensures
            r.0 <= self.keys_seq().len(),
            forall|j: int| 0 <= j < r.0 ==> lex_lt(#[trigger] self.keys_seq()[j], key@),
            r.1 == (r.0 < self.keys_seq().len() && self.keys_seq()[r.0 as int] == key@),
            !r.1 ==> forall|j: int|
                r.0 <= j < self.keys_seq().len() ==> lex_lt(key@, #[trigger] self.keys_seq()[j]),
    {
        proof {
            use_type_invariant(self);
        }
        let ghost keys = self.keys_seq();
        let mut i: usize = 0;
        while i < self.entries.len() && chars_lt(&self.entries[i].key_chars, key)
            invariant
                keys == self.keys_seq(),
                i <= keys.len(),
                keys.len() == self.entries@.len(),
                forall|j: int| 0 <= j < i ==> lex_lt(#[trigger] keys[j], key@),
            decreases self.entries.len() - i,
        {
            i = i + 1;
        }
        if i < self.entries.len() {
            let found = chars_eq(&self.entries[i].key_chars, key);
            proof {
                if !found {
                    assert(!lex_lt(keys[i as int], key@));
                    lemma_lex_total(keys[i as int], key@);
                    assert forall|j: int| i <= j < keys.len() implies lex_lt(
                        key@,
                        #[trigger] keys[j],
                    ) by {
                        if j > i {
                            assert(lex_lt(keys[i as int], keys[j]));
                            lemma_lex_transitive(key@, keys[i as int], keys[j]);
                        }
                    }
                }
            }
            (i, found)
        } else {
            (i, false)
        }
    }

    /// Whether `key` has an entry.
    pub fn contains_key(&self, key: &str) -> (r: bool)
        ensures
            r == self@.contains_key(key@),
    {
        proof {
            use_type_invariant(self);
            self.lemma_shape();
        }
        let chars = text_chars(key);
        let (i, found) = self.locate(&chars);
        proof {
            if !found && self@.contains_key(key@) {
                let j = choose|j: int| 0 <= j < self.keys_seq().len() && self.keys_seq()[j] == key@;
                if j < i {
                    lemma_lex_irreflexive(key@);
                } else {
                    lemma_lex_irreflexive(key@);
                }
            }
        }
        found
    }

    /// The value of `key`, if it has one.
    pub fn get(&self, key: &str) -> (r: Option<&V>)
        ensures
            r == (if self@.contains_key(key@) {
                Some(&self@[key@])
            } else {
                None
            }),
    {
        proof {
            use_type_invariant(self);
            self.lemma_shape();
        }
        let chars = text_chars(key);
        let (i, found) = self.locate(&chars);
        if found {
            Some(&self.entries[i].value)
        } else {
            proof {
                if self@.contains_key(key@) {
                    let j = choose|j: int|
                        0 <= j < self.keys_seq().len() && self.keys_seq()[j] == key@;
                    lemma_lex_irreflexive(key@);
                }
            }
            None
        }
    }

    /// Sets the value of `key`, replacing any value it had.
    pub fn insert(&mut self, key: String, value: V)
        ensures
            final(self)@ == old(self)@.insert(key@, value),
    {
        proof {
            use_type_invariant(&*self);
            self.lemma_shape();
        }
        let key_chars = text_chars(key.as_str());
        let (i, found) = self.locate(&key_chars);
        let ghost old_keys = self.keys_seq();
        let ghost old_values = self.values_seq();
        let ghost old_view = self@;
        let mut entries: Vec<TextEntry<V>> = Vec::new();
        std::mem::swap(&mut entries, &mut self.entries);
        let entry = TextEntry { key, key_chars, value };
        if found {
            entries.set(i, entry);
        } else {
            entries.insert(i, entry);
        }
        let ghost new_keys = entries@.map_values(|e: TextEntry<V>| e.key_chars@);
        let ghost new_values = entries@.map_values(|e: TextEntry<V>| e.value);
        proof {
            if found {
                assert(new_keys =~= old_keys);
                assert(new_values =~= old_values.update(i as int, value));
            } else {
                assert(new_keys =~= old_keys.insert(i as int, key_chars@));
                assert(new_values =~= old_values.insert(i as int, value));
                assert forall|a: int, b: int| 0 <= a < b < new_keys.len() implies lex_lt(
                    #[trigger] new_keys[a],
                    #[trigger] new_keys[b],
                ) by {
                    if b < i {
                    } else if b == i {
                    } else if a < i {
                        lemma_lex_transitive(new_keys[a], key_chars@, new_keys[b]);
                    } else if a == i {
                    } else {
                    }
                }
            }
        }
        self.entries = entries;
        proof {
            self.lemma_shape();
            let keys = self.keys_seq();
            let values = self.values_seq();
            assert(keys == new_keys);
            assert(values == new_values);
            assert forall|k: Seq<char>| #[trigger] self@.contains_key(k) == old_view.insert(
                key@,
                value,
            ).contains_key(k) by {
                if k == key@ {
                    assert(keys[i as int] == k);
                } else if self@.contains_key(k) {
                    let j = choose|j: int| 0 <= j < keys.len() && keys[j] == k;
                    if found {
                        assert(old_keys[j] == k);
                    } else if j < i {
                        assert(old_keys[j] == k);
                    } else {
                        assert(old_keys[j - 1] == k);
                    }
                } else if old_view.contains_key(k) {
                    let j = choose|j: int| 0 <= j < old_keys.len() && old_keys[j] == k;
                    if found || j < i {
                        assert(keys[j] == k);
                    } else {
                        assert(keys[j + 1] == k);
                    }
                }
            }
            assert forall|k: Seq<char>| #[trigger] self@.contains_key(k) implies self@[k]
                == old_view.insert(key@, value)[k] by {
                let j = choose|j: int| 0 <= j < keys.len() && keys[j] == k;
                assert(self@[keys[j]] == values[j]);
                if k == key@ {
                    assert(keys[i as int] == key@);
                    assert(j == i);
                } else if found || j < i {
                    assert(old_view[old_keys[j]] == old_values[j]);
                } else {
                    assert(old_keys[j - 1] == k);
                    assert(old_view[old_keys[j - 1]] == old_values[j - 1]);
                }
            }
            assert(self@ =~= old_view.insert(key@, value));
        }
    }

    /// Removes `key`, handing back the value it had.
    pub fn remove(&mut self, key: &str) -> (r: Option<V>)
        ensures
            final(self)@ == old(self)@.remove(key@),
            r == (if old(self)@.contains_key(key@) {
                Some(old(self)@[key@])
            } else {
                None::<V>
            }),
    {
        proof {
            use_type_invariant(&*self);
            self.lemma_shape();
        }
        let key_chars = text_chars(key);
        let (i, found) = self.locate(&key_chars);
        let ghost old_keys = self.keys_seq();
        let ghost old_values = self.values_seq();
        let ghost old_view = self@;
        if !found {
            proof {
                if old_view.contains_key(key@) {
                    let j = choose|j: int| 0 <= j < old_keys.len() && old_keys[j] == key@;
                    lemma_lex_irreflexive(key@);
                }
                assert(old_view.remove(key@) =~= old_view);
            }
            return None;
        }
        let mut entries: Vec<TextEntry<V>> = Vec::new();
        std::mem::swap(&mut entries, &mut self.entries);
        let entry = entries.remove(i);
        let ghost new_keys = entries@.map_values(|e: TextEntry<V>| e.key_chars@);
        let ghost new_values = entries@.map_values(|e: TextEntry<V>| e.value);
        proof {
            assert(new_keys =~= old_keys.remove(i as int));
            assert(new_values =~= old_values.remove(i as int));
            assert forall|a: int, b: int| 0 <= a < b < new_keys.len() implies lex_lt(
                #[trigger] new_keys[a],
                #[trigger] new_keys[b],
            ) by {
                if b < i {
                    assert(new_keys[a] == old_keys[a] && new_keys[b] == old_keys[b]);
                } else if a < i {
                    assert(new_keys[a] == old_keys[a] && new_keys[b] == old_keys[b + 1]);
                } else {
                    assert(new_keys[a] == old_keys[a + 1] && new_keys[b] == old_keys[b + 1]);
                }
            }
        }
        self.entries = entries;
        proof {
            self.lemma_shape();
            let keys = self.keys_seq();
            let values = self.values_seq();
            assert(keys == new_keys);
            assert(values == new_values);
            assert(old_view[old_keys[i as int]] == old_values[i as int]);
            assert forall|k: Seq<char>| #[trigger] self@.contains_key(k) == old_view.remove(
                key@,
            ).contains_key(k) by {
                if self@.contains_key(k) {
                    let j = choose|j: int| 0 <= j < keys.len() && keys[j] == k;
                    if j < i {
                        assert(old_keys[j] == k);
                    } else {
                        assert(old_keys[j + 1] == k);
                    }
                } else if old_view.contains_key(k) && k != key@ {
                    let j = choose|j: int| 0 <= j < old_keys.len() && old_keys[j] == k;
                    if j < i {
                        assert(keys[j] == k);
                    } else {
                        assert(j != i);
                        assert(keys[j - 1] == k);
                    }
                }
            }
            assert forall|k: Seq<char>| #[trigger] self@.contains_key(k) implies self@[k]
                == old_view.remove(key@)[k] by {
                let j = choose|j: int| 0 <= j < keys.len() && keys[j] == k;
                assert(self@[keys[j]] == values[j]);
                if j < i {
                    assert(old_view[old_keys[j]] == old_values[j]);
                } else {
                    assert(old_view[old_keys[j + 1]] == old_values[j + 1]);
                }
            }
            assert(self@ =~= old_view.remove(key@));
        }
        Some(entry.value)
    }
}

impl<V: Clone> Clone for TextMap<V> {
    /// A map with the same keys, each value cloned.
    fn clone(&self) -> (r: Self)
        ensures
            r.keys_seq() == self.keys_seq(),
            forall|i: int|
                0 <= i < self.values_seq().len() ==> cloned::<V>(
                    self.values_seq()[i],
                    #[trigger] r.values_seq()[i],
                ),
    {
        proof {
            use_type_invariant(self);
        }
        let mut entries: Vec<TextEntry<V>> = Vec::new();
        for i in 0..self.entries.len()
            invariant
                self.well_formed(),
                entries@.len() == i,
                forall|j: int|
                    0 <= j < i ==> (#[trigger] entries@[j]).key@ == self.entries@[j].key@
                        && entries@[j].key_chars@ == self.entries@[j].key_chars@
                        && cloned::<V>(self.entries@[j].value, entries@[j].value),
        {
            let e = &self.entries[i];
            let key = e.key.clone();
            let key_chars = text_chars(key.as_str());
            entries.push(TextEntry { key, key_chars, value: e.value.clone() });
        }
        let ghost new_keys = entries@.map_values(|e: TextEntry<V>| e.key_chars@);
        assert(new_keys =~= self.keys_seq());
        TextMap { entries }
    }
}

impl<V> View for TextMap<V> {
    type V = Map<Seq<char>, V>;

    closed spec fn view(&self) -> Map<Seq<char>, V> {
        map_of(self.keys_seq(), self.values_seq())
    }
}

/// The texts a map of strings holds, keyed as the map is.
pub open spec fn text_values(m: Map<Seq<char>, String>) -> Map<Seq<char>, Seq<char>> {
    m.map_values(|v: String| v@)
}

impl TextMap<String> {
    /// A copy of the map.
    pub fn copy(&self) -> (r: Self)
        ensures
            r@ == self@,
            r.keys_seq() == self.keys_seq(),
            r.values_seq() == self.values_seq(),
    {
        proof {
            use_type_invariant(self);
        }
        let mut entries: Vec<TextEntry<String>> = Vec::new();
        for i in 0..self.entries.len()
            invariant
                self.well_formed(),
                entries@.len() == i,
                forall|j: int|
                    0 <= j < i ==> (#[trigger] entries@[j]).key@ == self.entries@[j].key@
                        && entries@[j].key_chars@ == self.entries@[j].key_chars@
                        && entries@[j].value == self.entries@[j].value,
        {
            let e = &self.entries[i];
            let key = e.key.clone();
            let key_chars = text_chars(key.as_str());
            entries.push(TextEntry { key, key_chars, value: e.value.clone() });
        }
        let ghost new_keys = entries@.map_values(|e: TextEntry<String>| e.key_chars@);
        assert(new_keys =~= self.keys_seq());
        let r = TextMap { entries };
        assert(r.keys_seq() =~= self.keys_seq());
        assert(r.values_seq() =~= self.values_seq());
        r
    }

    /// The entries of `self`, each replaced or joined by the entry of the same
    /// key in `incoming`: a keyed union in which `incoming` wins.
    pub fn union_preferring(&self, incoming: TextMap<String>) -> (r: Self)
        ensures
            r@ == self@.union_prefer_right(incoming@),
    {
        proof {
            use_type_invariant(&incoming);
            incoming.lemma_shape();
        }
        let mut merged = self.copy();
        let ghost keys = incoming.keys_seq();
        let ghost values = incoming.values_seq();
        let n = incoming.len();
        for i in 0..n
            invariant
                n == keys.len(),
                keys == incoming.keys_seq(),
                values == incoming.values_seq(),
                keys.len() == values.len(),
                incoming@ == map_of(keys, values),
                keys.no_duplicates(),
                forall|j: int| 0 <= j < keys.len() ==> #[trigger] incoming@[keys[j]] == values[j],
                forall|k: Seq<char>|
                    #[trigger] merged@.contains_key(k) <==> (self@.contains_key(k) || keys.take(
                        i as int,
                    ).contains(k)),
                forall|k: Seq<char>|
                    #[trigger] merged@.contains_key(k) ==> merged@[k] == (if keys.take(
                        i as int,
                    ).contains(k) {
                        incoming@[k]
                    } else {
                        self@[k]
                    }),
        {
            let key = incoming.key_at(i).clone();
            let value = incoming.value_at(i).clone();
            let ghost before = merged@;
            assert(key@ == keys[i as int]);
            assert(value == values[i as int]);
            merged.insert(key, value);
            proof {
                assert(keys.take(i + 1) =~= keys.take(i as int).push(keys[i as int]));
                let next = keys.take(i + 1);
                let prev = keys.take(i as int);
                assert forall|k: Seq<char>| #[trigger] next.contains(k) <==> (prev.contains(k) || k
                    == keys[i as int]) by {
                    if next.contains(k) {
                        let j = choose|j: int| 0 <= j < next.len() && next[j] == k;
                        if j < i {
                            assert(prev[j] == k);
                        }
                    }
                    if prev.contains(k) {
                        let j = choose|j: int| 0 <= j < prev.len() && prev[j] == k;
                        assert(next[j] == k);
                    }
                    if k == keys[i as int] {
                        assert(next[i as int] == k);
                    }
                }
                assert forall|k: Seq<char>| #[trigger] merged@.contains_key(k) implies merged@[k]
                    == (if keys.take(i + 1).contains(k) {
                    incoming@[k]
                } else {
                    self@[k]
                }) by {
                    if k == keys[i as int] {
                    } else {
                        assert(keys.take(i + 1).contains(k) == keys.take(i as int).contains(k));
                    }
                }
            }
        }
        proof {
            assert(keys.take(n as int) =~= keys);
            assert forall|k: Seq<char>| incoming@.contains_key(k) == keys.contains(k) by {}
            assert(merged@ =~= self@.union_prefer_right(incoming@));
        }
        merged
    }
}

} // verus!
