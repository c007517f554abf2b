//! The order of texts, sets and maps kept in that order, and sorting by rank.
use crate::text;
use vstd::prelude::*;
use vstd::string::*;
use vstd::utf8::*;

verus! {

/// The lexicographic order of byte sequences.
pub open spec fn bytes_before(a: Seq<u8>, b: Seq<u8>) -> bool
    decreases a.len(),
{
    if b.len() == 0 {
        false
    } else if a.len() == 0 {
        true
    } else if a[0] != b[0] {
        a[0] < b[0]
    } else {
        bytes_before(a.drop_first(), b.drop_first())
    }
}

/// The order of texts: that of their UTF-8 bytes.
pub open spec fn text_before(a: Seq<char>, b: Seq<char>) -> bool {
    bytes_before(encode_utf8(a), encode_utf8(b))
}

proof fn lemma_bytes_transitive(a: Seq<u8>, b: Seq<u8>, c: Seq<u8>)
    requires
        bytes_before(a, b),
        bytes_before(b, c),
    ensures
        bytes_before(a, c),
    decreases a.len(),
{
    if a.len() > 0 && a[0] == b[0] && b[0] == c[0] {
        lemma_bytes_transitive(a.drop_first(), b.drop_first(), c.drop_first());
    }
}

proof fn lemma_bytes_irreflexive(a: Seq<u8>)
    ensures
        !bytes_before(a, a),
    decreases a.len(),
{
    if a.len() > 0 {
        lemma_bytes_irreflexive(a.drop_first());
    }
}

proof fn lemma_bytes_total(a: Seq<u8>, b: Seq<u8>)
    ensures
        a == b || bytes_before(a, b) || bytes_before(b, a),
    decreases a.len(),
{
    if a.len() > 0 && b.len() > 0 && a[0] == b[0] {
        lemma_bytes_total(a.drop_first(), b.drop_first());
        if a.drop_first() == b.drop_first() {
            assert(a =~= seq![a[0]] + a.drop_first());
            assert(b =~= seq![b[0]] + b.drop_first());
        }
    } else if a.len() == 0 && b.len() == 0 {
        assert(a =~= b);
    }
}

/// The order of texts is transitive.
pub proof fn text_order_transitive(a: Seq<char>, b: Seq<char>, c: Seq<char>)
    requires
        text_before(a, b),
        text_before(b, c),
    ensures
        text_before(a, c),
{
    lemma_bytes_transitive(encode_utf8(a), encode_utf8(b), encode_utf8(c));
}

/// Of two texts exactly one holds: they are the same, the first comes first, or the second does.
pub proof fn text_order_total(a: Seq<char>, b: Seq<char>)
    ensures
        a == b || text_before(a, b) || text_before(b, a),
        a == b ==> !text_before(a, b),
        text_before(a, b) ==> !text_before(b, a),
{
    lemma_bytes_total(encode_utf8(a), encode_utf8(b));
    lemma_bytes_irreflexive(encode_utf8(a));
    encode_utf8_decode_utf8(a);
    encode_utf8_decode_utf8(b);
    if text_before(a, b) && text_before(b, a) {
        text_order_transitive(a, b, a);
    }
}

/// Tests whether one text comes before another.
pub fn comes_before(a: &str, b: &str) -> (r: bool)
    ensures
        r == text_before(a@, b@),
{
    let x = a.as_bytes();
    let y = b.as_bytes();
    let mut i: usize = 0;
    assert(x@.skip(0) =~= x@);
    assert(y@.skip(0) =~= y@);
    while i < x.len() && i < y.len()
        invariant
            i <= x@.len(),
            i <= y@.len(),
            x@ == encode_utf8(a@),
            y@ == encode_utf8(b@),
            text_before(a@, b@) == bytes_before(x@.skip(i as int), y@.skip(i as int)),
        decreases x@.len() - i,
    {
        if x[i] != y[i] {
            return x[i] < y[i];
        }
        assert(x@.skip(i as int).drop_first() =~= x@.skip(i + 1));
        assert(y@.skip(i as int).drop_first() =~= y@.skip(i + 1));
        i = i + 1;
    }
    i < y.len()
}

/// Whether each text comes before every later one.
pub open spec fn ascending(s: Seq<Seq<char>>) -> bool {
    forall|i: int, j: int| 0 <= i < j < s.len() ==> text_before(#[trigger] s[i], #[trigger] s[j])
}

/// Ascending texts are distinct.
pub proof fn ascending_distinct(s: Seq<Seq<char>>)
    requires
        ascending(s),
    ensures
        s.no_duplicates(),
{
    assert forall|i: int, j: int| 0 <= i < s.len() && 0 <= j < s.len() && i != j implies s[i]
        != s[j] by {
        text_order_total(s[i], s[j]);
        if i < j {
            assert(text_before(s[i], s[j]));
        } else {
            assert(text_before(s[j], s[i]));
        }
    }
}

/// Two ascending lists of the same texts are one.
pub proof fn ascending_unique(a: Seq<Seq<char>>, b: Seq<Seq<char>>)
    requires
        ascending(a),
        ascending(b),
        a.to_set() == b.to_set(),
    ensures
        a == b,
    decreases a.len(),
{
    if a.len() == 0 {
        if b.len() > 0 {
            assert(b.to_set().contains(b[0]));
            assert(a.to_set().contains(b[0]));
        }
        assert(a =~= b);
    } else {
        let x = a.last();
        assert(a.to_set().contains(x));
        assert(b.contains(x));
        let y = b.last();
        assert(b.to_set().contains(y));
        assert(a.contains(y));
        let i = b.index_of(x);
        let j = a.index_of(y);
        if x != y {
            assert(text_before(b[i], b[b.len() - 1]));
            assert(text_before(a[j], a[a.len() - 1]));
            text_order_total(x, y);
        }
        ascending_distinct(a);
        ascending_distinct(b);
        let p = a.drop_last();
        let q = b.drop_last();
        assert forall|t: Seq<char>| p.to_set().contains(t) == q.to_set().contains(t) by {
            assert(p.to_set().contains(t) == p.contains(t));
            assert(q.to_set().contains(t) == q.contains(t));
            assert(a.to_set().contains(t) == a.contains(t));
            assert(b.to_set().contains(t) == b.contains(t));
            if p.contains(t) {
                let k = p.index_of(t);
                assert(a[k] == t);
                assert(b.contains(t));
                let m = b.index_of(t);
                assert(b[m] == t);
                assert(q[m] == t);
            }
            if q.contains(t) {
                let k = q.index_of(t);
                assert(b[k] == t);
                assert(a.contains(t));
                let m = a.index_of(t);
                assert(a[m] == t);
                assert(p[m] == t);
            }
        }
        assert(p.to_set() =~= q.to_set());
        ascending_unique(p, q);
        assert(a =~= p.push(x));
        assert(b =~= q.push(y));
    }
}

/// The texts of a finite set in ascending order.
pub open spec fn sorted(set: Set<Seq<char>>) -> Seq<Seq<char>> {
    choose|s: Seq<Seq<char>>| #[trigger] ascending(s) && s.to_set() == set
}

proof fn lemma_inserted(s: Seq<Seq<char>>, x: Seq<char>) -> (r: Seq<Seq<char>>)
    requires
        ascending(s),
        !s.contains(x),
    ensures
        ascending(r),
        r.to_set() == s.to_set().insert(x),
    decreases s.len(),
{
    if s.len() == 0 || text_before(s.last(), x) {
        let r = s.push(x);
        assert forall|i: int| 0 <= i < s.len() implies text_before(#[trigger] s[i], x) by {
            if i < s.len() - 1 {
                assert(text_before(s[i], s[s.len() - 1]));
                text_order_transitive(s[i], s.last(), x);
            }
        }
        assert forall|t: Seq<char>| #[trigger] r.to_set().contains(t) == s.to_set().insert(
            x,
        ).contains(t) by {
            if s.contains(t) {
                assert(r[s.index_of(t)] == t);
            }
            if t == x {
                assert(r[s.len() as int] == t);
            }
        }
        assert(r.to_set() =~= s.to_set().insert(x));
        r
    } else {
        let rest = s.drop_last();
        let last = s.last();
        assert(s[s.len() - 1] == last);
        assert(!rest.contains(x)) by {
            if rest.contains(x) {
                assert(s[rest.index_of(x)] == x);
            }
        }
        let p = lemma_inserted(rest, x);
        let r = p.push(last);
        text_order_total(last, x);
        assert forall|i: int| 0 <= i < p.len() implies text_before(#[trigger] p[i], last) by {
            assert(p.to_set().contains(p[i]));
            if p[i] != x {
                assert(rest.to_set().contains(p[i]));
                let k = rest.index_of(p[i]);
                assert(text_before(s[k], s[s.len() - 1]));
            }
        }
        assert forall|t: Seq<char>| #[trigger] r.to_set().contains(t) == s.to_set().insert(
            x,
        ).contains(t) by {
            assert(p.to_set().contains(t) == rest.to_set().insert(x).contains(t));
            if r.contains(t) {
                let k = r.index_of(t);
                if k < p.len() {
                    assert(p[k] == t);
                    assert(p.contains(t));
                    if t != x {
                        assert(rest.contains(t));
                        assert(s[rest.index_of(t)] == t);
                    }
                } else {
                    assert(s.contains(t));
                }
            }
            if s.contains(t) {
                let k = s.index_of(t);
                if k < rest.len() {
                    assert(rest[k] == t);
                    assert(p.contains(t));
                    assert(r[p.index_of(t)] == t);
                } else {
                    assert(r[p.len() as int] == t);
                }
            }
            if t == x {
                assert(p.contains(t));
                assert(r[p.index_of(t)] == t);
            }
        }
        assert(r.to_set() =~= s.to_set().insert(x));
        r
    }
}

/// Every finite set of texts has its texts in ascending order.
pub proof fn sorted_of_finite(set: Set<Seq<char>>)
    requires
        set.finite(),
    ensures
        ascending(sorted(set)),
        sorted(set).to_set() == set,
    decreases set.len(),
{
    if set.len() == 0 {
        let none: Seq<Seq<char>> = Seq::empty();
        assert(none.to_set() =~= set);
        assert(ascending(none));
    } else {
        let x = set.choose();
        sorted_of_finite(set.remove(x));
        let s = sorted(set.remove(x));
        assert(!s.contains(x)) by {
            if s.contains(x) {
                assert(s.to_set().contains(x));
            }
        }
        let r = lemma_inserted(s, x);
        assert(set.remove(x).insert(x) =~= set);
        assert(ascending(r) && r.to_set() == set);
    }
}

/// An ascending list is the ascending list of its texts.
pub proof fn sorted_is_ascending(s: Seq<Seq<char>>)
    requires
        ascending(s),
    ensures
        sorted(s.to_set()) == s,
{
    ascending_unique(sorted(s.to_set()), s);
}

/// A set of texts, kept in ascending order.
pub struct TextSet {
    items: Vec<String>,
}

impl TextSet {
    /// The texts of the set in ascending order.
    pub closed spec fn texts(&self) -> Seq<Seq<char>> {
        text::views(self.items@)
    }

    #[verifier::type_invariant]
    closed spec fn ordered(&self) -> bool {
        ascending(self.texts())
    }

    /// The empty set.
    pub fn new() -> (r: TextSet)
        ensures
            r@ == Set::<Seq<char>>::empty(),
            r.texts() == Seq::<Seq<char>>::empty(),
    {
        let r = TextSet { items: Vec::new() };
        assert(r.texts() =~= Seq::empty());
        assert(r@ =~= Set::empty());
        r
    }

    /// The texts of the set, in ascending order.
    pub fn items(&self) -> (r: &Vec<String>)
        ensures
            text::views(r@) == self.texts(),
            ascending(self.texts()),
            self.texts() == sorted(self@),
    {
        proof {
            use_type_invariant(self);
            sorted_is_ascending(self.texts());
        }
        &self.items
    }

    /// How many texts the set holds.
    pub fn len(&self) -> (n: usize)
        ensures
            n == self@.len(),
            n == self.texts().len(),
            self@.finite(),
    {
        proof {
            use_type_invariant(self);
            ascending_distinct(self.texts());
            self.texts().unique_seq_to_set();
        }
        self.items.len()
    }

    /// Whether the set holds no text.
    pub fn is_empty(&self) -> (r: bool)
        ensures
            r == (self@ == Set::<Seq<char>>::empty()),
            r == (self.texts().len() == 0),
    {
        proof {
            if self.items@.len() > 0 {
                assert(self.texts().contains(self.texts()[0]));
                assert(self@.contains(self.texts()[0]));
            } else {
                assert(self@ =~= Set::empty());
            }
        }
        self.items.len() == 0
    }

    /// Where the text stands in the set, or where it would stand.
    pub fn slot(&self, t: &str) -> (r: (bool, usize))
        ensures
            r.1 <= self.texts().len(),
            r.0 == self@.contains(t@),
            r.0 ==> r.1 < self.texts().len() && self.texts()[r.1 as int] == t@,
            forall|j: int| 0 <= j < r.1 ==> text_before(#[trigger] self.texts()[j], t@),
            !r.0 ==> forall|j: int|
                r.1 <= j < self.texts().len() ==> text_before(t@, #[trigger] self.texts()[j]),
            ascending(self.texts()),
    {
        proof {
            use_type_invariant(self);
        }
        let mut lo: usize = 0;
        let mut hi: usize = self.items.len();
        while lo < hi
            invariant
                lo <= hi <= self.items@.len(),
                ascending(self.texts()),
                self.texts() == text::views(self.items@),
                forall|j: int| 0 <= j < lo ==> text_before(#[trigger] self.texts()[j], t@),
                forall|j: int|
                    hi <= j < self.texts().len() ==> !text_before(#[trigger] self.texts()[j], t@),
            decreases hi - lo,
        {
            let mid: usize = lo + (hi - lo) / 2;
            assert(self.texts()[mid as int] == self.items@[mid as int]@);
            if comes_before(self.items[mid].as_str(), t) {
                assert forall|j: int| 0 <= j < mid + 1 implies text_before(
                    #[trigger] self.texts()[j],
                    t@,
                ) by {
                    if j < mid {
                        text_order_transitive(self.texts()[j], self.texts()[mid as int], t@);
                    }
                }
                lo = mid + 1;
            } else {
                assert forall|j: int| mid <= j < self.texts().len() implies !text_before(
                    #[trigger] self.texts()[j],
                    t@,
                ) by {
                    if mid < j && text_before(self.texts()[j], t@) {
                        text_order_transitive(self.texts()[mid as int], self.texts()[j], t@);
                    }
                }
                hi = mid;
            }
        }
        let found = lo < self.items.len() && text::same_text(self.items[lo].as_str(), t);
        proof {
            if lo < self.texts().len() {
                assert(self.texts()[lo as int] == self.items@[lo as int]@);
            }
            if found {
                assert(self.texts().contains(self.texts()[lo as int]));
                assert(self@.contains(t@));
            } else {
                assert forall|j: int| lo <= j < self.texts().len() implies text_before(
                    t@,
                    #[trigger] self.texts()[j],
                ) by {
                    text_order_total(self.texts()[lo as int], t@);
                    if lo < j {
                        text_order_transitive(t@, self.texts()[lo as int], self.texts()[j]);
                    }
                }
                if self@.contains(t@) {
                    let j = self.texts().index_of(t@);
                    assert(self.texts()[j] == t@);
                    text_order_total(t@, t@);
                    assert(false);
                }
            }
        }
        (found, lo)
    }

    /// Whether the set holds the text.
    pub fn contains(&self, t: &str) -> (r: bool)
        ensures
            r == self@.contains(t@),
    {
        let (found, _at) = self.slot(t);
        found
    }

    /// The set with the text added, whether the text was there before, and where it stands.
    pub fn place(self, t: String) -> (r: (TextSet, bool, usize))
        ensures
            r.0@ == self@.insert(t@),
            r.1 == self@.contains(t@),
            r.1 ==> r.2 < self.texts().len() && self.texts()[r.2 as int] == t@ && r.0.texts()
                == self.texts(),
            !r.1 ==> r.2 <= self.texts().len() && r.0.texts() == self.texts().insert(
                r.2 as int,
                t@,
            ),
            ascending(r.0.texts()),
    {
        let (found, at) = self.slot(t.as_str());
        if found {
            assert(self@ =~= self@.insert(t@));
            return (self, true, at);
        }
        let ghost before = self.texts();
        let mut items = self.items;
        let ghost text = t@;
        items.insert(at, t);
        let ghost after = text::views(items@);
        proof {
            assert(after =~= before.insert(at as int, text));
            assert forall|i: int, j: int| 0 <= i < j < after.len() implies text_before(
                #[trigger] after[i],
                #[trigger] after[j],
            ) by {
                let p = if i < at { i } else { i - 1 };
                let q = if j < at { j } else { j - 1 };
                if i == at {
                    assert(after[j] == before[q]);
                } else if j == at {
                    assert(after[i] == before[p]);
                } else {
                    assert(after[i] == before[p]);
                    assert(after[j] == before[q]);
                }
            }
        }
        let r = TextSet { items };
        proof {
            assert(r.texts() == before.insert(at as int, text));
            assert forall|x: Seq<char>| r@.contains(x) == self@.insert(text).contains(x) by {
                if r@.contains(x) {
                    let i = after.index_of(x);
                    assert(after[i] == x);
                    if i != at {
                        let p = if i < at { i } else { i - 1 };
                        assert(before[p] == x);
                        assert(before.contains(x));
                    }
                }
                if self@.insert(text).contains(x) {
                    if x == text {
                        assert(after[at as int] == x);
                    } else {
                        let p = before.index_of(x);
                        let i = if p < at { p } else { p + 1 };
                        assert(after[i] == before[p]);
                    }
                    assert(after.contains(x));
                }
            }
            assert(r@ =~= self@.insert(text));
        }
        (r, false, at)
    }

    /// The set with the text added.
    pub fn with(self, t: String) -> (r: TextSet)
        ensures
            r@ == self@.insert(t@),
    {
        let (r, _found, _at) = self.place(t);
        r
    }
}

impl View for TextSet {
    type V = Set<Seq<char>>;

    open spec fn view(&self) -> Set<Seq<char>> {
        self.texts().to_set()
    }
}

/// A map from texts, kept in the order of its keys.
pub struct TextMap<V> {
    keys: TextSet,
    values: Vec<V>,
}

impl<V> TextMap<V> {
    /// The keys in ascending order.
    pub closed spec fn keys(&self) -> Seq<Seq<char>> {
        self.keys.texts()
    }

    /// The values in the order of their keys.
    pub closed spec fn values(&self) -> Seq<V> {
        self.values@
    }

    #[verifier::type_invariant]
    closed spec fn aligned(&self) -> bool {
        &&& self.values@.len() == self.keys.texts().len()
        &&& ascending(self.keys.texts())
    }

    /// Keys and values go together, and the keys ascend.
    pub open spec fn wf(&self) -> bool {
        self.keys().len() == self.values().len() && ascending(self.keys())
    }

    /// The empty map.
    pub fn new() -> (r: TextMap<V>)
        ensures
            r.wf(),
            r@ == Map::<Seq<char>, V>::empty(),
            r.keys() == Seq::<Seq<char>>::empty(),
            r.values() == Seq::<V>::empty(),
    {
        let r = TextMap { keys: TextSet::new(), values: Vec::new() };
        assert(r@ =~= Map::empty());
        r
    }

    /// Where the key stands in the map, if it is there.
    pub fn position(&self, key: &str) -> (r: Option<usize>)
        ensures
            self.wf(),
            match r {
                Some(i) => self@.dom().contains(key@) && i < self.keys().len()
                    && self.keys()[i as int] == key@ && self@[key@] == self.values()[i as int],
                None => !self@.dom().contains(key@),
            },
    {
        proof {
            use_type_invariant(self);
        }
        let (found, at) = self.keys.slot(key);
        if found {
            proof {
                assert(self.keys().contains(key@));
                ascending_distinct(self.keys());
                let i = self.keys().index_of(key@);
                assert(self.keys()[i] == key@);
                assert(i == at);
            }
            Some(at)
        } else {
            proof {
                assert(!self.keys().to_set().contains(key@));
                assert(!self.keys().contains(key@));
            }
            None
        }
    }

    /// The value of the key.
    pub fn get(&self, key: &str) -> (r: Option<&V>)
        ensures
            match r {
                Some(value) => self@.dom().contains(key@) && self@[key@] == *value,
                None => !self@.dom().contains(key@),
            },
    {
        match self.position(key) {
            Some(i) => Some(&self.values[i]),
            None => None,
        }
    }

    /// Whether the map has the key.
    pub fn contains(&self, key: &str) -> (r: bool)
        ensures
            r == self@.dom().contains(key@),
    {
        self.position(key).is_some()
    }

    /// The map with the key mapped to the value, whatever it was mapped to before.
    pub fn put(self, key: String, value: V) -> (r: TextMap<V>)
        ensures
            r.wf(),
            r@ == self@.insert(key@, value),
    {
        proof {
            use_type_invariant(&self);
        }
        let ghost text = key@;
        let ghost before = self.keys();
        let ghost kept = self.values();
        let ghost model = self@;
        let TextMap { keys, values } = self;
        let (keys, found, at) = keys.place(key);
        let mut values = values;
        if found {
            values.set(at, value);
        } else {
            values.insert(at, value);
        }
        let r = TextMap { keys, values };
        proof {
            ascending_distinct(before);
            ascending_distinct(r.keys());
            assert(found == before.to_set().contains(text));
            assert(found == before.contains(text));
            assert forall|k: Seq<char>| #[trigger] r@.dom().contains(k) == model.insert(
                text,
                value,
            ).dom().contains(k) by {
                assert(r.keys().to_set().contains(k) == before.to_set().insert(text).contains(k));
                assert(r.keys().contains(k) == r.keys().to_set().contains(k));
                assert(before.contains(k) == before.to_set().contains(k));
            }
            assert forall|k: Seq<char>| #[trigger] r@.dom().contains(k) implies r@[k]
                == model.insert(text, value)[k] by {
                let i = r.keys().index_of(k);
                assert(r.keys()[i] == k);
                if k == text {
                    assert(r.keys()[at as int] == text);
                    assert(i == at);
                } else {
                    assert(before.to_set().insert(text).contains(k));
                    assert(before.contains(k));
                    let p = before.index_of(k);
                    assert(before[p] == k);
                    let q = if found || p < at { p } else { p + 1 };
                    assert(r.keys()[q] == k);
                    assert(i == q);
                    assert(r.values()[q] == kept[p]);
                }
            }
            assert(r@ =~= model.insert(text, value));
        }
        r
    }

    /// The keys of the map in ascending order, and their values.
    pub fn into_entries(self) -> (r: (TextSet, Vec<V>))
        ensures
            r.0.texts() == sorted(self@.dom()),
            r.0@ == self@.dom(),
            r.1@ == sorted(self@.dom()).map_values(|k: Seq<char>| self@[k]),
    {
        proof {
            use_type_invariant(&self);
            let keys = self.keys();
            ascending_distinct(keys);
            assert(keys.to_set() =~= self@.dom());
            sorted_is_ascending(keys);
            assert forall|i: int| 0 <= i < keys.len() implies self@[#[trigger] keys[i]]
                == self.values()[i] by {
                assert(keys.contains(keys[i]));
                let j = keys.index_of(keys[i]);
                assert(keys[j] == keys[i]);
            }
            assert(self.values() =~= keys.map_values(|k: Seq<char>| self@[k]));
        }
        (self.keys, self.values)
    }
}

impl<V> View for TextMap<V> {
    type V = Map<Seq<char>, V>;

    open spec fn view(&self) -> Map<Seq<char>, V> {
        Map::new(
            |k: Seq<char>| self.keys().contains(k),
            |k: Seq<char>| self.values()[self.keys().index_of(k)],
        )
    }
}

/// An item with a rank and a tag. Items of higher rank go first, and of one rank those whose tag
/// comes before. An item may have no rank: between it and any other only the tags decide.
pub trait Placed: Sized {
    /// The rank of the item, if it has one.
    spec fn rank(&self) -> Option<int>;

    /// The tag of the item.
    spec fn tag(&self) -> Seq<char>;
}

/// An item that can be put into its place.
pub trait Ranked: Placed {
    /// Tests whether the item goes strictly ahead of another.
    fn goes_ahead_of(&self, other: &Self) -> (r: bool)
        ensures
            r == outranks(self.rank(), self.tag(), other.rank(), other.tag()),
    ;
}

/// Whether an item of rank `r` and tag `t` goes strictly ahead of one of rank `s` and tag `u`.
pub open spec fn outranks(r: Option<int>, t: Seq<char>, s: Option<int>, u: Seq<char>) -> bool {
    match (r, s) {
        (Some(r), Some(s)) => r > s || (r == s && text_before(t, u)),
        _ => text_before(t, u),
    }
}

/// Whether `a` goes strictly ahead of `b`.
pub open spec fn ahead<T: Placed>(a: T, b: T) -> bool {
    outranks(a.rank(), a.tag(), b.rank(), b.tag())
}

/// The items with `x` placed behind every item at the end that `x` does not go ahead of.
pub open spec fn place_ranked<T: Placed>(items: Seq<T>, x: T) -> Seq<T>
    decreases items.len(),
{
    if items.len() > 0 && ahead(x, items.last()) {
        place_ranked(items.drop_last(), x).push(items.last())
    } else {
        items.push(x)
    }
}

/// The items sorted by rank and tag, each placed in turn behind those before it; items of which
/// neither goes ahead keep their order.
pub open spec fn ranked<T: Placed>(items: Seq<T>) -> Seq<T>
    decreases items.len(),
{
    if items.len() == 0 {
        items
    } else {
        place_ranked(ranked(items.drop_last()), items.last())
    }
}

/// Whether no item goes ahead of an earlier one.
pub open spec fn in_rank_order<T: Placed>(items: Seq<T>) -> bool {
    forall|i: int, j: int|
        0 <= i < j < items.len() ==> !ahead(#[trigger] items[j], #[trigger] items[i])
}

proof fn lemma_place_index<T: Placed>(items: Seq<T>, x: T) -> (k: int)
    ensures
        0 <= k <= items.len(),
        place_ranked(items, x) == items.insert(k, x),
        k > 0 ==> !ahead(x, items[k - 1]),
        forall|j: int| k <= j < items.len() ==> ahead(x, #[trigger] items[j]),
    decreases items.len(),
{
    if items.len() > 0 && ahead(x, items.last()) {
        let k = lemma_place_index(items.drop_last(), x);
        assert(items.drop_last().insert(k, x).push(items.last()) =~= items.insert(k, x));
        assert forall|j: int| k <= j < items.len() implies ahead(x, #[trigger] items[j]) by {
            if j < items.len() - 1 {
                assert(items.drop_last()[j] == items[j]);
            }
        }
        k
    } else {
        assert(items.push(x) =~= items.insert(items.len() as int, x));
        items.len() as int
    }
}

/// Whether the places of the items agree: where the second does not go ahead of the first, nor
/// the third of the second, the third does not go ahead of the first. Items without a rank can
/// make them disagree: then no order suits all of the items.
pub open spec fn places_agree<T: Placed>(items: Seq<T>) -> bool {
    forall|a: T, b: T, c: T|
        items.contains(a) && items.contains(b) && items.contains(c) && !#[trigger] ahead(b, a)
            && !#[trigger] ahead(c, b) ==> !ahead(c, a)
}

/// The places of items that all have a rank agree.
pub proof fn ranks_agree<T: Placed>(items: Seq<T>)
    requires
        forall|i: int| 0 <= i < items.len() ==> (#[trigger] items[i]).rank() is Some,
    ensures
        places_agree(items),
{
    assert forall|a: T, b: T, c: T|
        items.contains(a) && items.contains(b) && items.contains(c) && !#[trigger] ahead(b, a)
            && !#[trigger] ahead(c, b) implies !ahead(c, a) by {
        assert(a.rank() is Some && b.rank() is Some && c.rank() is Some);
        text_order_total(a.tag(), b.tag());
        text_order_total(b.tag(), c.tag());
        text_order_total(a.tag(), c.tag());
        if text_before(a.tag(), b.tag()) && text_before(b.tag(), c.tag()) {
            text_order_transitive(a.tag(), b.tag(), c.tag());
        }
    }
}

/// Sorting leaves no item ahead of an earlier one, wherever the places agree.
pub proof fn ranked_is_in_order<T: Placed>(items: Seq<T>)
    requires
        places_agree(items),
    ensures
        in_rank_order(ranked(items)),
    decreases items.len(),
{
    broadcast use vstd::seq_lib::group_to_multiset_ensures;

    if items.len() > 0 {
        let rest = items.drop_last();
        let sorted = ranked(rest);
        let x = items.last();
        assert forall|y: T| rest.contains(y) implies items.contains(y) by {
            assert(items[rest.index_of(y)] == y);
        }
        ranked_is_in_order(rest);
        ranked_keeps_items(rest);
        let k = lemma_place_index(sorted, x);
        let all = sorted.insert(k, x);
        assert forall|i: int, j: int| 0 <= i < j < all.len() implies !ahead(
            #[trigger] all[j],
            #[trigger] all[i],
        ) by {
            let p = if i < k { i } else { i - 1 };
            let q = if j < k { j } else { j - 1 };
            if i == k {
                assert(all[j] == sorted[q]);
                text_order_total(x.tag(), sorted[q].tag());
            } else if j == k {
                assert(all[i] == sorted[p]);
                if p < k - 1 {
                    assert(!ahead(sorted[k - 1], sorted[p]));
                    lemma_ranked_from(rest, p);
                    lemma_ranked_from(rest, k - 1);
                    assert(items.contains(x));
                }
            } else {
                assert(all[i] == sorted[p]);
                assert(all[j] == sorted[q]);
            }
        }
    }
}

/// What is sorted comes from the items.
proof fn lemma_ranked_from<T: Placed>(items: Seq<T>, i: int)
    requires
        0 <= i < ranked(items).len(),
    ensures
        items.contains(ranked(items)[i]),
{
    broadcast use vstd::seq_lib::group_to_multiset_ensures;

    ranked_keeps_items(items);
    let sorted = ranked(items);
    assert(sorted.contains(sorted[i]));
    assert(sorted.to_multiset().count(sorted[i]) > 0);
}

/// Sorting keeps the items, each as often as it occurs.
pub proof fn ranked_keeps_items<T: Placed>(items: Seq<T>)
    ensures
        ranked(items).to_multiset() == items.to_multiset(),
        ranked(items).len() == items.len(),
    decreases items.len(),
{
    broadcast use vstd::seq_lib::group_to_multiset_ensures;

    if items.len() > 0 {
        let sorted = ranked(items.drop_last());
        ranked_keeps_items(items.drop_last());
        let k = lemma_place_index(sorted, items.last());
        assert(items =~= items.drop_last().push(items.last()));
    }
}

/// Whether neither an item nor `a` goes ahead of the other.
pub open spec fn ties<T: Placed>(a: T) -> spec_fn(T) -> bool {
    |x: T| !ahead(a, x) && !ahead(x, a)
}

/// Sorting keeps the order of items of which neither goes ahead, wherever the places agree.
pub proof fn ranked_is_stable<T: Placed>(items: Seq<T>, a: T)
    requires
        places_agree(items),
        items.contains(a),
    ensures
        ranked(items).filter(ties(a)) == items.filter(ties(a)),
{
    assert(items.take(items.len() as int) =~= items);
    lemma_stable_up_to(items, a, items.len() as int);
}

proof fn lemma_stable_up_to<T: Placed>(items: Seq<T>, a: T, n: int)
    requires
        places_agree(items),
        items.contains(a),
        0 <= n <= items.len(),
    ensures
        ranked(items.take(n)).filter(ties(a)) == items.take(n).filter(ties(a)),
    decreases n,
{
    if n > 0 {
        let rest = items.take(n - 1);
        let x = items[n - 1];
        lemma_stable_up_to(items, a, n - 1);
        assert forall|i: int| 0 <= i < ranked(rest).len() implies items.contains(
            #[trigger] ranked(rest)[i],
        ) by {
            lemma_ranked_from(rest, i);
            let y = ranked(rest)[i];
            assert(items[rest.index_of(y)] == y);
        }
        lemma_place_filter(items, ranked(rest), x, a);
        text::lemma_filter_push(ranked(rest), x, ties(a));
        text::lemma_filter_push(rest, x, ties(a));
        assert(items.take(n) =~= rest.push(x));
        assert(items.take(n).drop_last() =~= rest);
    }
}

proof fn lemma_place_filter<T: Placed>(all: Seq<T>, items: Seq<T>, x: T, a: T)
    requires
        places_agree(all),
        all.contains(a),
        all.contains(x),
        forall|i: int| 0 <= i < items.len() ==> all.contains(#[trigger] items[i]),
    ensures
        place_ranked(items, x).filter(ties(a)) == items.push(x).filter(ties(a)),
    decreases items.len(),
{
    if items.len() > 0 && ahead(x, items.last()) {
        let same = ties::<T>(a);
        let rest = items.drop_last();
        let last = items.last();
        assert forall|i: int| 0 <= i < rest.len() implies all.contains(#[trigger] rest[i]) by {
            assert(rest[i] == items[i]);
        }
        lemma_place_filter(all, rest, x, a);
        assert(!(same(x) && same(last)));
        text::lemma_filter_push(place_ranked(rest, x), last, same);
        text::lemma_filter_push(rest, x, same);
        text::lemma_filter_push(rest, last, same);
        text::lemma_filter_push(items, x, same);
        assert(rest.push(last) =~= items);
    }
}

proof fn lemma_place_map<T: Placed, U: Placed>(items: Seq<T>, x: T, f: spec_fn(T) -> U)
    requires
        forall|y: T| (#[trigger] f(y)).rank() == y.rank() && f(y).tag() == y.tag(),
    ensures
        place_ranked(items, x).map_values(f) == place_ranked(items.map_values(f), f(x)),
    decreases items.len(),
{
    let all = items.map_values(f);
    if items.len() > 0 {
        assert(all.last() == f(items.last()));
        if ahead(x, items.last()) {
            lemma_place_map(items.drop_last(), x, f);
            assert(all.drop_last() =~= items.drop_last().map_values(f));
            assert(place_ranked(items.drop_last(), x).push(items.last()).map_values(f)
                =~= place_ranked(items.drop_last(), x).map_values(f).push(f(items.last())));
        } else {
            assert(items.push(x).map_values(f) =~= all.push(f(x)));
        }
    } else {
        assert(items.push(x).map_values(f) =~= all.push(f(x)));
    }
}

/// Sorting goes by ranks and tags alone.
pub proof fn ranked_map<T: Placed, U: Placed>(items: Seq<T>, f: spec_fn(T) -> U)
    requires
        forall|y: T| (#[trigger] f(y)).rank() == y.rank() && f(y).tag() == y.tag(),
    ensures
        ranked(items).map_values(f) == ranked(items.map_values(f)),
    decreases items.len(),
{
    let all = items.map_values(f);
    if items.len() > 0 {
        ranked_map(items.drop_last(), f);
        lemma_place_map(ranked(items.drop_last()), items.last(), f);
        assert(all.drop_last() =~= items.drop_last().map_values(f));
        assert(all.last() == f(items.last()));
    } else {
        assert(ranked(items).map_values(f) =~= ranked(all));
    }
}

/// Sorts the items by rank and tag.
pub fn sort_ranked<T: Ranked>(items: Vec<T>) -> (r: Vec<T>)
    ensures
        r@ == ranked(items@),
{
    let mut r: Vec<T> = Vec::new();
    assert(items@.take(0) =~= Seq::empty());
    for x in it: items
        invariant
            it.seq() == items@,
            r@ == ranked(items@.take(it.index() as int)),
    {
        let ghost n = it.index() as int;
        let mut at: usize = r.len();
        proof {
            assert(r@.take(at as int) =~= r@);
            assert(place_ranked(r@, x) + r@.skip(at as int) =~= place_ranked(r@, x));
        }
        while at > 0 && x.goes_ahead_of(&r[at - 1])
            invariant
                at <= r@.len(),
                place_ranked(r@, x) == place_ranked(r@.take(at as int), x) + r@.skip(at as int),
            decreases at,
        {
            proof {
                assert(r@.take(at as int).drop_last() =~= r@.take(at - 1));
                assert(place_ranked(r@.take(at - 1), x).push(r@[at - 1]) + r@.skip(at as int)
                    =~= place_ranked(r@.take(at - 1), x) + r@.skip(at - 1));
            }
            at = at - 1;
        }
        proof {
            assert(r@.take(at as int).push(x) + r@.skip(at as int) =~= r@.insert(at as int, x));
            assert(items@.take(n + 1).drop_last() =~= items@.take(n));
        }
        r.insert(at, x);
    }
    assert(items@.take(items@.len() as int) =~= items@);
    r
}

/// Of two byte sequences the first place at which they differ decides, and one that another merely
/// goes on from comes before it. Texts go by their UTF-8 bytes.
pub proof fn first_difference_decides(
    same: Seq<u8>,
    x: u8,
    y: u8,
    a: Seq<u8>,
    b: Seq<u8>,
    s: Seq<char>,
    t: Seq<char>,
)
    ensures
        x < y ==> bytes_before(same + seq![x] + a, same + seq![y] + b),
        x > y ==> !bytes_before(same + seq![x] + a, same + seq![y] + b),
        bytes_before(same, same + seq![x] + a),
        !bytes_before(same + seq![x] + a, same),
        text_before(s, t) == bytes_before(encode_utf8(s), encode_utf8(t)),
    decreases same.len(),
{
    let p = same + seq![x] + a;
    let q = same + seq![y] + b;
    if same.len() > 0 {
        let rest = same.drop_first();
        first_difference_decides(rest, x, y, a, b, s, t);
        assert(p.drop_first() =~= rest + seq![x] + a);
        assert(q.drop_first() =~= rest + seq![y] + b);
        assert(p[0] == same[0] && q[0] == same[0]);
    } else {
        assert(p[0] == x && q[0] == y);
    }
}

/// An item of higher rank goes ahead; of two of one rank, or where one has none, the one whose tag
/// comes before.
pub proof fn rank_decides_first<T: Placed>(a: T, b: T)
    ensures
        a.rank() is Some && b.rank() is Some && a.rank()->0 > b.rank()->0 ==> ahead(a, b) && !ahead(
            b,
            a,
        ),
        a.rank() == b.rank() || a.rank() is None || b.rank() is None ==> ahead(a, b) == text_before(
            a.tag(),
            b.tag(),
        ),
{
}

} // verus!
