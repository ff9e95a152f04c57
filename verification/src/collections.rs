//! Sets and maps of texts, kept in the order of the texts.

use vstd::prelude::*;

use crate::text::{copy_texts, texts, to_chars};

verus! {

// ---------------------------------------------------------------------------
// The order of texts
// ---------------------------------------------------------------------------

/// `a` comes before `b`, from position `i` on.
pub open spec fn before_from(a: Seq<char>, b: Seq<char>, i: int) -> bool
    decreases a.len() - i,
{
    if i < 0 || i >= b.len() {
        false
    } else if i >= a.len() {
        true
    } else {
        a[i] < b[i] || (a[i] == b[i] && before_from(a, b, i + 1))
    }
}

/// `a` comes before `b`: the first characters in which they differ decide, and
/// a text comes before what extends it.
pub open spec fn before(a: Seq<char>, b: Seq<char>) -> bool {
    before_from(a, b, 0)
}

/// Each text comes before those that follow it.
pub open spec fn ascending(s: Seq<Seq<char>>) -> bool {
    forall|i: int, j: int| 0 <= i < j < s.len() ==> before(s[i], s[j])
}

/// The members of a finite set of texts, in order.
pub open spec fn listing(set: Set<Seq<char>>) -> Seq<Seq<char>> {
    choose|s: Seq<Seq<char>>| ascending(s) && s.to_set() == set
}

proof fn lemma_before_irreflexive(a: Seq<char>, i: int)
    requires
        0 <= i,
    ensures
        !before_from(a, a, i),
    decreases a.len() - i,
{
    if i < a.len() {
        lemma_before_irreflexive(a, i + 1);
    }
}

proof fn lemma_before_transitive(a: Seq<char>, b: Seq<char>, c: Seq<char>, i: int)
    requires
        0 <= i,
        before_from(a, b, i),
        before_from(b, c, i),
    ensures
        before_from(a, c, i),
    decreases a.len() - i,
{
    if i < a.len() && i < b.len() && i < c.len() && a[i] == b[i] && b[i] == c[i] {
        lemma_before_transitive(a, b, c, i + 1);
    }
}

proof fn lemma_before_total(a: Seq<char>, b: Seq<char>, i: int)
    requires
        0 <= i <= a.len(),
        i <= b.len(),
        !before_from(a, b, i),
        !before_from(b, a, i),
    ensures
        a.len() == b.len(),
        forall|k: int| i <= k < a.len() ==> a[k] == b[k],
    decreases a.len() - i,
{
    if i < a.len() && i < b.len() {
        lemma_before_total(a, b, i + 1);
    }
}

/// No text comes before itself.
pub proof fn order_is_irreflexive(a: Seq<char>)
    ensures
        !before(a, a),
{
    lemma_before_irreflexive(a, 0);
}

/// What comes before a text comes before all that this text comes before.
pub proof fn order_is_transitive(a: Seq<char>, b: Seq<char>, c: Seq<char>)
    requires
        before(a, b),
        before(b, c),
    ensures
        before(a, c),
{
    lemma_before_transitive(a, b, c, 0);
}

/// Of two different texts one comes before the other.
pub proof fn order_is_total(a: Seq<char>, b: Seq<char>)
    ensures
        before(a, b) || before(b, a) || a == b,
{
    if !before(a, b) && !before(b, a) {
        lemma_before_total(a, b, 0);
        assert(a =~= b);
    }
}

proof fn lemma_ascending_distinct(s: Seq<Seq<char>>)
    requires
        ascending(s),
    ensures
        s.no_duplicates(),
        s.to_set().finite(),
        s.to_set().len() == s.len(),
{
    assert forall|i: int, j: int| 0 <= i < s.len() && 0 <= j < s.len() && i != j implies s[i]
        != s[j] by {
        order_is_irreflexive(s[i]);
        if i < j {
            assert(before(s[i], s[j]));
        } else {
            assert(before(s[j], s[i]));
        }
    }
    s.unique_seq_to_set();
}

proof fn lemma_same_ascending(s: Seq<Seq<char>>, t: Seq<Seq<char>>)
    requires
        ascending(s),
        ascending(t),
        s.to_set() == t.to_set(),
    ensures
        s == t,
    decreases s.len(),
{
    lemma_ascending_distinct(s);
    lemma_ascending_distinct(t);
    if s.len() == 0 {
        assert(s =~= t);
    } else {
        let x = s.last();
        let y = t.last();
        assert(s.to_set().contains(x));
        assert(t.to_set().contains(y));
        assert(t.contains(x));
        assert(s.contains(y));
        let k = t.index_of(x);
        let j = s.index_of(y);
        if x != y {
            assert(before(t[k], t[t.len() - 1]));
            assert(before(s[j], s[s.len() - 1]));
            order_is_transitive(x, y, x);
            order_is_irreflexive(x);
        }
        let s0 = s.drop_last();
        let t0 = t.drop_last();
        assert forall|z: Seq<char>| s0.to_set().contains(z) <==> t0.to_set().contains(z) by {
            if s0.contains(z) {
                let i = s0.index_of(z);
                assert(s[i] == z);
                assert(s.to_set().contains(z));
                assert(t.contains(z));
                let m = t.index_of(z);
                assert(t0[m] == z);
            }
            if t0.contains(z) {
                let i = t0.index_of(z);
                assert(t[i] == z);
                assert(t.to_set().contains(z));
                assert(s.contains(z));
                let m = s.index_of(z);
                assert(s0[m] == z);
            }
        }
        assert(s0.to_set() =~= t0.to_set());
        lemma_same_ascending(s0, t0);
        assert(s =~= s0.push(x));
        assert(t =~= t0.push(y));
    }
}

/// An ascending list is the listing of its members.
pub proof fn listing_of_ascending(s: Seq<Seq<char>>)
    requires
        ascending(s),
    ensures
        listing(s.to_set()) == s,
        s.no_duplicates(),
        s.to_set().finite(),
        s.to_set().len() == s.len(),
{
    let t = listing(s.to_set());
    assert(ascending(t) && t.to_set() == s.to_set());
    lemma_same_ascending(t, s);
    lemma_ascending_distinct(s);
}

proof fn lemma_spot(s: Seq<Seq<char>>, x: Seq<char>) -> (i: int)
    requires
        ascending(s),
        !s.contains(x),
    ensures
        0 <= i <= s.len(),
        forall|j: int| 0 <= j < i ==> before(s[j], x),
        forall|j: int| i <= j < s.len() ==> before(x, s[j]),
    decreases s.len(),
{
    if s.len() == 0 {
        0
    } else {
        let y = s.last();
        assert(s.contains(y));
        order_is_total(x, y);
        if before(y, x) {
            assert forall|j: int| 0 <= j < s.len() implies before(s[j], x) by {
                if j < s.len() - 1 {
                    assert(before(s[j], s[s.len() - 1]));
                    order_is_transitive(s[j], y, x);
                }
            }
            s.len() as int
        } else {
            let less = s.drop_last();
            assert(!less.contains(x)) by {
                if less.contains(x) {
                    let k = less.index_of(x);
                    assert(s[k] == x);
                }
            }
            let i = lemma_spot(less, x);
            assert forall|j: int| 0 <= j < i implies before(s[j], x) by {
                assert(less[j] == s[j]);
            }
            assert forall|j: int| i <= j < s.len() implies before(x, s[j]) by {
                if j < s.len() - 1 {
                    assert(less[j] == s[j]);
                }
            }
            i
        }
    }
}

/// The listing of a finite set holds its members and nothing else, in order.
pub proof fn listing_holds_the_members(set: Set<Seq<char>>)
    requires
        set.finite(),
    ensures
        ascending(listing(set)),
        listing(set).to_set() == set,
        listing(set).len() == set.len(),
    decreases set.len(),
{
    if set.len() == 0 {
        let none = Seq::<Seq<char>>::empty();
        assert(set =~= none.to_set());
        assert(ascending(none));
        listing_of_ascending(none);
    } else {
        let x = set.choose();
        let less = set.remove(x);
        listing_holds_the_members(less);
        let s = listing(less);
        assert(!s.contains(x)) by {
            if s.contains(x) {
                assert(s.to_set().contains(x));
            }
        }
        let i = lemma_spot(s, x);
        lemma_insert_keeps_order(s, i, x);
        assert(less.insert(x) =~= set);
        listing_of_ascending(s.insert(i, x));
    }
}

proof fn lemma_insert_keeps_order(s: Seq<Seq<char>>, i: int, x: Seq<char>)
    requires
        ascending(s),
        0 <= i <= s.len(),
        forall|j: int| 0 <= j < i ==> before(s[j], x),
        forall|j: int| i <= j < s.len() ==> before(x, s[j]),
    ensures
        ascending(s.insert(i, x)),
        s.insert(i, x).to_set() == s.to_set().insert(x),
{
    let t = s.insert(i, x);
    assert forall|a: int, b: int| 0 <= a < b < t.len() implies before(t[a], t[b]) by {
        if a < i {
            assert(t[a] == s[a]);
        } else if a > i {
            assert(t[a] == s[a - 1]);
        }
        if b < i {
            assert(t[b] == s[b]);
        } else if b > i {
            assert(t[b] == s[b - 1]);
        }
    }
    assert forall|z: Seq<char>| t.to_set().contains(z) <==> s.to_set().insert(x).contains(z) by {
        if t.contains(z) {
            let k = t.index_of(z);
            if k < i {
                assert(s[k] == z);
            } else if k > i {
                assert(s[k - 1] == z);
            }
        }
        if s.contains(z) {
            let k = s.index_of(z);
            if k < i {
                assert(t[k] == z);
            } else {
                assert(t[k + 1] == z);
            }
        }
        assert(t[i] == x);
    }
    assert(t.to_set() =~= s.to_set().insert(x));
}

/// Where a text stands in relation to another.
pub enum Place {
    Before,
    Same,
    After,
}

/// Whether `a` comes before `b`, is the same, or comes after.
pub fn place(a: &str, b: &str) -> (r: Place)
    ensures
        match r {
            Place::Before => before(a@, b@),
            Place::Same => a@ == b@,
            Place::After => before(b@, a@),
        },
{
    let ac = to_chars(a);
    let bc = to_chars(b);
    let mut i: usize = 0;
    while i < ac.len() && i < bc.len()
        invariant
            ac@ == a@,
            bc@ == b@,
            i <= a@.len(),
            i <= b@.len(),
            forall|k: int| 0 <= k < i ==> a@[k] == b@[k],
            before_from(a@, b@, i as int) == before(a@, b@),
            before_from(b@, a@, i as int) == before(b@, a@),
        decreases a@.len() - i,
    {
        if ac[i] < bc[i] {
            return Place::Before;
        }
        if bc[i] < ac[i] {
            return Place::After;
        }
        i += 1;
    }
    if i < bc.len() {
        Place::Before
    } else if i < ac.len() {
        Place::After
    } else {
        assert(a@ =~= b@);
        Place::Same
    }
}

/// Where `x` stands in an ascending list, or else where it belongs.
fn locate(items: &Vec<String>, x: &str) -> (r: (bool, usize))
    requires
        ascending(texts(items@)),
    ensures
        r.0 ==> r.1 < items@.len() && items@[r.1 as int]@ == x@,
        !r.0 ==> r.1 <= items@.len() && (forall|j: int|
            0 <= j < r.1 ==> before(#[trigger] texts(items@)[j], x@)) && (forall|j: int|
            r.1 <= j < items@.len() ==> before(x@, #[trigger] texts(items@)[j])),
        !r.0 ==> !texts(items@).contains(x@),
{
    let ghost t = texts(items@);
    let mut lo: usize = 0;
    let mut hi: usize = items.len();
    while lo < hi
        invariant
            t == texts(items@),
            ascending(t),
            lo <= hi <= items@.len(),
            forall|j: int| 0 <= j < lo ==> before(#[trigger] t[j], x@),
            forall|j: int| hi <= j < t.len() ==> before(x@, #[trigger] t[j]),
        decreases hi - lo,
    {
        let mid: usize = lo + (hi - lo) / 2;
        match place(&items[mid], x) {
            Place::Same => {
                return (true, mid);
            },
            Place::Before => {
                assert forall|j: int| 0 <= j < mid + 1 implies before(#[trigger] t[j], x@) by {
                    if j < mid {
                        order_is_transitive(t[j], t[mid as int], x@);
                    }
                }
                lo = mid + 1;
            },
            Place::After => {
                assert forall|j: int| mid <= j < t.len() implies before(x@, #[trigger] t[j]) by {
                    if mid < j {
                        order_is_transitive(x@, t[mid as int], t[j]);
                    }
                }
                hi = mid;
            },
        }
    }
    proof {
        if t.contains(x@) {
            let k = t.index_of(x@);
            order_is_irreflexive(x@);
            assert(before(t[k], x@) || before(x@, t[k]));
        }
    }
    (false, lo)
}

// ---------------------------------------------------------------------------
// Sets
// ---------------------------------------------------------------------------

/// A set of texts, kept in their order.
#[derive(Debug)]
pub struct TextSet {
    items: Vec<String>,
}

impl View for TextSet {
    type V = Set<Seq<char>>;

    closed spec fn view(&self) -> Set<Seq<char>> {
        texts(self.items@).to_set()
    }
}

impl TextSet {
    #[verifier::type_invariant]
    spec fn in_order(self) -> bool {
        ascending(texts(self.items@))
    }

    /// The empty set.
    pub fn new() -> (r: Self)
        ensures
            r@ == Set::<Seq<char>>::empty(),
    {
        let r = TextSet { items: Vec::new() };
        assert(r@ =~= Set::<Seq<char>>::empty());
        r
    }

    /// How many texts the set holds.
    pub fn len(&self) -> (r: usize)
        ensures
            self@.finite(),
            r == self@.len(),
            r == listing(self@).len(),
    {
        proof {
            use_type_invariant(self);
            listing_of_ascending(texts(self.items@));
        }
        self.items.len()
    }

    /// Whether the set holds nothing.
    pub fn is_empty(&self) -> (r: bool)
        ensures
            r == (self@ == Set::<Seq<char>>::empty()),
            r == (listing(self@).len() == 0),
    {
        proof {
            use_type_invariant(self);
            listing_of_ascending(texts(self.items@));
            if self.items@.len() > 0 {
                assert(self@.contains(texts(self.items@)[0]));
            } else {
                assert(self@ =~= Set::<Seq<char>>::empty());
            }
        }
        self.items.len() == 0
    }

    /// The text at position `i` in the order.
    pub fn get(&self, i: usize) -> (r: &String)
        requires
            i < listing(self@).len(),
        ensures
            r@ == listing(self@)[i as int],
            self@.contains(r@),
    {
        proof {
            use_type_invariant(self);
            listing_of_ascending(texts(self.items@));
            assert(self@.contains(texts(self.items@)[i as int]));
        }
        &self.items[i]
    }

    /// Whether `x` is in the set.
    pub fn contains(&self, x: &str) -> (r: bool)
        ensures
            r == self@.contains(x@),
    {
        proof {
            use_type_invariant(self);
        }
        let found = locate(&self.items, x);
        proof {
            if found.0 {
                assert(texts(self.items@)[found.1 as int] == x@);
            }
        }
        found.0
    }

    /// Adds `x`; says whether it was not yet there.
    pub fn insert(&mut self, x: String) -> (r: bool)
        ensures
            final(self)@ == old(self)@.insert(x@),
            r == !old(self)@.contains(x@),
    {
        proof {
            use_type_invariant(&*self);
        }
        let found = locate(&self.items, &x);
        if found.0 {
            proof {
                assert(texts(self.items@)[found.1 as int] == x@);
                assert(self@.insert(x@) =~= self@);
            }
            return false;
        }
        let ghost t = texts(self.items@);
        let mut items: Vec<String> = Vec::new();
        std::mem::swap(&mut items, &mut self.items);
        let ghost added = x@;
        items.insert(found.1, x);
        proof {
            assert(texts(items@) =~= t.insert(found.1 as int, added));
            lemma_insert_keeps_order(t, found.1 as int, added);
        }
        self.items = items;
        true
    }

    /// Adds every text of `other`.
    pub fn extend(&mut self, other: &TextSet)
        ensures
            final(self)@ == old(self)@.union(other@),
    {
        proof {
            use_type_invariant(other);
        }
        let ghost start = self@;
        let ghost t = texts(other.items@);
        for i in 0..other.items.len()
            invariant
                t == texts(other.items@),
                self@ == start.union(t.take(i as int).to_set()),
        {
            self.insert(other.items[i].clone());
            proof {
                lemma_take_one_more(t, i as int);
            }
            assert(self@ =~= start.union(t.take(i + 1).to_set()));
        }
        assert(t.take(t.len() as int) =~= t);
    }

    /// The texts in their order.
    pub fn to_vec(&self) -> (r: Vec<String>)
        ensures
            texts(r@) == listing(self@),
            listing(self@).to_set() == self@,
            ascending(listing(self@)),
    {
        proof {
            use_type_invariant(self);
            listing_of_ascending(texts(self.items@));
        }
        assert(texts(self.items@).take(self.items@.len() as int) =~= texts(self.items@));
        copy_texts(&self.items, self.items.len())
    }

    /// The set of the given texts.
    pub fn from_list(list: &[String]) -> (r: Self)
        ensures
            r@ == texts(list@).to_set(),
    {
        let mut out = TextSet::new();
        let ghost t = texts(list@);
        assert(t.take(0).to_set() =~= Set::<Seq<char>>::empty());
        for i in 0..list.len()
            invariant
                t == texts(list@),
                out@ == t.take(i as int).to_set(),
        {
            out.insert(list[i].clone());
            proof {
                lemma_take_one_more(t, i as int);
            }
        }
        assert(t.take(t.len() as int) =~= t);
        out
    }

    /// The first `n` texts of the order.
    pub fn first(&self, n: usize) -> (r: Self)
        requires
            n <= listing(self@).len(),
        ensures
            r@ == listing(self@).take(n as int).to_set(),
            listing(r@) == listing(self@).take(n as int),
    {
        proof {
            use_type_invariant(self);
            listing_of_ascending(texts(self.items@));
        }
        let items = copy_texts(&self.items, n);
        proof {
            listing_of_ascending(texts(items@));
        }
        TextSet { items }
    }
}

/// One more text of a list adds that text to the set of those before it.
pub proof fn lemma_take_one_more(t: Seq<Seq<char>>, i: int)
    requires
        0 <= i < t.len(),
    ensures
        t.take(i + 1).to_set() == t.take(i).to_set().insert(t[i]),
{
    assert forall|z: Seq<char>|
        t.take(i + 1).to_set().contains(z) <==> t.take(i).to_set().insert(t[i]).contains(z) by {
        if t.take(i).contains(z) {
            let k = t.take(i).index_of(z);
            assert(t.take(i + 1)[k] == z);
        }
        if t.take(i + 1).contains(z) {
            let k = t.take(i + 1).index_of(z);
            if k < i {
                assert(t.take(i)[k] == z);
            }
        }
        assert(t.take(i + 1)[i] == t[i]);
    }
    assert(t.take(i + 1).to_set() =~= t.take(i).to_set().insert(t[i]));
}

impl Clone for TextSet {
    fn clone(&self) -> (r: Self)
        ensures
            r@ == self@,
    {
        proof {
            use_type_invariant(self);
        }
        assert(texts(self.items@).take(self.items@.len() as int) =~= texts(self.items@));
        TextSet { items: copy_texts(&self.items, self.items.len()) }
    }
}

// ---------------------------------------------------------------------------
// Maps
// ---------------------------------------------------------------------------

/// A map from texts, kept in the order of its keys.
#[derive(Debug)]
pub struct TextMap<V> {
    keys: Vec<String>,
    values: Vec<V>,
}

impl<V> View for TextMap<V> {
    type V = Map<Seq<char>, V>;

    closed spec fn view(&self) -> Map<Seq<char>, V> {
        Map::new(
            |k: Seq<char>| texts(self.keys@).contains(k),
            |k: Seq<char>| self.values@[texts(self.keys@).index_of(k)],
        )
    }
}

impl<V> TextMap<V> {
    #[verifier::type_invariant]
    spec fn in_order(self) -> bool {
        &&& ascending(texts(self.keys@))
        &&& self.keys@.len() == self.values@.len()
    }

    proof fn lemma_layout(&self)
        requires
            self.in_order(),
        ensures
            self@.dom() == texts(self.keys@).to_set(),
            self@.dom().finite(),
            self@.dom().len() == self.keys@.len(),
            listing(self@.dom()) == texts(self.keys@),
            texts(self.keys@).no_duplicates(),
            forall|i: int|
                0 <= i < self.keys@.len() ==> self@.contains_key(#[trigger] texts(self.keys@)[i])
                    && self@[texts(self.keys@)[i]] == self.values@[i],
    {
        let t = texts(self.keys@);
        assert(self@.dom() =~= t.to_set());
        listing_of_ascending(t);
        assert forall|i: int| 0 <= i < self.keys@.len() implies self@.contains_key(
            #[trigger] t[i],
        ) && self@[t[i]] == self.values@[i] by {
            assert(t.contains(t[i]));
            assert(t.index_of(t[i]) == i);
        }
    }

    /// The empty map.
    pub fn new() -> (r: Self)
        ensures
            r@ == Map::<Seq<char>, V>::empty(),
    {
        let r = TextMap { keys: Vec::new(), values: Vec::new() };
        assert(r@ =~= Map::<Seq<char>, V>::empty());
        r
    }

    /// How many keys the map holds.
    pub fn len(&self) -> (r: usize)
        ensures
            self@.dom().finite(),
            r == self@.dom().len(),
            r == listing(self@.dom()).len(),
            listing(self@.dom()).to_set() == self@.dom(),
            ascending(listing(self@.dom())),
            listing(self@.dom()).no_duplicates(),
    {
        proof {
            use_type_invariant(self);
            self.lemma_layout();
        }
        self.keys.len()
    }

    /// The key at position `i` in the order.
    pub fn key(&self, i: usize) -> (r: &String)
        requires
            i < listing(self@.dom()).len(),
        ensures
            r@ == listing(self@.dom())[i as int],
            self@.contains_key(r@),
    {
        proof {
            use_type_invariant(self);
            self.lemma_layout();
            assert(texts(self.keys@)[i as int] == self.keys@[i as int]@);
        }
        &self.keys[i]
    }

    /// The value at position `i` in the order of the keys.
    pub fn value(&self, i: usize) -> (r: &V)
        requires
            i < listing(self@.dom()).len(),
        ensures
            *r == self@[listing(self@.dom())[i as int]],
            self@.contains_key(listing(self@.dom())[i as int]),
    {
        proof {
            use_type_invariant(self);
            self.lemma_layout();
            assert(texts(self.keys@)[i as int] == self.keys@[i as int]@);
        }
        &self.values[i]
    }

    /// Where `k` stands in the order of the keys.
    pub fn position(&self, k: &str) -> (r: Option<usize>)
        ensures
            match r {
                Some(i) => i < listing(self@.dom()).len() && listing(self@.dom())[i as int] == k@
                    && self@.contains_key(k@),
                None => !self@.contains_key(k@),
            },
    {
        proof {
            use_type_invariant(self);
            self.lemma_layout();
        }
        let found = locate(&self.keys, k);
        if found.0 {
            assert(texts(self.keys@)[found.1 as int] == k@);
            Some(found.1)
        } else {
            None
        }
    }

    /// The value of `k`.
    pub fn get(&self, k: &str) -> (r: Option<&V>)
        ensures
            match r {
                Some(v) => self@.contains_key(k@) && *v == self@[k@],
                None => !self@.contains_key(k@),
            },
    {
        match self.position(k) {
            Some(i) => Some(self.value(i)),
            None => None,
        }
    }

    /// Whether `k` is a key.
    pub fn contains_key(&self, k: &str) -> (r: bool)
        ensures
            r == self@.contains_key(k@),
    {
        self.position(k).is_some()
    }

    /// Gives the key at position `i` the value `v`.
    pub fn set_value(&mut self, i: usize, v: V)
        requires
            i < listing(old(self)@.dom()).len(),
        ensures
            final(self)@ == old(self)@.insert(listing(old(self)@.dom())[i as int], v),
            final(self)@.dom() == old(self)@.dom(),
    {
        proof {
            use_type_invariant(&*self);
            self.lemma_layout();
        }
        let ghost keys = texts(self.keys@);
        let ghost was = self@;
        let mut taken = TextMap::new();
        std::mem::swap(&mut taken, self);
        let names = taken.keys;
        let mut values = taken.values;
        values.set(i, v);
        let next = TextMap { keys: names, values };
        proof {
            next.lemma_layout();
            let k = keys[i as int];
            assert forall|z: Seq<char>| #[trigger]
                next@.contains_key(z) implies next@[z] == was.insert(k, v)[z] by {
                let m = keys.index_of(z);
                assert(keys[m] == z);
            }
            assert(was.contains_key(k));
            assert(next@.dom() =~= was.dom());
            assert(next@ =~= was.insert(k, v));
        }
        *self = next;
    }

    /// Gives `k` the value `v`.
    pub fn insert(&mut self, k: String, v: V)
        ensures
            final(self)@ == old(self)@.insert(k@, v),
    {
        proof {
            use_type_invariant(&*self);
            self.lemma_layout();
        }
        let found = locate(&self.keys, &k);
        if found.0 {
            assert(texts(self.keys@)[found.1 as int] == k@);
            self.set_value(found.1, v);
            return;
        }
        let ghost keys = texts(self.keys@);
        let ghost was = self@;
        let ghost added = k@;
        let ghost at = found.1 as int;
        let mut taken = TextMap::new();
        std::mem::swap(&mut taken, self);
        let mut names = taken.keys;
        let mut values = taken.values;
        let ghost old_values = values@;
        names.insert(found.1, k);
        values.insert(found.1, v);
        proof {
            assert(texts(names@) =~= keys.insert(at, added));
            lemma_insert_keeps_order(keys, at, added);
        }
        let next = TextMap { keys: names, values };
        proof {
            next.lemma_layout();
            let t = texts(next.keys@);
            assert forall|z: Seq<char>| #[trigger]
                next@.contains_key(z) implies next@[z] == was.insert(added, v)[z] by {
                let m = t.index_of(z);
                assert(t[m] == z);
                if m < at {
                    assert(keys[m] == z);
                    assert(next.values@[m] == old_values[m]);
                } else if m > at {
                    assert(keys[m - 1] == z);
                    assert(next.values@[m] == old_values[m - 1]);
                }
                if m != at {
                    assert(keys.contains(z));
                }
            }
            assert(next@.dom() =~= was.insert(added, v).dom());
            assert(next@ =~= was.insert(added, v));
        }
        *self = next;
    }

    /// Takes `k` out of the map; gives what its value was.
    pub fn remove(&mut self, k: &str) -> (r: Option<V>)
        ensures
            final(self)@ == old(self)@.remove(k@),
            match r {
                Some(v) => old(self)@.contains_key(k@) && v == old(self)@[k@],
                None => !old(self)@.contains_key(k@),
            },
    {
        proof {
            use_type_invariant(&*self);
            self.lemma_layout();
        }
        let found = locate(&self.keys, k);
        if !found.0 {
            assert(self@.remove(k@) =~= self@);
            return None;
        }
        assert(texts(self.keys@)[found.1 as int] == k@);
        let ghost keys = texts(self.keys@);
        let ghost was = self@;
        let ghost at = found.1 as int;
        let mut taken = TextMap::new();
        std::mem::swap(&mut taken, self);
        let mut names = taken.keys;
        let mut values = taken.values;
        let ghost old_values = values@;
        names.remove(found.1);
        let v = values.remove(found.1);
        proof {
            assert(texts(names@) =~= keys.remove(at));
            assert forall|i: int, j: int| 0 <= i < j < texts(names@).len() implies before(
                texts(names@)[i],
                texts(names@)[j],
            ) by {
                let a = if i < at { i } else { i + 1 };
                let b = if j < at { j } else { j + 1 };
                assert(before(keys[a], keys[b]));
            }
        }
        let next = TextMap { keys: names, values };
        proof {
            next.lemma_layout();
            listing_of_ascending(keys);
            let t = texts(next.keys@);
            assert forall|z: Seq<char>| #[trigger]
                next@.contains_key(z) implies was.remove(k@).contains_key(z) && next@[z]
                == was.remove(k@)[z] by {
                let m = t.index_of(z);
                assert(t[m] == z);
                let n = if m < at { m } else { m + 1 };
                assert(keys[n] == z);
                assert(next.values@[m] == old_values[n]);
            }
            assert forall|z: Seq<char>| #[trigger] was.remove(k@).contains_key(z) implies
                next@.contains_key(z) by {
                let n = keys.index_of(z);
                assert(keys[n] == z);
                let m = if n < at { n } else { n - 1 };
                assert(t[m] == z);
            }
            assert(next@ =~= was.remove(k@));
        }
        *self = next;
        Some(v)
    }
}

impl<V: Clone> Clone for TextMap<V> {
    fn clone(&self) -> (r: Self)
        ensures
            r@.dom() == self@.dom(),
            forall|k: Seq<char>| #[trigger]
                r@.contains_key(k) ==> cloned::<V>(self@[k], r@[k]),
    {
        proof {
            use_type_invariant(self);
            self.lemma_layout();
        }
        let keys = copy_texts(&self.keys, self.keys.len());
        let mut values: Vec<V> = Vec::new();
        for i in 0..self.values.len()
            invariant
                values@.len() == i,
                forall|j: int| 0 <= j < i ==> cloned::<V>(self.values@[j], #[trigger] values@[j]),
        {
            values.push(self.values[i].clone());
        }
        assert(texts(self.keys@).take(self.keys@.len() as int) =~= texts(self.keys@));
        let r = TextMap { keys, values };
        proof {
            r.lemma_layout();
            assert forall|k: Seq<char>| #[trigger] r@.contains_key(k) implies cloned::<V>(
                self@[k],
                r@[k],
            ) by {
                let m = texts(self.keys@).index_of(k);
                assert(texts(self.keys@)[m] == k);
                assert(cloned::<V>(self.values@[m], r.values@[m]));
            }
        }
        r
    }
}

} // verus!
