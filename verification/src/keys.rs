//! Subscription keys and finite sets of them.
//!
//! A key is a pair of strings: `(market_id, outcome_id)` for venues that
//! subscribe per outcome, `(token_id, "")` for venues that subscribe per token.
//! Contracts speak of a key through its view, a pair of character sequences.

use vstd::prelude::*;

verus! {

/// The mathematical value of a key.
pub type KeyView = (Seq<char>, Seq<char>);

/// The views of a sequence of keys, in order.
pub open spec fn views(keys: Seq<(String, String)>) -> Seq<KeyView> {
    keys.map_values(|k: (String, String)| k@)
}

/// Appending a key appends its view.
pub proof fn lemma_views_push(keys: Seq<(String, String)>, key: (String, String))
    ensures
        views(keys.push(key)) == views(keys).push(key@),
{
    assert(views(keys.push(key)) =~= views(keys).push(key@));
}

/// Copies a key.
pub fn clone_key(key: &(String, String)) -> (out: (String, String))
    ensures
        out@ == key@,
{
    (key.0.clone(), key.1.clone())
}

/// Whether two keys denote the same subscription.
pub fn key_eq(a: &(String, String), b: &(String, String)) -> (same: bool)
    ensures
        same == (a@ == b@),
{
    a.0 == b.0 && a.1 == b.1
}

/// Whether `key` occurs in `keys`.
pub fn contains_key(keys: &Vec<(String, String)>, key: &(String, String)) -> (found: bool)
    ensures
        found == views(keys@).contains(key@),
{
    let mut i: usize = 0;
    while i < keys.len()
        invariant
            i <= keys.len(),
            forall|j: int| 0 <= j < i ==> views(keys@)[j] != key@,
        decreases keys.len() - i,
    {
        if key_eq(&keys[i], key) {
            assert(views(keys@)[i as int] == key@);
            return true;
        }
        i += 1;
    }
    false
}

/// Walks `keys` and appends to `tier` each key that is new to it and not
/// excluded, as long as the tier holds fewer than `cap` keys.
pub open spec fn fill_tier(tier: Seq<KeyView>, keys: Seq<KeyView>, excluded: Set<KeyView>, cap: nat) -> Seq<
    KeyView,
>
    decreases keys.len(),
{
    if keys.len() == 0 {
        tier
    } else {
        let key = keys[0];
        let next = if tier.len() < cap && !excluded.contains(key) && !tier.contains(key) {
            tier.push(key)
        } else {
            tier
        };
        fill_tier(next, keys.drop_first(), excluded, cap)
    }
}

/// A filled tier keeps what it held, grows to `cap` at most, and gains
/// only keys that were offered and not excluded.
pub proof fn lemma_fill_tier(tier: Seq<KeyView>, keys: Seq<KeyView>, excluded: Set<KeyView>, cap: nat)
    ensures
        tier.len() <= fill_tier(tier, keys, excluded, cap).len(),
        fill_tier(tier, keys, excluded, cap).len() <= cap || fill_tier(
            tier,
            keys,
            excluded,
            cap,
        ).len() == tier.len(),
        forall|k: KeyView| #[trigger]
            fill_tier(tier, keys, excluded, cap).contains(k) ==> tier.contains(k) || (
            keys.contains(k) && !excluded.contains(k)),
        forall|k: KeyView| tier.contains(k) ==> #[trigger] fill_tier(
            tier,
            keys,
            excluded,
            cap,
        ).contains(k),
    decreases keys.len(),
{
    if keys.len() > 0 {
        let key = keys[0];
        let next = if tier.len() < cap && !excluded.contains(key) && !tier.contains(key) {
            tier.push(key)
        } else {
            tier
        };
        lemma_fill_tier(next, keys.drop_first(), excluded, cap);
        assert forall|k: KeyView| #[trigger]
            fill_tier(tier, keys, excluded, cap).contains(k) implies tier.contains(k) || (
        keys.contains(k) && !excluded.contains(k)) by {
            if next.contains(k) {
                if !tier.contains(k) {
                    let j = choose|j: int| 0 <= j < next.len() && next[j] == k;
                    assert(j == tier.len());
                    assert(k == keys[0]);
                }
            } else {
                assert(keys.drop_first().contains(k));
                let j = choose|j: int|
                    0 <= j < keys.drop_first().len() && keys.drop_first()[j] == k;
                assert(keys[j + 1] == k);
            }
        }
        assert forall|k: KeyView| tier.contains(k) implies #[trigger] fill_tier(
            tier,
            keys,
            excluded,
            cap,
        ).contains(k) by {
            let j = choose|j: int| 0 <= j < tier.len() && tier[j] == k;
            assert(next[j] == k);
            assert(next.contains(k));
        }
    }
}

/// From keys without repetition a tier takes the first that fit.
pub proof fn lemma_fill_distinct(tier: Seq<KeyView>, keys: Seq<KeyView>, cap: nat)
    requires
        (tier + keys).no_duplicates(),
    ensures
        fill_tier(tier, keys, Set::empty(), cap) == (tier + keys).take(
            if tier.len() >= cap {
                tier.len() as int
            } else if cap <= tier.len() + keys.len() {
                cap as int
            } else {
                (tier.len() + keys.len()) as int
            },
        ),
    decreases keys.len(),
{
    let all = tier + keys;
    if keys.len() == 0 {
        assert(all.take(tier.len() as int) =~= tier);
    } else {
        let key = keys[0];
        let rest = keys.drop_first();
        assert(all[tier.len() as int] == key);
        assert(!tier.contains(key)) by {
            if tier.contains(key) {
                let j = choose|j: int| 0 <= j < tier.len() && tier[j] == key;
                assert(all[j] == all[tier.len() as int]);
            }
        }
        if tier.len() < cap {
            let next = tier.push(key);
            assert(next + rest =~= all);
            lemma_fill_distinct(next, rest, cap);
        } else {
            assert forall|a: int, b: int|
                0 <= a < (tier + rest).len() && 0 <= b < (tier + rest).len() && a != b implies (tier
                + rest)[a] != (tier + rest)[b] by {
                let a0 = if a < tier.len() { a } else { a + 1 };
                let b0 = if b < tier.len() { b } else { b + 1 };
                assert((tier + rest)[a] == all[a0] && (tier + rest)[b] == all[b0]);
            }
            lemma_fill_distinct(tier, rest, cap);
            assert((tier + rest).take(tier.len() as int) =~= all.take(tier.len() as int));
        }
    }
}

/// The items of `queue` that are not in `sent`, in order.
pub open spec fn without(queue: Seq<KeyView>, sent: Seq<KeyView>) -> Seq<KeyView>
    decreases queue.len(),
{
    if queue.len() == 0 {
        Seq::empty()
    } else if sent.contains(queue.last()) {
        without(queue.drop_last(), sent)
    } else {
        without(queue.drop_last(), sent).push(queue.last())
    }
}

/// `without` keeps exactly the items that are not in `sent`, each as often
/// as it stood, and so is shorter where `sent` holds an item of the queue.
pub proof fn lemma_without(queue: Seq<KeyView>, sent: Seq<KeyView>)
    ensures
        without(queue, sent).len() <= queue.len(),
        forall|k: KeyView| #[trigger]
            without(queue, sent).contains(k) <==> queue.contains(k) && !sent.contains(k),
        queue.no_duplicates() ==> without(queue, sent).no_duplicates(),
        (exists|i: int| 0 <= i < queue.len() && sent.contains(#[trigger] queue[i])) ==> without(
            queue,
            sent,
        ).len() < queue.len(),
    decreases queue.len(),
{
    if queue.len() > 0 {
        let rest = queue.drop_last();
        let last = queue.last();
        lemma_without(rest, sent);
        let kept = without(rest, sent);
        assert forall|k: KeyView| #[trigger]
            without(queue, sent).contains(k) <==> queue.contains(k) && !sent.contains(k) by {
            if queue.contains(k) {
                let j = choose|j: int| 0 <= j < queue.len() && queue[j] == k;
                if j < rest.len() {
                    assert(rest[j] == k);
                    assert(rest.contains(k));
                }
            }
            if rest.contains(k) {
                let j = choose|j: int| 0 <= j < rest.len() && rest[j] == k;
                assert(queue[j] == k);
            }
            if !sent.contains(last) {
                let out = kept.push(last);
                if out.contains(k) {
                    let j = choose|j: int| 0 <= j < out.len() && out[j] == k;
                    if j < kept.len() {
                        assert(kept[j] == k);
                        assert(kept.contains(k));
                    }
                }
                if kept.contains(k) {
                    let j = choose|j: int| 0 <= j < kept.len() && kept[j] == k;
                    assert(out[j] == k);
                }
                assert(out[kept.len() as int] == last);
            }
            assert(queue[queue.len() - 1] == last);
        }
        if queue.no_duplicates() {
            assert(rest.no_duplicates());
            if !sent.contains(last) {
                assert(!kept.contains(last)) by {
                    if rest.contains(last) {
                        let j = choose|j: int| 0 <= j < rest.len() && rest[j] == last;
                        assert(queue[j] == queue[queue.len() - 1]);
                    }
                }
                let out = kept.push(last);
                assert forall|a: int, b: int|
                    0 <= a < out.len() && 0 <= b < out.len() && a != b implies out[a] != out[b] by {
                    if a < kept.len() && b < kept.len() {
                    } else if a < kept.len() {
                        assert(kept.contains(out[a]));
                    } else {
                        assert(kept.contains(out[b]));
                    }
                }
            }
        }
        if exists|i: int| 0 <= i < queue.len() && sent.contains(#[trigger] queue[i]) {
            let i = choose|i: int| 0 <= i < queue.len() && sent.contains(#[trigger] queue[i]);
            if i < rest.len() {
                assert(sent.contains(rest[i]));
            }
        }
    }
}

/// Nothing is left of a queue whose items are all in `sent`.
pub proof fn lemma_without_all(queue: Seq<KeyView>, sent: Seq<KeyView>)
    requires
        forall|i: int| 0 <= i < queue.len() ==> sent.contains(#[trigger] queue[i]),
    ensures
        without(queue, sent) == Seq::<KeyView>::empty(),
    decreases queue.len(),
{
    if queue.len() > 0 {
        let rest = queue.drop_last();
        assert forall|i: int| 0 <= i < rest.len() implies sent.contains(#[trigger] rest[i]) by {
            assert(rest[i] == queue[i]);
        }
        lemma_without_all(rest, sent);
        assert(sent.contains(queue[queue.len() - 1]));
    }
}

/// Of a queue without repetition, what is left after its first `n` items
/// were sent is the rest of it.
pub proof fn lemma_without_prefix(queue: Seq<KeyView>, n: int)
    requires
        queue.no_duplicates(),
        0 <= n <= queue.len(),
    ensures
        without(queue, queue.take(n)) == queue.skip(n),
    decreases queue.len(),
{
    if n == queue.len() {
        assert(queue.take(n) =~= queue);
        assert forall|i: int| 0 <= i < queue.len() implies queue.contains(#[trigger] queue[i]) by {
        }
        lemma_without_all(queue, queue);
        assert(queue.skip(n) =~= Seq::<KeyView>::empty());
    } else {
        let rest = queue.drop_last();
        let last = queue.last();
        assert(rest.take(n) =~= queue.take(n));
        lemma_without_prefix(rest, n);
        assert(!queue.take(n).contains(last)) by {
            if queue.take(n).contains(last) {
                let j = choose|j: int| 0 <= j < n && queue.take(n)[j] == last;
                assert(queue[j] == queue[queue.len() - 1]);
            }
        }
        assert(rest.skip(n).push(last) =~= queue.skip(n));
    }
}

/// A finite set of keys that remembers the order in which they were inserted.
pub struct KeySet {
    keys: Vec<(String, String)>,
}

impl View for KeySet {
    type V = Set<KeyView>;

    closed spec fn view(&self) -> Set<KeyView> {
        views(self.keys@).to_set()
    }
}

impl KeySet {
    /// No key is held twice.
    pub closed spec fn wf(&self) -> bool {
        views(self.keys@).no_duplicates()
    }

    /// The members in insertion order, without repetition.
    pub closed spec fn order(&self) -> Seq<KeyView> {
        views(self.keys@)
    }

    /// `order` lists exactly the members, each once.
    pub proof fn lemma_order(&self)
        requires
            self.wf(),
        ensures
            self.order().no_duplicates(),
            self.order().to_set() == self@,
            self.order().len() == self@.len(),
            self@.finite(),
    {
        self.order().unique_seq_to_set();
    }

    /// The empty set.
    pub fn new() -> (out: KeySet)
        ensures
            out.wf(),
            out@ == Set::<KeyView>::empty(),
            out.order() == Seq::<KeyView>::empty(),
    {
        let out = KeySet { keys: Vec::new() };
        assert(views(out.keys@) =~= Seq::<KeyView>::empty());
        assert(out@ =~= Set::<KeyView>::empty());
        out
    }

    /// The number of members.
    pub fn len(&self) -> (n: usize)
        requires
            self.wf(),
        ensures
            n == self@.len(),
            n == self.order().len(),
    {
        proof {
            self.lemma_order();
        }
        self.keys.len()
    }

    /// Whether the set has no member.
    pub fn is_empty(&self) -> (empty: bool)
        requires
            self.wf(),
        ensures
            empty == (self@.len() == 0),
            empty == (self@ == Set::<KeyView>::empty()),
    {
        proof {
            self.lemma_order();
            if self@.len() == 0 {
                self@.lemma_len0_is_empty();
            }
        }
        self.keys.len() == 0
    }

    /// Whether `key` is a member.
    pub fn contains(&self, key: &(String, String)) -> (found: bool)
        ensures
            found == self@.contains(key@),
            found == self.order().contains(key@),
    {
        contains_key(&self.keys, key)
    }

    /// Adds `key`; returns whether it was new. A new key goes to the end of `order`.
    pub fn insert(&mut self, key: (String, String)) -> (added: bool)
        requires
            old(self).wf(),
        ensures
            final(self).wf(),
            added == !old(self)@.contains(key@),
            final(self)@ == old(self)@.insert(key@),
            final(self).order() == if added {
                old(self).order().push(key@)
            } else {
                old(self).order()
            },
    {
        if contains_key(&self.keys, &key) {
            assert(self@.insert(key@) =~= self@);
            false
        } else {
            let ghost before = views(self.keys@);
            self.keys.push(key);
            proof {
                lemma_views_push(old(self).keys@, key);
                before.lemma_push_to_set_commute(key@);
            }
            true
        }
    }

    /// A copy of the set, with the same order.
    pub fn cloned(&self) -> (out: KeySet)
        requires
            self.wf(),
        ensures
            out.wf(),
            out@ == self@,
            out.order() == self.order(),
    {
        KeySet { keys: self.to_vec() }
    }

    /// Adds every member of `other`.
    pub fn extend(&mut self, other: &KeySet)
        requires
            old(self).wf(),
            other.wf(),
        ensures
            final(self).wf(),
            final(self)@ == old(self)@.union(other@),
            final(self).order() == old(self).order() + without(other.order(), old(self).order()),
            old(self)@.disjoint(other@) ==> final(self).order() == old(self).order() + other.order(),
    {
        let mut i: usize = 0;
        let ghost list = other.order();
        assert(list.take(0).to_set() =~= Set::<KeyView>::empty());
        assert(self.order() + list.take(0) =~= self.order());
        assert(list.take(0) =~= Seq::<KeyView>::empty());
        assert(self.order() + Seq::<KeyView>::empty() =~= self.order());
        assert(self@.union(Set::<KeyView>::empty()) =~= self@);
        while i < other.keys.len()
            invariant
                i <= other.keys.len(),
                self.wf(),
                other.wf(),
                old(self).wf(),
                list == views(other.keys@),
                self@ == old(self)@.union(list.take(i as int).to_set()),
                self.order() == old(self).order() + without(list.take(i as int), old(self).order()),
                old(self)@.disjoint(other@) ==> self.order() == old(self).order() + list.take(
                    i as int,
                ),
            decreases other.keys.len() - i,
        {
            let key = clone_key(&other.keys[i]);
            proof {
                assert(list.take(i + 1) =~= list.take(i as int).push(list[i as int]));
                list.take(i as int).lemma_push_to_set_commute(list[i as int]);
                assert(old(self)@.union(list.take(i as int).to_set()).insert(key@) =~= old(self)@.union(list.take(i as int).to_set().insert(key@)));
            }
            proof {
                let start = old(self).order();
                let seen = list.take(i as int);
                old(self).lemma_order();
                other.lemma_order();
                self.lemma_order();
                lemma_without(seen, start);
                assert(list.take(i + 1).drop_last() =~= seen);
                assert(list.take(i + 1).last() == key@);
                assert(!seen.contains(key@)) by {
                    if seen.contains(key@) {
                        let j = choose|j: int| 0 <= j < i && seen[j] == key@;
                        assert(list[j] == list[i as int]);
                    }
                }
                if start.contains(key@) {
                    assert(self.order().contains(key@)) by {
                        let j = choose|j: int| 0 <= j < start.len() && start[j] == key@;
                        assert(self.order()[j] == key@);
                    }
                } else {
                    assert(!self.order().contains(key@)) by {
                        if self.order().contains(key@) {
                            let j = choose|j: int|
                                0 <= j < self.order().len() && self.order()[j] == key@;
                            if j < start.len() {
                                assert(start[j] == key@);
                            } else {
                                assert(without(seen, start)[j - start.len()] == key@);
                                assert(without(seen, start).contains(key@));
                            }
                        }
                    }
                    assert((start + without(seen, start)).push(key@) =~= start + without(
                        seen,
                        start,
                    ).push(key@));
                }
                if old(self)@.disjoint(other@) {
                    other.lemma_order();
                    assert(other@.contains(list[i as int]));
                    assert(!old(self)@.contains(key@));
                    assert(!list.take(i as int).contains(key@)) by {
                        if list.take(i as int).contains(key@) {
                            let j = choose|j: int| 0 <= j < i && list.take(i as int)[j] == key@;
                            assert(list[j] == list[i as int]);
                        }
                    }
                    assert((old(self).order() + list.take(i as int)).push(key@) =~= old(self).order() + list.take(i + 1));
                }
            }
            self.insert(key);
            i += 1;
        }
        proof {
            assert(list.take(other.keys.len() as int) =~= list);
            if old(self)@.disjoint(other@) {
                assert(self.order() == old(self).order() + other.order());
            }
        }
    }

    /// The members as a vector, in insertion order.
    pub fn to_vec(&self) -> (out: Vec<(String, String)>)
        ensures
            views(out@) == self.order(),
    {
        let mut out: Vec<(String, String)> = Vec::new();
        let mut i: usize = 0;
        while i < self.keys.len()
            invariant
                i <= self.keys.len(),
                views(out@) =~= views(self.keys@).take(i as int),
            decreases self.keys.len() - i,
        {
            let key = clone_key(&self.keys[i]);
            proof {
                lemma_views_push(out@, key);
                assert(views(self.keys@).take(i + 1) =~= views(self.keys@).take(i as int).push(
                    self.keys@[i as int]@,
                ));
            }
            out.push(key);
            i += 1;
        }
        assert(views(self.keys@).take(self.keys.len() as int) =~= views(self.keys@));
        out
    }
}

/// A finite map from keys to values.
pub struct KeyMap<V> {
    keys: Vec<(String, String)>,
    values: Vec<V>,
}

impl<V> View for KeyMap<V> {
    type V = Map<KeyView, V>;

    closed spec fn view(&self) -> Map<KeyView, V> {
        Map::new(
            |k: KeyView| views(self.keys@).contains(k),
            |k: KeyView| self.values@[views(self.keys@).index_of(k)],
        )
    }
}

impl<V> KeyMap<V> {
    /// Each key stands once, with its value.
    pub closed spec fn wf(&self) -> bool {
        &&& self.keys.len() == self.values.len()
        &&& views(self.keys@).no_duplicates()
    }

    /// The map without entries.
    pub fn new() -> (out: KeyMap<V>)
        ensures
            out.wf(),
            out@ == Map::<KeyView, V>::empty(),
    {
        let out = KeyMap { keys: Vec::new(), values: Vec::new() };
        assert(views(out.keys@) =~= Seq::<KeyView>::empty());
        assert(out@ =~= Map::<KeyView, V>::empty());
        out
    }

    /// The position of `key`.
    fn find(&self, key: &(String, String)) -> (out: Option<usize>)
        requires
            self.wf(),
        ensures
            match out {
                Some(i) => {
                    &&& i < self.keys.len()
                    &&& views(self.keys@).contains(key@)
                    &&& views(self.keys@).index_of(key@) == i
                },
                None => !views(self.keys@).contains(key@),
            },
    {
        let mut i: usize = 0;
        while i < self.keys.len()
            invariant
                self.wf(),
                i <= self.keys.len(),
                forall|j: int| 0 <= j < i ==> views(self.keys@)[j] != key@,
            decreases self.keys.len() - i,
        {
            if key_eq(&self.keys[i], key) {
                proof {
                    let list = views(self.keys@);
                    assert(list[i as int] == key@);
                    assert(list.contains(key@));
                    let j = list.index_of(key@);
                    assert(0 <= j < list.len() && list[j] == key@);
                }
                return Some(i);
            }
            i += 1;
        }
        None
    }

    /// The value of `key`, if it has one.
    pub fn get(&self, key: &(String, String)) -> (out: Option<&V>)
        requires
            self.wf(),
        ensures
            out == if self@.dom().contains(key@) {
                Some(&self@[key@])
            } else {
                None
            },
    {
        match self.find(key) {
            Some(i) => Some(&self.values[i]),
            None => None,
        }
    }

    /// Gives `key` the value `value`, in place of the value it had, if any.
    pub fn insert(&mut self, key: (String, String), value: V)
        requires
            old(self).wf(),
        ensures
            final(self).wf(),
            final(self)@ == old(self)@.insert(key@, value),
    {
        let ghost before_keys = views(self.keys@);
        match self.find(&key) {
            Some(i) => {
                self.values[i] = value;
                proof {
                    assert forall|k: KeyView| #[trigger] self@.dom().contains(k) implies self@[k]
                        == old(self)@.insert(key@, value)[k] by {
                        let j = before_keys.index_of(k);
                        assert(0 <= j < before_keys.len() && before_keys[j] == k);
                    }
                    assert(self@ =~= old(self)@.insert(key@, value));
                }
            },
            None => {
                proof {
                    lemma_views_push(self.keys@, key);
                }
                self.keys.push(key);
                self.values.push(value);
                proof {
                    let after_keys = views(self.keys@);
                    assert(after_keys == before_keys.push(key@));
                    assert forall|k: KeyView| after_keys.contains(k) <==> (before_keys.contains(k)
                        || k == key@) by {
                        if after_keys.contains(k) {
                            let j = choose|j: int| 0 <= j < after_keys.len() && after_keys[j] == k;
                            if j < before_keys.len() {
                                assert(before_keys[j] == k);
                            }
                        }
                        if before_keys.contains(k) {
                            let j = choose|j: int|
                                0 <= j < before_keys.len() && before_keys[j] == k;
                            assert(after_keys[j] == k);
                        }
                        assert(after_keys[before_keys.len() as int] == key@);
                    }
                    assert forall|k: KeyView| #[trigger] self@.dom().contains(k) implies self@[k]
                        == old(self)@.insert(key@, value)[k] by {
                        let j = after_keys.index_of(k);
                        assert(0 <= j < after_keys.len() && after_keys[j] == k);
                        if k != key@ {
                            let j0 = before_keys.index_of(k);
                            assert(0 <= j0 < before_keys.len() && before_keys[j0] == k);
                            assert(after_keys[j0] == k);
                            assert(j0 == j);
                        } else {
                            assert(j == before_keys.len());
                        }
                    }
                    assert(self@ =~= old(self)@.insert(key@, value));
                }
            },
        }
    }

    /// The number of entries.
    pub fn len(&self) -> (n: usize)
        requires
            self.wf(),
        ensures
            n == self@.dom().len(),
            self@.dom().finite(),
    {
        proof {
            let list = views(self.keys@);
            list.unique_seq_to_set();
            assert(self@.dom() =~= list.to_set());
        }
        self.keys.len()
    }

    /// Whether the map has no entry.
    pub fn is_empty(&self) -> (empty: bool)
        requires
            self.wf(),
        ensures
            empty == (self@.dom().len() == 0),
            empty == (self@ == Map::<KeyView, V>::empty()),
    {
        let n = self.keys.len();
        proof {
            let list = views(self.keys@);
            list.unique_seq_to_set();
            assert(self@.dom() =~= list.to_set());
            if n == 0 {
                assert(list =~= Seq::<KeyView>::empty());
                assert(self@ =~= Map::<KeyView, V>::empty());
            }
        }
        n == 0
    }
}

} // verus!
