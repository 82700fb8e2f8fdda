use vstd::prelude::*;

verus! {

/// The texture keys of the collected items, in the order they were picked up.
pub struct Inventory {
    pub collected_items: Vec<char>,
}

/// The items after `key` is offered: unchanged when `key` is already held,
/// else `key` appended.
pub open spec fn with_item(items: Seq<char>, key: char) -> Seq<char> {
    if items.contains(key) {
        items
    } else {
        items.push(key)
    }
}

/// The number of distinct pieces that completes the collection.
pub open spec fn pieces_needed() -> nat {
    3
}

impl Inventory {
    /// No texture key is held twice.
    pub open spec fn wf(&self) -> bool {
        self.collected_items@.no_duplicates()
    }

    /// An empty inventory.
    pub fn new() -> (inv: Inventory)
        ensures
            inv.collected_items@ == Seq::<char>::empty(),
            inv.wf(),
    {
        Inventory { collected_items: Vec::new() }
    }

    /// The inventory holds `texture_key`.
    pub fn contains(&self, texture_key: char) -> (r: bool)
        ensures
            r == self.collected_items@.contains(texture_key),
    {
        let n = self.collected_items.len();
        let mut i: usize = 0;
        while i < n
            invariant
                n == self.collected_items@.len(),
                0 <= i <= n,
                forall|k: int| 0 <= k < i ==> self.collected_items@[k] != texture_key,
            decreases n - i,
        {
            if self.collected_items[i] == texture_key {
                return true;
            }
            i = i + 1;
        }
        false
    }

    /// Adds `texture_key` unless it is already held; returns whether it was added.
    pub fn add_item(&mut self, texture_key: char) -> (added: bool)
        ensures
            added == !old(self).collected_items@.contains(texture_key),
            final(self).collected_items@ == with_item(old(self).collected_items@, texture_key),
            old(self).wf() ==> final(self).wf(),
    {
        if !self.contains(texture_key) {
            self.collected_items.push(texture_key);
            proof {
                let s = self.collected_items@;
                let o = old(self).collected_items@;
                assert(s == o.push(texture_key));
                if o.no_duplicates() {
                    assert forall|i: int, j: int| 0 <= i < s.len() && 0 <= j < s.len() && i != j implies s[i] != s[j] by {
                        if i == o.len() {
                            assert(!o.contains(texture_key));
                            assert(s[j] == o[j]);
                        } else if j == o.len() {
                            assert(!o.contains(texture_key));
                            assert(s[i] == o[i]);
                        }
                    }
                }
            }
            true
        } else {
            false
        }
    }

    /// All the pieces have been collected.
    pub fn has_all_items(&self) -> (r: bool)
        ensures
            r == (self.collected_items@.len() >= pieces_needed()),
    {
        self.collected_items.len() >= 3
    }

    /// How many items are held.
    pub fn count(&self) -> (r: usize)
        ensures
            r == self.collected_items@.len(),
    {
        self.collected_items.len()
    }
}

/// Offering an item that is already held changes nothing, so offering the same
/// item twice is the same as offering it once.
pub proof fn lemma_add_item_idempotent(items: Seq<char>, key: char)
    ensures
        with_item(with_item(items, key), key) == with_item(items, key),
        with_item(items, key).contains(key),
{
    if !items.contains(key) {
        assert(items.push(key)[items.len() as int] == key);
    }
}

/// Adding never loses an item and never grows the count by more than one.
pub proof fn lemma_add_item_monotone(items: Seq<char>, key: char, other: char)
    ensures
        items.len() <= with_item(items, key).len() <= items.len() + 1,
        items.contains(other) ==> with_item(items, key).contains(other),
{
    if items.contains(other) && !items.contains(key) {
        let k = choose|k: int| 0 <= k < items.len() && items[k] == other;
        assert(items.push(key)[k] == other);
    }
}

proof fn lemma_with_item_contains(items: Seq<char>, key: char, x: char)
    ensures
        with_item(items, key).contains(x) <==> (items.contains(x) || x == key),
{
    if !items.contains(key) {
        let s = items.push(key);
        assert(s[items.len() as int] == key);
        if items.contains(x) {
            let k = choose|k: int| 0 <= k < items.len() && items[k] == x;
            assert(s[k] == x);
        }
        if s.contains(x) {
            let k = choose|k: int| 0 <= k < s.len() && s[k] == x;
            if k < items.len() {
                assert(items[k] == x);
            }
        }
    }
}

/// Offering a sequence of keys to a duplicate-free inventory leaves it
/// duplicate-free and holding exactly the old items and the offered keys.
pub proof fn lemma_with_items_union(items: Seq<char>, keys: Seq<char>)
    requires
        items.no_duplicates(),
    ensures
        with_items(items, keys).no_duplicates(),
        forall|x: char| #[trigger] with_items(items, keys).contains(x) <==> (items.contains(x) || keys.contains(x)),
    decreases keys.len(),
{
    if keys.len() > 0 {
        let s = with_item(items, keys[0]);
        assert(s.no_duplicates()) by {
            if !items.contains(keys[0]) {
                assert forall|i: int, j: int| 0 <= i < s.len() && 0 <= j < s.len() && i != j implies s[i] != s[j] by {
                    if i == items.len() {
                        assert(s[j] == items[j]);
                    } else if j == items.len() {
                        assert(s[i] == items[i]);
                    }
                }
            }
        }
        lemma_with_items_union(s, keys.drop_first());
        assert forall|x: char| #[trigger] with_items(items, keys).contains(x) <==> (items.contains(x) || keys.contains(x)) by {
            lemma_with_item_contains(items, keys[0], x);
            if keys.drop_first().contains(x) {
                let k = choose|k: int| 0 <= k < keys.drop_first().len() && keys.drop_first()[k] == x;
                assert(keys[k + 1] == x);
            }
            if keys.contains(x) && x != keys[0] {
                let k = choose|k: int| 0 <= k < keys.len() && keys[k] == x;
                assert(keys.drop_first()[k - 1] == x);
            }
            if x == keys[0] {
                assert(keys[0] == x);
            }
        }
    }
}

/// The inventory after offering each key of `keys` in turn.
pub open spec fn with_items(items: Seq<char>, keys: Seq<char>) -> Seq<char>
    decreases keys.len(),
{
    if keys.len() == 0 {
        items
    } else {
        with_items(with_item(items, keys[0]), keys.drop_first())
    }
}

} // verus!
