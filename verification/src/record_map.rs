//! A map from text to text that keeps its keys in order.

use vstd::prelude::*;

use crate::text::{
    lemma_text_less_total, lemma_text_less_transitive, same_text, sorts_before, text_less,
};

verus! {

/// The entries of one collection of a data file, from the date as it stands in
/// the file to the value as it stands in the file. The keys are in ascending
/// order and no key occurs twice.
#[derive(Debug)]
pub struct RecordMap {
    items: Vec<(String, String)>,
}

/// Whether the keys ascend, so that none occurs twice.
pub open spec fn keys_ascend(items: Seq<(Seq<char>, Seq<char>)>) -> bool {
    forall|i: int, j: int| 0 <= i < j < items.len() ==> text_less(#[trigger] items[i].0, #[trigger] items[j].0)
}

/// The entries of a map, in the order of their keys.
pub open spec fn entry_views(items: Seq<(String, String)>) -> Seq<(Seq<char>, Seq<char>)> {
    Seq::new(items.len(), |i: int| (items[i].0@, items[i].1@))
}

/// The number of entries whose keys sort before `key`.
pub open spec fn rank(items: Seq<(Seq<char>, Seq<char>)>, key: Seq<char>) -> int
    decreases items.len(),
{
    if items.len() == 0 || !text_less(items[0].0, key) {
        0
    } else {
        1 + rank(items.drop_first(), key)
    }
}

/// The entries after `key` was given `value`: in its place among the others,
/// instead of the value that it had.
pub open spec fn with_entry(
    items: Seq<(Seq<char>, Seq<char>)>,
    key: Seq<char>,
    value: Seq<char>,
) -> Seq<(Seq<char>, Seq<char>)> {
    let i = rank(items, key);
    if i < items.len() && items[i].0 == key {
        items.update(i, (key, value))
    } else {
        items.insert(i, (key, value))
    }
}

/// `rank` splits the entries into those before `key` and the rest.
pub proof fn lemma_rank(items: Seq<(Seq<char>, Seq<char>)>, key: Seq<char>)
    requires
        keys_ascend(items),
    ensures
        0 <= rank(items, key) <= items.len(),
        forall|i: int| 0 <= i < rank(items, key) ==> text_less(#[trigger] items[i].0, key),
        forall|i: int|
            rank(items, key) <= i < items.len() ==> !text_less(#[trigger] items[i].0, key),
    decreases items.len(),
{
    if items.len() > 0 {
        let rest = items.drop_first();
        assert(forall|i: int| 0 <= i < rest.len() ==> #[trigger] rest[i] == items[i + 1]);
        assert(keys_ascend(rest));
        lemma_rank(rest, key);
        if text_less(items[0].0, key) {
            assert forall|i: int| 0 <= i < rank(items, key) implies text_less(
                #[trigger] items[i].0,
                key,
            ) by {
                if i > 0 {
                    assert(items[i] == rest[i - 1]);
                }
            }
            assert forall|i: int| rank(items, key) <= i < items.len() implies !text_less(
                #[trigger] items[i].0,
                key,
            ) by {
                assert(items[i] == rest[i - 1]);
            }
        } else {
            assert forall|i: int| 0 <= i < items.len() implies !text_less(
                #[trigger] items[i].0,
                key,
            ) by {
                if i > 0 && text_less(items[i].0, key) {
                    lemma_text_less_transitive(items[0].0, items[i].0, key);
                }
            }
        }
    }
}

/// The keys still ascend after an entry was put in.
pub proof fn lemma_with_entry_ascends(
    items: Seq<(Seq<char>, Seq<char>)>,
    key: Seq<char>,
    value: Seq<char>,
)
    requires
        keys_ascend(items),
    ensures
        keys_ascend(with_entry(items, key, value)),
{
    lemma_rank(items, key);
    let r = rank(items, key);
    let out = with_entry(items, key, value);
    if r < items.len() && items[r].0 == key {
    } else {
        assert forall|i: int, j: int| 0 <= i < j < out.len() implies text_less(
            #[trigger] out[i].0,
            #[trigger] out[j].0,
        ) by {
            if i == r {
                let b = items[j - 1].0;
                lemma_text_less_total(key, b);
                if j - 1 > r {
                    lemma_text_less_total(key, items[r].0);
                    if text_less(key, items[r].0) {
                        lemma_text_less_transitive(key, items[r].0, b);
                    }
                }
            }
        }
    }
}

/// Putting an entry in gives its key that value, and leaves all other keys as they
/// were.
pub proof fn law_entry_replaces_its_key_only(
    items: Seq<(Seq<char>, Seq<char>)>,
    key: Seq<char>,
    value: Seq<char>,
    entry: (Seq<char>, Seq<char>),
)
    requires
        keys_ascend(items),
    ensures
        with_entry(items, key, value).contains(entry) == if entry.0 == key {
            entry.1 == value
        } else {
            items.contains(entry)
        },
{
    lemma_rank(items, key);
    lemma_with_entry_ascends(items, key, value);
    let r = rank(items, key);
    let out = with_entry(items, key, value);
    assert(out[r] == (key, value));
    if out.contains(entry) {
        let i = choose|i: int| 0 <= i < out.len() && out[i] == entry;
        if entry.0 == key {
            if i != r {
                crate::text::lemma_text_less_irreflexive(key);
                assert(text_less(out[if i < r { i } else { r }].0, out[if i < r { r } else { i }].0));
            }
        } else if out.len() == items.len() {
            assert(items[i] == entry);
        } else {
            assert(items[if i < r { i } else { i - 1 }] == entry);
        }
    }
    if entry.0 != key && items.contains(entry) {
        let i = choose|i: int| 0 <= i < items.len() && items[i] == entry;
        if out.len() == items.len() {
            assert(out[i] == entry);
        } else {
            assert(out[if i < r { i } else { i + 1 }] == entry);
        }
    }
}

impl View for RecordMap {
    type V = Seq<(Seq<char>, Seq<char>)>;

    closed spec fn view(&self) -> Seq<(Seq<char>, Seq<char>)> {
        entry_views(self.items@)
    }
}

impl RecordMap {
    #[verifier::type_invariant]
    spec fn wf(self) -> bool {
        keys_ascend(entry_views(self.items@))
    }

    /// A map without entries.
    pub fn new() -> (r: Self)
        ensures
            r@ == Seq::<(Seq<char>, Seq<char>)>::empty(),
            keys_ascend(r@),
    {
        let r = RecordMap { items: Vec::new() };
        assert(r@ =~= Seq::<(Seq<char>, Seq<char>)>::empty());
        r
    }

    /// Gives `key` the value `value`, instead of the value that it had.
    pub fn insert(&mut self, key: String, value: String)
        ensures
            final(self)@ == with_entry(old(self)@, key@, value@),
            keys_ascend(final(self)@),
    {
        proof {
            use_type_invariant(&*self);
        }
        let mut items: Vec<(String, String)> = Vec::new();
        std::mem::swap(&mut items, &mut self.items);
        let ghost before = entry_views(items@);
        let mut i: usize = 0;
        assert(before.skip(0) =~= before);
        while i < items.len() && sorts_before(items[i].0.as_str(), key.as_str())
            invariant
                before == entry_views(items@),
                i <= items@.len(),
                rank(before, key@) == i + rank(before.skip(i as int), key@),
            decreases items@.len() - i,
        {
            assert(before.skip(i as int).drop_first() =~= before.skip(i + 1));
            i = i + 1;
        }
        proof {
            lemma_with_entry_ascends(before, key@, value@);
        }
        if i < items.len() && same_text(items[i].0.as_str(), key.as_str()) {
            items.set(i, (key, value));
        } else {
            items.insert(i, (key, value));
        }
        assert(entry_views(items@) =~= with_entry(before, key@, value@));
        self.items = items;
    }

    /// The number of entries.
    pub fn len(&self) -> (r: usize)
        ensures
            r == self@.len(),
            keys_ascend(self@),
    {
        proof {
            use_type_invariant(self);
        }
        self.items.len()
    }

    /// Whether there are no entries.
    pub fn is_empty(&self) -> (r: bool)
        ensures
            r == (self@.len() == 0),
            keys_ascend(self@),
    {
        proof {
            use_type_invariant(self);
        }
        self.items.len() == 0
    }

    /// The key and the value of entry `i`, in the order of the keys.
    pub fn entry(&self, i: usize) -> (r: (&str, &str))
        requires
            i < self@.len(),
        ensures
            r.0@ == self@[i as int].0,
            r.1@ == self@[i as int].1,
            keys_ascend(self@),
    {
        proof {
            use_type_invariant(self);
        }
        (self.items[i].0.as_str(), self.items[i].1.as_str())
    }
}

} // verus!
