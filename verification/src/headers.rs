//! The headers of a request: a map from header name to header value. Names
//! are compared byte for byte, and a name that is set twice keeps the value
//! that was set last.

use crate::bytes::same_bytes;
use vstd::prelude::*;

verus! {

/// One header: a name and the value given to it.
#[derive(Debug, PartialEq, Eq)]
pub struct Header {
    /// The name, as it was written.
    pub name: Vec<u8>,
    /// The value, as it was written.
    pub value: Vec<u8>,
}

/// A map from header name to header value, kept as the list of its entries
/// in the order in which their names first came. No name occurs twice.
///
/// Two maps are equal where they give the same names the same values, in
/// whatever order the names came.
#[derive(Debug)]
pub struct Headers {
    entries: Vec<Header>,
}

/// The map that comes of setting each entry in turn, first to last.
spec fn entries_map(entries: Seq<Header>) -> Map<Seq<u8>, Seq<u8>>
    decreases entries.len(),
{
    if entries.len() == 0 {
        Map::empty()
    } else {
        entries_map(entries.drop_last()).insert(entries.last().name@, entries.last().value@)
    }
}

/// Whether no two entries have the same name.
spec fn distinct_names(entries: Seq<Header>) -> bool {
    forall|i: int, j: int|
        0 <= i < j < entries.len() ==> (#[trigger] entries[i]).name@ != (
        #[trigger] entries[j]).name@
}

/// A name is in the map exactly if some entry has it.
proof fn lemma_contains(entries: Seq<Header>, name: Seq<u8>)
    ensures
        entries_map(entries).contains_key(name) <==> exists|i: int|
            0 <= i < entries.len() && (#[trigger] entries[i]).name@ == name,
    decreases entries.len(),
{
    if entries.len() > 0 {
        let front = entries.drop_last();
        lemma_contains(front, name);
        if entries_map(entries).contains_key(name) {
            if entries.last().name@ == name {
                assert(entries[entries.len() - 1].name@ == name);
            } else {
                let i = choose|i: int| 0 <= i < front.len() && (#[trigger] front[i]).name@ == name;
                assert(entries[i].name@ == name);
            }
        }
        if exists|i: int| 0 <= i < entries.len() && (#[trigger] entries[i]).name@ == name {
            let i = choose|i: int| 0 <= i < entries.len() && (#[trigger] entries[i]).name@ == name;
            if i < front.len() {
                assert(front[i].name@ == name);
            }
        }
    }
}

/// Where names are distinct, they are distinct among all entries but the
/// last.
proof fn lemma_distinct_front(entries: Seq<Header>)
    requires
        distinct_names(entries),
        entries.len() > 0,
    ensures
        distinct_names(entries.drop_last()),
{
    let front = entries.drop_last();
    assert forall|a: int, b: int| 0 <= a < b < front.len() implies (#[trigger] front[a]).name@
        != (#[trigger] front[b]).name@ by {
        assert(entries[a].name@ != entries[b].name@);
    }
}

/// Where names are distinct, the map gives each name the value of its entry.
proof fn lemma_value(entries: Seq<Header>, i: int)
    requires
        distinct_names(entries),
        0 <= i < entries.len(),
    ensures
        entries_map(entries).contains_key(entries[i].name@),
        entries_map(entries)[entries[i].name@] == entries[i].value@,
    decreases entries.len(),
{
    let front = entries.drop_last();
    if i < entries.len() - 1 {
        lemma_distinct_front(entries);
        lemma_value(front, i);
        assert(front[i] == entries[i]);
        assert(entries[i].name@ != entries[entries.len() - 1].name@);
    }
}

/// Where names are distinct, giving an entry a new value sets that name in
/// the map and leaves the names distinct.
proof fn lemma_replace(entries: Seq<Header>, i: int, entry: Header)
    requires
        distinct_names(entries),
        0 <= i < entries.len(),
        entry.name@ == entries[i].name@,
    ensures
        distinct_names(entries.update(i, entry)),
        entries_map(entries.update(i, entry)) == entries_map(entries).insert(
            entry.name@,
            entry.value@,
        ),
    decreases entries.len(),
{
    let after = entries.update(i, entry);
    assert(distinct_names(after)) by {
        assert forall|a: int, b: int| 0 <= a < b < after.len() implies (#[trigger] after[a]).name@
            != (#[trigger] after[b]).name@ by {
            assert(entries[a].name@ != entries[b].name@);
        }
    }
    let front = entries.drop_last();
    let last = entries.last();
    if i == entries.len() - 1 {
        assert(after.drop_last() =~= front);
        assert(entries_map(after) =~= entries_map(entries).insert(entry.name@, entry.value@));
    } else {
        lemma_distinct_front(entries);
        lemma_replace(front, i, entry);
        assert(after.drop_last() =~= front.update(i, entry));
        assert(after.last() == last);
        assert(entries[i].name@ != entries[entries.len() - 1].name@);
        assert(entries_map(after) =~= entries_map(entries).insert(entry.name@, entry.value@));
    }
}

impl View for Headers {
    type V = Map<Seq<u8>, Seq<u8>>;

    closed spec fn view(&self) -> Map<Seq<u8>, Seq<u8>> {
        entries_map(self.entries@)
    }
}

impl Headers {
    #[verifier::type_invariant]
    spec fn names_are_distinct(self) -> bool {
        distinct_names(self.entries@)
    }

    /// The empty map.
    pub fn new() -> (headers: Self)
        ensures
            headers@ == Map::<Seq<u8>, Seq<u8>>::empty(),
    {
        Headers { entries: Vec::new() }
    }

    /// The index of the entry named `name`, if there is one.
    fn position(&self, name: &[u8]) -> (at: Option<usize>)
        ensures
            match at {
                Some(i) => i < self.entries@.len() && self.entries@[i as int].name@ == name@,
                None => forall|i: int|
                    0 <= i < self.entries@.len() ==> (#[trigger] self.entries@[i]).name@ != name@,
            },
    {
        let mut i: usize = 0;
        while i < self.entries.len()
            invariant
                i <= self.entries@.len(),
                forall|k: int| 0 <= k < i ==> (#[trigger] self.entries@[k]).name@ != name@,
            decreases self.entries@.len() - i,
        {
            if same_bytes(self.entries[i].name.as_slice(), name) {
                return Some(i);
            }
            i += 1;
        }
        None
    }

    /// The value of the header named `name`, or `None` where the request
    /// gave no such header. A header with an empty value is present.
    pub fn get(&self, name: &[u8]) -> (value: Option<&[u8]>)
        ensures
            match value {
                Some(v) => self@.contains_key(name@) && v@ == self@[name@],
                None => !self@.contains_key(name@),
            },
    {
        proof {
            use_type_invariant(self);
            lemma_contains(self.entries@, name@);
        }
        match self.position(name) {
            Some(i) => {
                proof {
                    lemma_value(self.entries@, i as int);
                }
                Some(self.entries[i].value.as_slice())
            },
            None => None,
        }
    }

    /// Sets the header named `name` to `value`. Any value that it had before
    /// is lost; every other header stays as it was.
    pub fn insert(&mut self, name: Vec<u8>, value: Vec<u8>)
        ensures
            final(self)@ == old(self)@.insert(name@, value@),
    {
        proof {
            use_type_invariant(&*self);
        }
        let at = self.position(name.as_slice());
        let mut entries: Vec<Header> = Vec::new();
        std::mem::swap(&mut entries, &mut self.entries);
        let ghost before = entries@;
        let entry = Header { name, value };
        match at {
            Some(i) => {
                proof {
                    lemma_replace(before, i as int, entry);
                }
                entries.set(i, entry);
            },
            None => {
                entries.push(entry);
                assert(entries@.drop_last() =~= before);
                assert(distinct_names(entries@));
            },
        }
        self.entries = entries;
    }
}

impl Headers {
    /// Whether every header of `other` is a header of `self`, with the same
    /// value.
    fn holds_all_of(&self, other: &Headers) -> (yes: bool)
        ensures
            yes == other@.submap_of(self@),
    {
        proof {
            use_type_invariant(other);
        }
        let mut i: usize = 0;
        while i < other.entries.len()
            invariant
                i <= other.entries@.len(),
                distinct_names(other.entries@),
                forall|k: int|
                    0 <= k < i ==> self@.contains_key((#[trigger] other.entries@[k]).name@)
                        && self@[other.entries@[k].name@] == other.entries@[k].value@,
            decreases other.entries@.len() - i,
        {
            let entry = &other.entries[i];
            proof {
                lemma_value(other.entries@, i as int);
            }
            match self.get(entry.name.as_slice()) {
                Some(value) => {
                    if !same_bytes(value, entry.value.as_slice()) {
                        return false;
                    }
                },
                None => {
                    return false;
                },
            }
            i += 1;
        }
        proof {
            assert forall|name: Seq<u8>| #[trigger]
                other@.dom().contains(name) implies self@.dom().contains(name) && other@[name]
                == self@[name] by {
                lemma_contains(other.entries@, name);
                let k = choose|k: int|
                    0 <= k < other.entries@.len() && (#[trigger] other.entries@[k]).name@ == name;
                lemma_value(other.entries@, k);
            }
        }
        true
    }
}

impl PartialEq for Headers {
    fn eq(&self, other: &Self) -> (same: bool) {
        let same = self.holds_all_of(other) && other.holds_all_of(self);
        proof {
            self@.lemma_submap_eq_iff(other@);
        }
        same
    }
}

impl Eq for Headers {

}

impl vstd::std_specs::cmp::PartialEqSpecImpl for Headers {
    open spec fn obeys_eq_spec() -> bool {
        true
    }

    open spec fn eq_spec(&self, other: &Self) -> bool {
        self@ == other@
    }
}

} // verus!
