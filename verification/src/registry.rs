//! The registry of known devices: each stable identity with the descriptor
//! under which the device was last reached.
//!
//! The registry is a value held in memory. Its owner writes it out after
//! each call that changes it, and loads it when the process starts.

use vstd::prelude::*;
use crate::assoc::as_map;
use crate::assoc::ascending;
use crate::assoc::discard;
use crate::assoc::folded;
use crate::assoc::index_of_key;
use crate::assoc::key_at;
use crate::assoc::keyed;
use crate::assoc::lemma_as_map_at;
use crate::assoc::lemma_as_map_empty;
use crate::assoc::lemma_as_map_len;
use crate::assoc::lemma_as_map_remove;
use crate::assoc::lemma_ascending_distinct;
use crate::assoc::lemma_folded_distinct;
use crate::assoc::locate;
use crate::assoc::put;
use crate::attributes::identity_name;
use crate::descriptor::parsed_target;
use crate::descriptor::ConnectionDescriptor;
use crate::descriptor::DescriptorView;
use crate::error::texts;
use crate::error::ConfigField;
use crate::error::DutError;
use crate::error::DutErrorView;
use crate::order::lemma_precedes_asymmetric;
use crate::order::lemma_precedes_irreflexive;
use crate::order::precedes;
use crate::resolver::DiscoveryResult;

verus! {

/// The identities and descriptor views of a sequence of entries.
pub open spec fn entry_texts(s: Seq<(String, ConnectionDescriptor)>) -> Seq<
    (Seq<char>, DescriptorView),
> {
    keyed(s)
}

/// What a target string stands for: the descriptor of the known device of
/// that identity, or else the descriptor that the string itself denotes as
/// `host[:port]`.
pub open spec fn resolved_target(
    known: Map<Seq<char>, DescriptorView>,
    raw: Seq<char>,
    identity_file: Seq<char>,
) -> Result<DescriptorView, ConfigField> {
    if known.contains_key(raw) {
        Ok(known[raw])
    } else {
        match parsed_target(raw) {
            Ok((host, port)) => Ok(DescriptorView { host, port, identity_file }),
            Err(field) => Err(field),
        }
    }
}

/// The known devices. Until it is loaded, cleared or written to for the
/// first time, a registry is uninitialized and cannot be listed.
#[derive(Debug)]
pub struct Registry {
    loaded: bool,
    entries: Vec<(String, ConnectionDescriptor)>,
}

impl View for Registry {
    type V = Map<Seq<char>, DescriptorView>;

    closed spec fn view(&self) -> Map<Seq<char>, DescriptorView> {
        as_map(entry_texts(self.entries@))
    }
}

impl Registry {
    #[verifier::type_invariant]
    spec fn well_formed(self) -> bool {
        &&& ascending(entry_texts(self.entries@))
        &&& !self.loaded ==> self.entries@.len() == 0
    }

    /// Whether the registry has been loaded, cleared or written to.
    pub closed spec fn loaded(&self) -> bool {
        self.loaded
    }

    /// The entries in the order in which they are listed.
    pub closed spec fn listing(&self) -> Seq<(Seq<char>, DescriptorView)> {
        entry_texts(self.entries@)
    }

    /// An uninitialized registry.
    pub fn new() -> (r: Self)
        ensures
            !r.loaded(),
            r@ == Map::<Seq<char>, DescriptorView>::empty(),
            r.listing().len() == 0,
    {
        let entries: Vec<(String, ConnectionDescriptor)> = Vec::new();
        proof {
            lemma_as_map_empty(entry_texts(entries@));
        }
        Registry { loaded: false, entries }
    }

    /// The registry that results from storing `entries` one after the
    /// other in an empty one.
    pub fn load(entries: &Vec<(String, ConnectionDescriptor)>) -> (r: Self)
        ensures
            r.loaded(),
            r@ == folded(entry_texts(entries@)),
    {
        let mut r = Registry::new();
        r.clear();
        let mut i: usize = 0;
        while i < entries.len()
            invariant
                i <= entries.len(),
                r.loaded(),
                r@ == folded(entry_texts(entries@).take(i as int)),
            decreases entries.len() - i,
        {
            r.set(entries[i].0.as_str(), entries[i].1.clone());
            proof {
                let upto = entry_texts(entries@).take(i + 1);
                assert(upto.drop_last() =~= entry_texts(entries@).take(i as int));
                assert(upto.last() == (entries@[i as int].0@, entries@[i as int].1@));
            }
            i = i + 1;
        }
        proof {
            assert(entry_texts(entries@).take(i as int) =~= entry_texts(entries@));
        }
        r
    }

    /// Whether the registry has been loaded, cleared or written to.
    pub fn is_loaded(&self) -> (b: bool)
        ensures
            b == self.loaded(),
            !b ==> self@ == Map::<Seq<char>, DescriptorView>::empty(),
    {
        proof {
            use_type_invariant(self);
            if !self.loaded {
                lemma_as_map_empty(entry_texts(self.entries@));
            }
        }
        self.loaded
    }

    /// The number of known devices.
    pub fn len(&self) -> (n: usize)
        ensures
            self@.dom().finite(),
            n == self@.dom().len(),
            n == self.listing().len(),
    {
        proof {
            use_type_invariant(self);
            lemma_ascending_distinct(entry_texts(self.entries@));
            lemma_as_map_len(entry_texts(self.entries@));
        }
        self.entries.len()
    }

    /// The descriptor stored for `identity`, if there is one.
    pub fn get(&self, identity: &str) -> (r: Option<&ConnectionDescriptor>)
        ensures
            match r {
                Some(d) => self@.contains_key(identity@) && d@ == self@[identity@],
                None => !self@.contains_key(identity@),
            },
    {
        proof {
            use_type_invariant(self);
            lemma_ascending_distinct(entry_texts(self.entries@));
        }
        let (pos, found) = locate(&self.entries, identity);
        if found {
            proof {
                lemma_as_map_at(entry_texts(self.entries@), pos as int);
            }
            Some(&self.entries[pos].1)
        } else {
            None
        }
    }

    /// The descriptor stored for `identity`, or the failure that names the
    /// identity that is not known.
    pub fn lookup(&self, identity: &str) -> (r: Result<ConnectionDescriptor, DutError>)
        ensures
            match r {
                Ok(d) => self@.contains_key(identity@) && d@ == self@[identity@],
                Err(e) => !self@.contains_key(identity@) && e@ == DutErrorView::UnknownIdentifier(
                    identity@,
                ),
            },
    {
        match self.get(identity) {
            Some(d) => Ok(d.clone()),
            None => Err(DutError::UnknownIdentifier(identity.to_owned())),
        }
    }

    /// The descriptor that a target string stands for: that of the known
    /// device of this identity, or else the one that the string denotes.
    pub fn resolve(&self, raw: &str, identity_file: &str) -> (r: Result<
        ConnectionDescriptor,
        DutError,
    >)
        ensures
            match resolved_target(self@, raw@, identity_file@) {
                Ok(d) => r is Ok && r.unwrap()@ == d,
                Err(field) => r is Err && r.unwrap_err()@ == DutErrorView::Configuration(field),
            },
    {
        match self.get(raw) {
            Some(d) => Ok(d.clone()),
            None => ConnectionDescriptor::parse(raw, identity_file),
        }
    }

    /// All entries, in ascending order of identity. Fails on a registry
    /// that is uninitialized, which is not the same as an empty one.
    pub fn entries(&self) -> (r: Result<Vec<(String, ConnectionDescriptor)>, DutError>)
        ensures
            match r {
                Ok(list) => self.loaded() && entry_texts(list@) == self.listing(),
                Err(e) => !self.loaded() && e@ == DutErrorView::StoreUninitialized,
            },
            ascending(self.listing()),
            as_map(self.listing()) == self@,
    {
        proof {
            use_type_invariant(self);
        }
        if !self.loaded {
            return Err(DutError::StoreUninitialized);
        }
        let mut list: Vec<(String, ConnectionDescriptor)> = Vec::new();
        let mut i: usize = 0;
        while i < self.entries.len()
            invariant
                i <= self.entries.len(),
                list@.len() == i,
                forall|j: int| 0 <= j < i ==> (#[trigger] list@[j]).0@ == self.entries@[j].0@,
                forall|j: int| 0 <= j < i ==> (#[trigger] list@[j]).1@ == self.entries@[j].1@,
            decreases self.entries.len() - i,
        {
            list.push((self.entries[i].0.clone(), self.entries[i].1.clone()));
            i = i + 1;
        }
        proof {
            assert(entry_texts(list@) =~= entry_texts(self.entries@));
        }
        Ok(list)
    }

    /// The identities of all entries, in ascending order. Fails on a
    /// registry that is uninitialized.
    pub fn identities(&self) -> (r: Result<Vec<String>, DutError>)
        ensures
            match r {
                Ok(ids) => self.loaded() && texts(ids@) == self.listing().map_values(
                    |e: (Seq<char>, DescriptorView)| e.0,
                ),
                Err(e) => !self.loaded() && e@ == DutErrorView::StoreUninitialized,
            },
    {
        if !self.loaded {
            return Err(DutError::StoreUninitialized);
        }
        let mut ids: Vec<String> = Vec::new();
        let mut i: usize = 0;
        while i < self.entries.len()
            invariant
                i <= self.entries.len(),
                ids@.len() == i,
                forall|j: int| 0 <= j < i ==> (#[trigger] ids@[j])@ == self.entries@[j].0@,
            decreases self.entries.len() - i,
        {
            ids.push(self.entries[i].0.clone());
            i = i + 1;
        }
        proof {
            assert(texts(ids@) =~= entry_texts(self.entries@).map_values(
                |e: (Seq<char>, DescriptorView)| e.0,
            ));
        }
        Ok(ids)
    }

    /// Stores `descriptor` under `identity`, in place of what was stored
    /// under it before.
    pub fn set(&mut self, identity: &str, descriptor: ConnectionDescriptor)
        ensures
            final(self).loaded(),
            final(self)@ == old(self)@.insert(identity@, descriptor@),
    {
        proof {
            use_type_invariant(&*self);
        }
        let mut entries: Vec<(String, ConnectionDescriptor)> = Vec::new();
        std::mem::swap(&mut entries, &mut self.entries);
        put(&mut entries, identity, descriptor);
        self.loaded = true;
        self.entries = entries;
    }

    /// Removes the entry of `identity`. Where there is none, nothing
    /// changes.
    pub fn remove(&mut self, identity: &str)
        ensures
            final(self).loaded() == old(self).loaded(),
            final(self)@ == old(self)@.remove(identity@),
            !old(self)@.contains_key(identity@) ==> final(self)@ == old(self)@,
            !old(self)@.contains_key(identity@) ==> final(self).listing() == old(self).listing(),
    {
        proof {
            use_type_invariant(&*self);
        }
        let mut entries: Vec<(String, ConnectionDescriptor)> = Vec::new();
        std::mem::swap(&mut entries, &mut self.entries);
        discard(&mut entries, identity);
        self.entries = entries;
    }

    /// Removes every entry. The registry is initialized afterwards.
    pub fn clear(&mut self)
        ensures
            final(self).loaded(),
            final(self)@ == Map::<Seq<char>, DescriptorView>::empty(),
            final(self).listing().len() == 0,
    {
        let entries: Vec<(String, ConnectionDescriptor)> = Vec::new();
        proof {
            lemma_as_map_empty(entry_texts(entries@));
        }
        self.entries = entries;
        self.loaded = true;
    }

    /// Stores a resolved device under the identity that it reported, and
    /// returns that identity. A result without `dut_id` is refused, and the
    /// registry is left as it was.
    pub fn add(&mut self, found: &DiscoveryResult) -> (r: Result<String, DutError>)
        ensures
            match r {
                Ok(id) => {
                    &&& found.attributes@.contains_key(identity_name())
                    &&& id@ == found.attributes@[identity_name()]
                    &&& final(self).loaded()
                    &&& final(self)@ == old(self)@.insert(id@, found.descriptor@)
                },
                Err(e) => {
                    &&& !found.attributes@.contains_key(identity_name())
                    &&& e@ == DutErrorView::Resolution(identity_name())
                    &&& *final(self) == *old(self)
                },
            },
    {
        match found.attributes.identity() {
            Some(id) => {
                self.set(id, found.descriptor.clone());
                Ok(id.to_owned())
            },
            None => Err(DutError::Resolution("dut_id".to_owned())),
        }
    }
}

/// A listing shows each pair of the map it stands for.
pub proof fn lemma_listing_shows(
    listing: Seq<(Seq<char>, DescriptorView)>,
    identity: Seq<char>,
)
    requires
        ascending(listing),
        as_map(listing).contains_key(identity),
    ensures
        exists|i: int|
            0 <= i < listing.len() && #[trigger] listing[i] == (
                identity,
                as_map(listing)[identity],
            ),
        forall|i: int, j: int|
            0 <= i < listing.len() && 0 <= j < listing.len() && listing[i].0 == identity
                && listing[j].0 == identity ==> i == j,
{
    lemma_ascending_distinct(listing);
    let i = index_of_key(listing, identity);
    assert(key_at(listing, i, identity));
    lemma_as_map_at(listing, i);
    assert(listing[i] == (identity, as_map(listing)[identity]));
    assert forall|a: int, b: int|
        0 <= a < listing.len() && 0 <= b < listing.len() && listing[a].0 == identity
            && listing[b].0 == identity implies a == b by {
        lemma_as_map_at(listing, a);
        lemma_as_map_at(listing, b);
    }
}

/// A map has one listing only: two ascending lists that stand for the same
/// map are the same list.
pub proof fn lemma_listing_unique(
    a: Seq<(Seq<char>, DescriptorView)>,
    b: Seq<(Seq<char>, DescriptorView)>,
)
    requires
        ascending(a),
        ascending(b),
        as_map(a) == as_map(b),
    ensures
        a == b,
    decreases a.len(),
{
    lemma_ascending_distinct(a);
    lemma_ascending_distinct(b);
    lemma_as_map_len(a);
    lemma_as_map_len(b);
    if a.len() == 0 {
        assert(a =~= b);
    } else {
        let n = a.len() - 1;
        let ka = a[n].0;
        let kb = b[n].0;
        lemma_as_map_at(a, n);
        lemma_as_map_at(b, n);
        assert(as_map(b).contains_key(ka));
        assert(as_map(a).contains_key(kb));
        let j = index_of_key(b, ka);
        assert(key_at(b, j, ka));
        let i = index_of_key(a, kb);
        assert(key_at(a, i, kb));
        if j < n {
            assert(precedes(b[j].0, b[n].0));
            if i < n {
                assert(precedes(a[i].0, a[n].0));
                lemma_precedes_asymmetric(ka, kb);
            } else {
                lemma_precedes_irreflexive(ka);
            }
        }
        assert(ka == kb);
        assert(a[n] == b[n]);
        let a0 = a.remove(n);
        let b0 = b.remove(n);
        lemma_as_map_remove(a, n);
        lemma_as_map_remove(b, n);
        assert forall|x: int, y: int| 0 <= x < y < a0.len() implies precedes(
            (#[trigger] a0[x]).0,
            (#[trigger] a0[y]).0,
        ) by {
            assert(precedes(a[x].0, a[y].0));
        }
        assert forall|x: int, y: int| 0 <= x < y < b0.len() implies precedes(
            (#[trigger] b0[x]).0,
            (#[trigger] b0[y]).0,
        ) by {
            assert(precedes(b[x].0, b[y].0));
        }
        lemma_listing_unique(a0, b0);
        assert forall|x: int| 0 <= x < a.len() implies a[x] == b[x] by {
            if x < n {
                assert(a0[x] == a[x]);
                assert(b0[x] == b[x]);
            }
        }
        assert(a =~= b);
    }
}

/// Storing the entries of a listing one after the other gives back the
/// registry that was listed: nothing is lost between two runs.
pub proof fn lemma_listing_restores(listing: Seq<(Seq<char>, DescriptorView)>)
    requires
        ascending(listing),
    ensures
        folded(listing) == as_map(listing),
{
    lemma_ascending_distinct(listing);
    lemma_folded_distinct(listing);
}

/// Storing a descriptor under an identity a second time changes nothing,
/// and the listing then shows that identity once, beside that descriptor.
pub proof fn lemma_set_twice(
    before: Map<Seq<char>, DescriptorView>,
    identity: Seq<char>,
    descriptor: DescriptorView,
    listing: Seq<(Seq<char>, DescriptorView)>,
)
    requires
        ascending(listing),
        as_map(listing) == before.insert(identity, descriptor).insert(identity, descriptor),
    ensures
        before.insert(identity, descriptor).insert(identity, descriptor) == before.insert(
            identity,
            descriptor,
        ),
        exists|i: int| 0 <= i < listing.len() && #[trigger] listing[i] == (identity, descriptor),
        forall|i: int, j: int|
            0 <= i < listing.len() && 0 <= j < listing.len() && listing[i].0 == identity
                && listing[j].0 == identity ==> i == j,
{
    assert(before.insert(identity, descriptor).insert(identity, descriptor) =~= before.insert(
        identity,
        descriptor,
    ));
    lemma_listing_shows(listing, identity);
}

/// After two stores under different identities the listing shows both,
/// each beside its descriptor.
pub proof fn lemma_set_two(
    before: Map<Seq<char>, DescriptorView>,
    first: Seq<char>,
    first_descriptor: DescriptorView,
    second: Seq<char>,
    second_descriptor: DescriptorView,
    listing: Seq<(Seq<char>, DescriptorView)>,
)
    requires
        first != second,
        ascending(listing),
        as_map(listing) == before.insert(first, first_descriptor).insert(
            second,
            second_descriptor,
        ),
    ensures
        exists|i: int|
            0 <= i < listing.len() && #[trigger] listing[i] == (first, first_descriptor),
        exists|i: int|
            0 <= i < listing.len() && #[trigger] listing[i] == (second, second_descriptor),
{
    lemma_listing_shows(listing, first);
    lemma_listing_shows(listing, second);
}

/// Removing an identity that is not known leaves every entry as it was.
pub proof fn lemma_remove_absent(before: Map<Seq<char>, DescriptorView>, identity: Seq<char>)
    requires
        !before.contains_key(identity),
    ensures
        before.remove(identity) == before,
{
    assert(before.remove(identity) =~= before);
}

/// The listing of a registry without entries is empty.
pub proof fn lemma_empty_listing(listing: Seq<(Seq<char>, DescriptorView)>)
    requires
        ascending(listing),
        as_map(listing) == Map::<Seq<char>, DescriptorView>::empty(),
    ensures
        listing.len() == 0,
{
    lemma_ascending_distinct(listing);
    lemma_as_map_len(listing);
}

/// What was stored under an identity is what the listing shows for it:
/// the same identity and the same descriptor.
pub proof fn lemma_stored_is_listed(
    before: Map<Seq<char>, DescriptorView>,
    identity: Seq<char>,
    descriptor: DescriptorView,
    listing: Seq<(Seq<char>, DescriptorView)>,
)
    requires
        ascending(listing),
        as_map(listing) == before.insert(identity, descriptor),
    ensures
        exists|i: int| 0 <= i < listing.len() && #[trigger] listing[i] == (identity, descriptor),
{
    lemma_listing_shows(listing, identity);
}

} // verus!
