//! Named attributes of a device, and how the answers to the queries for
//! them are merged.

use vstd::prelude::*;
use crate::assoc::as_map;
use crate::assoc::distinct_keys;
use crate::assoc::has_key;
use crate::assoc::index_of_key;
use crate::assoc::key_at;
use crate::assoc::keyed;
use crate::assoc::lemma_as_map_at;
use crate::assoc::lemma_as_map_empty;
use crate::assoc::lemma_as_map_insert;
use crate::assoc::lemma_as_map_len;
use crate::assoc::lemma_as_map_update;
use crate::assoc::lemma_folded_distinct;
use crate::error::DutError;
use crate::json::json_object_text;
use crate::json::render_object;
use crate::text::same_text;

verus! {

/// The name of the attribute that holds a device's stable identity.
pub open spec fn identity_name() -> Seq<char> {
    "dut_id"@
}

/// The name of the attribute that holds the time of the resolution.
pub open spec fn timestamp_name() -> Seq<char> {
    "timestamp"@
}

/// The character sequences of a sequence of pairs of strings.
pub open spec fn pair_texts(s: Seq<(String, String)>) -> Seq<(Seq<char>, Seq<char>)> {
    keyed(s)
}

/// A mapping from attribute names to attribute values. Names are not
/// declared beforehand; each occurs once.
#[derive(Debug)]
pub struct Attributes {
    pairs: Vec<(String, String)>,
}

impl View for Attributes {
    type V = Map<Seq<char>, Seq<char>>;

    closed spec fn view(&self) -> Map<Seq<char>, Seq<char>> {
        as_map(pair_texts(self.pairs@))
    }
}

/// The position of the pair named `name` in `pairs`, if there is one.
fn position(pairs: &Vec<(String, String)>, name: &str) -> (r: Option<usize>)
    ensures
        match r {
            Some(i) => key_at(pair_texts(pairs@), i as int, name@),
            None => !has_key(pair_texts(pairs@), name@),
        },
{
    let mut i: usize = 0;
    while i < pairs.len()
        invariant
            i <= pairs.len(),
            forall|j: int| 0 <= j < i ==> !key_at(pair_texts(pairs@), j, name@),
        decreases pairs.len() - i,
    {
        if same_text(pairs[i].0.as_str(), name) {
            return Some(i);
        }
        i = i + 1;
    }
    proof {
        if has_key(pair_texts(pairs@), name@) {
            let j = index_of_key(pair_texts(pairs@), name@);
            assert(key_at(pair_texts(pairs@), j, name@));
        }
    }
    None
}

impl Attributes {
    #[verifier::type_invariant]
    spec fn names_are_distinct(self) -> bool {
        distinct_keys(pair_texts(self.pairs@))
    }

    /// The pairs of name and value, in the order in which the names were
    /// first set.
    pub closed spec fn listing(&self) -> Seq<(Seq<char>, Seq<char>)> {
        pair_texts(self.pairs@)
    }

    /// No attributes.
    pub fn new() -> (r: Self)
        ensures
            r@ == Map::<Seq<char>, Seq<char>>::empty(),
            r.listing().len() == 0,
    {
        let pairs: Vec<(String, String)> = Vec::new();
        proof {
            lemma_as_map_empty(pair_texts(pairs@));
        }
        Attributes { pairs }
    }

    /// The number of attributes.
    pub fn len(&self) -> (r: usize)
        ensures
            self@.dom().finite(),
            r == self@.dom().len(),
            r == self.listing().len(),
    {
        proof {
            use_type_invariant(self);
            lemma_as_map_len(pair_texts(self.pairs@));
        }
        self.pairs.len()
    }

    /// The value of the attribute `name`, if it is set.
    pub fn get(&self, name: &str) -> (r: Option<&str>)
        ensures
            match r {
                Some(value) => self@.contains_key(name@) && value@ == self@[name@],
                None => !self@.contains_key(name@),
            },
    {
        proof {
            use_type_invariant(self);
        }
        match position(&self.pairs, name) {
            Some(i) => {
                proof {
                    lemma_as_map_at(pair_texts(self.pairs@), i as int);
                }
                Some(self.pairs[i].1.as_str())
            },
            None => None,
        }
    }

    /// Sets the attribute `name` to `value`, in place of any value it had.
    pub fn insert(&mut self, name: &str, value: &str)
        ensures
            final(self)@ == old(self)@.insert(name@, value@),
            final(self).listing() == if has_key(old(self).listing(), name@) {
                old(self).listing().update(
                    index_of_key(old(self).listing(), name@),
                    (name@, value@),
                )
            } else {
                old(self).listing().push((name@, value@))
            },
    {
        proof {
            use_type_invariant(&*self);
        }
        let mut pairs: Vec<(String, String)> = Vec::new();
        proof {
            lemma_as_map_empty(pair_texts(pairs@));
        }
        std::mem::swap(&mut pairs, &mut self.pairs);
        let ghost before = pair_texts(pairs@);
        match position(&pairs, name) {
            Some(i) => {
                let _ = pairs.remove(i);
                pairs.insert(i, (name.to_owned(), value.to_owned()));
                proof {
                    lemma_as_map_update(before, i as int, value@);
                    lemma_as_map_at(before, i as int);
                    assert(pair_texts(pairs@) =~= before.update(i as int, (name@, value@)));
                }
            },
            None => {
                pairs.push((name.to_owned(), value.to_owned()));
                proof {
                    lemma_as_map_insert(before, before.len() as int, name@, value@);
                    assert(pair_texts(pairs@) =~= before.insert(
                        before.len() as int,
                        (name@, value@),
                    ));
                    assert(pair_texts(pairs@) =~= before.push((name@, value@)));
                }
            },
        }
        self.pairs = pairs;
    }

    /// The stable identity of the device: the value of `dut_id`, if set.
    pub fn identity(&self) -> (r: Option<&str>)
        ensures
            match r {
                Some(value) => self@.contains_key(identity_name()) && value@ == self@[identity_name()],
                None => !self@.contains_key(identity_name()),
            },
    {
        self.get("dut_id")
    }

    /// The pairs of name and value, in the order in which the names were
    /// first set.
    pub fn pairs(&self) -> (r: Vec<(String, String)>)
        ensures
            pair_texts(r@) == self.listing(),
            distinct_keys(self.listing()),
            as_map(self.listing()) == self@,
    {
        proof {
            use_type_invariant(self);
        }
        let mut r: Vec<(String, String)> = Vec::new();
        let mut i: usize = 0;
        while i < self.pairs.len()
            invariant
                i <= self.pairs.len(),
                r@.len() == i,
                pair_texts(r@) == pair_texts(self.pairs@).take(i as int),
            decreases self.pairs.len() - i,
        {
            let ghost prev = r@;
            r.push((self.pairs[i].0.clone(), self.pairs[i].1.clone()));
            proof {
                let want = pair_texts(self.pairs@).take(i + 1);
                assert(want.len() == i + 1);
                assert(r@.len() == i + 1);
                assert forall|j: int| 0 <= j < want.len() implies pair_texts(r@)[j] == want[j] by {
                    if j < i {
                        assert(r@[j] == prev[j]);
                        assert(pair_texts(prev)[j] == pair_texts(self.pairs@).take(i as int)[j]);
                    }
                }
                assert(pair_texts(r@) =~= want);
            }
            i = i + 1;
        }
        proof {
            assert(pair_texts(self.pairs@).take(i as int) =~= pair_texts(self.pairs@));
        }
        r
    }
}

impl Attributes {
    /// The attributes as one JSON object, each attribute a member of it,
    /// in ascending order of the names. The rendering always succeeds, and
    /// the text is the encoder's text for exactly these attributes.
    pub fn render(&self) -> (r: Result<String, DutError>)
        ensures
            r is Ok,
            r.unwrap()@ == json_object_text(self@),
    {
        let pairs = self.pairs();
        proof {
            lemma_folded_distinct(pair_texts(pairs@));
        }
        render_object(&pairs)
    }
}

impl Clone for Attributes {
    fn clone(&self) -> (r: Self)
        ensures
            r@ == self@,
            r.listing() == self.listing(),
    {
        proof {
            use_type_invariant(self);
        }
        Attributes { pairs: self.pairs() }
    }
}

} // verus!
