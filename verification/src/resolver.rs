//! Identity resolution: which attributes are asked for, and how the answers
//! become the attributes of a device.
//!
//! One query is issued per requested name. A resolution fails as a whole as
//! soon as one of its queries has no answer: no attribute is left out of a
//! successful result.

use vstd::prelude::*;
use crate::attributes::timestamp_name;
use crate::attributes::Attributes;
use crate::descriptor::ConnectionDescriptor;
use crate::error::texts;
use crate::error::DutError;
use crate::error::DutErrorView;
use crate::text::same_text;

verus! {

/// The names that are asked for where the caller names none.
pub open spec fn canonical_names() -> Seq<Seq<char>> {
    seq!["timestamp"@, "dut_id"@, "hwid"@, "release"@, "model"@, "serial"@, "mac"@]
}

/// The canonical attribute names, in their fixed order.
pub fn canonical_attribute_names() -> (r: Vec<String>)
    ensures
        texts(r@) == canonical_names(),
{
    let mut r: Vec<String> = Vec::new();
    r.push("timestamp".to_owned());
    r.push("dut_id".to_owned());
    r.push("hwid".to_owned());
    r.push("release".to_owned());
    r.push("model".to_owned());
    r.push("serial".to_owned());
    r.push("mac".to_owned());
    proof {
        assert(texts(r@) =~= canonical_names());
    }
    r
}

/// An owned copy of `names`.
pub fn copy_names(names: &Vec<String>) -> (r: Vec<String>)
    ensures
        texts(r@) == texts(names@),
{
    let mut r: Vec<String> = Vec::new();
    let mut i: usize = 0;
    while i < names.len()
        invariant
            i <= names.len(),
            r@.len() == i,
            forall|j: int| 0 <= j < i ==> r@[j]@ == names@[j]@,
        decreases names.len() - i,
    {
        r.push(names[i].clone());
        i = i + 1;
    }
    proof {
        assert(texts(r@) =~= texts(names@));
    }
    r
}

/// The names asked for in a discovery: the canonical ones, then those that
/// the caller added.
pub fn attribute_names(extra: &Vec<String>) -> (r: Vec<String>)
    ensures
        texts(r@) == canonical_names() + texts(extra@),
{
    let mut r = canonical_attribute_names();
    let mut i: usize = 0;
    while i < extra.len()
        invariant
            i <= extra.len(),
            texts(r@) == canonical_names() + texts(extra@).take(i as int),
        decreases extra.len() - i,
    {
        let ghost prev = r@;
        r.push(extra[i].clone());
        proof {
            assert(r@ == prev.push(r@.last()));
            assert(texts(r@) =~= texts(prev).push(extra@[i as int]@));
            assert(texts(extra@).take(i + 1) =~= texts(extra@).take(i as int).push(
                extra@[i as int]@,
            ));
        }
        i = i + 1;
    }
    proof {
        assert(texts(extra@).take(i as int) =~= texts(extra@));
    }
    r
}

/// The names asked for when one device is queried: those given, or the
/// canonical ones where none is given.
pub fn requested_names(keys: &Vec<String>) -> (r: Vec<String>)
    ensures
        texts(r@) == if keys@.len() == 0 {
            canonical_names()
        } else {
            texts(keys@)
        },
{
    if keys.len() == 0 {
        canonical_attribute_names()
    } else {
        copy_names(keys)
    }
}

/// The one name asked for when a known device is checked again.
pub fn identity_names() -> (r: Vec<String>)
    ensures
        texts(r@) == seq!["dut_id"@],
{
    let mut r: Vec<String> = Vec::new();
    r.push("dut_id".to_owned());
    proof {
        assert(texts(r@) =~= seq!["dut_id"@]);
    }
    r
}

/// Whether the value of `name` is taken from the resolver's own clock and
/// not asked of the device. This holds of `timestamp` alone.
pub fn is_local_attribute(name: &str) -> (b: bool)
    ensures
        b == (name@ == timestamp_name()),
{
    same_text(name, "timestamp")
}

/// Whether the query at position `i` has an answer.
pub open spec fn answered(answers: Seq<Option<String>>, i: int) -> bool {
    0 <= i < answers.len() && answers[i] is Some
}

/// Whether the query at position `i` is the first without an answer.
pub open spec fn first_unanswered(
    names: Seq<String>,
    answers: Seq<Option<String>>,
    i: int,
) -> bool {
    &&& 0 <= i < names.len()
    &&& !answered(answers, i)
    &&& forall|j: int| 0 <= j < i ==> answered(answers, j)
}

/// The attributes that the first `n` names and their answers give: each
/// name mapped to its answer, a later occurrence of a name prevailing.
pub open spec fn merged(names: Seq<String>, answers: Seq<Option<String>>, n: nat) -> Map<
    Seq<char>,
    Seq<char>,
>
    decreases n,
{
    if n == 0 {
        Map::empty()
    } else {
        merged(names, answers, (n - 1) as nat).insert(names[n - 1]@, answers[n - 1].unwrap()@)
    }
}

/// Merges the answers to the queries for `names` into attributes.
/// `answers[i]` is the answer for `names[i]`; `None`, or no entry at all,
/// says that the query failed. The resolution fails at the first name
/// without an answer.
pub fn merge_answers(names: &Vec<String>, answers: &Vec<Option<String>>) -> (r: Result<
    Attributes,
    DutError,
>)
    ensures
        r is Ok <==> forall|i: int| 0 <= i < names.len() ==> answered(answers@, i),
        r is Ok ==> r.unwrap()@ == merged(names@, answers@, names@.len()),
        r is Err ==> exists|i: int| #[trigger]
            first_unanswered(names@, answers@, i) && r.unwrap_err()@ == DutErrorView::Resolution(
                names@[i]@,
            ),
{
    let mut attributes = Attributes::new();
    let mut i: usize = 0;
    while i < names.len()
        invariant
            i <= names.len(),
            forall|j: int| 0 <= j < i ==> answered(answers@, j),
            attributes@ == merged(names@, answers@, i as nat),
        decreases names.len() - i,
    {
        if i >= answers.len() {
            assert(first_unanswered(names@, answers@, i as int));
            return Err(DutError::Resolution(names[i].clone()));
        }
        match &answers[i] {
            Some(value) => {
                attributes.insert(names[i].as_str(), value.as_str());
            },
            None => {
                assert(first_unanswered(names@, answers@, i as int));
                return Err(DutError::Resolution(names[i].clone()));
            },
        }
        i = i + 1;
    }
    Ok(attributes)
}

/// One successfully resolved candidate: how it is reached, and what it
/// answered.
#[derive(Debug)]
pub struct DiscoveryResult {
    pub descriptor: ConnectionDescriptor,
    pub attributes: Attributes,
}

impl Clone for DiscoveryResult {
    fn clone(&self) -> (r: Self)
        ensures
            r.descriptor == self.descriptor,
            r.attributes@ == self.attributes@,
    {
        DiscoveryResult {
            descriptor: self.descriptor.clone(),
            attributes: self.attributes.clone(),
        }
    }
}

/// The outcome of the resolution of one candidate: the device as it
/// resolved, or the failure of the first query without an answer.
pub fn resolution(
    descriptor: ConnectionDescriptor,
    names: &Vec<String>,
    answers: &Vec<Option<String>>,
) -> (r: Result<DiscoveryResult, DutError>)
    ensures
        r is Ok <==> forall|i: int| 0 <= i < names.len() ==> answered(answers@, i),
        r is Ok ==> r.unwrap().descriptor == descriptor && r.unwrap().attributes@ == merged(
            names@,
            answers@,
            names@.len(),
        ),
        r is Err ==> exists|i: int| #[trigger]
            first_unanswered(names@, answers@, i) && r.unwrap_err()@ == DutErrorView::Resolution(
                names@[i]@,
            ),
{
    match merge_answers(names, answers) {
        Ok(attributes) => Ok(DiscoveryResult { descriptor, attributes }),
        Err(e) => Err(e),
    }
}

/// How the value of one attribute is obtained.
#[derive(Debug, PartialEq, Eq)]
pub enum Query {
    /// From the clock of the machine that resolves.
    Clock,
    /// By asking the device for the attribute of this name.
    Remote(String),
}

/// A [`Query`] as mathematical values.
pub enum QueryView {
    Clock,
    Remote(Seq<char>),
}

impl View for Query {
    type V = QueryView;

    open spec fn view(&self) -> QueryView {
        match *self {
            Query::Clock => QueryView::Clock,
            Query::Remote(name) => QueryView::Remote(name@),
        }
    }
}

/// The query for the attribute `name`.
pub open spec fn query_for(name: Seq<char>) -> QueryView {
    if name == timestamp_name() {
        QueryView::Clock
    } else {
        QueryView::Remote(name)
    }
}

/// Whether every query that was issued so far has an answer.
pub open spec fn all_answered(answers: Seq<Option<String>>) -> bool {
    forall|i: int| 0 <= i < answers.len() ==> (#[trigger] answers[i]) is Some
}

/// The query that is due when `answers` are in: that for the next name,
/// unless every name has its answer or a query has failed.
pub open spec fn due(names: Seq<String>, answers: Seq<Option<String>>) -> Option<QueryView> {
    if answers.len() < names.len() && all_answered(answers) {
        Some(query_for(names[answers.len() as int]@))
    } else {
        None
    }
}

/// The course of one resolution: the queries are issued one at a time, in
/// the order of the names, and none is issued after one has failed.
#[derive(Debug)]
pub struct Resolver {
    names: Vec<String>,
    answers: Vec<Option<String>>,
}

impl Resolver {
    #[verifier::type_invariant]
    spec fn well_formed(self) -> bool {
        &&& self.answers@.len() <= self.names@.len()
        &&& forall|i: int| 0 <= i && i + 1 < self.answers@.len() ==> (#[trigger] self.answers@[i])
            is Some
    }

    /// The names that are asked for.
    pub closed spec fn names(&self) -> Seq<String> {
        self.names@
    }

    /// The answers that are in, in the order of the names.
    pub closed spec fn answers(&self) -> Seq<Option<String>> {
        self.answers@
    }

    /// Begins the resolution of `names`. No query has been issued.
    pub fn begin(names: Vec<String>) -> (r: Self)
        ensures
            r.names() == names@,
            r.answers().len() == 0,
    {
        Resolver { names, answers: Vec::new() }
    }

    /// Whether a query is due.
    fn is_due(&self) -> (b: bool)
        ensures
            b == (due(self.names(), self.answers()) is Some),
            b ==> self.answers@.len() < self.names@.len(),
    {
        proof {
            use_type_invariant(self);
        }
        let count = self.answers.len();
        if count >= self.names.len() {
            return false;
        }
        if count == 0 {
            return true;
        }
        let intact = self.answers[count - 1].is_some();
        proof {
            if intact {
                assert forall|i: int| 0 <= i < self.answers@.len() implies (
                #[trigger] self.answers@[i]) is Some by {
                    if i + 1 < self.answers@.len() {
                    }
                }
            } else {
                assert(self.answers@[count - 1] is None);
            }
        }
        intact
    }

    /// The query to issue next, if the resolution is not over.
    pub fn pending(&self) -> (r: Option<Query>)
        ensures
            match r {
                Some(query) => due(self.names(), self.answers()) == Some(query@),
                None => due(self.names(), self.answers()) is None,
            },
    {
        if self.is_due() {
            let name = &self.names[self.answers.len()];
            if is_local_attribute(name.as_str()) {
                Some(Query::Clock)
            } else {
                Some(Query::Remote(name.clone()))
            }
        } else {
            None
        }
    }

    /// Takes note of the answer to the pending query; `None` says that
    /// the query failed. Where no query is pending, nothing changes.
    pub fn record(&mut self, answer: Option<String>)
        ensures
            final(self).names() == old(self).names(),
            final(self).answers() == if due(old(self).names(), old(self).answers()) is Some {
                old(self).answers().push(answer)
            } else {
                old(self).answers()
            },
    {
        if self.is_due() {
            let mut answers: Vec<Option<String>> = Vec::new();
            std::mem::swap(&mut answers, &mut self.answers);
            let ghost before = answers@;
            answers.push(answer);
            proof {
                assert forall|i: int| 0 <= i && i + 1 < answers@.len() implies (
                #[trigger] answers@[i]) is Some by {
                    assert(before[i] is Some);
                }
            }
            self.answers = answers;
        }
    }

    /// Ends the resolution. A name whose query failed or was not issued
    /// fails the resolution as a whole.
    pub fn finish(self, descriptor: ConnectionDescriptor) -> (r: Result<DiscoveryResult, DutError>)
        ensures
            r is Ok <==> self.answers().len() == self.names().len() && all_answered(
                self.answers(),
            ),
            r is Ok ==> r.unwrap().descriptor == descriptor && r.unwrap().attributes@ == merged(
                self.names(),
                self.answers(),
                self.names().len(),
            ),
            r is Err ==> exists|i: int| #[trigger]
                first_unanswered(self.names(), self.answers(), i) && r.unwrap_err()@
                    == DutErrorView::Resolution(self.names()[i]@),
    {
        proof {
            use_type_invariant(&self);
        }
        let r = resolution(descriptor, &self.names, &self.answers);
        proof {
            if self.answers@.len() == self.names@.len() && all_answered(self.answers@) {
                assert forall|i: int| 0 <= i < self.names@.len() implies answered(
                    self.answers@,
                    i,
                ) by {
                    assert(self.answers@[i] is Some);
                }
            }
            if r is Ok {
                assert forall|i: int| 0 <= i < self.answers@.len() implies (
                #[trigger] self.answers@[i]) is Some by {
                    assert(answered(self.answers@, i));
                }
                if self.answers@.len() < self.names@.len() {
                    assert(answered(self.answers@, self.answers@.len() as int));
                }
            } else {
                let i = choose|i: int| #[trigger]
                    first_unanswered(self.names@, self.answers@, i) && r.unwrap_err()@
                        == DutErrorView::Resolution(self.names@[i]@);
                assert(first_unanswered(self.names(), self.answers(), i));
                assert(r.unwrap_err()@ == DutErrorView::Resolution(self.names()[i]@));
            }
        }
        r
    }
}

/// No query follows a failed one: once an answer is missing, nothing is
/// due, whatever is recorded afterwards.
pub proof fn lemma_failed_query_ends_resolution(
    names: Seq<String>,
    answers: Seq<Option<String>>,
    i: int,
)
    requires
        0 <= i < answers.len(),
        answers[i] is None,
    ensures
        due(names, answers) is None,
{
}

} // verus!
