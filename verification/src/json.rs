//! Rendering of reports as JSON text.
//!
//! An object is rendered with its members in ascending order of their
//! names, so that the same members always give the same text.

use vstd::prelude::*;
use crate::assoc::as_map;
use crate::assoc::ascending;
use crate::assoc::folded;
use crate::assoc::lemma_as_map_empty;
use crate::assoc::put;
use crate::attributes::pair_texts;
use crate::error::DutError;
use crate::error::DutErrorView;

verus! {

/// `serde_json::Error`: the failure of a rendering, carried through as an
/// opaque value.
#[verifier::external_type_specification]
#[verifier::external_body]
pub struct ExJsonError(serde_json::Error);

/// The text that `serde_json::to_string` gives for the object that has
/// these members, each value a string, walked in ascending order of the
/// names. Nothing more is said of it here.
pub uninterp spec fn json_object_text(members: Map<Seq<char>, Seq<char>>) -> Seq<char>;

/// The text that `serde_json::to_string_pretty` gives for the array of
/// the objects that have these members, each as for [`json_object_text`].
/// Nothing more is said of it here.
pub uninterp spec fn json_array_text(objects: Seq<Map<Seq<char>, Seq<char>>>) -> Seq<char>;

/// The maps that lists of pairs stand for, list by list.
pub open spec fn object_maps(objects: Seq<Vec<(String, String)>>) -> Seq<
    Map<Seq<char>, Seq<char>>,
> {
    objects.map_values(|pairs: Vec<(String, String)>| as_map(pair_texts(pairs@)))
}

/// The maps that result from putting the pairs of each list in one after
/// the other, list by list.
pub open spec fn folded_maps(objects: Seq<Vec<(String, String)>>) -> Seq<
    Map<Seq<char>, Seq<char>>,
> {
    objects.map_values(|pairs: Vec<(String, String)>| folded(pair_texts(pairs@)))
}

/// Calls `serde_json::to_string` on the ordered map that holds the pairs
/// of `pairs`, which come in the order of that map. The call succeeds:
/// the encoder writes into memory, and a map from strings to strings gives
/// it neither a key that is no string nor a value that refuses to be
/// written. Its text is the one named [`json_object_text`] for these
/// members.
#[verifier::external_body]
fn object_text(pairs: &Vec<(String, String)>) -> (r: Result<String, serde_json::Error>)
    requires
        ascending(pair_texts(pairs@)),
    ensures
        r is Ok,
        r.unwrap()@ == json_object_text(as_map(pair_texts(pairs@))),
{
    let object: std::collections::BTreeMap<String, String> = pairs.iter().cloned().collect();
    serde_json::to_string(&object)
}

/// Calls `serde_json::to_string_pretty` on the list of the ordered maps
/// that hold the pairs of the items of `objects`, each of which comes in
/// the order of its map. The call succeeds, for the reasons given at
/// [`object_text`], and its text is the one named [`json_array_text`] for
/// these objects.
#[verifier::external_body]
fn object_list_text(objects: &Vec<Vec<(String, String)>>) -> (r: Result<
    String,
    serde_json::Error,
>)
    requires
        forall|i: int| 0 <= i < objects@.len() ==> ascending(pair_texts((#[trigger] objects@[i])@)),
    ensures
        r is Ok,
        r.unwrap()@ == json_array_text(object_maps(objects@)),
{
    let list: Vec<std::collections::BTreeMap<String, String>> = objects.iter().map(
        |pairs| pairs.iter().cloned().collect(),
    ).collect();
    serde_json::to_string_pretty(&list)
}

/// What is reported for the outcome of a rendering: the text as it came,
/// or the failure to encode.
pub fn rendered(outcome: Result<String, serde_json::Error>) -> (r: Result<String, DutError>)
    ensures
        match outcome {
            Ok(text) => r is Ok && r.unwrap() == text,
            Err(_) => r is Err && r.unwrap_err()@ == DutErrorView::Encoding,
        },
{
    match outcome {
        Ok(text) => Ok(text),
        Err(_) => Err(DutError::Encoding),
    }
}

/// The pairs in ascending order of their names, each name once: of two
/// pairs with one name the later one is kept.
pub fn ascending_pairs(pairs: &Vec<(String, String)>) -> (r: Vec<(String, String)>)
    ensures
        ascending(pair_texts(r@)),
        as_map(pair_texts(r@)) == folded(pair_texts(pairs@)),
{
    let mut r: Vec<(String, String)> = Vec::new();
    let mut i: usize = 0;
    proof {
        lemma_as_map_empty(pair_texts(r@));
        assert(pair_texts(pairs@).take(0).len() == 0);
    }
    while i < pairs.len()
        invariant
            i <= pairs.len(),
            ascending(pair_texts(r@)),
            as_map(pair_texts(r@)) == folded(pair_texts(pairs@).take(i as int)),
        decreases pairs.len() - i,
    {
        put(&mut r, pairs[i].0.as_str(), pairs[i].1.clone());
        proof {
            let upto = pair_texts(pairs@).take(i + 1);
            assert(upto.drop_last() =~= pair_texts(pairs@).take(i as int));
            assert(upto.last() == (pairs@[i as int].0@, pairs@[i as int].1@));
        }
        i = i + 1;
    }
    proof {
        assert(pair_texts(pairs@).take(i as int) =~= pair_texts(pairs@));
    }
    r
}

/// The JSON object with one member per pair: the first component is the
/// member's name, the second its value, a string. Of two pairs with one
/// name the later one gives the member. The rendering always succeeds, and
/// the text is the encoder's text for exactly these members.
pub fn render_object(pairs: &Vec<(String, String)>) -> (r: Result<String, DutError>)
    ensures
        r is Ok,
        r.unwrap()@ == json_object_text(folded(pair_texts(pairs@))),
{
    let sorted = ascending_pairs(pairs);
    rendered(object_text(&sorted))
}

/// The JSON array, indented, of one object per item of `objects`, each as
/// in [`render_object`], in the order of the items. The rendering always
/// succeeds, and the text is the encoder's text for exactly these objects.
pub fn render_object_list(objects: &Vec<Vec<(String, String)>>) -> (r: Result<String, DutError>)
    ensures
        r is Ok,
        r.unwrap()@ == json_array_text(folded_maps(objects@)),
{
    let mut sorted: Vec<Vec<(String, String)>> = Vec::new();
    let mut i: usize = 0;
    while i < objects.len()
        invariant
            i <= objects.len(),
            sorted@.len() == i,
            forall|k: int|
                0 <= k < i ==> ascending(pair_texts((#[trigger] sorted@[k])@)) && as_map(
                    pair_texts(sorted@[k]@),
                ) == folded(pair_texts(objects@[k]@)),
        decreases objects.len() - i,
    {
        sorted.push(ascending_pairs(&objects[i]));
        i = i + 1;
    }
    proof {
        assert(object_maps(sorted@) =~= folded_maps(objects@));
    }
    rendered(object_list_text(&sorted))
}

} // verus!
