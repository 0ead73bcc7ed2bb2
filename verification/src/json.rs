//! Metadata as the text of a JSON object, the form in which it is stored.

use crate::metadata::{ascending, entered, pair_texts, sorted_pairs, Metadata};
use crate::text::Text;
use std::collections::BTreeMap;
use vstd::prelude::*;

verus! {

/// The error of `serde_json`.
#[verifier::external_type_specification]
#[verifier::external_body]
pub struct ExJsonError(serde_json::Error);

/// The text that `serde_json::to_string` writes for a map of strings with these
/// names and values, given in the order of the names.
pub uninterp spec fn json_object(pairs: Seq<(Seq<char>, Seq<char>)>) -> Seq<char>;

/// The names and values, in the order of the names, of the map of strings that
/// `serde_json::from_str` reads from a text; `None` where it reports an error.
pub uninterp spec fn json_pairs(text: Seq<char>) -> Option<Seq<(Seq<char>, Seq<char>)>>;

/// `serde_json::to_string` on a `BTreeMap` of strings. Such a map is always
/// written: its names are strings and nothing else can fail. What is written is
/// a function of the names and values, and reading it gives them back. The
/// layout of the text is left unsaid.
#[verifier::external_body]
fn encode(pairs: &Vec<(String, String)>) -> (r: Result<String, serde_json::Error>)
    requires
        ascending(pair_texts(pairs@)),
    ensures
        r is Ok,
        r->Ok_0@ == json_object(pair_texts(pairs@)),
        json_pairs(r->Ok_0@) == Some(pair_texts(pairs@)),
{
    let map: BTreeMap<&String, &String> = pairs.iter().map(|p| (&p.0, &p.1)).collect();
    serde_json::to_string(&map)
}

/// `serde_json::from_str` into a `BTreeMap` of strings: what it reads, and
/// whether it reports an error, is a function of the text alone. Which texts it
/// accepts is left unsaid but for those that `encode` writes.
#[verifier::external_body]
fn decode(text: &str) -> (r: Result<Vec<(String, String)>, serde_json::Error>)
    ensures
        match r {
            Ok(v) => json_pairs(text@) == Some(pair_texts(v@)),
            Err(_) => json_pairs(text@) is None,
        },
{
    serde_json::from_str::<BTreeMap<String, String>>(text).map(|m| m.into_iter().collect())
}

/// The metadata that the names and values stand for: none where there are none
/// to be had.
pub open spec fn metadata_read(pairs: Option<Seq<(Text, Text)>>) -> Map<Text, Text> {
    match pairs {
        Some(p) => entered(p),
        None => Map::empty(),
    }
}

/// The metadata that comes of entering `pairs` one after the other, and empty
/// metadata where there are none.
pub fn metadata_of_pairs(pairs: Option<Vec<(String, String)>>) -> (r: Metadata)
    ensures
        r@ == metadata_read(
            match pairs {
                Some(v) => Some(pair_texts(v@)),
                None => None,
            },
        ),
{
    let mut r = Metadata::new();
    if let Some(v) = pairs {
        let ghost all = pair_texts(v@);
        let mut i: usize = 0;
        assert(all.take(0) == Seq::<(Text, Text)>::empty());
        while i < v.len()
            invariant
                i <= v@.len(),
                all == pair_texts(v@),
                r@ == entered(all.take(i as int)),
            decreases v@.len() - i,
        {
            r.insert(v[i].0.clone(), v[i].1.clone());
            proof {
                let next = all.take(i + 1);
                assert(next.drop_last() == all.take(i as int));
                assert(next.last() == all[i as int]);
            }
            i += 1;
        }
        assert(all.take(all.len() as int) == all);
    }
    r
}

impl Metadata {
    /// The metadata as a JSON object. Reading the text gives the metadata back.
    pub fn to_json(&self) -> (r: String)
        ensures
            r@ == json_object(sorted_pairs(self@)),
            json_pairs(r@) == Some(sorted_pairs(self@)),
            metadata_read(json_pairs(r@)) == self@,
    {
        let entries = self.entries();
        encode(entries).unwrap()
    }

    /// The metadata that a JSON text holds; empty where the text is not an
    /// object of strings.
    pub fn from_json(text: &str) -> (r: Metadata)
        ensures
            r@ == metadata_read(json_pairs(text@)),
    {
        match decode(text) {
            Ok(v) => metadata_of_pairs(Some(v)),
            Err(_) => metadata_of_pairs(None),
        }
    }
}

/// What could be read is entered, and what could not be read is no metadata.
pub proof fn law_unreadable_text_is_no_metadata(pairs: Seq<(Text, Text)>)
    ensures
        metadata_read(Some(pairs)) == entered(pairs),
        metadata_read(None) == Map::<Text, Text>::empty(),
{
}

} // verus!
