//! The hash tables of `rustc_hash`, and what their operations do to their contents.
//!
//! The hasher has no seed, so a table answers in the same way in every process. The order in
//! which a table is walked is left open.

use rustc_hash::{FxHashMap, FxHashSet};

use vstd::prelude::*;

use crate::text::texts;

verus! {

/// The hasher of the tables below.
#[verifier::external_type_specification]
#[verifier::external_body]
pub struct ExFxBuildHasher(rustc_hash::FxBuildHasher);

/// The pieces of data in a table, by their offset.
pub uninterp spec fn piece_map(m: FxHashMap<u64, Vec<u8>>) -> Map<u64, Seq<u8>>;

/// The texts in a set.
pub uninterp spec fn text_set(s: FxHashSet<String>) -> Set<Seq<char>>;

/// The lists of numbers in a table, by the text they are kept under.
pub uninterp spec fn list_map(m: FxHashMap<String, Vec<i32>>) -> Map<Seq<char>, Seq<i32>>;

/// The numbers in a set.
pub uninterp spec fn number_set(s: FxHashSet<i32>) -> Set<i32>;

// ── pieces by offset ─────────────────────────────────────────────────────

/// `FxHashMap::default`: an empty table.
#[verifier::external_body]
pub(crate) fn no_pieces() -> (m: FxHashMap<u64, Vec<u8>>)
    ensures
        piece_map(m).dom() == Set::<u64>::empty(),
{
    FxHashMap::default()
}

/// `HashMap::insert`: the piece stands under its offset, in place of any that stood there.
#[verifier::external_body]
pub(crate) fn insert_piece(m: &mut FxHashMap<u64, Vec<u8>>, offset: u64, piece: Vec<u8>)
    ensures
        piece_map(*final(m)) == piece_map(*old(m)).insert(offset, piece@),
{
    m.insert(offset, piece);
}

/// `HashMap::remove`: what stood under the offset, which is then free.
#[verifier::external_body]
pub(crate) fn remove_piece(m: &mut FxHashMap<u64, Vec<u8>>, offset: u64) -> (r: Option<Vec<u8>>)
    ensures
        piece_map(*final(m)) == piece_map(*old(m)).remove(offset),
        r is Some <==> piece_map(*old(m)).contains_key(offset),
        r matches Some(piece) ==> piece@ == piece_map(*old(m))[offset],
{
    m.remove(&offset)
}

// ── a set of texts ───────────────────────────────────────────────────────

/// `FxHashSet::default`: an empty set.
#[verifier::external_body]
pub(crate) fn no_texts() -> (s: FxHashSet<String>)
    ensures
        text_set(s) == Set::<Seq<char>>::empty(),
{
    FxHashSet::default()
}

/// `HashSet::contains`: whether the text is in the set.
#[verifier::external_body]
pub(crate) fn contains_text(s: &FxHashSet<String>, text: &str) -> (r: bool)
    ensures
        r == text_set(*s).contains(text@),
{
    s.contains(text)
}

/// `HashSet::insert`: the set with the text in it.
#[verifier::external_body]
pub(crate) fn insert_text(s: &mut FxHashSet<String>, text: String)
    ensures
        text_set(*final(s)) == text_set(*old(s)).insert(text@),
{
    s.insert(text);
}

/// `HashSet::remove`: the set without the text.
#[verifier::external_body]
pub(crate) fn remove_text(s: &mut FxHashSet<String>, text: &str)
    ensures
        text_set(*final(s)) == text_set(*old(s)).remove(text@),
{
    s.remove(text);
}

/// `HashSet::len`: how many texts are in the set.
#[verifier::external_body]
pub(crate) fn count_texts(s: &FxHashSet<String>) -> (r: usize)
    ensures
        r == text_set(*s).len(),
{
    s.len()
}

/// `HashSet::iter`: each text of the set once, in an order that is left open.
#[verifier::external_body]
pub(crate) fn texts_in(s: &FxHashSet<String>) -> (r: Vec<String>)
    ensures
        texts(r@).no_duplicates(),
        texts(r@).to_set() == text_set(*s),
{
    s.iter().cloned().collect()
}

/// `HashSet::iter` and the first that it gives: one of the texts, unless there is none. Which
/// one is left open.
#[verifier::external_body]
pub(crate) fn some_text(s: &FxHashSet<String>) -> (r: Option<String>)
    ensures
        r is None <==> text_set(*s) == Set::<Seq<char>>::empty(),
        r matches Some(text) ==> text_set(*s).contains(text@),
{
    s.iter().next().cloned()
}

// ── lists by text ────────────────────────────────────────────────────────

/// `FxHashMap::default`: an empty table.
#[verifier::external_body]
pub(crate) fn no_lists() -> (m: FxHashMap<String, Vec<i32>>)
    ensures
        list_map(m).dom() == Set::<Seq<char>>::empty(),
{
    FxHashMap::default()
}

/// `HashMap::insert`: the list stands under its text, in place of any that stood there.
#[verifier::external_body]
pub(crate) fn insert_list(m: &mut FxHashMap<String, Vec<i32>>, text: String, list: Vec<i32>)
    ensures
        list_map(*final(m)) == list_map(*old(m)).insert(text@, list@),
{
    m.insert(text, list);
}

/// `HashMap::remove`: nothing stands under the text any more.
#[verifier::external_body]
pub(crate) fn remove_list(m: &mut FxHashMap<String, Vec<i32>>, text: &str)
    ensures
        list_map(*final(m)) == list_map(*old(m)).remove(text@),
{
    m.remove(text);
}

/// `HashMap::get`: the list that stands under the text.
#[verifier::external_body]
pub(crate) fn list_under<'a>(m: &'a FxHashMap<String, Vec<i32>>, text: &str) -> (r: Option<
    &'a Vec<i32>,
>)
    ensures
        r is Some <==> list_map(*m).contains_key(text@),
        r matches Some(list) ==> list@ == list_map(*m)[text@],
{
    m.get(text)
}

/// `HashMap::keys`: each text that a list stands under once, in an order that is left open.
#[verifier::external_body]
pub(crate) fn texts_with_lists(m: &FxHashMap<String, Vec<i32>>) -> (r: Vec<String>)
    ensures
        texts(r@).no_duplicates(),
        texts(r@).to_set() == list_map(*m).dom(),
{
    m.keys().cloned().collect()
}

// ── a set of numbers ─────────────────────────────────────────────────────

/// `HashSet::iter`: each number of the set once, in an order that is left open.
#[verifier::external_body]
pub(crate) fn numbers_in(s: &FxHashSet<i32>) -> (r: Vec<i32>)
    ensures
        r@.no_duplicates(),
        r@.to_set() == number_set(*s),
{
    s.iter().copied().collect()
}

} // verus!
