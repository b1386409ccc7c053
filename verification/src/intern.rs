//! String interning. Names are referenced by a 64-bit hash; the first time an
//! agent uses a hash it also sends the text behind it.

use crate::model::StringIntern;
use std::collections::HashSet;
use vstd::prelude::*;
use vstd::utf8::encode_utf8;

verus! {

broadcast use vstd::std_specs::hash::group_hash_axioms;

/// The XXH3 hash of `bytes`, with 64 bits, no seed and the default secret.
pub uninterp spec fn xxh3_64_of(bytes: Seq<u8>) -> u64;

/// `xxhash_rust::xxh3::xxh3_64` is a function of the bytes alone.
pub assume_specification[ xxhash_rust::xxh3::xxh3_64 ](input: &[u8]) -> (h: u64)
    ensures
        h == xxh3_64_of(input@),
;

/// The id of a name: the hash of its UTF-8 bytes.
pub open spec fn name_id(text: Seq<char>) -> u64 {
    xxh3_64_of(encode_utf8(text))
}

/// Hashes a name. Collisions at 64 bits are negligible at the expected number
/// of names.
#[inline]
pub fn hash(s: &str) -> (id: u64)
    ensures
        id == name_id(s@),
{
    xxhash_rust::xxh3::xxh3_64(s.as_bytes())
}

/// Tracks which names have been announced on a connection.
pub struct Interner {
    seen: HashSet<u64>,
}

impl View for Interner {
    type V = Set<u64>;

    closed spec fn view(&self) -> Set<u64> {
        self.seen@
    }
}

impl Interner {
    pub fn new() -> (interner: Self)
        ensures
            interner@ == Set::<u64>::empty(),
    {
        Interner { seen: HashSet::new() }
    }

    /// The id of `text`, and on its first use the record that announces it.
    pub fn record(&mut self, text: &str) -> (r: (u64, Option<StringIntern>))
        ensures
            r.0 == name_id(text@),
            final(self)@ == old(self)@.insert(name_id(text@)),
            r.1 is Some <==> !old(self)@.contains(name_id(text@)),
            r.1 matches Some(rec) ==> rec.id == name_id(text@) && rec.text@ == text@,
    {
        let id = hash(text);
        if self.seen.insert(id) {
            (id, Some(StringIntern { id, text: text.to_string() }))
        } else {
            (id, None)
        }
    }

    /// Forgets every announcement: a restarted collector has lost its
    /// dictionary.
    pub fn reset(&mut self)
        ensures
            final(self)@ == Set::<u64>::empty(),
    {
        self.seen.clear();
    }
}

impl Default for Interner {
    fn default() -> (interner: Self)
        ensures
            interner@ == Set::<u64>::empty(),
    {
        Self::new()
    }
}

/// The ids announced when `texts` are recorded in turn by an interner that has
/// announced `seen`.
pub open spec fn announced(seen: Set<u64>, texts: Seq<Seq<char>>) -> Seq<u64>
    decreases texts.len(),
{
    if texts.len() == 0 {
        Seq::empty()
    } else {
        let before = announced(seen, texts.drop_last());
        let id = name_id(texts.last());
        if seen.contains(id) || before.contains(id) {
            before
        } else {
            before.push(id)
        }
    }
}

/// The ids known after `texts` are recorded in turn.
pub open spec fn known_after(seen: Set<u64>, texts: Seq<Seq<char>>) -> Set<u64>
    decreases texts.len(),
{
    if texts.len() == 0 {
        seen
    } else {
        known_after(seen, texts.drop_last()).insert(name_id(texts.last()))
    }
}

/// However often names recur, each id is announced at most once between two
/// resets, and every name used has been announced.
pub proof fn names_are_announced_exactly_once(seen: Set<u64>, texts: Seq<Seq<char>>)
    ensures
        announced(seen, texts).no_duplicates(),
        forall|i: int|
            0 <= i < announced(seen, texts).len() ==> !seen.contains(
                #[trigger] announced(seen, texts)[i],
            ),
        forall|i: int|
            0 <= i < texts.len() ==> seen.contains(name_id(#[trigger] texts[i])) || announced(
                seen,
                texts,
            ).contains(name_id(texts[i])),
        forall|id: u64| #[trigger]
            known_after(seen, texts).contains(id) <==> seen.contains(id) || announced(
                seen,
                texts,
            ).contains(id),
    decreases texts.len(),
{
    if texts.len() > 0 {
        let front = texts.drop_last();
        names_are_announced_exactly_once(seen, front);
        let before = announced(seen, front);
        let id = name_id(texts.last());
        if !(seen.contains(id) || before.contains(id)) {
            assert forall|x: u64| #[trigger] before.push(id).contains(x) <==> before.contains(x) || x
                == id by {
                if before.contains(x) {
                    let k = choose|k: int| 0 <= k < before.len() && before[k] == x;
                    assert(before.push(id)[k] == x);
                }
                assert(before.push(id)[before.len() as int] == id);
            }
        }
        assert forall|i: int| 0 <= i < texts.len() implies seen.contains(
            name_id(#[trigger] texts[i]),
        ) || announced(seen, texts).contains(name_id(texts[i])) by {
            if i < front.len() {
                assert(front[i] == texts[i]);
            }
        }
        assert forall|x: u64| #[trigger] known_after(seen, texts).contains(x) <==> seen.contains(x)
            || announced(seen, texts).contains(x) by {
            assert(known_after(seen, front).contains(x) <==> seen.contains(x) || before.contains(
                x,
            ));
        }
    }
}

} // verus!
