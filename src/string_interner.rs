//! Symbol interning: text to a 64-bit id derived from a stable hash, and back.
use std::collections::HashMap;
use vstd::prelude::*;

verus! {

broadcast use vstd::std_specs::hash::group_hash_axioms;

/// The id that the hash of a symbol's text gives.
pub uninterp spec fn symbol_id_of(s: Seq<char>) -> u64;

/// Relies on siphasher's `SipHasher24` (zero keys) fed by std's `Hash` for
/// `str`: the id depends on the text alone.
#[verifier::external_body]
fn hash_text(s: &str) -> (r: u64)
    ensures
        r == symbol_id_of(s@),
{
    let mut h = siphasher::sip::SipHasher24::new();
    std::hash::Hash::hash(s, &mut h);
    std::hash::Hasher::finish(&h)
}

/// The id of the symbol whose text is `s`.
pub fn symbol_id(s: &str) -> (r: u64)
    ensures
        r == symbol_id_of(s@),
{
    hash_text(s)
}

/// An append-only table from symbol ids to their text.
pub struct StringInterner {
    map: HashMap<u64, String>,
}

impl StringInterner {
    /// The text known for each id.
    pub closed spec fn names(&self) -> Map<u64, Seq<char>> {
        self.map@.map_values(|s: String| s@)
    }

    /// Every entry is stored under the id of its own text.
    pub closed spec fn wf(&self) -> bool {
        forall|id: u64| #[trigger] self.map@.contains_key(id) ==> symbol_id_of(self.map@[id]@) == id
    }

    pub fn new() -> (r: StringInterner)
        ensures
            r.wf(),
            r.names() == Map::<u64, Seq<char>>::empty(),
    {
        let r = StringInterner { map: HashMap::new() };
        assert(r.names() =~= Map::<u64, Seq<char>>::empty());
        r
    }

    /// The id of `s`; records its text unless the id is known already.
    pub fn intern(&mut self, s: &str) -> (r: u64)
        requires
            old(self).wf(),
        ensures
            final(self).wf(),
            r == symbol_id_of(s@),
            final(self).names().contains_key(r),
            old(self).names().contains_key(r) ==> final(self).names() == old(self).names(),
            !old(self).names().contains_key(r) ==> final(self).names() == old(self).names().insert(r, s@),
    {
        let id = symbol_id(s);
        if !self.map.contains_key(&id) {
            self.map.insert(id, String::from_str(s));
            assert(self.names() =~= old(self).names().insert(id, s@));
        }
        id
    }

    /// The text recorded for `id`.
    pub fn lookup(&self, id: u64) -> (r: Option<&str>)
        ensures
            match r {
                Some(s) => self.names().contains_key(id) && s@ == self.names()[id],
                None => !self.names().contains_key(id),
            },
    {
        match self.map.get(&id) {
            Some(s) => Some(s.as_str()),
            None => None,
        }
    }
}

} // verus!
