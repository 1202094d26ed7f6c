//! Front-matter metadata: a string-keyed map with the semantics of a map that
//! is filled by successive inserts (a later insert of a key replaces an
//! earlier one).
use vstd::prelude::*;

verus! {

/// The map built by inserting `entries` in order.
pub open spec fn entries_map(entries: Seq<(Seq<char>, Seq<char>)>) -> Map<Seq<char>, Seq<char>>
    decreases entries.len(),
{
    if entries.len() == 0 {
        Map::empty()
    } else {
        entries_map(entries.drop_last()).insert(entries.last().0, entries.last().1)
    }
}

/// Key/value metadata parsed from a document's front matter.
pub struct Metadata {
    entries: Vec<(String, String)>,
}

impl Metadata {
    /// The inserted entries, in insertion order, as character sequences.
    pub closed spec fn entry_seq(&self) -> Seq<(Seq<char>, Seq<char>)> {
        self.entries@.map_values(|e: (String, String)| (e.0@, e.1@))
    }

    /// An empty map.
    pub fn new() -> (m: Metadata)
        ensures
            m@ == Map::<Seq<char>, Seq<char>>::empty(),
            m.entry_seq().len() == 0,
    {
        let m = Metadata { entries: Vec::new() };
        assert(m.entry_seq() =~= Seq::<(Seq<char>, Seq<char>)>::empty());
        m
    }

    /// Inserts `key` with `value`, replacing an earlier value of `key`.
    pub fn insert(&mut self, key: String, value: String)
        ensures
            final(self)@ == old(self)@.insert(key@, value@),
            final(self).entry_seq().len() > 0,
    {
        let ghost k = key@;
        let ghost v = value@;
        self.entries.push((key, value));
        assert(self.entry_seq().drop_last() =~= old(self).entry_seq());
    }

    /// Whether no key has been inserted.
    pub fn is_empty(&self) -> (r: bool)
        ensures
            r == (self@ == Map::<Seq<char>, Seq<char>>::empty()),
    {
        proof {
            if self.entry_seq().len() > 0 {
                let s = self.entry_seq();
                assert(entries_map(s).contains_key(s.last().0));
            }
        }
        self.entries.len() == 0
    }

    /// The value stored under `key`, if any.
    pub fn get(&self, key: &str) -> (r: Option<&String>)
        ensures
            r matches Some(v) ==> self@.contains_key(key@) && v@ == self@[key@],
            r is None ==> !self@.contains_key(key@),
    {
        let k = String::from_str(key);
        let n = self.entries.len();
        let mut i = n;
        assert(self.entry_seq().take(n as int) =~= self.entry_seq());
        while i > 0
            invariant
                i <= n == self.entries@.len(),
                k@ == key@,
                entries_map(self.entry_seq()).contains_key(key@) == entries_map(
                    self.entry_seq().take(i as int),
                ).contains_key(key@),
                entries_map(self.entry_seq().take(i as int)).contains_key(key@) ==> entries_map(
                    self.entry_seq(),
                )[key@] == entries_map(self.entry_seq().take(i as int))[key@],
            decreases i,
        {
            let ghost s = self.entry_seq();
            assert(s.take(i as int).drop_last() =~= s.take(i - 1));
            assert(s.take(i as int).last() == s[i - 1]);
            if self.entries[i - 1].0 == k {
                return Some(&self.entries[i - 1].1);
            }
            i = i - 1;
        }
        assert(self.entry_seq().take(0) =~= Seq::<(Seq<char>, Seq<char>)>::empty());
        None
    }
}

impl View for Metadata {
    type V = Map<Seq<char>, Seq<char>>;

    closed spec fn view(&self) -> Map<Seq<char>, Seq<char>> {
        entries_map(self.entry_seq())
    }
}

} // verus!
