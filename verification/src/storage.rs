//! The diary's entry store: a mapping from canonical date keys to entry
//! text.  Setting a date's text to the empty string removes the key, so
//! an absent key and an empty entry mean the same thing.
//!
//! The store serializes to and from a flat JSON object of strings; the
//! surrounding program reads and writes the file that holds it.
use crate::date::{date_key_seq, format_date_key, valid_date, Date};
use vstd::prelude::*;

verus! {

/// The string-to-string object that a text parses to as a flat JSON
/// document, if any.  This names the result of serde_json's parse of the
/// text into a map of strings; it depends on the text alone.
pub uninterp spec fn json_obj_of(s: Seq<char>) -> Option<Map<Seq<char>, Seq<char>>>;

/// The mapping described by a sequence of key-value pairs, later pairs
/// winning.
pub open spec fn pairs_map(ps: Seq<(String, String)>) -> Map<Seq<char>, Seq<char>>
    decreases ps.len(),
{
    if ps.len() == 0 {
        Map::<Seq<char>, Seq<char>>::empty()
    } else {
        pairs_map(ps.drop_last()).insert(ps.last().0@, ps.last().1@)
    }
}

/// No two pairs share a key.
pub open spec fn unique_keys(ps: Seq<(String, String)>) -> bool {
    forall|i: int, j: int| 0 <= i < j < ps.len() ==> ps[i].0@ != ps[j].0@
}

/// With unique keys, the mapping holds exactly the pairs' keys, each with
/// its pair's value.
pub proof fn lemma_pairs_map_props(ps: Seq<(String, String)>)
    requires
        unique_keys(ps),
    ensures
        forall|k: Seq<char>|
            pairs_map(ps).contains_key(k) ==> exists|i: int| 0 <= i < ps.len() && ps[i].0@ == k,
        forall|i: int|
            0 <= i < ps.len() ==> pairs_map(ps).contains_key(#[trigger] ps[i].0@) && pairs_map(
                ps,
            )[ps[i].0@] == ps[i].1@,
    decreases ps.len(),
{
    if ps.len() > 0 {
        let dl = ps.drop_last();
        assert(unique_keys(dl)) by {
            assert(forall|i: int, j: int|
                0 <= i < j < dl.len() ==> dl[i].0@ != dl[j].0@) by {
                assert(forall|i: int| 0 <= i < dl.len() ==> dl[i] == ps[i]);
            }
        }
        lemma_pairs_map_props(dl);
        assert(forall|i: int| 0 <= i < dl.len() ==> dl[i] == ps[i]);
        assert(forall|i: int|
            0 <= i < ps.len() - 1 ==> #[trigger] ps[i].0@ != ps[ps.len() - 1].0@);
        assert forall|k: Seq<char>| pairs_map(ps).contains_key(k) implies exists|i: int|
            0 <= i < ps.len() && ps[i].0@ == k by {
            if k == ps.last().0@ {
                assert(ps[ps.len() - 1].0@ == k);
            } else {
                assert(pairs_map(dl).contains_key(k));
                let w = choose|w: int| 0 <= w < dl.len() && dl[w].0@ == k;
                assert(ps[w].0@ == k);
            }
        }
    }
}

/// The document held in the store's file could not be parsed.
#[derive(Debug, Clone, Copy, PartialEq, Eq, Structural)]
pub struct ParseError;

pub struct DiaryStorage {
    entries: Vec<(String, String)>,
}

impl View for DiaryStorage {
    type V = Map<Seq<char>, Seq<char>>;

    closed spec fn view(&self) -> Map<Seq<char>, Seq<char>> {
        pairs_map(self.entries@)
    }
}

/// Relies on serde_json::to_string_pretty of a map with string keys and
/// string values: serde_json documents that serializing such a map yields
/// a JSON object that parses back to exactly the same entries.
#[verifier::external_body]
fn entries_to_json(entries: &Vec<(String, String)>) -> (r: String)
    requires
        unique_keys(entries@),
    ensures
        json_obj_of(r@) == Some(pairs_map(entries@)),
{
    let m: std::collections::BTreeMap<&str, &str> =
        entries.iter().map(|p| (p.0.as_str(), p.1.as_str())).collect();
    serde_json::to_string_pretty(&m).unwrap()
}

/// Relies on serde_json::from_str for `HashMap<String, String>`: it
/// succeeds exactly when the text is one JSON object whose values are all
/// strings, and returns that object's entries, each key once.
#[verifier::external_body]
fn json_to_entries(s: &str) -> (r: Option<Vec<(String, String)>>)
    ensures
        r is Some <==> json_obj_of(s@) is Some,
        r is Some ==> unique_keys(r->Some_0@) && pairs_map(r->Some_0@) == json_obj_of(s@)->Some_0,
{
    match serde_json::from_str::<std::collections::HashMap<String, String>>(s) {
        Ok(m) => Some(m.into_iter().collect()),
        Err(_) => None,
    }
}

/// Index of the pair holding `key`, if one does.
fn find_key(entries: &Vec<(String, String)>, key: &String) -> (r: Option<usize>)
    ensures
        r is Some ==> r->Some_0 < entries@.len() && entries@[r->Some_0 as int].0@ == key@,
        r is None ==> forall|j: int| 0 <= j < entries@.len() ==> entries@[j].0@ != key@,
{
    let mut i: usize = 0;
    while i < entries.len()
        invariant
            i <= entries@.len(),
            forall|j: int| 0 <= j < i ==> entries@[j].0@ != key@,
        decreases entries@.len() - i,
    {
        if entries[i].0 == *key {
            return Some(i);
        }
        i = i + 1;
    }
    None
}

impl DiaryStorage {
    /// The store's invariant: each date key appears at most once.
    pub closed spec fn wf(&self) -> bool {
        unique_keys(self.entries@)
    }

    /// An empty store.
    pub fn new() -> (r: DiaryStorage)
        ensures
            r.wf(),
            r@ == Map::<Seq<char>, Seq<char>>::empty(),
    {
        DiaryStorage { entries: Vec::new() }
    }

    /// The entry text filed under the date, if the date has one.
    pub fn get_entry(&self, date: &Date) -> (r: Option<String>)
        requires
            self.wf(),
            valid_date(*date),
        ensures
            r is Some <==> self@.contains_key(date_key_seq(*date)),
            r is Some ==> r->Some_0@ == self@[date_key_seq(*date)],
    {
        proof {
            lemma_pairs_map_props(self.entries@);
        }
        let key = format_date_key(date);
        match find_key(&self.entries, &key) {
            Some(i) => Some(self.entries[i].1.clone()),
            None => None,
        }
    }

    /// Whether the date has an entry.
    pub fn has_entry(&self, date: &Date) -> (r: bool)
        requires
            self.wf(),
            valid_date(*date),
        ensures
            r == self@.contains_key(date_key_seq(*date)),
    {
        proof {
            lemma_pairs_map_props(self.entries@);
        }
        let key = format_date_key(date);
        match find_key(&self.entries, &key) {
            Some(_) => true,
            None => false,
        }
    }

    /// Files `content` under the date; empty text removes the date's key
    /// instead, so an emptied entry reads back as absent.
    pub fn set_entry(&mut self, date: Date, content: String)
        requires
            old(self).wf(),
            valid_date(date),
        ensures
            final(self).wf(),
            content@.len() == 0 ==> final(self)@ == old(self)@.remove(date_key_seq(date)),
            content@.len() > 0 ==> final(self)@ == old(self)@.insert(
                date_key_seq(date),
                content@,
            ),
    {
        proof {
            lemma_pairs_map_props(self.entries@);
        }
        let key = format_date_key(&date);
        let found = find_key(&self.entries, &key);
        match found {
            Some(i) => {
                let ghost pre = self.entries@;
                self.entries.remove(i);
                proof {
                    lemma_unique_keys_remove(pre, i as int);
                    lemma_pairs_map_remove(pre, i as int);
                }
            },
            None => {},
        }
        if !content.as_str().is_empty() {
            let ghost mid = self.entries@;
            self.entries.push((key, content));
            proof {
                assert(self.entries@.drop_last() =~= mid);
                assert(forall|j: int| 0 <= j < mid.len() ==> self.entries@[j] == mid[j]);
                lemma_pairs_map_props(mid);
                assert(self.wf());
                assert(self@ =~= old(self)@.insert(date_key_seq(date), content@));
            }
        } else {
            proof {
                lemma_pairs_map_props(self.entries@);
                assert(self@ =~= old(self)@.remove(date_key_seq(date)));
            }
        }
    }

    /// The store as one JSON document: a flat object mapping each date
    /// key to its entry text.
    pub fn to_json(&self) -> (r: String)
        requires
            self.wf(),
        ensures
            json_obj_of(r@) == Some(self@),
    {
        entries_to_json(&self.entries)
    }

    /// The store described by a JSON document, or a parse error when the
    /// text is not a flat JSON object of strings.
    pub fn from_json(s: &str) -> (r: Result<DiaryStorage, ParseError>)
        ensures
            r is Ok <==> json_obj_of(s@) is Some,
            r is Ok ==> r->Ok_0.wf() && r->Ok_0@ == json_obj_of(s@)->Some_0,
    {
        match json_to_entries(s) {
            Some(v) => Ok(DiaryStorage { entries: v }),
            None => Err(ParseError),
        }
    }
}

/// Removing a pair keeps the remaining keys unique.
pub proof fn lemma_unique_keys_remove(ps: Seq<(String, String)>, i: int)
    requires
        unique_keys(ps),
        0 <= i < ps.len(),
    ensures
        unique_keys(ps.remove(i)),
{
    assert forall|a: int, b: int| 0 <= a < b < ps.remove(i).len() implies ps.remove(i)[a].0@ != ps.remove(
        i,
    )[b].0@ by {
        let a2 = if a < i {
            a
        } else {
            a + 1
        };
        let b2 = if b < i {
            b
        } else {
            b + 1
        };
        assert(ps.remove(i)[a] == ps[a2]);
        assert(ps.remove(i)[b] == ps[b2]);
    }
}

/// With unique keys, removing a pair removes exactly its key from the
/// mapping.
pub proof fn lemma_pairs_map_remove(ps: Seq<(String, String)>, i: int)
    requires
        unique_keys(ps),
        0 <= i < ps.len(),
    ensures
        pairs_map(ps.remove(i)) == pairs_map(ps).remove(ps[i].0@),
    decreases ps.len(),
{
    lemma_pairs_map_props(ps);
    if i == ps.len() - 1 {
        assert(ps.remove(i) =~= ps.drop_last());
        lemma_pairs_map_props(ps.drop_last());
        assert(forall|j: int| 0 <= j < ps.len() - 1 ==> ps.drop_last()[j] == ps[j]);
        assert(!pairs_map(ps.drop_last()).contains_key(ps[i].0@)) by {
            if pairs_map(ps.drop_last()).contains_key(ps[i].0@) {
                let w = choose|w: int|
                    0 <= w < ps.drop_last().len() && ps.drop_last()[w].0@ == ps[i].0@;
                assert(ps[w].0@ == ps[i].0@);
            }
        }
        assert(pairs_map(ps.remove(i)) =~= pairs_map(ps).remove(ps[i].0@));
    } else {
        let dl = ps.drop_last();
        assert(unique_keys(dl)) by {
            assert(forall|j: int| 0 <= j < dl.len() ==> dl[j] == ps[j]);
        }
        lemma_pairs_map_remove(dl, i);
        assert(ps.remove(i).drop_last() =~= dl.remove(i));
        assert(ps.remove(i).last() == ps.last());
        assert(pairs_map(ps.remove(i)) == pairs_map(dl.remove(i)).insert(
            ps.last().0@,
            ps.last().1@,
        ));
        assert(ps[i].0@ != ps.last().0@);
        assert(pairs_map(dl).remove(ps[i].0@).insert(ps.last().0@, ps.last().1@) =~= pairs_map(
            dl,
        ).insert(ps.last().0@, ps.last().1@).remove(ps[i].0@));
        assert(forall|j: int| 0 <= j < dl.len() ==> dl[j] == ps[j]);
    }
}

/// Clearing a date's entry leaves the store without that date's key:
/// after `set_entry(date, "")` the mapping no longer contains the key, so
/// `has_entry(date)` reports false even when an entry existed before.
pub proof fn lemma_empty_entry_absent(m: Map<Seq<char>, Seq<char>>, k: Seq<char>)
    ensures
        !m.remove(k).contains_key(k),
{
}

/// Saving and loading round-trip: a document produced from a well-formed
/// store parses back, and any store rebuilt from that document holds an
/// identical entry mapping.
pub proof fn lemma_save_load_round_trip(st: DiaryStorage, doc: String, re: DiaryStorage)
    requires
        st.wf(),
        json_obj_of(doc@) == Some(st@),
        re@ == json_obj_of(doc@)->Some_0,
    ensures
        re@ == st@,
{
}

} // verus!
