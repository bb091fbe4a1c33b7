//! The search index: a derived, token-queryable projection of note
//! titles and contents, keyed by note identity.
//!
//! The index is never the system of record: the engine writes every
//! change of a note's searchable text through it, and its answers are
//! specified purely as a function of its entries.

use vstd::prelude::*;

use crate::text::contains_ci;
use crate::text::occurs_ci;
use crate::text::tokenize;
use crate::text::tokens_of;

verus! {

/// One indexed note: its identity and its searchable text.
#[derive(Debug)]
pub struct IndexEntry {
    id: u64,
    title: String,
    content: String,
}

/// The mathematical image of an index entry.
#[verifier::ext_equal]
pub ghost struct EntryView {
    pub id: u64,
    pub title: Seq<char>,
    pub content: Seq<char>,
}

impl View for IndexEntry {
    type V = EntryView;

    closed spec fn view(&self) -> EntryView {
        EntryView { id: self.id, title: self.title@, content: self.content@ }
    }
}

impl DeepView for IndexEntry {
    type V = EntryView;

    closed spec fn deep_view(&self) -> EntryView {
        self.view()
    }
}

/// An entry matches a query when every query token occurs, up to ASCII
/// case, in its title or in its content.
pub open spec fn entry_matches(entry: EntryView, toks: Seq<Seq<char>>) -> bool {
    forall|k: int|
        0 <= k < toks.len() ==> occurs_ci(entry.title, #[trigger] toks[k]) || occurs_ci(
            entry.content,
            toks[k],
        )
}

/// Identities of the matching entries, in descending position order: the
/// engine keeps entries in ascending identity order, so this is most
/// recent first.
pub open spec fn matching_ids_desc(entries: Seq<EntryView>, toks: Seq<Seq<char>>) -> Seq<u64>
    decreases entries.len(),
{
    if entries.len() == 0 {
        Seq::empty()
    } else {
        matching_ids_desc(entries.drop_first(), toks) + (if entry_matches(entries.first(), toks) {
            seq![entries.first().id]
        } else {
            Seq::empty()
        })
    }
}

/// The full query contract: a query without tokens (empty or
/// whitespace-only) yields nothing — not everything — and any other
/// query yields the matching identities, most recent first.
pub open spec fn query_spec(entries: Seq<EntryView>, toks: Seq<Seq<char>>) -> Seq<u64> {
    if toks.len() == 0 {
        Seq::empty()
    } else {
        matching_ids_desc(entries, toks)
    }
}

/// Some entry carries identity `id`.
pub open spec fn has_entry(entries: Seq<EntryView>, id: u64) -> bool {
    exists|i: int| 0 <= i < entries.len() && (#[trigger] entries[i].id) == id
}

/// Position of the first entry carrying identity `id`.
pub open spec fn idx_of_entry(entries: Seq<EntryView>, id: u64) -> int
    decreases entries.len(),
{
    if entries.len() == 0 {
        0
    } else if entries[0].id == id {
        0
    } else {
        1 + idx_of_entry(entries.drop_first(), id)
    }
}

/// A scan that finds `id` at position `i`, having passed every earlier
/// entry without finding it, has found the first position.
proof fn lemma_entry_idx_first(entries: Seq<EntryView>, id: u64, i: int)
    requires
        0 <= i < entries.len(),
        entries[i].id == id,
        forall|k: int| 0 <= k < i ==> (#[trigger] entries[k].id) != id,
    ensures
        idx_of_entry(entries, id) == i,
    decreases i,
{
    if i > 0 {
        let rest = entries.drop_first();
        assert(forall|k: int| 0 <= k < i - 1 ==> (#[trigger] rest[k].id) != id) by {
            assert(forall|k: int| 0 <= k < i - 1 ==> rest[k] == entries[k + 1]);
        }
        lemma_entry_idx_first(rest, id, i - 1);
    }
}

/// Tests every token of a query against one entry.
fn entry_matches_exec(entry: &IndexEntry, toks: &Vec<String>) -> (matched: bool)
    ensures
        matched == entry_matches(entry@, toks.deep_view()),
{
    let mut k: usize = 0;
    while k < toks.len()
        invariant
            k <= toks.len(),
            forall|m: int|
                0 <= m < k ==> occurs_ci(entry@.title, #[trigger] toks.deep_view()[m]) || occurs_ci(
                    entry@.content,
                    toks.deep_view()[m],
                ),
        decreases toks.len() - k,
    {
        let in_title = contains_ci(entry.title.as_str(), toks[k].as_str());
        let in_content = contains_ci(entry.content.as_str(), toks[k].as_str());
        proof {
            assert(toks.deep_view()[k as int] == toks@[k as int]@);
        }
        if !in_title && !in_content {
            return false;
        }
        k += 1;
    }
    true
}

/// The queryable projection of the note store.
pub struct SearchIndex {
    entries: Vec<IndexEntry>,
}

impl View for SearchIndex {
    type V = Seq<EntryView>;

    closed spec fn view(&self) -> Seq<EntryView> {
        self.entries.deep_view()
    }
}

/// The image of an entry built from plain values.
pub open spec fn entry_view(id: u64, title: Seq<char>, content: Seq<char>) -> EntryView {
    EntryView { id, title, content }
}

impl SearchIndex {
    /// Creates an empty index.
    pub fn new() -> (index: SearchIndex)
        ensures
            index@ == Seq::<EntryView>::empty(),
    {
        let index = SearchIndex { entries: Vec::new() };
        proof {
            assert(index@ =~= Seq::<EntryView>::empty());
        }
        index
    }

    /// (Re)places the entry for `id`: an existing entry is overwritten in
    /// place, otherwise a new entry is appended. Indexing the same
    /// identity and text twice leaves the index as one call leaves it.
    pub fn index(&mut self, id: u64, title: String, content: String)
        ensures
            final(self)@ == if has_entry(old(self)@, id) {
                old(self)@.update(idx_of_entry(old(self)@, id), entry_view(id, title@, content@))
            } else {
                old(self)@.push(entry_view(id, title@, content@))
            },
    {
        let mut i: usize = 0;
        while i < self.entries.len()
            invariant
                i <= self.entries.len(),
                self == old(self),
                forall|k: int| 0 <= k < i ==> (#[trigger] self@[k].id) != id,
            decreases self.entries.len() - i,
        {
            if self.entries[i].id == id {
                proof {
                    assert(self@[i as int] == self.entries@[i as int]@);
                    assert(self@[i as int].id == id);
                    assert(has_entry(old(self)@, id));
                    lemma_entry_idx_first(self@, id, i as int);
                }
                let entry = &mut self.entries[i];
                entry.title = title;
                entry.content = content;
                proof {
                    assert(self.entries@[i as int]@ == entry_view(id, title@, content@));
                    assert(self@ =~= old(self)@.update(i as int, entry_view(id, title@, content@)));
                }
                return ;
            }
            i += 1;
        }
        self.entries.push(IndexEntry { id, title, content });
        proof {
            assert(self@ =~= old(self)@.push(
                entry_view(
                    id,
                    self.entries@[self.entries@.len() - 1].title@,
                    self.entries@[self.entries@.len() - 1].content@,
                ),
            ));
        }
    }

    /// Drops the entry for `id`; removing an absent identity is a no-op,
    /// not an error, and removing twice leaves what one removal leaves.
    pub fn remove(&mut self, id: u64)
        ensures
            final(self)@ == if has_entry(old(self)@, id) {
                old(self)@.remove(idx_of_entry(old(self)@, id))
            } else {
                old(self)@
            },
    {
        let mut i: usize = 0;
        while i < self.entries.len()
            invariant
                i <= self.entries.len(),
                self == old(self),
                forall|k: int| 0 <= k < i ==> (#[trigger] self@[k].id) != id,
            decreases self.entries.len() - i,
        {
            if self.entries[i].id == id {
                proof {
                    assert(self@[i as int] == self.entries@[i as int]@);
                    assert(self@[i as int].id == id);
                    assert(has_entry(old(self)@, id));
                    lemma_entry_idx_first(self@, id, i as int);
                }
                self.entries.remove(i);
                proof {
                    assert(self@ =~= old(self)@.remove(i as int));
                }
                return ;
            }
            i += 1;
        }
    }

    /// Answers a query: the identities of the entries that every
    /// whitespace-delimited query token matches case-insensitively,
    /// most recently indexed first. An empty or whitespace-only query
    /// yields the empty sequence.
    pub fn query(&self, text: &str) -> (ids: Vec<u64>)
        ensures
            ids@ == query_spec(self@, tokens_of(text@)),
            tokens_of(text@).len() == 0 ==> ids@.len() == 0,
    {
        let toks = tokenize(text);
        let mut ids: Vec<u64> = Vec::new();
        if toks.len() == 0 {
            return ids;
        }
        let mut i: usize = self.entries.len();
        proof {
            assert(self@.skip(i as int) =~= Seq::<EntryView>::empty());
        }
        while i > 0
            invariant
                i <= self.entries.len(),
                toks.deep_view() == tokens_of(text@),
                toks.deep_view().len() > 0,
                ids@ == matching_ids_desc(self@.skip(i as int), toks.deep_view()),
            decreases i,
        {
            i -= 1;
            let ghost suffix = self@.skip(i as int);
            proof {
                assert(suffix.drop_first() =~= self@.skip(i + 1));
                assert(suffix.first() == self@[i as int]);
                assert(self@[i as int] == self.entries@[i as int]@);
            }
            if entry_matches_exec(&self.entries[i], &toks) {
                let ghost prior = ids@;
                ids.push(self.entries[i].id);
                proof {
                    assert(ids@ =~= matching_ids_desc(suffix.drop_first(), toks.deep_view())
                        + seq![suffix.first().id]);
                }
            } else {
                proof {
                    assert(ids@ =~= matching_ids_desc(suffix, toks.deep_view()));
                }
            }
        }
        proof {
            assert(self@.skip(0) =~= self@);
        }
        ids
    }
}

} // verus!
