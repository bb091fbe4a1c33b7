//! The knowledge store engine: the façade composing classifier, note
//! store, search index and scheduler, so that the cross-structure
//! invariant holds after every public operation — every stored note has
//! exactly one index entry carrying its current title and content, and
//! no index entry outlives its note.

use vstd::prelude::*;

use crate::classifier::categorize_note;
use crate::classifier::classified_category;
use crate::classifier::tags_of;
use crate::error::EngineError;
use crate::index::EntryView;
use crate::index::SearchIndex;
use crate::index::entry_matches;
use crate::index::has_entry;
use crate::index::matching_ids_desc;
use crate::scheduler::EASINESS_FLOOR_CENTI;
use crate::scheduler::Rating;
use crate::scheduler::apply;
use crate::scheduler::apply_spec;
use crate::scheduler::parse_rating;
use crate::scheduler::rating_from_name;
use crate::store::Note;
use crate::store::NoteStore;
use crate::store::NoteView;
use crate::store::StoreView;
use crate::store::due_order;
use crate::store::fresh_note_view;
use crate::store::has_id;
use crate::store::idx_of_id;
use crate::store::lemma_idx_of_first;
use crate::store::lemma_idx_of_id;
use crate::store::store_inv;
use crate::store::with_review;
use crate::text::occurs_ci;
use crate::text::tokens_of;

verus! {

/// Every stored note keeps its easiness at or above the 1.3 floor: the
/// store hands out 2.5 at creation, and only the scheduler — which
/// clamps to the floor — ever writes it.
pub open spec fn easiness_floored(notes: Seq<NoteView>) -> bool {
    forall|i: int|
        0 <= i < notes.len() ==> (#[trigger] notes[i]).review.easiness_centi
            >= EASINESS_FLOOR_CENTI
}

/// The index mirrors the store, record by record: equal length, and at
/// every position the same identity, title and content.
pub open spec fn aligned(notes: Seq<NoteView>, entries: Seq<EntryView>) -> bool {
    &&& entries.len() == notes.len()
    &&& forall|i: int|
        0 <= i < notes.len() ==> {
            &&& (#[trigger] entries[i]).id == notes[i].id
            &&& entries[i].title == notes[i].title
            &&& entries[i].content == notes[i].content
        }
}

/// A note matches a query when every query token occurs, up to ASCII
/// case, in its title or in its content.
pub open spec fn note_matches(nv: NoteView, toks: Seq<Seq<char>>) -> bool {
    forall|k: int|
        0 <= k < toks.len() ==> occurs_ci(nv.title, #[trigger] toks[k]) || occurs_ci(
            nv.content,
            toks[k],
        )
}

/// The matching notes, most recently created first (identities grow with
/// creation order, so descending position is descending identity).
pub open spec fn matching_notes_desc(notes: Seq<NoteView>, toks: Seq<Seq<char>>) -> Seq<NoteView>
    decreases notes.len(),
{
    if notes.len() == 0 {
        Seq::empty()
    } else {
        matching_notes_desc(notes.drop_first(), toks) + (if note_matches(notes.first(), toks) {
            seq![notes.first()]
        } else {
            Seq::empty()
        })
    }
}

/// What a search returns: nothing for a tokenless query, else the
/// matching notes, most recently created first.
pub open spec fn search_results(notes: Seq<NoteView>, toks: Seq<Seq<char>>) -> Seq<NoteView> {
    if toks.len() == 0 {
        Seq::empty()
    } else {
        matching_notes_desc(notes, toks)
    }
}

/// Over aligned store and index contents, the index's answer is exactly
/// the identity image of the store-level search result.
proof fn lemma_aligned_matching(notes: Seq<NoteView>, entries: Seq<EntryView>, toks: Seq<Seq<char>>)
    requires
        aligned(notes, entries),
    ensures
        matching_ids_desc(entries, toks) == matching_notes_desc(notes, toks).map_values(
            |nv: NoteView| nv.id,
        ),
    decreases notes.len(),
{
    let ids = matching_ids_desc(entries, toks);
    let m = matching_notes_desc(notes, toks).map_values(|nv: NoteView| nv.id);
    if notes.len() == 0 {
        assert(ids =~= m);
    } else {
        let notes_rest = notes.drop_first();
        let entries_rest = entries.drop_first();
        assert(aligned(notes_rest, entries_rest)) by {
            assert(forall|i: int| 0 <= i < notes_rest.len() ==> notes_rest[i] == notes[i + 1]);
            assert(forall|i: int|
                0 <= i < entries_rest.len() ==> (#[trigger] entries_rest[i]) == entries[i + 1]);
        }
        lemma_aligned_matching(notes_rest, entries_rest, toks);
        assert(entry_matches(entries.first(), toks) == note_matches(notes.first(), toks));
        assert(ids =~= m);
    }
}

/// Every search result is drawn from the store's notes.
proof fn lemma_matching_in_notes(notes: Seq<NoteView>, toks: Seq<Seq<char>>)
    ensures
        forall|k: int|
            0 <= k < matching_notes_desc(notes, toks).len() ==> exists|w: int|
                0 <= w < notes.len() && notes[w] == #[trigger] matching_notes_desc(notes, toks)[k],
    decreases notes.len(),
{
    if notes.len() > 0 {
        let rest = notes.drop_first();
        lemma_matching_in_notes(rest, toks);
        let m = matching_notes_desc(notes, toks);
        let m_rest = matching_notes_desc(rest, toks);
        assert forall|k: int| 0 <= k < m.len() implies exists|w: int|
            0 <= w < notes.len() && notes[w] == #[trigger] m[k] by {
            if k < m_rest.len() {
                assert(m[k] == m_rest[k]);
                let w = choose|w: int| 0 <= w < rest.len() && rest[w] == m_rest[k];
                assert(notes[w + 1] == m[k]);
            } else {
                assert(m[k] == notes.first());
                assert(notes[0] == m[k]);
            }
        }
    }
}

/// Index consistency, completeness half: a stored note that matches every
/// token of a query appears among the search results for that query — in
/// particular a query made of one token drawn from the note's own title
/// or content returns the note.
pub proof fn lemma_search_complete(notes: Seq<NoteView>, toks: Seq<Seq<char>>, i: int)
    requires
        toks.len() > 0,
        0 <= i < notes.len(),
        note_matches(notes[i], toks),
    ensures
        search_results(notes, toks).contains(notes[i]),
    decreases notes.len(),
{
    let m = matching_notes_desc(notes, toks);
    let rest = notes.drop_first();
    let m_rest = matching_notes_desc(rest, toks);
    if i == 0 {
        assert(m[m.len() - 1] == notes[0]);
    } else {
        lemma_search_complete(rest, toks, i - 1);
        let w = choose|w: int| 0 <= w < m_rest.len() && m_rest[w] == rest[i - 1];
        assert(m[w] == notes[i]);
    }
}

/// Index consistency, soundness half: every search result is one of the
/// store's notes — an identity never stored, or no longer stored, is
/// never returned.
pub proof fn lemma_search_sound(notes: Seq<NoteView>, toks: Seq<Seq<char>>, k: int)
    requires
        0 <= k < search_results(notes, toks).len(),
    ensures
        notes.contains(search_results(notes, toks)[k]),
{
    lemma_matching_in_notes(notes, toks);
    let w = choose|w: int|
        0 <= w < notes.len() && notes[w] == matching_notes_desc(notes, toks)[k];
    assert(notes[w] == search_results(notes, toks)[k]);
}

/// One successful note addition, seen from outside: the returned
/// identity is the one the engine had promised next, the promise moves
/// one up, and the new note — classified and tagged from its text, both
/// timestamps at `now`, pristine review state — is appended.
pub open spec fn add_note_step(
    pre: StoreView,
    post: StoreView,
    title: Seq<char>,
    content: Seq<char>,
    now: i64,
    id: u64,
) -> bool {
    &&& id == pre.next_id
    &&& post.next_id == pre.next_id + 1
    &&& post.notes == pre.notes.push(
        fresh_note_view(
            id,
            title,
            content,
            classified_category(title, content),
            tags_of(content),
            now,
        ),
    )
}

/// Identity monotonicity: across any two consecutive additions, in any
/// sequence of engine operations, the identities returned strictly
/// increase — and, by each addition's own freshness guarantee, an
/// identity is never repeated.
pub proof fn lemma_identity_monotonic(
    pre: StoreView,
    mid: StoreView,
    post: StoreView,
    title1: Seq<char>,
    content1: Seq<char>,
    now1: i64,
    id1: u64,
    title2: Seq<char>,
    content2: Seq<char>,
    now2: i64,
    id2: u64,
)
    requires
        add_note_step(pre, mid, title1, content1, now1, id1),
        add_note_step(mid, post, title2, content2, now2, id2),
    ensures
        id2 == id1 + 1,
        id2 > id1,
{
}

/// The store contents after the note carrying `id` takes one rating:
/// only that note changes, and only its review state and mutation time.
pub open spec fn rated_notes(notes: Seq<NoteView>, id: u64, rating: Rating, now: i64) -> Seq<
    NoteView,
> {
    let at = idx_of_id(notes, id);
    notes.update(at, with_review(notes[at], apply_spec(notes[at].review, rating, now), now))
}

/// The engine façade: owns the note store and keeps the search index a
/// faithful projection of it.
pub struct Engine {
    store: NoteStore,
    index: SearchIndex,
}

impl View for Engine {
    type V = StoreView;

    closed spec fn view(&self) -> StoreView {
        self.store@
    }
}

impl Engine {
    /// The engine's invariant: the store's own invariant, the index
    /// aligned with the store record by record, and every stored
    /// easiness at or above the floor.
    pub closed spec fn wf(&self) -> bool {
        &&& self.store.wf()
        &&& aligned(self.store@.notes, self.index@)
        &&& easiness_floored(self.store@.notes)
    }

    /// A well-formed engine has a well-formed image: positive next
    /// identity, every stored identity below it, identities strictly
    /// increasing along the record sequence, and every stored easiness
    /// at or above the 1.3 floor.
    pub proof fn lemma_wf_inv(&self)
        requires
            self.wf(),
        ensures
            store_inv(self@),
            easiness_floored(self@.notes),
    {
    }

    /// Creates an empty engine; the first note will take identity 1.
    pub fn new() -> (engine: Engine)
        ensures
            engine.wf(),
            engine@.notes == Seq::<NoteView>::empty(),
            engine@.next_id == 1,
    {
        let engine = Engine { store: NoteStore::new(), index: SearchIndex::new() };
        proof {
            assert(aligned(engine.store@.notes, engine.index@));
        }
        engine
    }

    /// Files a new note: classifies it, stores it, and indexes it, as one
    /// unit — afterwards the note is both stored and searchable. Returns
    /// the fresh identity, strictly above every identity handed out
    /// before.
    pub fn add_note(&mut self, title: String, content: String, now: i64) -> (id: u64)
        requires
            old(self).wf(),
            old(self)@.next_id < u64::MAX,
        ensures
            final(self).wf(),
            add_note_step(old(self)@, final(self)@, title@, content@, now, id),
            forall|j: int|
                0 <= j < old(self)@.notes.len() ==> (#[trigger] old(self)@.notes[j].id) < id,
    {
        let (category, tags) = categorize_note(content.as_str(), title.as_str());
        let index_title = title.clone();
        let index_content = content.clone();
        let id = self.store.insert(title, content, category, tags, now);
        proof {
            if has_entry(self.index@, id) {
                let w = choose|w: int|
                    0 <= w < self.index@.len() && (#[trigger] self.index@[w].id) == id;
                assert(old(self)@.notes[w].id == id);
                assert(false);
            }
        }
        self.index.index(id, index_title, index_content);
        proof {
            assert(aligned(self.store@.notes, self.index@)) by {
                assert(forall|i: int|
                    0 <= i < old(self)@.notes.len() ==> self.store@.notes[i] == old(
                        self,
                    )@.notes[i]);
                assert(forall|i: int|
                    0 <= i < old(self).index@.len() ==> (#[trigger] self.index@[i]) == old(
                        self,
                    ).index@[i]);
            }
        }
        id
    }

    /// Searches the stored notes: every whitespace-delimited query token
    /// must occur, case-insensitively, in a note's title or content for
    /// the note to be returned; results come most recently created
    /// first. An empty or whitespace-only query returns nothing.
    #[verifier::loop_isolation(false)]
    pub fn search(&self, query: &str) -> (results: Vec<Note>)
        requires
            self.wf(),
        ensures
            results.deep_view() == search_results(self@.notes, tokens_of(query@)),
            tokens_of(query@).len() == 0 ==> results@.len() == 0,
    {
        let ids = self.index.query(query);
        let ghost toks = tokens_of(query@);
        let ghost m = matching_notes_desc(self@.notes, toks);
        let mut results: Vec<Note> = Vec::new();
        proof {
            if toks.len() > 0 {
                lemma_aligned_matching(self@.notes, self.index@, toks);
                lemma_matching_in_notes(self@.notes, toks);
            }
        }
        if ids.len() == 0 {
            proof {
                assert(results.deep_view() =~= search_results(self@.notes, toks));
            }
            return results;
        }
        let mut k: usize = 0;
        while k < ids.len()
            invariant
                k <= ids@.len(),
                results.deep_view() == m.take(k as int),
            decreases ids@.len() - k,
        {
            proof {
                assert(ids@[k as int] == m[k as int].id);
                let w = choose|w: int| 0 <= w < self@.notes.len() && self@.notes[w] == m[k as int];
                assert(forall|q: int|
                    0 <= q < w ==> (#[trigger] self@.notes[q].id) != m[k as int].id);
                lemma_idx_of_first(self@.notes, m[k as int].id, w);
                assert(has_id(self@.notes, ids@[k as int]));
            }
            match self.store.get(ids[k]) {
                Some(note) => {
                    let copy = note.snapshot();
                    results.push(copy);
                    proof {
                        assert(results.deep_view() =~= m.take(k + 1));
                    }
                },
                None => {
                    proof {
                        assert(false);
                    }
                },
            }
            k += 1;
        }
        proof {
            assert(m.take(ids@.len() as int) =~= m);
        }
        results
    }

    /// Returns snapshots of every note due for review at `as_of`,
    /// earliest due time first, ties broken by ascending identity.
    pub fn due_cards(&self, as_of: i64) -> (due: Vec<Note>)
        ensures
            due.deep_view() == due_order(self@.notes, as_of),
    {
        self.store.due_for_review(as_of)
    }

    /// Applies one rating to the note carrying `id`: reads its review
    /// state, runs the scheduler, and writes the result back. An unknown
    /// identity is reported as `NotFound` and changes nothing.
    pub fn rate(&mut self, id: u64, rating: Rating, now: i64) -> (result: Result<(), EngineError>)
        requires
            old(self).wf(),
        ensures
            final(self).wf(),
            final(self)@.next_id == old(self)@.next_id,
            match result {
                Ok(_) => has_id(old(self)@.notes, id) && final(self)@.notes == rated_notes(
                    old(self)@.notes,
                    id,
                    rating,
                    now,
                ),
                Err(e) => e == EngineError::NotFound && !has_id(old(self)@.notes, id)
                    && final(self)@.notes == old(self)@.notes,
            },
    {
        let current = match self.store.get(id) {
            Some(note) => note.review,
            None => {
                return Err(EngineError::NotFound);
            },
        };
        let next = apply(&current, rating, now);
        let outcome = self.store.update_review_state(id, next, now);
        proof {
            lemma_idx_of_id(old(self)@.notes, id);
            assert(aligned(self.store@.notes, self.index@)) by {
                assert(forall|i: int|
                    0 <= i < self.store@.notes.len() ==> {
                        &&& (#[trigger] self.store@.notes[i]).id == old(self)@.notes[i].id
                        &&& self.store@.notes[i].title == old(self)@.notes[i].title
                        &&& self.store@.notes[i].content == old(self)@.notes[i].content
                    });
            }
        }
        match outcome {
            Ok(_) => Ok(()),
            Err(_) => {
                proof {
                    assert(false);
                }
                Err(EngineError::NotFound)
            },
        }
    }

    /// Applies a rating given by name (`again`, `hard`, `good`, `easy`).
    /// An unknown name is rejected as `InvalidRating` before the identity
    /// is looked up, and changes nothing.
    pub fn rate_named(&mut self, id: u64, rating_name: &str, now: i64) -> (result: Result<
        (),
        EngineError,
    >)
        requires
            old(self).wf(),
        ensures
            final(self).wf(),
            final(self)@.next_id == old(self)@.next_id,
            match parse_rating(rating_name@) {
                Err(e) => result == Err::<(), EngineError>(e) && final(self)@.notes == old(
                    self,
                )@.notes,
                Ok(rating) => match result {
                    Ok(_) => has_id(old(self)@.notes, id) && final(self)@.notes == rated_notes(
                        old(self)@.notes,
                        id,
                        rating,
                        now,
                    ),
                    Err(e) => e == EngineError::NotFound && !has_id(old(self)@.notes, id)
                        && final(self)@.notes == old(self)@.notes,
                },
            },
    {
        match rating_from_name(rating_name) {
            Ok(rating) => self.rate(id, rating, now),
            Err(e) => Err(e),
        }
    }

    /// The identity the next added note will take.
    pub fn next_identity(&self) -> (id: u64)
        ensures
            id == self@.next_id,
    {
        self.store.next_identity()
    }

    /// Number of notes currently stored.
    pub fn note_count(&self) -> (n: usize)
        ensures
            n == self@.notes.len(),
    {
        self.store.count()
    }

    /// Looks a note up by identity; `None` exactly when no note carries
    /// `id`.
    pub fn get(&self, id: u64) -> (found: Option<&Note>)
        ensures
            match found {
                Some(note) => has_id(self@.notes, id) && note@ == self@.notes[idx_of_id(
                    self@.notes,
                    id,
                )],
                None => !has_id(self@.notes, id),
            },
    {
        self.store.get(id)
    }
}

} // verus!
