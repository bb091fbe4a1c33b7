//! The note store: the durable, keyed collection of note records, with
//! look-up by identity and by due-review predicate.
//!
//! Identities are assigned by the store alone, are never reused, and grow
//! strictly along the insertion order; the store's invariant keeps the
//! record sequence sorted by identity.

use vstd::prelude::*;

use crate::classifier::Category;
use crate::error::EngineError;
use crate::scheduler::ReviewState;

verus! {

/// One stored knowledge item.
#[derive(Debug)]
pub struct Note {
    /// Identity, unique across the store's lifetime.
    pub id: u64,
    /// Display title.
    pub title: String,
    /// Body text; may be empty.
    pub content: String,
    /// Category assigned at creation.
    pub category: Category,
    /// Tags extracted from the content at creation.
    pub tags: Vec<String>,
    /// Creation time, seconds since the epoch.
    pub created_at: i64,
    /// Last mutation time, seconds since the epoch.
    pub updated_at: i64,
    /// Spaced-repetition scheduling state.
    pub review: ReviewState,
}

/// The mathematical image of a note: every text field as a sequence.
#[verifier::ext_equal]
pub ghost struct NoteView {
    pub id: u64,
    pub title: Seq<char>,
    pub content: Seq<char>,
    pub category: Category,
    pub tags: Seq<Seq<char>>,
    pub created_at: i64,
    pub updated_at: i64,
    pub review: ReviewState,
}

impl View for Note {
    type V = NoteView;

    open spec fn view(&self) -> NoteView {
        NoteView {
            id: self.id,
            title: self.title@,
            content: self.content@,
            category: self.category,
            tags: self.tags.deep_view(),
            created_at: self.created_at,
            updated_at: self.updated_at,
            review: self.review,
        }
    }
}

impl DeepView for Note {
    type V = NoteView;

    open spec fn deep_view(&self) -> NoteView {
        self.view()
    }
}

/// Copies a vector of strings, keeping its contents.
fn clone_strings(strings: &Vec<String>) -> (copy: Vec<String>)
    ensures
        copy.deep_view() == strings.deep_view(),
{
    let mut copy: Vec<String> = Vec::new();
    let mut i: usize = 0;
    while i < strings.len()
        invariant
            i <= strings.len(),
            copy@.len() == i,
            forall|k: int| 0 <= k < i ==> (#[trigger] copy@[k])@ == strings@[k]@,
        decreases strings.len() - i,
    {
        copy.push(strings[i].clone());
        i += 1;
    }
    proof {
        assert(copy.deep_view() =~= strings.deep_view());
    }
    copy
}

impl Note {
    /// Copies the note; the copy carries the same image.
    pub fn snapshot(&self) -> (copy: Note)
        ensures
            copy@ == self@,
    {
        let copy = Note {
            id: self.id,
            title: self.title.clone(),
            content: self.content.clone(),
            category: self.category,
            tags: clone_strings(&self.tags),
            created_at: self.created_at,
            updated_at: self.updated_at,
            review: self.review,
        };
        proof {
            assert(copy@ =~= self@);
        }
        copy
    }
}

/// The mathematical image of the store: the note images in insertion
/// order, and the identity the next insertion will take.
#[verifier::ext_equal]
pub ghost struct StoreView {
    pub notes: Seq<NoteView>,
    pub next_id: u64,
}

/// Identities grow strictly along the record sequence, so each appears
/// exactly once, and insertion order is identity order.
pub open spec fn ids_increasing(notes: Seq<NoteView>) -> bool {
    forall|i: int, j: int|
        0 <= i < j < notes.len() ==> (#[trigger] notes[i].id) < (#[trigger] notes[j].id)
}

/// The store's invariant: the next identity is positive, every stored
/// identity lies below it, and identities grow strictly along the record
/// sequence.
pub open spec fn store_inv(v: StoreView) -> bool {
    &&& v.next_id >= 1
    &&& forall|i: int| 0 <= i < v.notes.len() ==> (#[trigger] v.notes[i].id) < v.next_id
    &&& ids_increasing(v.notes)
}

/// Some stored note carries identity `id`.
pub open spec fn has_id(notes: Seq<NoteView>, id: u64) -> bool {
    exists|i: int| 0 <= i < notes.len() && (#[trigger] notes[i].id) == id
}

/// Position of the first note carrying identity `id`.
pub open spec fn idx_of_id(notes: Seq<NoteView>, id: u64) -> int
    decreases notes.len(),
{
    if notes.len() == 0 {
        0
    } else if notes[0].id == id {
        0
    } else {
        1 + idx_of_id(notes.drop_first(), id)
    }
}

/// When `id` is present, its first position is in bounds, carries `id`,
/// and no earlier note carries it.
pub proof fn lemma_idx_of_id(notes: Seq<NoteView>, id: u64)
    requires
        has_id(notes, id),
    ensures
        0 <= idx_of_id(notes, id) < notes.len(),
        notes[idx_of_id(notes, id)].id == id,
        forall|k: int| 0 <= k < idx_of_id(notes, id) ==> (#[trigger] notes[k].id) != id,
    decreases notes.len(),
{
    if notes[0].id != id {
        let rest = notes.drop_first();
        let w = choose|i: int| 0 <= i < notes.len() && (#[trigger] notes[i].id) == id;
        assert(rest[w - 1].id == id);
        lemma_idx_of_id(rest, id);
        assert(forall|k: int|
            0 <= k < idx_of_id(notes, id) ==> (#[trigger] notes[k].id) != id) by {
            assert(forall|k: int| 1 <= k < notes.len() ==> notes[k] == rest[k - 1]);
        }
    }
}

/// A scan that finds `id` at position `i`, having passed every earlier
/// note without finding it, has found the first position.
pub proof fn lemma_idx_of_first(notes: Seq<NoteView>, id: u64, i: int)
    requires
        0 <= i < notes.len(),
        notes[i].id == id,
        forall|k: int| 0 <= k < i ==> (#[trigger] notes[k].id) != id,
    ensures
        idx_of_id(notes, id) == i,
    decreases i,
{
    if i > 0 {
        let rest = notes.drop_first();
        assert(forall|k: int| 0 <= k < i - 1 ==> (#[trigger] rest[k].id) != id) by {
            assert(forall|k: int| 0 <= k < i - 1 ==> rest[k] == notes[k + 1]);
        }
        lemma_idx_of_first(rest, id, i - 1);
    }
}

/// The image of a freshly inserted note: both timestamps at `now` and the
/// pristine review state.
pub open spec fn fresh_note_view(
    id: u64,
    title: Seq<char>,
    content: Seq<char>,
    category: Category,
    tags: Seq<Seq<char>>,
    now: i64,
) -> NoteView {
    NoteView {
        id,
        title,
        content,
        category,
        tags,
        created_at: now,
        updated_at: now,
        review: ReviewState::initial_spec(now),
    }
}

/// A note image with its review state replaced and its mutation time
/// bumped; all other fields kept.
pub open spec fn with_review(nv: NoteView, review: ReviewState, now: i64) -> NoteView {
    NoteView {
        id: nv.id,
        title: nv.title,
        content: nv.content,
        category: nv.category,
        tags: nv.tags,
        created_at: nv.created_at,
        updated_at: now,
        review,
    }
}

/// `a` comes no later than `b` in review order: an earlier due time, or
/// the same due time and an identity no greater.
pub open spec fn due_le(a: NoteView, b: NoteView) -> bool {
    a.review.due_at < b.review.due_at || (a.review.due_at == b.review.due_at && a.id <= b.id)
}

/// Insertion of a note image at its place in a sequence held in review
/// order.
pub open spec fn insert_due(sorted: Seq<NoteView>, nv: NoteView) -> Seq<NoteView>
    decreases sorted.len(),
{
    if sorted.len() == 0 {
        seq![nv]
    } else if due_le(nv, sorted[0]) {
        seq![nv] + sorted
    } else {
        seq![sorted[0]] + insert_due(sorted.drop_first(), nv)
    }
}

/// The notes due at `as_of` — review time arrived — in review order:
/// ascending due time, ties broken by ascending identity.
pub open spec fn due_order(notes: Seq<NoteView>, as_of: i64) -> Seq<NoteView>
    decreases notes.len(),
{
    if notes.len() == 0 {
        Seq::empty()
    } else {
        let front = due_order(notes.drop_last(), as_of);
        if notes.last().review.due_at <= as_of {
            insert_due(front, notes.last())
        } else {
            front
        }
    }
}

/// A sequence held in review order: due times never decrease along it,
/// and equal due times come in ascending identity order.
pub open spec fn sorted_due(s: Seq<NoteView>) -> bool {
    forall|i: int, j: int| 0 <= i < j < s.len() ==> due_le(#[trigger] s[i], #[trigger] s[j])
}

/// Insertion adds one entry, and every entry of the result is the
/// inserted note or one of the originals.
proof fn lemma_insert_due_elems(sorted: Seq<NoteView>, nv: NoteView)
    ensures
        insert_due(sorted, nv).len() == sorted.len() + 1,
        forall|k: int|
            0 <= k < insert_due(sorted, nv).len() ==> (#[trigger] insert_due(sorted, nv)[k] == nv
                || sorted.contains(insert_due(sorted, nv)[k])),
    decreases sorted.len(),
{
    let out = insert_due(sorted, nv);
    if sorted.len() == 0 {
    } else if due_le(nv, sorted[0]) {
        assert forall|k: int| 0 <= k < out.len() implies (#[trigger] out[k] == nv
            || sorted.contains(out[k])) by {
            if k > 0 {
                assert(out[k] == sorted[k - 1]);
                assert(sorted.contains(sorted[k - 1]));
            }
        }
    } else {
        let rest = sorted.drop_first();
        lemma_insert_due_elems(rest, nv);
        let sub = insert_due(rest, nv);
        assert forall|k: int| 0 <= k < out.len() implies (#[trigger] out[k] == nv
            || sorted.contains(out[k])) by {
            if k == 0 {
                assert(sorted.contains(sorted[0]));
            } else {
                assert(out[k] == sub[k - 1]);
                if sub[k - 1] != nv {
                    let w = choose|w: int| 0 <= w < rest.len() && rest[w] == sub[k - 1];
                    assert(sorted[w + 1] == sub[k - 1]);
                    assert(sorted.contains(sorted[w + 1]));
                }
            }
        }
    }
}

/// Insertion keeps review order.
proof fn lemma_insert_due_sorted(sorted: Seq<NoteView>, nv: NoteView)
    requires
        sorted_due(sorted),
    ensures
        sorted_due(insert_due(sorted, nv)),
    decreases sorted.len(),
{
    let out = insert_due(sorted, nv);
    if sorted.len() == 0 {
    } else if due_le(nv, sorted[0]) {
        assert forall|i: int, j: int| 0 <= i < j < out.len() implies due_le(
            #[trigger] out[i],
            #[trigger] out[j],
        ) by {
            assert(out[j] == sorted[j - 1]);
            if i > 0 {
                assert(out[i] == sorted[i - 1]);
            } else {
                assert(due_le(sorted[0], sorted[j - 1]));
            }
        }
    } else {
        let rest = sorted.drop_first();
        assert(sorted_due(rest)) by {
            assert(forall|i: int| 0 <= i < rest.len() ==> rest[i] == sorted[i + 1]);
        }
        lemma_insert_due_sorted(rest, nv);
        lemma_insert_due_elems(rest, nv);
        let sub = insert_due(rest, nv);
        assert forall|i: int, j: int| 0 <= i < j < out.len() implies due_le(
            #[trigger] out[i],
            #[trigger] out[j],
        ) by {
            assert(out[j] == sub[j - 1]);
            if i > 0 {
                assert(out[i] == sub[i - 1]);
            } else {
                if sub[j - 1] == nv {
                    assert(due_le(sorted[0], nv));
                } else {
                    let w = choose|w: int| 0 <= w < rest.len() && rest[w] == sub[j - 1];
                    assert(due_le(sorted[0], sorted[w + 1]));
                }
            }
        }
    }
}

/// Insertion keeps every original entry and adds the new one.
proof fn lemma_insert_due_contains(sorted: Seq<NoteView>, nv: NoteView)
    ensures
        insert_due(sorted, nv).contains(nv),
        forall|x: NoteView| sorted.contains(x) ==> insert_due(sorted, nv).contains(x),
    decreases sorted.len(),
{
    let out = insert_due(sorted, nv);
    if sorted.len() == 0 {
        assert(out[0] == nv);
    } else if due_le(nv, sorted[0]) {
        assert(out[0] == nv);
        assert forall|x: NoteView| sorted.contains(x) implies out.contains(x) by {
            let w = choose|w: int| 0 <= w < sorted.len() && sorted[w] == x;
            assert(out[w + 1] == x);
        }
    } else {
        let rest = sorted.drop_first();
        lemma_insert_due_contains(rest, nv);
        let sub = insert_due(rest, nv);
        let wn = choose|w: int| 0 <= w < sub.len() && sub[w] == nv;
        assert(out[wn + 1] == nv);
        assert forall|x: NoteView| sorted.contains(x) implies out.contains(x) by {
            let w = choose|w: int| 0 <= w < sorted.len() && sorted[w] == x;
            if w == 0 {
                assert(out[0] == x);
            } else {
                assert(rest[w - 1] == x);
                assert(rest.contains(x));
                assert(sub.contains(x));
                let v = choose|v: int| 0 <= v < sub.len() && sub[v] == x;
                assert(out[v + 1] == x);
            }
        }
    }
}

/// The due queue holds exactly the due notes: every entry is a stored
/// note whose review time has arrived at `as_of`, and every stored note
/// whose review time has arrived appears in the queue.
pub proof fn lemma_due_order_members(notes: Seq<NoteView>, as_of: i64)
    ensures
        forall|k: int|
            0 <= k < due_order(notes, as_of).len() ==> {
                &&& (#[trigger] due_order(notes, as_of)[k]).review.due_at <= as_of
                &&& notes.contains(due_order(notes, as_of)[k])
            },
        forall|w: int|
            0 <= w < notes.len() && (#[trigger] notes[w]).review.due_at <= as_of ==> due_order(
                notes,
                as_of,
            ).contains(notes[w]),
    decreases notes.len(),
{
    if notes.len() > 0 {
        let front = notes.drop_last();
        lemma_due_order_members(front, as_of);
        let d_front = due_order(front, as_of);
        let d = due_order(notes, as_of);
        assert(forall|w: int| 0 <= w < front.len() ==> front[w] == notes[w]);
        assert forall|x: NoteView| front.contains(x) implies notes.contains(x) by {
            let w = choose|w: int| 0 <= w < front.len() && front[w] == x;
            assert(notes[w] == x);
        }
        if notes.last().review.due_at <= as_of {
            lemma_insert_due_contains(d_front, notes.last());
            lemma_insert_due_elems(d_front, notes.last());
            assert forall|k: int| 0 <= k < d.len() implies {
                &&& (#[trigger] d[k]).review.due_at <= as_of
                &&& notes.contains(d[k])
            } by {
                if d[k] == notes.last() {
                    assert(notes[notes.len() - 1] == d[k]);
                } else {
                    assert(d_front.contains(d[k]));
                    let v = choose|v: int| 0 <= v < d_front.len() && d_front[v] == d[k];
                }
            }
            assert forall|w: int|
                0 <= w < notes.len() && (#[trigger] notes[w]).review.due_at <= as_of implies d.contains(
                notes[w],
            ) by {
                if w < notes.len() - 1 {
                    assert(front[w] == notes[w]);
                    assert(front.contains(notes[w]));
                    assert(d_front.contains(notes[w]));
                } else {
                    assert(notes[w] == notes.last());
                }
            }
        } else {
            assert(d == d_front);
            assert forall|w: int|
                0 <= w < notes.len() && (#[trigger] notes[w]).review.due_at <= as_of implies d.contains(
                notes[w],
            ) by {
                assert(w < notes.len() - 1);
                assert(front[w] == notes[w]);
                assert(front.contains(notes[w]));
            }
        }
    }
}

/// The due queue really is in review order: along `due_order`'s result,
/// due times never decrease, and equal due times come in ascending
/// identity order.
pub proof fn lemma_due_order_sorted(notes: Seq<NoteView>, as_of: i64)
    ensures
        sorted_due(due_order(notes, as_of)),
    decreases notes.len(),
{
    if notes.len() > 0 {
        lemma_due_order_sorted(notes.drop_last(), as_of);
        if notes.last().review.due_at <= as_of {
            lemma_insert_due_sorted(due_order(notes.drop_last(), as_of), notes.last());
        }
    }
}

/// Inserting before the first entry that `nv` precedes splits the
/// sequence exactly there.
proof fn lemma_insert_due_at(sorted: Seq<NoteView>, nv: NoteView, pos: int)
    requires
        0 <= pos <= sorted.len(),
        forall|k: int| 0 <= k < pos ==> !due_le(nv, #[trigger] sorted[k]),
        pos < sorted.len() ==> due_le(nv, sorted[pos]),
    ensures
        insert_due(sorted, nv) == sorted.take(pos) + seq![nv] + sorted.skip(pos),
    decreases pos,
{
    if pos == 0 {
        assert(insert_due(sorted, nv) =~= sorted.take(0) + seq![nv] + sorted.skip(0));
    } else {
        let rest = sorted.drop_first();
        assert(forall|k: int| 0 <= k < pos - 1 ==> !due_le(nv, #[trigger] rest[k])) by {
            assert(forall|k: int| 0 <= k < pos - 1 ==> rest[k] == sorted[k + 1]);
        }
        assert(pos - 1 < rest.len() ==> due_le(nv, rest[pos - 1]));
        lemma_insert_due_at(rest, nv, pos - 1);
        assert(insert_due(sorted, nv) =~= sorted.take(pos) + seq![nv] + sorted.skip(pos));
    }
}

/// Compares two notes in review order.
fn note_due_le(a: &Note, b: &Note) -> (r: bool)
    ensures
        r == due_le(a@, b@),
{
    a.review.due_at < b.review.due_at || (a.review.due_at == b.review.due_at && a.id <= b.id)
}

/// Places a note at its position in a vector held in review order.
fn insert_sorted(due: &mut Vec<Note>, note: Note)
    ensures
        final(due).deep_view() == insert_due(old(due).deep_view(), note@),
{
    let mut pos: usize = 0;
    while pos < due.len() && !note_due_le(&note, &due[pos])
        invariant
            pos <= due@.len(),
            due == old(due),
            forall|k: int| 0 <= k < pos ==> !due_le(note@, #[trigger] due.deep_view()[k]),
        decreases due@.len() - pos,
    {
        proof {
            assert(due.deep_view()[pos as int] == due@[pos as int]@);
        }
        pos += 1;
    }
    proof {
        if pos < due.len() {
            assert(due.deep_view()[pos as int] == due@[pos as int]@);
        }
        lemma_insert_due_at(due.deep_view(), note@, pos as int);
    }
    due.insert(pos, note);
    proof {
        assert(due.deep_view() =~= old(due).deep_view().take(pos as int) + seq![note@] + old(
            due,
        ).deep_view().skip(pos as int));
    }
}

/// Keyed storage for note records.
pub struct NoteStore {
    notes: Vec<Note>,
    next_id: u64,
}

impl View for NoteStore {
    type V = StoreView;

    closed spec fn view(&self) -> StoreView {
        StoreView { notes: self.notes.deep_view(), next_id: self.next_id }
    }
}

impl NoteStore {
    /// The store's invariant, stated over its image.
    pub open spec fn wf(&self) -> bool {
        store_inv(self@)
    }

    /// Creates an empty store; the first note will take identity 1.
    pub fn new() -> (store: NoteStore)
        ensures
            store.wf(),
            store@.notes == Seq::<NoteView>::empty(),
            store@.next_id == 1,
    {
        let store = NoteStore { notes: Vec::new(), next_id: 1 };
        proof {
            assert(store@.notes =~= Seq::<NoteView>::empty());
        }
        store
    }

    /// Inserts a new note: assigns the next identity, stamps both
    /// timestamps with `now`, and gives the note the pristine review
    /// state. The returned identity is fresh: strictly above every
    /// identity already stored.
    pub fn insert(
        &mut self,
        title: String,
        content: String,
        category: Category,
        tags: Vec<String>,
        now: i64,
    ) -> (id: u64)
        requires
            old(self).wf(),
            old(self)@.next_id < u64::MAX,
        ensures
            final(self).wf(),
            id == old(self)@.next_id,
            final(self)@.next_id == old(self)@.next_id + 1,
            final(self)@.notes == old(self)@.notes.push(
                fresh_note_view(id, title@, content@, category, tags.deep_view(), now),
            ),
            forall|j: int| 0 <= j < old(self)@.notes.len() ==> (#[trigger] old(self)@.notes[j].id) < id,
    {
        let id = self.next_id;
        self.next_id = id + 1;
        let ghost tags_view = tags.deep_view();
        let note = Note {
            id,
            title,
            content,
            category,
            tags,
            created_at: now,
            updated_at: now,
            review: ReviewState::initial(now),
        };
        self.notes.push(note);
        proof {
            assert(self@.notes =~= old(self)@.notes.push(
                fresh_note_view(id, note.title@, note.content@, category, tags_view, now),
            ));
        }
        id
    }

    /// Looks a note up by identity.
    pub fn get(&self, id: u64) -> (found: Option<&Note>)
        ensures
            match found {
                Some(note) => has_id(self@.notes, id) && note@ == self@.notes[idx_of_id(
                    self@.notes,
                    id,
                )],
                None => !has_id(self@.notes, id),
            },
    {
        let mut i: usize = 0;
        while i < self.notes.len()
            invariant
                i <= self.notes.len(),
                forall|k: int| 0 <= k < i ==> (#[trigger] self@.notes[k].id) != id,
            decreases self.notes.len() - i,
        {
            if self.notes[i].id == id {
                proof {
                    assert(self@.notes[i as int] == self.notes@[i as int]@);
                    assert(self@.notes[i as int].id == id);
                    lemma_idx_of_first(self@.notes, id, i as int);
                }
                return Some(&self.notes[i]);
            }
            i += 1;
        }
        None
    }

    /// The identity the next insertion will take.
    pub fn next_identity(&self) -> (id: u64)
        ensures
            id == self@.next_id,
    {
        self.next_id
    }

    /// Number of notes currently stored.
    pub fn count(&self) -> (n: usize)
        ensures
            n == self@.notes.len(),
    {
        self.notes.len()
    }

    /// Returns a snapshot of every note whose review time has arrived at
    /// `as_of`, ordered by ascending due time, ties broken by ascending
    /// identity. The snapshots reflect the store at call time.
    pub fn due_for_review(&self, as_of: i64) -> (due: Vec<Note>)
        ensures
            due.deep_view() == due_order(self@.notes, as_of),
    {
        let mut due: Vec<Note> = Vec::new();
        let mut i: usize = 0;
        proof {
            assert(self@.notes.take(0) =~= Seq::<NoteView>::empty());
        }
        while i < self.notes.len()
            invariant
                i <= self.notes.len(),
                due.deep_view() == due_order(self@.notes.take(i as int), as_of),
            decreases self.notes.len() - i,
        {
            proof {
                let upto = self@.notes.take(i + 1);
                assert(upto.drop_last() =~= self@.notes.take(i as int));
                assert(upto.last() == self@.notes[i as int]);
                assert(self@.notes[i as int] == self.notes@[i as int]@);
            }
            if self.notes[i].review.due_at <= as_of {
                let copy = self.notes[i].snapshot();
                insert_sorted(&mut due, copy);
            }
            i += 1;
        }
        proof {
            assert(self@.notes.take(self.notes.len() as int) =~= self@.notes);
        }
        due
    }

    /// Replaces the review state of the note carrying `id` and bumps its
    /// mutation time; title, content, category and tags are untouched.
    /// An absent identity leaves the store unchanged.
    pub fn update_review_state(&mut self, id: u64, review: ReviewState, now: i64) -> (result:
        Result<(), EngineError>)
        requires
            old(self).wf(),
        ensures
            final(self).wf(),
            final(self)@.next_id == old(self)@.next_id,
            match result {
                Ok(_) => has_id(old(self)@.notes, id) && final(self)@.notes == old(self)@.notes.update(
                    idx_of_id(old(self)@.notes, id),
                    with_review(old(self)@.notes[idx_of_id(old(self)@.notes, id)], review, now),
                ),
                Err(e) => e == EngineError::NotFound && !has_id(old(self)@.notes, id)
                    && final(self)@.notes == old(self)@.notes,
            },
    {
        let mut i: usize = 0;
        while i < self.notes.len()
            invariant
                i <= self.notes.len(),
                self == old(self),
                old(self).wf(),
                forall|k: int| 0 <= k < i ==> (#[trigger] self@.notes[k].id) != id,
            decreases self.notes.len() - i,
        {
            if self.notes[i].id == id {
                proof {
                    lemma_idx_of_first(self@.notes, id, i as int);
                }
                let note = &mut self.notes[i];
                note.review = review;
                note.updated_at = now;
                proof {
                    assert(self@.notes =~= old(self)@.notes.update(
                        i as int,
                        with_review(old(self)@.notes[i as int], review, now),
                    ));
                    assert(forall|k: int|
                        0 <= k < self@.notes.len() ==> (#[trigger] self@.notes[k].id) == old(
                            self,
                        )@.notes[k].id);
                }
                return Ok(());
            }
            i += 1;
        }
        Err(EngineError::NotFound)
    }
}

} // verus!
