use quicknote::classifier::categorize_note;
use quicknote::classifier::category_from_text;
use quicknote::classifier::category_to_text;
use quicknote::classifier::Category;
use quicknote::error::EngineError;
use quicknote::index::SearchIndex;
use quicknote::scheduler::rating_from_name;
use quicknote::scheduler::Rating;
use quicknote::scheduler::ReviewState;
use quicknote::store::NoteStore;
use quicknote::text::contains_ci;
use quicknote::text::str_eq;
use quicknote::text::tokenize;

#[test]
fn tags_are_extracted_stripped_and_deduplicated() {
    let (_, tags) = categorize_note("a #one b #two c #one #two, #", "t");
    // `#one` repeats and is collapsed; `#two,` differs from `#two`;
    // a bare `#` carries no tag text and is ignored.
    assert_eq!(
        tags,
        vec![String::from("one"), String::from("two"), String::from("two,")]
    );
}

#[test]
fn classification_rules_in_order() {
    let (cat, _) = categorize_note("insert into accounts values (1)", "t");
    assert!(matches!(cat, Category::SQLQuery));
    let (cat, _) = categorize_note("data FROM the sensor", "t");
    assert!(matches!(cat, Category::SQLQuery));
    let (cat, _) = categorize_note("an EXCEPTION was thrown", "t");
    assert!(matches!(cat, Category::DebugPattern));
    let (cat, _) = categorize_note("the process PANICked", "t");
    assert!(matches!(cat, Category::DebugPattern));
    let (cat, _) = categorize_note("step a\nstep b\nstep c\nstep d", "3 ways to deploy");
    assert!(matches!(cat, Category::Process));
    // Three lines are not more than three newline-delimited segments.
    let (cat, _) = categorize_note("step a\nstep b\nstep c", "3 ways to deploy");
    assert!(matches!(cat, Category::Concept));
    // Without the leading digit the line count alone is not enough.
    let (cat, _) = categorize_note("step a\nstep b\nstep c\nstep d", "ways to deploy");
    assert!(matches!(cat, Category::Concept));
    let (cat, _) = categorize_note("plain thought", "t");
    assert!(matches!(cat, Category::Concept));
}

#[test]
fn category_text_round_trip_and_rejection() {
    let all = [
        Category::Concept,
        Category::Snippet,
        Category::Checklist,
        Category::Note,
        Category::Process,
        Category::SQLQuery,
        Category::DebugPattern,
    ];
    for category in all {
        let text = category_to_text(category);
        assert_eq!(category_from_text(text.as_str()), Ok(category));
    }
    assert_eq!(
        category_from_text("Recipe"),
        Err(EngineError::ConstraintViolation)
    );
    assert_eq!(
        category_from_text("SQL Query"),
        Err(EngineError::ConstraintViolation)
    );
}

#[test]
fn rating_names() {
    assert_eq!(rating_from_name("again"), Ok(Rating::Again));
    assert_eq!(rating_from_name("hard"), Ok(Rating::Hard));
    assert_eq!(rating_from_name("good"), Ok(Rating::Good));
    assert_eq!(rating_from_name("easy"), Ok(Rating::Easy));
    assert_eq!(rating_from_name("Good"), Err(EngineError::InvalidRating));
    assert_eq!(rating_from_name(""), Err(EngineError::InvalidRating));
}

#[test]
fn scheduler_saturates_at_type_bounds() {
    let state = ReviewState {
        due_at: 0,
        interval_days: u32::MAX,
        streak: u32::MAX,
        easiness_centi: u32::MAX - 5,
    };
    let next = quicknote::scheduler::apply(&state, Rating::Easy, 0);
    assert_eq!(next.easiness_centi, u32::MAX);
    assert_eq!(next.interval_days, u32::MAX);
    assert_eq!(next.streak, u32::MAX);
    let late = quicknote::scheduler::apply(&state, Rating::Easy, i64::MAX - 10);
    assert_eq!(late.due_at, i64::MAX);
}

#[test]
fn scheduler_rounds_half_away_from_zero() {
    // interval 3 at easiness 2.5 gives 7.5, which rounds to 8.
    let state = ReviewState { due_at: 0, interval_days: 3, streak: 0, easiness_centi: 258 };
    let next = quicknote::scheduler::apply(&state, Rating::Easy, 0);
    // Easy lifts easiness to 268; 3 * 2.68 = 8.04 rounds to 8.
    assert_eq!(next.easiness_centi, 268);
    assert_eq!(next.interval_days, 8);

    let state = ReviewState { due_at: 0, interval_days: 3, streak: 0, easiness_centi: 240 };
    let next = quicknote::scheduler::apply(&state, Rating::Easy, 0);
    // Easy lifts easiness to 250; 3 * 2.5 = 7.5 rounds up to 8.
    assert_eq!(next.interval_days, 8);
}

#[test]
fn index_upsert_is_idempotent_and_replaces() {
    let mut index = SearchIndex::new();
    index.index(7, String::from("alpha"), String::from("beta"));
    index.index(7, String::from("alpha"), String::from("beta"));
    assert_eq!(index.query("alpha"), vec![7]);
    // Re-indexing the same identity replaces its text instead of
    // duplicating the entry.
    index.index(7, String::from("gamma"), String::from("delta"));
    assert_eq!(index.query("alpha"), Vec::<u64>::new());
    assert_eq!(index.query("gamma"), vec![7]);
}

#[test]
fn index_remove_is_idempotent() {
    let mut index = SearchIndex::new();
    index.index(1, String::from("one note"), String::from("text"));
    index.index(2, String::from("two note"), String::from("text"));
    index.remove(1);
    index.remove(1);
    assert_eq!(index.query("text"), vec![2]);
    index.remove(99);
    assert_eq!(index.query("text"), vec![2]);
}

#[test]
fn store_assigns_defaults_and_counts() {
    let mut store = NoteStore::new();
    let id = store.insert(
        String::from("t"),
        String::from("c"),
        Category::Snippet,
        vec![String::from("x")],
        77,
    );
    assert_eq!(id, 1);
    assert_eq!(store.count(), 1);
    let note = store.get(id).expect("stored");
    assert!(matches!(note.category, Category::Snippet));
    assert_eq!(note.created_at, 77);
    assert_eq!(note.updated_at, 77);
    assert_eq!(note.review.due_at, 77);
    assert_eq!(note.review.interval_days, 0);
    assert_eq!(note.review.easiness_centi, 250);
    assert!(store.get(2).is_none());
}

#[test]
fn store_update_review_state_bumps_updated_at() {
    let mut store = NoteStore::new();
    let id = store.insert(String::from("t"), String::from("c"), Category::Note, vec![], 5);
    let review = ReviewState { due_at: 100, interval_days: 2, streak: 1, easiness_centi: 260 };
    assert!(store.update_review_state(id, review, 42).is_ok());
    let note = store.get(id).expect("stored");
    assert_eq!(note.review, review);
    assert_eq!(note.updated_at, 42);
    assert_eq!(note.created_at, 5);
    assert_eq!(
        store.update_review_state(9, review, 43),
        Err(EngineError::NotFound)
    );
}

#[test]
fn text_helpers() {
    assert!(contains_ci("The QUICK fox", "quick"));
    assert!(contains_ci("insert INTO t", "insert into"));
    assert!(!contains_ci("short", "longer needle"));
    assert!(contains_ci("anything", ""));
    assert!(str_eq("same", "same"));
    assert!(!str_eq("same", "Same"));
    let toks = tokenize("  two\twords \n");
    assert_eq!(toks, vec![String::from("two"), String::from("words")]);
    assert_eq!(tokenize(""), Vec::<String>::new());
    assert_eq!(tokenize("   "), Vec::<String>::new());
}

#[test]
fn error_descriptions() {
    assert_eq!(EngineError::NotFound.describe(), "note not found");
    assert_eq!(EngineError::InvalidRating.describe(), "invalid rating");
    assert_eq!(
        EngineError::ConstraintViolation.describe(),
        "category constraint violated"
    );
}
