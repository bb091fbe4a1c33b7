use quicknote::classifier::Category;
use quicknote::engine::Engine;
use quicknote::error::EngineError;
use quicknote::scheduler::Rating;

const DAY: i64 = 86400;

#[test]
fn scenario_welcome_note() {
    let mut engine = Engine::new();
    let id = engine.add_note(
        String::from("Welcome"),
        String::from("This is a #demo note."),
        1_000,
    );
    assert_eq!(id, 1);
    let note = engine.get(id).expect("note stored");
    assert!(matches!(note.category, Category::Concept));
    assert_eq!(note.tags, vec![String::from("demo")]);
    assert_eq!(note.created_at, 1_000);
    assert_eq!(note.updated_at, 1_000);
    assert_eq!(note.review.due_at, 1_000);
    assert_eq!(note.review.interval_days, 0);
    assert_eq!(note.review.streak, 0);
    assert_eq!(note.review.easiness_centi, 250);
}

#[test]
fn scenario_sql_note() {
    let mut engine = Engine::new();
    let now = 50_000;
    let id = engine.add_note(
        String::from("Find dupes"),
        String::from("SELECT email FROM users GROUP BY email HAVING COUNT(*) > 1"),
        now,
    );
    let note = engine.get(id).expect("note stored");
    assert!(matches!(note.category, Category::SQLQuery));

    let results = engine.search("select");
    assert_eq!(results.len(), 1);
    assert_eq!(results[0].id, id);

    let due = engine.due_cards(now);
    assert!(due.iter().any(|n| n.id == id && n.review.interval_days == 0));
}

#[test]
fn scenario_good_rating() {
    let mut engine = Engine::new();
    let id = engine.add_note(String::from("Card"), String::from("body"), 0);
    // The documented arithmetic, checked on a state already at interval 10
    // and easiness 2.5.
    let state = quicknote::scheduler::ReviewState {
        due_at: 0,
        interval_days: 10,
        streak: 3,
        easiness_centi: 250,
    };
    let now = 1_000;
    let next = quicknote::scheduler::apply(&state, Rating::Good, now);
    assert_eq!(next.easiness_centi, 242);
    assert_eq!(next.interval_days, 24);
    assert_eq!(next.streak, 4);
    assert_eq!(next.due_at, now + 24 * DAY);
    // The same transition through the engine mutates only review state.
    let outcome = engine.rate(id, Rating::Good, now);
    assert!(outcome.is_ok());
    let note = engine.get(id).expect("note stored");
    assert_eq!(note.review.streak, 1);
    assert_eq!(note.review.easiness_centi, 242);
    assert_eq!(note.updated_at, now);
}

#[test]
fn scenario_lapse_after_good() {
    let state = quicknote::scheduler::ReviewState {
        due_at: 0,
        interval_days: 10,
        streak: 3,
        easiness_centi: 250,
    };
    let rated_good = quicknote::scheduler::apply(&state, Rating::Good, 1_000);
    assert_eq!(rated_good.easiness_centi, 242);
    let lapsed = quicknote::scheduler::apply(&rated_good, Rating::Again, 2_000);
    assert_eq!(lapsed.streak, 0);
    assert_eq!(lapsed.interval_days, 1);
    assert_eq!(lapsed.easiness_centi, 242);
    assert_eq!(lapsed.due_at, 2_000 + DAY);
}

#[test]
fn scenario_rate_unknown_id() {
    let mut engine = Engine::new();
    let id = engine.add_note(String::from("Kept"), String::from("kept body"), 10);
    let outcome = engine.rate(999, Rating::Good, 20);
    assert_eq!(outcome, Err(EngineError::NotFound));
    assert_eq!(engine.note_count(), 1);
    let note = engine.get(id).expect("note stored");
    assert_eq!(note.title, "Kept");
    assert_eq!(note.content, "kept body");
    assert_eq!(note.updated_at, 10);
    assert_eq!(note.review.interval_days, 0);
    assert_eq!(note.review.streak, 0);
    assert_eq!(note.review.easiness_centi, 250);
}

#[test]
fn identities_strictly_increase() {
    let mut engine = Engine::new();
    let a = engine.add_note(String::from("one"), String::from("alpha"), 1);
    let _ = engine.search("alpha");
    let b = engine.add_note(String::from("two"), String::from("beta"), 2);
    let _ = engine.note_count();
    let _ = engine.due_cards(5);
    let c = engine.add_note(String::from("three"), String::from("gamma"), 3);
    assert!(a < b && b < c);
    assert_eq!(vec![a, b, c], vec![1, 2, 3]);
}

#[test]
fn search_finds_stored_notes_only() {
    let mut engine = Engine::new();
    let a = engine.add_note(String::from("Rust tips"), String::from("borrow checker"), 1);
    let b = engine.add_note(String::from("Cooking"), String::from("pasta #recipe"), 2);
    // A token drawn from each note's own text finds that note.
    let hits = engine.search("borrow");
    assert_eq!(hits.len(), 1);
    assert_eq!(hits[0].id, a);
    let hits = engine.search("recipe");
    assert_eq!(hits.len(), 1);
    assert_eq!(hits[0].id, b);
    // No query returns an identity that was never stored.
    for query in ["borrow", "pasta", "tips", "cooking"] {
        for note in engine.search(query) {
            assert!(note.id == a || note.id == b);
        }
    }
}

#[test]
fn search_orders_most_recent_first() {
    let mut engine = Engine::new();
    let a = engine.add_note(String::from("first"), String::from("shared token"), 1);
    let b = engine.add_note(String::from("second"), String::from("shared token"), 2);
    let c = engine.add_note(String::from("third"), String::from("shared token"), 3);
    let hits = engine.search("shared");
    let ids: Vec<u64> = hits.iter().map(|n| n.id).collect();
    assert_eq!(ids, vec![c, b, a]);
}

#[test]
fn search_is_conjunctive_and_case_insensitive() {
    let mut engine = Engine::new();
    let id = engine.add_note(
        String::from("Index notes"),
        String::from("Tokens match case-insensitively"),
    1);
    assert_eq!(engine.search("TOKENS match").len(), 1);
    assert_eq!(engine.search("tokens absent").len(), 0);
    assert_eq!(engine.search("INDEX tokens")[0].id, id);
}

#[test]
fn empty_query_returns_nothing() {
    let mut engine = Engine::new();
    engine.add_note(String::from("something"), String::from("content here"), 1);
    assert_eq!(engine.search("").len(), 0);
    assert_eq!(engine.search("   ").len(), 0);
    assert_eq!(engine.search("\t\n").len(), 0);
}

#[test]
fn classification_precedence_sql_over_debug() {
    let mut engine = Engine::new();
    let id = engine.add_note(
        String::from("mixed"),
        String::from("SELECT * FROM logs WHERE error = 1"),
        1,
    );
    let note = engine.get(id).expect("note stored");
    assert!(matches!(note.category, Category::SQLQuery));
}

#[test]
fn easiness_never_drops_below_floor() {
    let mut state = quicknote::scheduler::ReviewState {
        due_at: 0,
        interval_days: 0,
        streak: 0,
        easiness_centi: 250,
    };
    let ratings = [
        Rating::Hard,
        Rating::Hard,
        Rating::Hard,
        Rating::Hard,
        Rating::Hard,
        Rating::Hard,
        Rating::Hard,
        Rating::Hard,
        Rating::Hard,
        Rating::Good,
        Rating::Again,
        Rating::Hard,
        Rating::Hard,
        Rating::Hard,
    ];
    for (step, rating) in ratings.iter().enumerate() {
        state = quicknote::scheduler::apply(&state, *rating, step as i64);
        assert!(state.easiness_centi >= 130);
    }
    assert_eq!(state.easiness_centi, 130);
}

#[test]
fn interval_at_least_one_after_any_rating() {
    for rating in [Rating::Again, Rating::Hard, Rating::Good, Rating::Easy] {
        let state = quicknote::scheduler::ReviewState {
            due_at: 0,
            interval_days: 0,
            streak: 0,
            easiness_centi: 250,
        };
        let next = quicknote::scheduler::apply(&state, rating, 0);
        assert!(next.interval_days >= 1);
    }
}

#[test]
fn lapse_resets_regardless_of_prior_state() {
    for (interval, streak, easiness) in [(0u32, 0u32, 250u32), (400, 17, 310), (1, 1, 130)] {
        let state = quicknote::scheduler::ReviewState {
            due_at: 123,
            interval_days: interval,
            streak,
            easiness_centi: easiness,
        };
        let next = quicknote::scheduler::apply(&state, Rating::Again, 9_000);
        assert_eq!(next.streak, 0);
        assert_eq!(next.interval_days, 1);
        assert_eq!(next.easiness_centi, easiness);
        assert_eq!(next.due_at, 9_000 + DAY);
    }
}

#[test]
fn rate_named_maps_names_and_rejects_unknown() {
    let mut engine = Engine::new();
    let id = engine.add_note(String::from("card"), String::from("body"), 0);
    assert!(engine.rate_named(id, "good", 100).is_ok());
    let note = engine.get(id).expect("note stored");
    assert_eq!(note.review.easiness_centi, 242);
    assert_eq!(
        engine.rate_named(id, "excellent", 200),
        Err(EngineError::InvalidRating)
    );
    // The rejected rating changed nothing.
    let note = engine.get(id).expect("note stored");
    assert_eq!(note.updated_at, 100);
    // An invalid name is rejected even for an unknown identity.
    assert_eq!(
        engine.rate_named(999, "excellent", 200),
        Err(EngineError::InvalidRating)
    );
    assert_eq!(engine.rate_named(999, "good", 200), Err(EngineError::NotFound));
}

#[test]
fn due_cards_order_and_filter() {
    let mut engine = Engine::new();
    let start = 1_000;
    let a = engine.add_note(String::from("a"), String::from("alpha"), start);
    let b = engine.add_note(String::from("b"), String::from("beta"), start);
    let c = engine.add_note(String::from("c"), String::from("gamma"), start);
    // All three pristine notes are due at creation time, ties broken by id.
    let due: Vec<u64> = engine.due_cards(start).iter().map(|n| n.id).collect();
    assert_eq!(due, vec![a, b, c]);
    // Rating `b` pushes its due time a day out, so it drops from today's
    // queue and sorts last in tomorrow's.
    engine.rate(b, Rating::Again, start).unwrap();
    let due: Vec<u64> = engine.due_cards(start).iter().map(|n| n.id).collect();
    assert_eq!(due, vec![a, c]);
    let due: Vec<u64> = engine.due_cards(start + DAY).iter().map(|n| n.id).collect();
    assert_eq!(due, vec![a, c, b]);
}

#[test]
fn rating_updates_due_date_from_now() {
    let mut engine = Engine::new();
    let id = engine.add_note(String::from("card"), String::from("body"), 0);
    let now = 5_000;
    engine.rate(id, Rating::Easy, now).unwrap();
    let note = engine.get(id).expect("note stored");
    // Pristine interval 0 times easiness rounds to 0, floored to 1 day.
    assert_eq!(note.review.interval_days, 1);
    assert_eq!(note.review.easiness_centi, 260);
    assert_eq!(note.review.due_at, now + DAY);
}
