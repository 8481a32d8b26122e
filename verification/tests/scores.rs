use cremeux::airtable::{
    current_score_of, score_of, update_score, CompleteScore, Score, ScoreChange, ScoreWrite,
};
use cremeux::score::Score as ScoreMap;

fn row(id: &str, score: isize) -> Score {
    Score { id: id.to_string(), score }
}

fn full(id: &str, name: &str, score: isize) -> CompleteScore {
    CompleteScore { id: id.to_string(), name: name.to_string(), score }
}

#[test]
fn score_of_reads_the_first_row_of_the_user() {
    let rows = vec![row("1", 5), row("22", 7), row("22", 9)];
    assert_eq!(score_of(&rows, 22), 7);
    assert_eq!(score_of(&rows, 1), 5);
}

#[test]
fn score_of_a_user_without_row_is_zero() {
    let rows = vec![row("1", 5)];
    assert_eq!(score_of(&rows, 2), 0);
    assert_eq!(score_of(&Vec::new(), 2), 0);
    // "01" is not the decimal text of 1
    assert_eq!(score_of(&vec![row("01", 3)], 1), 0);
}

#[test]
fn change_apply_and_overflow() {
    assert_eq!(ScoreChange::SetTo(500).apply(3), 500);
    assert_eq!(ScoreChange::Add(60).apply(3), 63);
    assert_eq!(ScoreChange::Add(-10).apply(3), -7);
    assert!(ScoreChange::SetTo(1).can_apply(isize::MAX));
    assert!(!ScoreChange::Add(1).can_apply(isize::MAX));
    assert!(!ScoreChange::Add(-1).can_apply(isize::MIN));
    assert!(ScoreChange::Add(0).can_apply(isize::MAX));
}

#[test]
fn update_score_overwrites_the_users_row() {
    let rows = vec![full("1", "a", 5), full("22", "old name", 7), full("22", "x", 1)];
    let w = update_score(&rows, 22, &"Tamo".to_string(), &ScoreChange::Add(30));
    assert_eq!(
        w,
        ScoreWrite { index: Some(1), record: full("22", "Tamo", 37) }
    );
    assert_eq!(current_score_of(&rows, 22), 7);
}

#[test]
fn update_score_creates_a_row_for_a_new_user() {
    let rows = vec![full("1", "a", 5)];
    let w = update_score(&rows, 783333213854629958, &"Tamo".to_string(), &ScoreChange::SetTo(500));
    assert_eq!(w, ScoreWrite { index: None, record: full("783333213854629958", "Tamo", 500) });
    let w = update_score(&rows, 9, &"Nine".to_string(), &ScoreChange::Add(10));
    assert_eq!(w.record.score, 10);
}

#[test]
fn a_change_is_read_back_and_others_are_kept() {
    let mut rows = vec![full("1", "a", 5), full("2", "b", 8)];
    for (user, change) in [
        (2u64, ScoreChange::Add(60)),
        (3u64, ScoreChange::SetTo(-4)),
        (1u64, ScoreChange::SetTo(0)),
        (3u64, ScoreChange::Add(10)),
    ] {
        let before: Vec<(u64, isize)> = (1..=4).map(|u| (u, current_score_of(&rows, u))).collect();
        let w = update_score(&rows, user, &"n".to_string(), &change);
        match w.index {
            Some(i) => rows[i] = w.record,
            None => rows.push(w.record),
        }
        let read: Vec<Score> =
            rows.iter().map(|r| Score { id: r.id.clone(), score: r.score }).collect();
        for (u, old) in before {
            if u == user {
                assert_eq!(score_of(&read, u), change.apply(old));
            } else {
                assert_eq!(score_of(&read, u), old);
            }
        }
    }
    assert_eq!(current_score_of(&rows, 3), 6);
}

#[test]
fn score_map_starts_empty_and_keeps_what_is_put() {
    let mut scores = ScoreMap::default();
    assert!(scores.deref().is_empty());
    scores.deref_mut().insert(7, 60);
    assert_eq!(scores.deref().get(&7), Some(&60));
    assert_eq!(scores.deref().len(), 1);
}
