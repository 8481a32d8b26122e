use cremeux::airtable::{Score, ScoreChange};
use cremeux::color::{colour_from_digest, colour_of_bytes, from_u64, user_colour};
use cremeux::commands::{
    add, balance_text, has_admin_role, leaderboard, leaderboard_limit, leaderboard_user_ids,
    rank_scores, score, score_target, user_arg_supported, CommandError, LeaderboardEntry,
};
use cremeux::decimal::ParseIntError;
use cremeux::handle_reaction::{
    balance_title, handle_reaction, reaction_reward, transaction_description, ReactionKind,
};

fn entry(user: Option<&str>, score: isize) -> LeaderboardEntry {
    LeaderboardEntry { user: user.map(|u| u.to_string()), score }
}

#[test]
fn ranking_is_by_score_then_later_row_first() {
    assert_eq!(rank_scores(&vec![5, 9, 5, 1, 9]), vec![4, 1, 2, 0, 3]);
    assert_eq!(rank_scores(&vec![]), Vec::<usize>::new());
    let scores = vec![3isize, -2, 7, 7, 0, 3, 3];
    let mut reference: Vec<(usize, isize)> = scores.iter().copied().enumerate().collect();
    reference.sort_by_key(|(_i, s)| *s);
    reference.reverse();
    let expected: Vec<usize> = reference.into_iter().map(|(i, _)| i).collect();
    assert_eq!(rank_scores(&scores), expected);
}

#[test]
fn leaderboard_text_lists_the_best_first() {
    let entries = vec![entry(Some("<@1>"), 10), entry(None, 30), entry(Some("<@3>"), 20)];
    assert_eq!(
        leaderboard(&entries, None),
        "1) Unknown – **30** points\n2) <@3> – **20** points\n3) <@1> – **10** points\n"
    );
    assert_eq!(leaderboard(&entries, Some("2")), "1) Unknown – **30** points\n2) <@3> – **20** points\n");
    assert_eq!(leaderboard(&entries, Some("0")), "");
    assert_eq!(leaderboard(&Vec::new(), None), "");
}

#[test]
fn leaderboard_shows_ten_by_default() {
    let entries: Vec<LeaderboardEntry> = (0..12).map(|i| entry(Some("u"), i - 3)).collect();
    let text = leaderboard(&entries, Some("many"));
    assert_eq!(text.lines().count(), 10);
    assert!(text.starts_with("1) u – **8** points\n"));
    assert!(text.ends_with("10) u – **-1** points\n"));
    assert_eq!(leaderboard(&entries, Some("20")).lines().count(), 12);
}

#[test]
fn leaderboard_limit_defaults_to_ten() {
    assert_eq!(leaderboard_limit(None), 10);
    assert_eq!(leaderboard_limit(Some("20")), 20);
    assert_eq!(leaderboard_limit(Some("-1")), 10);
    assert_eq!(leaderboard_limit(Some("")), 10);
}

#[test]
fn leaderboard_user_ids_stops_at_the_first_bad_id() {
    let rows = vec![
        Score { id: "12".to_string(), score: 1 },
        Score { id: "x".to_string(), score: 2 },
        Score { id: "".to_string(), score: 3 },
    ];
    assert_eq!(leaderboard_user_ids(&rows), Err(ParseIntError::InvalidDigit));
    let rows = vec![Score { id: "12".to_string(), score: 1 }, Score { id: "7".to_string(), score: 2 }];
    assert_eq!(leaderboard_user_ids(&rows), Ok(vec![12, 7]));
}

#[test]
fn score_command_reads_the_user_or_the_author() {
    assert_eq!(score_target(None, 5), 5);
    assert_eq!(score_target(Some("<@123>"), 5), 123);
    assert_eq!(score_target(Some("<@!123>"), 5), 123);
    assert_eq!(score_target(Some("123"), 5), 123);
    assert_eq!(score_target(Some("@Tamo"), 5), 5);
    assert_eq!(score_target(Some("<@12x>"), 5), 5);
    let rows = vec![Score { id: "123".to_string(), score: 42 }];
    assert_eq!(score(&rows, 123), 42);
    assert_eq!(score(&rows, 5), 0);
    assert_eq!(balance_text(42), "42 points");
    assert_eq!(balance_text(-3), "-3 points");
}

#[test]
fn set_and_add_check_role_user_and_score_in_turn() {
    assert_eq!(cremeux::commands::set(false, false, Some("<@1>"), Some("5")), Err(CommandError::NotAllowed));
    assert_eq!(cremeux::commands::set(true, false, None, Some("5")), Err(CommandError::InvalidUser));
    assert_eq!(cremeux::commands::set(false, true, Some("Tamo"), Some("x")), Err(CommandError::InvalidUser));
    assert_eq!(cremeux::commands::set(true, true, Some("<@1>"), Some("x")), Err(CommandError::InvalidScore));
    assert_eq!(cremeux::commands::set(true, false, Some("<@1>"), None), Err(CommandError::InvalidScore));
    assert_eq!(cremeux::commands::set(true, false, Some("<@1>"), Some("500")), Ok((1, ScoreChange::SetTo(500))));
    assert_eq!(add(false, true, Some("<@!77>"), Some("-20")), Ok((77, ScoreChange::Add(-20))));
    assert_eq!(add(false, false, Some("<@!77>"), Some("-20")), Err(CommandError::NotAllowed));
    assert!(has_admin_role(true, false));
    assert!(!has_admin_role(false, false));
}

#[test]
fn command_error_messages() {
    assert_eq!(
        CommandError::NotAllowed.message(),
        "You do not have the right to use this command. It is reserved to Crémeux's members"
    );
    assert_eq!(CommandError::InvalidUser.message(), "The first argument must be a valid user");
    assert_eq!(CommandError::InvalidScore.message(), "The score must be an integer");
}

#[test]
fn medals_give_points() {
    assert_eq!(handle_reaction(&ReactionKind::Unicode("🥇".to_string())), Some(60));
    assert_eq!(handle_reaction(&ReactionKind::Unicode("🥈".to_string())), Some(30));
    assert_eq!(handle_reaction(&ReactionKind::Unicode("🥉".to_string())), Some(10));
    assert_eq!(handle_reaction(&ReactionKind::Unicode("🎖".to_string())), Some(210));
    assert_eq!(handle_reaction(&ReactionKind::Unicode("👍".to_string())), None);
    assert_eq!(handle_reaction(&ReactionKind::Custom), None);
    assert_eq!(reaction_reward(60, false, true), Some(ScoreChange::Add(60)));
    assert_eq!(reaction_reward(60, false, false), None);
}

#[test]
fn transaction_texts() {
    assert_eq!(transaction_description("<@1>", 60, "<@2>"), "<@1> added 60 points to <@2>");
    assert_eq!(balance_title("Tamo"), "Tamo's Balance");
}

#[test]
fn colours() {
    assert_eq!(user_colour(0x0012_3456), 0x0056_3412);
    assert_eq!(user_colour(0xff00_0000_0000_00ff), 0x00ff_0000);
    assert_eq!(colour_from_digest(&[0xa9, 0x99, 0x3e, 0x36]), 0x00a9_993e);
    // the SHA-1 digest of "abc" starts with a9 99 3e
    assert_eq!(colour_of_bytes(b"abc"), 0x00a9_993e);
    let bytes = 42u64.to_ne_bytes();
    assert_eq!(from_u64(&42), colour_of_bytes(&bytes));
    assert_ne!(from_u64(&42), from_u64(&43));
}

#[test]
fn user_arguments_that_serenity_cannot_read() {
    assert!(!user_arg_supported("<@é"));
    assert!(!user_arg_supported("<@!12é"));
    assert!(user_arg_supported("<@12>"));
    assert!(user_arg_supported("é"));
    assert!(user_arg_supported("<é"));
    assert!(user_arg_supported(""));
    // an author without the roles is refused before the argument is read
    assert_eq!(
        cremeux::commands::set(false, false, Some("<@é"), Some("1")),
        Err(CommandError::NotAllowed)
    );
}
