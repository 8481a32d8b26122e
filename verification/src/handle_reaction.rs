//! The points that a medal reaction gives, and the message that tells of
//! the transaction.

use vstd::prelude::*;

use crate::airtable::ScoreChange;
use crate::decimal::{format_isize, spec_signed_decimal};

verus! {

/// The emoji of a reaction: a Unicode emoji, or one of the server's own.
#[derive(Debug, PartialEq, Eq)]
pub enum ReactionKind {
    Unicode(String),
    Custom,
}

/// The points that a Unicode emoji gives: 60 for the gold medal, 30 for the
/// silver one, 10 for the bronze one, 210 for the military medal, none for
/// any other emoji.
pub open spec fn medal_points(emoji: Seq<char>) -> Option<int> {
    if emoji == "\u{1F947}"@ {
        Some(60)
    } else if emoji == "\u{1F948}"@ {
        Some(30)
    } else if emoji == "\u{1F949}"@ {
        Some(10)
    } else if emoji == "\u{1F396}"@ {
        Some(210)
    } else {
        None
    }
}

pub open spec fn spec_reaction_points(emoji: ReactionKind) -> Option<int> {
    match emoji {
        ReactionKind::Unicode(e) => medal_points(e@),
        ReactionKind::Custom => None,
    }
}

fn is_text(s: &String, text: &str) -> (b: bool)
    ensures
        b == (s@ == text@),
{
    *s == String::from_str(text)
}

/// The points that a reaction gives to the author of the message, or none
/// where the reaction is no medal.
pub fn handle_reaction(emoji: &ReactionKind) -> (points: Option<isize>)
    ensures
        match spec_reaction_points(*emoji) {
            Some(p) => points == Some(p as isize),
            None => points is None,
        },
{
    match emoji {
        ReactionKind::Unicode(e) => {
            if is_text(e, "\u{1F947}") {
                Some(60)
            } else if is_text(e, "\u{1F948}") {
                Some(30)
            } else if is_text(e, "\u{1F949}") {
                Some(10)
            } else if is_text(e, "\u{1F396}") {
                Some(210)
            } else {
                None
            }
        },
        ReactionKind::Custom => None,
    }
}

/// The change that a medal of `points` makes to the score of the message's
/// author: the points are added where the user who reacted has the Crémeux
/// or the Crémissime role, and nothing happens otherwise.
pub fn reaction_reward(points: isize, has_cremeux: bool, has_cremissime: bool) -> (change: Option<
    ScoreChange,
>)
    ensures
        change == if has_cremeux || has_cremissime {
            Some(ScoreChange::Add(points))
        } else {
            None
        },
{
    if has_cremeux || has_cremissime {
        Some(ScoreChange::Add(points))
    } else {
        None
    }
}

/// The description of the transaction: `<giver> added <points> points to
/// <receiver>`.
pub fn transaction_description(giver: &str, points: isize, receiver: &str) -> (text: String)
    ensures
        text@ == giver@ + " added "@ + spec_signed_decimal(points as int) + " points to "@
            + receiver@,
{
    let mut text = String::from_str(giver);
    text.append(" added ");
    let number = format_isize(points);
    text.append(number.as_str());
    text.append(" points to ");
    text.append(receiver);
    assert(text@ =~= giver@ + " added "@ + spec_signed_decimal(points as int) + " points to "@
        + receiver@);
    text
}

/// The title of the receiver's balance: `<name>'s Balance`.
pub fn balance_title(name: &str) -> (text: String)
    ensures
        text@ == name@ + "'s Balance"@,
{
    let mut text = String::from_str(name);
    text.append("'s Balance");
    text
}

/// Only the four medals give points, custom emoji none: the gold medal 60,
/// the silver one 30, the bronze one 10 and the military medal 210.
pub proof fn law_only_medals_give_points(emoji: ReactionKind)
    ensures
        spec_reaction_points(emoji) is Some ==> (emoji matches ReactionKind::Unicode(e) && (e@
            == "\u{1F947}"@ || e@ == "\u{1F948}"@ || e@ == "\u{1F949}"@ || e@ == "\u{1F396}"@)),
        medal_points("\u{1F947}"@) == Some(60int),
        medal_points("\u{1F948}"@) == Some(30int),
        medal_points("\u{1F949}"@) == Some(10int),
        medal_points("\u{1F396}"@) == Some(210int),
{
    reveal_strlit("\u{1F947}");
    reveal_strlit("\u{1F948}");
    reveal_strlit("\u{1F949}");
    reveal_strlit("\u{1F396}");
    assert("\u{1F948}"@[0] != "\u{1F947}"@[0]);
    assert("\u{1F949}"@[0] != "\u{1F947}"@[0]);
    assert("\u{1F949}"@[0] != "\u{1F948}"@[0]);
    assert("\u{1F396}"@[0] != "\u{1F947}"@[0]);
    assert("\u{1F396}"@[0] != "\u{1F948}"@[0]);
    assert("\u{1F396}"@[0] != "\u{1F949}"@[0]);
}

} // verus!
