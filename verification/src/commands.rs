//! The bot's commands: `leaderboard`, `score`, `set` and `add`, with
//! everything they decide and write; fetching users and talking to Discord
//! and to the table are left to the caller.

use vstd::prelude::*;

use crate::airtable::{lookup_score, score_of, Score, ScoreChange};
use crate::decimal::{
    lemma_decimal_is_digits,
    lemma_parse_format_u64,
    lemma_parse_format_usize,
    format_isize,
    format_usize,
    parse_isize,
    parse_u64,
    parse_usize,
    spec_decimal,
    spec_parse_isize,
    spec_parse_u64,
    spec_parse_usize,
    spec_signed_decimal,
    ParseIntError,
};

verus! {

/// Whether user `i` comes before user `j` on the leaderboard: the higher
/// score first, and of equal scores the one later in the table first (the
/// order that a stable sort by score, reversed, gives).
pub open spec fn ranks_before(scores: Seq<isize>, i: int, j: int) -> bool {
    scores[i] > scores[j] || (scores[i] == scores[j] && i > j)
}

/// `order` lists every position of `scores` once, in leaderboard order.
pub open spec fn is_ranking(scores: Seq<isize>, order: Seq<usize>) -> bool {
    &&& order.len() == scores.len()
    &&& forall|k: int| 0 <= k < order.len() ==> #[trigger] order[k] < scores.len()
    &&& forall|x: int| 0 <= x < scores.len() ==> #[trigger] order.contains(x as usize)
    &&& forall|a: int, b: int|
        0 <= a < b < order.len() ==> ranks_before(scores, #[trigger] order[a] as int, #[trigger] order[b] as int)
}

/// The positions of `scores` in leaderboard order.
pub fn rank_scores(scores: &Vec<isize>) -> (order: Vec<usize>)
    ensures
        is_ranking(scores@, order@),
{
    let n = scores.len();
    let mut order: Vec<usize> = Vec::new();
    let mut i: usize = 0;
    while i < n
        invariant
            n == scores.len(),
            i <= n,
            order.len() == i,
            forall|k: int| 0 <= k < order.len() ==> #[trigger] order[k] < i,
            forall|x: int| 0 <= x < i ==> #[trigger] order@.contains(x as usize),
            forall|a: int, b: int|
                0 <= a < b < order.len() ==> ranks_before(
                    scores@,
                    #[trigger] order[a] as int,
                    #[trigger] order[b] as int,
                ),
        decreases n - i,
    {
        let mut p: usize = 0;
        while p < order.len() && scores[order[p]] > scores[i]
            invariant
                n == scores.len(),
                i < n,
                p <= order.len(),
                forall|k: int| 0 <= k < order.len() ==> #[trigger] order[k] < i,
                forall|q: int| 0 <= q < p ==> scores@[#[trigger] order[q] as int] > scores@[i as int],
            decreases order.len() - p,
        {
            p = p + 1;
        }
        let ghost old_order = order@;
        order.insert(p, i);
        proof {
            let o = order@;
            assert(forall|k: int| 0 <= k < p ==> o[k] == old_order[k]);
            assert(forall|k: int| p < k < o.len() ==> o[k] == old_order[k - 1]);
            assert(o[p as int] == i);
            // The scores after `p` are no higher than that of `i`.
            assert forall|k: int| p < k < o.len() implies scores@[#[trigger] o[k] as int]
                <= scores@[i as int] by {
                assert(o[k] == old_order[k - 1]);
                if k - 1 > p {
                    assert(ranks_before(scores@, old_order[p as int] as int, old_order[k - 1] as int));
                }
            }
            assert forall|k: int| 0 <= k < o.len() implies #[trigger] o[k] < i + 1 by {
                if k < p {
                    assert(o[k] == old_order[k]);
                } else if k > p {
                    assert(o[k] == old_order[k - 1]);
                }
            }
            assert forall|x: int| 0 <= x < i + 1 implies #[trigger] o.contains(x as usize) by {
                if x == i {
                    assert(o[p as int] == x as usize);
                } else {
                    assert(old_order.contains(x as usize));
                    let q = choose|q: int| 0 <= q < old_order.len() && old_order[q] == x as usize;
                    if q < p {
                        assert(o[q] == x as usize);
                    } else {
                        assert(o[q + 1] == x as usize);
                    }
                }
            }
            assert forall|a: int, b: int| 0 <= a < b < o.len() implies ranks_before(
                scores@,
                #[trigger] o[a] as int,
                #[trigger] o[b] as int,
            ) by {
                if b < p {
                    assert(o[a] == old_order[a] && o[b] == old_order[b]);
                } else if b == p {
                    assert(o[a] == old_order[a]);
                } else if a < p {
                    assert(o[a] == old_order[a] && o[b] == old_order[b - 1]);
                } else if a == p {
                    assert(o[b] == old_order[b - 1]);
                    assert(old_order[b - 1] < i);
                } else {
                    assert(o[a] == old_order[a - 1] && o[b] == old_order[b - 1]);
                }
            }
        }
        i = i + 1;
    }
    order
}

/// A user on the leaderboard: how the message shows them (none where the
/// user could not be fetched) and their score.
#[derive(Debug, PartialEq, Eq)]
pub struct LeaderboardEntry {
    pub user: Option<String>,
    pub score: isize,
}

pub open spec fn shown_user(e: LeaderboardEntry) -> Seq<char> {
    match e.user {
        Some(u) => u@,
        None => "Unknown"@,
    }
}

pub open spec fn entry_scores(entries: Seq<LeaderboardEntry>) -> Seq<isize> {
    entries.map_values(|e: LeaderboardEntry| e.score)
}

/// The line of the user at `position` (counted from 1).
pub open spec fn leaderboard_line(position: nat, user: Seq<char>, score: int) -> Seq<char> {
    spec_decimal(position) + ") "@ + user + " – **"@ + spec_signed_decimal(score) + "** points\n"@
}

/// The lines of the first `count` users of `order`.
pub open spec fn leaderboard_text(entries: Seq<LeaderboardEntry>, order: Seq<usize>, count: nat) -> Seq<
    char,
>
    decreases count,
{
    if count == 0 {
        Seq::empty()
    } else {
        let e = entries[order[count - 1] as int];
        leaderboard_text(entries, order, (count - 1) as nat) + leaderboard_line(
            count,
            shown_user(e),
            e.score as int,
        )
    }
}

pub open spec fn str_view(arg: Option<&str>) -> Option<Seq<char>> {
    match arg {
        Some(s) => Some(s@),
        None => None,
    }
}

/// How many users the leaderboard shows: the argument read as a `usize`,
/// or 10 where there is none or it is no such number.
pub open spec fn spec_limit(arg: Option<Seq<char>>) -> nat {
    match arg {
        Some(s) => match spec_parse_usize(s) {
            Ok(v) => v as nat,
            Err(_) => 10,
        },
        None => 10,
    }
}

pub open spec fn shown_count(n: nat, limit: nat) -> nat {
    if limit < n {
        limit
    } else {
        n
    }
}

/// How many users the leaderboard shows, from its argument.
pub fn leaderboard_limit(arg: Option<&str>) -> (limit: usize)
    ensures
        limit as nat == spec_limit(str_view(arg)),
{
    match arg {
        Some(s) => match parse_usize(s) {
            Ok(v) => v,
            Err(_) => 10,
        },
        None => 10,
    }
}

fn append_line(out: &mut String, position: usize, entry: &LeaderboardEntry)
    ensures
        final(out)@ == old(out)@ + leaderboard_line(
            position as nat,
            shown_user(*entry),
            entry.score as int,
        ),
{
    let number = format_usize(position);
    out.append(number.as_str());
    out.append(") ");
    match &entry.user {
        Some(u) => out.append(u.as_str()),
        None => out.append("Unknown"),
    }
    out.append(" – **");
    let score = format_isize(entry.score);
    out.append(score.as_str());
    out.append("** points\n");
    assert(final(out)@ =~= old(out)@ + leaderboard_line(
        position as nat,
        shown_user(*entry),
        entry.score as int,
    ));
}

/// The text of the leaderboard: one line per user, in leaderboard order,
/// for as many users as the argument asks (10 by default).
pub fn leaderboard(entries: &Vec<LeaderboardEntry>, limit_arg: Option<&str>) -> (text: String)
    ensures
        exists|order: Seq<usize>|
            is_ranking(entry_scores(entries@), order) && text@ == leaderboard_text(
                entries@,
                order,
                shown_count(entries@.len(), spec_limit(str_view(limit_arg))),
            ),
{
    let mut scores: Vec<isize> = Vec::new();
    let mut i: usize = 0;
    while i < entries.len()
        invariant
            i <= entries.len(),
            scores@ =~= entry_scores(entries@).take(i as int),
        decreases entries.len() - i,
    {
        scores.push(entries[i].score);
        i = i + 1;
    }
    assert(scores@ =~= entry_scores(entries@));
    let order = rank_scores(&scores);
    let limit = leaderboard_limit(limit_arg);
    let count = if limit < entries.len() {
        limit
    } else {
        entries.len()
    };
    let mut text = String::new();
    let mut k: usize = 0;
    while k < count
        invariant
            k <= count <= entries.len(),
            order.len() == entries.len(),
            forall|j: int| 0 <= j < order.len() ==> #[trigger] order[j] < entries.len(),
            text@ == leaderboard_text(entries@, order@, k as nat),
        decreases count - k,
    {
        append_line(&mut text, k + 1, &entries[order[k]]);
        k = k + 1;
    }
    text
}

/// The users of the leaderboard: the id of each row read as a `u64`, or the
/// error of the first row whose id is no such number.
pub fn leaderboard_user_ids(scores: &Vec<Score>) -> (r: Result<Vec<u64>, ParseIntError>)
    ensures
        match r {
            Ok(ids) => ids.len() == scores.len() && forall|i: int|
                0 <= i < scores.len() ==> spec_parse_u64(#[trigger] scores@[i].id@) == Ok::<
                    int,
                    ParseIntError,
                >(ids@[i] as int),
            Err(e) => exists|k: int|
                0 <= k < scores.len() && (forall|j: int|
                    0 <= j < k ==> spec_parse_u64(#[trigger] scores@[j].id@) is Ok)
                    && spec_parse_u64(scores@[k].id@) == Err::<int, ParseIntError>(e),
        },
{
    let mut ids: Vec<u64> = Vec::new();
    let mut i: usize = 0;
    while i < scores.len()
        invariant
            i <= scores.len(),
            ids.len() == i,
            forall|j: int|
                0 <= j < i ==> spec_parse_u64(#[trigger] scores@[j].id@) == Ok::<
                    int,
                    ParseIntError,
                >(ids@[j] as int),
        decreases scores.len() - i,
    {
        match parse_u64(scores[i].id.as_str()) {
            Ok(v) => ids.push(v),
            Err(e) => {
                assert(forall|j: int| 0 <= j < i ==> spec_parse_u64(#[trigger] scores@[j].id@) is Ok);
                return Err(e);
            },
        }
        i = i + 1;
    }
    Ok(ids)
}

/// Why `set` or `add` refused to run.
#[derive(Debug, Clone, Copy, PartialEq, Eq, Structural)]
pub enum CommandError {
    /// The author has neither of the two roles.
    NotAllowed,
    /// The first argument is not a user.
    InvalidUser,
    /// The second argument is not an integer.
    InvalidScore,
}

impl CommandError {
    pub open spec fn spec_message(self) -> Seq<char> {
        match self {
            CommandError::NotAllowed => "You do not have the right to use this command. It is reserved to Crémeux's members"@,
            CommandError::InvalidUser => "The first argument must be a valid user"@,
            CommandError::InvalidScore => "The score must be an integer"@,
        }
    }

    /// The text that the bot answers with.
    pub fn message(&self) -> (s: String)
        ensures
            s@ == self.spec_message(),
    {
        match self {
            CommandError::NotAllowed => String::from_str(
                "You do not have the right to use this command. It is reserved to Crémeux's members",
            ),
            CommandError::InvalidUser => String::from_str("The first argument must be a valid user"),
            CommandError::InvalidScore => String::from_str("The score must be an integer"),
        }
    }
}

/// Whether the author may change scores: they have the Crémeux role or the
/// Crémissime one.
pub fn has_admin_role(has_cremeux: bool, has_cremissime: bool) -> (b: bool)
    ensures
        b == (has_cremeux || has_cremissime),
{
    has_cremeux || has_cremissime
}

/// The user arguments on which serenity's `UserId::from_str` panics: a
/// mention whose last character is not ASCII, which it cuts inside that
/// character.
pub open spec fn user_arg_panics(s: Seq<char>) -> bool {
    s.len() >= 3 && s[0] == '<' && s[1] == '@' && s[s.len() - 1] as int > 127
}

/// The id inside a mention `<@id>` or `<@!id>` (its last character is not
/// looked at).
pub open spec fn mention_inner(s: Seq<char>) -> Option<Seq<char>> {
    if s.len() >= 4 && s[0] == '<' && s[1] == '@' {
        if s[2] == '!' {
            Some(s.subrange(3, s.len() - 1))
        } else {
            Some(s.subrange(2, s.len() - 1))
        }
    } else {
        None
    }
}

/// The user that an argument names: the id in a mention, or else the
/// argument read as a `u64`.
pub open spec fn spec_user_arg(s: Seq<char>) -> Option<int> {
    let plain = match spec_parse_u64(s) {
        Ok(v) => Some(v),
        Err(_) => None,
    };
    match mention_inner(s) {
        Some(inner) => match spec_parse_u64(inner) {
            Ok(v) => Some(v),
            Err(_) => plain,
        },
        None => plain,
    }
}

/// Reads a user argument with serenity's `UserId::from_str`, which takes a
/// mention (`<@id>`, `<@!id>`) or a bare id; this states that it reads the
/// id as `spec_user_arg` says, with std's `u64` parsing.
#[verifier::external_body]
fn parse_user_argument(s: &str) -> (r: Option<u64>)
    requires
        !user_arg_panics(s@),
    ensures
        match spec_user_arg(s@) {
            Some(v) => r == Some(v as u64),
            None => r is None,
        },
{
    s.parse::<serenity::model::id::UserId>().ok().map(|id| id.0)
}

/// Whether serenity reads `arg` as a user without panicking.
pub fn user_arg_supported(arg: &str) -> (ok: bool)
    ensures
        ok == !user_arg_panics(arg@),
{
    let n = arg.unicode_len();
    if n < 3 {
        return true;
    }
    let last = arg.get_char(n - 1);
    !(arg.get_char(0) == '<' && arg.get_char(1) == '@' && (last as u32) > 127)
}

/// The user whose score the `score` command shows: the one its argument
/// names, or else the author.
pub fn score_target(user_arg: Option<&str>, author: u64) -> (user: u64)
    requires
        user_arg matches Some(a) ==> !user_arg_panics(a@),
    ensures
        user as int == match user_arg {
            Some(a) => match spec_user_arg(a@) {
                Some(v) => v,
                None => author as int,
            },
            None => author as int,
        },
{
    match user_arg {
        Some(a) => match parse_user_argument(a) {
            Some(v) => v,
            None => author,
        },
        None => author,
    }
}

/// What the `score` command shows of user `user_id`: the score of their
/// first row, or 0.
pub fn score(scores: &Vec<Score>, user_id: u64) -> (points: isize)
    ensures
        points as int == lookup_score(scores@, spec_decimal(user_id as nat)),
{
    score_of(scores, user_id)
}

/// The outcome of `set` (`add` false) or `add` (`add` true): the checks are
/// made in this order, the role, the user argument, the score argument.
pub open spec fn spec_admin_command(
    allowed: bool,
    user_arg: Option<Seq<char>>,
    score_arg: Option<Seq<char>>,
    add: bool,
) -> Result<(u64, ScoreChange), CommandError> {
    if !allowed {
        Err(CommandError::NotAllowed)
    } else {
        let user = match user_arg {
            Some(a) => spec_user_arg(a),
            None => None,
        };
        match user {
            None => Err(CommandError::InvalidUser),
            Some(u) => match score_arg {
                Some(s) => match spec_parse_isize(s) {
                    Ok(v) => Ok(
                        (
                            u as u64,
                            if add {
                                ScoreChange::Add(v as isize)
                            } else {
                                ScoreChange::SetTo(v as isize)
                            },
                        ),
                    ),
                    Err(_) => Err(CommandError::InvalidScore),
                },
                None => Err(CommandError::InvalidScore),
            },
        }
    }
}

fn admin_command(
    has_cremeux: bool,
    has_cremissime: bool,
    user_arg: Option<&str>,
    score_arg: Option<&str>,
    add: bool,
) -> (r: Result<(u64, ScoreChange), CommandError>)
    requires
        has_cremeux || has_cremissime ==> (user_arg matches Some(a) ==> !user_arg_panics(a@)),
    ensures
        r == spec_admin_command(
            has_cremeux || has_cremissime,
            str_view(user_arg),
            str_view(score_arg),
            add,
        ),
{
    if !has_admin_role(has_cremeux, has_cremissime) {
        return Err(CommandError::NotAllowed);
    }
    let user = match user_arg {
        Some(a) => parse_user_argument(a),
        None => None,
    };
    let user = match user {
        Some(u) => u,
        None => {
            return Err(CommandError::InvalidUser);
        },
    };
    let value = match score_arg {
        Some(s) => match parse_isize(s) {
            Ok(v) => v,
            Err(_) => {
                return Err(CommandError::InvalidScore);
            },
        },
        None => {
            return Err(CommandError::InvalidScore);
        },
    };
    if add {
        Ok((user, ScoreChange::Add(value)))
    } else {
        Ok((user, ScoreChange::SetTo(value)))
    }
}

/// The `set` command: who may run it, whose score it sets, and to what.
pub fn set(has_cremeux: bool, has_cremissime: bool, user_arg: Option<&str>, score_arg: Option<&str>) -> (r:
    Result<(u64, ScoreChange), CommandError>)
    requires
        has_cremeux || has_cremissime ==> (user_arg matches Some(a) ==> !user_arg_panics(a@)),
    ensures
        r == spec_admin_command(
            has_cremeux || has_cremissime,
            str_view(user_arg),
            str_view(score_arg),
            false,
        ),
{
    admin_command(has_cremeux, has_cremissime, user_arg, score_arg, false)
}

/// The `add` command: who may run it, whose score it raises, and by what.
pub fn add(has_cremeux: bool, has_cremissime: bool, user_arg: Option<&str>, score_arg: Option<&str>) -> (r:
    Result<(u64, ScoreChange), CommandError>)
    requires
        has_cremeux || has_cremissime ==> (user_arg matches Some(a) ==> !user_arg_panics(a@)),
    ensures
        r == spec_admin_command(
            has_cremeux || has_cremissime,
            str_view(user_arg),
            str_view(score_arg),
            true,
        ),
{
    admin_command(has_cremeux, has_cremissime, user_arg, score_arg, true)
}

/// The text of a balance: `<points> points`.
pub fn balance_text(points: isize) -> (text: String)
    ensures
        text@ == spec_signed_decimal(points as int) + " points"@,
{
    let mut text = format_isize(points);
    text.append(" points");
    text
}

/// The leaderboard shows as many users as its argument asks, where the
/// argument reads as a `usize` n: n lines, or one per user where there are
/// fewer users.
pub proof fn law_limit_is_the_requested_count(s: Seq<char>, n: usize, users: nat)
    requires
        spec_parse_usize(s) == Ok::<int, ParseIntError>(n as int),
    ensures
        spec_limit(Some(s)) == n as nat,
        shown_count(users, spec_limit(Some(s))) == if (n as nat) < users {
            n as nat
        } else {
            users
        },
{
}

/// The decimal text of any `usize` n asks for n users; no argument asks for
/// ten.
pub proof fn law_limit_of_a_number(n: usize)
    ensures
        spec_limit(Some(spec_decimal(n as nat))) == n as nat,
        spec_limit(None) == 10,
{
    lemma_parse_format_usize(n);
}

/// `set` and `add` act on the user that the argument names and by the
/// amount that the score argument reads as, whatever its sign: `add` adds
/// it, `set` makes it the score.
pub proof fn law_admin_command_uses_its_arguments(a: Seq<char>, s: Seq<char>, id: u64, v: isize)
    requires
        spec_user_arg(a) == Some(id as int),
        spec_parse_isize(s) == Ok::<int, ParseIntError>(v as int),
    ensures
        spec_admin_command(true, Some(a), Some(s), true) == Ok::<
            (u64, ScoreChange),
            CommandError,
        >((id, ScoreChange::Add(v))),
        spec_admin_command(true, Some(a), Some(s), false) == Ok::<
            (u64, ScoreChange),
            CommandError,
        >((id, ScoreChange::SetTo(v))),
{
}

/// `set` and `add` refuse an author without the roles, then a missing or
/// unreadable user, then a missing or unreadable score.
pub proof fn law_admin_command_refusals(
    user_arg: Option<Seq<char>>,
    score_arg: Option<Seq<char>>,
    add: bool,
)
    ensures
        spec_admin_command(false, user_arg, score_arg, add) == Err::<(u64, ScoreChange), CommandError>(
            CommandError::NotAllowed,
        ),
        (user_arg is None || spec_user_arg(user_arg->0) is None) ==> spec_admin_command(
            true,
            user_arg,
            score_arg,
            add,
        ) == Err::<(u64, ScoreChange), CommandError>(CommandError::InvalidUser),
        (user_arg is Some && spec_user_arg(user_arg->0) is Some && (score_arg is None
            || spec_parse_isize(score_arg->0) is Err)) ==> spec_admin_command(
            true,
            user_arg,
            score_arg,
            add,
        ) == Err::<(u64, ScoreChange), CommandError>(CommandError::InvalidScore),
{
}

/// A mention `<@id>` or `<@!id>`, or the bare decimal id, names the user
/// with that id, whatever the id; serenity reads all three without
/// panicking.
pub proof fn law_mention_names_the_user(id: u64)
    ensures
        spec_user_arg(seq!['<', '@'] + spec_decimal(id as nat) + seq!['>']) == Some(id as int),
        spec_user_arg(seq!['<', '@', '!'] + spec_decimal(id as nat) + seq!['>']) == Some(id as int),
        spec_user_arg(spec_decimal(id as nat)) == Some(id as int),
        !user_arg_panics(seq!['<', '@'] + spec_decimal(id as nat) + seq!['>']),
        !user_arg_panics(seq!['<', '@', '!'] + spec_decimal(id as nat) + seq!['>']),
        !user_arg_panics(spec_decimal(id as nat)),
{
    let d = spec_decimal(id as nat);
    lemma_decimal_is_digits(id as nat);
    lemma_parse_format_u64(id);
    let m = seq!['<', '@'] + d + seq!['>'];
    assert(m[2] == d[0]);
    assert(m.subrange(2, m.len() - 1) =~= d);
    assert(mention_inner(m) == Some(d));
    let b = seq!['<', '@', '!'] + d + seq!['>'];
    assert(b.subrange(3, b.len() - 1) =~= d);
    assert(mention_inner(b) == Some(d));
    assert(is_digit_char(d[0]));
    assert(mention_inner(d) is None);
    assert(d[d.len() - 1] as int <= 127) by {
        assert(crate::decimal::is_digit(d[d.len() - 1]));
    }
}

spec fn is_digit_char(c: char) -> bool {
    crate::decimal::is_digit(c)
}

/// In a leaderboard order a higher score comes first, and of two equal
/// scores the one from the later row.
pub proof fn law_ranking_puts_higher_scores_first(
    scores: Seq<isize>,
    order: Seq<usize>,
    a: int,
    b: int,
)
    requires
        is_ranking(scores, order),
        0 <= a < b < order.len(),
    ensures
        scores[order[a] as int] >= scores[order[b] as int],
        scores[order[a] as int] == scores[order[b] as int] ==> order[a] > order[b],
{
    assert(ranks_before(scores, order[a] as int, order[b] as int));
}

/// An argument that is no `usize` leaves the leaderboard at ten users.
pub proof fn law_limit_defaults_on_other_arguments(s: Seq<char>)
    requires
        spec_parse_usize(s) is Err,
    ensures
        spec_limit(Some(s)) == 10,
{
}

/// Each line of the leaderboard is the position, `) `, the user (or
/// `Unknown`), ` – **`, the score and `** points`, and asking for more users
/// only adds lines after those of fewer: the text for `k` users is the start
/// of the text for `count` users, followed by the line of position `k + 1`.
pub proof fn law_leaderboard_lines(
    entries: Seq<LeaderboardEntry>,
    order: Seq<usize>,
    k: nat,
    count: nat,
)
    requires
        k < count,
    ensures
        leaderboard_line((k + 1) as nat, shown_user(entries[order[k as int] as int]), entries[order[k as int] as int].score as int)
            == spec_decimal((k + 1) as nat) + ") "@ + shown_user(entries[order[k as int] as int]) + " – **"@
            + spec_signed_decimal(entries[order[k as int] as int].score as int) + "** points\n"@,
        shown_user(entries[order[k as int] as int]) == match entries[order[k as int] as int].user {
            Some(u) => u@,
            None => "Unknown"@,
        },
        (leaderboard_text(entries, order, k) + leaderboard_line(
            (k + 1) as nat,
            shown_user(entries[order[k as int] as int]),
            entries[order[k as int] as int].score as int,
        )).len() <= leaderboard_text(entries, order, count).len(),
        leaderboard_text(entries, order, count).subrange(
            0,
            (leaderboard_text(entries, order, k) + leaderboard_line(
                (k + 1) as nat,
                shown_user(entries[order[k as int] as int]),
                entries[order[k as int] as int].score as int,
            )).len() as int,
        ) == leaderboard_text(entries, order, k) + leaderboard_line(
            (k + 1) as nat,
            shown_user(entries[order[k as int] as int]),
            entries[order[k as int] as int].score as int,
        ),
    decreases count,
{
    let prefix = leaderboard_text(entries, order, k) + leaderboard_line(
        (k + 1) as nat,
        shown_user(entries[order[k as int] as int]),
        entries[order[k as int] as int].score as int,
    );
    if count == k + 1 {
        assert(leaderboard_text(entries, order, count) == prefix);
        assert(prefix.subrange(0, prefix.len() as int) =~= prefix);
    } else {
        law_leaderboard_lines(entries, order, k, (count - 1) as nat);
        let shorter = leaderboard_text(entries, order, (count - 1) as nat);
        let whole = leaderboard_text(entries, order, count);
        assert(whole.subrange(0, shorter.len() as int) =~= shorter);
        assert(shorter.len() >= prefix.len());
        assert(whole.subrange(0, prefix.len() as int) =~= shorter.subrange(0, prefix.len() as int));
    }
}

/// A user argument that does not start with `<` names the user whose id it
/// reads as; one that starts with `<` names a user only as a mention with
/// an id inside.
pub proof fn law_user_arg_forms(s: Seq<char>)
    ensures
        (s.len() == 0 || s[0] != '<') ==> spec_user_arg(s) == match spec_parse_u64(s) {
            Ok(v) => Some(v),
            Err(_) => None,
        },
        (s.len() > 0 && s[0] == '<') ==> (spec_user_arg(s) is Some <==> (mention_inner(s) is Some
            && spec_parse_u64(mention_inner(s)->0) is Ok)),
{
    crate::decimal::law_parse_reads_digits_only(s, 0, u64::MAX as int);
}

proof fn lemma_rankings_agree_below(scores: Seq<isize>, o1: Seq<usize>, o2: Seq<usize>, k: int)
    requires
        is_ranking(scores, o1),
        is_ranking(scores, o2),
        0 <= k <= o1.len(),
    ensures
        forall|j: int| 0 <= j < k ==> o1[j] == o2[j],
    decreases k,
{
    if k > 0 {
        let m = k - 1;
        lemma_rankings_agree_below(scores, o1, o2, m);
        let x = o1[m];
        let y = o2[m];
        if x != y {
            assert(o1[m] < scores.len() && o2[m] < scores.len());
            assert(o1.contains((y as int) as usize));
            let q = choose|q: int| 0 <= q < o1.len() && o1[q] == y;
            if q < m {
                assert(o2[q] == y);
                assert(ranks_before(scores, o2[q] as int, o2[m] as int));
            }
            assert(q > m);
            assert(ranks_before(scores, o1[m] as int, o1[q] as int));
            assert(o2.contains((x as int) as usize));
            let r = choose|r: int| 0 <= r < o2.len() && o2[r] == x;
            if r < m {
                assert(o1[r] == x);
                assert(ranks_before(scores, o1[r] as int, o1[m] as int));
            }
            assert(r > m);
            assert(ranks_before(scores, o2[m] as int, o2[r] as int));
        }
    }
}

/// There is one leaderboard order of a list of scores: two orders that both
/// list every position once, higher scores first and of equal scores the
/// later row first, are the same.
pub proof fn law_ranking_is_unique(scores: Seq<isize>, o1: Seq<usize>, o2: Seq<usize>)
    requires
        is_ranking(scores, o1),
        is_ranking(scores, o2),
    ensures
        o1 == o2,
{
    lemma_rankings_agree_below(scores, o1, o2, o1.len() as int);
    assert(o1 =~= o2);
}

} // verus!
