//! The rows of the score table, how a user's row is found, and what a score
//! change writes to the table.

use vstd::prelude::*;

use crate::decimal::{format_u64, lemma_decimal_injective, spec_decimal};

verus! {

/// A row of the score table as the leaderboard reads it: the user's id in
/// decimal and the score.
#[derive(Debug, PartialEq, Eq)]
pub struct Score {
    pub id: String,
    pub score: isize,
}

/// A whole row of the score table: id, display name and score.
#[derive(Debug, PartialEq, Eq)]
pub struct CompleteScore {
    pub id: String,
    pub name: String,
    pub score: isize,
}

/// The position of the first key equal to `key`, looking from `start` on.
pub open spec fn first_index_from(ids: Seq<Seq<char>>, key: Seq<char>, start: int) -> Option<int>
    decreases ids.len() - start,
{
    if start < 0 || start >= ids.len() {
        None
    } else if ids[start] == key {
        Some(start)
    } else {
        first_index_from(ids, key, start + 1)
    }
}

/// The position of the first key equal to `key`.
pub open spec fn first_index(ids: Seq<Seq<char>>, key: Seq<char>) -> Option<int> {
    first_index_from(ids, key, 0)
}

pub open spec fn score_ids(rows: Seq<Score>) -> Seq<Seq<char>> {
    rows.map_values(|r: Score| r.id@)
}

pub open spec fn complete_ids(rows: Seq<CompleteScore>) -> Seq<Seq<char>> {
    rows.map_values(|r: CompleteScore| r.id@)
}

/// The score of the first row with id `key`, or 0 where no row has it.
pub open spec fn lookup_score(rows: Seq<Score>, key: Seq<char>) -> int {
    match first_index(score_ids(rows), key) {
        Some(i) => rows[i].score as int,
        None => 0,
    }
}

/// The same lookup on whole rows.
pub open spec fn current_score(rows: Seq<CompleteScore>, key: Seq<char>) -> int {
    match first_index(complete_ids(rows), key) {
        Some(i) => rows[i].score as int,
        None => 0,
    }
}

/// The rows as the leaderboard reads them: without the names.
pub open spec fn score_rows(rows: Seq<CompleteScore>) -> Seq<Score> {
    rows.map_values(|r: CompleteScore| Score { id: r.id, score: r.score })
}

/// How a command changes a user's score.
#[derive(Debug, Clone, Copy, PartialEq, Eq, Structural)]
pub enum ScoreChange {
    /// The score becomes this value.
    SetTo(isize),
    /// This value is added to the score.
    Add(isize),
}

impl ScoreChange {
    pub open spec fn applied(self, current: int) -> int {
        match self {
            ScoreChange::SetTo(v) => v as int,
            ScoreChange::Add(d) => current + d,
        }
    }

    /// Whether the changed score is an `isize`.
    pub open spec fn fits(self, current: int) -> bool {
        isize::MIN <= self.applied(current) <= isize::MAX
    }

    /// Whether the change can be made to `current` without overflow.
    pub fn can_apply(&self, current: isize) -> (b: bool)
        ensures
            b == self.fits(current as int),
    {
        match self {
            ScoreChange::SetTo(_) => true,
            ScoreChange::Add(d) => current.checked_add(*d).is_some(),
        }
    }

    /// The score after the change.
    pub fn apply(&self, current: isize) -> (r: isize)
        requires
            self.fits(current as int),
        ensures
            r as int == self.applied(current as int),
    {
        match self {
            ScoreChange::SetTo(v) => *v,
            ScoreChange::Add(d) => current + *d,
        }
    }
}

/// What a score change writes to the table: the row that the user has, to
/// be overwritten (`index`), or none, and then the row is added.
#[derive(Debug, PartialEq, Eq)]
pub struct ScoreWrite {
    pub index: Option<usize>,
    pub record: CompleteScore,
}

/// `w` is what changing the score of user `user_id`, named `user_name`, by
/// `change` writes to `rows`: the user's first row is overwritten, or a row
/// is added where the user has none; the row holds the user's id in decimal,
/// the name and the changed score (a missing row counts as score 0).
pub open spec fn is_score_update(
    rows: Seq<CompleteScore>,
    user_id: u64,
    user_name: Seq<char>,
    change: ScoreChange,
    w: ScoreWrite,
) -> bool {
    let key = spec_decimal(user_id as nat);
    &&& match first_index(complete_ids(rows), key) {
        Some(i) => w.index == Some(i as usize),
        None => w.index is None,
    }
    &&& w.record.id@ == key
    &&& w.record.name@ == user_name
    &&& w.record.score as int == change.applied(current_score(rows, key))
}

/// The table after the write.
pub open spec fn write_table(rows: Seq<CompleteScore>, w: ScoreWrite) -> Seq<CompleteScore> {
    match w.index {
        Some(i) => rows.update(i as int, w.record),
        None => rows.push(w.record),
    }
}

/// The position of the first row of `records` whose id is `key`.
fn find_complete(records: &Vec<CompleteScore>, key: &String) -> (r: Option<usize>)
    ensures
        match first_index(complete_ids(records@), key@) {
            Some(i) => 0 <= i < records.len() && r == Some(i as usize),
            None => r is None,
        },
{
    let ghost ids = complete_ids(records@);
    proof {
        lemma_first_index_found(ids, key@, 0);
    }
    let mut i: usize = 0;
    while i < records.len()
        invariant
            i <= records.len(),
            ids == complete_ids(records@),
            first_index(ids, key@) == first_index_from(ids, key@, i as int),
        decreases records.len() - i,
    {
        assert(ids[i as int] == records@[i as int].id@);
        if records[i].id == *key {
            return Some(i);
        }
        i = i + 1;
    }
    None
}

/// The position of the first row of `scores` whose id is `key`.
fn find_score(scores: &Vec<Score>, key: &String) -> (r: Option<usize>)
    ensures
        match first_index(score_ids(scores@), key@) {
            Some(i) => 0 <= i < scores.len() && r == Some(i as usize),
            None => r is None,
        },
{
    let ghost ids = score_ids(scores@);
    proof {
        lemma_first_index_found(ids, key@, 0);
    }
    let mut i: usize = 0;
    while i < scores.len()
        invariant
            i <= scores.len(),
            ids == score_ids(scores@),
            first_index(ids, key@) == first_index_from(ids, key@, i as int),
        decreases scores.len() - i,
    {
        assert(ids[i as int] == scores@[i as int].id@);
        if scores[i].id == *key {
            return Some(i);
        }
        i = i + 1;
    }
    None
}

/// The score of user `user_id` in the table: that of the first row with the
/// user's id in decimal, or 0 where there is none.
pub fn score_of(scores: &Vec<Score>, user_id: u64) -> (r: isize)
    ensures
        r as int == lookup_score(scores@, spec_decimal(user_id as nat)),
{
    let key = format_u64(user_id);
    match find_score(scores, &key) {
        Some(i) => scores[i].score,
        None => 0,
    }
}

/// The score of user `user_id` in the whole rows, as [`score_of`] reads it.
pub fn current_score_of(records: &Vec<CompleteScore>, user_id: u64) -> (r: isize)
    ensures
        r as int == current_score(records@, spec_decimal(user_id as nat)),
{
    let key = format_u64(user_id);
    match find_complete(records, &key) {
        Some(i) => records[i].score,
        None => 0,
    }
}

/// Changes the score of user `user_id`, named `user_name`, by `change`: the
/// row to write to the table, and the new score in it.
pub fn update_score(
    records: &Vec<CompleteScore>,
    user_id: u64,
    user_name: &String,
    change: &ScoreChange,
) -> (w: ScoreWrite)
    requires
        change.fits(current_score(records@, spec_decimal(user_id as nat))),
    ensures
        is_score_update(records@, user_id, user_name@, *change, w),
{
    let key = format_u64(user_id);
    match find_complete(records, &key) {
        Some(i) => {
            let score = change.apply(records[i].score);
            ScoreWrite {
                index: Some(i),
                record: CompleteScore { id: key, name: user_name.clone(), score },
            }
        },
        None => {
            let score = change.apply(0);
            ScoreWrite { index: None, record: CompleteScore { id: key, name: user_name.clone(), score } }
        },
    }
}

/// Rows that agree on which of them hold `key` give the same first position.
proof fn lemma_first_index_same_matches(
    a: Seq<Seq<char>>,
    b: Seq<Seq<char>>,
    key: Seq<char>,
    start: int,
)
    requires
        a.len() == b.len(),
        forall|j: int| 0 <= j < a.len() ==> (a[j] == key <==> b[j] == key),
    ensures
        first_index_from(a, key, start) == first_index_from(b, key, start),
    decreases a.len() - start,
{
    if 0 <= start < a.len() {
        lemma_first_index_same_matches(a, b, key, start + 1);
    }
}

/// Adding a key at the end changes the first position only where there was
/// none.
proof fn lemma_first_index_push(ids: Seq<Seq<char>>, x: Seq<char>, key: Seq<char>, start: int)
    requires
        0 <= start <= ids.len(),
    ensures
        first_index_from(ids.push(x), key, start) == match first_index_from(ids, key, start) {
            Some(i) => Some(i),
            None => if x == key {
                Some(ids.len() as int)
            } else {
                None
            },
        },
    decreases ids.len() - start,
{
    let p = ids.push(x);
    if start < ids.len() {
        assert(p[start] == ids[start]);
        lemma_first_index_push(ids, x, key, start + 1);
    } else {
        assert(p[start] == x);
        assert(first_index_from(p, key, start + 1) is None);
    }
}

/// A position found from `start` holds the key, and is at or after `start`.
proof fn lemma_first_index_found(ids: Seq<Seq<char>>, key: Seq<char>, start: int)
    ensures
        match first_index_from(ids, key, start) {
            Some(i) => start <= i < ids.len() && ids[i] == key,
            None => true,
        },
    decreases ids.len() - start,
{
    if 0 <= start < ids.len() && ids[start] != key {
        lemma_first_index_found(ids, key, start + 1);
    }
}

/// What the leaderboard reads of a user after a score change is the changed
/// score; what it reads of every other user is what it read before.
pub proof fn law_score_change_is_read_back(
    rows: Seq<CompleteScore>,
    user_id: u64,
    user_name: Seq<char>,
    change: ScoreChange,
    w: ScoreWrite,
    other_id: u64,
)
    requires
        rows.len() <= usize::MAX,
        is_score_update(rows, user_id, user_name, change, w),
    ensures
        lookup_score(score_rows(write_table(rows, w)), spec_decimal(user_id as nat)) == change.applied(
            current_score(rows, spec_decimal(user_id as nat)),
        ),
        other_id != user_id ==> lookup_score(
            score_rows(write_table(rows, w)),
            spec_decimal(other_id as nat),
        ) == lookup_score(score_rows(rows), spec_decimal(other_id as nat)),
{
    let key = spec_decimal(user_id as nat);
    let okey = spec_decimal(other_id as nat);
    let after = write_table(rows, w);
    lemma_decimal_injective(user_id as nat, other_id as nat);
    assert(score_ids(score_rows(after)) =~= complete_ids(after));
    assert(score_ids(score_rows(rows)) =~= complete_ids(rows));
    let ids = complete_ids(rows);
    let new_ids = complete_ids(after);
    lemma_first_index_found(ids, key, 0);
    match w.index {
        Some(i) => {
            assert(new_ids =~= ids.update(i as int, key));
            match first_index(ids, key) {
                Some(f) => {
                    assert(i as int == f);
                },
                None => {
                    assert(false);
                },
            }
            assert(ids[i as int] == key);
            assert forall|j: int| 0 <= j < ids.len() implies (ids[j] == key <==> new_ids[j]
                == key) by {
                if j != i {
                    assert(new_ids[j] == ids[j]);
                }
            }
            lemma_first_index_same_matches(ids, new_ids, key, 0);
            if other_id != user_id {
                assert forall|j: int| 0 <= j < ids.len() implies (ids[j] == okey <==> new_ids[j]
                    == okey) by {
                    if j != i {
                        assert(new_ids[j] == ids[j]);
                    }
                }
                lemma_first_index_same_matches(ids, new_ids, okey, 0);
                lemma_first_index_found(ids, okey, 0);
            }
        },
        None => {
            assert(new_ids =~= ids.push(key));
            lemma_first_index_push(ids, key, key, 0);
            if other_id != user_id {
                lemma_first_index_push(ids, key, okey, 0);
                lemma_first_index_found(ids, okey, 0);
            }
        },
    }
}

/// The score that a change starts from is the score that the `score`
/// command and the leaderboard show: both read the first row of the user.
pub proof fn law_changes_start_from_the_shown_score(rows: Seq<CompleteScore>, key: Seq<char>)
    ensures
        lookup_score(score_rows(rows), key) == current_score(rows, key),
{
    assert(score_ids(score_rows(rows)) =~= complete_ids(rows));
    lemma_first_index_found(complete_ids(rows), key, 0);
}

/// Adding `d` points gives the old score plus `d`; setting to `v` gives `v`
/// whatever the old score; an addition can be made exactly when the sum is
/// an `isize`, a setting always.
pub proof fn law_score_change_arithmetic(current: int, d: isize, v: isize)
    ensures
        ScoreChange::Add(d).applied(current) == current + d,
        ScoreChange::SetTo(v).applied(current) == v as int,
        ScoreChange::Add(d).fits(current) <==> (isize::MIN <= current + d <= isize::MAX),
        isize::MIN <= current <= isize::MAX ==> ScoreChange::SetTo(v).fits(current),
{
}

/// The score that a change writes is the user's current score plus the
/// points added, or the value set.
pub proof fn law_update_writes_the_changed_score(
    rows: Seq<CompleteScore>,
    user_id: u64,
    user_name: Seq<char>,
    change: ScoreChange,
    w: ScoreWrite,
)
    requires
        is_score_update(rows, user_id, user_name, change, w),
    ensures
        change matches ScoreChange::Add(d) ==> w.record.score as int == current_score(
            rows,
            spec_decimal(user_id as nat),
        ) + d,
        change matches ScoreChange::SetTo(v) ==> w.record.score == v,
        w.record.id@ == spec_decimal(user_id as nat),
        w.record.name@ == user_name,
{
}

/// The first position of a key is one that holds it with none before it
/// holding it; there is none where no position holds it.
proof fn lemma_first_index_is_first(ids: Seq<Seq<char>>, key: Seq<char>, start: int)
    requires
        0 <= start,
    ensures
        match first_index_from(ids, key, start) {
            Some(i) => start <= i < ids.len() && ids[i] == key && forall|j: int|
                start <= j < i ==> ids[j] != key,
            None => forall|j: int| start <= j < ids.len() ==> ids[j] != key,
        },
    decreases ids.len() - start,
{
    if start < ids.len() && ids[start] != key {
        lemma_first_index_is_first(ids, key, start + 1);
    }
}

/// The score read of a user is that of the first row with the user's id,
/// and 0 where no row has it.
pub proof fn law_lookup_reads_the_first_row(rows: Seq<Score>, key: Seq<char>, i: int)
    ensures
        (0 <= i < rows.len() && rows[i].id@ == key && forall|j: int|
            0 <= j < i ==> #[trigger] rows[j].id@ != key) ==> lookup_score(rows, key)
            == rows[i].score,
        (forall|j: int| 0 <= j < rows.len() ==> #[trigger] rows[j].id@ != key) ==> lookup_score(
            rows,
            key,
        ) == 0,
{
    let ids = score_ids(rows);
    lemma_first_index_is_first(ids, key, 0);
    assert(forall|j: int| 0 <= j < rows.len() ==> ids[j] == #[trigger] rows[j].id@);
    match first_index(ids, key) {
        Some(f) => {
            if 0 <= i < rows.len() && rows[i].id@ == key && forall|j: int|
                0 <= j < i ==> #[trigger] rows[j].id@ != key {
                if f < i {
                    assert(ids[f] == key);
                } else if f > i {
                    assert(ids[i] == key);
                }
            }
            assert(ids[f] == key);
        },
        None => {
        },
    }
}

/// A change overwrites the first row with the user's id, or adds a row
/// where no row has it.
pub proof fn law_update_targets_the_first_row(
    rows: Seq<CompleteScore>,
    user_id: u64,
    user_name: Seq<char>,
    change: ScoreChange,
    w: ScoreWrite,
)
    requires
        rows.len() <= usize::MAX,
        is_score_update(rows, user_id, user_name, change, w),
    ensures
        w.index matches Some(i) ==> i < rows.len() && rows[i as int].id@ == spec_decimal(
            user_id as nat,
        ) && forall|j: int| 0 <= j < i ==> #[trigger] rows[j].id@ != spec_decimal(user_id as nat),
        w.index is None ==> forall|j: int|
            0 <= j < rows.len() ==> #[trigger] rows[j].id@ != spec_decimal(user_id as nat),
{
    let key = spec_decimal(user_id as nat);
    let ids = complete_ids(rows);
    lemma_first_index_is_first(ids, key, 0);
    assert(forall|j: int| 0 <= j < rows.len() ==> ids[j] == #[trigger] rows[j].id@);
    match first_index(ids, key) {
        Some(f) => {
            assert(w.index == Some(f as usize));
            assert(ids[f] == key);
        },
        None => {
        },
    }
}

} // verus!
