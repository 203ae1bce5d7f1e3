//! From the server's replies to what the infoview shows.
use vstd::prelude::*;
use crate::editor::SourceContext;
use crate::goals::{
    interactive_goal_rank, interactive_goal_score, interactive_term_goal_rank,
    interactive_term_goal_score, plain_goal_rank, plain_goal_score, plain_term_goal_rank,
    plain_term_goal_score,
};
use crate::payload::{build_rendered_payload, shown, Shown};
use crate::protocol::{
    Diagnostic, InteractiveGoal, InteractiveGoalsResult, PlainGoalResult, PlainTermGoalResult, Range,
};
use crate::state::{RefreshPayload, Refreshed, RpcSession};
use crate::views::viewed;

verus! {

/// Whether the reply at `m` tells something, none tells more, and none before it tells as much.
pub open spec fn is_first_best(ranks: Seq<int>, m: int) -> bool {
    &&& 0 <= m < ranks.len()
    &&& ranks[m] > 0
    &&& forall|k: int| 0 <= k < m ==> (#[trigger] ranks[k]) < ranks[m]
    &&& forall|k: int| m < k < ranks.len() ==> (#[trigger] ranks[k]) <= ranks[m]
}

/// The first of the replies that tell the most, where any tells something.
pub open spec fn best_reply<T>(replies: Seq<Option<T>>, ranks: Seq<int>) -> Option<T> {
    if exists|m: int| is_first_best(ranks, m) {
        replies[choose|m: int| is_first_best(ranks, m)]
    } else {
        None
    }
}

/// At most one reply is the best.
proof fn lemma_first_best_is_unique(ranks: Seq<int>, m: int, n: int)
    requires
        is_first_best(ranks, m),
        is_first_best(ranks, n),
    ensures
        m == n,
{
    if m < n {
        assert(ranks[m] < ranks[n]);
    } else if n < m {
        assert(ranks[n] < ranks[m]);
    }
}

/// The place of the best score.
fn first_best(scores: &Vec<u8>) -> (found: Option<usize>)
    ensures
        match found {
            Some(m) => is_first_best(scores@.map_values(|score: u8| score as int), m as int),
            None => forall|k: int| 0 <= k < scores@.len() ==> #[trigger] scores@[k] == 0,
        },
{
    let ghost ranks = scores@.map_values(|score: u8| score as int);
    let mut found: Option<usize> = None;
    let mut top: u8 = 0;
    let mut i: usize = 0;
    while i < scores.len()
        invariant
            i <= scores@.len(),
            ranks == scores@.map_values(|score: u8| score as int),
            found is None ==> top == 0,
            found is Some ==> is_first_best(ranks.take(i as int), found->0 as int) && top
                == scores@[found->0 as int],
            forall|k: int| 0 <= k < i ==> #[trigger] scores@[k] <= top,
        decreases scores@.len() - i,
    {
        let ghost before = ranks.take(i as int);
        let ghost after = ranks.take(i + 1);
        assert(after =~= before.push(ranks[i as int]));
        if scores[i] > top {
            found = Some(i);
            top = scores[i];
            assert forall|k: int| 0 <= k < i implies (#[trigger] after[k]) < after[i as int] by {
                assert(scores@[k] <= top);
            }
        } else {
            proof {
                if found is Some {
                    let m = found->0 as int;
                    assert forall|k: int| 0 <= k < m implies (#[trigger] after[k]) < after[m] by {
                        assert(before[k] < before[m]);
                    }
                    assert forall|k: int| m < k < after.len() implies (#[trigger] after[k])
                        <= after[m] by {
                        if k < i {
                            assert(before[k] <= before[m]);
                        }
                    }
                }
            }
        }
        i += 1;
    }
    assert(ranks.take(scores@.len() as int) =~= ranks);
    found
}

/// Takes the reply with the best score.
fn take_best<T>(replies: Vec<Option<T>>, scores: &Vec<u8>) -> (best: Option<T>)
    requires
        replies@.len() == scores@.len(),
    ensures
        best == best_reply(replies@, scores@.map_values(|score: u8| score as int)),
{
    let ghost ranks = scores@.map_values(|score: u8| score as int);
    let mut replies = replies;
    match first_best(scores) {
        Some(m) => {
            proof {
                lemma_first_best_is_unique(ranks, m as int, choose|m: int| is_first_best(ranks, m));
            }
            replies.remove(m)
        },
        None => {
            assert forall|m: int| !is_first_best(ranks, m) by {
                if is_first_best(ranks, m) {
                    assert(scores@[m] == 0);
                }
            }
            None
        },
    }
}

/// Where any reply tells something, the one that is taken tells something, no other tells more, and
/// none before it tells as much. Where none does, none is taken.
pub proof fn law_best_reply_tells_the_most<T>(replies: Seq<Option<T>>, ranks: Seq<int>)
    requires
        replies.len() == ranks.len(),
    ensures
        (exists|k: int| 0 <= k < ranks.len() && #[trigger] ranks[k] > 0) ==> exists|m: int|
            #[trigger] is_first_best(ranks, m) && best_reply(replies, ranks) == replies[m],
        (forall|k: int| 0 <= k < ranks.len() ==> #[trigger] ranks[k] <= 0) ==> best_reply(
            replies,
            ranks,
        ) is None,
{
    if exists|k: int| 0 <= k < ranks.len() && #[trigger] ranks[k] > 0 {
        let k = choose|k: int| 0 <= k < ranks.len() && #[trigger] ranks[k] > 0;
        let m = lemma_some_reply_is_best(ranks, k);
        assert(is_first_best(ranks, choose|m: int| is_first_best(ranks, m)));
    }
}

proof fn lemma_some_reply_is_best(ranks: Seq<int>, k: int) -> (m: int)
    requires
        0 <= k < ranks.len(),
        ranks[k] > 0,
    ensures
        is_first_best(ranks, m),
    decreases ranks.len(),
{
    let last = ranks.len() - 1;
    let before = ranks.drop_last();
    if exists|other: int| 0 <= other < before.len() && #[trigger] before[other] > 0 {
        let other = choose|other: int| 0 <= other < before.len() && #[trigger] before[other] > 0;
        let m = lemma_some_reply_is_best(before, other);
        assert forall|i: int| 0 <= i < before.len() implies ranks[i] == #[trigger] before[i] by {}
        if ranks[last] > before[m] {
            assert forall|i: int| 0 <= i < last implies (#[trigger] ranks[i]) < ranks[last] by {
                assert(before[i] <= before[m]);
            }
            last
        } else {
            assert forall|i: int| 0 <= i < m implies (#[trigger] ranks[i]) < ranks[m] by {
                assert(before[i] < before[m]);
            }
            assert forall|i: int| m < i < ranks.len() implies (#[trigger] ranks[i]) <= ranks[m] by {
                if i < last {
                    assert(before[i] <= before[m]);
                }
            }
            m
        }
    } else {
        assert forall|i: int| 0 <= i < last implies (#[trigger] ranks[i]) <= 0 by {
            assert(before[i] <= 0);
        }
        last
    }
}

/// How much each reply tells.
pub open spec fn plain_goal_ranks(replies: Seq<Option<PlainGoalResult>>) -> Seq<int> {
    replies.map_values(|reply: Option<PlainGoalResult>| plain_goal_rank(viewed(reply)))
}

/// How much each reply tells.
pub open spec fn plain_term_goal_ranks(replies: Seq<Option<PlainTermGoalResult>>) -> Seq<int> {
    replies.map_values(|reply: Option<PlainTermGoalResult>| plain_term_goal_rank(viewed(reply)))
}

/// How much each reply tells.
pub open spec fn interactive_goals_ranks(replies: Seq<Option<InteractiveGoalsResult>>) -> Seq<int> {
    replies.map_values(
        |reply: Option<InteractiveGoalsResult>| interactive_goal_rank(viewed(reply)),
    )
}

/// How much each reply tells.
pub open spec fn interactive_term_goal_ranks(replies: Seq<Option<InteractiveGoal>>) -> Seq<int> {
    replies.map_values(|reply: Option<InteractiveGoal>| interactive_term_goal_rank(viewed(reply)))
}

/// The first of the replies that tell the most about the goals.
pub fn best_plain_goal(replies: Vec<Option<PlainGoalResult>>) -> (best: Option<PlainGoalResult>)
    ensures
        best == best_reply(replies@, plain_goal_ranks(replies@)),
{
    let mut scores: Vec<u8> = Vec::new();
    let mut i: usize = 0;
    while i < replies.len()
        invariant
            i <= replies@.len(),
            scores@.len() == i,
            forall|k: int|
                0 <= k < i ==> #[trigger] scores@[k] == plain_goal_rank(viewed(replies@[k])),
        decreases replies@.len() - i,
    {
        scores.push(plain_goal_score(replies[i].as_ref()));
        i += 1;
    }
    assert(scores@.map_values(|score: u8| score as int) =~= plain_goal_ranks(replies@));
    take_best(replies, &scores)
}

/// The first of the replies that tell the expected type.
pub fn best_plain_term_goal(replies: Vec<Option<PlainTermGoalResult>>) -> (best: Option<
    PlainTermGoalResult,
>)
    ensures
        best == best_reply(replies@, plain_term_goal_ranks(replies@)),
{
    let mut scores: Vec<u8> = Vec::new();
    let mut i: usize = 0;
    while i < replies.len()
        invariant
            i <= replies@.len(),
            scores@.len() == i,
            forall|k: int|
                0 <= k < i ==> #[trigger] scores@[k] == plain_term_goal_rank(viewed(replies@[k])),
        decreases replies@.len() - i,
    {
        scores.push(plain_term_goal_score(replies[i].as_ref()));
        i += 1;
    }
    assert(scores@.map_values(|score: u8| score as int) =~= plain_term_goal_ranks(replies@));
    take_best(replies, &scores)
}

/// The first of the replies that tell the most about the goals.
pub fn best_interactive_goals(replies: Vec<Option<InteractiveGoalsResult>>) -> (best: Option<
    InteractiveGoalsResult,
>)
    ensures
        best == best_reply(replies@, interactive_goals_ranks(replies@)),
{
    let mut scores: Vec<u8> = Vec::new();
    let mut i: usize = 0;
    while i < replies.len()
        invariant
            i <= replies@.len(),
            scores@.len() == i,
            forall|k: int|
                0 <= k < i ==> #[trigger] scores@[k] == interactive_goal_rank(viewed(replies@[k])),
        decreases replies@.len() - i,
    {
        scores.push(interactive_goal_score(replies[i].as_ref()));
        i += 1;
    }
    assert(scores@.map_values(|score: u8| score as int) =~= interactive_goals_ranks(replies@));
    take_best(replies, &scores)
}

/// The first of the replies that tell the most about the expected type.
pub fn best_interactive_term_goal(replies: Vec<Option<InteractiveGoal>>) -> (best: Option<
    InteractiveGoal,
>)
    ensures
        best == best_reply(replies@, interactive_term_goal_ranks(replies@)),
{
    let mut scores: Vec<u8> = Vec::new();
    let mut i: usize = 0;
    while i < replies.len()
        invariant
            i <= replies@.len(),
            scores@.len() == i,
            forall|k: int|
                0 <= k < i ==> #[trigger] scores@[k] == interactive_term_goal_rank(
                    viewed(replies@[k]),
                ),
        decreases replies@.len() - i,
    {
        scores.push(interactive_term_goal_score(replies[i].as_ref()));
        i += 1;
    }
    assert(scores@.map_values(|score: u8| score as int) =~= interactive_term_goal_ranks(replies@));
    take_best(replies, &scores)
}

/// The replies to a refresh, the best of each kind, and what else is to be shown with them.
#[derive(Debug)]
pub struct Replies {
    pub plain_goal: Option<PlainGoalResult>,
    pub plain_term_goal: Option<PlainTermGoalResult>,
    pub interactive_goals: Option<InteractiveGoalsResult>,
    pub interactive_term_goal: Option<InteractiveGoal>,
    pub diagnostics: Vec<Diagnostic>,
    pub goals_accomplished: bool,
}

impl Replies {
    /// What the replies ask to be shown.
    pub open spec fn shown(self) -> Shown {
        shown(
            self.plain_goal,
            self.plain_term_goal,
            self.interactive_goals,
            self.interactive_term_goal,
            self.diagnostics@,
            self.goals_accomplished,
        )
    }
}

/// What the server answered at each of the places where goals are looked for.
#[derive(Debug)]
pub struct Answers {
    pub plain_goals: Vec<Option<PlainGoalResult>>,
    pub plain_term_goals: Vec<Option<PlainTermGoalResult>>,
    pub interactive_goals: Vec<Option<InteractiveGoalsResult>>,
    pub interactive_term_goals: Vec<Option<InteractiveGoal>>,
}

/// The best answer of each kind. Without a session there are none with tagged text.
pub fn best_replies(
    answers: Answers,
    session: &Option<RpcSession>,
    diagnostics: Vec<Diagnostic>,
    goals_accomplished: bool,
) -> (replies: Replies)
    ensures
        replies == (Replies {
            plain_goal: best_reply(answers.plain_goals@, plain_goal_ranks(answers.plain_goals@)),
            plain_term_goal: best_reply(
                answers.plain_term_goals@,
                plain_term_goal_ranks(answers.plain_term_goals@),
            ),
            interactive_goals: if *session is Some {
                best_reply(
                    answers.interactive_goals@,
                    interactive_goals_ranks(answers.interactive_goals@),
                )
            } else {
                None
            },
            interactive_term_goal: if *session is Some {
                best_reply(
                    answers.interactive_term_goals@,
                    interactive_term_goal_ranks(answers.interactive_term_goals@),
                )
            } else {
                None
            },
            diagnostics,
            goals_accomplished,
        }),
{
    let plain_goal = best_plain_goal(answers.plain_goals);
    let plain_term_goal = best_plain_term_goal(answers.plain_term_goals);
    let (interactive_goals, interactive_term_goal) = match session {
        Some(_) => (
            best_interactive_goals(answers.interactive_goals),
            best_interactive_term_goal(answers.interactive_term_goals),
        ),
        None => (None, None),
    };
    Replies {
        plain_goal,
        plain_term_goal,
        interactive_goals,
        interactive_term_goal,
        diagnostics,
        goals_accomplished,
    }
}

/// Whether the counts of a range can be written from 1.
fn is_countable_range(range: &Range) -> (yes: bool)
    ensures
        yes == range.countable(),
{
    range.start.line < u32::MAX && range.start.character < u32::MAX && range.end.line < u32::MAX
        && range.end.character < u32::MAX
}

/// Whether all counts that are shown can be written from 1.
pub fn is_countable(replies: &Replies) -> (yes: bool)
    ensures
        yes == replies.shown().countable(),
{
    let ghost all = replies.shown();
    let mut i: usize = 0;
    while i < replies.diagnostics.len()
        invariant
            i <= replies.diagnostics@.len(),
            all == replies.shown(),
            forall|k: int| 0 <= k < i ==> (#[trigger] all.diagnostics[k]).range.countable(),
        decreases replies.diagnostics@.len() - i,
    {
        if !is_countable_range(&replies.diagnostics[i].range) {
            assert(!all.diagnostics[i as int].range.countable());
            return false;
        }
        i += 1;
    }
    if interactive_term_goal_score(replies.interactive_term_goal.as_ref()) > 1
        || plain_term_goal_score(replies.plain_term_goal.as_ref()) > 0 {
        if let Some(result) = &replies.plain_term_goal {
            if let Some(range) = &result.range {
                return is_countable_range(range);
            }
        }
    }
    true
}

/// What a refresh about `source` found out.
pub fn finish_refresh(
    source: SourceContext,
    request_seq: u64,
    session: Option<RpcSession>,
    replies: Replies,
) -> (payload: RefreshPayload)
    requires
        replies.shown().countable(),
    ensures
        payload@ == Refreshed::about(
            source,
            request_seq,
            session,
            replies.shown().buffer().text,
            replies.shown().buffer().spans,
        ),
{
    let (text, spans) = build_rendered_payload(
        &source,
        replies.plain_goal,
        replies.plain_term_goal,
        replies.interactive_goals,
        replies.interactive_term_goal,
        &replies.diagnostics,
        replies.goals_accomplished,
    );
    RefreshPayload {
        request_seq,
        source_doc: source.doc_id,
        source_view: source.view_id,
        source_server: Some(source.server_id),
        source_uri: Some(source.uri),
        source_position: Some(source.position),
        session,
        text,
        spans,
    }
}

/// The reply that is taken is the first of those that tell the most, and none where none tells
/// anything.
pub proof fn law_first_best_reply_is_taken<T>(replies: Seq<Option<T>>, ranks: Seq<int>, m: int)
    requires
        replies.len() == ranks.len(),
    ensures
        0 <= m < ranks.len() && ranks[m] > 0 && (forall|k: int|
            0 <= k < ranks.len() ==> #[trigger] ranks[k] <= ranks[m]) && (forall|k: int|
            0 <= k < m ==> #[trigger] ranks[k] < ranks[m]) ==> best_reply(replies, ranks)
            == replies[m],
        (forall|k: int| 0 <= k < ranks.len() ==> #[trigger] ranks[k] <= 0) ==> best_reply(
            replies,
            ranks,
        ) is None,
{
    if 0 <= m < ranks.len() && ranks[m] > 0 && (forall|k: int|
        0 <= k < ranks.len() ==> #[trigger] ranks[k] <= ranks[m]) && (forall|k: int|
        0 <= k < m ==> #[trigger] ranks[k] < ranks[m]) {
        assert(is_first_best(ranks, m));
        lemma_first_best_is_unique(ranks, m, choose|m: int| is_first_best(ranks, m));
    }
    if forall|k: int| 0 <= k < ranks.len() ==> #[trigger] ranks[k] <= 0 {
        assert forall|n: int| !is_first_best(ranks, n) by {}
    }
}

/// Replies are compared by how much each tells.
pub proof fn law_replies_are_ranked_one_by_one(
    plain_goals: Seq<Option<PlainGoalResult>>,
    plain_term_goals: Seq<Option<PlainTermGoalResult>>,
    interactive_goals: Seq<Option<InteractiveGoalsResult>>,
    interactive_term_goals: Seq<Option<InteractiveGoal>>,
)
    ensures
        plain_goal_ranks(plain_goals).len() == plain_goals.len(),
        forall|i: int|
            0 <= i < plain_goals.len() ==> #[trigger] plain_goal_ranks(plain_goals)[i]
                == plain_goal_rank(viewed(plain_goals[i])),
        plain_term_goal_ranks(plain_term_goals).len() == plain_term_goals.len(),
        forall|i: int|
            0 <= i < plain_term_goals.len() ==> #[trigger] plain_term_goal_ranks(plain_term_goals)[i]
                == plain_term_goal_rank(viewed(plain_term_goals[i])),
        interactive_goals_ranks(interactive_goals).len() == interactive_goals.len(),
        forall|i: int|
            0 <= i < interactive_goals.len() ==> #[trigger] interactive_goals_ranks(
                interactive_goals,
            )[i] == interactive_goal_rank(viewed(interactive_goals[i])),
        interactive_term_goal_ranks(interactive_term_goals).len() == interactive_term_goals.len(),
        forall|i: int|
            0 <= i < interactive_term_goals.len() ==> #[trigger] interactive_term_goal_ranks(
                interactive_term_goals,
            )[i] == interactive_term_goal_rank(viewed(interactive_term_goals[i])),
{
}

/// What a refresh shows is what its replies hold.
pub proof fn law_refresh_shows_its_replies(replies: Replies)
    ensures
        replies.shown().plain_goal == viewed(replies.plain_goal),
        replies.shown().plain_term_goal == viewed(replies.plain_term_goal),
        replies.shown().interactive_goals == viewed(replies.interactive_goals),
        replies.shown().interactive_term_goal == viewed(replies.interactive_term_goal),
        replies.shown().diagnostics == replies.diagnostics@,
        replies.shown().goals_accomplished == replies.goals_accomplished,
{
}

} // verus!
