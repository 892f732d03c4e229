//! The round's rules that do not depend on the floating-point physics:
//! the phase machine driven by flaps, the score kept from pipes the bird
//! has passed, the best score and when it must be saved, and the choice of
//! the bird's animation frame.
//!
//! The physics (bird height and speed, pipe positions, collisions) is
//! computed by the caller; it hands this module the outcomes as plain
//! values: whether the flap cooldown is still running, which pipes are now
//! behind the bird, and whether the bird hit something.

use vstd::prelude::*;

use crate::save::SaveData;

verus! {

/// Where the round stands.
#[derive(Debug, Clone, Copy, PartialEq, Eq, Structural)]
pub enum Phase {
    /// Title screen: the bird idles until the first flap.
    Ready,
    /// The round is running.
    Playing,
    /// The bird crashed; the next flap starts a new round.
    GameOver,
}

/// What the caller must do to the physics after a flap.
#[derive(Debug, Clone, Copy, PartialEq, Eq, Structural)]
pub enum FlapAction {
    /// The flap came during the cooldown and changed nothing.
    Ignored,
    /// The round starts: give the bird its launch speed and lay out the first pipes.
    Start,
    /// Mid-round: give the bird the flap impulse.
    Boost,
    /// After a crash: reset the bird and pipes, then start as for `Start`.
    Restart,
}

/// Number of frames in the bird's sprite animation cycle.
pub const BIRD_FRAME_COUNT: usize = 8;

/// The abstract state of a scoreboard.
pub struct ScoreboardView {
    pub phase: Phase,
    pub score: u32,
    pub high_score: u32,
}

/// The record that is written when the best score is saved.
pub open spec fn saved_record(v: ScoreboardView) -> SaveData {
    SaveData { high_score: v.high_score }
}

/// A new round on the title screen, with the best score kept.
pub open spec fn spec_reset_round(v: ScoreboardView) -> ScoreboardView {
    ScoreboardView { phase: Phase::Ready, score: 0, high_score: v.high_score }
}

/// The round switched to running; score and best are kept.
pub open spec fn spec_start_playing(v: ScoreboardView) -> ScoreboardView {
    ScoreboardView { phase: Phase::Playing, ..v }
}

/// The state and action that a flap leads to.
pub open spec fn spec_flap(v: ScoreboardView, cooling_down: bool) -> (ScoreboardView, FlapAction) {
    if cooling_down {
        (v, FlapAction::Ignored)
    } else {
        match v.phase {
            Phase::Ready => (spec_start_playing(v), FlapAction::Start),
            Phase::Playing => (v, FlapAction::Boost),
            Phase::GameOver => (spec_start_playing(spec_reset_round(v)), FlapAction::Restart),
        }
    }
}

/// Whether pipe `i` scores now: it was not scored before and is now behind the bird.
pub open spec fn scores_now(scored: Seq<bool>, passed: Seq<bool>, i: int) -> bool {
    !scored[i] && passed[i]
}

/// How many pipes score now.
pub open spec fn newly_passed(scored: Seq<bool>, passed: Seq<bool>) -> nat
    decreases scored.len(),
{
    if scored.len() == 0 {
        0
    } else {
        newly_passed(scored.drop_last(), passed.drop_last()) + if scores_now(
            scored,
            passed,
            scored.len() - 1,
        ) {
            1nat
        } else {
            0nat
        }
    }
}

/// The scored flags after awarding: a pipe is scored once it has been passed.
pub open spec fn marked_scored(scored: Seq<bool>, passed: Seq<bool>) -> Seq<bool> {
    Seq::new(scored.len(), |i: int| scored[i] || passed[i])
}

/// The state after awarding one point for each pipe that scores now.
pub open spec fn spec_award(v: ScoreboardView, scored: Seq<bool>, passed: Seq<bool>) -> ScoreboardView {
    ScoreboardView { score: (v.score + newly_passed(scored, passed)) as u32, ..v }
}

/// The state after a crash, and whether the best score must be saved.
pub open spec fn spec_end_round(v: ScoreboardView) -> (ScoreboardView, bool) {
    if v.score > v.high_score {
        (ScoreboardView { phase: Phase::GameOver, score: v.score, high_score: v.score }, true)
    } else {
        (ScoreboardView { phase: Phase::GameOver, ..v }, false)
    }
}

/// The state after one running frame's scoring and collision outcome, and
/// whether the best score must be saved.
pub open spec fn spec_update_playing(
    v: ScoreboardView,
    scored: Seq<bool>,
    passed: Seq<bool>,
    collided: bool,
) -> (ScoreboardView, bool) {
    let awarded = spec_award(v, scored, passed);
    if collided {
        spec_end_round(awarded)
    } else {
        (awarded, false)
    }
}

/// Phase, score and best score of a session, together with the save record
/// that mirrors the best score.
pub struct Scoreboard {
    phase: Phase,
    score: u32,
    high_score: u32,
    save_data: SaveData,
}

impl View for Scoreboard {
    type V = ScoreboardView;

    closed spec fn view(&self) -> ScoreboardView {
        ScoreboardView { phase: self.phase, score: self.score, high_score: self.high_score }
    }
}

impl Scoreboard {
    /// The save record always holds the best score.
    #[verifier::type_invariant]
    spec fn inv(self) -> bool {
        self.save_data.high_score == self.high_score
    }

    /// A session on the title screen whose best score comes from `save_data`.
    pub fn new(save_data: SaveData) -> (board: Self)
        ensures
            board@ == (ScoreboardView { phase: Phase::Ready, score: 0, high_score: save_data.high_score }),
    {
        Scoreboard { phase: Phase::Ready, score: 0, high_score: save_data.high_score, save_data }
    }

    pub fn phase(&self) -> (phase: Phase)
        ensures
            phase == self@.phase,
    {
        self.phase
    }

    pub fn score(&self) -> (score: u32)
        ensures
            score == self@.score,
    {
        self.score
    }

    pub fn high_score(&self) -> (high_score: u32)
        ensures
            high_score == self@.high_score,
    {
        self.high_score
    }

    /// The record to write when the best score is saved.
    pub fn save_data(&self) -> (data: SaveData)
        ensures
            data == saved_record(self@),
    {
        proof {
            use_type_invariant(self);
        }
        self.save_data
    }

    /// Back to the title screen with a zero score; the best score is kept.
    pub fn reset_round(&mut self)
        ensures
            final(self)@ == spec_reset_round(old(self)@),
    {
        proof {
            use_type_invariant(&*self);
        }
        self.phase = Phase::Ready;
        self.score = 0;
    }

    /// The round starts running.
    pub fn start_playing(&mut self)
        ensures
            final(self)@ == spec_start_playing(old(self)@),
    {
        proof {
            use_type_invariant(&*self);
        }
        self.phase = Phase::Playing;
    }

    /// A flap: ignored while the cooldown runs; otherwise it starts the
    /// round from the title screen, boosts the bird mid-round, or starts a
    /// fresh round after a crash. Returns what the physics must do.
    pub fn flap(&mut self, cooling_down: bool) -> (action: FlapAction)
        ensures
            (final(self)@, action) == spec_flap(old(self)@, cooling_down),
    {
        if cooling_down {
            return FlapAction::Ignored;
        }
        match self.phase {
            Phase::Ready => {
                self.start_playing();
                FlapAction::Start
            },
            Phase::Playing => FlapAction::Boost,
            Phase::GameOver => {
                self.reset_round();
                self.start_playing();
                FlapAction::Restart
            },
        }
    }

    /// Awards one point for each pipe that is behind the bird and was not
    /// scored before, and marks those pipes scored.
    pub fn award_passed_pipes(&mut self, scored: &mut Vec<bool>, passed: &Vec<bool>)
        requires
            old(scored)@.len() == passed@.len(),
            old(self)@.score + newly_passed(old(scored)@, passed@) <= u32::MAX,
        ensures
            final(scored)@ == marked_scored(old(scored)@, passed@),
            final(self)@ == spec_award(old(self)@, old(scored)@, passed@),
    {
        let ghost scored0 = scored@;
        let ghost score0 = self.score;
        let n = scored.len();
        let mut i: usize = 0;
        while i < n
            invariant
                n == scored0.len(),
                n == passed@.len(),
                n == scored@.len(),
                i <= n,
                score0 + newly_passed(scored0, passed@) <= u32::MAX,
                self.score == score0 + newly_passed(scored0.take(i as int), passed@.take(i as int)),
                self@ == (ScoreboardView { score: self.score, ..old(self)@ }),
                forall|j: int| 0 <= j < i ==> scored@[j] == (scored0[j] || passed@[j]),
                forall|j: int| i <= j < n ==> scored@[j] == scored0[j],
            decreases n - i,
        {
            let ghost s_next = scored0.take(i + 1);
            let ghost p_next = passed@.take(i + 1);
            proof {
                assert(s_next.drop_last() =~= scored0.take(i as int));
                assert(p_next.drop_last() =~= passed@.take(i as int));
                lemma_newly_passed_prefix(scored0, passed@, i + 1);
            }
            // The pipes already visited are scored as required.
            let ghost visited = scored@;
            assert(forall|j: int| 0 <= j < i ==> visited[j] == (scored0[j] || passed@[j]));
            proof {
                use_type_invariant(&*self);
            }
            if !scored[i] && passed[i] {
                scored.set(i, true);
                self.score = self.score + 1;
            }
            assert(scored@[i as int] == (scored0[i as int] || passed@[i as int]));
            i = i + 1;
        }
        proof {
            assert(scored0.take(n as int) =~= scored0);
            assert(passed@.take(n as int) =~= passed@);
            assert(scored@ =~= marked_scored(scored0, passed@));
        }
    }

    /// The bird crashed: the round is over, and a score above the best
    /// becomes the new best. Returns whether the best score must be saved.
    pub fn end_round(&mut self) -> (save: bool)
        ensures
            (final(self)@, save) == spec_end_round(old(self)@),
    {
        proof {
            use_type_invariant(&*self);
        }
        if self.score > self.high_score {
            let best = self.score;
            *self = Scoreboard {
                phase: Phase::GameOver,
                score: best,
                high_score: best,
                save_data: SaveData { high_score: best },
            };
            true
        } else {
            self.phase = Phase::GameOver;
            false
        }
    }

    /// Applies one running frame's outcome: the pipes now behind the bird
    /// score, then a collision ends the round. Returns whether the best
    /// score must be saved.
    pub fn update_playing(&mut self, scored: &mut Vec<bool>, passed: &Vec<bool>, collided: bool) -> (save: bool)
        requires
            old(scored)@.len() == passed@.len(),
            old(self)@.score + newly_passed(old(scored)@, passed@) <= u32::MAX,
        ensures
            final(scored)@ == marked_scored(old(scored)@, passed@),
            (final(self)@, save) == spec_update_playing(old(self)@, old(scored)@, passed@, collided),
    {
        self.award_passed_pipes(scored, passed);
        if collided {
            self.end_round()
        } else {
            false
        }
    }
}

/// The count over a prefix is at most the count over the whole.
proof fn lemma_newly_passed_prefix(scored: Seq<bool>, passed: Seq<bool>, k: int)
    requires
        0 <= k <= scored.len(),
        scored.len() == passed.len(),
    ensures
        newly_passed(scored.take(k), passed.take(k)) <= newly_passed(scored, passed),
    decreases scored.len() - k,
{
    if k < scored.len() {
        let s = scored.drop_last();
        let p = passed.drop_last();
        lemma_newly_passed_prefix(s, p, k);
        assert(s.take(k) =~= scored.take(k));
        assert(p.take(k) =~= passed.take(k));
    } else {
        assert(scored.take(k) =~= scored);
        assert(passed.take(k) =~= passed);
    }
}

/// A flap during the cooldown changes nothing.
pub proof fn lemma_cooldown_ignores_flap(v: ScoreboardView)
    ensures
        spec_flap(v, true) == (v, FlapAction::Ignored),
{
}

/// A flap never changes the best score.
pub proof fn lemma_flap_keeps_best(v: ScoreboardView, cooling_down: bool)
    ensures
        spec_flap(v, cooling_down).0.high_score == v.high_score,
{
}

/// From the title screen a flap starts the round; mid-round it only boosts
/// the bird; after a crash it starts a fresh round with a zero score. The
/// best score is kept in each case.
pub proof fn lemma_flap_by_phase(v: ScoreboardView)
    ensures
        v.phase == Phase::Ready ==> spec_flap(v, false) == (
            ScoreboardView { phase: Phase::Playing, score: v.score, high_score: v.high_score },
            FlapAction::Start,
        ),
        v.phase == Phase::Playing ==> spec_flap(v, false) == (v, FlapAction::Boost),
        v.phase == Phase::GameOver ==> spec_flap(v, false) == (
            ScoreboardView { phase: Phase::Playing, score: 0, high_score: v.high_score },
            FlapAction::Restart,
        ),
{
}

/// Ending a round: the phase is over, the score stays, the best becomes the
/// larger of the old best and the score, and a save is asked for exactly
/// when the score beat the old best, with the record then holding the score.
pub proof fn lemma_end_round_best(v: ScoreboardView)
    ensures
        spec_end_round(v).0.phase == Phase::GameOver,
        spec_end_round(v).0.score == v.score,
        spec_end_round(v).0.high_score == if v.score > v.high_score {
            v.score
        } else {
            v.high_score
        },
        spec_end_round(v).1 <==> v.score > v.high_score,
        spec_end_round(v).1 ==> saved_record(spec_end_round(v).0) == (SaveData { high_score: v.score }),
{
}

/// A running frame never lowers the best score, and after a collision the
/// best score is at least the round's score.
pub proof fn lemma_update_playing_best(
    v: ScoreboardView,
    scored: Seq<bool>,
    passed: Seq<bool>,
    collided: bool,
)
    requires
        scored.len() == passed.len(),
        v.score + newly_passed(scored, passed) <= u32::MAX,
    ensures
        spec_update_playing(v, scored, passed, collided).0.high_score >= v.high_score,
        collided ==> spec_update_playing(v, scored, passed, collided).0.high_score
            >= spec_update_playing(v, scored, passed, collided).0.score,
        collided ==> spec_update_playing(v, scored, passed, collided).0.phase == Phase::GameOver,
        !collided ==> spec_update_playing(v, scored, passed, collided).0.phase == v.phase,
{
}

/// A running frame in full: the score grows by exactly the pipes that score
/// now; without a collision the phase and the best score stay and nothing
/// is saved; with a collision the round is over, the score is kept, and a
/// save is asked for exactly when that score beats the best held before the
/// frame, which it then becomes.
pub proof fn lemma_update_playing_outcome(
    v: ScoreboardView,
    scored: Seq<bool>,
    passed: Seq<bool>,
    collided: bool,
)
    requires
        scored.len() == passed.len(),
        v.score + newly_passed(scored, passed) <= u32::MAX,
    ensures
        spec_update_playing(v, scored, passed, collided).0.score == v.score + newly_passed(
            scored,
            passed,
        ),
        !collided ==> spec_update_playing(v, scored, passed, collided).0.phase == v.phase,
        !collided ==> spec_update_playing(v, scored, passed, collided).0.high_score
            == v.high_score,
        !collided ==> !spec_update_playing(v, scored, passed, collided).1,
        collided ==> spec_update_playing(v, scored, passed, collided).0.phase == Phase::GameOver,
        collided ==> (spec_update_playing(v, scored, passed, collided).1 <==> v.score
            + newly_passed(scored, passed) > v.high_score),
        collided ==> spec_update_playing(v, scored, passed, collided).0.high_score == if v.score
            + newly_passed(scored, passed) > v.high_score {
            v.score + newly_passed(scored, passed)
        } else {
            v.high_score as int
        },
{
}

/// The count of pipes that score now, pipe by pipe: no pipes score nothing,
/// and one more pipe adds one exactly when it was not scored before and is
/// now behind the bird, whatever the other pipes are.
pub proof fn lemma_newly_passed_per_pipe(scored: Seq<bool>, passed: Seq<bool>, s: bool, p: bool)
    requires
        scored.len() == passed.len(),
    ensures
        newly_passed(Seq::<bool>::empty(), Seq::<bool>::empty()) == 0,
        newly_passed(scored.push(s), passed.push(p)) == newly_passed(scored, passed) + if !s
            && p {
            1int
        } else {
            0int
        },
{
    assert(scored.push(s).drop_last() =~= scored);
    assert(passed.push(p).drop_last() =~= passed);
}

/// Awarding adds one point for each pipe whose scored flag it turns on and
/// none for the others: a pipe already scored, or not yet passed, adds
/// nothing and keeps its flag.
pub proof fn lemma_award_per_pipe(
    v: ScoreboardView,
    scored: Seq<bool>,
    passed: Seq<bool>,
    s: bool,
    p: bool,
)
    requires
        scored.len() == passed.len(),
        v.score + newly_passed(scored.push(s), passed.push(p)) <= u32::MAX,
    ensures
        spec_award(v, scored.push(s), passed.push(p)).score == spec_award(v, scored, passed).score
            + if !s && p {
            1int
        } else {
            0int
        },
        marked_scored(scored.push(s), passed.push(p)).last() == (s || p),
        marked_scored(scored.push(s), passed.push(p)).drop_last() == marked_scored(scored, passed),
        spec_award(v, scored.push(s), passed.push(p)).phase == v.phase,
        spec_award(v, scored.push(s), passed.push(p)).high_score == v.high_score,
{
    lemma_newly_passed_per_pipe(scored, passed, s, p);
    assert(marked_scored(scored.push(s), passed.push(p)).drop_last() =~= marked_scored(
        scored,
        passed,
    ));
}

/// Back to the title screen: phase Ready, score zero, best kept. Starting
/// the round: phase Playing, score and best kept. The saved record holds
/// exactly the best score.
pub proof fn lemma_reset_start_and_record(v: ScoreboardView)
    ensures
        spec_reset_round(v).phase == Phase::Ready,
        spec_reset_round(v).score == 0,
        spec_reset_round(v).high_score == v.high_score,
        spec_start_playing(v).phase == Phase::Playing,
        spec_start_playing(v).score == v.score,
        spec_start_playing(v).high_score == v.high_score,
        saved_record(v).high_score == v.high_score,
{
}

/// Marking pipes keeps their number and, with no pipes, gives none.
pub proof fn lemma_marked_scored_length(scored: Seq<bool>, passed: Seq<bool>)
    ensures
        marked_scored(scored, passed).len() == scored.len(),
        marked_scored(Seq::<bool>::empty(), Seq::<bool>::empty()) == Seq::<bool>::empty(),
{
    assert(marked_scored(Seq::<bool>::empty(), Seq::<bool>::empty()) =~= Seq::<bool>::empty());
}

/// No more pipes score than there are pipes.
pub proof fn lemma_newly_passed_bounded(scored: Seq<bool>, passed: Seq<bool>)
    requires
        scored.len() == passed.len(),
    ensures
        newly_passed(scored, passed) <= scored.len(),
    decreases scored.len(),
{
    if scored.len() > 0 {
        lemma_newly_passed_bounded(scored.drop_last(), passed.drop_last());
    }
}

/// Each pipe scores at most once: once the passed pipes are marked scored,
/// the same outcome scores nothing more.
pub proof fn lemma_pipe_scores_once(scored: Seq<bool>, passed: Seq<bool>)
    requires
        scored.len() == passed.len(),
    ensures
        newly_passed(marked_scored(scored, passed), passed) == 0,
    decreases scored.len(),
{
    if scored.len() > 0 {
        let s = scored.drop_last();
        let p = passed.drop_last();
        lemma_pipe_scores_once(s, p);
        assert(marked_scored(scored, passed).drop_last() =~= marked_scored(s, p));
    }
}

/// Counts the pipes that score now (not scored before, now behind the bird).
pub fn count_newly_passed(scored: &Vec<bool>, passed: &Vec<bool>) -> (count: usize)
    requires
        scored@.len() == passed@.len(),
    ensures
        count == newly_passed(scored@, passed@),
{
    let n = scored.len();
    let mut count: usize = 0;
    let mut i: usize = 0;
    while i < n
        invariant
            n == scored@.len(),
            n == passed@.len(),
            i <= n,
            count == newly_passed(scored@.take(i as int), passed@.take(i as int)),
            count <= i,
        decreases n - i,
    {
        proof {
            assert(scored@.take(i + 1).drop_last() =~= scored@.take(i as int));
            assert(passed@.take(i + 1).drop_last() =~= passed@.take(i as int));
        }
        if !scored[i] && passed[i] {
            count = count + 1;
        }
        i = i + 1;
    }
    proof {
        assert(scored@.take(n as int) =~= scored@);
        assert(passed@.take(n as int) =~= passed@);
    }
    count
}

/// The animation frame shown after `ticks` whole animation steps: the
/// cycle of `BIRD_FRAME_COUNT` frames repeats.
pub fn frame_for_tick(ticks: usize) -> (frame: usize)
    ensures
        frame == ticks % BIRD_FRAME_COUNT,
{
    ticks % BIRD_FRAME_COUNT
}

/// Keeps a frame index inside a loaded animation of `frame_count` frames:
/// the index itself when it is in range, else the last frame (or 0 when
/// there is none).
pub fn clamp_frame_index(index: usize, frame_count: usize) -> (clamped: usize)
    ensures
        clamped == if frame_count == 0 {
            0
        } else if index < frame_count - 1 {
            index as int
        } else {
            frame_count - 1
        },
{
    let last = frame_count.saturating_sub(1);
    if index < last {
        index
    } else {
        last
    }
}

} // verus!
