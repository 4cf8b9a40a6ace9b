//! The run of one due post, leg by leg. A leg is claimed, looked up, called for as
//! often as its budget allows, and written down before the next one is turned to.
//! The store and the providers are asked elsewhere: `PostRun::stage` says what is to
//! be asked next, and each answer moves the run on.
use vstd::prelude::*;
use crate::draft;
use crate::draft::DraftBody;
use crate::providers::types;
use crate::providers::types::{PublishRequest, PublishResult, ResultView};
use crate::publish;
use crate::publish::{
    effective_max_attempts, next_target, plan_target, settle_post, AttemptRun, AttemptStep,
    OutcomeView, PostOutcome, Settlement, SettlementView, TargetOutcome, TargetPlan,
};
use crate::records::{PostHistoryEntry, PostTarget, ScheduledPost, SocialAccount, SocialSettings};
use crate::status::{PostStatus, TargetStatus};

verus! {

/// What a run asks for next.
#[derive(Debug, PartialEq, Eq)]
pub enum Stage {
    /// Claim the leg.
    Claim,
    /// The leg is ours: read its history and its account.
    Read,
    /// Wait, then call the provider.
    Call { request: PublishRequest, run: AttemptRun, wait_ms: u64 },
    /// Write this down.
    Record(Settlement),
    /// No leg is left: read the targets back.
    Over,
}

pub enum StageView {
    Claim,
    Read,
    Call { request: types::RequestView, run: AttemptRun, wait_ms: nat },
    Record(SettlementView),
    Over,
}

impl View for Stage {
    type V = StageView;

    open spec fn view(&self) -> StageView {
        match self {
            Stage::Claim => StageView::Claim,
            Stage::Read => StageView::Read,
            Stage::Call { request, run, wait_ms } => StageView::Call {
                request: request@,
                run: *run,
                wait_ms: *wait_ms as nat,
            },
            Stage::Record(s) => StageView::Record(s@),
            Stage::Over => StageView::Over,
        }
    }
}

/// A run under way: the post and the targets it was listed with, the budget of each
/// leg, the leg at hand, and what has been reported of the legs before it.
#[derive(Debug, PartialEq, Eq)]
pub struct PostRun {
    pub post_id: String,
    pub draft_body: Option<DraftBody>,
    pub targets: Vec<PostTarget>,
    pub max_attempts: u32,
    pub base_backoff_ms: u64,
    pub at: usize,
    pub stage: Stage,
    pub outcomes: Vec<TargetOutcome>,
}

#[verifier::ext_equal]
pub struct RunView {
    pub post_id: Seq<char>,
    pub draft: Option<draft::DraftBodyView>,
    pub targets: Seq<PostTarget>,
    pub max_attempts: u32,
    pub base_backoff_ms: u64,
    pub at: int,
    pub stage: StageView,
    pub outcomes: Seq<OutcomeView>,
}

pub open spec fn outcome_views(s: Seq<TargetOutcome>) -> Seq<OutcomeView> {
    s.map_values(|o: TargetOutcome| o@)
}

impl View for PostRun {
    type V = RunView;

    open spec fn view(&self) -> RunView {
        RunView {
            post_id: self.post_id@,
            draft: publish::opt_body(self.draft_body),
            targets: self.targets@,
            max_attempts: self.max_attempts,
            base_backoff_ms: self.base_backoff_ms,
            at: self.at as int,
            stage: self.stage@,
            outcomes: outcome_views(self.outcomes@),
        }
    }
}

/// The attempts over a leg's whole life stay within 32 bits.
pub open spec fn budget_fits(targets: Seq<PostTarget>, max_attempts: u32) -> bool {
    forall|i: int|
        0 <= i < targets.len() ==> (#[trigger] targets[i]).attempts + max_attempts <= u32::MAX
}

impl RunView {
    /// A leg is at hand, and it was open when it was listed, until no leg is left.
    pub open spec fn wf(self) -> bool {
        &&& 1 <= self.max_attempts
        &&& budget_fits(self.targets, self.max_attempts)
        &&& !(self.stage is Over) ==> {
            &&& 0 <= self.at < self.targets.len()
            &&& !self.targets[self.at].status.terminal()
        }
        &&& match self.stage {
            StageView::Call { run, .. } => {
                &&& run.wf()
                &&& run.before == self.targets[self.at].attempts
                &&& run.max_attempts == self.max_attempts
                &&& run.base_backoff_ms == self.base_backoff_ms
            },
            _ => true,
        }
    }

    /// Turn to the first open leg at or after an index.
    pub open spec fn from(self, i: int) -> RunView {
        match publish::first_open(publish::target_statuses(self.targets), i) {
            Some(k) => RunView { at: k, stage: StageView::Claim, ..self },
            None => RunView { at: self.targets.len() as int, stage: StageView::Over, ..self },
        }
    }

    /// A leg that another worker holds is passed over.
    pub open spec fn claimed(self, won: bool) -> RunView {
        if won {
            RunView { stage: StageView::Read, ..self }
        } else {
            self.from(self.at + 1)
        }
    }

    pub open spec fn fresh_run(self) -> AttemptRun {
        AttemptRun {
            made: 0,
            max_attempts: self.max_attempts,
            base_backoff_ms: self.base_backoff_ms,
            before: self.targets[self.at].attempts,
        }
    }

    pub open spec fn plan(
        self,
        history: Seq<PostHistoryEntry>,
        account: Option<SocialAccount>,
    ) -> publish::PlanView {
        publish::plan_of(
            self.post_id,
            self.targets[self.at],
            history,
            publish::account_of(self.targets[self.at], account),
            self.draft,
        )
    }

    pub open spec fn looked_up(
        self,
        history: Seq<PostHistoryEntry>,
        account: Option<SocialAccount>,
    ) -> RunView {
        RunView {
            stage: match self.plan(history, account) {
                publish::PlanView::Settle(s) => StageView::Record(s),
                publish::PlanView::Attempt(request) => StageView::Call {
                    request,
                    run: self.fresh_run(),
                    wait_ms: 0,
                },
            },
            ..self
        }
    }

    /// An answer ends the calls of a leg, or the same request is sent again.
    pub open spec fn answered(self, result: ResultView) -> RunView {
        match self.stage {
            StageView::Call { request, run, .. } => RunView {
                stage: match run.after(
                    self.targets[self.at].id@,
                    self.targets[self.at].platform,
                    result,
                ) {
                    publish::StepView::Again { run: next, wait_ms } => StageView::Call {
                        request,
                        run: next,
                        wait_ms,
                    },
                    publish::StepView::Done(s) => StageView::Record(s),
                },
                ..self
            },
            _ => self,
        }
    }

    pub open spec fn recorded(self) -> RunView {
        match self.stage {
            StageView::Record(s) => RunView {
                outcomes: self.outcomes.push(s.outcome),
                ..self
            }.from(self.at + 1),
            _ => self,
        }
    }
}

/// A run before its first leg.
pub open spec fn fresh(
    post_id: Seq<char>,
    draft: Option<draft::DraftBodyView>,
    targets: Seq<PostTarget>,
    settings: SocialSettings,
) -> RunView {
    RunView {
        post_id,
        draft,
        targets,
        max_attempts: publish::effective_attempts(settings.max_attempts),
        base_backoff_ms: settings.base_backoff_ms,
        at: 0,
        stage: StageView::Over,
        outcomes: Seq::empty(),
    }.from(0)
}

/// What is reported of a post: what the run reported of its legs, and the verdict
/// over the targets as they were read back. Without a verdict it is still publishing.
pub open spec fn reported_status(persisted: Seq<PostTarget>) -> PostStatus {
    match publish::verdict(publish::target_statuses(persisted)) {
        Some(s) => s,
        None => PostStatus::Publishing,
    }
}

proof fn lemma_first_open(s: Seq<crate::status::TargetStatus>, from: int)
    requires
        0 <= from,
    ensures
        publish::first_open(s, from) matches Some(k) ==> from <= k < s.len() && !s[k].terminal(),
        publish::first_open(s, from) is None ==> forall|i: int|
            from <= i < s.len() ==> (#[trigger] s[i]).terminal(),
    decreases s.len() - from,
{
    if from < s.len() && s[from].terminal() {
        lemma_first_open(s, from + 1);
    }
}

impl PostRun {
    /// Turn to the first open leg at or after an index.
    fn turn(self, from: usize) -> (r: Self)
        requires
            1 <= self.max_attempts,
            budget_fits(self.targets@, self.max_attempts),
        ensures
            r@ == self@.from(from as int),
            r@.wf(),
    {
        proof {
            lemma_first_open(publish::target_statuses(self.targets@), from as int);
        }
        match next_target(&self.targets, from) {
            Some(k) => PostRun { at: k, stage: Stage::Claim, ..self },
            None => {
                let n: usize = self.targets.len();
                PostRun { at: n, stage: Stage::Over, ..self }
            },
        }
    }

    /// The run of a claimed post, from its targets as they are listed and its draft,
    /// read once for all of them.
    pub fn start(
        post: &ScheduledPost,
        settings: &SocialSettings,
        targets: Vec<PostTarget>,
        draft_body: Option<DraftBody>,
    ) -> (r: Self)
        requires
            budget_fits(targets@, publish::effective_attempts(settings.max_attempts)),
        ensures
            r@ == fresh(post.id@, publish::opt_body(draft_body), targets@, *settings),
            r@.wf(),
    {
        let run = PostRun {
            post_id: post.id.clone(),
            draft_body,
            targets,
            max_attempts: effective_max_attempts(settings),
            base_backoff_ms: settings.base_backoff_ms,
            at: 0,
            stage: Stage::Over,
            outcomes: Vec::new(),
        };
        assert(outcome_views(run.outcomes@) =~= Seq::empty());
        run.turn(0)
    }

    /// The claim of the leg was won or lost.
    pub fn claimed(self, won: bool) -> (r: Self)
        requires
            self@.wf(),
            self@.stage is Claim,
        ensures
            r@ == self@.claimed(won),
            r@.wf(),
    {
        if won {
            PostRun { stage: Stage::Read, ..self }
        } else {
            assert(self.at < self.targets.len());
            let next: usize = self.at + 1;
            self.turn(next)
        }
    }

    /// The leg's history and its account were read.
    pub fn looked_up(self, history: &[PostHistoryEntry], account: Option<&SocialAccount>) -> (r:
        Self)
        requires
            self@.wf(),
            self@.stage is Read,
        ensures
            r@ == self@.looked_up(
                history@,
                match account {
                    Some(a) => Some(*a),
                    None => None,
                },
            ),
            r@.wf(),
    {
        let target: &PostTarget = &self.targets[self.at];
        let body: Option<&DraftBody> = match &self.draft_body {
            Some(b) => Some(b),
            None => None,
        };
        let stage: Stage = match plan_target(
            self.post_id.as_str(),
            target,
            history,
            account,
            body,
        ) {
            TargetPlan::Settle(s) => Stage::Record(s),
            TargetPlan::Attempt(request) => Stage::Call {
                request,
                run: AttemptRun::start(target.attempts, self.max_attempts, self.base_backoff_ms),
                wait_ms: 0,
            },
        };
        PostRun { stage, ..self }
    }

    /// The provider answered, or did not in time.
    pub fn answered(self, result: PublishResult) -> (r: Self)
        requires
            self@.wf(),
            self@.stage is Call,
        ensures
            r@ == self@.answered(result@),
            r@.wf(),
            r@.stage is Call || r@.stage is Record,
    {
        let PostRun {
            post_id,
            draft_body,
            targets,
            max_attempts,
            base_backoff_ms,
            at,
            stage,
            outcomes,
        } = self;
        let stage: Stage = match stage {
            Stage::Call { request, run, .. } => match run.observe(&targets[at], result) {
                AttemptStep::Again { run: next, wait_ms } => Stage::Call {
                    request,
                    run: next,
                    wait_ms,
                },
                AttemptStep::Done(s) => Stage::Record(s),
            },
            other => other,
        };
        PostRun {
            post_id,
            draft_body,
            targets,
            max_attempts,
            base_backoff_ms,
            at,
            stage,
            outcomes,
        }
    }

    /// The end of the leg was written down.
    pub fn recorded(self) -> (r: Self)
        requires
            self@.wf(),
            self@.stage is Record,
        ensures
            r@ == self@.recorded(),
            r@.wf(),
    {
        let PostRun {
            post_id,
            draft_body,
            targets,
            max_attempts,
            base_backoff_ms,
            at,
            stage,
            outcomes,
        } = self;
        assert(at < targets.len());
        let mut outcomes: Vec<TargetOutcome> = outcomes;
        let ghost before = outcomes@;
        match stage {
            Stage::Record(s) => {
                outcomes.push(s.outcome);
                assert(outcome_views(outcomes@) =~= outcome_views(before).push(s.outcome@));
            },
            _ => {},
        }
        let run = PostRun {
            post_id,
            draft_body,
            targets,
            max_attempts,
            base_backoff_ms,
            at,
            stage: Stage::Over,
            outcomes,
        };
        run.turn(at + 1)
    }

    /// What is reported, from the targets as they were read back.
    pub fn finish(self, persisted: &Vec<PostTarget>) -> (r: PostOutcome)
        ensures
            r.post_id@ == self@.post_id,
            r.status == reported_status(persisted@),
            outcome_views(r.targets@) == self@.outcomes,
    {
        let status: PostStatus = match settle_post(persisted) {
            Some(s) => s,
            None => PostStatus::Publishing,
        };
        PostOutcome { post_id: self.post_id, status, targets: self.outcomes }
    }
}

// ── Whole runs ─────────────────────────────────────────────────────────────────

/// What a leg meets: whether its claim is won, what is read of it, and the provider's
/// answers.
pub struct LegView {
    pub won: bool,
    pub history: Seq<PostHistoryEntry>,
    pub account: Option<SocialAccount>,
    pub results: Seq<ResultView>,
}

/// A run fed with a row of answers while it calls.
pub open spec fn after_calls(v: RunView, results: Seq<ResultView>) -> RunView
    decreases results.len(),
{
    if v.stage is Call && results.len() > 0 {
        after_calls(v.answered(results[0]), results.drop_first())
    } else {
        v
    }
}

/// A run taken over the leg at hand.
pub open spec fn after_leg(v: RunView, leg: LegView) -> RunView {
    if leg.won {
        after_calls(v.claimed(true).looked_up(leg.history, leg.account), leg.results).recorded()
    } else {
        v.claimed(false)
    }
}

/// A run taken over a row of legs.
pub open spec fn after_legs(v: RunView, legs: Seq<LegView>) -> RunView
    decreases legs.len(),
{
    if legs.len() == 0 || v.stage is Over {
        v
    } else {
        after_legs(after_leg(v, legs[0]), legs.drop_first())
    }
}

/// How the leg at hand ends, where its answers suffice.
pub open spec fn leg_end(v: RunView, leg: LegView) -> Option<SettlementView> {
    match v.plan(leg.history, leg.account) {
        publish::PlanView::Settle(s) => Some(s),
        publish::PlanView::Attempt(_) => publish::drive(
            v.fresh_run(),
            v.targets[v.at].id@,
            v.targets[v.at].platform,
            leg.results,
        ),
    }
}

proof fn lemma_calls_end(v: RunView, results: Seq<ResultView>)
    requires
        v.stage is Call,
        publish::drive(
            v.stage->run,
            v.targets[v.at].id@,
            v.targets[v.at].platform,
            results,
        ) is Some,
    ensures
        after_calls(v, results) == (RunView {
            stage: StageView::Record(
                publish::drive(
                    v.stage->run,
                    v.targets[v.at].id@,
                    v.targets[v.at].platform,
                    results,
                )->0,
            ),
            ..v
        }),
    decreases results.len(),
{
    let next = v.answered(results[0]);
    if next.stage is Call {
        lemma_calls_end(next, results.drop_first());
    } else {
        assert(after_calls(next, results.drop_first()) == next);
    }
}

/// A claimed leg whose answers suffice is reported once, as it ended, and the run
/// turns to the next open leg. What it is sent, if anything, is what was planned.
pub proof fn a_leg_is_reported_once(v: RunView, leg: LegView)
    requires
        v.wf(),
        v.stage is Claim,
        leg.won,
        leg_end(v, leg) is Some,
    ensures
        after_leg(v, leg) == (RunView {
            outcomes: v.outcomes.push(leg_end(v, leg)->0.outcome),
            ..v
        }).from(v.at + 1),
        after_leg(v, leg).stage is Over || after_leg(v, leg).at > v.at,
{
    let w = v.claimed(true).looked_up(leg.history, leg.account);
    if w.stage is Call {
        lemma_calls_end(w, leg.results);
    }
    let s = leg_end(v, leg)->0;
    assert(after_calls(w, leg.results) == (RunView { stage: StageView::Record(s), ..v }));
    lemma_first_open(publish::target_statuses(v.targets), v.at + 1);
    assert(after_leg(v, leg) =~= (RunView { outcomes: v.outcomes.push(s.outcome), ..v }).from(
        v.at + 1,
    ));
}

/// Every call that a leg makes carries the same request, whatever the answers.
pub proof fn every_call_of_a_leg_is_the_same(v: RunView, results: Seq<ResultView>)
    requires
        v.stage is Call,
        after_calls(v, results).stage is Call,
    ensures
        after_calls(v, results).stage->request == v.stage->request,
        after_calls(v, results).at == v.at,
    decreases results.len(),
{
    if results.len() > 0 {
        let next = v.answered(results[0]);
        if next.stage is Call {
            every_call_of_a_leg_is_the_same(next, results.drop_first());
        } else {
            assert(after_calls(next, results.drop_first()) == next);
        }
    }
}

/// The reports of a row of legs that are turned to from an index on.
pub open spec fn reports(v: RunView, legs: Seq<LegView>) -> Seq<OutcomeView>
    decreases legs.len(),
{
    if legs.len() == 0 || v.stage is Over {
        Seq::empty()
    } else {
        let rest = reports(v.claimed(false), legs.drop_first());
        if legs[0].won {
            seq![leg_end(v, legs[0])->0.outcome] + rest
        } else {
            rest
        }
    }
}

/// Every leg that is claimed ends.
pub open spec fn all_end(v: RunView, legs: Seq<LegView>) -> bool
    decreases legs.len(),
{
    legs.len() > 0 && !(v.stage is Over) ==> {
        &&& legs[0].won ==> leg_end(v, legs[0]) is Some
        &&& all_end(v.claimed(false), legs.drop_first())
    }
}

/// Two runs that differ at most in what has been reported go the same way.
pub open spec fn same_way(v: RunView, w: RunView) -> bool {
    v == (RunView { outcomes: v.outcomes, ..w })
}

proof fn lemma_same_way(v: RunView, w: RunView, legs: Seq<LegView>)
    requires
        same_way(v, w),
    ensures
        reports(v, legs) == reports(w, legs),
        all_end(v, legs) == all_end(w, legs),
    decreases legs.len(),
{
    if legs.len() > 0 && !(v.stage is Over) {
        assert(same_way(v.claimed(false), w.claimed(false)));
        lemma_same_way(v.claimed(false), w.claimed(false), legs.drop_first());
        assert(leg_end(v, legs[0]) == leg_end(w, legs[0]));
    }
}

/// A run takes the legs that were open when they were listed, each once and in their
/// order, passes over those that another worker holds, and reports the others as they
/// ended.
pub proof fn a_run_reports_its_legs_in_order(v: RunView, legs: Seq<LegView>)
    requires
        v.wf(),
        v.stage is Claim || v.stage is Over,
        all_end(v, legs),
    ensures
        after_legs(v, legs).outcomes == v.outcomes + reports(v, legs),
        after_legs(v, legs).wf(),
        after_legs(v, legs).stage is Claim || after_legs(v, legs).stage is Over,
    decreases legs.len(),
{
    if legs.len() == 0 || v.stage is Over {
        assert(v.outcomes + reports(v, legs) =~= v.outcomes);
    } else {
        let leg = legs[0];
        let next = after_leg(v, leg);
        let passed = v.claimed(false);
        lemma_first_open(publish::target_statuses(v.targets), v.at + 1);
        if leg.won {
            a_leg_is_reported_once(v, leg);
        }
        assert(same_way(next, passed));
        lemma_same_way(next, passed, legs.drop_first());
        a_run_reports_its_legs_in_order(next, legs.drop_first());
        assert(after_legs(v, legs).outcomes =~= v.outcomes + reports(v, legs));
    }
}

proof fn lemma_run_advances(v: RunView, legs: Seq<LegView>)
    requires
        v.wf(),
        v.stage is Claim || v.stage is Over,
        all_end(v, legs),
        v.stage is Claim ==> legs.len() >= v.targets.len() - v.at,
    ensures
        after_legs(v, legs).stage is Over,
    decreases legs.len(),
{
    if v.stage is Claim {
        let leg = legs[0];
        let next = after_leg(v, leg);
        let passed = v.claimed(false);
        lemma_first_open(publish::target_statuses(v.targets), v.at + 1);
        if leg.won {
            a_leg_is_reported_once(v, leg);
        }
        assert(same_way(next, passed));
        lemma_same_way(next, passed, legs.drop_first());
        lemma_run_advances(next, legs.drop_first());
    }
}

/// A run comes to its end: it takes no more legs than the post has targets. One whose
/// targets are all over already is at its end from the start, and asks for nothing.
pub proof fn a_run_comes_to_its_end(
    post_id: Seq<char>,
    draft: Option<draft::DraftBodyView>,
    targets: Seq<PostTarget>,
    settings: SocialSettings,
    legs: Seq<LegView>,
)
    requires
        budget_fits(targets, publish::effective_attempts(settings.max_attempts)),
        legs.len() == targets.len(),
        all_end(fresh(post_id, draft, targets, settings), legs),
    ensures
        after_legs(fresh(post_id, draft, targets, settings), legs).stage is Over,
        (forall|i: int| 0 <= i < targets.len() ==> (#[trigger] targets[i]).status.terminal()) ==> fresh(
            post_id,
            draft,
            targets,
            settings,
        ).stage is Over,
{
    let v = fresh(post_id, draft, targets, settings);
    let statuses = publish::target_statuses(targets);
    lemma_first_open(statuses, 0);
    if v.stage is Claim {
        assert(!targets[v.at].status.terminal());
    }
    lemma_run_advances(v, legs);
}

// ── Step by step ───────────────────────────────────────────────────────────────

/// A run starts at the first target that is pending or being published, with nothing
/// reported, and with the attempts and the first wait that the settings name.
pub proof fn a_run_starts_at_its_first_open_leg(
    post_id: Seq<char>,
    draft: Option<draft::DraftBodyView>,
    targets: Seq<PostTarget>,
    settings: SocialSettings,
)
    ensures
        ({
            let v = fresh(post_id, draft, targets, settings);
            &&& v.post_id == post_id && v.draft == draft && v.targets == targets
            &&& v.outcomes.len() == 0
            &&& v.base_backoff_ms == settings.base_backoff_ms
            &&& v.max_attempts == publish::effective_attempts(settings.max_attempts)
            &&& v.stage is Claim || v.stage is Over
            &&& v.stage is Over <==> forall|i: int|
                0 <= i < targets.len() ==> (#[trigger] targets[i]).status
                    != TargetStatus::Pending && targets[i].status
                    != TargetStatus::Publishing
            &&& v.stage is Claim ==> {
                &&& 0 <= v.at < targets.len()
                &&& targets[v.at].status == TargetStatus::Pending
                    || targets[v.at].status == TargetStatus::Publishing
                &&& forall|i: int|
                    0 <= i < v.at ==> (#[trigger] targets[i]).status
                        != TargetStatus::Pending && targets[i].status
                        != TargetStatus::Publishing
            }
        }),
{
    let s = publish::target_statuses(targets);
    publish::no_open_target_is_skipped(s, 0);
    assert forall|i: int| 0 <= i < targets.len() implies (#[trigger] targets[i]).status == s[i] by {}
    if publish::first_open(s, 0) is Some {
        let k = publish::first_open(s, 0)->0;
        assert(targets[k].status == s[k]);
    }
}

/// A claim that is won leads to reading the leg; one that is lost leads to the next open
/// leg, or to the end, and reports nothing. Neither changes anything else.
pub proof fn a_lost_claim_passes_to_the_next_leg(v: RunView, won: bool)
    requires
        v.wf(),
        v.stage is Claim,
    ensures
        ({
            let w = v.claimed(won);
            &&& w.outcomes == v.outcomes && w.post_id == v.post_id && w.draft == v.draft && w.targets
                == v.targets && w.max_attempts == v.max_attempts && w.base_backoff_ms
                == v.base_backoff_ms
            &&& won ==> w.stage is Read && w.at == v.at
            &&& !won ==> w.at > v.at && (w.stage is Claim || w.stage is Over)
            &&& !won && w.stage is Over ==> forall|i: int|
                v.at < i < v.targets.len() ==> (#[trigger] v.targets[i]).status
                    != TargetStatus::Pending && v.targets[i].status
                    != TargetStatus::Publishing
            &&& !won && w.stage is Claim ==> forall|i: int|
                v.at < i < w.at ==> (#[trigger] v.targets[i]).status
                    != TargetStatus::Pending && v.targets[i].status
                    != TargetStatus::Publishing
        }),
{
    let s = publish::target_statuses(v.targets);
    publish::no_open_target_is_skipped(s, v.at + 1);
    assert forall|i: int| 0 <= i < v.targets.len() implies (#[trigger] v.targets[i]).status
        == s[i] by {}
}

/// What was read of a leg decides whether it is called for: with the request that is
/// planned for its target, account, history and draft, at once, with its whole budget,
/// and with the calls of earlier runs on its count. Else it is over, and written down.
pub proof fn a_leg_is_called_for_as_planned(
    v: RunView,
    history: Seq<PostHistoryEntry>,
    account: Option<SocialAccount>,
)
    requires
        v.wf(),
        v.stage is Read,
    ensures
        ({
            let w = v.looked_up(history, account);
            let target = v.targets[v.at];
            let plan = publish::plan_of(
                v.post_id,
                target,
                history,
                publish::account_of(target, account),
                v.draft,
            );
            &&& w.at == v.at && w.outcomes == v.outcomes && w.targets == v.targets
            &&& plan matches publish::PlanView::Attempt(q) ==> {
                &&& w.stage is Call
                &&& w.stage->request == q
                &&& w.stage->wait_ms == 0
                &&& w.stage->run.made == 0
                &&& w.stage->run.before == target.attempts
                &&& w.stage->run.max_attempts == v.max_attempts
                &&& w.stage->run.base_backoff_ms == v.base_backoff_ms
            }
            &&& plan matches publish::PlanView::Settle(s) ==> w.stage == StageView::Record(s)
        }),
{
}

/// A published answer ends the calls of a leg; a refusal ends them when the budget is
/// spent, and otherwise the same request is sent again, one call on, after its wait.
pub proof fn an_answer_moves_a_leg_on(v: RunView, result: ResultView)
    requires
        v.wf(),
        v.stage is Call,
    ensures
        ({
            let w = v.answered(result);
            let run = v.stage->run;
            let target = v.targets[v.at];
            &&& w.at == v.at && w.outcomes == v.outcomes && w.targets == v.targets
            &&& result is Refused && run.made + 1 < run.max_attempts ==> {
                &&& w.stage is Call
                &&& w.stage->request == v.stage->request
                &&& w.stage->run.made == run.made + 1
                &&& w.stage->run.before == run.before
                &&& w.stage->run.max_attempts == run.max_attempts
                &&& w.stage->run.base_backoff_ms == run.base_backoff_ms
                &&& w.stage->wait_ms == publish::backoff(
                    (run.made + 1) as nat,
                    v.base_backoff_ms as nat,
                )
            }
            &&& result is Published || run.made + 1 == run.max_attempts ==> {
                &&& w.stage is Record
                &&& w.stage->0.outcome.target_id == target.id@
                &&& w.stage->0.outcome.platform == target.platform
                &&& w.stage->0.attempts == target.attempts + run.made + 1
                &&& w.stage->0.outcome.attempts == run.made + 1
                &&& w.stage->0.status == w.stage->0.outcome.status
                &&& result matches ResultView::Published { remote_id, remote_url } ==> {
                    &&& w.stage->0.status == TargetStatus::Published
                    &&& w.stage->0.outcome.remote_id == Some(remote_id)
                    &&& w.stage->0.outcome.remote_url == remote_url
                }
                &&& result matches ResultView::Refused { error } ==> {
                    &&& w.stage->0.status == TargetStatus::Failed
                    &&& w.stage->0.outcome.error == Some(error)
                    &&& w.stage->0.outcome.remote_id is None
                }
            }
        }),
{
    publish::an_answer_ends_a_run_or_repeats_it(
        v.stage->run,
        v.targets[v.at].id@,
        v.targets[v.at].platform,
        result,
    );
}

/// What was written down of a leg is reported, behind what was reported before, and the
/// run turns to the next open leg.
pub proof fn what_is_written_down_is_reported(v: RunView)
    requires
        v.wf(),
        v.stage is Record,
    ensures
        v.recorded().outcomes == v.outcomes.push(v.stage->0.outcome),
        v.recorded().at > v.at,
        v.recorded().stage is Claim || v.recorded().stage is Over,
        v.recorded().targets == v.targets,
        v.recorded().stage is Claim ==> (v.targets[v.recorded().at].status
            == TargetStatus::Pending || v.targets[v.recorded().at].status
            == TargetStatus::Publishing) && forall|i: int|
            v.at < i < v.recorded().at ==> (#[trigger] v.targets[i]).status
                != TargetStatus::Pending && v.targets[i].status
                != TargetStatus::Publishing,
{
    let s = publish::target_statuses(v.targets);
    publish::no_open_target_is_skipped(s, v.at + 1);
    assert forall|i: int| 0 <= i < v.targets.len() implies (#[trigger] v.targets[i]).status
        == s[i] by {}
}

/// A post is reported as publishing while a stored target is open, and as what its
/// stored targets are once none is.
pub proof fn the_stored_targets_decide(persisted: Seq<PostTarget>)
    ensures
        reported_status(persisted) == PostStatus::Publishing <==> exists|i: int|
            0 <= i < persisted.len() && ((#[trigger] persisted[i]).status
                == TargetStatus::Pending || persisted[i].status
                == TargetStatus::Publishing),
        reported_status(persisted) == PostStatus::Published ==> persisted.len() > 0 && forall|i: int|
            0 <= i < persisted.len() ==> (#[trigger] persisted[i]).status
                == TargetStatus::Published,
        reported_status(persisted) == PostStatus::Failed ==> forall|i: int|
            0 <= i < persisted.len() ==> (#[trigger] persisted[i]).status
                != TargetStatus::Published,
        reported_status(persisted) == PostStatus::Publishing || reported_status(persisted)
            == PostStatus::Published || reported_status(persisted) == PostStatus::Failed
            || reported_status(persisted) == PostStatus::Partial,
{
    let s = publish::target_statuses(persisted);
    publish::a_post_is_judged_when_no_target_is_open(s, PostStatus::Failed);
    publish::a_post_is_what_its_targets_are(s);
    assert forall|i: int| 0 <= i < persisted.len() implies (#[trigger] persisted[i]).status
        == s[i] by {}
    if exists|i: int|
        0 <= i < s.len() && (#[trigger] s[i] == TargetStatus::Pending || s[i]
            == TargetStatus::Publishing) {
        let i = choose|i: int|
            0 <= i < s.len() && (#[trigger] s[i] == TargetStatus::Pending || s[i]
                == TargetStatus::Publishing);
        assert(persisted[i].status == s[i]);
    }
}

} // verus!
