//! Carrying out an operation of the store, one step after the other.

use vstd::prelude::*;
use vstd::string::*;

use crate::actions::{ActionView, DiskAction, Finish, FinishView, Outcome, OutcomeView, Trouble};
use crate::records::{ErrorView, StoreError};
use crate::store::{ImageStore, StoreView};
use crate::{actions, store};

verus! {

broadcast use vstd::string::group_string_axioms;

/// An operation that is being carried out, and the steps of its current phase
/// that are still to be taken.
#[derive(Debug)]
pub enum Work {
    /// Making an item count as the most recent one. A failure ends the phase and
    /// nothing else.
    Refresh {
        waiting: Vec<DiskAction>,
        required: Vec<DiskAction>,
        finish: Finish,
        cleanup: Vec<DiskAction>,
    },
    /// What the operation cannot do without. A failure ends the operation, and
    /// the store stays as it is.
    Required { waiting: Vec<DiskAction>, finish: Finish, cleanup: Vec<DiskAction> },
    /// What remains once the store is complete. A failure ends the operation.
    Cleanup { waiting: Vec<DiskAction>, result: Result<bool, StoreError> },
}

#[verifier::ext_equal]
pub enum WorkView {
    Refresh {
        waiting: Seq<ActionView>,
        required: Seq<ActionView>,
        finish: FinishView,
        cleanup: Seq<ActionView>,
    },
    Required { waiting: Seq<ActionView>, finish: FinishView, cleanup: Seq<ActionView> },
    Cleanup { waiting: Seq<ActionView>, result: Result<bool, ErrorView> },
}

impl View for Work {
    type V = WorkView;

    open spec fn view(&self) -> WorkView {
        match *self {
            Work::Refresh { waiting, required, finish, cleanup } => WorkView::Refresh {
                waiting: actions::action_views(waiting@),
                required: actions::action_views(required@),
                finish: finish@,
                cleanup: actions::action_views(cleanup@),
            },
            Work::Required { waiting, finish, cleanup } => WorkView::Required {
                waiting: actions::action_views(waiting@),
                finish: finish@,
                cleanup: actions::action_views(cleanup@),
            },
            Work::Cleanup { waiting, result } => WorkView::Cleanup {
                waiting: actions::action_views(waiting@),
                result: store::result_view(result),
            },
        }
    }
}

/// What is to be done next.
#[derive(Debug)]
pub enum WorkStep {
    /// Perform the step, report it if it fails, and go on.
    Perform { action: DiskAction, work: Work },
    /// The operation has ended.
    Done { result: Result<bool, StoreError> },
}

#[verifier::ext_equal]
pub enum WorkStepView {
    Perform { action: ActionView, work: WorkView },
    Done { result: Result<bool, ErrorView> },
}

impl View for WorkStep {
    type V = WorkStepView;

    open spec fn view(&self) -> WorkStepView {
        match *self {
            WorkStep::Perform { action, work } => WorkStepView::Perform {
                action: action@,
                work: work@,
            },
            WorkStep::Done { result } => WorkStepView::Done { result: store::result_view(result) },
        }
    }
}

/// The next step of the cleanup.
pub open spec fn cleanup_step(
    waiting: Seq<ActionView>,
    result: Result<bool, ErrorView>,
) -> WorkStepView {
    if waiting.len() > 0 {
        WorkStepView::Perform {
            action: waiting[0],
            work: WorkView::Cleanup { waiting: waiting.drop_first(), result },
        }
    } else {
        WorkStepView::Done { result }
    }
}

/// The next of the required steps, or what follows them, and the store then.
pub open spec fn required_step(
    waiting: Seq<ActionView>,
    finish: FinishView,
    cleanup: Seq<ActionView>,
    store: StoreView,
) -> (StoreView, WorkStepView) {
    if waiting.len() > 0 {
        (
            store,
            WorkStepView::Perform {
                action: waiting[0],
                work: WorkView::Required { waiting: waiting.drop_first(), finish, cleanup },
            },
        )
    } else {
        let (completed, result) = store.completed(finish);
        (
            completed,
            cleanup_step(
                if result is Ok {
                    cleanup
                } else {
                    Seq::empty()
                },
                result,
            ),
        )
    }
}

impl WorkView {
    /// An operation of which nothing has been done yet.
    pub open spec fn of(outcome: OutcomeView) -> WorkView {
        WorkView::Refresh {
            waiting: outcome.refresh,
            required: outcome.required,
            finish: outcome.finish,
            cleanup: outcome.cleanup,
        }
    }

    /// The next step, and the store when it is taken. The store is completed once
    /// the required steps are done.
    pub open spec fn next(self, store: StoreView) -> (StoreView, WorkStepView) {
        match self {
            WorkView::Refresh { waiting, required, finish, cleanup } => if waiting.len() > 0 {
                (
                    store,
                    WorkStepView::Perform {
                        action: waiting[0],
                        work: WorkView::Refresh {
                            waiting: waiting.drop_first(),
                            required,
                            finish,
                            cleanup,
                        },
                    },
                )
            } else {
                required_step(required, finish, cleanup, store)
            },
            WorkView::Required { waiting, finish, cleanup } => required_step(
                waiting,
                finish,
                cleanup,
                store,
            ),
            WorkView::Cleanup { waiting, result } => (store, cleanup_step(waiting, result)),
        }
    }

    /// The operation after the step that was taken last has failed.
    pub open spec fn failed(self, error: ErrorView) -> WorkView {
        match self {
            WorkView::Refresh { required, finish, cleanup, .. } => WorkView::Required {
                waiting: required,
                finish,
                cleanup,
            },
            WorkView::Required { .. } => WorkView::Cleanup {
                waiting: Seq::empty(),
                result: Err(error),
            },
            WorkView::Cleanup { .. } => WorkView::Cleanup {
                waiting: Seq::empty(),
                result: Err(error),
            },
        }
    }

    /// How many steps are left, if none fails.
    pub open spec fn steps_left(self) -> nat {
        match self {
            WorkView::Refresh { waiting, required, cleanup, .. } => waiting.len() + required.len()
                + cleanup.len(),
            WorkView::Required { waiting, cleanup, .. } => waiting.len() + cleanup.len(),
            WorkView::Cleanup { waiting, .. } => waiting.len(),
        }
    }

    /// The store and the result once the operation has ended. What each step
    /// comes to is given in order; a step of which nothing is given succeeds.
    pub open spec fn carried_out(self, store: StoreView, troubles: Seq<Option<Trouble>>) -> (
        StoreView,
        Result<bool, ErrorView>,
    )
        decreases self.steps_left(),
    {
        match self.next(store) {
            (after, WorkStepView::Done { result }) => (after, result),
            (after, WorkStepView::Perform { action, work }) => {
                let rest = if troubles.len() > 0 {
                    troubles.drop_first()
                } else {
                    troubles
                };
                if troubles.len() > 0 && troubles[0] is Some {
                    work.failed(action.failure(troubles[0]->Some_0)).carried_out(after, rest)
                } else {
                    work.carried_out(after, rest)
                }
            },
        }
    }
}

fn take_first(waiting: &mut Vec<DiskAction>) -> (action: DiskAction)
    requires
        old(waiting)@.len() > 0,
    ensures
        action@ == actions::action_views(old(waiting)@)[0],
        actions::action_views(final(waiting)@) == actions::action_views(old(waiting)@).drop_first(),
{
    let ghost before = actions::action_views(waiting@);
    let action = waiting.remove(0);
    assert(action@ == before[0]);
    assert(actions::action_views(waiting@) =~= before.drop_first());
    action
}

fn next_cleanup(mut waiting: Vec<DiskAction>, result: Result<bool, StoreError>) -> (step: WorkStep)
    ensures
        step@ == cleanup_step(actions::action_views(waiting@), store::result_view(result)),
{
    if waiting.len() > 0 {
        let action = take_first(&mut waiting);
        WorkStep::Perform { action, work: Work::Cleanup { waiting, result } }
    } else {
        WorkStep::Done { result }
    }
}

fn next_required(
    mut waiting: Vec<DiskAction>,
    finish: Finish,
    cleanup: Vec<DiskAction>,
    store: &mut ImageStore,
) -> (step: WorkStep)
    ensures
        (final(store)@, step@) == required_step(
            actions::action_views(waiting@),
            finish@,
            actions::action_views(cleanup@),
            old(store)@,
        ),
{
    if waiting.len() > 0 {
        let action = take_first(&mut waiting);
        return WorkStep::Perform { action, work: Work::Required { waiting, finish, cleanup } };
    }
    let result = store.complete(finish);
    if result.is_ok() {
        next_cleanup(cleanup, result)
    } else {
        let none: Vec<DiskAction> = Vec::new();
        assert(actions::action_views(none@) =~= Seq::<ActionView>::empty());
        next_cleanup(none, result)
    }
}

impl Work {
    /// Begins to carry out an operation.
    pub fn begin(outcome: Outcome) -> (work: Work)
        ensures
            work@ == WorkView::of(outcome@),
    {
        Work::Refresh {
            waiting: outcome.refresh,
            required: outcome.required,
            finish: outcome.finish,
            cleanup: outcome.cleanup,
        }
    }

    /// Begins to remove the files of items that are out of the store.
    pub fn removing(steps: Vec<DiskAction>) -> (work: Work)
        ensures
            work@ == (WorkView::Cleanup { waiting: actions::action_views(steps@), result: Ok(true) }),
    {
        Work::Cleanup { waiting: steps, result: Ok(true) }
    }

    /// What is to be done next.
    pub fn next(self, store: &mut ImageStore) -> (step: WorkStep)
        ensures
            (final(store)@, step@) == self@.next(old(store)@),
    {
        match self {
            Work::Refresh { mut waiting, required, finish, cleanup } => {
                if waiting.len() > 0 {
                    let action = take_first(&mut waiting);
                    WorkStep::Perform {
                        action,
                        work: Work::Refresh { waiting, required, finish, cleanup },
                    }
                } else {
                    next_required(required, finish, cleanup, store)
                }
            },
            Work::Required { waiting, finish, cleanup } => {
                next_required(waiting, finish, cleanup, store)
            },
            Work::Cleanup { waiting, result } => next_cleanup(waiting, result),
        }
    }

    /// Goes on after the step that was taken last has failed.
    pub fn failed(self, action: &DiskAction, trouble: &Trouble) -> (work: Work)
        ensures
            work@ == self@.failed(action@.failure(*trouble)),
    {
        let error = action.failure(trouble);
        let waiting: Vec<DiskAction> = Vec::new();
        assert(actions::action_views(waiting@) =~= Seq::<ActionView>::empty());
        match self {
            Work::Refresh { required, finish, cleanup, .. } => {
                Work::Required { waiting: required, finish, cleanup }
            },
            Work::Required { .. } => Work::Cleanup { waiting, result: Err(error) },
            Work::Cleanup { .. } => Work::Cleanup { waiting, result: Err(error) },
        }
    }
}

// ---------------------------------------------------------------------------
// Laws
// ---------------------------------------------------------------------------

proof fn lemma_cleanup_keeps(
    waiting: Seq<ActionView>,
    result: Result<bool, ErrorView>,
    store: StoreView,
    troubles: Seq<Option<Trouble>>,
)
    ensures
        (WorkView::Cleanup { waiting, result }).carried_out(store, troubles).0 == store,
        (forall|i: int| 0 <= i < troubles.len() ==> (#[trigger] troubles[i]) is None) ==> (
        WorkView::Cleanup { waiting, result }).carried_out(store, troubles).1 == result,
    decreases waiting.len(),
{
    let work = WorkView::Cleanup { waiting, result };
    if waiting.len() > 0 {
        let rest = if troubles.len() > 0 {
            troubles.drop_first()
        } else {
            troubles
        };
        if troubles.len() > 0 && troubles[0] is Some {
            let error = waiting[0].failure(troubles[0]->Some_0);
            lemma_cleanup_keeps(Seq::empty(), Err(error), store, rest);
        } else {
            lemma_cleanup_keeps(waiting.drop_first(), result, store, rest);
        }
    }
}

proof fn lemma_required_succeeds(
    waiting: Seq<ActionView>,
    finish: FinishView,
    cleanup: Seq<ActionView>,
    store: StoreView,
    troubles: Seq<Option<Trouble>>,
)
    requires
        forall|i: int| 0 <= i < troubles.len() ==> (#[trigger] troubles[i]) is None,
    ensures
        (WorkView::Required { waiting, finish, cleanup }).carried_out(store, troubles)
            == store.completed(finish),
    decreases waiting.len(),
{
    let work = WorkView::Required { waiting, finish, cleanup };
    let rest = if troubles.len() > 0 {
        troubles.drop_first()
    } else {
        troubles
    };
    if waiting.len() > 0 {
        lemma_required_succeeds(waiting.drop_first(), finish, cleanup, store, rest);
    } else {
        let (completed, result) = store.completed(finish);
        let left = if result is Ok {
            cleanup
        } else {
            Seq::empty()
        };
        lemma_cleanup_keeps(left, result, completed, troubles);
        assert(work.carried_out(store, troubles) == (WorkView::Cleanup {
            waiting: left,
            result,
        }).carried_out(completed, troubles));
    }
}

/// An operation of which no step fails ends as the store said it would.
pub proof fn law_carried_out(
    outcome: OutcomeView,
    store: StoreView,
    troubles: Seq<Option<Trouble>>,
)
    requires
        forall|i: int| 0 <= i < troubles.len() ==> (#[trigger] troubles[i]) is None,
    ensures
        WorkView::of(outcome).carried_out(store, troubles) == store.completed(outcome.finish),
    decreases outcome.refresh.len(),
{
    let work = WorkView::of(outcome);
    if outcome.refresh.len() > 0 {
        let rest = if troubles.len() > 0 {
            troubles.drop_first()
        } else {
            troubles
        };
        let later = OutcomeView { refresh: outcome.refresh.drop_first(), ..outcome };
        law_carried_out(later, store, rest);
        assert(work.carried_out(store, troubles) == WorkView::of(later).carried_out(store, rest));
    } else {
        lemma_required_succeeds(
            outcome.required,
            outcome.finish,
            outcome.cleanup,
            store,
            troubles,
        );
        assert(work.carried_out(store, troubles) == (WorkView::Required {
            waiting: outcome.required,
            finish: outcome.finish,
            cleanup: outcome.cleanup,
        }).carried_out(store, troubles));
    }
}

proof fn lemma_required_all_or_nothing(
    waiting: Seq<ActionView>,
    finish: FinishView,
    cleanup: Seq<ActionView>,
    store: StoreView,
    troubles: Seq<Option<Trouble>>,
)
    ensures
        ({
            let (after, result) = (WorkView::Required { waiting, finish, cleanup }).carried_out(
                store,
                troubles,
            );
            after == store.completed(finish).0 || (after == store && result is Err)
        }),
    decreases waiting.len(),
{
    let work = WorkView::Required { waiting, finish, cleanup };
    let rest = if troubles.len() > 0 {
        troubles.drop_first()
    } else {
        troubles
    };
    if waiting.len() > 0 {
        if troubles.len() > 0 && troubles[0] is Some {
            let error = waiting[0].failure(troubles[0]->Some_0);
            lemma_cleanup_keeps(Seq::empty(), Err(error), store, rest);
        } else {
            lemma_required_all_or_nothing(waiting.drop_first(), finish, cleanup, store, rest);
        }
    } else {
        let (completed, result) = store.completed(finish);
        let left = if result is Ok {
            cleanup
        } else {
            Seq::empty()
        };
        lemma_cleanup_keeps(left, result, completed, troubles);
        assert(work.carried_out(store, troubles) == (WorkView::Cleanup {
            waiting: left,
            result,
        }).carried_out(completed, troubles));
    }
}

/// Whichever steps fail, the store is either completed or left as it is, and in
/// the latter case the operation fails.
pub proof fn law_all_or_nothing(
    outcome: OutcomeView,
    store: StoreView,
    troubles: Seq<Option<Trouble>>,
)
    ensures
        ({
            let (after, result) = WorkView::of(outcome).carried_out(store, troubles);
            after == store.completed(outcome.finish).0 || (after == store && result is Err)
        }),
    decreases outcome.refresh.len(),
{
    let work = WorkView::of(outcome);
    let rest = if troubles.len() > 0 {
        troubles.drop_first()
    } else {
        troubles
    };
    if outcome.refresh.len() > 0 {
        if troubles.len() > 0 && troubles[0] is Some {
            lemma_required_all_or_nothing(
                outcome.required,
                outcome.finish,
                outcome.cleanup,
                store,
                rest,
            );
        } else {
            let later = OutcomeView { refresh: outcome.refresh.drop_first(), ..outcome };
            law_all_or_nothing(later, store, rest);
            assert(work.carried_out(store, troubles) == WorkView::of(later).carried_out(
                store,
                rest,
            ));
        }
    } else {
        lemma_required_all_or_nothing(
            outcome.required,
            outcome.finish,
            outcome.cleanup,
            store,
            troubles,
        );
        assert(work.carried_out(store, troubles) == (WorkView::Required {
            waiting: outcome.required,
            finish: outcome.finish,
            cleanup: outcome.cleanup,
        }).carried_out(store, troubles));
    }
}

// ---------------------------------------------------------------------------
// Which steps are taken
// ---------------------------------------------------------------------------

impl WorkView {
    /// The steps that are taken, in order. What each of them comes to is given in
    /// order; a step of which nothing is given succeeds.
    pub open spec fn taken(self, store: StoreView, troubles: Seq<Option<Trouble>>) -> Seq<
        ActionView,
    >
        decreases self.steps_left(),
    {
        match self.next(store) {
            (_, WorkStepView::Done { .. }) => Seq::empty(),
            (after, WorkStepView::Perform { action, work }) => {
                let rest = if troubles.len() > 0 {
                    troubles.drop_first()
                } else {
                    troubles
                };
                seq![action] + if troubles.len() > 0 && troubles[0] is Some {
                    work.failed(action.failure(troubles[0]->Some_0)).taken(after, rest)
                } else {
                    work.taken(after, rest)
                }
            },
        }
    }
}

/// So many steps that succeed, and then one that fails.
pub open spec fn failing_at(count: nat, trouble: Trouble) -> Seq<Option<Trouble>> {
    Seq::new(count, |i: int| None).push(Some(trouble))
}

proof fn lemma_failing_at(count: nat, trouble: Trouble)
    ensures
        failing_at(count, trouble).len() == count + 1,
        count > 0 ==> failing_at(count, trouble)[0] is None && failing_at(
            count,
            trouble,
        ).drop_first() == failing_at((count - 1) as nat, trouble),
        count == 0 ==> failing_at(count, trouble)[0] == Some(trouble) && failing_at(
            count,
            trouble,
        ).drop_first() == Seq::<Option<Trouble>>::empty(),
{
    if count > 0 {
        assert(failing_at(count, trouble).drop_first() =~= failing_at(
            (count - 1) as nat,
            trouble,
        ));
    } else {
        assert(failing_at(count, trouble).drop_first() =~= Seq::empty());
    }
}

proof fn lemma_cleanup_taken(
    waiting: Seq<ActionView>,
    result: Result<bool, ErrorView>,
    store: StoreView,
    count: nat,
    trouble: Trouble,
)
    ensures
        (WorkView::Cleanup { waiting, result }).taken(store, Seq::empty()) == waiting,
        count < waiting.len() ==> {
            let work = WorkView::Cleanup { waiting, result };
            let troubles = failing_at(count, trouble);
            &&& work.taken(store, troubles) == waiting.take(count as int + 1)
            &&& work.carried_out(store, troubles) == (
                store,
                Err::<bool, ErrorView>(waiting[count as int].failure(trouble)),
            )
        },
    decreases waiting.len(),
{
    let work = WorkView::Cleanup { waiting, result };
    if waiting.len() > 0 {
        let rest = waiting.drop_first();
        lemma_failing_at(count, trouble);
        assert(seq![waiting[0]] + rest =~= waiting);
        if count > 0 {
            lemma_cleanup_taken(rest, result, store, (count - 1) as nat, trouble);
            if count < waiting.len() {
                assert(seq![waiting[0]] + rest.take(count as int) =~= waiting.take(count as int + 1));
            }
        } else {
            lemma_cleanup_taken(rest, result, store, 0, trouble);
            let error = waiting[0].failure(trouble);
            lemma_cleanup_keeps(Seq::empty(), Err(error), store, Seq::empty());
            lemma_cleanup_taken(Seq::empty(), Err(error), store, 0, trouble);
            assert(seq![waiting[0]] + Seq::empty() =~= waiting.take(1));
        }
    }
}

proof fn lemma_required_taken(
    waiting: Seq<ActionView>,
    finish: FinishView,
    cleanup: Seq<ActionView>,
    store: StoreView,
    count: nat,
    trouble: Trouble,
)
    ensures
        ({
            let work = WorkView::Required { waiting, finish, cleanup };
            let troubles = failing_at(count, trouble);
            &&& finish !is Fail ==> work.taken(store, Seq::empty()) == waiting + cleanup
            &&& finish is Fail ==> work.taken(store, Seq::empty()) == waiting
            &&& count < waiting.len() ==> work.taken(store, troubles) == waiting.take(count as int + 1)
                && work.carried_out(store, troubles) == (
                store,
                Err::<bool, ErrorView>(waiting[count as int].failure(trouble)),
            )
            &&& waiting.len() <= count < waiting.len() + cleanup.len() && finish !is Fail
                ==> work.taken(store, troubles) == waiting + cleanup.take(
                count - waiting.len() + 1,
            ) && work.carried_out(store, troubles) == (
                store.completed(finish).0,
                Err::<bool, ErrorView>(cleanup[count - waiting.len()].failure(trouble)),
            )
        }),
    decreases waiting.len(),
{
    let work = WorkView::Required { waiting, finish, cleanup };
    let troubles = failing_at(count, trouble);
    let none = Seq::<Option<Trouble>>::empty();
    if waiting.len() > 0 {
        let rest = waiting.drop_first();
        lemma_failing_at(count, trouble);
        assert(seq![waiting[0]] + rest =~= waiting);
        assert(seq![waiting[0]] + (rest + cleanup) =~= waiting + cleanup);
        if count > 0 {
            let less = (count - 1) as nat;
            lemma_required_taken(rest, finish, cleanup, store, less, trouble);
            if count < waiting.len() {
                assert(seq![waiting[0]] + rest.take(count as int) =~= waiting.take(count as int + 1));
            } else if count < waiting.len() + cleanup.len() {
                let past = cleanup.take(count - waiting.len() + 1);
                assert(less - rest.len() + 1 == count - waiting.len() + 1);
                assert(seq![waiting[0]] + (rest + past) =~= waiting + past);
            }
        } else {
            lemma_required_taken(rest, finish, cleanup, store, 0, trouble);
            let error = waiting[0].failure(trouble);
            lemma_cleanup_keeps(Seq::empty(), Err(error), store, none);
            lemma_cleanup_taken(Seq::empty(), Err(error), store, 0, trouble);
            assert(seq![waiting[0]] + Seq::empty() =~= waiting.take(1));
        }
    } else {
        let (completed, result) = store.completed(finish);
        let left = if result is Ok {
            cleanup
        } else {
            Seq::empty()
        };
        let last = WorkView::Cleanup { waiting: left, result };
        assert(work.next(store) == last.next(completed));
        lemma_cleanup_taken(left, result, completed, count, trouble);
        assert(work.taken(store, none) == last.taken(completed, none));
        assert(work.taken(store, troubles) == last.taken(completed, troubles));
        assert(work.carried_out(store, troubles) == last.carried_out(completed, troubles));
        assert(waiting + cleanup =~= cleanup);
        if count < cleanup.len() {
            assert(waiting + cleanup.take(count as int + 1) =~= cleanup.take(count as int + 1));
        }
    }
}

/// The steps of an operation of which none fails are all taken, each once: those that
/// make an item count as recent, those that are required, and what is left to clean
/// up, in this order.
pub proof fn law_steps_taken(outcome: OutcomeView, store: StoreView)
    ensures
        outcome.finish !is Fail ==> WorkView::of(outcome).taken(store, Seq::empty())
            == outcome.refresh + outcome.required + outcome.cleanup,
        outcome.finish is Fail ==> WorkView::of(outcome).taken(store, Seq::empty())
            == outcome.refresh + outcome.required,
    decreases outcome.refresh.len(),
{
    let work = WorkView::of(outcome);
    let none = Seq::<Option<Trouble>>::empty();
    if outcome.refresh.len() > 0 {
        let first = outcome.refresh[0];
        let later = OutcomeView { refresh: outcome.refresh.drop_first(), ..outcome };
        law_steps_taken(later, store);
        assert(work.taken(store, none) == seq![first] + WorkView::of(later).taken(store, none));
        assert(seq![first] + (later.refresh + later.required) =~= outcome.refresh
            + outcome.required);
        assert(seq![first] + (later.refresh + later.required + later.cleanup) =~= outcome.refresh
            + outcome.required + outcome.cleanup);
    } else {
        let required = WorkView::Required {
            waiting: outcome.required,
            finish: outcome.finish,
            cleanup: outcome.cleanup,
        };
        lemma_required_taken(
            outcome.required,
            outcome.finish,
            outcome.cleanup,
            store,
            0,
            arbitrary(),
        );
        assert(work.next(store) == required.next(store));
        assert(work.taken(store, none) == required.taken(store, none));
        assert(outcome.refresh + outcome.required =~= outcome.required);
    }
}

/// The first required step that fails is the last one that is taken, and the store
/// stays as it is; the operation fails with that step's error.
pub proof fn law_required_step_fails(
    outcome: OutcomeView,
    store: StoreView,
    index: int,
    trouble: Trouble,
)
    requires
        0 <= index < outcome.required.len(),
    ensures
        ({
            let troubles = failing_at((outcome.refresh.len() + index) as nat, trouble);
            let work = WorkView::of(outcome);
            &&& work.taken(store, troubles) == outcome.refresh + outcome.required.take(index + 1)
            &&& work.carried_out(store, troubles) == (
                store,
                Err::<bool, ErrorView>(outcome.required[index].failure(trouble)),
            )
        }),
    decreases outcome.refresh.len(),
{
    let work = WorkView::of(outcome);
    let count = (outcome.refresh.len() + index) as nat;
    let troubles = failing_at(count, trouble);
    if outcome.refresh.len() > 0 {
        let first = outcome.refresh[0];
        let later = OutcomeView { refresh: outcome.refresh.drop_first(), ..outcome };
        lemma_failing_at(count, trouble);
        law_required_step_fails(later, store, index, trouble);
        assert(seq![first] + (later.refresh + later.required.take(index + 1)) =~= outcome.refresh
            + outcome.required.take(index + 1));
    } else {
        let required = WorkView::Required {
            waiting: outcome.required,
            finish: outcome.finish,
            cleanup: outcome.cleanup,
        };
        lemma_required_taken(
            outcome.required,
            outcome.finish,
            outcome.cleanup,
            store,
            count,
            trouble,
        );
        assert(work.next(store) == required.next(store));
        assert(work.taken(store, troubles) == required.taken(store, troubles));
        assert(work.carried_out(store, troubles) == required.carried_out(store, troubles));
        assert(outcome.refresh + outcome.required.take(index + 1) =~= outcome.required.take(
            index + 1,
        ));
    }
}

/// Where an item cannot be made to count as recent, no more of that is tried, and the
/// operation goes on as if nothing had happened.
pub proof fn law_refresh_step_fails(
    outcome: OutcomeView,
    store: StoreView,
    index: int,
    trouble: Trouble,
)
    requires
        0 <= index < outcome.refresh.len(),
        outcome.finish !is Fail,
    ensures
        ({
            let troubles = failing_at(index as nat, trouble);
            let work = WorkView::of(outcome);
            &&& work.taken(store, troubles) == outcome.refresh.take(index + 1) + outcome.required
                + outcome.cleanup
            &&& work.carried_out(store, troubles) == store.completed(outcome.finish)
        }),
    decreases outcome.refresh.len(),
{
    let work = WorkView::of(outcome);
    let troubles = failing_at(index as nat, trouble);
    let none = Seq::<Option<Trouble>>::empty();
    let first = outcome.refresh[0];
    lemma_failing_at(index as nat, trouble);
    if index > 0 {
        let later = OutcomeView { refresh: outcome.refresh.drop_first(), ..outcome };
        law_refresh_step_fails(later, store, index - 1, trouble);
        assert(seq![first] + (later.refresh.take(index) + later.required + later.cleanup)
            =~= outcome.refresh.take(index + 1) + outcome.required + outcome.cleanup);
    } else {
        let required = WorkView::Required {
            waiting: outcome.required,
            finish: outcome.finish,
            cleanup: outcome.cleanup,
        };
        lemma_required_taken(
            outcome.required,
            outcome.finish,
            outcome.cleanup,
            store,
            0,
            trouble,
        );
        lemma_required_succeeds(outcome.required, outcome.finish, outcome.cleanup, store, none);
        assert(work.taken(store, troubles) == seq![first] + required.taken(store, none));
        assert(seq![first] + (outcome.required + outcome.cleanup) =~= outcome.refresh.take(1)
            + outcome.required + outcome.cleanup);
    }
}

/// The files of items that are out of the store are removed one after the other, up
/// to the first that cannot be.
pub proof fn law_removing(
    steps: Seq<ActionView>,
    store: StoreView,
    index: int,
    trouble: Trouble,
)
    ensures
        ({
            let work = WorkView::Cleanup { waiting: steps, result: Ok(true) };
            &&& work.taken(store, Seq::empty()) == steps
            &&& work.carried_out(store, Seq::empty()) == (store, Ok::<bool, ErrorView>(true))
            &&& 0 <= index < steps.len() ==> work.taken(
                store,
                failing_at(index as nat, trouble),
            ) == steps.take(index + 1) && work.carried_out(
                store,
                failing_at(index as nat, trouble),
            ) == (store, Err::<bool, ErrorView>(steps[index].failure(trouble)))
        }),
{
    let count = if index >= 0 {
        index as nat
    } else {
        0
    };
    lemma_cleanup_taken(steps, Ok(true), store, count, trouble);
    lemma_cleanup_keeps(steps, Ok(true), store, Seq::empty());
}

} // verus!
