//! The named remote actions, and the course of a dispatch: all names are
//! checked before the first action runs, the actions run in the order
//! given, and the first failure ends the dispatch.

use vstd::prelude::*;
use crate::error::texts;
use crate::error::ConfigField;
use crate::error::DutError;
use crate::error::DutErrorView;
use crate::text::same_text;

verus! {

/// A remote operation without parameters, applied to one device.
#[derive(Debug, Clone, Copy, PartialEq, Eq, Structural)]
pub enum Action {
    /// Restart the device.
    Reboot,
    /// Authenticate again, interactively.
    Login,
    /// Stream the system log.
    TailMessages,
}

/// The name under which an action is requested.
pub open spec fn action_name(action: Action) -> Seq<char> {
    match action {
        Action::Reboot => "reboot"@,
        Action::Login => "login"@,
        Action::TailMessages => "tail_messages"@,
    }
}

/// The action of the given name, if the table holds one.
pub open spec fn action_named(name: Seq<char>) -> Option<Action> {
    if name == "reboot"@ {
        Some(Action::Reboot)
    } else if name == "login"@ {
        Some(Action::Login)
    } else if name == "tail_messages"@ {
        Some(Action::TailMessages)
    } else {
        None
    }
}

/// The command that an action runs on the device; none for the action
/// that is a dialogue and not a command.
pub open spec fn action_command(action: Action) -> Option<Seq<char>> {
    match action {
        Action::Reboot => Some("reboot; exit"@),
        Action::Login => None,
        Action::TailMessages => Some("tail -f /var/log/messages"@),
    }
}

/// Every action is found under its own name, and under no other.
pub proof fn lemma_names_identify(action: Action)
    ensures
        action_named(action_name(action)) == Some(action),
        forall|name: Seq<char>|
            action_named(name) == Some(action) ==> name == #[trigger] action_name(action),
{
    reveal_strlit("reboot");
    reveal_strlit("login");
    reveal_strlit("tail_messages");
    assert("reboot"@.len() == 6);
    assert("login"@.len() == 5);
    assert("tail_messages"@.len() == 13);
}

/// The name under which `action` is requested.
pub fn name_of(action: Action) -> (r: &'static str)
    ensures
        r@ == action_name(action),
{
    match action {
        Action::Reboot => "reboot",
        Action::Login => "login",
        Action::TailMessages => "tail_messages",
    }
}

/// The action of the given name, if the table holds one.
pub fn action_from_name(name: &str) -> (r: Option<Action>)
    ensures
        r == action_named(name@),
{
    if same_text(name, "reboot") {
        Some(Action::Reboot)
    } else if same_text(name, "login") {
        Some(Action::Login)
    } else if same_text(name, "tail_messages") {
        Some(Action::TailMessages)
    } else {
        None
    }
}

/// The command that `action` runs on the device, if it runs one.
pub fn command_of(action: Action) -> (r: Option<&'static str>)
    ensures
        match r {
            Some(command) => action_command(action) == Some(command@),
            None => action_command(action) is None,
        },
{
    match action {
        Action::Reboot => Some("reboot; exit"),
        Action::Login => None,
        Action::TailMessages => Some("tail -f /var/log/messages"),
    }
}

/// The names of all actions. Callers must not rely on their order.
pub fn action_names() -> (r: Vec<String>)
    ensures
        r@.len() == 3,
        forall|name: Seq<char>| texts(r@).contains(name) <==> action_named(name) is Some,
{
    let mut r: Vec<String> = Vec::new();
    r.push("reboot".to_owned());
    r.push("login".to_owned());
    r.push("tail_messages".to_owned());
    proof {
        let t = texts(r@);
        assert(t[0] == "reboot"@);
        assert(t[1] == "login"@);
        assert(t[2] == "tail_messages"@);
    }
    r
}

/// Whether a name is in no row of the table.
pub open spec fn is_unknown() -> spec_fn(Seq<char>) -> bool {
    |name: Seq<char>| action_named(name) is None
}

/// The requested names that the table does not hold, in the order of the
/// request.
pub open spec fn unknown_names(names: Seq<Seq<char>>) -> Seq<Seq<char>> {
    names.filter(is_unknown())
}

/// Checks a request before anything runs. It is refused where it holds a
/// name that the table does not: the failure then lists every such name,
/// not only the first. A request without names is in order: nothing is
/// to run.
pub fn validate_actions(names: &Vec<String>) -> (r: Result<Vec<Action>, DutError>)
    ensures
        r is Ok <==> unknown_names(texts(names@)).len() == 0,
        r is Ok ==> r.unwrap()@.len() == names@.len() && forall|i: int|
            0 <= i < names@.len() ==> action_named((#[trigger] names@[i])@) == Some(
                r.unwrap()@[i],
            ),
        r is Err ==> r.unwrap_err()@ == DutErrorView::InvalidAction(unknown_names(texts(names@))),
{
    let mut actions: Vec<Action> = Vec::new();
    let mut unknown: Vec<String> = Vec::new();
    let mut i: usize = 0;
    proof {
        assert(texts(names@).take(0) =~= Seq::<Seq<char>>::empty());
        assert(texts(unknown@) =~= unknown_names(texts(names@).take(0)));
    }
    while i < names.len()
        invariant
            i <= names.len(),
            texts(unknown@) == unknown_names(texts(names@).take(i as int)),
            unknown@.len() == 0 ==> actions@.len() == i,
            unknown@.len() == 0 ==> forall|k: int|
                0 <= k < i ==> action_named((#[trigger] names@[k])@) == Some(actions@[k]),
        decreases names.len() - i,
    {
        proof {
            let before = texts(names@).take(i as int);
            assert(texts(names@).take(i + 1) =~= before.push(names@[i as int]@));
            before.lemma_filter_push(names@[i as int]@, is_unknown());
        }
        match action_from_name(names[i].as_str()) {
            Some(action) => {
                actions.push(action);
            },
            None => {
                let ghost prev = unknown@;
                unknown.push(names[i].clone());
                proof {
                    assert(texts(unknown@) =~= texts(prev).push(names@[i as int]@));
                }
            },
        }
        i = i + 1;
    }
    proof {
        assert(texts(names@).take(i as int) =~= texts(names@));
    }
    if unknown.len() > 0 {
        Err(DutError::InvalidAction(unknown))
    } else {
        Ok(actions)
    }
}

/// The course of one dispatch.
#[derive(Debug)]
pub struct Dispatch {
    actions: Vec<Action>,
    done: usize,
    failure: Option<(Action, DutError)>,
}

/// A [`Dispatch`] as mathematical values: the actions requested, the
/// number of them that succeeded, and the action that failed with its
/// cause, if one did.
pub struct DispatchView {
    pub actions: Seq<Action>,
    pub done: nat,
    pub failure: Option<(Action, DutErrorView)>,
}

impl View for Dispatch {
    type V = DispatchView;

    closed spec fn view(&self) -> DispatchView {
        DispatchView {
            actions: self.actions@,
            done: self.done as nat,
            failure: match self.failure {
                Some((action, cause)) => Some((action, cause@)),
                None => None,
            },
        }
    }
}

/// How a dispatch stands.
#[derive(Debug, PartialEq, Eq)]
pub enum DispatchOutcome {
    /// This action is the next to run.
    Pending(Action),
    /// Every action ran and succeeded.
    Completed,
    /// This action failed for this cause; no later action ran.
    Failed { action: Action, cause: DutError },
}

/// A [`DispatchOutcome`] as mathematical values.
pub enum DispatchOutcomeView {
    Pending(Action),
    Completed,
    Failed { action: Action, cause: DutErrorView },
}

impl View for DispatchOutcome {
    type V = DispatchOutcomeView;

    open spec fn view(&self) -> DispatchOutcomeView {
        match *self {
            DispatchOutcome::Pending(action) => DispatchOutcomeView::Pending(action),
            DispatchOutcome::Completed => DispatchOutcomeView::Completed,
            DispatchOutcome::Failed { action, cause } => DispatchOutcomeView::Failed {
                action,
                cause: cause@,
            },
        }
    }
}

/// A dispatch of `actions` of which none has run yet.
pub open spec fn started(actions: Seq<Action>) -> DispatchView {
    DispatchView { actions, done: 0, failure: None }
}

/// The action that is to run next, if the dispatch is not over.
pub open spec fn pending_of(state: DispatchView) -> Option<Action> {
    if state.failure is None && state.done < state.actions.len() {
        Some(state.actions[state.done as int])
    } else {
        None
    }
}

/// The state after the pending action succeeded. Where none is pending,
/// nothing changes.
pub open spec fn after_success(state: DispatchView) -> DispatchView {
    if pending_of(state) is Some {
        DispatchView { done: state.done + 1, ..state }
    } else {
        state
    }
}

/// The state after the pending action failed. Where none is pending,
/// nothing changes.
pub open spec fn after_failure(state: DispatchView, cause: DutErrorView) -> DispatchView {
    match pending_of(state) {
        Some(action) => DispatchView { failure: Some((action, cause)), ..state },
        None => state,
    }
}

/// The state after the pending action ended as `outcome` says.
pub open spec fn recorded(state: DispatchView, outcome: Result<(), DutError>) -> DispatchView {
    match outcome {
        Ok(_) => after_success(state),
        Err(cause) => after_failure(state, cause@),
    }
}

/// How a dispatch in `state` stands.
pub open spec fn outcome_of(state: DispatchView) -> DispatchOutcomeView {
    match state.failure {
        Some((action, cause)) => DispatchOutcomeView::Failed { action, cause },
        None => match pending_of(state) {
            Some(action) => DispatchOutcomeView::Pending(action),
            None => DispatchOutcomeView::Completed,
        },
    }
}

/// The state after the first `n` actions succeeded.
pub open spec fn after_successes(actions: Seq<Action>, n: nat) -> DispatchView
    decreases n,
{
    if n == 0 {
        started(actions)
    } else {
        after_success(after_successes(actions, (n - 1) as nat))
    }
}

impl Dispatch {
    /// Begins a dispatch of the named actions. Nothing has run when this
    /// returns; a request that [`validate_actions`] refuses is refused here
    /// in the same way, and then nothing will run.
    pub fn start(names: &Vec<String>) -> (r: Result<Dispatch, DutError>)
        ensures
            r is Ok <==> unknown_names(texts(names@)).len() == 0,
            r is Ok ==> r.unwrap()@.done == 0 && r.unwrap()@.failure is None && r.unwrap()@.actions.len()
                == names@.len() && forall|i: int|
                0 <= i < names@.len() ==> action_named((#[trigger] names@[i])@) == Some(
                    r.unwrap()@.actions[i],
                ),
            r is Err ==> r.unwrap_err()@ == DutErrorView::InvalidAction(
                unknown_names(texts(names@)),
            ),
    {
        match validate_actions(names) {
            Ok(actions) => Ok(Dispatch { actions, done: 0, failure: None }),
            Err(e) => Err(e),
        }
    }

    /// The action that is to run next, if the dispatch is not over.
    pub fn pending(&self) -> (r: Option<Action>)
        ensures
            r == pending_of(self@),
    {
        if self.failure.is_none() && self.done < self.actions.len() {
            Some(self.actions[self.done])
        } else {
            None
        }
    }

    /// Takes note of how the pending action ended.
    pub fn record(&mut self, outcome: Result<(), DutError>)
        ensures
            final(self)@ == recorded(old(self)@, outcome),
    {
        let count = self.actions.len();
        match self.pending() {
            Some(action) => match outcome {
                Ok(_) => {
                    assert(self.done < count);
                    self.done = self.done + 1;
                },
                Err(cause) => {
                    self.failure = Some((action, cause));
                },
            },
            None => {},
        }
    }

    /// How the dispatch stands.
    pub fn outcome(self) -> (r: DispatchOutcome)
        ensures
            r@ == outcome_of(self@),
    {
        let pending = self.pending();
        match self.failure {
            Some((action, cause)) => DispatchOutcome::Failed { action, cause },
            None => match pending {
                Some(action) => DispatchOutcome::Pending(action),
                None => DispatchOutcome::Completed,
            },
        }
    }
}

/// A failure ends the dispatch: the action that failed is reported with
/// its cause, no action is pending any more, and nothing that is recorded
/// later changes that. The actions behind the failed one are never handed
/// out.
pub proof fn lemma_failure_is_final(
    state: DispatchView,
    cause: DutErrorView,
    later: Result<(), DutError>,
)
    requires
        pending_of(state) is Some,
    ensures
        outcome_of(after_failure(state, cause)) == (DispatchOutcomeView::Failed {
            action: pending_of(state).unwrap(),
            cause,
        }),
        pending_of(after_failure(state, cause)) is None,
        recorded(after_failure(state, cause), later) == after_failure(state, cause),
        after_failure(state, cause).done == state.done,
{
}

/// The actions are handed out in the order of the request, each after the
/// one before it succeeded; after the last the dispatch is complete.
pub proof fn lemma_runs_in_order(actions: Seq<Action>, n: nat)
    requires
        n <= actions.len(),
    ensures
        after_successes(actions, n) == (DispatchView { done: n, ..started(actions) }),
        n < actions.len() ==> pending_of(after_successes(actions, n)) == Some(actions[n as int]),
        n == actions.len() ==> outcome_of(after_successes(actions, n))
            == DispatchOutcomeView::Completed,
    decreases n,
{
    if n > 0 {
        lemma_runs_in_order(actions, (n - 1) as nat);
    }
}

/// A request to apply actions to a device, as the caller's options give
/// it.
#[derive(Debug, PartialEq, Eq)]
pub struct ActionRequest {
    /// The target, if one was given.
    pub dut: Option<String>,
    /// The names of the actions, in the order in which they are to run.
    pub actions: Vec<String>,
    /// Whether the names of the available actions are asked for instead.
    pub list_actions: bool,
}

/// What a request for actions comes to.
#[derive(Debug)]
pub enum ActionPlan {
    /// The names of the available actions are shown; nothing runs.
    ListActions,
    /// The actions of the dispatch run against the target.
    Run { dut: String, dispatch: Dispatch },
}

/// Decides what a request for actions comes to, before anything runs.
/// Listing the actions comes before everything else. The names are checked
/// before the target is asked for: a request with an unknown name is
/// refused for that name, with or without a target.
pub fn plan_actions(request: &ActionRequest) -> (r: Result<ActionPlan, DutError>)
    ensures
        request.list_actions ==> r is Ok && r.unwrap() is ListActions,
        !request.list_actions ==> (r is Ok <==> unknown_names(texts(request.actions@)).len() == 0
            && request.dut is Some),
        !request.list_actions && r is Ok ==> {
            &&& r.unwrap() is Run
            &&& r.unwrap()->dut@ == request.dut.unwrap()@
            &&& r.unwrap()->dispatch@.done == 0
            &&& r.unwrap()->dispatch@.failure is None
            &&& r.unwrap()->dispatch@.actions.len() == request.actions@.len()
            &&& forall|i: int|
                0 <= i < request.actions@.len() ==> action_named((#[trigger] request.actions@[i])@)
                    == Some(r.unwrap()->dispatch@.actions[i])
        },
        r is Err ==> r.unwrap_err()@ == if unknown_names(texts(request.actions@)).len() == 0 {
            DutErrorView::Configuration(ConfigField::Target)
        } else {
            DutErrorView::InvalidAction(unknown_names(texts(request.actions@)))
        },
{
    if request.list_actions {
        return Ok(ActionPlan::ListActions);
    }
    match Dispatch::start(&request.actions) {
        Err(e) => Err(e),
        Ok(dispatch) => match &request.dut {
            Some(dut) => Ok(ActionPlan::Run { dut: dut.clone(), dispatch }),
            None => Err(DutError::Configuration(ConfigField::Target)),
        },
    }
}

} // verus!
