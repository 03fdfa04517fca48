//! What a request on the registry asks for, and the watch over a
//! forwarded port.

use vstd::prelude::*;
use crate::discovery::optional_text;
use crate::reconcile::ReconcileMode;

verus! {

/// A request on the registry, as the caller's options give it.
#[derive(Debug, PartialEq, Eq)]
pub struct ListRequest {
    /// Remove every entry.
    pub clear: bool,
    /// Show the identities only, on one line.
    pub ids: bool,
    /// Check every entry and show its status.
    pub status: bool,
    /// Resolve this target and store it.
    pub add: Option<String>,
    /// Remove the entry of this identity.
    pub remove: Option<String>,
    /// Check every entry and remove those whose address is reused.
    pub update: bool,
}

/// The one operation that a request comes to.
#[derive(Debug, PartialEq, Eq)]
pub enum ListOperation {
    Clear,
    Ids,
    Add(String),
    Remove(String),
    Reconcile(ReconcileMode),
    Show,
}

/// A [`ListOperation`] as mathematical values.
pub enum ListOperationView {
    Clear,
    Ids,
    Add(Seq<char>),
    Remove(Seq<char>),
    Reconcile(ReconcileMode),
    Show,
}

impl View for ListOperation {
    type V = ListOperationView;

    open spec fn view(&self) -> ListOperationView {
        match *self {
            ListOperation::Clear => ListOperationView::Clear,
            ListOperation::Ids => ListOperationView::Ids,
            ListOperation::Add(target) => ListOperationView::Add(target@),
            ListOperation::Remove(identity) => ListOperationView::Remove(identity@),
            ListOperation::Reconcile(mode) => ListOperationView::Reconcile(mode),
            ListOperation::Show => ListOperationView::Show,
        }
    }
}

/// The operation that the options ask for. Where several are given, the
/// first of these prevails: clearing, the identities, adding, removing,
/// checking. Checking prunes where updating is asked for, with or without
/// the status option. Where none is given, the entries are shown.
pub open spec fn chosen_operation(
    clear: bool,
    ids: bool,
    add: Option<Seq<char>>,
    remove: Option<Seq<char>>,
    status: bool,
    update: bool,
) -> ListOperationView {
    if clear {
        ListOperationView::Clear
    } else if ids {
        ListOperationView::Ids
    } else if add is Some {
        ListOperationView::Add(add.unwrap())
    } else if remove is Some {
        ListOperationView::Remove(remove.unwrap())
    } else if update {
        ListOperationView::Reconcile(ReconcileMode::Update)
    } else if status {
        ListOperationView::Reconcile(ReconcileMode::Status)
    } else {
        ListOperationView::Show
    }
}

/// Decides which operation a request comes to.
pub fn list_operation(request: &ListRequest) -> (operation: ListOperation)
    ensures
        operation@ == chosen_operation(
            request.clear,
            request.ids,
            optional_text(request.add),
            optional_text(request.remove),
            request.status,
            request.update,
        ),
{
    if request.clear {
        return ListOperation::Clear;
    }
    if request.ids {
        return ListOperation::Ids;
    }
    match &request.add {
        Some(target) => {
            return ListOperation::Add(target.clone());
        },
        None => {},
    }
    match &request.remove {
        Some(identity) => {
            return ListOperation::Remove(identity.clone());
        },
        None => {},
    }
    if request.update {
        ListOperation::Reconcile(ReconcileMode::Update)
    } else if request.status {
        ListOperation::Reconcile(ReconcileMode::Status)
    } else {
        ListOperation::Show
    }
}

/// The port on the device that a screen-sharing tunnel leads to, and the
/// local port that it starts from where the caller names none.
pub const SCREEN_PORT: u16 = 5900;

/// The pause between two looks at a tunnel, in seconds.
pub const WATCH_INTERVAL_SECS: u64 = 5;

/// The local port of a screen-sharing tunnel.
pub fn local_screen_port(requested: Option<u16>) -> (port: u16)
    ensures
        port == match requested {
            Some(p) => p,
            None => SCREEN_PORT,
        },
{
    match requested {
        Some(p) => p,
        None => SCREEN_PORT,
    }
}

/// What the watcher of a tunnel does after a look at it.
#[derive(Debug, Clone, Copy, PartialEq, Eq, Structural)]
pub enum WatchStep {
    /// The tunnel has ended: say so and stop watching.
    ReportEnd,
    /// The tunnel stands and this was not said yet: say so, then pause.
    Announce,
    /// The tunnel stands: pause.
    Wait,
}

/// The step after a look at the tunnel, and whether the tunnel has been
/// announced once that step is taken.
pub open spec fn watched(announced: bool, ended: bool) -> (WatchStep, bool) {
    if ended {
        (WatchStep::ReportEnd, announced)
    } else if !announced {
        (WatchStep::Announce, true)
    } else {
        (WatchStep::Wait, true)
    }
}

/// Decides the step after a look at the tunnel. `announced` says whether
/// the tunnel was announced before; the second result says so for the
/// next look.
pub fn watch(announced: bool, ended: bool) -> (r: (WatchStep, bool))
    ensures
        r == watched(announced, ended),
{
    if ended {
        (WatchStep::ReportEnd, announced)
    } else if !announced {
        (WatchStep::Announce, true)
    } else {
        (WatchStep::Wait, true)
    }
}

} // verus!
