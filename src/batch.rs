//! The decisions of a download batch: which task may start under the
//! concurrency cap, what a finished task becomes, which progress events are
//! emitted, and how cancellation stops the rest. The caller performs the
//! network work and reports each outcome back.
use crate::text::{chars_of, push_all, push_decimal, string_of};
use vstd::prelude::*;

verus! {

/// A progress event sent to the presentation layer.
#[derive(Clone, Debug, PartialEq, Eq)]
pub enum DownloadStatus {
    Done,
    InProgress(String),
    Failed(String),
    Cancelled,
    NoChange,
}

/// The state of one task of a batch.
#[derive(Clone, Copy, Debug, PartialEq, Eq, Structural)]
pub enum TaskState {
    Queued,
    InProgress,
    Done,
    Cancelled,
    Failed,
}

/// What the caller observed when a started task ended.
#[derive(Clone, Copy, Debug, PartialEq, Eq, Structural)]
pub enum Outcome {
    /// The resource was fetched and stored.
    Fetched,
    /// The server answered that the stored copy is current.
    NotModified,
    /// Transport, format or storage failure.
    Failed,
}

/// What the caller is told when it asks to start a task.
#[derive(Clone, Copy, Debug, PartialEq, Eq, Structural)]
pub enum StartDecision {
    /// A permit was taken: run the task and report its outcome.
    Start,
    /// Every permit is taken: ask again after some task finishes.
    Wait,
    /// The batch was cancelled: the task is over without running.
    Cancelled,
}

/// The number of tasks of `s` in state `st`.
pub open spec fn count_in(s: Seq<TaskState>, st: TaskState) -> nat
    decreases s.len(),
{
    if s.len() == 0 {
        0
    } else {
        count_in(s.drop_last(), st) + if s.last() == st {
            1nat
        } else {
            0nat
        }
    }
}

pub proof fn lemma_count_bound(s: Seq<TaskState>, st: TaskState)
    ensures
        count_in(s, st) <= s.len(),
    decreases s.len(),
{
    if s.len() > 0 {
        lemma_count_bound(s.drop_last(), st);
    }
}

pub proof fn lemma_count_update(s: Seq<TaskState>, i: int, v: TaskState, st: TaskState)
    requires
        0 <= i < s.len(),
    ensures
        count_in(s.update(i, v), st) + (if s[i] == st {
            1int
        } else {
            0int
        }) == count_in(s, st) + (if v == st {
            1int
        } else {
            0int
        }),
    decreases s.len(),
{
    let u = s.update(i, v);
    if i == s.len() - 1 {
        assert(u.drop_last() =~= s.drop_last());
    } else {
        assert(u.drop_last() =~= s.drop_last().update(i, v));
        lemma_count_update(s.drop_last(), i, v, st);
    }
}

pub proof fn lemma_count_all_queued(n: nat)
    ensures
        count_in(Seq::new(n, |i: int| TaskState::Queued), TaskState::InProgress) == 0,
        count_in(Seq::new(n, |i: int| TaskState::Queued), TaskState::Done) == 0,
        count_in(Seq::new(n, |i: int| TaskState::Queued), TaskState::Failed) == 0,
    decreases n,
{
    if n > 0 {
        let s = Seq::new(n, |i: int| TaskState::Queued);
        assert(s.drop_last() =~= Seq::new((n - 1) as nat, |i: int| TaskState::Queued));
        lemma_count_all_queued((n - 1) as nat);
    }
}

/// A batch of download tasks run under a cap on the tasks in flight.
pub struct Batch {
    /// The state of each task.
    pub states: Vec<TaskState>,
    /// The label shown in progress messages for each task.
    pub labels: Vec<String>,
    /// The most tasks that may be in flight at once.
    pub cap: usize,
    /// The tasks now in flight.
    pub in_flight: usize,
    /// The tasks that ended as done or failed.
    pub completed: usize,
    /// Whether cancellation was requested.
    pub cancelled: bool,
    /// Whether the final `Done` event was emitted.
    pub done_reported: bool,
}

impl Batch {
    /// The batch's bookkeeping agrees with its task states, and no more
    /// tasks than the cap are in flight.
    pub open spec fn wf(&self) -> bool {
        &&& self.states@.len() == self.labels@.len()
        &&& self.cap > 0
        &&& self.in_flight == count_in(self.states@, TaskState::InProgress)
        &&& self.in_flight <= self.cap
        &&& self.completed == count_in(self.states@, TaskState::Done) + count_in(
            self.states@,
            TaskState::Failed,
        )
        &&& self.done_reported ==> self.completed == self.states@.len()
    }

    /// The number of tasks.
    pub open spec fn total(&self) -> nat {
        self.states@.len()
    }

    /// A batch of queued tasks, one per label.
    pub fn new(labels: Vec<String>, cap: usize) -> (r: Batch)
        requires
            cap > 0,
        ensures
            r.wf(),
            r.labels@ == labels@,
            r.cap == cap,
            r.states@ == Seq::new(labels@.len(), |i: int| TaskState::Queued),
            !r.cancelled,
            !r.done_reported,
            r.completed == 0,
    {
        let mut states: Vec<TaskState> = Vec::new();
        let mut i: usize = 0;
        while i < labels.len()
            invariant
                0 <= i <= labels@.len(),
                states@ == Seq::new(i as nat, |k: int| TaskState::Queued),
            decreases labels@.len() - i,
        {
            states.push(TaskState::Queued);
            proof {
                assert(states@ =~= Seq::new((i + 1) as nat, |k: int| TaskState::Queued));
            }
            i += 1;
        }
        proof {
            lemma_count_all_queued(labels@.len());
        }
        Batch {
            states,
            labels,
            cap,
            in_flight: 0,
            completed: 0,
            cancelled: false,
            done_reported: false,
        }
    }

    /// The event that opens the batch, before any task ends: no task
    /// completed out of all of them.
    pub fn opening_event(&self) -> (r: DownloadStatus)
        ensures
            r is InProgress,
            r->InProgress_0@ == opening_message(self.total()),
    {
        let mut out: Vec<char> = chars_of("Baixando: ");
        push_decimal(&mut out, 0);
        push_all(&mut out, &chars_of("/"));
        push_decimal(&mut out, self.states.len() as u64);
        proof {
            assert(out@ =~= opening_message(self.total()));
        }
        DownloadStatus::InProgress(string_of(&out))
    }

    /// Asks to start queued task `i`. After cancellation the task is
    /// cancelled without running; otherwise it starts when a permit is free.
    pub fn start(&mut self, i: usize) -> (r: StartDecision)
        requires
            old(self).wf(),
            i < old(self).total(),
            old(self).states@[i as int] == TaskState::Queued,
        ensures
            final(self).wf(),
            final(self).labels@ == old(self).labels@,
            final(self).cap == old(self).cap,
            final(self).cancelled == old(self).cancelled,
            final(self).completed == old(self).completed,
            final(self).done_reported == old(self).done_reported,
            old(self).cancelled ==> r == StartDecision::Cancelled && final(self).states@ == old(
                self,
            ).states@.update(i as int, TaskState::Cancelled),
            !old(self).cancelled && old(self).in_flight < old(self).cap ==> r == StartDecision::Start
                && final(self).states@ == old(self).states@.update(i as int, TaskState::InProgress),
            !old(self).cancelled && old(self).in_flight == old(self).cap ==> r == StartDecision::Wait
                && final(self).states@ == old(self).states@,
    {
        proof {
            lemma_count_update(self.states@, i as int, TaskState::Cancelled, TaskState::InProgress);
            lemma_count_update(self.states@, i as int, TaskState::Cancelled, TaskState::Done);
            lemma_count_update(self.states@, i as int, TaskState::Cancelled, TaskState::Failed);
            lemma_count_update(self.states@, i as int, TaskState::InProgress, TaskState::InProgress);
            lemma_count_update(self.states@, i as int, TaskState::InProgress, TaskState::Done);
            lemma_count_update(self.states@, i as int, TaskState::InProgress, TaskState::Failed);
        }
        if self.cancelled {
            self.states.set(i, TaskState::Cancelled);
            StartDecision::Cancelled
        } else if self.in_flight < self.cap {
            self.states.set(i, TaskState::InProgress);
            self.in_flight = self.in_flight + 1;
            StartDecision::Start
        } else {
            StartDecision::Wait
        }
    }

    /// Records that task `i`, in flight, ended with `outcome`, releases its
    /// permit and returns the events to emit. After cancellation the task
    /// ends as cancelled; otherwise it counts as completed, a progress
    /// message follows, and the batch's single `Done` event follows the
    /// last completion.
    pub fn finish(&mut self, i: usize, outcome: Outcome) -> (events: Vec<DownloadStatus>)
        requires
            old(self).wf(),
            i < old(self).total(),
            old(self).states@[i as int] == TaskState::InProgress,
        ensures
            final(self).wf(),
            final(self).labels@ == old(self).labels@,
            final(self).cap == old(self).cap,
            final(self).cancelled == old(self).cancelled,
            final(self).in_flight == old(self).in_flight - 1,
            old(self).cancelled ==> final(self).states@ == old(self).states@.update(
                i as int,
                TaskState::Cancelled,
            ) && final(self).completed == old(self).completed && events@.len() == 1 && events@[0] is Cancelled && final(self).done_reported == old(self).done_reported,
            !old(self).cancelled ==> final(self).states@ == old(self).states@.update(
                i as int,
                if outcome == Outcome::Failed {
                    TaskState::Failed
                } else {
                    TaskState::Done
                },
            ) && final(self).completed == old(self).completed + 1 && events@.len() >= 1
                && events@[0] is InProgress && events@[0]->InProgress_0@ == progress_message(
                final(self).completed as nat,
                old(self).total(),
                old(self).labels@[i as int]@,
            ) && (events@.len() == 2 <==> (final(self).completed == old(self).total()
                && !old(self).done_reported)) && (events@.len() == 2 ==> events@[1] is Done) && events@.len() <= 2 && final(self).done_reported == (
            old(self).done_reported || final(self).completed == old(self).total()),
    {
        let ghost s0 = self.states@;
        proof {
            lemma_count_update(s0, i as int, TaskState::Cancelled, TaskState::InProgress);
            lemma_count_update(s0, i as int, TaskState::Cancelled, TaskState::Done);
            lemma_count_update(s0, i as int, TaskState::Cancelled, TaskState::Failed);
            lemma_count_update(s0, i as int, TaskState::Done, TaskState::InProgress);
            lemma_count_update(s0, i as int, TaskState::Done, TaskState::Done);
            lemma_count_update(s0, i as int, TaskState::Done, TaskState::Failed);
            lemma_count_update(s0, i as int, TaskState::Failed, TaskState::InProgress);
            lemma_count_update(s0, i as int, TaskState::Failed, TaskState::Done);
            lemma_count_update(s0, i as int, TaskState::Failed, TaskState::Failed);
        }
        self.in_flight = self.in_flight - 1;
        let mut events: Vec<DownloadStatus> = Vec::new();
        if self.cancelled {
            self.states.set(i, TaskState::Cancelled);
            events.push(DownloadStatus::Cancelled);
            return events;
        }
        if outcome == Outcome::Failed {
            self.states.set(i, TaskState::Failed);
        } else {
            self.states.set(i, TaskState::Done);
        }
        proof {
            lemma_count_bound(self.states@, TaskState::Done);
            lemma_count_bound(self.states@, TaskState::Failed);
            lemma_count_partition(self.states@);
        }
        let n = self.states.len();
        assert(self.completed < n);
        self.completed = self.completed + 1;
        let msg = format_progress(self.completed as u64, self.states.len() as u64, &self.labels[i]);
        events.push(DownloadStatus::InProgress(msg));
        if self.completed == self.states.len() && !self.done_reported {
            events.push(DownloadStatus::Done);
        }
        if self.completed == self.states.len() {
            self.done_reported = true;
        }
        events
    }

    /// Requests cancellation: no task starts or completes from now on.
    pub fn cancel(&mut self)
        requires
            old(self).wf(),
        ensures
            final(self).wf(),
            final(self).cancelled,
            final(self).states@ == old(self).states@,
            final(self).labels@ == old(self).labels@,
            final(self).cap == old(self).cap,
            final(self).in_flight == old(self).in_flight,
            final(self).completed == old(self).completed,
            final(self).done_reported == old(self).done_reported,
    {
        self.cancelled = true;
    }
}

/// The tasks done and failed together are no more than all tasks.
pub proof fn lemma_count_partition(s: Seq<TaskState>)
    ensures
        count_in(s, TaskState::Done) + count_in(s, TaskState::Failed) <= s.len(),
    decreases s.len(),
{
    if s.len() > 0 {
        lemma_count_partition(s.drop_last());
    }
}

/// In every well-formed batch, no more tasks than the cap are in flight.
pub proof fn lemma_in_flight_within_cap(b: &Batch)
    requires
        b.wf(),
    ensures
        count_in(b.states@, TaskState::InProgress) <= b.cap,
{
}

/// Once a batch is cancelled, no step makes a task done that was not done
/// before, and the tasks that were done stay done.
pub proof fn lemma_cancelled_adds_no_done(
    before: Seq<TaskState>,
    i: int,
    v: TaskState,
)
    requires
        0 <= i < before.len(),
        before[i] == TaskState::Queued || before[i] == TaskState::InProgress,
        v == TaskState::Cancelled,
    ensures
        forall|j: int|
            0 <= j < before.len() ==> (#[trigger] before.update(i, v)[j] == TaskState::Done
                <==> before[j] == TaskState::Done),
{
}

/// The message that opens a batch of `total` tasks.
pub open spec fn opening_message(total: nat) -> Seq<char> {
    "Baixando: "@ + crate::text::decimal(0) + "/"@ + crate::text::decimal(total)
}

/// The progress message after `completed` of `total` tasks, naming the last one.
pub open spec fn progress_message(completed: nat, total: nat, label: Seq<char>) -> Seq<char> {
    "Baixando: "@ + crate::text::decimal(completed) + "/"@ + crate::text::decimal(total) + " ("@
        + label + ")"@
}

/// Renders the progress message after `completed` of `total` tasks.
pub fn format_progress(completed: u64, total: u64, label: &String) -> (r: String)
    ensures
        r@ == progress_message(completed as nat, total as nat, label@),
{
    let mut out: Vec<char> = chars_of("Baixando: ");
    push_decimal(&mut out, completed);
    let slash = chars_of("/");
    push_all(&mut out, &slash);
    push_decimal(&mut out, total);
    let open = chars_of(" (");
    push_all(&mut out, &open);
    let lab = chars_of(label.as_str());
    push_all(&mut out, &lab);
    let close = chars_of(")");
    push_all(&mut out, &close);
    proof {
        assert(out@ =~= progress_message(completed as nat, total as nat, label@));
    }
    string_of(&out)
}

} // verus!

verus! {

/// One dataset of a download group, with the URLs to fetch.
#[derive(Clone, Debug)]
pub struct DownloadItem {
    pub id: String,
    pub name: String,
    pub path: String,
    pub urls: Vec<String>,
}

/// A named group of datasets downloaded together.
#[derive(Clone, Debug)]
pub struct Group {
    pub name: String,
    pub downloads: Vec<DownloadItem>,
}

fn item(id: &str, name: &String, path: &String, urls: Vec<String>) -> (r: DownloadItem)
    ensures
        r.id@ == id@,
        r.name@ == name@,
        r.path@ == path@,
        r.urls@ == urls@,
{
    DownloadItem { id: string_of(&chars_of(id)), name: name.clone(), path: path.clone(), urls }
}

/// The download groups: the indices (CDI, with its URL, and Ibovespa, which
/// is fetched by its own means) and the funds (the registry, the daily
/// reports of each month, and the portfolio reports, fetched on demand).
pub fn make_groups(
    cdi: &crate::options::cdi::Options,
    ibovespa: &crate::options::ibovespa::Options,
    fund: &crate::options::fund::Options,
    informe: &crate::options::informe::Options,
    portfolio: &crate::options::portfolio::Options,
) -> (r: Vec<Group>)
    ensures
        r@.len() == 2,
        r@[0].name@ == "Indices"@,
        r@[0].downloads@.len() == 2,
        r@[0].downloads@[0].id@ == "CDI"@ && r@[0].downloads@[0].name@ == cdi.description@
            && r@[0].downloads@[0].path@ == cdi.path@ && r@[0].downloads@[0].urls@.len() == 1
            && r@[0].downloads@[0].urls@[0]@ == cdi.url@,
        r@[0].downloads@[1].id@ == "IBOV"@ && r@[0].downloads@[1].name@ == ibovespa.description@
            && r@[0].downloads@[1].path@ == ibovespa.path@ && r@[0].downloads@[1].urls@.len() == 0,
        r@[1].name@ == "Fundos"@,
        r@[1].downloads@.len() == 3,
        r@[1].downloads@[0].id@ == "cad"@ && r@[1].downloads@[0].name@ == fund.description@
            && r@[1].downloads@[0].path@ == fund.path@ && r@[1].downloads@[0].urls@.len() == 1
            && r@[1].downloads@[0].urls@[0]@ == fund.url@,
        r@[1].downloads@[1].id@ == "informe"@ && r@[1].downloads@[1].name@ == informe.description@
            && r@[1].downloads@[1].path@ == informe.path@ && crate::locator::names_of(
            r@[1].downloads@[1].urls@,
        ) == crate::options::informe::monthly_urls(
            informe.url@,
            informe.start_date@,
            informe.end_date@,
        ),
        r@[1].downloads@[2].id@ == "carteira"@ && r@[1].downloads@[2].name@
            == portfolio.description@ && r@[1].downloads@[2].path@ == portfolio.path@
            && r@[1].downloads@[2].urls@.len() == 0,
{
    let mut indices: Vec<DownloadItem> = Vec::new();
    indices.push(item("CDI", &cdi.description, &cdi.path, vec![cdi.url.clone()]));
    indices.push(item("IBOV", &ibovespa.description, &ibovespa.path, Vec::new()));
    let mut funds: Vec<DownloadItem> = Vec::new();
    funds.push(item("cad", &fund.description, &fund.path, vec![fund.url.clone()]));
    funds.push(item("informe", &informe.description, &informe.path, informe.urls()));
    funds.push(item("carteira", &portfolio.description, &portfolio.path, portfolio.urls()));
    let mut groups: Vec<Group> = Vec::new();
    groups.push(Group { name: string_of(&chars_of("Indices")), downloads: indices });
    groups.push(Group { name: string_of(&chars_of("Fundos")), downloads: funds });
    groups
}

} // verus!
