//! The download protocol. Each download runs on a worker of its own;
//! the worker performs the network and file I/O and reports what it
//! observed, while this module decides, step by step, what the worker
//! must do next — in particular that a failed download never leaves a
//! partly-written file behind. The aggregation of the workers' results
//! into one batch outcome is decided here as well.

use vstd::prelude::*;

verus! {

/// Where a download stands.
#[derive(Clone, Copy, PartialEq, Eq, Structural, Debug)]
pub enum TaskState {
    /// Nothing observed yet: the request is being prepared and sent.
    Starting,
    /// The response was accepted and the body is being streamed.
    Streaming,
    /// The whole body was written out.
    Done,
    /// The download failed; its file, if any, is to be removed.
    Failed,
}

/// What a download worker observed, handed to the state machine.
#[derive(Clone, Copy, Debug)]
pub enum DownloadEvent {
    /// The destination's parent directory could not be created.
    DirFailed,
    /// The request could not be sent.
    RequestFailed,
    /// The response arrived, with its status and advertised length.
    Response { success: bool, content_length: Option<u64> },
    /// The destination file could not be created.
    FileFailed,
    /// `len` bytes were read from the body and written to the file.
    ChunkWritten { len: usize },
    /// Reading the body or writing the file failed mid-stream.
    StreamFailed,
    /// The body ended.
    EndOfStream,
}

/// What the worker must do after a step.
#[derive(Clone, Copy, PartialEq, Eq, Structural, Debug)]
pub enum TaskAction {
    /// Tell the progress sink the total number of bytes expected.
    SetTotal(u64),
    /// Create the destination file and start streaming into it.
    OpenFile,
    /// Tell the progress sink how many bytes have arrived so far.
    Advance(u64),
    /// Tell the progress sink the download is complete.
    FinishProgress,
    /// Remove the destination file: the download failed and a partial
    /// file must not survive to be mistaken for a complete one.
    DeleteFile,
}

/// One download in progress: its addresses and the machine state that
/// decides the worker's next obligation.
pub struct DownloadTask {
    url: String,
    dest: String,
    state: TaskState,
    total: u64,
    downloaded: u64,
}

/// The mathematical value of a `DownloadTask`.
pub ghost struct DownloadTaskV {
    pub url: Seq<char>,
    pub dest: Seq<char>,
    pub state: TaskState,
    pub total: u64,
    pub downloaded: u64,
}

impl View for DownloadTask {
    type V = DownloadTaskV;

    closed spec fn view(&self) -> DownloadTaskV {
        DownloadTaskV {
            url: self.url@,
            dest: self.dest@,
            state: self.state,
            total: self.total,
            downloaded: self.downloaded,
        }
    }
}

/// One step of the protocol: from a task state and an observation to
/// the next state and the worker's obligations.
///
/// A successful response must advertise a positive content length —
/// progress needs a total — or the task fails. Bytes only ever add to
/// the progress counter, so it is monotone. Every transition into
/// `Failed` emits `DeleteFile`, and a finished or failed task ignores
/// further events, so nothing re-creates the file after a failure.
pub open spec fn spec_step(t: DownloadTaskV, e: DownloadEvent) -> (DownloadTaskV, Seq<TaskAction>) {
    match t.state {
        TaskState::Starting => match e {
            DownloadEvent::Response { success, content_length } => {
                if success && (content_length matches Some(l) && l > 0) {
                    (
                        DownloadTaskV {
                            state: TaskState::Streaming,
                            total: content_length->Some_0,
                            ..t
                        },
                        seq![
                            TaskAction::SetTotal(content_length->Some_0),
                            TaskAction::OpenFile,
                        ],
                    )
                } else {
                    (DownloadTaskV { state: TaskState::Failed, ..t }, seq![TaskAction::DeleteFile])
                }
            },
            DownloadEvent::DirFailed | DownloadEvent::RequestFailed => (
                DownloadTaskV { state: TaskState::Failed, ..t },
                seq![TaskAction::DeleteFile],
            ),
            _ => (t, Seq::empty()),
        },
        TaskState::Streaming => match e {
            DownloadEvent::ChunkWritten { len } => {
                let d = if t.downloaded + len <= u64::MAX {
                    (t.downloaded + len) as u64
                } else {
                    u64::MAX
                };
                (DownloadTaskV { downloaded: d, ..t }, seq![TaskAction::Advance(d)])
            },
            DownloadEvent::EndOfStream => (
                DownloadTaskV { state: TaskState::Done, ..t },
                seq![TaskAction::FinishProgress],
            ),
            DownloadEvent::StreamFailed | DownloadEvent::FileFailed => (
                DownloadTaskV { state: TaskState::Failed, ..t },
                seq![TaskAction::DeleteFile],
            ),
            _ => (t, Seq::empty()),
        },
        TaskState::Done => (t, Seq::empty()),
        TaskState::Failed => (t, Seq::empty()),
    }
}

impl DownloadTask {
    /// A fresh task for one download: nothing observed, nothing counted.
    pub fn new(info: crate::file::DownloadInfo) -> (r: DownloadTask)
        ensures
            r@ == (DownloadTaskV {
                url: info@.url,
                dest: info@.dest,
                state: TaskState::Starting,
                total: 0,
                downloaded: 0,
            }),
    {
        DownloadTask {
            url: info.url,
            dest: info.dest,
            state: TaskState::Starting,
            total: 0,
            downloaded: 0,
        }
    }

    pub fn url(&self) -> (r: &str)
        ensures
            r@ == self@.url,
    {
        self.url.as_str()
    }

    pub fn dest(&self) -> (r: &str)
        ensures
            r@ == self@.dest,
    {
        self.dest.as_str()
    }

    pub fn state(&self) -> (r: TaskState)
        ensures
            r == self@.state,
    {
        self.state
    }

    pub fn bytes_downloaded(&self) -> (r: u64)
        ensures
            r == self@.downloaded,
    {
        self.downloaded
    }

    /// Feeds one observation to the machine and yields the worker's
    /// obligations. The progress counter never decreases.
    pub fn step(&mut self, event: DownloadEvent) -> (actions: Vec<TaskAction>)
        ensures
            (final(self)@, actions@) == spec_step(old(self)@, event),
            final(self)@.downloaded >= old(self)@.downloaded,
            final(self)@.url == old(self)@.url,
            final(self)@.dest == old(self)@.dest,
    {
        let mut actions: Vec<TaskAction> = Vec::new();
        match self.state {
            TaskState::Starting => match event {
                DownloadEvent::Response { success, content_length } => {
                    let ok_len = match content_length {
                        Some(l) => l > 0,
                        None => false,
                    };
                    if success && ok_len {
                        let l = match content_length {
                            Some(l) => l,
                            None => 0,
                        };
                        self.state = TaskState::Streaming;
                        self.total = l;
                        actions.push(TaskAction::SetTotal(l));
                        actions.push(TaskAction::OpenFile);
                    } else {
                        self.state = TaskState::Failed;
                        actions.push(TaskAction::DeleteFile);
                    }
                },
                DownloadEvent::DirFailed | DownloadEvent::RequestFailed => {
                    self.state = TaskState::Failed;
                    actions.push(TaskAction::DeleteFile);
                },
                _ => {},
            },
            TaskState::Streaming => match event {
                DownloadEvent::ChunkWritten { len } => {
                    let d = self.downloaded.saturating_add(len as u64);
                    self.downloaded = d;
                    actions.push(TaskAction::Advance(d));
                },
                DownloadEvent::EndOfStream => {
                    self.state = TaskState::Done;
                    actions.push(TaskAction::FinishProgress);
                },
                DownloadEvent::StreamFailed | DownloadEvent::FileFailed => {
                    self.state = TaskState::Failed;
                    actions.push(TaskAction::DeleteFile);
                },
                _ => {},
            },
            TaskState::Done => {},
            TaskState::Failed => {},
        }
        proof {
            assert(actions@ =~= spec_step(old(self)@, event).1);
        }
        actions
    }
}

/// Running a whole sequence of observations through the machine: the
/// final task state and every obligation emitted along the way.
pub open spec fn spec_run(t: DownloadTaskV, events: Seq<DownloadEvent>) -> (
    DownloadTaskV,
    Seq<TaskAction>,
)
    decreases events.len(),
{
    if events.len() == 0 {
        (t, Seq::empty())
    } else {
        let first = spec_step(t, events[0]);
        let rest = spec_run(first.0, events.drop_first());
        (rest.0, first.1 + rest.1)
    }
}

/// Whether the destination file exists after the worker has carried
/// out a sequence of obligations, starting from `present0`.
pub open spec fn file_present_after(present0: bool, actions: Seq<TaskAction>) -> bool
    decreases actions.len(),
{
    if actions.len() == 0 {
        present0
    } else {
        let p = match actions[0] {
            TaskAction::OpenFile => true,
            TaskAction::DeleteFile => false,
            _ => present0,
        };
        file_present_after(p, actions.drop_first())
    }
}

proof fn lemma_file_present_concat(present0: bool, a: Seq<TaskAction>, b: Seq<TaskAction>)
    ensures
        file_present_after(present0, a + b) == file_present_after(
            file_present_after(present0, a),
            b,
        ),
    decreases a.len(),
{
    if a.len() == 0 {
        assert(a + b =~= b);
    } else {
        assert((a + b)[0] == a[0]);
        assert((a + b).drop_first() =~= a.drop_first() + b);
        let p = match a[0] {
            TaskAction::OpenFile => true,
            TaskAction::DeleteFile => false,
            _ => present0,
        };
        lemma_file_present_concat(p, a.drop_first(), b);
    }
}

/// A finished or failed task emits nothing further and stays as it is.
proof fn lemma_run_absorbed(t: DownloadTaskV, events: Seq<DownloadEvent>)
    requires
        t.state == TaskState::Done || t.state == TaskState::Failed,
    ensures
        spec_run(t, events).0 == t,
        spec_run(t, events).1 == Seq::<TaskAction>::empty(),
    decreases events.len(),
{
    if events.len() > 0 {
        lemma_run_absorbed(t, events.drop_first());
        assert(spec_run(t, events).1 =~= Seq::<TaskAction>::empty());
    }
}

/// A download that ends in failure leaves no destination file behind,
/// whatever was observed on the way and whether or not a file had been
/// created: the failing step removes it and no later step re-creates it.
pub proof fn lemma_failed_download_cleans_up(
    t: DownloadTaskV,
    events: Seq<DownloadEvent>,
    present0: bool,
)
    requires
        t.state != TaskState::Failed,
        spec_run(t, events).0.state == TaskState::Failed,
    ensures
        !file_present_after(present0, spec_run(t, events).1),
    decreases events.len(),
{
    if events.len() > 0 {
        let first = spec_step(t, events[0]);
        let rest = spec_run(first.0, events.drop_first());
        lemma_file_present_concat(present0, first.1, rest.1);
        if first.0.state == TaskState::Failed {
            lemma_run_absorbed(first.0, events.drop_first());
            assert(first.1.last() == TaskAction::DeleteFile);
            assert(!file_present_after(present0, first.1)) by {
                reveal_with_fuel(file_present_after, 3);
                assert(first.1.len() == 1);
                assert(first.1.drop_first() =~= Seq::<TaskAction>::empty());
            }
        } else {
            lemma_failed_download_cleans_up(
                first.0,
                events.drop_first(),
                file_present_after(present0, first.1),
            );
        }
    }
}

/// A download that runs to completion leaves its destination file in
/// place: the accepted response created it and no later step removes
/// it. Together with the cleanup law, a batch leaves exactly the files
/// of its completed tasks behind.
pub proof fn lemma_completed_download_leaves_file(
    t: DownloadTaskV,
    events: Seq<DownloadEvent>,
    present0: bool,
)
    requires
        t.state == TaskState::Starting || (t.state == TaskState::Streaming && present0),
        spec_run(t, events).0.state == TaskState::Done,
    ensures
        file_present_after(present0, spec_run(t, events).1),
    decreases events.len(),
{
    if events.len() == 0 {
    } else {
        let first = spec_step(t, events[0]);
        let rest = spec_run(first.0, events.drop_first());
        lemma_file_present_concat(present0, first.1, rest.1);
        if first.0.state == TaskState::Failed {
            lemma_run_absorbed(first.0, events.drop_first());
        } else if first.0.state == TaskState::Done {
            lemma_run_absorbed(first.0, events.drop_first());
            if t.state == TaskState::Streaming {
                assert(file_present_after(present0, first.1)) by {
                    reveal_with_fuel(file_present_after, 3);
                }
            }
        } else {
            let p1 = file_present_after(present0, first.1);
            if first.0.state == TaskState::Streaming {
                assert(p1) by {
                    reveal_with_fuel(file_present_after, 3);
                }
            }
            lemma_completed_download_leaves_file(first.0, events.drop_first(), p1);
        }
    }
}

// ---------------------------------------------------------------------
// Aggregating the workers' results
// ---------------------------------------------------------------------

/// What one finished worker reports: its task's address and the error
/// message, if it failed.
pub struct DownloadOutcome {
    pub url: String,
    pub error: Option<String>,
}

/// The mathematical value of a `DownloadOutcome`.
pub ghost struct DownloadOutcomeV {
    pub url: Seq<char>,
    pub error: Option<Seq<char>>,
}

impl View for DownloadOutcome {
    type V = DownloadOutcomeV;

    open spec fn view(&self) -> DownloadOutcomeV {
        DownloadOutcomeV {
            url: self.url@,
            error: match self.error {
                Some(ref m) => Some(m@),
                None => None,
            },
        }
    }
}

/// The views of a sequence of outcomes.
pub open spec fn outcome_views(s: Seq<DownloadOutcome>) -> Seq<DownloadOutcomeV> {
    s.map_values(|o: DownloadOutcome| o@)
}

/// The `(address, message)` pairs of the failed outcomes, in the order
/// the outcomes were reported.
pub open spec fn failed_pairs(os: Seq<DownloadOutcomeV>) -> Seq<(Seq<char>, Seq<char>)>
    decreases os.len(),
{
    if os.len() == 0 {
        Seq::empty()
    } else {
        failed_pairs(os.drop_last()) + (match os.last().error {
            Some(m) => seq![(os.last().url, m)],
            None => Seq::empty(),
        })
    }
}

/// How many outcomes failed.
pub open spec fn count_failed(os: Seq<DownloadOutcomeV>) -> int
    decreases os.len(),
{
    if os.len() == 0 {
        0
    } else {
        count_failed(os.drop_last()) + (if os.last().error is Some {
            1int
        } else {
            0int
        })
    }
}

/// Of `N` tasks of which `M` failed, the aggregated error holds exactly
/// `M` pairs, and every pair restates one failed outcome's address and
/// message.
pub proof fn lemma_aggregation_complete(os: Seq<DownloadOutcomeV>)
    ensures
        failed_pairs(os).len() == count_failed(os),
        forall|i: int|
            0 <= i < failed_pairs(os).len() ==> exists|j: int|
                0 <= j < os.len() && os[j].error == Some((#[trigger] failed_pairs(os)[i]).1)
                    && os[j].url == failed_pairs(os)[i].0,
    decreases os.len(),
{
    if os.len() > 0 {
        lemma_aggregation_complete(os.drop_last());
        assert forall|i: int|
            0 <= i < failed_pairs(os).len() implies exists|j: int|
            0 <= j < os.len() && os[j].error == Some((#[trigger] failed_pairs(os)[i]).1)
                && os[j].url == failed_pairs(os)[i].0 by {
            if i < failed_pairs(os.drop_last()).len() {
                assert(failed_pairs(os)[i] == failed_pairs(os.drop_last())[i]);
                let j = choose|j: int|
                    0 <= j < os.drop_last().len() && os.drop_last()[j].error == Some(
                        failed_pairs(os.drop_last())[i].1,
                    ) && os.drop_last()[j].url == failed_pairs(os.drop_last())[i].0;
                assert(os[j] == os.drop_last()[j]);
            } else {
                assert(os.last().error is Some);
                assert(failed_pairs(os)[i] == (os.last().url, os.last().error->Some_0));
                assert(os[os.len() - 1].error == Some(failed_pairs(os)[i].1));
            }
        }
    }
}

/// The combined result of a download batch that did not fully succeed:
/// one `(address, message)` pair per failed task, in completion order.
pub struct AggregatedError {
    pub failures: Vec<(String, String)>,
}

/// The views of the failure pairs.
pub open spec fn pair_views(s: Seq<(String, String)>) -> Seq<(Seq<char>, Seq<char>)> {
    s.map_values(|p: (String, String)| (p.0@, p.1@))
}

/// Combines every worker's report into the batch result: success
/// exactly when no task failed, and otherwise the failures of all
/// failed tasks, in the order the reports came in.
pub fn aggregate_download_results(outcomes: Vec<DownloadOutcome>) -> (r: Result<
    (),
    AggregatedError,
>)
    ensures
        match r {
            Ok(()) => failed_pairs(outcome_views(outcomes@)).len() == 0,
            Err(e) => pair_views(e.failures@) == failed_pairs(outcome_views(outcomes@))
                && e.failures@.len() > 0,
        },
{
    let n = outcomes.len();
    let mut failures: Vec<(String, String)> = Vec::new();
    let mut i: usize = 0;
    while i < n
        invariant
            i <= n,
            n == outcomes@.len(),
            pair_views(failures@) == failed_pairs(outcome_views(outcomes@).take(i as int)),
        decreases n - i,
    {
        proof {
            assert(outcome_views(outcomes@).take(i + 1).drop_last() =~= outcome_views(
                outcomes@,
            ).take(i as int));
            assert(outcome_views(outcomes@).take(i + 1).last() == outcomes@[i as int]@);
        }
        match &outcomes[i].error {
            Some(m) => {
                let pair = (outcomes[i].url.clone(), m.clone());
                failures.push(pair);
                proof {
                    assert(pair_views(failures@) =~= failed_pairs(
                        outcome_views(outcomes@).take(i + 1),
                    ));
                }
            },
            None => {
                proof {
                    assert(pair_views(failures@) =~= failed_pairs(
                        outcome_views(outcomes@).take(i + 1),
                    ));
                }
            },
        }
        i = i + 1;
    }
    proof {
        assert(outcome_views(outcomes@).take(n as int) =~= outcome_views(outcomes@));
    }
    if failures.len() == 0 {
        Ok(())
    } else {
        Err(AggregatedError { failures })
    }
}

} // verus!
