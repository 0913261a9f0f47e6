//! The value-free attempt-stage ledger: the newest closed stage each recent request reached,
//! and the terminal outcome of each of its attempts.
//!
//! It never holds an endpoint, credential, URL, header, body, status, error detail, model,
//! token or timestamp. Any inconsistency latches it unavailable, after which it withholds
//! every projection rather than report a stage it cannot vouch for.
use vstd::prelude::*;

verus! {

/// Requests the ledger retains before evicting the oldest: two generations of the admitted
/// total credential concurrency.
pub const MAX_RECORDS: usize = 32;

/// The largest per-route transparent attempt budget the composition admits.
pub const P12_MAX_ROUTE_ATTEMPTS: usize = 5;

/// The largest total credential concurrency the composition admits across all bindings.
pub const P12_MAX_TOTAL_BINDING_CONCURRENCY: i64 = 16;

/// The closed stage an upstream attempt reached.
#[derive(Clone, Copy, Debug, PartialEq, Eq, Structural)]
pub enum ManagementRequestAttemptStage {
    RequestConversion,
    EgressAdmission,
    HttpTransport,
    HttpStatus,
    ContentType,
    BodyRead,
    Decoder,
    SseBootstrap,
}

/// How an event sink disposed of one event.
#[derive(Clone, Copy, Debug, PartialEq, Eq, Structural)]
pub enum EventEmission {
    Enqueued,
    RequiredQueueFull,
    DiagnosticDropped,
}

/// Why a management read could not be served.
#[derive(Clone, Copy, Debug, PartialEq, Eq, Structural)]
pub enum ManagementRuntimeError {
    Unavailable,
}

/// One recorded attempt terminal: its identifier and whether it succeeded.
pub struct AttemptTerminal {
    pub attempt_id: String,
    pub succeeded: bool,
}

/// One retained request: its newest stage and its attempt terminals in arrival order.
pub struct StageRecord {
    pub stage: ManagementRequestAttemptStage,
    pub attempts: Vec<AttemptTerminal>,
}

/// One listed attempt: its identifier, outcome, and the stage when it is the newest attempt.
#[derive(Debug, PartialEq, Eq)]
pub struct LedgerAttempt {
    pub attempt_id: String,
    pub outcome: &'static str,
    pub stage: Option<ManagementRequestAttemptStage>,
}

/// A retained request as the ledger models it.
pub struct RecordView {
    pub stage: ManagementRequestAttemptStage,
    pub attempts: Seq<(Seq<char>, bool)>,
}

/// The ledger as a model: retained requests from oldest to newest, and the latch.
pub struct LedgerView {
    pub records: Seq<(Seq<char>, RecordView)>,
    pub unavailable: bool,
}

impl View for AttemptTerminal {
    type V = (Seq<char>, bool);

    open spec fn view(&self) -> (Seq<char>, bool) {
        (self.attempt_id@, self.succeeded)
    }
}

impl View for StageRecord {
    type V = RecordView;

    open spec fn view(&self) -> RecordView {
        RecordView {
            stage: self.stage,
            attempts: self.attempts@.map_values(|a: AttemptTerminal| a@),
        }
    }
}

/// The position of request `id` among `records` from index `i`, or the number of records.
pub open spec fn record_index_from(records: Seq<(Seq<char>, RecordView)>, id: Seq<char>, i: int) -> int
    decreases records.len() - i,
{
    if i < 0 || i >= records.len() {
        records.len() as int
    } else if records[i].0 == id {
        i
    } else {
        record_index_from(records, id, i + 1)
    }
}

pub open spec fn record_index(records: Seq<(Seq<char>, RecordView)>, id: Seq<char>) -> int {
    record_index_from(records, id, 0)
}

/// Whether `attempts` holds attempt `id`.
pub open spec fn has_attempt(attempts: Seq<(Seq<char>, bool)>, id: Seq<char>) -> bool {
    exists|k: int| 0 <= k < attempts.len() && (#[trigger] attempts[k]).0 == id
}

impl LedgerView {
    /// The ledger's invariant: at most [`MAX_RECORDS`] requests, each retained once, each with
    /// at most [`P12_MAX_ROUTE_ATTEMPTS`] distinct attempts.
    pub open spec fn wf(self) -> bool {
        &&& self.records.len() <= MAX_RECORDS
        &&& forall|i: int, j: int|
            0 <= i < j < self.records.len() ==> (#[trigger] self.records[i]).0 != (#[trigger] self.records[j]).0
        &&& forall|i: int|
            0 <= i < self.records.len() ==> (#[trigger] self.records[i]).1.attempts.len()
                <= P12_MAX_ROUTE_ATTEMPTS
    }

    /// The record of request `id`, when retained.
    pub open spec fn get(self, id: Seq<char>) -> Option<RecordView> {
        let k = record_index(self.records, id);
        if k < self.records.len() {
            Some(self.records[k].1)
        } else {
            None
        }
    }

    /// The ledger after recording that request `id` reached `stage`: a retained request's
    /// stage is overwritten; a new request is appended as the newest, the oldest evicted first
    /// when the ledger is full. A latched ledger records nothing.
    pub open spec fn after_stage(self, id: Seq<char>, stage: ManagementRequestAttemptStage) -> LedgerView {
        let k = record_index(self.records, id);
        if self.unavailable {
            self
        } else if k < self.records.len() {
            LedgerView {
                records: self.records.update(k, (id, RecordView { stage, ..self.records[k].1 })),
                ..self
            }
        } else {
            let kept = if self.records.len() >= MAX_RECORDS {
                self.records.drop_first()
            } else {
                self.records
            };
            LedgerView {
                records: kept.push((id, RecordView { stage, attempts: Seq::empty() })),
                ..self
            }
        }
    }

    /// Whether recording terminal `attempt_id` of request `id` is consistent: the ledger is
    /// available, the request was staged, and the attempt is new and within the budget.
    pub open spec fn terminal_accepted(self, id: Seq<char>, attempt_id: Seq<char>) -> bool {
        &&& !self.unavailable
        &&& self.get(id) is Some
        &&& self.get(id)->0.attempts.len() < P12_MAX_ROUTE_ATTEMPTS
        &&& !has_attempt(self.get(id)->0.attempts, attempt_id)
    }

    /// Whether a terminal arrives for a request the ledger no longer holds (evicted, or never
    /// staged): it is dropped, and the ledger stays as it is.
    pub open spec fn terminal_dropped(self, id: Seq<char>) -> bool {
        !self.unavailable && self.get(id) is None
    }

    /// What recording one attempt terminal reports: `Enqueued` when accepted, a diagnostic drop
    /// for a request no longer held, and a required loss otherwise.
    pub open spec fn terminal_emission(self, id: Seq<char>, attempt_id: Seq<char>) -> EventEmission {
        if self.terminal_accepted(id, attempt_id) {
            EventEmission::Enqueued
        } else if self.terminal_dropped(id) {
            EventEmission::DiagnosticDropped
        } else {
            EventEmission::RequiredQueueFull
        }
    }

    /// The ledger after one attempt terminal: appended when accepted; unchanged for a request
    /// no longer held, so reaching the record bound never latches the ledger; otherwise (a
    /// repeated attempt, or one past the budget) the ledger latches unavailable.
    pub open spec fn after_terminal(self, id: Seq<char>, attempt_id: Seq<char>, succeeded: bool) -> LedgerView {
        if self.terminal_dropped(id) {
            self
        } else if self.terminal_accepted(id, attempt_id) {
            let k = record_index(self.records, id);
            let r = self.records[k].1;
            LedgerView {
                records: self.records.update(
                    k,
                    (id, RecordView { attempts: r.attempts.push((attempt_id, succeeded)), ..r }),
                ),
                ..self
            }
        } else {
            LedgerView { unavailable: true, ..self }
        }
    }

    /// The stage projection of request `id`: withheld once latched, for an unknown request,
    /// and until a terminal pairs with the stage.
    pub open spec fn stage_projection(self, id: Seq<char>) -> Option<ManagementRequestAttemptStage> {
        if self.unavailable {
            None
        } else {
            match self.get(id) {
                Some(r) => if r.attempts.len() > 0 {
                    Some(r.stage)
                } else {
                    None
                },
                None => None,
            }
        }
    }
}

/// The outcome label of one terminal.
pub open spec fn outcome_label(succeeded: bool) -> Seq<char> {
    if succeeded {
        "succeeded"@
    } else {
        "failed"@
    }
}

/// The value-free attempt-stage ledger.
pub struct AttemptStageLedger {
    records: Vec<(String, StageRecord)>,
    unavailable: bool,
}

impl View for AttemptStageLedger {
    type V = LedgerView;

    closed spec fn view(&self) -> LedgerView {
        LedgerView {
            records: self.records@.map_values(|r: (String, StageRecord)| (r.0@, r.1@)),
            unavailable: self.unavailable,
        }
    }
}

impl AttemptStageLedger {
    /// An empty, available ledger.
    pub fn new() -> (l: Self)
        ensures
            l@.wf(),
            l@.records == Seq::<(Seq<char>, RecordView)>::empty(),
            !l@.unavailable,
    {
        let l = AttemptStageLedger { records: Vec::new(), unavailable: false };
        assert(l@.records =~= Seq::<(Seq<char>, RecordView)>::empty());
        l
    }

    /// The position of request `id`, or the number of records.
    fn find(&self, id: &String) -> (k: usize)
        ensures
            k == record_index(self@.records, id@),
            k <= self@.records.len(),
            k < self@.records.len() ==> self@.records[k as int].0 == id@,
    {
        proof {
            lemma_record_index_bounds(self@.records, id@, 0);
        }
        let ghost records = self@.records;
        let mut i: usize = 0;
        while i < self.records.len()
            invariant
                0 <= i <= self.records@.len(),
                records == self@.records,
                record_index_from(records, id@, 0) == record_index_from(records, id@, i as int),
            decreases self.records.len() - i,
        {
            if self.records[i].0 == *id {
                return i;
            }
            i = i + 1;
        }
        i
    }

    /// Latches the ledger unavailable.
    pub fn mark_unavailable(&mut self)
        requires
            old(self)@.wf(),
        ensures
            final(self)@ == (LedgerView { unavailable: true, ..old(self)@ }),
            final(self)@.wf(),
    {
        self.unavailable = true;
    }

    /// Whether the ledger latched unavailable.
    pub fn is_unavailable(&self) -> (r: bool)
        ensures
            r == self@.unavailable,
    {
        self.unavailable
    }

    /// Records that request `id` reached `stage`.
    pub fn record_stage(&mut self, id: &String, stage: ManagementRequestAttemptStage)
        requires
            old(self)@.wf(),
        ensures
            final(self)@ == old(self)@.after_stage(id@, stage),
            final(self)@.wf(),
    {
        let ghost v0 = self@;
        if self.unavailable {
            return;
        }
        let k = self.find(id);
        if k < self.records.len() {
            let (rid, mut record) = self.records.remove(k);
            record.stage = stage;
            self.records.insert(k, (rid, record));
            proof {
                assert(v0.records[k as int].0 == id@);
                assert(self@.records =~= v0.records.update(
                    k as int,
                    (id@, RecordView { stage, ..v0.records[k as int].1 }),
                ));
                assert forall|i: int, j: int| 0 <= i < j < self@.records.len() implies (#[trigger] self@.records[i]).0 != (#[trigger] self@.records[j]).0 by {
                    assert(self@.records[i].0 == v0.records[i].0);
                    assert(self@.records[j].0 == v0.records[j].0);
                }
                assert forall|i: int| 0 <= i < self@.records.len() implies (#[trigger] self@.records[i]).1.attempts.len() <= P12_MAX_ROUTE_ATTEMPTS by {
                    assert(self@.records[i].1.attempts == v0.records[i].1.attempts);
                }
            }
            return;
        }
        if self.records.len() >= MAX_RECORDS {
            self.records.remove(0);
        }
        let ghost kept = self@.records;
        proof {
            if v0.records.len() >= MAX_RECORDS {
                assert(kept =~= v0.records.drop_first());
            } else {
                assert(kept =~= v0.records);
            }
        }
        self.records.push((id.clone(), StageRecord { stage, attempts: Vec::new() }));
        proof {
            let entry = (id@, RecordView { stage, attempts: Seq::empty() });
            assert(self@.records[self@.records.len() - 1].1.attempts =~= Seq::<(Seq<char>, bool)>::empty());
            assert(self@.records =~= kept.push(entry));
            assert forall|i: int| 0 <= i < kept.len() implies (#[trigger] kept[i]).0 != id@ by {
                let oi = if v0.records.len() >= MAX_RECORDS { i + 1 } else { i };
                assert(kept[i] == v0.records[oi]);
                lemma_record_index_absent(v0.records, id@, oi);
            }
            assert forall|i: int, j: int| 0 <= i < j < self@.records.len() implies (#[trigger] self@.records[i]).0 != (#[trigger] self@.records[j]).0 by {
                if j < kept.len() {
                    let oi = if v0.records.len() >= MAX_RECORDS { i + 1 } else { i };
                    let oj = if v0.records.len() >= MAX_RECORDS { j + 1 } else { j };
                    assert(kept[i] == v0.records[oi]);
                    assert(kept[j] == v0.records[oj]);
                } else {
                    assert(self@.records[i] == kept[i]);
                }
            }
            assert forall|i: int| 0 <= i < self@.records.len() implies (#[trigger] self@.records[i]).1.attempts.len() <= P12_MAX_ROUTE_ATTEMPTS by {
                if i < kept.len() {
                    let oi = if v0.records.len() >= MAX_RECORDS { i + 1 } else { i };
                    assert(kept[i] == v0.records[oi]);
                }
            }
        }
    }

    /// Whether the record at `k` holds attempt `attempt_id`.
    fn record_has_attempt(&self, k: usize, attempt_id: &String) -> (r: bool)
        requires
            k < self@.records.len(),
        ensures
            r == has_attempt(self@.records[k as int].1.attempts, attempt_id@),
    {
        let attempts = &self.records[k].1.attempts;
        let ghost view = self@.records[k as int].1.attempts;
        let mut i: usize = 0;
        while i < attempts.len()
            invariant
                0 <= i <= attempts@.len(),
                view == attempts@.map_values(|a: AttemptTerminal| a@),
                k < self@.records.len(),
                view == self@.records[k as int].1.attempts,
                forall|q: int| 0 <= q < i ==> (#[trigger] view[q]).0 != attempt_id@,
            decreases attempts.len() - i,
        {
            if attempts[i].attempt_id == *attempt_id {
                assert(view[i as int].0 == attempt_id@);
                assert(has_attempt(view, attempt_id@));
                return true;
            }
            i = i + 1;
        }
        false
    }

    /// Records the terminal of attempt `attempt_id` of request `id`. The terminal of a request
    /// the ledger no longer holds is dropped as a diagnostic loss; a repeated attempt or one
    /// past the attempt budget latches the ledger unavailable and reports the required event
    /// as lost to the stage projection.
    pub fn record_terminal(&mut self, id: &String, attempt_id: &String, succeeded: bool) -> (r: EventEmission)
        requires
            old(self)@.wf(),
        ensures
            final(self)@ == old(self)@.after_terminal(id@, attempt_id@, succeeded),
            final(self)@.wf(),
            r == old(self)@.terminal_emission(id@, attempt_id@),
    {
        let ghost v0 = self@;
        if self.unavailable {
            return EventEmission::RequiredQueueFull;
        }
        let k = self.find(id);
        if k >= self.records.len() {
            return EventEmission::DiagnosticDropped;
        }
        if self.records[k].1.attempts.len() >= P12_MAX_ROUTE_ATTEMPTS || self.record_has_attempt(k, attempt_id) {
            self.unavailable = true;
            return EventEmission::RequiredQueueFull;
        }
        let (rid, mut record) = self.records.remove(k);
        let ghost before = record@;
        record.attempts.push(AttemptTerminal { attempt_id: attempt_id.clone(), succeeded });
        self.records.insert(k, (rid, record));
        proof {
            assert(v0.records[k as int].0 == id@);
            assert(record@.attempts =~= before.attempts.push((attempt_id@, succeeded)));
            assert(self@.records =~= v0.records.update(
                k as int,
                (id@, RecordView { attempts: before.attempts.push((attempt_id@, succeeded)), ..before }),
            ));
            assert forall|i: int, j: int| 0 <= i < j < self@.records.len() implies (#[trigger] self@.records[i]).0 != (#[trigger] self@.records[j]).0 by {
                assert(self@.records[i].0 == v0.records[i].0);
                assert(self@.records[j].0 == v0.records[j].0);
            }
            assert forall|i: int| 0 <= i < self@.records.len() implies (#[trigger] self@.records[i]).1.attempts.len() <= P12_MAX_ROUTE_ATTEMPTS by {
                if i != k {
                    assert(self@.records[i] == v0.records[i]);
                }
            }
        }
        EventEmission::Enqueued
    }

    /// Returns the newest stage recorded for request `id`, whether or not a terminal paired
    /// with it.
    pub fn recorded_stage(&self, id: &String) -> (r: Option<ManagementRequestAttemptStage>)
        ensures
            r == match self@.get(id@) {
                Some(rec) => Some(rec.stage),
                None => None,
            },
    {
        let k = self.find(id);
        if k < self.records.len() {
            Some(self.records[k].1.stage)
        } else {
            None
        }
    }

    /// Returns the closed terminal stage of request `id`, or `None` on any projection loss.
    pub fn stage_view(&self, id: &String) -> (r: Option<ManagementRequestAttemptStage>)
        ensures
            r == self@.stage_projection(id@),
    {
        if self.unavailable {
            return None;
        }
        let k = self.find(id);
        if k >= self.records.len() {
            return None;
        }
        if self.records[k].1.attempts.len() == 0 {
            return None;
        }
        Some(self.records[k].1.stage)
    }

    /// Lists the recorded attempts of request `id` in arrival order, the request's stage on
    /// the newest one. A latched ledger, or a staged request without any terminal, is
    /// unavailable; an unknown request lists nothing.
    pub fn list_request_attempts(&self, id: &String) -> (r: Result<Vec<LedgerAttempt>, ManagementRuntimeError>)
        ensures
            if self@.unavailable {
                r == Err::<Vec<LedgerAttempt>, ManagementRuntimeError>(
                    ManagementRuntimeError::Unavailable,
                )
            } else {
                match self@.get(id@) {
                    None => r matches Ok(v) && v@.len() == 0,
                    Some(rec) => if rec.attempts.len() == 0 {
                        r == Err::<Vec<LedgerAttempt>, ManagementRuntimeError>(
                            ManagementRuntimeError::Unavailable,
                        )
                    } else {
                        r matches Ok(v) && v@.len() == rec.attempts.len() && forall|k: int|
                            0 <= k < v@.len() ==> (#[trigger] v@[k]).attempt_id@
                                == rec.attempts[k].0 && v@[k].outcome@ == outcome_label(
                                rec.attempts[k].1,
                            ) && v@[k].stage == if k == v@.len() - 1 {
                                Some(rec.stage)
                            } else {
                                None
                            }
                    },
                }
            },
    {
        if self.unavailable {
            return Err(ManagementRuntimeError::Unavailable);
        }
        let k = self.find(id);
        if k >= self.records.len() {
            return Ok(Vec::new());
        }
        let record = &self.records[k].1;
        let ghost rec = self@.records[k as int].1;
        let n = record.attempts.len();
        if n == 0 {
            return Err(ManagementRuntimeError::Unavailable);
        }
        let mut out: Vec<LedgerAttempt> = Vec::new();
        let mut i: usize = 0;
        while i < n
            invariant
                n == record.attempts@.len(),
                rec.attempts == record.attempts@.map_values(|a: AttemptTerminal| a@),
                rec.stage == record.stage,
                0 <= i <= n,
                out@.len() == i,
                forall|q: int|
                    0 <= q < i ==> (#[trigger] out@[q]).attempt_id@ == rec.attempts[q].0
                        && out@[q].outcome@ == outcome_label(rec.attempts[q].1) && out@[q].stage
                        == if q == n - 1 {
                        Some(rec.stage)
                    } else {
                        None
                    },
            decreases n - i,
        {
            let terminal = &record.attempts[i];
            let outcome: &'static str = if terminal.succeeded {
                "succeeded"
            } else {
                "failed"
            };
            let stage = if i + 1 == n {
                Some(record.stage)
            } else {
                None
            };
            out.push(LedgerAttempt { attempt_id: terminal.attempt_id.clone(), outcome, stage });
            i = i + 1;
        }
        Ok(out)
    }
}

/// The index lies within the records, and a found index holds the request.
proof fn lemma_record_index_bounds(records: Seq<(Seq<char>, RecordView)>, id: Seq<char>, s: int)
    requires
        0 <= s <= records.len(),
    ensures
        s <= record_index_from(records, id, s) <= records.len(),
        record_index_from(records, id, s) < records.len() ==> records[record_index_from(
            records,
            id,
            s,
        )].0 == id,
    decreases records.len() - s,
{
    if s < records.len() && records[s].0 != id {
        lemma_record_index_bounds(records, id, s + 1);
    }
}

/// Every retained position of `records` before a missing request's index differs from it.
proof fn lemma_record_index_absent(records: Seq<(Seq<char>, RecordView)>, id: Seq<char>, i: int)
    requires
        record_index(records, id) == records.len(),
        0 <= i < records.len(),
    ensures
        records[i].0 != id,
{
    lemma_record_index_skip(records, id, 0, i);
}

proof fn lemma_record_index_skip(records: Seq<(Seq<char>, RecordView)>, id: Seq<char>, s: int, i: int)
    requires
        0 <= s <= i < records.len(),
        record_index_from(records, id, s) == records.len(),
    ensures
        records[i].0 != id,
    decreases i - s,
{
    if s < i {
        lemma_record_index_skip(records, id, s + 1, i);
    }
}


/// Replacing the entry of a request keeps it where it was found.
proof fn lemma_record_index_update(records: Seq<(Seq<char>, RecordView)>, id: Seq<char>, r: RecordView, s: int)
    requires
        0 <= s <= record_index_from(records, id, s) < records.len(),
    ensures
        record_index_from(records.update(record_index_from(records, id, s), (id, r)), id, s)
            == record_index_from(records, id, s),
    decreases records.len() - s,
{
    lemma_record_index_bounds(records, id, s);
    let k = record_index_from(records, id, s);
    let u = records.update(k, (id, r));
    if s < k {
        assert(records[s].0 != id);
        assert(u[s] == records[s]);
        lemma_record_index_update(records, id, r, s + 1);
    } else {
        assert(u[s].0 == id);
    }
}

/// A request appended after records that do not hold it is found at the end.
proof fn lemma_record_index_push(records: Seq<(Seq<char>, RecordView)>, id: Seq<char>, r: RecordView, s: int)
    requires
        0 <= s <= records.len(),
        forall|i: int| s <= i < records.len() ==> (#[trigger] records[i]).0 != id,
    ensures
        record_index_from(records.push((id, r)), id, s) == records.len(),
    decreases records.len() - s,
{
    if s < records.len() {
        assert(records.push((id, r))[s] == records[s]);
        lemma_record_index_push(records, id, r, s + 1);
    } else {
        assert(records.push((id, r))[s].0 == id);
    }
}

/// Once the ledger latched unavailable it stays so, records nothing more, and withholds
/// every stage projection.
pub proof fn lemma_unavailable_is_permanent(
    l: LedgerView,
    id: Seq<char>,
    stage: ManagementRequestAttemptStage,
    attempt_id: Seq<char>,
    succeeded: bool,
)
    requires
        l.unavailable,
    ensures
        l.after_stage(id, stage) == l,
        l.after_terminal(id, attempt_id, succeeded) == l,
        l.stage_projection(id) is None,
{
}

/// Every operation keeps the ledger within [`MAX_RECORDS`] requests, each retained once with
/// at most [`P12_MAX_ROUTE_ATTEMPTS`] distinct attempts.
pub proof fn lemma_operations_keep_the_ledger_bounded(
    l: LedgerView,
    id: Seq<char>,
    stage: ManagementRequestAttemptStage,
    attempt_id: Seq<char>,
    succeeded: bool,
)
    requires
        l.wf(),
    ensures
        l.after_stage(id, stage).wf(),
        l.after_terminal(id, attempt_id, succeeded).wf(),
{
    let k = record_index(l.records, id);
    lemma_record_index_bounds(l.records, id, 0);
    if !l.unavailable && k == l.records.len() {
        let kept = if l.records.len() >= MAX_RECORDS {
            l.records.drop_first()
        } else {
            l.records
        };
        let n = l.after_stage(id, stage).records;
        assert forall|i: int| 0 <= i < kept.len() implies (#[trigger] kept[i]).0 != id by {
            let oi = if l.records.len() >= MAX_RECORDS { i + 1 } else { i };
            assert(kept[i] == l.records[oi]);
            lemma_record_index_absent(l.records, id, oi);
        }
        assert forall|i: int, j: int| 0 <= i < j < n.len() implies (#[trigger] n[i]).0 != (#[trigger] n[j]).0 by {
            if j < kept.len() {
                let oi = if l.records.len() >= MAX_RECORDS { i + 1 } else { i };
                let oj = if l.records.len() >= MAX_RECORDS { j + 1 } else { j };
                assert(kept[i] == l.records[oi]);
                assert(kept[j] == l.records[oj]);
            } else {
                assert(n[i] == kept[i]);
            }
        }
        assert forall|i: int| 0 <= i < n.len() implies (#[trigger] n[i]).1.attempts.len() <= P12_MAX_ROUTE_ATTEMPTS by {
            if i < kept.len() {
                let oi = if l.records.len() >= MAX_RECORDS { i + 1 } else { i };
                assert(kept[i] == l.records[oi]);
            }
        }
    }
    if !l.unavailable && k < l.records.len() {
        let n = l.after_stage(id, stage).records;
        assert forall|i: int, j: int| 0 <= i < j < n.len() implies (#[trigger] n[i]).0 != (#[trigger] n[j]).0 by {
            assert(n[i].0 == l.records[i].0);
            assert(n[j].0 == l.records[j].0);
        }
        assert forall|i: int| 0 <= i < n.len() implies (#[trigger] n[i]).1.attempts.len() <= P12_MAX_ROUTE_ATTEMPTS by {
            assert(n[i].1.attempts == l.records[i].1.attempts);
        }
    }
    if l.terminal_accepted(id, attempt_id) {
        let n = l.after_terminal(id, attempt_id, succeeded).records;
        assert forall|i: int, j: int| 0 <= i < j < n.len() implies (#[trigger] n[i]).0 != (#[trigger] n[j]).0 by {
            assert(n[i].0 == l.records[i].0);
            assert(n[j].0 == l.records[j].0);
        }
        assert forall|i: int| 0 <= i < n.len() implies (#[trigger] n[i]).1.attempts.len() <= P12_MAX_ROUTE_ATTEMPTS by {
            if i != k {
                assert(n[i] == l.records[i]);
            }
        }
    }
}

/// What is read back is what was written: once an attempt terminal pairs with the stage a
/// request last recorded, the stage projection of that request is exactly that stage.
pub proof fn lemma_recorded_stage_is_projected_after_its_terminal(
    l: LedgerView,
    id: Seq<char>,
    stage: ManagementRequestAttemptStage,
    attempt_id: Seq<char>,
    succeeded: bool,
)
    requires
        l.wf(),
        l.after_stage(id, stage).terminal_accepted(id, attempt_id),
    ensures
        l.after_stage(id, stage).after_terminal(id, attempt_id, succeeded).stage_projection(id)
            == Some(stage),
{
    let l1 = l.after_stage(id, stage);
    lemma_record_index_bounds(l.records, id, 0);
    let k = record_index(l.records, id);
    if k < l.records.len() {
        lemma_record_index_update(l.records, id, RecordView { stage, ..l.records[k].1 }, 0);
    } else {
        let kept = if l.records.len() >= MAX_RECORDS {
            l.records.drop_first()
        } else {
            l.records
        };
        assert forall|i: int| 0 <= i < kept.len() implies (#[trigger] kept[i]).0 != id by {
            let oi = if l.records.len() >= MAX_RECORDS { i + 1 } else { i };
            assert(kept[i] == l.records[oi]);
            lemma_record_index_absent(l.records, id, oi);
        }
        lemma_record_index_push(kept, id, RecordView { stage, attempts: Seq::empty() }, 0);
    }
    let k1 = record_index(l1.records, id);
    lemma_record_index_bounds(l1.records, id, 0);
    let r1 = l1.records[k1].1;
    assert(r1.stage == stage);
    lemma_record_index_update(
        l1.records,
        id,
        RecordView { attempts: r1.attempts.push((attempt_id, succeeded)), ..r1 },
        0,
    );
}

/// A full ledger admits a new request by evicting exactly its oldest one: the others keep
/// their order and the new request becomes the newest.
pub proof fn lemma_full_ledger_evicts_the_oldest(
    l: LedgerView,
    id: Seq<char>,
    stage: ManagementRequestAttemptStage,
)
    requires
        l.wf(),
        !l.unavailable,
        l.records.len() == MAX_RECORDS,
        l.get(id) is None,
    ensures
        l.after_stage(id, stage).records.len() == MAX_RECORDS,
        l.after_stage(id, stage).records == l.records.drop_first().push(
            (id, RecordView { stage, attempts: Seq::empty() }),
        ),
        l.after_stage(id, stage).get(l.records[0].0) is None,
{
    lemma_record_index_bounds(l.records, id, 0);
    let n = l.after_stage(id, stage).records;
    let oldest = l.records[0].0;
    assert(oldest != id);
    assert forall|i: int| 0 <= i < n.len() implies (#[trigger] n[i]).0 != oldest by {
        if i < n.len() - 1 {
            assert(n[i] == l.records[i + 1]);
        }
    }
    lemma_record_index_bounds(n, oldest, 0);
}

/// Reaching the record bound never latches the ledger: staging never latches it, and a
/// terminal latches it only for a request it still holds whose attempt repeats or exceeds the
/// attempt budget; the terminal of an evicted request leaves the ledger unchanged.
pub proof fn lemma_only_a_repeat_or_the_budget_latches(
    l: LedgerView,
    id: Seq<char>,
    stage: ManagementRequestAttemptStage,
    attempt_id: Seq<char>,
    succeeded: bool,
)
    requires
        l.wf(),
        !l.unavailable,
    ensures
        !l.after_stage(id, stage).unavailable,
        l.get(id) is None ==> l.after_terminal(id, attempt_id, succeeded) == l,
        l.after_terminal(id, attempt_id, succeeded).unavailable ==> l.get(id) is Some && (l.get(
            id,
        )->0.attempts.len() >= P12_MAX_ROUTE_ATTEMPTS || has_attempt(l.get(id)->0.attempts, attempt_id)),
{
}

/// An available ledger reads back the stage it was just given for a request.
pub proof fn lemma_staged_request_reads_back_its_stage(
    l: LedgerView,
    id: Seq<char>,
    stage: ManagementRequestAttemptStage,
)
    requires
        l.wf(),
        !l.unavailable,
    ensures
        l.after_stage(id, stage).get(id) matches Some(r) && r.stage == stage,
{
    lemma_record_index_bounds(l.records, id, 0);
    let k = record_index(l.records, id);
    if k < l.records.len() {
        lemma_record_index_update(l.records, id, RecordView { stage, ..l.records[k].1 }, 0);
    } else {
        let kept = if l.records.len() >= MAX_RECORDS {
            l.records.drop_first()
        } else {
            l.records
        };
        assert forall|i: int| 0 <= i < kept.len() implies (#[trigger] kept[i]).0 != id by {
            let oi = if l.records.len() >= MAX_RECORDS { i + 1 } else { i };
            assert(kept[i] == l.records[oi]);
            lemma_record_index_absent(l.records, id, oi);
        }
        lemma_record_index_push(kept, id, RecordView { stage, attempts: Seq::empty() }, 0);
    }
    let l1 = l.after_stage(id, stage);
    lemma_record_index_bounds(l1.records, id, 0);
}

/// A repeated attempt terminal, or one past the budget, latches the ledger unavailable.
pub proof fn lemma_duplicate_terminal_latches(
    l: LedgerView,
    id: Seq<char>,
    attempt_id: Seq<char>,
    succeeded: bool,
    again: bool,
)
    requires
        l.wf(),
        l.terminal_accepted(id, attempt_id),
    ensures
        l.after_terminal(id, attempt_id, succeeded).after_terminal(id, attempt_id, again).unavailable,
{
    let k = record_index(l.records, id);
    lemma_record_index_bounds(l.records, id, 0);
    let r = l.records[k].1;
    let l1 = l.after_terminal(id, attempt_id, succeeded);
    lemma_record_index_update(
        l.records,
        id,
        RecordView { attempts: r.attempts.push((attempt_id, succeeded)), ..r },
        0,
    );
    let a1 = l1.get(id)->0.attempts;
    assert(a1[a1.len() - 1].0 == attempt_id);
    assert(has_attempt(a1, attempt_id));
}


/// One attempt of the durable management listing.
#[derive(Debug, PartialEq, Eq)]
pub struct ListedAttempt {
    pub attempt_id: String,
    pub outcome: &'static str,
    pub endpoint_id: Option<String>,
    pub credential_id: Option<String>,
    pub stage: Option<ManagementRequestAttemptStage>,
}

/// Whether the ledger's single attempt matches the single durable one and carries a stage.
pub open spec fn pairs_single_stage(durable: Seq<ListedAttempt>, recorded: Seq<LedgerAttempt>) -> bool {
    &&& recorded.len() == durable.len()
    &&& recorded.len() == 1
    &&& recorded[0].attempt_id@ == durable[0].attempt_id@
    &&& recorded[0].stage is Some
}

/// Merges the durable attempt listing of one request with the ledger's. The durable log is
/// authoritative, but a ledger that saw more attempts than the log holds proves a terminal
/// was lost, so the listing fails closed; the ledger's stage is paired only onto an exactly
/// matching single-attempt timeline. A ledger that cannot answer adds nothing.
pub fn merge_request_attempts(
    durable: Vec<ListedAttempt>,
    recorded: Result<Vec<LedgerAttempt>, ManagementRuntimeError>,
) -> (r: Result<Vec<ListedAttempt>, ManagementRuntimeError>)
    ensures
        match recorded {
            Err(_) => r == Ok::<Vec<ListedAttempt>, ManagementRuntimeError>(durable),
            Ok(rec) => if rec@.len() > durable@.len() {
                r == Err::<Vec<ListedAttempt>, ManagementRuntimeError>(
                    ManagementRuntimeError::Unavailable,
                )
            } else if pairs_single_stage(durable@, rec@) {
                r matches Ok(v) && v@.len() == 1 && v@[0].attempt_id == durable@[0].attempt_id
                    && v@[0].outcome == durable@[0].outcome && v@[0].endpoint_id
                    == durable@[0].endpoint_id && v@[0].credential_id == durable@[0].credential_id
                    && v@[0].stage == rec@[0].stage
            } else {
                r == Ok::<Vec<ListedAttempt>, ManagementRuntimeError>(durable)
            },
        },
{
    match recorded {
        Err(_) => Ok(durable),
        Ok(rec) => {
            if rec.len() > durable.len() {
                return Err(ManagementRuntimeError::Unavailable);
            }
            if rec.len() == durable.len() && rec.len() == 1 && rec[0].attempt_id == durable[0].attempt_id {
                if let Some(stage) = rec[0].stage {
                    let mut durable = durable;
                    let last = durable.pop();
                    match last {
                        Some(a) => {
                            durable.push(ListedAttempt { stage: Some(stage), ..a });
                            return Ok(durable);
                        },
                        None => return Ok(durable),
                    }
                }
            }
            Ok(durable)
        },
    }
}

} // verus!
