use vstd::prelude::*;

use crate::registry::url_views;

verus! {

/// The outcome of one delivery attempt.
#[derive(Debug)]
pub enum DeliveryOutcome {
    /// The payload reached the subscriber.
    Delivered,
    /// The attempt failed; the string names the reason.
    Failed(String),
}

/// The view of a delivery outcome.
pub enum OutcomeView {
    Delivered,
    Failed(Seq<char>),
}

impl View for DeliveryOutcome {
    type V = OutcomeView;

    open spec fn view(&self) -> OutcomeView {
        match self {
            DeliveryOutcome::Delivered => OutcomeView::Delivered,
            DeliveryOutcome::Failed(reason) => OutcomeView::Failed(reason@),
        }
    }
}

/// One subscriber's entry in a delivery report.
#[derive(Debug)]
pub struct DeliveryRecord {
    pub url: String,
    pub outcome: DeliveryOutcome,
}

/// The view of a delivery record.
pub struct RecordView {
    pub url: Seq<char>,
    pub outcome: OutcomeView,
}

impl View for DeliveryRecord {
    type V = RecordView;

    open spec fn view(&self) -> RecordView {
        RecordView { url: self.url@, outcome: self.outcome@ }
    }
}

/// The views of a sequence of delivery records.
pub open spec fn record_views(rs: Seq<DeliveryRecord>) -> Seq<RecordView> {
    rs.map_values(|r: DeliveryRecord| r@)
}

/// Every record of the report says the payload was delivered.
pub open spec fn all_delivered(rs: Seq<RecordView>) -> bool {
    forall|i: int| 0 <= i < rs.len() ==> (#[trigger] rs[i]).outcome is Delivered
}

/// The report has exactly one record per target, in target order.
pub open spec fn report_covers(rs: Seq<RecordView>, targets: Seq<Seq<char>>) -> bool {
    &&& rs.len() == targets.len()
    &&& forall|i: int| 0 <= i < rs.len() ==> (#[trigger] rs[i]).url == targets[i]
}

/// The per-subscriber outcomes of one publish, in delivery order.
#[derive(Debug)]
pub struct DeliveryReport {
    records: Vec<DeliveryRecord>,
}

impl View for DeliveryReport {
    type V = Seq<RecordView>;

    closed spec fn view(&self) -> Seq<RecordView> {
        record_views(self.records@)
    }
}

impl DeliveryReport {
    /// How many delivery attempts the report lists.
    pub fn len(&self) -> (n: usize)
        ensures
            n == self@.len(),
    {
        self.records.len()
    }

    /// The URL of the `i`-th attempt.
    pub fn url_at(&self, i: usize) -> (u: &String)
        requires
            i < self@.len(),
        ensures
            u@ == self@[i as int].url,
    {
        &self.records[i].url
    }

    /// Whether the `i`-th attempt succeeded.
    pub fn delivered_at(&self, i: usize) -> (d: bool)
        requires
            i < self@.len(),
        ensures
            d == (self@[i as int].outcome is Delivered),
    {
        match &self.records[i].outcome {
            DeliveryOutcome::Delivered => true,
            DeliveryOutcome::Failed(_) => false,
        }
    }

    /// The reason the `i`-th attempt failed, or `None` if it succeeded.
    pub fn failure_reason_at(&self, i: usize) -> (r: Option<&String>)
        requires
            i < self@.len(),
        ensures
            match r {
                Some(reason) => self@[i as int].outcome == OutcomeView::Failed(reason@),
                None => self@[i as int].outcome is Delivered,
            },
    {
        match &self.records[i].outcome {
            DeliveryOutcome::Delivered => None,
            DeliveryOutcome::Failed(reason) => Some(reason),
        }
    }

    /// Whether every attempt in the report succeeded.
    pub fn all_delivered(&self) -> (b: bool)
        ensures
            b == all_delivered(self@),
    {
        let mut i: usize = 0;
        while i < self.records.len()
            invariant
                i <= self.records@.len(),
                self@.len() == self.records@.len(),
                forall|j: int| 0 <= j < i ==> (#[trigger] self@[j]).outcome is Delivered,
            decreases self.records@.len() - i,
        {
            match &self.records[i].outcome {
                DeliveryOutcome::Delivered => {},
                DeliveryOutcome::Failed(_) => {
                    assert(!(self@[i as int].outcome is Delivered));
                    return false;
                },
            }
            i = i + 1;
        }
        true
    }
}

/// One publish in progress: the snapshot of the topic's targets, the
/// payload, and the outcomes recorded so far. The delivery itself is the
/// caller's I/O: the caller takes the targets in order via `next_target`
/// and reports each attempt; a failed attempt never removes the remaining
/// targets from the publish.
pub struct Publication {
    payload: String,
    targets: Vec<String>,
    records: Vec<DeliveryRecord>,
}

impl Publication {
    /// There is at most one record per target, and record `i` is about
    /// target `i`.
    #[verifier::type_invariant]
    spec fn inv(self) -> bool {
        &&& self.records@.len() <= self.targets@.len()
        &&& forall|i: int|
            0 <= i < self.records@.len() ==> (#[trigger] self.records@[i]).url@
                == self.targets@[i]@
    }

    /// The subscribers the publish delivers to, in insertion order.
    pub closed spec fn targets(&self) -> Seq<Seq<char>> {
        url_views(self.targets@)
    }

    /// The outcomes recorded so far, in delivery order.
    pub closed spec fn delivered(&self) -> Seq<RecordView> {
        record_views(self.records@)
    }

    /// The payload every subscriber is sent.
    pub closed spec fn payload(&self) -> Seq<char> {
        self.payload@
    }

    /// Starts a publish of `payload` to the given targets.
    pub fn new(targets: Vec<String>, payload: String) -> (p: Publication)
        ensures
            p.targets() == url_views(targets@),
            p.delivered() == Seq::<RecordView>::empty(),
            p.payload() == payload@,
    {
        let p = Publication { payload, targets, records: Vec::new() };
        proof {
            assert(p.delivered() =~= Seq::<RecordView>::empty());
        }
        p
    }

    /// The payload to deliver.
    pub fn payload_str(&self) -> (s: &String)
        ensures
            s@ == self.payload(),
    {
        &self.payload
    }

    /// The next subscriber owed a delivery attempt, or `None` when every
    /// target has an outcome.
    pub fn next_target(&self) -> (r: Option<String>)
        ensures
            match r {
                Some(u) => {
                    &&& self.delivered().len() < self.targets().len()
                    &&& u@ == self.targets()[self.delivered().len() as int]
                },
                None => self.delivered().len() == self.targets().len(),
            },
    {
        proof {
            use_type_invariant(&*self);
        }
        if self.records.len() < self.targets.len() {
            Some(self.targets[self.records.len()].clone())
        } else {
            None
        }
    }

    /// Records that the current target's delivery succeeded.
    pub fn record_delivered(&mut self)
        requires
            old(self).delivered().len() < old(self).targets().len(),
        ensures
            final(self).targets() == old(self).targets(),
            final(self).payload() == old(self).payload(),
            final(self).delivered() == old(self).delivered().push(
                RecordView {
                    url: old(self).targets()[old(self).delivered().len() as int],
                    outcome: OutcomeView::Delivered,
                },
            ),
    {
        let url = self.targets[self.records.len()].clone();
        self.push_record(DeliveryRecord { url, outcome: DeliveryOutcome::Delivered });
    }

    /// Records that the current target's delivery failed, with the reason;
    /// the remaining targets still get their attempts.
    pub fn record_failed(&mut self, reason: &str)
        requires
            old(self).delivered().len() < old(self).targets().len(),
        ensures
            final(self).targets() == old(self).targets(),
            final(self).payload() == old(self).payload(),
            final(self).delivered() == old(self).delivered().push(
                RecordView {
                    url: old(self).targets()[old(self).delivered().len() as int],
                    outcome: OutcomeView::Failed(reason@),
                },
            ),
    {
        let url = self.targets[self.records.len()].clone();
        self.push_record(DeliveryRecord { url, outcome: DeliveryOutcome::Failed(reason.to_owned()) });
    }

    /// Appends the record for the current target.
    fn push_record(&mut self, rec: DeliveryRecord)
        requires
            old(self).delivered().len() < old(self).targets().len(),
            rec@.url == old(self).targets()[old(self).delivered().len() as int],
        ensures
            final(self).targets() == old(self).targets(),
            final(self).payload() == old(self).payload(),
            final(self).delivered() == old(self).delivered().push(rec@),
    {
        proof {
            use_type_invariant(&*self);
        }
        let ghost rs1 = self.records@;
        let mut records: Vec<DeliveryRecord> = Vec::new();
        std::mem::swap(&mut records, &mut self.records);
        records.push(rec);
        proof {
            assert(record_views(records@) =~= record_views(rs1).push(rec@));
        }
        std::mem::swap(&mut records, &mut self.records);
    }

    /// Whether every target has an outcome.
    pub fn is_complete(&self) -> (b: bool)
        ensures
            b == (self.delivered().len() == self.targets().len()),
    {
        proof {
            use_type_invariant(&*self);
        }
        self.records.len() == self.targets.len()
    }

    /// The finished report: one record per target, in target order.
    pub fn into_report(self) -> (rep: DeliveryReport)
        requires
            self.delivered().len() == self.targets().len(),
        ensures
            rep@ == self.delivered(),
            report_covers(rep@, self.targets()),
    {
        proof {
            use_type_invariant(&self);
        }
        DeliveryReport { records: self.records }
    }
}

} // verus!
