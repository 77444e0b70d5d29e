use vstd::prelude::*;

use crate::report::{Report, ReportKind};

verus! {

/// Mathematical content of an [`Observation`]: the finalization instant and,
/// per report tag, the body of the latest report of that tag, if any arrived.
#[verifier::ext_equal]
pub struct ObservationModel {
    pub timestamp_millis: u64,
    pub device: Option<Seq<u8>>,
    pub tpv: Option<Seq<u8>>,
    pub sky: Option<Seq<u8>>,
    pub pps: Option<Seq<u8>>,
    pub gst: Option<Seq<u8>>,
}

/// One snapshot produced by a sampling window: per report tag, the latest
/// report of that tag received during the window, or nothing.
#[derive(Clone, PartialEq, Debug)]
pub struct Observation {
    pub timestamp_millis: u64,
    pub device: Option<Report>,
    pub tpv: Option<Report>,
    pub sky: Option<Report>,
    pub pps: Option<Report>,
    pub gst: Option<Report>,
}

/// The body of the report in a slot, if the slot is filled.
pub open spec fn slot_model(slot: Option<Report>) -> Option<Seq<u8>> {
    match slot {
        Some(r) => Some(r.payload_spec()),
        None => None,
    }
}

impl View for Observation {
    type V = ObservationModel;

    open spec fn view(&self) -> ObservationModel {
        ObservationModel {
            timestamp_millis: self.timestamp_millis,
            device: slot_model(self.device),
            tpv: slot_model(self.tpv),
            sky: slot_model(self.sky),
            pps: slot_model(self.pps),
            gst: slot_model(self.gst),
        }
    }
}

impl Observation {
    /// The slot that holds reports of the given tag.
    pub open spec fn slot(self, k: ReportKind) -> Option<Report> {
        match k {
            ReportKind::Device => self.device,
            ReportKind::Tpv => self.tpv,
            ReportKind::Sky => self.sky,
            ReportKind::Pps => self.pps,
            ReportKind::Gst => self.gst,
        }
    }

    /// Each filled slot holds a report of the slot's own tag, so an
    /// observation never carries more than one report per tag.
    pub open spec fn wf(self) -> bool {
        &&& (self.device matches Some(r) ==> r.kind_spec() == ReportKind::Device)
        &&& (self.tpv matches Some(r) ==> r.kind_spec() == ReportKind::Tpv)
        &&& (self.sky matches Some(r) ==> r.kind_spec() == ReportKind::Sky)
        &&& (self.pps matches Some(r) ==> r.kind_spec() == ReportKind::Pps)
        &&& (self.gst matches Some(r) ==> r.kind_spec() == ReportKind::Gst)
    }

    /// The observation after one report is taken in: the report replaces
    /// whatever its tag's slot held; every other slot is untouched.
    pub open spec fn with_report(self, r: Report) -> Observation {
        match r.kind_spec() {
            ReportKind::Device => Observation { device: Some(r), ..self },
            ReportKind::Tpv => Observation { tpv: Some(r), ..self },
            ReportKind::Sky => Observation { sky: Some(r), ..self },
            ReportKind::Pps => Observation { pps: Some(r), ..self },
            ReportKind::Gst => Observation { gst: Some(r), ..self },
        }
    }

    /// A fresh snapshot with every slot empty, stamped with the given instant.
    pub fn new(timestamp_millis: u64) -> (o: Observation)
        ensures
            o.timestamp_millis == timestamp_millis,
            o.device is None,
            o.tpv is None,
            o.sky is None,
            o.pps is None,
            o.gst is None,
            o.wf(),
    {
        Observation {
            timestamp_millis,
            device: None,
            tpv: None,
            sky: None,
            pps: None,
            gst: None,
        }
    }

    /// Stores one received report into the slot of its tag, replacing any
    /// earlier report of the same tag and leaving all other slots unchanged.
    pub fn receive(&mut self, msg: Report)
        ensures
            *final(self) == old(self).with_report(msg),
            old(self).wf() ==> final(self).wf(),
    {
        match msg.kind() {
            ReportKind::Device => {
                self.device = Some(msg);
            },
            ReportKind::Tpv => {
                self.tpv = Some(msg);
            },
            ReportKind::Sky => {
                self.sky = Some(msg);
            },
            ReportKind::Pps => {
                self.pps = Some(msg);
            },
            ReportKind::Gst => {
                self.gst = Some(msg);
            },
        }
    }
}

/// The observation that results from taking the reports in, in order, starting
/// from `init`.
pub open spec fn accumulated(init: Observation, reports: Seq<Report>) -> Observation
    decreases reports.len(),
{
    if reports.len() == 0 {
        init
    } else {
        accumulated(init, reports.drop_last()).with_report(reports.last())
    }
}

/// Whether some report in the sequence carries the given tag.
pub open spec fn has_kind(reports: Seq<Report>, k: ReportKind) -> bool {
    exists|i: int| 0 <= i < reports.len() && reports[i].kind_spec() == k
}

/// The last report of the given tag in the sequence.
pub open spec fn last_of_kind(reports: Seq<Report>, k: ReportKind) -> Report
    recommends
        has_kind(reports, k),
    decreases reports.len(),
{
    if reports.len() == 0 {
        arbitrary()
    } else if reports.last().kind_spec() == k {
        reports.last()
    } else {
        last_of_kind(reports.drop_last(), k)
    }
}

/// Taking in one report changes the slot of its tag and no other, and keeps
/// the timestamp.
pub proof fn lemma_with_report_slots(o: Observation, r: Report, k: ReportKind)
    ensures
        o.with_report(r).slot(r.kind_spec()) == Some(r),
        k != r.kind_spec() ==> o.with_report(r).slot(k) == o.slot(k),
        o.with_report(r).timestamp_millis == o.timestamp_millis,
{
}

/// Accumulation correctness: however many reports a window delivers, each
/// slot of the accumulated observation holds exactly the last report of its
/// tag, and a tag that no report carried leaves its slot as it started.
pub proof fn lemma_accumulation_correctness(init: Observation, reports: Seq<Report>, k: ReportKind)
    ensures
        has_kind(reports, k) ==> accumulated(init, reports).slot(k) == Some(last_of_kind(reports, k)),
        !has_kind(reports, k) ==> accumulated(init, reports).slot(k) == init.slot(k),
        accumulated(init, reports).timestamp_millis == init.timestamp_millis,
    decreases reports.len(),
{
    if reports.len() == 0 {
    } else {
        let head = reports.drop_last();
        let r = reports.last();
        lemma_accumulation_correctness(init, head, k);
        lemma_with_report_slots(accumulated(init, head), r, k);
        if r.kind_spec() == k {
            assert(has_kind(reports, k)) by {
                assert(reports[reports.len() - 1].kind_spec() == k);
            }
        } else {
            if has_kind(head, k) {
                let i = choose|i: int| 0 <= i < head.len() && head[i].kind_spec() == k;
                assert(reports[i].kind_spec() == k);
            }
            if has_kind(reports, k) {
                let i = choose|i: int| 0 <= i < reports.len() && reports[i].kind_spec() == k;
                assert(head[i].kind_spec() == k);
            }
        }
    }
}

/// The outcome of one attempt to receive a report from the daemon, as the
/// accumulator sees it: either a typed report arrived, or the receive failed.
#[derive(Clone, PartialEq, Debug)]
pub enum ReceiveEvent {
    Message(Report),
    Failure,
}

/// What the accumulation loop is to do after one receive attempt.
#[derive(Clone, Copy, PartialEq, Eq, Structural, Debug)]
pub enum StepAction {
    KeepWaiting,
    Abort,
}

/// One decision step of the accumulation loop: a received report is merged
/// into the snapshot; a failed receive leaves the snapshot untouched and,
/// under the skip-and-continue policy, keeps the window open, otherwise it
/// aborts the run. The window clock is never reset by a failure.
pub fn observe_step(obs: &mut Observation, event: ReceiveEvent, continue_on_failure: bool) -> (a:
    StepAction)
    ensures
        match event {
            ReceiveEvent::Message(r) => *final(obs) == old(obs).with_report(r) && a
                == StepAction::KeepWaiting,
            ReceiveEvent::Failure => *final(obs) == *old(obs) && a == (if continue_on_failure {
                StepAction::KeepWaiting
            } else {
                StepAction::Abort
            }),
        },
        old(obs).wf() ==> final(obs).wf(),
{
    match event {
        ReceiveEvent::Message(r) => {
            obs.receive(r);
            StepAction::KeepWaiting
        },
        ReceiveEvent::Failure => {
            if continue_on_failure {
                StepAction::KeepWaiting
            } else {
                StepAction::Abort
            }
        },
    }
}

} // verus!
