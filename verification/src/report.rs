use vstd::prelude::*;

verus! {

/// The tag of a positioning report, one case per daemon message class.
#[derive(Clone, Copy, PartialEq, Eq, Structural, Debug)]
pub enum ReportKind {
    Device,
    Tpv,
    Sky,
    Pps,
    Gst,
}

/// One typed message received from the positioning daemon.
///
/// The daemon-defined body is opaque to this crate: the core only classifies
/// a report by its tag and keeps the most recent instance, so the body is
/// carried as uninterpreted bytes.
#[derive(Clone, PartialEq, Debug)]
pub enum Report {
    Device(Vec<u8>),
    Tpv(Vec<u8>),
    Sky(Vec<u8>),
    Pps(Vec<u8>),
    Gst(Vec<u8>),
}

impl Report {
    /// The tag of this report.
    pub open spec fn kind_spec(self) -> ReportKind {
        match self {
            Report::Device(_) => ReportKind::Device,
            Report::Tpv(_) => ReportKind::Tpv,
            Report::Sky(_) => ReportKind::Sky,
            Report::Pps(_) => ReportKind::Pps,
            Report::Gst(_) => ReportKind::Gst,
        }
    }

    /// The daemon-defined body of this report.
    pub open spec fn payload_spec(self) -> Seq<u8> {
        match self {
            Report::Device(p) => p@,
            Report::Tpv(p) => p@,
            Report::Sky(p) => p@,
            Report::Pps(p) => p@,
            Report::Gst(p) => p@,
        }
    }

    pub fn kind(&self) -> (k: ReportKind)
        ensures
            k == self.kind_spec(),
    {
        match self {
            Report::Device(_) => ReportKind::Device,
            Report::Tpv(_) => ReportKind::Tpv,
            Report::Sky(_) => ReportKind::Sky,
            Report::Pps(_) => ReportKind::Pps,
            Report::Gst(_) => ReportKind::Gst,
        }
    }

    pub fn payload(&self) -> (p: &Vec<u8>)
        ensures
            p@ == self.payload_spec(),
    {
        match self {
            Report::Device(p) => p,
            Report::Tpv(p) => p,
            Report::Sky(p) => p,
            Report::Pps(p) => p,
            Report::Gst(p) => p,
        }
    }

    /// A report body held in memory can store its length in eight bytes.
    pub proof fn lemma_payload_len_bound(self)
        ensures
            self.payload_spec().len() <= u64::MAX,
    {
        match self {
            Report::Device(p) => {
                assert(p.len() == p@.len());
            },
            Report::Tpv(p) => {
                assert(p.len() == p@.len());
            },
            Report::Sky(p) => {
                assert(p.len() == p@.len());
            },
            Report::Pps(p) => {
                assert(p.len() == p@.len());
            },
            Report::Gst(p) => {
                assert(p.len() == p@.len());
            },
        }
    }

    /// Builds the report of the given tag around the given body.
    pub fn from_kind(kind: ReportKind, payload: Vec<u8>) -> (r: Report)
        ensures
            r.kind_spec() == kind,
            r.payload_spec() == payload@,
    {
        match kind {
            ReportKind::Device => Report::Device(payload),
            ReportKind::Tpv => Report::Tpv(payload),
            ReportKind::Sky => Report::Sky(payload),
            ReportKind::Pps => Report::Pps(payload),
            ReportKind::Gst => Report::Gst(payload),
        }
    }
}

} // verus!
