//! The host-facing error sink.  The scanner's own diagnostics come back
//! as an explicit list; `Lox` is the sink a host can feed reports into,
//! and the host decides exit behaviour from `had_error` — there is no
//! hidden global flag and the sink never terminates the process.

use vstd::prelude::*;
use vstd::string::StringExecFns;

verus! {

/// The mathematical value of a report: its 1-based line and its text.
pub struct SpecReport {
    pub line: int,
    pub message: Seq<char>,
}

/// One report received by the sink.
#[derive(Debug, Clone)]
pub struct Report {
    pub line: usize,
    pub message: String,
}

impl View for Report {
    type V = SpecReport;

    open spec fn view(&self) -> SpecReport {
        SpecReport { line: self.line as int, message: self.message@ }
    }
}

impl DeepView for Report {
    type V = SpecReport;

    open spec fn deep_view(&self) -> SpecReport {
        self.view()
    }
}

/// The error sink: it records every report it receives, in order, and
/// remembers whether any arrived at all.
pub struct Lox {
    pub had_error: bool,
    pub reports: Vec<Report>,
}

impl Lox {
    /// A fresh sink: no error seen, no report recorded.
    pub fn new() -> (l: Lox)
        ensures
            !l.had_error,
            l.reports@.len() == 0,
    {
        Lox { had_error: false, reports: Vec::new() }
    }

    /// Receive one report: append it and raise the error flag.  The sink
    /// never inspects the message and never aborts.
    pub fn error(&mut self, line: usize, message: &str)
        ensures
            final(self).had_error,
            final(self).reports.deep_view() == old(self).reports.deep_view().push(
                SpecReport { line: line as int, message: message@ },
            ),
    {
        let report = Report { line, message: String::from_str(message) };
        self.reports.push(report);
        self.had_error = true;
        proof {
            assert(self.reports.deep_view() =~= old(self).reports.deep_view().push(
                SpecReport { line: line as int, message: message@ },
            ));
        }
    }
}

} // verus!
