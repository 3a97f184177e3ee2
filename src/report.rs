use vstd::prelude::*;

verus! {

/// An error of the run, for the report.
#[derive(Debug, Clone)]
pub struct ReportError {
    pub table: String,
    pub message: String,
    pub severity: String,
}

/// A warning of the run, for the report.
#[derive(Debug, Clone)]
pub struct ReportWarning {
    pub table: String,
    pub message: String,
    pub severity: String,
}

/// A decision taken during the run, for the report. `timestamp` is in
/// seconds since the Unix epoch, UTC.
#[derive(Debug, Clone)]
pub struct ReportDecision {
    pub issue_id: String,
    pub decision: String,
    pub timestamp: i64,
    pub operator: String,
    pub comment: Option<String>,
}

/// The completion record of a run, handed to the rendering side. Times are
/// in seconds since the Unix epoch, UTC.
#[derive(Debug, Clone)]
pub struct MigrationReport {
    pub start_time: i64,
    pub end_time: i64,
    pub tables_processed: usize,
    pub records_processed: usize,
    pub errors: Vec<ReportError>,
    pub warnings: Vec<ReportWarning>,
    pub decisions: Vec<ReportDecision>,
}

impl MigrationReport {
    /// An empty report of a run that started at `now`.
    pub fn new(now: i64) -> (r: MigrationReport)
        ensures
            r.start_time == now,
            r.end_time == now,
            r.tables_processed == 0,
            r.records_processed == 0,
            r.errors@.len() == 0,
            r.warnings@.len() == 0,
            r.decisions@.len() == 0,
    {
        MigrationReport {
            start_time: now,
            end_time: now,
            tables_processed: 0,
            records_processed: 0,
            errors: Vec::new(),
            warnings: Vec::new(),
            decisions: Vec::new(),
        }
    }

    /// Appends an error.
    pub fn add_error(&mut self, table: &str, message: &str, severity: &str)
        ensures
            final(self).errors@.len() == old(self).errors@.len() + 1,
            final(self).errors@.drop_last() == old(self).errors@,
            final(self).errors@.last().table@ == table@,
            final(self).errors@.last().message@ == message@,
            final(self).errors@.last().severity@ == severity@,
            final(self).warnings@ == old(self).warnings@,
            final(self).decisions@ == old(self).decisions@,
    {
        self.errors.push(ReportError {
            table: String::from_str(table),
            message: String::from_str(message),
            severity: String::from_str(severity),
        });
        assert(self.errors@.drop_last() =~= old(self).errors@);
    }

    /// Appends a warning.
    pub fn add_warning(&mut self, table: &str, message: &str, severity: &str)
        ensures
            final(self).warnings@.len() == old(self).warnings@.len() + 1,
            final(self).warnings@.drop_last() == old(self).warnings@,
            final(self).warnings@.last().table@ == table@,
            final(self).warnings@.last().message@ == message@,
            final(self).warnings@.last().severity@ == severity@,
            final(self).errors@ == old(self).errors@,
            final(self).decisions@ == old(self).decisions@,
    {
        self.warnings.push(ReportWarning {
            table: String::from_str(table),
            message: String::from_str(message),
            severity: String::from_str(severity),
        });
        assert(self.warnings@.drop_last() =~= old(self).warnings@);
    }
}

} // verus!
