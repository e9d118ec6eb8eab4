//! The flow of features from a source to a sink.
//!
//! The reader, the projection and the writer stand outside: a [`Pipe`] is told
//! what came of each and says what is next.

use crate::convert::error::{ConvertError, ConvertErrorView};
use crate::convert::plan::ConvertStats;
use crate::feature::{Feature, FeatureView};
use vstd::prelude::*;

verus! {

/// What to do with a feature that was read.
#[derive(Debug)]
pub enum Step {
    /// Its geometry is to be brought into another reference system, and the
    /// outcome is to be written.
    Reproject(Feature),
    /// It is to be written as it is.
    Write(Feature),
}

/// A [`Step`] with its feature as a view.
pub enum StepView {
    Reproject(FeatureView),
    Write(FeatureView),
}

impl View for Step {
    type V = StepView;

    open spec fn view(&self) -> StepView {
        match self {
            Step::Reproject(f) => StepView::Reproject(f@),
            Step::Write(f) => StepView::Write(f@),
        }
    }
}

/// What to do with a feature: only one that has a geometry can be reprojected.
pub open spec fn step_of(f: FeatureView, reproject: bool) -> StepView {
    if reproject && f.geometry is Some {
        StepView::Reproject(f)
    } else {
        StepView::Write(f)
    }
}

/// The seconds between two reports on progress.
pub const REPORT_SECS: u64 = 2;

/// A flow of features.
#[derive(Debug, Clone, Copy, PartialEq, Eq, Structural)]
pub struct Pipe {
    /// Whether geometries are brought into another reference system.
    pub reproject: bool,
    /// The number of features that the source announces, or zero.
    pub expected: i64,
    /// The features that were read.
    pub read: u64,
    /// The features that were written.
    pub written: u64,
    /// Whether a row that could not be read has ended the flow.
    pub stopped: bool,
}

/// A flow with one more feature read.
pub open spec fn with_one_read(p: Pipe) -> Pipe {
    Pipe { read: (p.read + 1) as u64, ..p }
}

/// A flow in which everything that was read is written.
pub open spec fn with_all_written(p: Pipe) -> Pipe {
    Pipe { written: p.read, ..p }
}

impl Pipe {
    /// Whether everything that was read is written and nothing has ended the
    /// flow, so that it can take a row or be counted.
    pub open spec fn at_rest(&self) -> bool {
        !self.stopped && self.written == self.read
    }

    /// Whether a feature was read that is not written yet.
    pub open spec fn holds_one(&self) -> bool {
        !self.stopped && self.read == self.written + 1
    }

    /// A flow that has not begun.
    pub fn new(reproject: bool, count: Option<i64>) -> (r: Pipe)
        ensures
            r.at_rest(),
            r == (Pipe {
                reproject,
                expected: match count {
                    Some(n) => n,
                    None => 0,
                },
                read: 0,
                written: 0,
                stopped: false,
            }),
    {
        let expected: i64 = match count {
            Some(n) => n,
            None => 0,
        };
        Pipe { reproject, expected, read: 0, written: 0, stopped: false }
    }

    /// Takes what the reader gave next. A row that cannot be read ends the flow
    /// with an error that names it: nothing can be taken, written or counted
    /// behind it.
    pub fn take(&mut self, row: Result<Feature, ConvertError>) -> (r: Result<Step, ConvertError>)
        requires
            old(self).at_rest(),
            old(self).read < u64::MAX,
        ensures
            match (row, r) {
                (Ok(f), Ok(s)) => s@ == step_of(f@, old(self).reproject) && *final(self)
                    == with_one_read(*old(self)) && final(self).holds_one(),
                (Err(e), Err(x)) => x@ == (ConvertErrorView::DecodeRow {
                    row: old(self).read,
                    source: Box::new(e@),
                }) && *final(self) == (Pipe { stopped: true, ..*old(self) }),
                _ => false,
            },
    {
        match row {
            Err(e) => {
                self.stopped = true;
                Err(ConvertError::decode_row(self.read, e))
            },
            Ok(f) => {
                self.read = self.read + 1;
                if self.reproject && f.geometry.is_some() {
                    Ok(Step::Reproject(f))
                } else {
                    Ok(Step::Write(f))
                }
            },
        }
    }

    /// Notes that the feature was written, some seconds after the last report.
    /// Where a report is due it gives the features written and those expected.
    pub fn wrote(&mut self, secs: u64) -> (r: Option<(u64, i64)>)
        requires
            old(self).holds_one(),
        ensures
            final(self).at_rest(),
            *final(self) == with_all_written(*old(self)),
            r == (if secs >= REPORT_SECS {
                Some((old(self).read, old(self).expected))
            } else {
                None
            }),
    {
        self.written = self.read;
        if secs >= REPORT_SECS {
            Some((self.written, self.expected))
        } else {
            None
        }
    }

    /// The counts of the flow.
    pub fn finish(&self, output_bytes: u64) -> (r: ConvertStats)
        requires
            self.at_rest(),
        ensures
            r == (ConvertStats { features: self.read, output_bytes }),
    {
        ConvertStats { features: self.written, output_bytes }
    }
}

/// A flow in which so many more features were each read and written.
pub open spec fn after(p: Pipe, features: nat) -> Pipe
    decreases features,
{
    if features == 0 {
        p
    } else {
        with_all_written(with_one_read(after(p, (features - 1) as nat)))
    }
}

/// A flow counts every feature once: `n` features that were read and written
/// leave it with `n` of each.
pub proof fn law_every_feature_is_counted(reproject: bool, expected: i64, n: nat)
    requires
        n <= u64::MAX,
    ensures
        after(Pipe { reproject, expected, read: 0, written: 0, stopped: false }, n) == (Pipe {
            reproject,
            expected,
            read: n as u64,
            written: n as u64,
            stopped: false,
        }),
    decreases n,
{
    if n > 0 {
        law_every_feature_is_counted(reproject, expected, (n - 1) as nat);
    }
}

} // verus!
