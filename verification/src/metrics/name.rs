//! Names of metrics.

use vstd::prelude::*;

verus! {

/// The name under which a metric is reported.
#[derive(Debug, Clone, Copy)]
pub enum MetricName {
    Static(&'static str),
}

impl MetricName {
    pub open spec fn text(self) -> Seq<char> {
        match self {
            MetricName::Static(s) => s@,
        }
    }

    pub fn as_str(&self) -> (s: &str)
        ensures
            s@ == self.text(),
    {
        match self {
            MetricName::Static(s) => s,
        }
    }
}

/// A metric is reported under the very text it was named by.
pub proof fn lemma_name_is_kept(s: &'static str)
    ensures
        MetricName::Static(s).text() == s@,
{
}

} // verus!
