//! Observations and the registry that collects them during one scrape.

use vstd::prelude::*;
use crate::error::{KnotError, KnotResult};
use crate::text::{ascii_bytes, bytes_match, str_eq};

verus! {

/// An observation, as a value of the model.
pub struct Series {
    pub zone: Seq<char>,
    pub name: Seq<char>,
    pub label: Seq<char>,
    pub value: i64,
    pub event: bool,
}

pub open spec fn is_token_char(c: char) -> bool {
    'a' <= c <= 'z' || '0' <= c <= '9' || c == '_'
}

/// A metric name: lower-case letters, digits and underscores, one character
/// at least, and no digit in front.
pub open spec fn is_metric_token(name: Seq<char>) -> bool {
    &&& name.len() > 0
    &&& !('0' <= name[0] <= '9')
    &&& forall|i: int| 0 <= i < name.len() ==> is_token_char(#[trigger] name[i])
}

impl Series {
    /// A zone, a metric name that is a token, and a label to document it.
    pub open spec fn valid(self) -> bool {
        &&& self.zone.len() > 0
        &&& is_metric_token(self.name)
        &&& self.label.len() > 0
    }
}

/// Whether a text is a metric name.
pub fn metric_token(name: &str) -> (token: bool)
    ensures
        token == is_metric_token(name@),
{
    let bytes = match ascii_bytes(name) {
        Some(bytes) => bytes,
        None => {
            proof {
                if is_metric_token(name@) {
                    assert forall|i: int| 0 <= i < name@.len() implies '\0' <= #[trigger] name@[i]
                        <= '\u{7f}' by {}
                }
            }
            return false;
        },
    };
    if bytes.len() == 0 || (48 <= bytes[0] && bytes[0] <= 57) {
        return false;
    }
    let mut i: usize = 0;
    while i < bytes.len()
        invariant
            bytes_match(bytes@, name@),
            i <= bytes@.len(),
            forall|k: int| 0 <= k < i ==> is_token_char(#[trigger] name@[k]),
        decreases bytes@.len() - i,
    {
        let b: u8 = bytes[i];
        if !((97 <= b && b <= 122) || (48 <= b && b <= 57) || b == 95) {
            return false;
        }
        i += 1;
    }
    true
}

/// One decoded observation: the value of one metric for one zone.
#[derive(Debug)]
pub struct ZoneMetric {
    zone: String,
    name: String,
    label: String,
    value: i64,
    event: bool,
}

impl View for ZoneMetric {
    type V = Series;

    closed spec fn view(&self) -> Series {
        Series {
            zone: self.zone@,
            name: self.name@,
            label: self.label@,
            value: self.value,
            event: self.event,
        }
    }
}

impl ZoneMetric {
    #[verifier::type_invariant]
    spec fn well_formed(self) -> bool {
        self@.valid()
    }

    /// An observation of `value` for the metric `name` in `zone`. `label` is
    /// the text of the field as the daemon printed it; `event` says whether
    /// the field gives the time until an event. Nothing is made of an empty
    /// zone, an empty label, or a name that is no metric name.
    pub fn new(zone: &str, name: &str, label: &str, value: i64, event: bool) -> (metric: Option<
        ZoneMetric,
    >)
        ensures
            metric is Some <==> zone@.len() > 0 && is_metric_token(name@) && label@.len() > 0,
            metric matches Some(m) ==> m@ == (Series {
                zone: zone@,
                name: name@,
                label: label@,
                value,
                event,
            }),
    {
        if zone.is_empty() || label.is_empty() || !metric_token(name) {
            return None;
        }
        Some(
            ZoneMetric {
                zone: zone.to_owned(),
                name: name.to_owned(),
                label: label.to_owned(),
                value,
                event,
            },
        )
    }

    /// The zone that the observation belongs to.
    pub fn zone(&self) -> (zone: &str)
        ensures
            zone@ == self@.zone,
            self@.valid(),
    {
        proof {
            use_type_invariant(self);
        }
        self.zone.as_str()
    }

    /// The name of the metric.
    pub fn name(&self) -> (name: &str)
        ensures
            name@ == self@.name,
            self@.valid(),
    {
        proof {
            use_type_invariant(self);
        }
        self.name.as_str()
    }

    /// The label of the field, which documents the metric.
    pub fn label(&self) -> (label: &str)
        ensures
            label@ == self@.label,
            self@.valid(),
    {
        proof {
            use_type_invariant(self);
        }
        self.label.as_str()
    }

    /// The observed value; -1 where the field could not be decoded.
    pub fn value(&self) -> (value: i64)
        ensures
            value == self@.value,
    {
        self.value
    }

    /// Whether the field gives the time until an event.
    pub fn event(&self) -> (event: bool)
        ensures
            event == self@.event,
    {
        self.event
    }
}

/// Whether `series` holds an observation of the metric `name` for `zone`.
pub open spec fn has_series(series: Seq<Series>, name: Seq<char>, zone: Seq<char>) -> bool {
    exists|i: int| 0 <= i < series.len() && (#[trigger] series[i]).name == name && series[i].zone == zone
}

/// Whether `series` holds an observation of the metric `name` that is
/// documented by another label than `label`.
pub open spec fn has_other_label(series: Seq<Series>, name: Seq<char>, label: Seq<char>) -> bool {
    exists|i: int| 0 <= i < series.len() && (#[trigger] series[i]).name == name && series[i].label != label
}

/// What a registry must hold at any time: valid observations, one at most
/// for each metric and zone, and one label for each metric.
pub open spec fn registry_wf(series: Seq<Series>) -> bool {
    &&& forall|i: int| 0 <= i < series.len() ==> (#[trigger] series[i]).valid()
    &&& forall|i: int, j: int|
        0 <= i < j < series.len() ==> !((#[trigger] series[i]).name == (#[trigger] series[j]).name
            && series[i].zone == series[j].zone)
    &&& forall|i: int, j: int|
        0 <= i < series.len() && 0 <= j < series.len() && (#[trigger] series[i]).name == (
        #[trigger] series[j]).name ==> series[i].label == series[j].label
}

/// What registering `metric` makes of a registry that holds `series`.
pub open spec fn registered(series: Seq<Series>, metric: Series) -> Result<Seq<Series>, KnotError> {
    if has_series(series, metric.name, metric.zone) {
        Err(KnotError::Duplicate)
    } else if has_other_label(series, metric.name, metric.label) {
        Err(KnotError::Conflict)
    } else {
        Ok(series.push(metric))
    }
}

/// Registering into a well-formed registry leaves it well-formed.
pub proof fn lemma_registered_wf(series: Seq<Series>, metric: Series)
    requires
        registry_wf(series),
        metric.valid(),
    ensures
        registered(series, metric) matches Ok(after) ==> registry_wf(after),
{
    if let Ok(after) = registered(series, metric) {
        assert forall|i: int, j: int| 0 <= i < j < after.len() implies !((#[trigger] after[i]).name
            == (#[trigger] after[j]).name && after[i].zone == after[j].zone) by {}
        assert forall|i: int, j: int|
            0 <= i < after.len() && 0 <= j < after.len() && (#[trigger] after[i]).name == (
            #[trigger] after[j]).name implies after[i].label == after[j].label by {}
    }
}

/// The observations of one scrape, in the order in which they were
/// registered. It starts empty, grows as records are decoded, and is read
/// once when the scrape is rendered.
#[derive(Debug)]
pub struct MetricRegistry {
    series: Vec<ZoneMetric>,
}

impl View for MetricRegistry {
    type V = Seq<Series>;

    closed spec fn view(&self) -> Seq<Series> {
        Seq::new(self.series@.len(), |i: int| self.series@[i]@)
    }
}

impl MetricRegistry {
    #[verifier::type_invariant]
    spec fn well_formed(self) -> bool {
        registry_wf(self@)
    }

    /// A registry that holds nothing.
    pub fn new() -> (registry: Self)
        ensures
            registry@ == Seq::<Series>::empty(),
    {
        MetricRegistry { series: Vec::new() }
    }

    /// The number of observations.
    pub fn len(&self) -> (n: usize)
        ensures
            n == self@.len(),
            registry_wf(self@),
    {
        proof {
            use_type_invariant(self);
        }
        self.series.len()
    }

    /// The observation that was registered as number `i`.
    pub fn get(&self, i: usize) -> (metric: Option<&ZoneMetric>)
        ensures
            metric is Some <==> i < self@.len(),
            metric matches Some(m) ==> m@ == self@[i as int],
    {
        if i < self.series.len() {
            Some(&self.series[i])
        } else {
            None
        }
    }

    /// Adds an observation. One that the registry holds already, for the
    /// same metric and zone, is refused as a duplicate; one whose label
    /// differs from the label of its metric, as a conflict. A registry that
    /// refuses stays as it was.
    pub fn register(&mut self, metric: ZoneMetric) -> (outcome: KnotResult<()>)
        ensures
            match registered(old(self)@, metric@) {
                Ok(after) => outcome is Ok && final(self)@ == after,
                Err(error) => outcome == Err::<(), KnotError>(error) && final(self)@ == old(self)@,
            },
    {
        proof {
            use_type_invariant(&*self);
            use_type_invariant(&metric);
        }
        let mut other_label = false;
        let mut i: usize = 0;
        while i < self.series.len()
            invariant
                i <= self.series@.len(),
                self@ == old(self)@,
                self.series@.len() == self@.len(),
                forall|k: int| 0 <= k < self@.len() ==> self@[k] == (#[trigger] self.series@[k])@,
                forall|k: int|
                    0 <= k < i ==> !((#[trigger] self@[k]).name == metric@.name && self@[k].zone
                        == metric@.zone),
                other_label <==> exists|k: int|
                    0 <= k < i && (#[trigger] self@[k]).name == metric@.name && self@[k].label
                        != metric@.label,
            decreases self.series@.len() - i,
        {
            let held = &self.series[i];
            if str_eq(held.name(), metric.name()) {
                if str_eq(held.zone(), metric.zone()) {
                    return Err(KnotError::Duplicate);
                }
                if !str_eq(held.label(), metric.label()) {
                    other_label = true;
                }
            }
            i += 1;
        }
        if other_label {
            return Err(KnotError::Conflict);
        }
        let mut series: Vec<ZoneMetric> = Vec::new();
        proof {
            lemma_registered_wf(self@, metric@);
        }
        core::mem::swap(&mut self.series, &mut series);
        series.push(metric);
        self.series = series;
        Ok(())
    }
}

} // verus!
