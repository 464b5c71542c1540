//! Rendering of a registry in the text exposition format of Prometheus.
//!
//! The format is written by the `prometheus` crate. What this module proves
//! is that the crate is handed every observation of the registry, under the
//! name `knot_dns_<metric>` and with the zone as its label, and nothing else.

use vstd::prelude::*;
use crate::error::{KnotError, KnotResult};
use crate::metric::{registry_wf, MetricRegistry, Series};

verus! {

#[verifier::external_type_specification]
#[verifier::external_body]
pub struct ExRegistry(prometheus::Registry);

#[verifier::external_type_specification]
#[verifier::external_body]
pub struct ExError(prometheus::Error);

/// The gauges that a `prometheus::Registry` holds. A gauge is found by its
/// full name and the value of its label; it has a help text, the name of its
/// label, and a value.
pub uninterp spec fn registry_series(registry: prometheus::Registry) -> Map<
    (Seq<char>, Seq<char>),
    (Seq<char>, Seq<char>, i64),
>;

/// The text that `prometheus::TextEncoder::encode_to_string` writes for what
/// `prometheus::Registry::gather` collects from a registry that holds the
/// given gauges.
pub uninterp spec fn exposition_text(
    series: Map<(Seq<char>, Seq<char>), (Seq<char>, Seq<char>, i64)>,
) -> Seq<char>;

/// Whether `prometheus::Registry::register` accepts a gauge made by
/// `prometheus::IntGauge::with_opts`, given the gauges that the registry
/// holds. The new gauge is given as the held ones are: by its full name and
/// the value of its label, with its help text, the name of its label and its
/// value. The crate decides by the validity of the names and by hashes of
/// these texts, so the answer depends on them alone.
pub uninterp spec fn gauge_accepted(
    held: Map<(Seq<char>, Seq<char>), (Seq<char>, Seq<char>, i64)>,
    key: (Seq<char>, Seq<char>),
    sample: (Seq<char>, Seq<char>, i64),
) -> bool;

/// What a registry without gauges holds.
pub open spec fn no_gauges() -> Map<(Seq<char>, Seq<char>), (Seq<char>, Seq<char>, i64)> {
    Map::empty()
}

/// The full name of a metric, as `prometheus::Opts::fq_name` builds it: the
/// parts that are not empty, joined by underscores; empty if the name is.
pub open spec fn full_name(namespace: Seq<char>, subsystem: Seq<char>, name: Seq<char>) -> Seq<
    char,
> {
    if name.len() == 0 {
        Seq::empty()
    } else if namespace.len() > 0 && subsystem.len() > 0 {
        namespace + seq!['_'] + subsystem + seq!['_'] + name
    } else if namespace.len() > 0 {
        namespace + seq!['_'] + name
    } else if subsystem.len() > 0 {
        subsystem + seq!['_'] + name
    } else {
        name
    }
}

/// `prometheus::Registry::new` makes a registry that holds no gauge.
pub assume_specification[ prometheus::Registry::new ]() -> (registry: prometheus::Registry)
    ensures
        registry_series(registry) == no_gauges(),
;

/// Calls `prometheus::Registry::register` with an integer gauge made by
/// `prometheus::IntGauge::with_opts` and set to `value`.
///
/// The contract claims: whether the call succeeds depends on the gauges
/// held and on the new gauge alone, which `gauge_accepted` names; if it
/// succeeds, the registry held no gauge of that full name and label value
/// before and holds the new gauge besides the old ones after; if it fails,
/// the registry holds what it held. The gauges of one full name must agree
/// in help text and label name, which the registry relies on when it merges
/// them into one family.
#[verifier::external_body]
fn register_gauge(
    registry: &mut prometheus::Registry,
    namespace: &str,
    subsystem: &str,
    name: &str,
    help: &str,
    label: &str,
    label_value: &str,
    value: i64,
) -> (outcome: Result<(), prometheus::Error>)
    requires
        forall|key: (Seq<char>, Seq<char>)|
            #![trigger registry_series(*old(registry))[key]]
            registry_series(*old(registry)).contains_key(key) && key.0 == full_name(
                namespace@,
                subsystem@,
                name@,
            ) ==> registry_series(*old(registry))[key].0 == help@ && registry_series(
                *old(registry),
            )[key].1 == label@,
    ensures
        outcome is Ok <==> gauge_accepted(
            registry_series(*old(registry)),
            (full_name(namespace@, subsystem@, name@), label_value@),
            (help@, label@, value),
        ),
        outcome is Ok ==> !registry_series(*old(registry)).contains_key(
            (full_name(namespace@, subsystem@, name@), label_value@),
        ) && registry_series(*final(registry)) == registry_series(*old(registry)).insert(
            (full_name(namespace@, subsystem@, name@), label_value@),
            (help@, label@, value),
        ),
        outcome is Err ==> registry_series(*final(registry)) == registry_series(*old(registry)),
{
    let opts = prometheus::Opts::new(name, help).namespace(namespace).subsystem(
        subsystem,
    ).const_label(label, label_value);
    let gauge = prometheus::IntGauge::with_opts(opts)?;
    gauge.set(value);
    registry.register(Box::new(gauge))
}

/// Calls `prometheus::TextEncoder::encode_to_string` on what
/// `prometheus::Registry::gather` collects from the registry.
///
/// The contract claims: the call succeeds, since the encoder refuses only a
/// family without a name or without metrics and a registry of gauges
/// gathers none; the text depends on the gauges of the registry alone; and
/// for a registry without gauges the text is empty.
#[verifier::external_body]
fn encode_registry(registry: &prometheus::Registry) -> (outcome: Result<String, prometheus::Error>)
    ensures
        outcome is Ok,
        outcome matches Ok(text) ==> text@ == exposition_text(registry_series(*registry)),
        registry_series(*registry) == no_gauges() ==> outcome is Ok && outcome.unwrap()@.len() == 0,
{
    prometheus::TextEncoder::new().encode_to_string(&registry.gather())
}

/// The namespace of every exported metric.
pub open spec fn namespace() -> Seq<char> {
    "knot"@
}

/// The subsystem of every exported metric.
pub open spec fn subsystem() -> Seq<char> {
    "dns"@
}

/// The label that carries the zone of a series.
pub open spec fn zone_label() -> Seq<char> {
    "zone"@
}

/// How an observation is found among the exported gauges: by the full name
/// of its metric and by its zone.
pub open spec fn exported_key(series: Series) -> (Seq<char>, Seq<char>) {
    (full_name(namespace(), subsystem(), series.name), series.zone)
}

/// What is exported of an observation: its label as the help text, the name
/// of the zone label, and its value.
pub open spec fn exported_sample(series: Series) -> (Seq<char>, Seq<char>, i64) {
    (series.label, zone_label(), series.value)
}

/// The gauges that a registry is exported as.
pub open spec fn exported(series: Seq<Series>) -> Map<
    (Seq<char>, Seq<char>),
    (Seq<char>, Seq<char>, i64),
>
    decreases series.len(),
{
    if series.len() == 0 {
        Map::empty()
    } else {
        exported(series.drop_last()).insert(
            exported_key(series.last()),
            exported_sample(series.last()),
        )
    }
}

/// The rendered snapshot of a registry.
pub open spec fn snapshot_text(series: Seq<Series>) -> Seq<char> {
    exposition_text(exported(series))
}

/// Whether the metrics library accepts every observation, each as a gauge
/// besides those that were registered before it.
pub open spec fn all_accepted(series: Seq<Series>) -> bool
    decreases series.len(),
{
    series.len() == 0 || (all_accepted(series.drop_last()) && gauge_accepted(
        exported(series.drop_last()),
        exported_key(series.last()),
        exported_sample(series.last()),
    ))
}

/// What rendering makes of the observations of a registry: their text if
/// the metrics library accepts them all, and `Export` if it refuses one.
pub open spec fn rendering(series: Seq<Series>) -> Result<Seq<char>, KnotError> {
    if all_accepted(series) {
        Ok(snapshot_text(series))
    } else {
        Err(KnotError::Export)
    }
}

/// Observations that are all accepted are accepted up to any point.
proof fn lemma_accepted_prefix(series: Seq<Series>, k: int)
    requires
        all_accepted(series),
        0 <= k <= series.len(),
    ensures
        all_accepted(series.take(k)),
    decreases series.len(),
{
    if k < series.len() {
        lemma_accepted_prefix(series.drop_last(), k);
        assert(series.drop_last().take(k) =~= series.take(k));
    } else {
        assert(series.take(k) =~= series);
    }
}

/// Every exported gauge comes from an observation.
proof fn lemma_exported_origin(series: Seq<Series>, key: (Seq<char>, Seq<char>))
    requires
        exported(series).contains_key(key),
    ensures
        exists|j: int|
            0 <= j < series.len() && key == exported_key(#[trigger] series[j]) && exported(
                series,
            )[key] == exported_sample(series[j]),
    decreases series.len(),
{
    if series.len() > 0 {
        let init = series.drop_last();
        if key == exported_key(series.last()) {
            assert(series[series.len() - 1] == series.last());
        } else {
            lemma_exported_origin(init, key);
            let j = choose|j: int|
                0 <= j < init.len() && key == exported_key(#[trigger] init[j]) && exported(
                    init,
                )[key] == exported_sample(init[j]);
            assert(series[j] == init[j]);
        }
    }
}

/// Metrics with the same full name have the same name.
proof fn lemma_full_name_injective(a: Seq<char>, b: Seq<char>)
    requires
        a.len() > 0,
        b.len() > 0,
        full_name(namespace(), subsystem(), a) == full_name(namespace(), subsystem(), b),
    ensures
        a == b,
{
    reveal_strlit("knot");
    reveal_strlit("dns");
    let prefix = namespace() + seq!['_'] + subsystem() + seq!['_'];
    assert((prefix + a).len() == (prefix + b).len());
    assert forall|i: int| 0 <= i < a.len() implies a[i] == b[i] by {
        assert((prefix + a)[prefix.len() + i] == a[i]);
        assert((prefix + b)[prefix.len() + i] == b[i]);
    }
}

/// What is returned for a text that the metrics library wrote, or for its
/// refusal to write one.
pub fn rendered(outcome: Result<String, prometheus::Error>) -> (snapshot: KnotResult<String>)
    ensures
        match outcome {
            Ok(text) => snapshot == Ok::<String, KnotError>(text),
            Err(_) => snapshot == Err::<String, KnotError>(KnotError::Export),
        },
{
    match outcome {
        Ok(text) => Ok(text),
        Err(_) => Err(KnotError::Export),
    }
}

/// Renders the observations of a registry in the text exposition format:
/// one gauge family for each metric, named `knot_dns_<metric>` and
/// documented by the label of its field, with one line for each zone.
///
/// The text is what the metrics library writes for these gauges. Rendering
/// succeeds if and only if the library accepts every gauge; if it refuses
/// one, the error is `Export`. It does not refuse an empty registry, for
/// which the text is empty.
pub fn render(registry: &MetricRegistry) -> (snapshot: KnotResult<String>)
    ensures
        snapshot is Ok <==> all_accepted(registry@),
        snapshot matches Ok(text) ==> text@ == snapshot_text(registry@),
        snapshot matches Err(error) ==> error == KnotError::Export,
        registry@.len() == 0 ==> snapshot is Ok && snapshot.unwrap()@.len() == 0,
{
    let mut gauges = prometheus::Registry::new();
    let count = registry.len();
    let mut i: usize = 0;
    while i < count
        invariant
            i <= count,
            count == registry@.len(),
            registry_wf(registry@),
            registry_series(gauges) == exported(registry@.take(i as int)),
            all_accepted(registry@.take(i as int)),
        decreases count - i,
    {
        let metric = match registry.get(i) {
            Some(metric) => metric,
            None => {
                return Err(KnotError::Export);
            },
        };
        proof {
            let before = registry@.take(i as int);
            let series = registry@[i as int];
            assert forall|key: (Seq<char>, Seq<char>)|
                #![trigger registry_series(gauges)[key]]
                registry_series(gauges).contains_key(key) && key.0 == full_name(
                    namespace(),
                    subsystem(),
                    series.name,
                ) implies registry_series(gauges)[key].0 == series.label && registry_series(
                gauges,
            )[key].1 == zone_label() by {
                lemma_exported_origin(before, key);
                let j = choose|j: int|
                    0 <= j < before.len() && key == exported_key(#[trigger] before[j])
                        && exported(before)[key] == exported_sample(before[j]);
                lemma_full_name_injective(registry@[j].name, series.name);
            }
            let after = registry@.take(i as int + 1);
            assert(after.drop_last() =~= before);
        }
        match register_gauge(
            &mut gauges,
            "knot",
            "dns",
            metric.name(),
            metric.label(),
            "zone",
            metric.zone(),
            metric.value(),
        ) {
            Ok(()) => {},
            Err(_) => {
                proof {
                    if all_accepted(registry@) {
                        lemma_accepted_prefix(registry@, i as int + 1);
                    }
                }
                return Err(KnotError::Export);
            },
        }
        i += 1;
    }
    proof {
        assert(registry@.take(count as int) =~= registry@);
    }
    rendered(encode_registry(&gauges))
}

} // verus!
