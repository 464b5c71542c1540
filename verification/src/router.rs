//! Routing of the records of a reply: each record names a zone, a label and
//! a value; a record with a tracked label becomes one observation.

use vstd::prelude::*;
use crate::decode::{decode, decoded, Decoder};
use crate::error::{KnotError, KnotResult};
use crate::frame::{KnotCtlData, KnotCtlIdx};
use crate::metric::{registered, MetricRegistry, Series, ZoneMetric};
use crate::rules::{
    allow_list, classify, lemma_allow_list_names, lemma_lookup_member, rule_of, Rule,
};

verus! {

/// Whether a record has the three fields that every record of a reply must
/// have: a zone, which is not empty, the label of a field, and its value.
pub open spec fn complete(record: Map<KnotCtlIdx, Seq<char>>) -> bool {
    &&& record.contains_key(KnotCtlIdx::ZONE)
    &&& record.contains_key(KnotCtlIdx::TYPE)
    &&& record.contains_key(KnotCtlIdx::DATA)
    &&& record[KnotCtlIdx::ZONE].len() > 0
}

/// The observation that a complete record makes under a rule.
pub open spec fn observation(record: Map<KnotCtlIdx, Seq<char>>, rule: Rule) -> Series {
    Series {
        zone: record[KnotCtlIdx::ZONE],
        name: rule.name,
        label: record[KnotCtlIdx::TYPE],
        value: decoded(rule.decoder, record[KnotCtlIdx::DATA]),
        event: rule.decoder == Decoder::Duration,
    }
}

/// What one record makes of the observations collected so far. A record
/// that is not complete breaks the protocol. A complete record with a label
/// that is not tracked changes nothing. Any other record is registered.
pub open spec fn routed(series: Seq<Series>, record: Map<KnotCtlIdx, Seq<char>>) -> Result<
    Seq<Series>,
    KnotError,
> {
    if !complete(record) {
        Err(KnotError::Protocol)
    } else {
        match rule_of(record[KnotCtlIdx::TYPE]) {
            Some(rule) => registered(series, observation(record, rule)),
            None => Ok(series),
        }
    }
}

/// What the records of a reply, taken in order, make of the observations
/// collected so far. The first record that fails decides.
pub open spec fn collected(series: Seq<Series>, records: Seq<Map<KnotCtlIdx, Seq<char>>>) -> Result<
    Seq<Series>,
    KnotError,
>
    decreases records.len(),
{
    if records.len() == 0 {
        Ok(series)
    } else {
        match routed(series, records[0]) {
            Ok(after) => collected(after, records.drop_first()),
            Err(error) => Err(error),
        }
    }
}

/// Routes one record into the registry. The registry changes only if the
/// record is registered.
pub fn route(registry: &mut MetricRegistry, record: &KnotCtlData) -> (outcome: KnotResult<()>)
    ensures
        match routed(old(registry)@, record@) {
            Ok(after) => outcome is Ok && final(registry)@ == after,
            Err(error) => outcome == Err::<(), KnotError>(error) && final(registry)@ == old(
                registry,
            )@,
        },
{
    let (zone, label, value) = match (
        record.get(KnotCtlIdx::ZONE),
        record.get(KnotCtlIdx::TYPE),
        record.get(KnotCtlIdx::DATA),
    ) {
        (Some(zone), Some(label), Some(value)) => (zone, label, value),
        _ => {
            return Err(KnotError::Protocol);
        },
    };
    if zone.as_str().is_empty() {
        return Err(KnotError::Protocol);
    }
    let rule = match classify(label.as_str()) {
        Some(rule) => rule,
        None => {
            return Ok(());
        },
    };
    let number = decode(rule.decoder, value.as_str());
    let event = match rule.decoder {
        Decoder::Duration => true,
        _ => false,
    };
    proof {
        lemma_lookup_member(allow_list(), label@);
        lemma_allow_list_names();
    }
    match ZoneMetric::new(zone.as_str(), rule.name, label.as_str(), number, event) {
        Some(metric) => registry.register(metric),
        None => Err(KnotError::Protocol),
    }
}

/// A record with a label that is not tracked leaves no trace: the reply
/// without that record collects the same observations, and fails where the
/// whole reply fails.
pub proof fn lemma_untracked_record_is_skipped(
    series: Seq<Series>,
    records: Seq<Map<KnotCtlIdx, Seq<char>>>,
    i: int,
)
    requires
        0 <= i < records.len(),
        complete(records[i]),
        rule_of(records[i][KnotCtlIdx::TYPE]) is None,
    ensures
        collected(series, records) == collected(series, records.remove(i)),
    decreases records.len(),
{
    if i > 0 {
        let without = records.remove(i);
        assert(without.drop_first() =~= records.drop_first().remove(i - 1));
        if let Ok(after) = routed(series, records[0]) {
            lemma_untracked_record_is_skipped(after, records.drop_first(), i - 1);
        }
    }
}

/// Whether an observation has the name and the label of a rule of the
/// allow-list.
pub open spec fn follows_rule(series: Series) -> bool {
    exists|k: int|
        0 <= k < allow_list().len() && (#[trigger] allow_list()[k]).name == series.name
            && allow_list()[k].label == series.label
}

/// Whether every observation follows a rule of the allow-list.
pub open spec fn all_follow_rules(series: Seq<Series>) -> bool {
    forall|i: int| 0 <= i < series.len() ==> follows_rule(#[trigger] series[i])
}

proof fn lemma_routed_follows_rules(series: Seq<Series>, record: Map<KnotCtlIdx, Seq<char>>)
    requires
        all_follow_rules(series),
    ensures
        routed(series, record) matches Ok(after) ==> all_follow_rules(after),
        routed(series, record) != Err::<Seq<Series>, KnotError>(KnotError::Conflict),
{
    if complete(record) {
        if let Some(rule) = rule_of(record[KnotCtlIdx::TYPE]) {
            let made = observation(record, rule);
            lemma_lookup_member(allow_list(), record[KnotCtlIdx::TYPE]);
            lemma_allow_list_names();
            assert forall|i: int| 0 <= i < series.len() && (#[trigger] series[i]).name
                == made.name implies series[i].label == made.label by {
                assert(follows_rule(series[i]));
            }
            if let Ok(after) = routed(series, record) {
                assert forall|i: int| 0 <= i < after.len() implies follows_rule(
                    #[trigger] after[i],
                ) by {}
            }
        }
    }
}

/// A reply never fails on a conflict of labels: the allow-list gives every
/// metric one label. And what a reply yields follows the allow-list.
pub proof fn lemma_reply_never_conflicts(
    series: Seq<Series>,
    records: Seq<Map<KnotCtlIdx, Seq<char>>>,
)
    requires
        all_follow_rules(series),
    ensures
        collected(series, records) matches Ok(after) ==> all_follow_rules(after),
        collected(series, records) != Err::<Seq<Series>, KnotError>(KnotError::Conflict),
    decreases records.len(),
{
    if records.len() > 0 {
        lemma_routed_follows_rules(series, records[0]);
        if let Ok(after) = routed(series, records[0]) {
            lemma_reply_never_conflicts(after, records.drop_first());
        }
    }
}

} // verus!
