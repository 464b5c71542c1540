//! The allow-list: the labels of the reply that are tracked, each with the
//! name of the metric that it feeds and the decoder for its values.
//!
//! A label that is not listed is skipped, so the set of exported metrics
//! stays the same when the daemon reports more fields.

use vstd::prelude::*;
use vstd::utf8::is_ascii_chars;
use crate::decode::Decoder;
use crate::metric::is_metric_token;
use crate::name::normalized;
use crate::text::str_eq;

verus! {

/// One entry of the allow-list, as a value of the model.
pub struct Rule {
    pub label: Seq<char>,
    pub name: Seq<char>,
    pub decoder: Decoder,
}

/// One entry of the allow-list: the label as the daemon prints it, the name
/// of the metric that it feeds, and the decoder for its values.
#[derive(Clone, Copy, Debug)]
pub struct LabelRule {
    pub label: &'static str,
    pub name: &'static str,
    pub decoder: Decoder,
}

impl View for LabelRule {
    type V = Rule;

    open spec fn view(&self) -> Rule {
        Rule { label: self.label@, name: self.name@, decoder: self.decoder }
    }
}

/// The rules of the allow-list.
pub open spec fn allow_list() -> Seq<Rule> {
    seq![
        Rule { label: "serial"@, name: "serial"@, decoder: Decoder::Counter },
        Rule { label: "refresh"@, name: "refresh"@, decoder: Decoder::Duration },
        Rule { label: "journal flush"@, name: "journal_flush"@, decoder: Decoder::Duration },
        Rule { label: "DNSSEC re-sign"@, name: "dnssec_re_sign"@, decoder: Decoder::Duration },
        Rule { label: "backup/restore"@, name: "backup_restore"@, decoder: Decoder::Duration },
        Rule { label: "XFR freeze"@, name: "xfr_freeze"@, decoder: Decoder::Flag },
        Rule { label: "transaction"@, name: "transaction"@, decoder: Decoder::Flag },
    ]
}

/// The first rule of `rules` for a label.
pub open spec fn lookup(rules: Seq<Rule>, label: Seq<char>) -> Option<Rule>
    decreases rules.len(),
{
    if rules.len() == 0 {
        None
    } else if rules[0].label == label {
        Some(rules[0])
    } else {
        lookup(rules.drop_first(), label)
    }
}

/// The rule of the allow-list for a label, if the label is tracked.
pub open spec fn rule_of(label: Seq<char>) -> Option<Rule> {
    lookup(allow_list(), label)
}

/// The allow-list as a table.
pub fn label_rules() -> (rules: Vec<LabelRule>)
    ensures
        rules@.len() == allow_list().len(),
        forall|i: int| 0 <= i < rules@.len() ==> (#[trigger] rules@[i])@ == allow_list()[i],
{
    vec![
        LabelRule { label: "serial", name: "serial", decoder: Decoder::Counter },
        LabelRule { label: "refresh", name: "refresh", decoder: Decoder::Duration },
        LabelRule { label: "journal flush", name: "journal_flush", decoder: Decoder::Duration },
        LabelRule { label: "DNSSEC re-sign", name: "dnssec_re_sign", decoder: Decoder::Duration },
        LabelRule { label: "backup/restore", name: "backup_restore", decoder: Decoder::Duration },
        LabelRule { label: "XFR freeze", name: "xfr_freeze", decoder: Decoder::Flag },
        LabelRule { label: "transaction", name: "transaction", decoder: Decoder::Flag },
    ]
}

/// Looks a label up in the allow-list.
pub fn classify(label: &str) -> (rule: Option<LabelRule>)
    ensures
        rule is Some <==> rule_of(label@) is Some,
        rule matches Some(found) ==> rule_of(label@) == Some(found@),
{
    let rules = label_rules();
    let mut i: usize = 0;
    assert(allow_list().skip(0) =~= allow_list());
    while i < rules.len()
        invariant
            i <= rules@.len(),
            rules@.len() == allow_list().len(),
            forall|k: int| 0 <= k < rules@.len() ==> (#[trigger] rules@[k])@ == allow_list()[k],
            rule_of(label@) == lookup(allow_list().skip(i as int), label@),
        decreases rules@.len() - i,
    {
        let rule = rules[i];
        proof {
            let rest = allow_list().skip(i as int);
            assert(rest.drop_first() =~= allow_list().skip(i as int + 1));
        }
        if str_eq(rule.label, label) {
            return Some(rule);
        }
        i += 1;
    }
    None
}

/// A rule that a lookup finds is a rule of the list, and it is the rule of
/// the label that was looked up.
pub proof fn lemma_lookup_member(rules: Seq<Rule>, label: Seq<char>)
    ensures
        lookup(rules, label) matches Some(rule) ==> rule.label == label && rules.contains(rule),
        lookup(rules, label) is None ==> forall|i: int|
            0 <= i < rules.len() ==> (#[trigger] rules[i]).label != label,
    decreases rules.len(),
{
    if rules.len() > 0 {
        let rest = rules.drop_first();
        lemma_lookup_member(rest, label);
        if rules[0].label != label {
            if let Some(rule) = lookup(rest, label) {
                let k = choose|k: int| 0 <= k < rest.len() && rest[k] == rule;
                assert(rules[k + 1] == rule);
            } else {
                assert forall|i: int| 0 <= i < rules.len() implies (#[trigger] rules[i]).label
                    != label by {
                    if i > 0 {
                        assert(rules[i] == rest[i - 1]);
                    }
                }
            }
        }
    }
}

/// Every rule of the allow-list names its metric by a metric name, which is
/// the normalized form of its label; no label and no name stands in two rules.
pub proof fn lemma_allow_list_names()
    ensures
        forall|i: int|
            0 <= i < allow_list().len() ==> is_metric_token((#[trigger] allow_list()[i]).name)
                && allow_list()[i].label.len() > 0 && allow_list()[i].name == normalized(
                allow_list()[i].label,
            ),
        forall|i: int, j: int|
            0 <= i < j < allow_list().len() ==> (#[trigger] allow_list()[i]).label != (
            #[trigger] allow_list()[j]).label && allow_list()[i].name != allow_list()[j].name,
{
    reveal_strlit("serial");
    reveal_strlit("refresh");
    reveal_strlit("journal flush");
    reveal_strlit("journal_flush");
    reveal_strlit("DNSSEC re-sign");
    reveal_strlit("dnssec_re_sign");
    reveal_strlit("backup/restore");
    reveal_strlit("backup_restore");
    reveal_strlit("XFR freeze");
    reveal_strlit("xfr_freeze");
    reveal_strlit("transaction");
    let list = allow_list();
    assert(list[0].label.len() == 6 && list[0].name.len() == 6);
    assert(list[1].label.len() == 7 && list[1].name.len() == 7);
    assert(list[2].label.len() == 13 && list[2].name.len() == 13);
    assert(list[3].label.len() == 14 && list[3].name.len() == 14);
    assert(list[4].label.len() == 14 && list[4].name.len() == 14);
    assert(list[5].label.len() == 10 && list[5].name.len() == 10);
    assert(list[6].label.len() == 11 && list[6].name.len() == 11);
    assert(list[3].label[0] != list[4].label[0]);
    assert(list[3].name[0] != list[4].name[0]);
    assert forall|i: int| 0 <= i < list.len() implies (#[trigger] list[i]).name == normalized(
        list[i].label,
    ) by {}
}

} // verus!
