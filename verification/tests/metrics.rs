use knot_control::{
    classify, label_rules, normalize, normalize_name, route, Decoder, KnotCtlData, KnotCtlIdx,
    KnotError, MetricRegistry, ZoneMetric,
};
use knot_control::metric::metric_token;
use knot_control::name::{compact, lower, underscore};

fn record(zone: &str, label: &str, value: &str) -> KnotCtlData {
    let mut fields = KnotCtlData::new();
    fields.insert(KnotCtlIdx::ZONE, zone.to_string());
    fields.insert(KnotCtlIdx::TYPE, label.to_string());
    fields.insert(KnotCtlIdx::DATA, value.to_string());
    fields
}

#[test]
fn a_record_keeps_one_value_for_each_slot() {
    let mut fields = KnotCtlData::new();
    assert_eq!(fields.get(KnotCtlIdx::CMD), None);
    assert_eq!(fields.insert(KnotCtlIdx::CMD, "zone-status".to_string()), None);
    assert_eq!(fields.get(KnotCtlIdx::CMD), Some(&"zone-status".to_string()));
    assert_eq!(fields.get(KnotCtlIdx::ZONE), None);
    assert_eq!(
        fields.insert(KnotCtlIdx::CMD, "zone-reload".to_string()),
        Some("zone-status".to_string())
    );
    assert_eq!(fields.get(KnotCtlIdx::CMD), Some(&"zone-reload".to_string()));
    assert_eq!(fields.insert(KnotCtlIdx::ZONE, String::new()), None);
    assert_eq!(fields.get(KnotCtlIdx::ZONE), Some(&String::new()));
}

#[test]
fn every_slot_is_its_own() {
    let slots = vec![
        KnotCtlIdx::CMD,
        KnotCtlIdx::DATA,
        KnotCtlIdx::ERROR,
        KnotCtlIdx::FILTER,
        KnotCtlIdx::FLAGS,
        KnotCtlIdx::ID,
        KnotCtlIdx::ITEM,
        KnotCtlIdx::OWNER,
        KnotCtlIdx::SECTION,
        KnotCtlIdx::TTL,
        KnotCtlIdx::TYPE,
        KnotCtlIdx::ZONE,
    ];
    let mut fields = KnotCtlData::new();
    for (n, slot) in slots.iter().enumerate() {
        assert_eq!(fields.insert(*slot, format!("value {}", n)), None);
    }
    for (n, slot) in slots.iter().enumerate() {
        assert_eq!(fields.get(*slot), Some(&format!("value {}", n)));
    }
}

#[test]
fn labels_become_metric_names() {
    assert_eq!(normalize("serial"), "serial");
    assert_eq!(normalize("journal flush"), "journal_flush");
    assert_eq!(normalize("DNSSEC re-sign"), "dnssec_re_sign");
    assert_eq!(normalize("backup/restore"), "backup_restore");
    assert_eq!(normalize("XFR freeze"), "xfr_freeze");
    assert_eq!(normalize(""), "");
    assert_eq!(normalize("A-b c/D"), "a_b_c_d");
    assert_eq!(normalize("NSEC3 resalt"), "nsec3_resalt");
}

#[test]
fn the_one_shot_tool_drops_hyphens() {
    assert_eq!(normalize_name("serial"), "serial");
    assert_eq!(normalize_name("journal flush"), "journal_flush");
    assert_eq!(normalize_name("DNSSEC re-sign"), "dnssec_resign");
    assert_eq!(normalize_name("backup/restore"), "backup_restore");
    assert_eq!(normalize_name("--"), "");
}

#[test]
fn letters_outside_ascii_are_lowered_too() {
    assert_eq!(normalize("\u{c9}COLE libre"), "\u{e9}cole_libre");
    assert_eq!(normalize_name("\u{c9}COLE-libre"), "\u{e9}colelibre");
    assert_eq!(lower("\u{c9}COLE"), "\u{e9}cole");
    assert_eq!(lower("\u{c9}COLE"), "\u{c9}COLE".to_lowercase());
    assert_eq!(lower("Zone A-1"), "zone a-1");
    assert_eq!(lower("Zone A-1"), "Zone A-1".to_lowercase());
}

#[test]
fn separators_are_replaced_one_for_one() {
    assert_eq!(underscore("a b/c-d"), "a_b_c_d");
    assert_eq!(underscore("  "), "__");
    assert_eq!(underscore("\u{e9} \u{e9}"), "\u{e9}_\u{e9}");
    assert_eq!(compact("a b/c-d"), "a_b_cd");
    assert_eq!(compact("-a-"), "a");
}

#[test]
fn normalize_agrees_with_the_standard_library() {
    let labels = vec![
        "serial", "journal flush", "DNSSEC re-sign", "backup/restore", "XFR freeze", "A--B  C//D",
        "\u{c9}t\u{c9}", "\u{3a3}\u{391}\u{3a3}", "\u{130}x",
    ];
    for label in labels {
        let expected = label.to_lowercase().replace(' ', "_").replace('/', "_").replace('-', "_");
        assert_eq!(normalize(label), expected);
        let expected = label.to_lowercase().replace(' ', "_").replace('/', "_").replace('-', "");
        assert_eq!(normalize_name(label), expected);
    }
}

#[test]
fn the_allow_list_names_seven_labels() {
    let rules = label_rules();
    assert_eq!(rules.len(), 7);
    let expected = vec![
        ("serial", "serial", Decoder::Counter),
        ("refresh", "refresh", Decoder::Duration),
        ("journal flush", "journal_flush", Decoder::Duration),
        ("DNSSEC re-sign", "dnssec_re_sign", Decoder::Duration),
        ("backup/restore", "backup_restore", Decoder::Duration),
        ("XFR freeze", "xfr_freeze", Decoder::Flag),
        ("transaction", "transaction", Decoder::Flag),
    ];
    for (rule, (label, name, decoder)) in rules.iter().zip(expected) {
        assert_eq!(rule.label, label);
        assert_eq!(rule.name, name);
        assert_eq!(rule.decoder, decoder);
        assert_eq!(normalize(rule.label), rule.name);
        assert!(metric_token(rule.name));
    }
}

#[test]
fn labels_are_looked_up_as_they_are_printed() {
    let rule = classify("DNSSEC re-sign").unwrap();
    assert_eq!(rule.label, "DNSSEC re-sign");
    assert_eq!(rule.name, "dnssec_re_sign");
    assert_eq!(rule.decoder, Decoder::Duration);
    assert_eq!(classify("serial").unwrap().decoder, Decoder::Counter);
    assert_eq!(classify("transaction").unwrap().decoder, Decoder::Flag);
    assert!(classify("dnssec re-sign").is_none());
    assert!(classify("Serial").is_none());
    assert!(classify("serial ").is_none());
    assert!(classify("role").is_none());
    assert!(classify("").is_none());
    assert!(classify("journal_flush").is_none());
}

#[test]
fn metric_names_are_tokens() {
    assert!(metric_token("serial"));
    assert!(metric_token("journal_flush"));
    assert!(metric_token("_x9"));
    assert!(metric_token("nsec3_resalt"));
    assert!(!metric_token(""));
    assert!(!metric_token("9lives"));
    assert!(!metric_token("Serial"));
    assert!(!metric_token("journal flush"));
    assert!(!metric_token("re-sign"));
    assert!(!metric_token("a:b"));
    assert!(!metric_token("\u{e9}cole"));
}

#[test]
fn an_observation_needs_zone_name_and_label() {
    let metric = ZoneMetric::new("example.com", "serial", "serial", 42, false).unwrap();
    assert_eq!(metric.zone(), "example.com");
    assert_eq!(metric.name(), "serial");
    assert_eq!(metric.label(), "serial");
    assert_eq!(metric.value(), 42);
    assert!(!metric.event());
    assert!(ZoneMetric::new("", "serial", "serial", 42, false).is_none());
    assert!(ZoneMetric::new("example.com", "", "serial", 42, false).is_none());
    assert!(ZoneMetric::new("example.com", "serial", "", 42, false).is_none());
    assert!(ZoneMetric::new("example.com", "Serial", "serial", 42, false).is_none());
    assert!(ZoneMetric::new("example.com", "journal flush", "journal flush", 42, true).is_none());
    assert!(ZoneMetric::new("example.com", "journal_flush", "journal flush", -1, true).is_some());
}

#[test]
fn a_metric_has_one_value_for_each_zone() {
    let mut registry = MetricRegistry::new();
    assert_eq!(registry.len(), 0);
    assert!(registry.get(0).is_none());
    let first = ZoneMetric::new("example.com", "serial", "serial", 42, false).unwrap();
    assert_eq!(registry.register(first), Ok(()));
    let other_zone = ZoneMetric::new("example.org", "serial", "serial", 43, false).unwrap();
    assert_eq!(registry.register(other_zone), Ok(()));
    let other_metric = ZoneMetric::new("example.com", "refresh", "refresh", 60, true).unwrap();
    assert_eq!(registry.register(other_metric), Ok(()));
    assert_eq!(registry.len(), 3);
    let again = ZoneMetric::new("example.com", "serial", "serial", 44, false).unwrap();
    assert_eq!(registry.register(again), Err(KnotError::Duplicate));
    let same = ZoneMetric::new("example.org", "serial", "serial", 43, false).unwrap();
    assert_eq!(registry.register(same), Err(KnotError::Duplicate));
    assert_eq!(registry.len(), 3);
    assert_eq!(registry.get(0).unwrap().value(), 42);
    assert_eq!(registry.get(1).unwrap().zone(), "example.org");
    assert_eq!(registry.get(1).unwrap().value(), 43);
    assert_eq!(registry.get(2).unwrap().name(), "refresh");
    assert!(registry.get(2).unwrap().event());
    assert!(registry.get(3).is_none());
}

#[test]
fn a_metric_has_one_label() {
    let mut registry = MetricRegistry::new();
    let first = ZoneMetric::new("example.com", "serial", "serial", 42, false).unwrap();
    assert_eq!(registry.register(first), Ok(()));
    let other = ZoneMetric::new("example.org", "serial", "SERIAL", 43, false).unwrap();
    assert_eq!(registry.register(other), Err(KnotError::Conflict));
    let both = ZoneMetric::new("example.com", "serial", "SERIAL", 43, false).unwrap();
    assert_eq!(registry.register(both), Err(KnotError::Duplicate));
    assert_eq!(registry.len(), 1);
}

#[test]
fn a_tracked_record_becomes_an_observation() {
    let mut registry = MetricRegistry::new();
    assert_eq!(route(&mut registry, &record("example.com", "serial", "42")), Ok(()));
    assert_eq!(route(&mut registry, &record("example.com", "refresh", "+1h")), Ok(()));
    assert_eq!(route(&mut registry, &record("example.com", "journal flush", "not scheduled")), Ok(()));
    assert_eq!(route(&mut registry, &record("example.com", "XFR freeze", "yes")), Ok(()));
    assert_eq!(route(&mut registry, &record("example.com", "transaction", "none")), Ok(()));
    assert_eq!(registry.len(), 5);
    let serial = registry.get(0).unwrap();
    assert_eq!(
        (serial.zone(), serial.name(), serial.label(), serial.value(), serial.event()),
        ("example.com", "serial", "serial", 42, false)
    );
    let refresh = registry.get(1).unwrap();
    assert_eq!((refresh.name(), refresh.value(), refresh.event()), ("refresh", 3600, true));
    let flush = registry.get(2).unwrap();
    assert_eq!(
        (flush.name(), flush.label(), flush.value(), flush.event()),
        ("journal_flush", "journal flush", -1, true)
    );
    let freeze = registry.get(3).unwrap();
    assert_eq!((freeze.name(), freeze.value(), freeze.event()), ("xfr_freeze", 1, false));
    let transaction = registry.get(4).unwrap();
    assert_eq!((transaction.name(), transaction.value()), ("transaction", 0));
}

#[test]
fn the_decoder_of_the_label_is_the_only_one_tried() {
    let mut registry = MetricRegistry::new();
    assert_eq!(route(&mut registry, &record("example.com", "serial", "none")), Ok(()));
    assert_eq!(route(&mut registry, &record("example.com", "refresh", "42")), Ok(()));
    assert_eq!(route(&mut registry, &record("example.com", "transaction", "7")), Ok(()));
    assert_eq!(registry.get(0).unwrap().value(), -1);
    assert_eq!(registry.get(1).unwrap().value(), -1);
    assert_eq!(registry.get(2).unwrap().value(), -1);
}

#[test]
fn an_untracked_record_is_skipped() {
    let mut registry = MetricRegistry::new();
    assert_eq!(route(&mut registry, &record("example.com", "role", "master")), Ok(()));
    assert_eq!(route(&mut registry, &record("example.com", "Serial", "42")), Ok(()));
    assert_eq!(route(&mut registry, &record("example.com", "", "42")), Ok(()));
    assert_eq!(registry.len(), 0);
}

#[test]
fn a_record_without_a_mandatory_field_breaks_the_protocol() {
    let mut registry = MetricRegistry::new();
    let mut no_zone = KnotCtlData::new();
    no_zone.insert(KnotCtlIdx::TYPE, "serial".to_string());
    no_zone.insert(KnotCtlIdx::DATA, "42".to_string());
    assert_eq!(route(&mut registry, &no_zone), Err(KnotError::Protocol));
    let mut no_label = KnotCtlData::new();
    no_label.insert(KnotCtlIdx::ZONE, "example.com".to_string());
    no_label.insert(KnotCtlIdx::DATA, "42".to_string());
    assert_eq!(route(&mut registry, &no_label), Err(KnotError::Protocol));
    let mut no_value = KnotCtlData::new();
    no_value.insert(KnotCtlIdx::ZONE, "example.com".to_string());
    no_value.insert(KnotCtlIdx::TYPE, "serial".to_string());
    assert_eq!(route(&mut registry, &no_value), Err(KnotError::Protocol));
    assert_eq!(route(&mut registry, &KnotCtlData::new()), Err(KnotError::Protocol));
    assert_eq!(route(&mut registry, &record("", "serial", "42")), Err(KnotError::Protocol));
    assert_eq!(route(&mut registry, &record("", "role", "master")), Err(KnotError::Protocol));
    assert_eq!(registry.len(), 0);
}

#[test]
fn a_repeated_record_is_a_duplicate() {
    let mut registry = MetricRegistry::new();
    assert_eq!(route(&mut registry, &record("example.com", "serial", "42")), Ok(()));
    assert_eq!(
        route(&mut registry, &record("example.com", "serial", "42")),
        Err(KnotError::Duplicate)
    );
    assert_eq!(
        route(&mut registry, &record("example.com", "serial", "43")),
        Err(KnotError::Duplicate)
    );
    assert_eq!(route(&mut registry, &record("example.org", "serial", "42")), Ok(()));
    assert_eq!(registry.len(), 2);
}
