use knot_control::{render, rendered, KnotError, MetricRegistry, ZoneMetric};

#[test]
fn an_empty_registry_renders_an_empty_text() {
    let registry = MetricRegistry::new();
    assert_eq!(render(&registry), Ok(String::new()));
}

#[test]
fn a_series_is_rendered_with_help_type_and_zone() {
    let mut registry = MetricRegistry::new();
    let metric = ZoneMetric::new("example.com", "serial", "serial", 42, false).unwrap();
    registry.register(metric).unwrap();
    assert_eq!(
        render(&registry).unwrap(),
        "# HELP knot_dns_serial serial\n\
         # TYPE knot_dns_serial gauge\n\
         knot_dns_serial{zone=\"example.com\"} 42\n"
    );
}

#[test]
fn families_and_zones_are_rendered_in_order() {
    let mut registry = MetricRegistry::new();
    for (zone, name, label, value, event) in vec![
        ("example.org", "serial", "serial", 7, false),
        ("example.com", "refresh", "refresh", 3600, true),
        ("example.com", "serial", "serial", 42, false),
        ("example.com", "journal_flush", "journal flush", -1, true),
    ] {
        registry.register(ZoneMetric::new(zone, name, label, value, event).unwrap()).unwrap();
    }
    assert_eq!(
        render(&registry).unwrap(),
        "# HELP knot_dns_journal_flush journal flush\n\
         # TYPE knot_dns_journal_flush gauge\n\
         knot_dns_journal_flush{zone=\"example.com\"} -1\n\
         # HELP knot_dns_refresh refresh\n\
         # TYPE knot_dns_refresh gauge\n\
         knot_dns_refresh{zone=\"example.com\"} 3600\n\
         # HELP knot_dns_serial serial\n\
         # TYPE knot_dns_serial gauge\n\
         knot_dns_serial{zone=\"example.com\"} 42\n\
         knot_dns_serial{zone=\"example.org\"} 7\n"
    );
}

#[test]
fn the_order_of_registration_does_not_show() {
    let series = vec![
        ("example.org", "serial", "serial", 7),
        ("example.com", "refresh", "refresh", 3600),
        ("example.com", "serial", "serial", 42),
    ];
    let mut forward = MetricRegistry::new();
    for (zone, name, label, value) in series.iter() {
        forward.register(ZoneMetric::new(zone, name, label, *value, false).unwrap()).unwrap();
    }
    let mut backward = MetricRegistry::new();
    for (zone, name, label, value) in series.iter().rev() {
        backward.register(ZoneMetric::new(zone, name, label, *value, false).unwrap()).unwrap();
    }
    assert_eq!(render(&forward), render(&backward));
}

#[test]
fn rendering_leaves_the_registry_as_it_is() {
    let mut registry = MetricRegistry::new();
    registry.register(ZoneMetric::new("example.com", "serial", "serial", 42, false).unwrap()).unwrap();
    let first = render(&registry).unwrap();
    let second = render(&registry).unwrap();
    assert_eq!(first, second);
    assert_eq!(registry.len(), 1);
}

#[test]
fn a_zone_is_escaped_in_its_label() {
    let mut registry = MetricRegistry::new();
    registry.register(ZoneMetric::new("a\"b", "serial", "serial", 1, false).unwrap()).unwrap();
    assert_eq!(
        render(&registry).unwrap(),
        "# HELP knot_dns_serial serial\n\
         # TYPE knot_dns_serial gauge\n\
         knot_dns_serial{zone=\"a\\\"b\"} 1\n"
    );
}

#[test]
fn a_refusal_of_the_metrics_library_is_an_export_error() {
    assert_eq!(rendered(Ok("text".to_string())), Ok("text".to_string()));
    assert_eq!(rendered(Ok(String::new())), Ok(String::new()));
    assert_eq!(rendered(Err(prometheus::Error::AlreadyReg)), Err(KnotError::Export));
    assert_eq!(
        rendered(Err(prometheus::Error::Msg("refused".to_string()))),
        Err(KnotError::Export)
    );
}
