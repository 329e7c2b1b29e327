use rustrtc::{StatsEntry, StatsId, StatsKind, StatsReport};

#[test]
fn values_by_name() {
    let entry = StatsEntry::new(StatsId::new("a".to_string()), StatsKind::Transport, 5)
        .with_value("packets".to_string(), serde_json::Value::from(1))
        .with_value("bytes".to_string(), serde_json::Value::from(2))
        .with_value("packets".to_string(), serde_json::Value::from(3));
    assert_eq!(entry.id.as_str(), "a");
    assert_eq!(entry.timestamp, 5);
    assert_eq!(entry.values.len(), 2);
    assert_eq!(entry.value("packets"), Some(&serde_json::Value::from(3)));
    assert_eq!(entry.value("bytes"), Some(&serde_json::Value::from(2)));
    assert_eq!(entry.value("none"), None);
}

#[test]
fn reports_are_merged() {
    let entry = |name: &str| {
        StatsEntry::new(
            StatsId::new(name.to_string()),
            StatsKind::Custom("c".to_string()),
            0,
        )
    };
    let merged = StatsReport::new(vec![entry("a")], 7).merge(StatsReport::new(vec![entry("b")], 4));
    assert_eq!(merged.collected_at, 7);
    assert_eq!(merged.entries.len(), 2);
    assert_eq!(merged.entries[1].id, StatsId::new("b".to_string()));
    assert!(StatsId::new("a".to_string()) < StatsId::new("b".to_string()));
}
