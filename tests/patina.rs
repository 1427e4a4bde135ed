use bifrost::patina::{patina_event_weight, patina_level, patina_stage, HassPatinaStage, HassPatinaState};

#[test]
fn patina_level_scenario() {
    // 30 days and 1000 interactions: round(30*20/365) + round(1000*80/5000) = 2 + 16
    assert_eq!(patina_level(30, 1000), 18);
    assert_eq!(patina_stage(18), HassPatinaStage::Fresh);
}

#[test]
fn patina_level_caps() {
    assert_eq!(patina_level(0, 0), 0);
    assert_eq!(patina_level(365, 5000), 100);
    assert_eq!(patina_level(10_000, u64::MAX), 100);
    assert_eq!(patina_level(365, 0), 20);
    assert_eq!(patina_level(0, 5000), 80);
    assert_eq!(patina_stage(25), HassPatinaStage::Fresh);
    assert_eq!(patina_stage(26), HassPatinaStage::Used);
    assert_eq!(patina_stage(70), HassPatinaStage::Used);
    assert_eq!(patina_stage(71), HassPatinaStage::Loved);
}

#[test]
fn patina_weights() {
    assert_eq!(patina_event_weight("toggle"), 2);
    assert_eq!(patina_event_weight("apply"), 4);
    assert_eq!(patina_event_weight("sync"), 3);
    assert_eq!(patina_event_weight("reset"), 5);
    assert_eq!(patina_event_weight("other"), 1);
}

#[test]
fn record_patina_events() {
    let mut st = HassPatinaState::new(String::new());
    st.record_event("toggle", Some("  light.kitchen "), "2024-01-01T00:00:00Z");
    st.record_event("apply", Some("light.kitchen"), "2024-02-01T00:00:00Z");
    st.record_event("sync", Some("   "), "x");
    st.record_event("weird", None, "x");
    assert_eq!(st.install_date, "2024-01-01T00:00:00Z");
    assert_eq!(st.interaction_count, 2 + 4 + 3 + 1);
    assert_eq!(st.interactions_by_key, vec![("light.kitchen".to_string(), 6)]);
    let public = st.public(30);
    assert_eq!(public.patina_level, 2);
    assert_eq!(public.stage, HassPatinaStage::Fresh);
}

#[test]
fn record_patina_saturates() {
    let mut st = HassPatinaState::new("2024-01-01".to_string());
    st.interaction_count = u64::MAX - 1;
    st.record_event("reset", None, "x");
    assert_eq!(st.interaction_count, u64::MAX);
}
