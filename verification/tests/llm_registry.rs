use zhongshu_core::llm_registry::LlmRegistry;

#[test]
fn roles_fall_back_to_namespace_default_then_registry_default() {
    let mut registry = LlmRegistry::new();
    assert_eq!(registry.profile_for_role("lead"), "default");
    registry.set_role("lead", "pro");
    registry.set_role("worker.default", "flash");
    registry.set_role("worker.review", "pro");
    assert_eq!(registry.profile_for_role("lead"), "pro");
    assert_eq!(registry.profile_for_role("worker.review"), "pro");
    assert_eq!(registry.profile_for_role("worker.code"), "flash");
    assert_eq!(registry.profile_for_role("planner.x"), "default");
    assert_eq!(registry.profile_for_role("worker"), "default");
}

#[test]
fn later_mapping_and_default_replace_earlier() {
    let mut registry = LlmRegistry::new();
    registry.set_role("lead", "pro");
    registry.set_role("lead", "flash");
    assert_eq!(registry.profile_for_role("lead"), "flash");
    registry.set_default("backup");
    assert_eq!(registry.profile_for_role("anyone"), "backup");
}

#[test]
fn namespace_is_cut_at_the_first_dot() {
    let mut registry = LlmRegistry::new();
    registry.set_role("a.default", "first");
    registry.set_role("a.b.default", "second");
    assert_eq!(registry.profile_for_role("a.b.c"), "first");
}
