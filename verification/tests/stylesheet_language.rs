use hypreact::language::{
    attribute_key_spec, attribute_key_specs, is_invalid_selector_target, is_supported_attribute_key,
    is_supported_property, is_supported_pseudo_class, is_supported_pseudo_element, property_spec,
    property_specs, pseudo_class_spec, pseudo_class_specs, pseudo_element_spec, pseudo_element_specs,
    selector_targets, SelectorTarget, StyleTarget, SupportStatus,
};

#[test]
fn properties_are_found_by_name() {
    let display = property_spec("display").expect("display is supported");
    assert_eq!(display.status, SupportStatus::Full);
    assert_eq!(display.value_keywords, vec!["flex", "grid", "none"]);
    assert_eq!(
        display.applies_to,
        vec![StyleTarget::Workspace, StyleTarget::Group, StyleTarget::Window]
    );
    assert!(is_supported_property("margin-left"));
    assert!(!is_supported_property("colour"));
    assert!(property_spec("").is_none());
    assert_eq!(property_specs().len(), 99);
    assert_eq!(property_specs()[0].name, "display");
}

#[test]
fn selector_vocabulary() {
    assert_eq!(attribute_key_specs().len(), 7);
    assert_eq!(attribute_key_spec("app_id").unwrap().targets, vec![SelectorTarget::Window]);
    assert!(is_supported_attribute_key("window_type"));
    assert!(!is_supported_attribute_key("pid"));
    assert_eq!(pseudo_class_specs().len(), 9);
    assert!(pseudo_class_spec("focused").is_some());
    assert!(is_supported_pseudo_class("exit-to-right"));
    assert!(!is_supported_pseudo_class("hover"));
    assert!(pseudo_element_specs().is_empty());
    assert!(pseudo_element_spec("before").is_none());
    assert!(!is_supported_pseudo_element("before"));
    assert!(is_invalid_selector_target("slot"));
    assert!(!is_invalid_selector_target("window"));
    assert_eq!(
        selector_targets(),
        vec![SelectorTarget::Workspace, SelectorTarget::Group, SelectorTarget::Window]
    );
}
