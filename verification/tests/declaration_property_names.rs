use hypreact::css_types::BoxSide;
use hypreact::declaration_names::{canonical_property_name, DeclarationKind};

#[test]
fn declarations_name_their_properties() {
    assert_eq!(canonical_property_name(&DeclarationKind::Ignored), None);
    assert_eq!(canonical_property_name(&DeclarationKind::Display), Some("display"));
    assert_eq!(canonical_property_name(&DeclarationKind::GridTemplateAreas), Some("grid-template-areas"));
    assert_eq!(canonical_property_name(&DeclarationKind::InsetSide(BoxSide::Left)), Some("left"));
    assert_eq!(canonical_property_name(&DeclarationKind::PaddingSide(BoxSide::Top)), Some("padding-top"));
    assert_eq!(canonical_property_name(&DeclarationKind::MarginSide(BoxSide::Bottom)), Some("margin-bottom"));
}
