//! Which property a compiled declaration sets, by the kind of the
//! declaration (its values left aside).
use vstd::prelude::*;

use crate::css_types::BoxSide;

verus! {

/// The kinds of compiled declaration; a side-specific one names its side.
#[derive(Debug, Clone, Copy, PartialEq, Eq, Structural)]
pub enum DeclarationKind {
    Ignored,
    Display,
    BoxSizing,
    AspectRatio,
    Flex,
    FlexFlow,
    FlexDirection,
    FlexWrap,
    FlexGrow,
    FlexShrink,
    FlexBasis,
    Position,
    Inset,
    InsetSide(BoxSide),
    Overflow,
    OverflowX,
    OverflowY,
    Width,
    Height,
    MinWidth,
    MinHeight,
    MaxWidth,
    MaxHeight,
    AlignItems,
    PlaceItems,
    AlignSelf,
    PlaceSelf,
    JustifyItems,
    JustifySelf,
    AlignContent,
    PlaceContent,
    JustifyContent,
    Gap,
    GridTemplateRows,
    GridTemplateColumns,
    GridAutoRows,
    GridAutoColumns,
    GridAutoFlow,
    GridTemplateAreas,
    GridTemplate,
    Grid,
    GridArea,
    GridRow,
    GridColumn,
    Padding,
    PaddingSide(BoxSide),
    Margin,
    MarginSide(BoxSide),
}

/// The property a declaration of `kind` sets, under its canonical name;
/// none for an ignored declaration.
pub open spec fn spec_canonical_property_name(kind: DeclarationKind) -> Option<Seq<char>> {
    match kind {
        DeclarationKind::Ignored => None,
        DeclarationKind::Display => Some("display"@),
        DeclarationKind::BoxSizing => Some("box-sizing"@),
        DeclarationKind::AspectRatio => Some("aspect-ratio"@),
        DeclarationKind::Flex => Some("flex"@),
        DeclarationKind::FlexFlow => Some("flex-flow"@),
        DeclarationKind::FlexDirection => Some("flex-direction"@),
        DeclarationKind::FlexWrap => Some("flex-wrap"@),
        DeclarationKind::FlexGrow => Some("flex-grow"@),
        DeclarationKind::FlexShrink => Some("flex-shrink"@),
        DeclarationKind::FlexBasis => Some("flex-basis"@),
        DeclarationKind::Position => Some("position"@),
        DeclarationKind::Inset => Some("inset"@),
        DeclarationKind::InsetSide(side) => Some(match side {
                BoxSide::Top => "top"@,
                BoxSide::Right => "right"@,
                BoxSide::Bottom => "bottom"@,
                BoxSide::Left => "left"@,
            }),
        DeclarationKind::Overflow => Some("overflow"@),
        DeclarationKind::OverflowX => Some("overflow-x"@),
        DeclarationKind::OverflowY => Some("overflow-y"@),
        DeclarationKind::Width => Some("width"@),
        DeclarationKind::Height => Some("height"@),
        DeclarationKind::MinWidth => Some("min-width"@),
        DeclarationKind::MinHeight => Some("min-height"@),
        DeclarationKind::MaxWidth => Some("max-width"@),
        DeclarationKind::MaxHeight => Some("max-height"@),
        DeclarationKind::AlignItems => Some("align-items"@),
        DeclarationKind::PlaceItems => Some("place-items"@),
        DeclarationKind::AlignSelf => Some("align-self"@),
        DeclarationKind::PlaceSelf => Some("place-self"@),
        DeclarationKind::JustifyItems => Some("justify-items"@),
        DeclarationKind::JustifySelf => Some("justify-self"@),
        DeclarationKind::AlignContent => Some("align-content"@),
        DeclarationKind::PlaceContent => Some("place-content"@),
        DeclarationKind::JustifyContent => Some("justify-content"@),
        DeclarationKind::Gap => Some("gap"@),
        DeclarationKind::GridTemplateRows => Some("grid-template-rows"@),
        DeclarationKind::GridTemplateColumns => Some("grid-template-columns"@),
        DeclarationKind::GridAutoRows => Some("grid-auto-rows"@),
        DeclarationKind::GridAutoColumns => Some("grid-auto-columns"@),
        DeclarationKind::GridAutoFlow => Some("grid-auto-flow"@),
        DeclarationKind::GridTemplateAreas => Some("grid-template-areas"@),
        DeclarationKind::GridTemplate => Some("grid-template"@),
        DeclarationKind::Grid => Some("grid"@),
        DeclarationKind::GridArea => Some("grid-area"@),
        DeclarationKind::GridRow => Some("grid-row"@),
        DeclarationKind::GridColumn => Some("grid-column"@),
        DeclarationKind::Padding => Some("padding"@),
        DeclarationKind::PaddingSide(side) => Some(match side {
                BoxSide::Top => "padding-top"@,
                BoxSide::Right => "padding-right"@,
                BoxSide::Bottom => "padding-bottom"@,
                BoxSide::Left => "padding-left"@,
            }),
        DeclarationKind::Margin => Some("margin"@),
        DeclarationKind::MarginSide(side) => Some(match side {
                BoxSide::Top => "margin-top"@,
                BoxSide::Right => "margin-right"@,
                BoxSide::Bottom => "margin-bottom"@,
                BoxSide::Left => "margin-left"@,
            }),
    }
}

pub fn canonical_property_name(kind: &DeclarationKind) -> (r: Option<&'static str>)
    ensures
        match r {
            Some(name) => spec_canonical_property_name(*kind) == Some(name@),
            None => spec_canonical_property_name(*kind) is None,
        },
{
    match *kind {
        DeclarationKind::Ignored => None,
        DeclarationKind::Display => Some("display"),
        DeclarationKind::BoxSizing => Some("box-sizing"),
        DeclarationKind::AspectRatio => Some("aspect-ratio"),
        DeclarationKind::Flex => Some("flex"),
        DeclarationKind::FlexFlow => Some("flex-flow"),
        DeclarationKind::FlexDirection => Some("flex-direction"),
        DeclarationKind::FlexWrap => Some("flex-wrap"),
        DeclarationKind::FlexGrow => Some("flex-grow"),
        DeclarationKind::FlexShrink => Some("flex-shrink"),
        DeclarationKind::FlexBasis => Some("flex-basis"),
        DeclarationKind::Position => Some("position"),
        DeclarationKind::Inset => Some("inset"),
        DeclarationKind::InsetSide(side) => Some(match side {
                BoxSide::Top => "top",
                BoxSide::Right => "right",
                BoxSide::Bottom => "bottom",
                BoxSide::Left => "left",
            }),
        DeclarationKind::Overflow => Some("overflow"),
        DeclarationKind::OverflowX => Some("overflow-x"),
        DeclarationKind::OverflowY => Some("overflow-y"),
        DeclarationKind::Width => Some("width"),
        DeclarationKind::Height => Some("height"),
        DeclarationKind::MinWidth => Some("min-width"),
        DeclarationKind::MinHeight => Some("min-height"),
        DeclarationKind::MaxWidth => Some("max-width"),
        DeclarationKind::MaxHeight => Some("max-height"),
        DeclarationKind::AlignItems => Some("align-items"),
        DeclarationKind::PlaceItems => Some("place-items"),
        DeclarationKind::AlignSelf => Some("align-self"),
        DeclarationKind::PlaceSelf => Some("place-self"),
        DeclarationKind::JustifyItems => Some("justify-items"),
        DeclarationKind::JustifySelf => Some("justify-self"),
        DeclarationKind::AlignContent => Some("align-content"),
        DeclarationKind::PlaceContent => Some("place-content"),
        DeclarationKind::JustifyContent => Some("justify-content"),
        DeclarationKind::Gap => Some("gap"),
        DeclarationKind::GridTemplateRows => Some("grid-template-rows"),
        DeclarationKind::GridTemplateColumns => Some("grid-template-columns"),
        DeclarationKind::GridAutoRows => Some("grid-auto-rows"),
        DeclarationKind::GridAutoColumns => Some("grid-auto-columns"),
        DeclarationKind::GridAutoFlow => Some("grid-auto-flow"),
        DeclarationKind::GridTemplateAreas => Some("grid-template-areas"),
        DeclarationKind::GridTemplate => Some("grid-template"),
        DeclarationKind::Grid => Some("grid"),
        DeclarationKind::GridArea => Some("grid-area"),
        DeclarationKind::GridRow => Some("grid-row"),
        DeclarationKind::GridColumn => Some("grid-column"),
        DeclarationKind::Padding => Some("padding"),
        DeclarationKind::PaddingSide(side) => Some(match side {
                BoxSide::Top => "padding-top",
                BoxSide::Right => "padding-right",
                BoxSide::Bottom => "padding-bottom",
                BoxSide::Left => "padding-left",
            }),
        DeclarationKind::Margin => Some("margin"),
        DeclarationKind::MarginSide(side) => Some(match side {
                BoxSide::Top => "margin-top",
                BoxSide::Right => "margin-right",
                BoxSide::Bottom => "margin-bottom",
                BoxSide::Left => "margin-left",
            }),
    }
}

} // verus!
