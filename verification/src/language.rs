//! The stylesheet language that layouts may use: the supported properties,
//! attribute keys, pseudo-classes and pseudo-elements, what each applies to
//! and its documentation.
use vstd::prelude::*;

use crate::seq_util::{first_index, lemma_first_index};
use crate::text::text_eq;

verus! {

#[derive(Debug, Clone, Copy, PartialEq, Eq, Structural)]
pub enum SupportStatus {
    Full,
    Partial,
    Planned,
}

#[derive(Debug, Clone, Copy, PartialEq, Eq, Hash, Structural)]
pub enum SelectorTarget {
    Workspace,
    Group,
    Window,
}

#[derive(Debug, Clone, Copy, PartialEq, Eq, Hash, Structural)]
pub enum StyleTarget {
    Workspace,
    Group,
    Window,
}

/// A property: its name, how fully it is supported, the targets it applies
/// to, the keywords its value may take and its documentation.
#[derive(Debug, Clone, PartialEq, Eq)]
pub struct PropertySpec {
    pub name: &'static str,
    pub status: SupportStatus,
    pub applies_to: Vec<StyleTarget>,
    pub value_keywords: Vec<&'static str>,
    pub hover: &'static str,
}

/// An attribute key usable in selectors and the targets it matches.
#[derive(Debug, Clone, PartialEq, Eq)]
pub struct AttributeKeySpec {
    pub name: &'static str,
    pub targets: Vec<SelectorTarget>,
    pub hover: &'static str,
}

#[derive(Debug, Clone, PartialEq, Eq)]
pub struct PseudoClassSpec {
    pub name: &'static str,
    pub hover: &'static str,
}

#[derive(Debug, Clone, PartialEq, Eq)]
pub struct PseudoElementSpec {
    pub name: &'static str,
    pub targets: Vec<SelectorTarget>,
    pub hover: &'static str,
}

pub open spec fn property_view(p: PropertySpec) -> (Seq<char>, SupportStatus, Seq<StyleTarget>, Seq<Seq<char>>, Seq<char>) {
    (p.name@, p.status, p.applies_to@, p.value_keywords@.map_values(|k: &str| k@), p.hover@)
}

pub open spec fn attribute_key_view(a: AttributeKeySpec) -> (Seq<char>, Seq<SelectorTarget>, Seq<char>) {
    (a.name@, a.targets@, a.hover@)
}

pub open spec fn pseudo_class_view(p: PseudoClassSpec) -> (Seq<char>, Seq<char>) {
    (p.name@, p.hover@)
}

pub open spec fn pseudo_element_view(p: PseudoElementSpec) -> (Seq<char>, Seq<SelectorTarget>, Seq<char>) {
    (p.name@, p.targets@, p.hover@)
}

fn all_element_targets() -> (r: Vec<StyleTarget>)
    ensures
        r@ == seq![StyleTarget::Workspace, StyleTarget::Group, StyleTarget::Window],
{
    vec![StyleTarget::Workspace, StyleTarget::Group, StyleTarget::Window]
}

fn all_style_targets() -> (r: Vec<StyleTarget>)
    ensures
        r@ == seq![StyleTarget::Workspace, StyleTarget::Group, StyleTarget::Window],
{
    vec![StyleTarget::Workspace, StyleTarget::Group, StyleTarget::Window]
}

fn window_only_targets() -> (r: Vec<StyleTarget>)
    ensures
        r@ == seq![StyleTarget::Window],
{
    vec![StyleTarget::Window]
}

fn align_content_keywords() -> (r: Vec<&'static str>)
    ensures
        r@.map_values(|k: &str| k@) == seq!["stretch"@, "start"@, "end"@, "center"@, "space-between"@, "space-around"@, "space-evenly"@, "flex-start"@, "flex-end"@],
{
    let r: Vec<&'static str> = vec!["stretch", "start", "end", "center", "space-between", "space-around", "space-evenly", "flex-start", "flex-end"];
    proof {
        assert(r@.map_values(|k: &str| k@) =~= seq!["stretch"@, "start"@, "end"@, "center"@, "space-between"@, "space-around"@, "space-evenly"@, "flex-start"@, "flex-end"@]);
    }
    r
}

fn align_items_keywords() -> (r: Vec<&'static str>)
    ensures
        r@.map_values(|k: &str| k@) == seq!["stretch"@, "start"@, "end"@, "center"@, "flex-start"@, "flex-end"@],
{
    let r: Vec<&'static str> = vec!["stretch", "start", "end", "center", "flex-start", "flex-end"];
    proof {
        assert(r@.map_values(|k: &str| k@) =~= seq!["stretch"@, "start"@, "end"@, "center"@, "flex-start"@, "flex-end"@]);
    }
    r
}

fn align_self_keywords() -> (r: Vec<&'static str>)
    ensures
        r@.map_values(|k: &str| k@) == seq!["auto"@, "stretch"@, "start"@, "end"@, "center"@, "flex-start"@, "flex-end"@],
{
    let r: Vec<&'static str> = vec!["auto", "stretch", "start", "end", "center", "flex-start", "flex-end"];
    proof {
        assert(r@.map_values(|k: &str| k@) =~= seq!["auto"@, "stretch"@, "start"@, "end"@, "center"@, "flex-start"@, "flex-end"@]);
    }
    r
}

fn animation_direction_keywords() -> (r: Vec<&'static str>)
    ensures
        r@.map_values(|k: &str| k@) == seq!["normal"@, "reverse"@, "alternate"@, "alternate-reverse"@],
{
    let r: Vec<&'static str> = vec!["normal", "reverse", "alternate", "alternate-reverse"];
    proof {
        assert(r@.map_values(|k: &str| k@) =~= seq!["normal"@, "reverse"@, "alternate"@, "alternate-reverse"@]);
    }
    r
}

fn animation_fill_mode_keywords() -> (r: Vec<&'static str>)
    ensures
        r@.map_values(|k: &str| k@) == seq!["none"@, "forwards"@, "backwards"@, "both"@],
{
    let r: Vec<&'static str> = vec!["none", "forwards", "backwards", "both"];
    proof {
        assert(r@.map_values(|k: &str| k@) =~= seq!["none"@, "forwards"@, "backwards"@, "both"@]);
    }
    r
}

fn animation_play_state_keywords() -> (r: Vec<&'static str>)
    ensures
        r@.map_values(|k: &str| k@) == seq!["running"@, "paused"@],
{
    let r: Vec<&'static str> = vec!["running", "paused"];
    proof {
        assert(r@.map_values(|k: &str| k@) =~= seq!["running"@, "paused"@]);
    }
    r
}

fn appearance_keywords() -> (r: Vec<&'static str>)
    ensures
        r@.map_values(|k: &str| k@) == seq!["auto"@, "none"@],
{
    let r: Vec<&'static str> = vec!["auto", "none"];
    proof {
        assert(r@.map_values(|k: &str| k@) =~= seq!["auto"@, "none"@]);
    }
    r
}

fn box_sizing_keywords() -> (r: Vec<&'static str>)
    ensures
        r@.map_values(|k: &str| k@) == seq!["border-box"@, "content-box"@],
{
    let r: Vec<&'static str> = vec!["border-box", "content-box"];
    proof {
        assert(r@.map_values(|k: &str| k@) =~= seq!["border-box"@, "content-box"@]);
    }
    r
}

fn display_keywords() -> (r: Vec<&'static str>)
    ensures
        r@.map_values(|k: &str| k@) == seq!["flex"@, "grid"@, "none"@],
{
    let r: Vec<&'static str> = vec!["flex", "grid", "none"];
    proof {
        assert(r@.map_values(|k: &str| k@) =~= seq!["flex"@, "grid"@, "none"@]);
    }
    r
}

fn flex_direction_keywords() -> (r: Vec<&'static str>)
    ensures
        r@.map_values(|k: &str| k@) == seq!["row"@, "row-reverse"@, "column"@, "column-reverse"@],
{
    let r: Vec<&'static str> = vec!["row", "row-reverse", "column", "column-reverse"];
    proof {
        assert(r@.map_values(|k: &str| k@) =~= seq!["row"@, "row-reverse"@, "column"@, "column-reverse"@]);
    }
    r
}

fn flex_wrap_keywords() -> (r: Vec<&'static str>)
    ensures
        r@.map_values(|k: &str| k@) == seq!["nowrap"@, "wrap"@, "wrap-reverse"@],
{
    let r: Vec<&'static str> = vec!["nowrap", "wrap", "wrap-reverse"];
    proof {
        assert(r@.map_values(|k: &str| k@) =~= seq!["nowrap"@, "wrap"@, "wrap-reverse"@]);
    }
    r
}

fn grid_auto_flow_keywords() -> (r: Vec<&'static str>)
    ensures
        r@.map_values(|k: &str| k@) == seq!["row"@, "column"@, "dense"@, "row dense"@, "column dense"@],
{
    let r: Vec<&'static str> = vec!["row", "column", "dense", "row dense", "column dense"];
    proof {
        assert(r@.map_values(|k: &str| k@) =~= seq!["row"@, "column"@, "dense"@, "row dense"@, "column dense"@]);
    }
    r
}

fn justify_content_keywords() -> (r: Vec<&'static str>)
    ensures
        r@.map_values(|k: &str| k@) == seq!["stretch"@, "start"@, "end"@, "center"@, "space-between"@, "space-around"@, "space-evenly"@, "flex-start"@, "flex-end"@],
{
    let r: Vec<&'static str> = vec!["stretch", "start", "end", "center", "space-between", "space-around", "space-evenly", "flex-start", "flex-end"];
    proof {
        assert(r@.map_values(|k: &str| k@) =~= seq!["stretch"@, "start"@, "end"@, "center"@, "space-between"@, "space-around"@, "space-evenly"@, "flex-start"@, "flex-end"@]);
    }
    r
}

fn justify_items_keywords() -> (r: Vec<&'static str>)
    ensures
        r@.map_values(|k: &str| k@) == seq!["stretch"@, "start"@, "end"@, "center"@],
{
    let r: Vec<&'static str> = vec!["stretch", "start", "end", "center"];
    proof {
        assert(r@.map_values(|k: &str| k@) =~= seq!["stretch"@, "start"@, "end"@, "center"@]);
    }
    r
}

fn justify_self_keywords() -> (r: Vec<&'static str>)
    ensures
        r@.map_values(|k: &str| k@) == seq!["auto"@, "stretch"@, "start"@, "end"@, "center"@],
{
    let r: Vec<&'static str> = vec!["auto", "stretch", "start", "end", "center"];
    proof {
        assert(r@.map_values(|k: &str| k@) =~= seq!["auto"@, "stretch"@, "start"@, "end"@, "center"@]);
    }
    r
}

fn no_keywords() -> (r: Vec<&'static str>)
    ensures
        r@.map_values(|k: &str| k@) == Seq::<Seq<char>>::empty(),
{
    let r: Vec<&'static str> = vec![];
    proof {
        assert(r@.map_values(|k: &str| k@) =~= Seq::<Seq<char>>::empty());
    }
    r
}

fn overflow_keywords() -> (r: Vec<&'static str>)
    ensures
        r@.map_values(|k: &str| k@) == seq!["visible"@, "hidden"@, "scroll"@, "clip"@],
{
    let r: Vec<&'static str> = vec!["visible", "hidden", "scroll", "clip"];
    proof {
        assert(r@.map_values(|k: &str| k@) =~= seq!["visible"@, "hidden"@, "scroll"@, "clip"@]);
    }
    r
}

fn position_keywords() -> (r: Vec<&'static str>)
    ensures
        r@.map_values(|k: &str| k@) == seq!["relative"@, "absolute"@],
{
    let r: Vec<&'static str> = vec!["relative", "absolute"];
    proof {
        assert(r@.map_values(|k: &str| k@) =~= seq!["relative"@, "absolute"@]);
    }
    r
}

fn text_align_keywords() -> (r: Vec<&'static str>)
    ensures
        r@.map_values(|k: &str| k@) == seq!["left"@, "center"@, "right"@],
{
    let r: Vec<&'static str> = vec!["left", "center", "right"];
    proof {
        assert(r@.map_values(|k: &str| k@) =~= seq!["left"@, "center"@, "right"@]);
    }
    r
}

fn text_transform_keywords() -> (r: Vec<&'static str>)
    ensures
        r@.map_values(|k: &str| k@) == seq!["none"@, "uppercase"@, "lowercase"@, "capitalize"@],
{
    let r: Vec<&'static str> = vec!["none", "uppercase", "lowercase", "capitalize"];
    proof {
        assert(r@.map_values(|k: &str| k@) =~= seq!["none"@, "uppercase"@, "lowercase"@, "capitalize"@]);
    }
    r
}

fn transition_behavior_keywords() -> (r: Vec<&'static str>)
    ensures
        r@.map_values(|k: &str| k@) == seq!["normal"@, "allow-discrete"@],
{
    let r: Vec<&'static str> = vec!["normal", "allow-discrete"];
    proof {
        assert(r@.map_values(|k: &str| k@) =~= seq!["normal"@, "allow-discrete"@]);
    }
    r
}

fn window_selector_target() -> (r: Vec<SelectorTarget>)
    ensures
        r@ == seq![SelectorTarget::Window],
{
    vec![SelectorTarget::Window]
}

/// Every supported property, in documentation order.
pub open spec fn property_table() -> Seq<(Seq<char>, SupportStatus, Seq<StyleTarget>, Seq<Seq<char>>, Seq<char>)> {
    seq![
        ("display"@, SupportStatus::Full, seq![StyleTarget::Workspace, StyleTarget::Group, StyleTarget::Window], seq!["flex"@, "grid"@, "none"@], "Controls element participation in layout."@),
        ("box-sizing"@, SupportStatus::Full, seq![StyleTarget::Workspace, StyleTarget::Group, StyleTarget::Window], seq!["border-box"@, "content-box"@], "Controls whether declared sizes include border and padding."@),
        ("aspect-ratio"@, SupportStatus::Full, seq![StyleTarget::Workspace, StyleTarget::Group, StyleTarget::Window], Seq::<Seq<char>>::empty(), "Sets a preferred width-to-height ratio for layout sizing."@),
        ("appearance"@, SupportStatus::Partial, seq![StyleTarget::Window], seq!["auto"@, "none"@], "Controls window decoration behavior for windows."@),
        ("background"@, SupportStatus::Partial, seq![StyleTarget::Window], Seq::<Seq<char>>::empty(), "Sets a solid background color where compositor rendering consumes it."@),
        ("background-color"@, SupportStatus::Partial, seq![StyleTarget::Window], Seq::<Seq<char>>::empty(), "Sets a solid background color where compositor rendering consumes it."@),
        ("color"@, SupportStatus::Partial, seq![StyleTarget::Window], Seq::<Seq<char>>::empty(), "Sets compositor-rendered text color where supported."@),
        ("opacity"@, SupportStatus::Partial, seq![StyleTarget::Window], Seq::<Seq<char>>::empty(), "Controls compositor-managed opacity effects where currently implemented."@),
        ("border-color"@, SupportStatus::Partial, seq![StyleTarget::Window], Seq::<Seq<char>>::empty(), "Sets compositor-consumed border color where supported."@),
        ("border-style"@, SupportStatus::Partial, seq![StyleTarget::Window], Seq::<Seq<char>>::empty(), "Controls compositor border edge visibility where supported."@),
        ("border-radius"@, SupportStatus::Partial, seq![StyleTarget::Window], Seq::<Seq<char>>::empty(), "Controls rounded window corners where compositor rendering consumes it."@),
        ("box-shadow"@, SupportStatus::Partial, seq![StyleTarget::Window], Seq::<Seq<char>>::empty(), "Controls compositor shadow rendering where supported."@),
        ("backdrop-filter"@, SupportStatus::Planned, seq![StyleTarget::Window], Seq::<Seq<char>>::empty(), "Reserved for future compositor backdrop effects."@),
        ("transform"@, SupportStatus::Partial, seq![StyleTarget::Workspace, StyleTarget::Group, StyleTarget::Window], Seq::<Seq<char>>::empty(), "Applies typed transform operations, with runtime support currently partial."@),
        ("text-align"@, SupportStatus::Partial, seq![StyleTarget::Workspace, StyleTarget::Group, StyleTarget::Window], seq!["left"@, "center"@, "right"@], "Controls text alignment where rendering consumes it."@),
        ("text-transform"@, SupportStatus::Partial, seq![StyleTarget::Workspace, StyleTarget::Group, StyleTarget::Window], seq!["none"@, "uppercase"@, "lowercase"@, "capitalize"@], "Controls text casing where rendering consumes it."@),
        ("font-family"@, SupportStatus::Partial, seq![StyleTarget::Workspace, StyleTarget::Group, StyleTarget::Window], Seq::<Seq<char>>::empty(), "Controls font family selection where rendering consumes it."@),
        ("font-size"@, SupportStatus::Partial, seq![StyleTarget::Workspace, StyleTarget::Group, StyleTarget::Window], Seq::<Seq<char>>::empty(), "Controls font size where rendering consumes it."@),
        ("font-weight"@, SupportStatus::Partial, seq![StyleTarget::Workspace, StyleTarget::Group, StyleTarget::Window], Seq::<Seq<char>>::empty(), "Controls font weight where rendering consumes it."@),
        ("letter-spacing"@, SupportStatus::Partial, seq![StyleTarget::Workspace, StyleTarget::Group, StyleTarget::Window], Seq::<Seq<char>>::empty(), "Controls letter spacing where rendering consumes it."@),
        ("animation"@, SupportStatus::Full, seq![StyleTarget::Workspace, StyleTarget::Group, StyleTarget::Window], Seq::<Seq<char>>::empty(), "Animation shorthand that expands to the supported longhands."@),
        ("animation-name"@, SupportStatus::Full, seq![StyleTarget::Workspace, StyleTarget::Group, StyleTarget::Window], Seq::<Seq<char>>::empty(), "References one or more `@keyframes` blocks by name."@),
        ("animation-duration"@, SupportStatus::Full, seq![StyleTarget::Workspace, StyleTarget::Group, StyleTarget::Window], Seq::<Seq<char>>::empty(), "Sets animation durations."@),
        ("animation-timing-function"@, SupportStatus::Full, seq![StyleTarget::Workspace, StyleTarget::Group, StyleTarget::Window], Seq::<Seq<char>>::empty(), "Sets animation easing functions."@),
        ("animation-delay"@, SupportStatus::Full, seq![StyleTarget::Workspace, StyleTarget::Group, StyleTarget::Window], Seq::<Seq<char>>::empty(), "Sets animation delays."@),
        ("animation-iteration-count"@, SupportStatus::Full, seq![StyleTarget::Workspace, StyleTarget::Group, StyleTarget::Window], Seq::<Seq<char>>::empty(), "Sets how many times an animation repeats."@),
        ("animation-direction"@, SupportStatus::Full, seq![StyleTarget::Workspace, StyleTarget::Group, StyleTarget::Window], seq!["normal"@, "reverse"@, "alternate"@, "alternate-reverse"@], "Sets animation playback direction."@),
        ("animation-fill-mode"@, SupportStatus::Full, seq![StyleTarget::Workspace, StyleTarget::Group, StyleTarget::Window], seq!["none"@, "forwards"@, "backwards"@, "both"@], "Sets animation fill behavior before and after playback."@),
        ("animation-play-state"@, SupportStatus::Full, seq![StyleTarget::Workspace, StyleTarget::Group, StyleTarget::Window], seq!["running"@, "paused"@], "Sets whether animations are running or paused."@),
        ("transition"@, SupportStatus::Full, seq![StyleTarget::Workspace, StyleTarget::Group, StyleTarget::Window], Seq::<Seq<char>>::empty(), "Transition shorthand that expands to the supported longhands."@),
        ("transition-property"@, SupportStatus::Full, seq![StyleTarget::Workspace, StyleTarget::Group, StyleTarget::Window], Seq::<Seq<char>>::empty(), "Selects which properties transition."@),
        ("transition-duration"@, SupportStatus::Full, seq![StyleTarget::Workspace, StyleTarget::Group, StyleTarget::Window], Seq::<Seq<char>>::empty(), "Sets transition durations."@),
        ("transition-timing-function"@, SupportStatus::Full, seq![StyleTarget::Workspace, StyleTarget::Group, StyleTarget::Window], Seq::<Seq<char>>::empty(), "Sets transition easing functions."@),
        ("transition-delay"@, SupportStatus::Full, seq![StyleTarget::Workspace, StyleTarget::Group, StyleTarget::Window], Seq::<Seq<char>>::empty(), "Sets transition delays."@),
        ("transition-behavior"@, SupportStatus::Partial, seq![StyleTarget::Workspace, StyleTarget::Group, StyleTarget::Window], seq!["normal"@, "allow-discrete"@], "Accepted for compatibility but currently ignored by runtime compilation."@),
        ("flex-direction"@, SupportStatus::Full, seq![StyleTarget::Workspace, StyleTarget::Group, StyleTarget::Window], seq!["row"@, "row-reverse"@, "column"@, "column-reverse"@], "Controls the main axis direction for flex layout."@),
        ("flex-wrap"@, SupportStatus::Full, seq![StyleTarget::Workspace, StyleTarget::Group, StyleTarget::Window], seq!["nowrap"@, "wrap"@, "wrap-reverse"@], "Controls whether flex items wrap."@),
        ("flex-grow"@, SupportStatus::Full, seq![StyleTarget::Workspace, StyleTarget::Group, StyleTarget::Window], Seq::<Seq<char>>::empty(), "Controls flex growth contribution."@),
        ("flex-shrink"@, SupportStatus::Full, seq![StyleTarget::Workspace, StyleTarget::Group, StyleTarget::Window], Seq::<Seq<char>>::empty(), "Controls flex shrink contribution."@),
        ("flex-basis"@, SupportStatus::Full, seq![StyleTarget::Workspace, StyleTarget::Group, StyleTarget::Window], Seq::<Seq<char>>::empty(), "Sets the initial main-size basis for flex items."@),
        ("position"@, SupportStatus::Full, seq![StyleTarget::Workspace, StyleTarget::Group, StyleTarget::Window], seq!["relative"@, "absolute"@], "Controls normal or absolute positioning."@),
        ("inset"@, SupportStatus::Full, seq![StyleTarget::Workspace, StyleTarget::Group, StyleTarget::Window], Seq::<Seq<char>>::empty(), "Shorthand for absolute positioning offsets."@),
        ("top"@, SupportStatus::Full, seq![StyleTarget::Workspace, StyleTarget::Group, StyleTarget::Window], Seq::<Seq<char>>::empty(), "Sets the top offset for positioned elements."@),
        ("right"@, SupportStatus::Full, seq![StyleTarget::Workspace, StyleTarget::Group, StyleTarget::Window], Seq::<Seq<char>>::empty(), "Sets the right offset for positioned elements."@),
        ("bottom"@, SupportStatus::Full, seq![StyleTarget::Workspace, StyleTarget::Group, StyleTarget::Window], Seq::<Seq<char>>::empty(), "Sets the bottom offset for positioned elements."@),
        ("left"@, SupportStatus::Full, seq![StyleTarget::Workspace, StyleTarget::Group, StyleTarget::Window], Seq::<Seq<char>>::empty(), "Sets the left offset for positioned elements."@),
        ("overflow"@, SupportStatus::Full, seq![StyleTarget::Workspace, StyleTarget::Group, StyleTarget::Window], seq!["visible"@, "hidden"@, "scroll"@, "clip"@], "Controls overflow behavior on both axes."@),
        ("overflow-x"@, SupportStatus::Full, seq![StyleTarget::Workspace, StyleTarget::Group, StyleTarget::Window], seq!["visible"@, "hidden"@, "scroll"@, "clip"@], "Controls horizontal overflow behavior."@),
        ("overflow-y"@, SupportStatus::Full, seq![StyleTarget::Workspace, StyleTarget::Group, StyleTarget::Window], seq!["visible"@, "hidden"@, "scroll"@, "clip"@], "Controls vertical overflow behavior."@),
        ("width"@, SupportStatus::Full, seq![StyleTarget::Workspace, StyleTarget::Group, StyleTarget::Window], Seq::<Seq<char>>::empty(), "Sets preferred width."@),
        ("height"@, SupportStatus::Full, seq![StyleTarget::Workspace, StyleTarget::Group, StyleTarget::Window], Seq::<Seq<char>>::empty(), "Sets preferred height."@),
        ("min-width"@, SupportStatus::Full, seq![StyleTarget::Workspace, StyleTarget::Group, StyleTarget::Window], Seq::<Seq<char>>::empty(), "Sets the minimum width."@),
        ("min-height"@, SupportStatus::Full, seq![StyleTarget::Workspace, StyleTarget::Group, StyleTarget::Window], Seq::<Seq<char>>::empty(), "Sets the minimum height."@),
        ("max-width"@, SupportStatus::Full, seq![StyleTarget::Workspace, StyleTarget::Group, StyleTarget::Window], Seq::<Seq<char>>::empty(), "Sets the maximum width."@),
        ("max-height"@, SupportStatus::Full, seq![StyleTarget::Workspace, StyleTarget::Group, StyleTarget::Window], Seq::<Seq<char>>::empty(), "Sets the maximum height."@),
        ("align-items"@, SupportStatus::Full, seq![StyleTarget::Workspace, StyleTarget::Group, StyleTarget::Window], seq!["stretch"@, "start"@, "end"@, "center"@, "flex-start"@, "flex-end"@], "Controls item alignment within the container."@),
        ("align-self"@, SupportStatus::Full, seq![StyleTarget::Workspace, StyleTarget::Group, StyleTarget::Window], seq!["auto"@, "stretch"@, "start"@, "end"@, "center"@, "flex-start"@, "flex-end"@], "Overrides alignment for an individual item."@),
        ("justify-items"@, SupportStatus::Full, seq![StyleTarget::Workspace, StyleTarget::Group, StyleTarget::Window], seq!["stretch"@, "start"@, "end"@, "center"@], "Controls inline-axis item alignment."@),
        ("justify-self"@, SupportStatus::Full, seq![StyleTarget::Workspace, StyleTarget::Group, StyleTarget::Window], seq!["auto"@, "stretch"@, "start"@, "end"@, "center"@], "Overrides inline-axis alignment for an individual item."@),
        ("align-content"@, SupportStatus::Full, seq![StyleTarget::Workspace, StyleTarget::Group, StyleTarget::Window], seq!["stretch"@, "start"@, "end"@, "center"@, "space-between"@, "space-around"@, "space-evenly"@, "flex-start"@, "flex-end"@], "Controls distribution of lines or tracks on the block axis."@),
        ("justify-content"@, SupportStatus::Full, seq![StyleTarget::Workspace, StyleTarget::Group, StyleTarget::Window], seq!["stretch"@, "start"@, "end"@, "center"@, "space-between"@, "space-around"@, "space-evenly"@, "flex-start"@, "flex-end"@], "Controls distribution of lines or tracks on the inline axis."@),
        ("gap"@, SupportStatus::Full, seq![StyleTarget::Workspace, StyleTarget::Group, StyleTarget::Window], Seq::<Seq<char>>::empty(), "Sets row and column gaps between children."@),
        ("row-gap"@, SupportStatus::Full, seq![StyleTarget::Workspace, StyleTarget::Group, StyleTarget::Window], Seq::<Seq<char>>::empty(), "Sets vertical gaps between children."@),
        ("column-gap"@, SupportStatus::Full, seq![StyleTarget::Workspace, StyleTarget::Group, StyleTarget::Window], Seq::<Seq<char>>::empty(), "Sets horizontal gaps between children."@),
        ("grid-template-rows"@, SupportStatus::Full, seq![StyleTarget::Workspace, StyleTarget::Group, StyleTarget::Window], Seq::<Seq<char>>::empty(), "Defines explicit grid row tracks."@),
        ("grid-template-columns"@, SupportStatus::Full, seq![StyleTarget::Workspace, StyleTarget::Group, StyleTarget::Window], Seq::<Seq<char>>::empty(), "Defines explicit grid column tracks."@),
        ("grid-auto-rows"@, SupportStatus::Full, seq![StyleTarget::Workspace, StyleTarget::Group, StyleTarget::Window], Seq::<Seq<char>>::empty(), "Defines implicit grid row sizing."@),
        ("grid-auto-columns"@, SupportStatus::Full, seq![StyleTarget::Workspace, StyleTarget::Group, StyleTarget::Window], Seq::<Seq<char>>::empty(), "Defines implicit grid column sizing."@),
        ("grid-auto-flow"@, SupportStatus::Full, seq![StyleTarget::Workspace, StyleTarget::Group, StyleTarget::Window], seq!["row"@, "column"@, "dense"@, "row dense"@, "column dense"@], "Controls grid auto-placement direction."@),
        ("grid-template-areas"@, SupportStatus::Full, seq![StyleTarget::Workspace, StyleTarget::Group, StyleTarget::Window], Seq::<Seq<char>>::empty(), "Defines named grid areas."@),
        ("grid-row"@, SupportStatus::Full, seq![StyleTarget::Workspace, StyleTarget::Group, StyleTarget::Window], Seq::<Seq<char>>::empty(), "Places an item across grid row lines."@),
        ("grid-column"@, SupportStatus::Full, seq![StyleTarget::Workspace, StyleTarget::Group, StyleTarget::Window], Seq::<Seq<char>>::empty(), "Places an item across grid column lines."@),
        ("grid-row-start"@, SupportStatus::Full, seq![StyleTarget::Workspace, StyleTarget::Group, StyleTarget::Window], Seq::<Seq<char>>::empty(), "Sets the starting grid row line."@),
        ("grid-row-end"@, SupportStatus::Full, seq![StyleTarget::Workspace, StyleTarget::Group, StyleTarget::Window], Seq::<Seq<char>>::empty(), "Sets the ending grid row line."@),
        ("grid-column-start"@, SupportStatus::Full, seq![StyleTarget::Workspace, StyleTarget::Group, StyleTarget::Window], Seq::<Seq<char>>::empty(), "Sets the starting grid column line."@),
        ("grid-column-end"@, SupportStatus::Full, seq![StyleTarget::Workspace, StyleTarget::Group, StyleTarget::Window], Seq::<Seq<char>>::empty(), "Sets the ending grid column line."@),
        ("border-width"@, SupportStatus::Partial, seq![StyleTarget::Window], Seq::<Seq<char>>::empty(), "Sets compositor-consumed border widths where supported."@),
        ("border-top-width"@, SupportStatus::Partial, seq![StyleTarget::Window], Seq::<Seq<char>>::empty(), "Sets the top border width where compositor rendering consumes it."@),
        ("border-right-width"@, SupportStatus::Partial, seq![StyleTarget::Window], Seq::<Seq<char>>::empty(), "Sets the right border width where compositor rendering consumes it."@),
        ("border-bottom-width"@, SupportStatus::Partial, seq![StyleTarget::Window], Seq::<Seq<char>>::empty(), "Sets the bottom border width where compositor rendering consumes it."@),
        ("border-left-width"@, SupportStatus::Partial, seq![StyleTarget::Window], Seq::<Seq<char>>::empty(), "Sets the left border width where compositor rendering consumes it."@),
        ("border-top-color"@, SupportStatus::Partial, seq![StyleTarget::Window], Seq::<Seq<char>>::empty(), "Sets the top border color where compositor rendering consumes it."@),
        ("border-right-color"@, SupportStatus::Partial, seq![StyleTarget::Window], Seq::<Seq<char>>::empty(), "Sets the right border color where compositor rendering consumes it."@),
        ("border-bottom-color"@, SupportStatus::Partial, seq![StyleTarget::Window], Seq::<Seq<char>>::empty(), "Sets the bottom border color where compositor rendering consumes it."@),
        ("border-left-color"@, SupportStatus::Partial, seq![StyleTarget::Window], Seq::<Seq<char>>::empty(), "Sets the left border color where compositor rendering consumes it."@),
        ("border-top-style"@, SupportStatus::Partial, seq![StyleTarget::Window], Seq::<Seq<char>>::empty(), "Sets the top border style where compositor rendering consumes it."@),
        ("border-right-style"@, SupportStatus::Partial, seq![StyleTarget::Window], Seq::<Seq<char>>::empty(), "Sets the right border style where compositor rendering consumes it."@),
        ("border-bottom-style"@, SupportStatus::Partial, seq![StyleTarget::Window], Seq::<Seq<char>>::empty(), "Sets the bottom border style where compositor rendering consumes it."@),
        ("border-left-style"@, SupportStatus::Partial, seq![StyleTarget::Window], Seq::<Seq<char>>::empty(), "Sets the left border style where compositor rendering consumes it."@),
        ("padding"@, SupportStatus::Full, seq![StyleTarget::Workspace, StyleTarget::Group, StyleTarget::Window], Seq::<Seq<char>>::empty(), "Sets padding on all four sides."@),
        ("padding-top"@, SupportStatus::Full, seq![StyleTarget::Workspace, StyleTarget::Group, StyleTarget::Window], Seq::<Seq<char>>::empty(), "Sets top padding."@),
        ("padding-right"@, SupportStatus::Full, seq![StyleTarget::Workspace, StyleTarget::Group, StyleTarget::Window], Seq::<Seq<char>>::empty(), "Sets right padding."@),
        ("padding-bottom"@, SupportStatus::Full, seq![StyleTarget::Workspace, StyleTarget::Group, StyleTarget::Window], Seq::<Seq<char>>::empty(), "Sets bottom padding."@),
        ("padding-left"@, SupportStatus::Full, seq![StyleTarget::Workspace, StyleTarget::Group, StyleTarget::Window], Seq::<Seq<char>>::empty(), "Sets left padding."@),
        ("margin"@, SupportStatus::Full, seq![StyleTarget::Workspace, StyleTarget::Group, StyleTarget::Window], Seq::<Seq<char>>::empty(), "Sets margins on all four sides."@),
        ("margin-top"@, SupportStatus::Full, seq![StyleTarget::Workspace, StyleTarget::Group, StyleTarget::Window], Seq::<Seq<char>>::empty(), "Sets top margin."@),
        ("margin-right"@, SupportStatus::Full, seq![StyleTarget::Workspace, StyleTarget::Group, StyleTarget::Window], Seq::<Seq<char>>::empty(), "Sets right margin."@),
        ("margin-bottom"@, SupportStatus::Full, seq![StyleTarget::Workspace, StyleTarget::Group, StyleTarget::Window], Seq::<Seq<char>>::empty(), "Sets bottom margin."@),
        ("margin-left"@, SupportStatus::Full, seq![StyleTarget::Workspace, StyleTarget::Group, StyleTarget::Window], Seq::<Seq<char>>::empty(), "Sets left margin."@),
    ]
}

pub fn property_specs() -> (r: Vec<PropertySpec>)
    ensures
        r@.map_values(|p: PropertySpec| property_view(p)) == property_table(),
{
    let ghost table = property_table();
    let mut specs: Vec<PropertySpec> = Vec::new();
    specs.push(PropertySpec { name: "display", status: SupportStatus::Full, applies_to: all_element_targets(), value_keywords: display_keywords(), hover: "Controls element participation in layout." });
    assert(specs@.map_values(|p: PropertySpec| property_view(p)) =~= table.take(1));
    specs.push(PropertySpec { name: "box-sizing", status: SupportStatus::Full, applies_to: all_element_targets(), value_keywords: box_sizing_keywords(), hover: "Controls whether declared sizes include border and padding." });
    assert(specs@.map_values(|p: PropertySpec| property_view(p)) =~= table.take(2));
    specs.push(PropertySpec { name: "aspect-ratio", status: SupportStatus::Full, applies_to: all_element_targets(), value_keywords: no_keywords(), hover: "Sets a preferred width-to-height ratio for layout sizing." });
    assert(specs@.map_values(|p: PropertySpec| property_view(p)) =~= table.take(3));
    specs.push(PropertySpec { name: "appearance", status: SupportStatus::Partial, applies_to: window_only_targets(), value_keywords: appearance_keywords(), hover: "Controls window decoration behavior for windows." });
    assert(specs@.map_values(|p: PropertySpec| property_view(p)) =~= table.take(4));
    specs.push(PropertySpec { name: "background", status: SupportStatus::Partial, applies_to: window_only_targets(), value_keywords: no_keywords(), hover: "Sets a solid background color where compositor rendering consumes it." });
    assert(specs@.map_values(|p: PropertySpec| property_view(p)) =~= table.take(5));
    specs.push(PropertySpec { name: "background-color", status: SupportStatus::Partial, applies_to: window_only_targets(), value_keywords: no_keywords(), hover: "Sets a solid background color where compositor rendering consumes it." });
    assert(specs@.map_values(|p: PropertySpec| property_view(p)) =~= table.take(6));
    specs.push(PropertySpec { name: "color", status: SupportStatus::Partial, applies_to: window_only_targets(), value_keywords: no_keywords(), hover: "Sets compositor-rendered text color where supported." });
    assert(specs@.map_values(|p: PropertySpec| property_view(p)) =~= table.take(7));
    specs.push(PropertySpec { name: "opacity", status: SupportStatus::Partial, applies_to: window_only_targets(), value_keywords: no_keywords(), hover: "Controls compositor-managed opacity effects where currently implemented." });
    assert(specs@.map_values(|p: PropertySpec| property_view(p)) =~= table.take(8));
    specs.push(PropertySpec { name: "border-color", status: SupportStatus::Partial, applies_to: window_only_targets(), value_keywords: no_keywords(), hover: "Sets compositor-consumed border color where supported." });
    assert(specs@.map_values(|p: PropertySpec| property_view(p)) =~= table.take(9));
    specs.push(PropertySpec { name: "border-style", status: SupportStatus::Partial, applies_to: window_only_targets(), value_keywords: no_keywords(), hover: "Controls compositor border edge visibility where supported." });
    assert(specs@.map_values(|p: PropertySpec| property_view(p)) =~= table.take(10));
    specs.push(PropertySpec { name: "border-radius", status: SupportStatus::Partial, applies_to: window_only_targets(), value_keywords: no_keywords(), hover: "Controls rounded window corners where compositor rendering consumes it." });
    assert(specs@.map_values(|p: PropertySpec| property_view(p)) =~= table.take(11));
    specs.push(PropertySpec { name: "box-shadow", status: SupportStatus::Partial, applies_to: window_only_targets(), value_keywords: no_keywords(), hover: "Controls compositor shadow rendering where supported." });
    assert(specs@.map_values(|p: PropertySpec| property_view(p)) =~= table.take(12));
    specs.push(PropertySpec { name: "backdrop-filter", status: SupportStatus::Planned, applies_to: window_only_targets(), value_keywords: no_keywords(), hover: "Reserved for future compositor backdrop effects." });
    assert(specs@.map_values(|p: PropertySpec| property_view(p)) =~= table.take(13));
    specs.push(PropertySpec { name: "transform", status: SupportStatus::Partial, applies_to: all_style_targets(), value_keywords: no_keywords(), hover: "Applies typed transform operations, with runtime support currently partial." });
    assert(specs@.map_values(|p: PropertySpec| property_view(p)) =~= table.take(14));
    specs.push(PropertySpec { name: "text-align", status: SupportStatus::Partial, applies_to: all_style_targets(), value_keywords: text_align_keywords(), hover: "Controls text alignment where rendering consumes it." });
    assert(specs@.map_values(|p: PropertySpec| property_view(p)) =~= table.take(15));
    specs.push(PropertySpec { name: "text-transform", status: SupportStatus::Partial, applies_to: all_style_targets(), value_keywords: text_transform_keywords(), hover: "Controls text casing where rendering consumes it." });
    assert(specs@.map_values(|p: PropertySpec| property_view(p)) =~= table.take(16));
    specs.push(PropertySpec { name: "font-family", status: SupportStatus::Partial, applies_to: all_style_targets(), value_keywords: no_keywords(), hover: "Controls font family selection where rendering consumes it." });
    assert(specs@.map_values(|p: PropertySpec| property_view(p)) =~= table.take(17));
    specs.push(PropertySpec { name: "font-size", status: SupportStatus::Partial, applies_to: all_style_targets(), value_keywords: no_keywords(), hover: "Controls font size where rendering consumes it." });
    assert(specs@.map_values(|p: PropertySpec| property_view(p)) =~= table.take(18));
    specs.push(PropertySpec { name: "font-weight", status: SupportStatus::Partial, applies_to: all_style_targets(), value_keywords: no_keywords(), hover: "Controls font weight where rendering consumes it." });
    assert(specs@.map_values(|p: PropertySpec| property_view(p)) =~= table.take(19));
    specs.push(PropertySpec { name: "letter-spacing", status: SupportStatus::Partial, applies_to: all_style_targets(), value_keywords: no_keywords(), hover: "Controls letter spacing where rendering consumes it." });
    assert(specs@.map_values(|p: PropertySpec| property_view(p)) =~= table.take(20));
    specs.push(PropertySpec { name: "animation", status: SupportStatus::Full, applies_to: all_style_targets(), value_keywords: no_keywords(), hover: "Animation shorthand that expands to the supported longhands." });
    assert(specs@.map_values(|p: PropertySpec| property_view(p)) =~= table.take(21));
    specs.push(PropertySpec { name: "animation-name", status: SupportStatus::Full, applies_to: all_style_targets(), value_keywords: no_keywords(), hover: "References one or more `@keyframes` blocks by name." });
    assert(specs@.map_values(|p: PropertySpec| property_view(p)) =~= table.take(22));
    specs.push(PropertySpec { name: "animation-duration", status: SupportStatus::Full, applies_to: all_style_targets(), value_keywords: no_keywords(), hover: "Sets animation durations." });
    assert(specs@.map_values(|p: PropertySpec| property_view(p)) =~= table.take(23));
    specs.push(PropertySpec { name: "animation-timing-function", status: SupportStatus::Full, applies_to: all_style_targets(), value_keywords: no_keywords(), hover: "Sets animation easing functions." });
    assert(specs@.map_values(|p: PropertySpec| property_view(p)) =~= table.take(24));
    specs.push(PropertySpec { name: "animation-delay", status: SupportStatus::Full, applies_to: all_style_targets(), value_keywords: no_keywords(), hover: "Sets animation delays." });
    assert(specs@.map_values(|p: PropertySpec| property_view(p)) =~= table.take(25));
    specs.push(PropertySpec { name: "animation-iteration-count", status: SupportStatus::Full, applies_to: all_style_targets(), value_keywords: no_keywords(), hover: "Sets how many times an animation repeats." });
    assert(specs@.map_values(|p: PropertySpec| property_view(p)) =~= table.take(26));
    specs.push(PropertySpec { name: "animation-direction", status: SupportStatus::Full, applies_to: all_style_targets(), value_keywords: animation_direction_keywords(), hover: "Sets animation playback direction." });
    assert(specs@.map_values(|p: PropertySpec| property_view(p)) =~= table.take(27));
    specs.push(PropertySpec { name: "animation-fill-mode", status: SupportStatus::Full, applies_to: all_style_targets(), value_keywords: animation_fill_mode_keywords(), hover: "Sets animation fill behavior before and after playback." });
    assert(specs@.map_values(|p: PropertySpec| property_view(p)) =~= table.take(28));
    specs.push(PropertySpec { name: "animation-play-state", status: SupportStatus::Full, applies_to: all_style_targets(), value_keywords: animation_play_state_keywords(), hover: "Sets whether animations are running or paused." });
    assert(specs@.map_values(|p: PropertySpec| property_view(p)) =~= table.take(29));
    specs.push(PropertySpec { name: "transition", status: SupportStatus::Full, applies_to: all_style_targets(), value_keywords: no_keywords(), hover: "Transition shorthand that expands to the supported longhands." });
    assert(specs@.map_values(|p: PropertySpec| property_view(p)) =~= table.take(30));
    specs.push(PropertySpec { name: "transition-property", status: SupportStatus::Full, applies_to: all_style_targets(), value_keywords: no_keywords(), hover: "Selects which properties transition." });
    assert(specs@.map_values(|p: PropertySpec| property_view(p)) =~= table.take(31));
    specs.push(PropertySpec { name: "transition-duration", status: SupportStatus::Full, applies_to: all_style_targets(), value_keywords: no_keywords(), hover: "Sets transition durations." });
    assert(specs@.map_values(|p: PropertySpec| property_view(p)) =~= table.take(32));
    specs.push(PropertySpec { name: "transition-timing-function", status: SupportStatus::Full, applies_to: all_style_targets(), value_keywords: no_keywords(), hover: "Sets transition easing functions." });
    assert(specs@.map_values(|p: PropertySpec| property_view(p)) =~= table.take(33));
    specs.push(PropertySpec { name: "transition-delay", status: SupportStatus::Full, applies_to: all_style_targets(), value_keywords: no_keywords(), hover: "Sets transition delays." });
    assert(specs@.map_values(|p: PropertySpec| property_view(p)) =~= table.take(34));
    specs.push(PropertySpec { name: "transition-behavior", status: SupportStatus::Partial, applies_to: all_style_targets(), value_keywords: transition_behavior_keywords(), hover: "Accepted for compatibility but currently ignored by runtime compilation." });
    assert(specs@.map_values(|p: PropertySpec| property_view(p)) =~= table.take(35));
    specs.push(PropertySpec { name: "flex-direction", status: SupportStatus::Full, applies_to: all_element_targets(), value_keywords: flex_direction_keywords(), hover: "Controls the main axis direction for flex layout." });
    assert(specs@.map_values(|p: PropertySpec| property_view(p)) =~= table.take(36));
    specs.push(PropertySpec { name: "flex-wrap", status: SupportStatus::Full, applies_to: all_element_targets(), value_keywords: flex_wrap_keywords(), hover: "Controls whether flex items wrap." });
    assert(specs@.map_values(|p: PropertySpec| property_view(p)) =~= table.take(37));
    specs.push(PropertySpec { name: "flex-grow", status: SupportStatus::Full, applies_to: all_element_targets(), value_keywords: no_keywords(), hover: "Controls flex growth contribution." });
    assert(specs@.map_values(|p: PropertySpec| property_view(p)) =~= table.take(38));
    specs.push(PropertySpec { name: "flex-shrink", status: SupportStatus::Full, applies_to: all_element_targets(), value_keywords: no_keywords(), hover: "Controls flex shrink contribution." });
    assert(specs@.map_values(|p: PropertySpec| property_view(p)) =~= table.take(39));
    specs.push(PropertySpec { name: "flex-basis", status: SupportStatus::Full, applies_to: all_element_targets(), value_keywords: no_keywords(), hover: "Sets the initial main-size basis for flex items." });
    assert(specs@.map_values(|p: PropertySpec| property_view(p)) =~= table.take(40));
    specs.push(PropertySpec { name: "position", status: SupportStatus::Full, applies_to: all_element_targets(), value_keywords: position_keywords(), hover: "Controls normal or absolute positioning." });
    assert(specs@.map_values(|p: PropertySpec| property_view(p)) =~= table.take(41));
    specs.push(PropertySpec { name: "inset", status: SupportStatus::Full, applies_to: all_element_targets(), value_keywords: no_keywords(), hover: "Shorthand for absolute positioning offsets." });
    assert(specs@.map_values(|p: PropertySpec| property_view(p)) =~= table.take(42));
    specs.push(PropertySpec { name: "top", status: SupportStatus::Full, applies_to: all_element_targets(), value_keywords: no_keywords(), hover: "Sets the top offset for positioned elements." });
    assert(specs@.map_values(|p: PropertySpec| property_view(p)) =~= table.take(43));
    specs.push(PropertySpec { name: "right", status: SupportStatus::Full, applies_to: all_element_targets(), value_keywords: no_keywords(), hover: "Sets the right offset for positioned elements." });
    assert(specs@.map_values(|p: PropertySpec| property_view(p)) =~= table.take(44));
    specs.push(PropertySpec { name: "bottom", status: SupportStatus::Full, applies_to: all_element_targets(), value_keywords: no_keywords(), hover: "Sets the bottom offset for positioned elements." });
    assert(specs@.map_values(|p: PropertySpec| property_view(p)) =~= table.take(45));
    specs.push(PropertySpec { name: "left", status: SupportStatus::Full, applies_to: all_element_targets(), value_keywords: no_keywords(), hover: "Sets the left offset for positioned elements." });
    assert(specs@.map_values(|p: PropertySpec| property_view(p)) =~= table.take(46));
    specs.push(PropertySpec { name: "overflow", status: SupportStatus::Full, applies_to: all_element_targets(), value_keywords: overflow_keywords(), hover: "Controls overflow behavior on both axes." });
    assert(specs@.map_values(|p: PropertySpec| property_view(p)) =~= table.take(47));
    specs.push(PropertySpec { name: "overflow-x", status: SupportStatus::Full, applies_to: all_element_targets(), value_keywords: overflow_keywords(), hover: "Controls horizontal overflow behavior." });
    assert(specs@.map_values(|p: PropertySpec| property_view(p)) =~= table.take(48));
    specs.push(PropertySpec { name: "overflow-y", status: SupportStatus::Full, applies_to: all_element_targets(), value_keywords: overflow_keywords(), hover: "Controls vertical overflow behavior." });
    assert(specs@.map_values(|p: PropertySpec| property_view(p)) =~= table.take(49));
    specs.push(PropertySpec { name: "width", status: SupportStatus::Full, applies_to: all_style_targets(), value_keywords: no_keywords(), hover: "Sets preferred width." });
    assert(specs@.map_values(|p: PropertySpec| property_view(p)) =~= table.take(50));
    specs.push(PropertySpec { name: "height", status: SupportStatus::Full, applies_to: all_style_targets(), value_keywords: no_keywords(), hover: "Sets preferred height." });
    assert(specs@.map_values(|p: PropertySpec| property_view(p)) =~= table.take(51));
    specs.push(PropertySpec { name: "min-width", status: SupportStatus::Full, applies_to: all_element_targets(), value_keywords: no_keywords(), hover: "Sets the minimum width." });
    assert(specs@.map_values(|p: PropertySpec| property_view(p)) =~= table.take(52));
    specs.push(PropertySpec { name: "min-height", status: SupportStatus::Full, applies_to: all_element_targets(), value_keywords: no_keywords(), hover: "Sets the minimum height." });
    assert(specs@.map_values(|p: PropertySpec| property_view(p)) =~= table.take(53));
    specs.push(PropertySpec { name: "max-width", status: SupportStatus::Full, applies_to: all_element_targets(), value_keywords: no_keywords(), hover: "Sets the maximum width." });
    assert(specs@.map_values(|p: PropertySpec| property_view(p)) =~= table.take(54));
    specs.push(PropertySpec { name: "max-height", status: SupportStatus::Full, applies_to: all_element_targets(), value_keywords: no_keywords(), hover: "Sets the maximum height." });
    assert(specs@.map_values(|p: PropertySpec| property_view(p)) =~= table.take(55));
    specs.push(PropertySpec { name: "align-items", status: SupportStatus::Full, applies_to: all_element_targets(), value_keywords: align_items_keywords(), hover: "Controls item alignment within the container." });
    assert(specs@.map_values(|p: PropertySpec| property_view(p)) =~= table.take(56));
    specs.push(PropertySpec { name: "align-self", status: SupportStatus::Full, applies_to: all_element_targets(), value_keywords: align_self_keywords(), hover: "Overrides alignment for an individual item." });
    assert(specs@.map_values(|p: PropertySpec| property_view(p)) =~= table.take(57));
    specs.push(PropertySpec { name: "justify-items", status: SupportStatus::Full, applies_to: all_element_targets(), value_keywords: justify_items_keywords(), hover: "Controls inline-axis item alignment." });
    assert(specs@.map_values(|p: PropertySpec| property_view(p)) =~= table.take(58));
    specs.push(PropertySpec { name: "justify-self", status: SupportStatus::Full, applies_to: all_element_targets(), value_keywords: justify_self_keywords(), hover: "Overrides inline-axis alignment for an individual item." });
    assert(specs@.map_values(|p: PropertySpec| property_view(p)) =~= table.take(59));
    specs.push(PropertySpec { name: "align-content", status: SupportStatus::Full, applies_to: all_element_targets(), value_keywords: align_content_keywords(), hover: "Controls distribution of lines or tracks on the block axis." });
    assert(specs@.map_values(|p: PropertySpec| property_view(p)) =~= table.take(60));
    specs.push(PropertySpec { name: "justify-content", status: SupportStatus::Full, applies_to: all_element_targets(), value_keywords: justify_content_keywords(), hover: "Controls distribution of lines or tracks on the inline axis." });
    assert(specs@.map_values(|p: PropertySpec| property_view(p)) =~= table.take(61));
    specs.push(PropertySpec { name: "gap", status: SupportStatus::Full, applies_to: all_element_targets(), value_keywords: no_keywords(), hover: "Sets row and column gaps between children." });
    assert(specs@.map_values(|p: PropertySpec| property_view(p)) =~= table.take(62));
    specs.push(PropertySpec { name: "row-gap", status: SupportStatus::Full, applies_to: all_element_targets(), value_keywords: no_keywords(), hover: "Sets vertical gaps between children." });
    assert(specs@.map_values(|p: PropertySpec| property_view(p)) =~= table.take(63));
    specs.push(PropertySpec { name: "column-gap", status: SupportStatus::Full, applies_to: all_element_targets(), value_keywords: no_keywords(), hover: "Sets horizontal gaps between children." });
    assert(specs@.map_values(|p: PropertySpec| property_view(p)) =~= table.take(64));
    specs.push(PropertySpec { name: "grid-template-rows", status: SupportStatus::Full, applies_to: all_element_targets(), value_keywords: no_keywords(), hover: "Defines explicit grid row tracks." });
    assert(specs@.map_values(|p: PropertySpec| property_view(p)) =~= table.take(65));
    specs.push(PropertySpec { name: "grid-template-columns", status: SupportStatus::Full, applies_to: all_element_targets(), value_keywords: no_keywords(), hover: "Defines explicit grid column tracks." });
    assert(specs@.map_values(|p: PropertySpec| property_view(p)) =~= table.take(66));
    specs.push(PropertySpec { name: "grid-auto-rows", status: SupportStatus::Full, applies_to: all_element_targets(), value_keywords: no_keywords(), hover: "Defines implicit grid row sizing." });
    assert(specs@.map_values(|p: PropertySpec| property_view(p)) =~= table.take(67));
    specs.push(PropertySpec { name: "grid-auto-columns", status: SupportStatus::Full, applies_to: all_element_targets(), value_keywords: no_keywords(), hover: "Defines implicit grid column sizing." });
    assert(specs@.map_values(|p: PropertySpec| property_view(p)) =~= table.take(68));
    specs.push(PropertySpec { name: "grid-auto-flow", status: SupportStatus::Full, applies_to: all_element_targets(), value_keywords: grid_auto_flow_keywords(), hover: "Controls grid auto-placement direction." });
    assert(specs@.map_values(|p: PropertySpec| property_view(p)) =~= table.take(69));
    specs.push(PropertySpec { name: "grid-template-areas", status: SupportStatus::Full, applies_to: all_element_targets(), value_keywords: no_keywords(), hover: "Defines named grid areas." });
    assert(specs@.map_values(|p: PropertySpec| property_view(p)) =~= table.take(70));
    specs.push(PropertySpec { name: "grid-row", status: SupportStatus::Full, applies_to: all_element_targets(), value_keywords: no_keywords(), hover: "Places an item across grid row lines." });
    assert(specs@.map_values(|p: PropertySpec| property_view(p)) =~= table.take(71));
    specs.push(PropertySpec { name: "grid-column", status: SupportStatus::Full, applies_to: all_element_targets(), value_keywords: no_keywords(), hover: "Places an item across grid column lines." });
    assert(specs@.map_values(|p: PropertySpec| property_view(p)) =~= table.take(72));
    specs.push(PropertySpec { name: "grid-row-start", status: SupportStatus::Full, applies_to: all_element_targets(), value_keywords: no_keywords(), hover: "Sets the starting grid row line." });
    assert(specs@.map_values(|p: PropertySpec| property_view(p)) =~= table.take(73));
    specs.push(PropertySpec { name: "grid-row-end", status: SupportStatus::Full, applies_to: all_element_targets(), value_keywords: no_keywords(), hover: "Sets the ending grid row line." });
    assert(specs@.map_values(|p: PropertySpec| property_view(p)) =~= table.take(74));
    specs.push(PropertySpec { name: "grid-column-start", status: SupportStatus::Full, applies_to: all_element_targets(), value_keywords: no_keywords(), hover: "Sets the starting grid column line." });
    assert(specs@.map_values(|p: PropertySpec| property_view(p)) =~= table.take(75));
    specs.push(PropertySpec { name: "grid-column-end", status: SupportStatus::Full, applies_to: all_element_targets(), value_keywords: no_keywords(), hover: "Sets the ending grid column line." });
    assert(specs@.map_values(|p: PropertySpec| property_view(p)) =~= table.take(76));
    specs.push(PropertySpec { name: "border-width", status: SupportStatus::Partial, applies_to: window_only_targets(), value_keywords: no_keywords(), hover: "Sets compositor-consumed border widths where supported." });
    assert(specs@.map_values(|p: PropertySpec| property_view(p)) =~= table.take(77));
    specs.push(PropertySpec { name: "border-top-width", status: SupportStatus::Partial, applies_to: window_only_targets(), value_keywords: no_keywords(), hover: "Sets the top border width where compositor rendering consumes it." });
    assert(specs@.map_values(|p: PropertySpec| property_view(p)) =~= table.take(78));
    specs.push(PropertySpec { name: "border-right-width", status: SupportStatus::Partial, applies_to: window_only_targets(), value_keywords: no_keywords(), hover: "Sets the right border width where compositor rendering consumes it." });
    assert(specs@.map_values(|p: PropertySpec| property_view(p)) =~= table.take(79));
    specs.push(PropertySpec { name: "border-bottom-width", status: SupportStatus::Partial, applies_to: window_only_targets(), value_keywords: no_keywords(), hover: "Sets the bottom border width where compositor rendering consumes it." });
    assert(specs@.map_values(|p: PropertySpec| property_view(p)) =~= table.take(80));
    specs.push(PropertySpec { name: "border-left-width", status: SupportStatus::Partial, applies_to: window_only_targets(), value_keywords: no_keywords(), hover: "Sets the left border width where compositor rendering consumes it." });
    assert(specs@.map_values(|p: PropertySpec| property_view(p)) =~= table.take(81));
    specs.push(PropertySpec { name: "border-top-color", status: SupportStatus::Partial, applies_to: window_only_targets(), value_keywords: no_keywords(), hover: "Sets the top border color where compositor rendering consumes it." });
    assert(specs@.map_values(|p: PropertySpec| property_view(p)) =~= table.take(82));
    specs.push(PropertySpec { name: "border-right-color", status: SupportStatus::Partial, applies_to: window_only_targets(), value_keywords: no_keywords(), hover: "Sets the right border color where compositor rendering consumes it." });
    assert(specs@.map_values(|p: PropertySpec| property_view(p)) =~= table.take(83));
    specs.push(PropertySpec { name: "border-bottom-color", status: SupportStatus::Partial, applies_to: window_only_targets(), value_keywords: no_keywords(), hover: "Sets the bottom border color where compositor rendering consumes it." });
    assert(specs@.map_values(|p: PropertySpec| property_view(p)) =~= table.take(84));
    specs.push(PropertySpec { name: "border-left-color", status: SupportStatus::Partial, applies_to: window_only_targets(), value_keywords: no_keywords(), hover: "Sets the left border color where compositor rendering consumes it." });
    assert(specs@.map_values(|p: PropertySpec| property_view(p)) =~= table.take(85));
    specs.push(PropertySpec { name: "border-top-style", status: SupportStatus::Partial, applies_to: window_only_targets(), value_keywords: no_keywords(), hover: "Sets the top border style where compositor rendering consumes it." });
    assert(specs@.map_values(|p: PropertySpec| property_view(p)) =~= table.take(86));
    specs.push(PropertySpec { name: "border-right-style", status: SupportStatus::Partial, applies_to: window_only_targets(), value_keywords: no_keywords(), hover: "Sets the right border style where compositor rendering consumes it." });
    assert(specs@.map_values(|p: PropertySpec| property_view(p)) =~= table.take(87));
    specs.push(PropertySpec { name: "border-bottom-style", status: SupportStatus::Partial, applies_to: window_only_targets(), value_keywords: no_keywords(), hover: "Sets the bottom border style where compositor rendering consumes it." });
    assert(specs@.map_values(|p: PropertySpec| property_view(p)) =~= table.take(88));
    specs.push(PropertySpec { name: "border-left-style", status: SupportStatus::Partial, applies_to: window_only_targets(), value_keywords: no_keywords(), hover: "Sets the left border style where compositor rendering consumes it." });
    assert(specs@.map_values(|p: PropertySpec| property_view(p)) =~= table.take(89));
    specs.push(PropertySpec { name: "padding", status: SupportStatus::Full, applies_to: all_style_targets(), value_keywords: no_keywords(), hover: "Sets padding on all four sides." });
    assert(specs@.map_values(|p: PropertySpec| property_view(p)) =~= table.take(90));
    specs.push(PropertySpec { name: "padding-top", status: SupportStatus::Full, applies_to: all_style_targets(), value_keywords: no_keywords(), hover: "Sets top padding." });
    assert(specs@.map_values(|p: PropertySpec| property_view(p)) =~= table.take(91));
    specs.push(PropertySpec { name: "padding-right", status: SupportStatus::Full, applies_to: all_style_targets(), value_keywords: no_keywords(), hover: "Sets right padding." });
    assert(specs@.map_values(|p: PropertySpec| property_view(p)) =~= table.take(92));
    specs.push(PropertySpec { name: "padding-bottom", status: SupportStatus::Full, applies_to: all_style_targets(), value_keywords: no_keywords(), hover: "Sets bottom padding." });
    assert(specs@.map_values(|p: PropertySpec| property_view(p)) =~= table.take(93));
    specs.push(PropertySpec { name: "padding-left", status: SupportStatus::Full, applies_to: all_style_targets(), value_keywords: no_keywords(), hover: "Sets left padding." });
    assert(specs@.map_values(|p: PropertySpec| property_view(p)) =~= table.take(94));
    specs.push(PropertySpec { name: "margin", status: SupportStatus::Full, applies_to: all_element_targets(), value_keywords: no_keywords(), hover: "Sets margins on all four sides." });
    assert(specs@.map_values(|p: PropertySpec| property_view(p)) =~= table.take(95));
    specs.push(PropertySpec { name: "margin-top", status: SupportStatus::Full, applies_to: all_element_targets(), value_keywords: no_keywords(), hover: "Sets top margin." });
    assert(specs@.map_values(|p: PropertySpec| property_view(p)) =~= table.take(96));
    specs.push(PropertySpec { name: "margin-right", status: SupportStatus::Full, applies_to: all_element_targets(), value_keywords: no_keywords(), hover: "Sets right margin." });
    assert(specs@.map_values(|p: PropertySpec| property_view(p)) =~= table.take(97));
    specs.push(PropertySpec { name: "margin-bottom", status: SupportStatus::Full, applies_to: all_element_targets(), value_keywords: no_keywords(), hover: "Sets bottom margin." });
    assert(specs@.map_values(|p: PropertySpec| property_view(p)) =~= table.take(98));
    specs.push(PropertySpec { name: "margin-left", status: SupportStatus::Full, applies_to: all_element_targets(), value_keywords: no_keywords(), hover: "Sets left margin." });
    assert(specs@.map_values(|p: PropertySpec| property_view(p)) =~= table.take(99));
    assert(table.take(99) =~= table);
    specs
}

/// Every supported attribute key.
pub open spec fn attribute_key_table() -> Seq<(Seq<char>, Seq<SelectorTarget>, Seq<char>)> {
    seq![
        ("app_id"@, seq![SelectorTarget::Window], "Matches a window's app_id metadata exactly."@),
        ("title"@, seq![SelectorTarget::Window], "Matches a window's title metadata exactly."@),
        ("class"@, seq![SelectorTarget::Window], "Matches a window's class metadata exactly."@),
        ("instance"@, seq![SelectorTarget::Window], "Matches a window's instance metadata exactly."@),
        ("role"@, seq![SelectorTarget::Window], "Matches a window's role metadata exactly."@),
        ("shell"@, seq![SelectorTarget::Window], "Matches a window's shell metadata exactly."@),
        ("window_type"@, seq![SelectorTarget::Window], "Matches a window's window_type metadata exactly."@),
    ]
}

pub fn attribute_key_specs() -> (r: Vec<AttributeKeySpec>)
    ensures
        r@.map_values(|a: AttributeKeySpec| attribute_key_view(a)) == attribute_key_table(),
{
    let ghost table = attribute_key_table();
    let mut specs: Vec<AttributeKeySpec> = Vec::new();
    specs.push(AttributeKeySpec { name: "app_id", targets: window_selector_target(), hover: "Matches a window's app_id metadata exactly." });
    assert(specs@.map_values(|a: AttributeKeySpec| attribute_key_view(a)) =~= table.take(1));
    specs.push(AttributeKeySpec { name: "title", targets: window_selector_target(), hover: "Matches a window's title metadata exactly." });
    assert(specs@.map_values(|a: AttributeKeySpec| attribute_key_view(a)) =~= table.take(2));
    specs.push(AttributeKeySpec { name: "class", targets: window_selector_target(), hover: "Matches a window's class metadata exactly." });
    assert(specs@.map_values(|a: AttributeKeySpec| attribute_key_view(a)) =~= table.take(3));
    specs.push(AttributeKeySpec { name: "instance", targets: window_selector_target(), hover: "Matches a window's instance metadata exactly." });
    assert(specs@.map_values(|a: AttributeKeySpec| attribute_key_view(a)) =~= table.take(4));
    specs.push(AttributeKeySpec { name: "role", targets: window_selector_target(), hover: "Matches a window's role metadata exactly." });
    assert(specs@.map_values(|a: AttributeKeySpec| attribute_key_view(a)) =~= table.take(5));
    specs.push(AttributeKeySpec { name: "shell", targets: window_selector_target(), hover: "Matches a window's shell metadata exactly." });
    assert(specs@.map_values(|a: AttributeKeySpec| attribute_key_view(a)) =~= table.take(6));
    specs.push(AttributeKeySpec { name: "window_type", targets: window_selector_target(), hover: "Matches a window's window_type metadata exactly." });
    assert(specs@.map_values(|a: AttributeKeySpec| attribute_key_view(a)) =~= table.take(7));
    assert(table.take(7) =~= table);
    specs
}

/// Every supported pseudo-class.
pub open spec fn pseudo_class_table() -> Seq<(Seq<char>, Seq<char>)> {
    seq![
        ("focused"@, "Matches the currently focused runtime window state."@),
        ("floating"@, "Matches floating windows."@),
        ("fullscreen"@, "Matches fullscreen windows."@),
        ("urgent"@, "Matches urgent windows."@),
        ("closing"@, "Matches windows that are in the wm-managed closing phase."@),
        ("enter-from-left"@, "Matches workspaces entering from the left during workspace transitions."@),
        ("enter-from-right"@, "Matches workspaces entering from the right during workspace transitions."@),
        ("exit-to-left"@, "Matches workspaces exiting to the left during workspace transitions."@),
        ("exit-to-right"@, "Matches workspaces exiting to the right during workspace transitions."@),
    ]
}

pub fn pseudo_class_specs() -> (r: Vec<PseudoClassSpec>)
    ensures
        r@.map_values(|p: PseudoClassSpec| pseudo_class_view(p)) == pseudo_class_table(),
{
    let ghost table = pseudo_class_table();
    let mut specs: Vec<PseudoClassSpec> = Vec::new();
    specs.push(PseudoClassSpec { name: "focused", hover: "Matches the currently focused runtime window state." });
    assert(specs@.map_values(|p: PseudoClassSpec| pseudo_class_view(p)) =~= table.take(1));
    specs.push(PseudoClassSpec { name: "floating", hover: "Matches floating windows." });
    assert(specs@.map_values(|p: PseudoClassSpec| pseudo_class_view(p)) =~= table.take(2));
    specs.push(PseudoClassSpec { name: "fullscreen", hover: "Matches fullscreen windows." });
    assert(specs@.map_values(|p: PseudoClassSpec| pseudo_class_view(p)) =~= table.take(3));
    specs.push(PseudoClassSpec { name: "urgent", hover: "Matches urgent windows." });
    assert(specs@.map_values(|p: PseudoClassSpec| pseudo_class_view(p)) =~= table.take(4));
    specs.push(PseudoClassSpec { name: "closing", hover: "Matches windows that are in the wm-managed closing phase." });
    assert(specs@.map_values(|p: PseudoClassSpec| pseudo_class_view(p)) =~= table.take(5));
    specs.push(PseudoClassSpec { name: "enter-from-left", hover: "Matches workspaces entering from the left during workspace transitions." });
    assert(specs@.map_values(|p: PseudoClassSpec| pseudo_class_view(p)) =~= table.take(6));
    specs.push(PseudoClassSpec { name: "enter-from-right", hover: "Matches workspaces entering from the right during workspace transitions." });
    assert(specs@.map_values(|p: PseudoClassSpec| pseudo_class_view(p)) =~= table.take(7));
    specs.push(PseudoClassSpec { name: "exit-to-left", hover: "Matches workspaces exiting to the left during workspace transitions." });
    assert(specs@.map_values(|p: PseudoClassSpec| pseudo_class_view(p)) =~= table.take(8));
    specs.push(PseudoClassSpec { name: "exit-to-right", hover: "Matches workspaces exiting to the right during workspace transitions." });
    assert(specs@.map_values(|p: PseudoClassSpec| pseudo_class_view(p)) =~= table.take(9));
    assert(table.take(9) =~= table);
    specs
}

/// No pseudo-element is supported yet.
pub open spec fn pseudo_element_table() -> Seq<(Seq<char>, Seq<SelectorTarget>, Seq<char>)> {
    Seq::empty()
}

pub fn pseudo_element_specs() -> (r: Vec<PseudoElementSpec>)
    ensures
        r@.map_values(|p: PseudoElementSpec| pseudo_element_view(p)) == pseudo_element_table(),
{
    let specs: Vec<PseudoElementSpec> = Vec::new();
    assert(specs@.map_values(|p: PseudoElementSpec| pseudo_element_view(p)) =~= pseudo_element_table());
    specs
}

/// Position of the first property named `name`, or -1.
pub open spec fn property_index(name: Seq<char>) -> int {
    first_index(property_table(), |e: (Seq<char>, SupportStatus, Seq<StyleTarget>, Seq<Seq<char>>, Seq<char>)| e.0 == name)
}

/// The property named `name`.
pub fn property_spec(name: &str) -> (r: Option<PropertySpec>)
    ensures
        match r {
            Some(s) => property_index(name@) >= 0 && property_view(s) == property_table()[property_index(name@)],
            None => property_index(name@) < 0,
        },
{
    let mut specs = property_specs();
    let ghost views = specs@.map_values(|s: PropertySpec| property_view(s));
    let ghost p = |e: (Seq<char>, SupportStatus, Seq<StyleTarget>, Seq<Seq<char>>, Seq<char>)| e.0 == name@;
    proof {
        lemma_first_index(views, p);
    }
    let mut i: usize = 0;
    while i < specs.len()
        invariant
            views == specs@.map_values(|s: PropertySpec| property_view(s)),
            views == property_table(),
            p == (|e: (Seq<char>, SupportStatus, Seq<StyleTarget>, Seq<Seq<char>>, Seq<char>)| e.0 == name@),
            i <= specs@.len(),
            forall|k: int| 0 <= k < i ==> !p(#[trigger] views[k]),
        decreases specs@.len() - i,
    {
        if text_eq(specs[i].name, name) {
            proof {
                assert(views[i as int] == property_view(specs@[i as int]));
                lemma_first_index(views, p);
            }
            return Some(specs.remove(i));
        }
        assert(views[i as int] == property_view(specs@[i as int]));
        i = i + 1;
    }
    None
}

pub fn is_supported_property(name: &str) -> (r: bool)
    ensures
        r == (property_index(name@) >= 0),
{
    property_spec(name).is_some()
}

/// Position of the first attribute_key named `name`, or -1.
pub open spec fn attribute_key_index(name: Seq<char>) -> int {
    first_index(attribute_key_table(), |e: (Seq<char>, Seq<SelectorTarget>, Seq<char>)| e.0 == name)
}

/// The attribute_key named `name`.
pub fn attribute_key_spec(name: &str) -> (r: Option<AttributeKeySpec>)
    ensures
        match r {
            Some(s) => attribute_key_index(name@) >= 0 && attribute_key_view(s) == attribute_key_table()[attribute_key_index(name@)],
            None => attribute_key_index(name@) < 0,
        },
{
    let mut specs = attribute_key_specs();
    let ghost views = specs@.map_values(|s: AttributeKeySpec| attribute_key_view(s));
    let ghost p = |e: (Seq<char>, Seq<SelectorTarget>, Seq<char>)| e.0 == name@;
    proof {
        lemma_first_index(views, p);
    }
    let mut i: usize = 0;
    while i < specs.len()
        invariant
            views == specs@.map_values(|s: AttributeKeySpec| attribute_key_view(s)),
            views == attribute_key_table(),
            p == (|e: (Seq<char>, Seq<SelectorTarget>, Seq<char>)| e.0 == name@),
            i <= specs@.len(),
            forall|k: int| 0 <= k < i ==> !p(#[trigger] views[k]),
        decreases specs@.len() - i,
    {
        if text_eq(specs[i].name, name) {
            proof {
                assert(views[i as int] == attribute_key_view(specs@[i as int]));
                lemma_first_index(views, p);
            }
            return Some(specs.remove(i));
        }
        assert(views[i as int] == attribute_key_view(specs@[i as int]));
        i = i + 1;
    }
    None
}

pub fn is_supported_attribute_key(name: &str) -> (r: bool)
    ensures
        r == (attribute_key_index(name@) >= 0),
{
    attribute_key_spec(name).is_some()
}

/// Position of the first pseudo_class named `name`, or -1.
pub open spec fn pseudo_class_index(name: Seq<char>) -> int {
    first_index(pseudo_class_table(), |e: (Seq<char>, Seq<char>)| e.0 == name)
}

/// The pseudo_class named `name`.
pub fn pseudo_class_spec(name: &str) -> (r: Option<PseudoClassSpec>)
    ensures
        match r {
            Some(s) => pseudo_class_index(name@) >= 0 && pseudo_class_view(s) == pseudo_class_table()[pseudo_class_index(name@)],
            None => pseudo_class_index(name@) < 0,
        },
{
    let mut specs = pseudo_class_specs();
    let ghost views = specs@.map_values(|s: PseudoClassSpec| pseudo_class_view(s));
    let ghost p = |e: (Seq<char>, Seq<char>)| e.0 == name@;
    proof {
        lemma_first_index(views, p);
    }
    let mut i: usize = 0;
    while i < specs.len()
        invariant
            views == specs@.map_values(|s: PseudoClassSpec| pseudo_class_view(s)),
            views == pseudo_class_table(),
            p == (|e: (Seq<char>, Seq<char>)| e.0 == name@),
            i <= specs@.len(),
            forall|k: int| 0 <= k < i ==> !p(#[trigger] views[k]),
        decreases specs@.len() - i,
    {
        if text_eq(specs[i].name, name) {
            proof {
                assert(views[i as int] == pseudo_class_view(specs@[i as int]));
                lemma_first_index(views, p);
            }
            return Some(specs.remove(i));
        }
        assert(views[i as int] == pseudo_class_view(specs@[i as int]));
        i = i + 1;
    }
    None
}

pub fn is_supported_pseudo_class(name: &str) -> (r: bool)
    ensures
        r == (pseudo_class_index(name@) >= 0),
{
    pseudo_class_spec(name).is_some()
}

/// Position of the first pseudo_element named `name`, or -1.
pub open spec fn pseudo_element_index(name: Seq<char>) -> int {
    first_index(pseudo_element_table(), |e: (Seq<char>, Seq<SelectorTarget>, Seq<char>)| e.0 == name)
}

/// The pseudo_element named `name`.
pub fn pseudo_element_spec(name: &str) -> (r: Option<PseudoElementSpec>)
    ensures
        match r {
            Some(s) => pseudo_element_index(name@) >= 0 && pseudo_element_view(s) == pseudo_element_table()[pseudo_element_index(name@)],
            None => pseudo_element_index(name@) < 0,
        },
{
    let mut specs = pseudo_element_specs();
    let ghost views = specs@.map_values(|s: PseudoElementSpec| pseudo_element_view(s));
    let ghost p = |e: (Seq<char>, Seq<SelectorTarget>, Seq<char>)| e.0 == name@;
    proof {
        lemma_first_index(views, p);
    }
    let mut i: usize = 0;
    while i < specs.len()
        invariant
            views == specs@.map_values(|s: PseudoElementSpec| pseudo_element_view(s)),
            views == pseudo_element_table(),
            p == (|e: (Seq<char>, Seq<SelectorTarget>, Seq<char>)| e.0 == name@),
            i <= specs@.len(),
            forall|k: int| 0 <= k < i ==> !p(#[trigger] views[k]),
        decreases specs@.len() - i,
    {
        if text_eq(specs[i].name, name) {
            proof {
                assert(views[i as int] == pseudo_element_view(specs@[i as int]));
                lemma_first_index(views, p);
            }
            return Some(specs.remove(i));
        }
        assert(views[i as int] == pseudo_element_view(specs@[i as int]));
        i = i + 1;
    }
    None
}

pub fn is_supported_pseudo_element(name: &str) -> (r: bool)
    ensures
        r == (pseudo_element_index(name@) >= 0),
{
    pseudo_element_spec(name).is_some()
}

/// The targets a selector may name.
pub fn selector_targets() -> (r: Vec<SelectorTarget>)
    ensures
        r@ == seq![SelectorTarget::Workspace, SelectorTarget::Group, SelectorTarget::Window],
{
    vec![SelectorTarget::Workspace, SelectorTarget::Group, SelectorTarget::Window]
}

/// Names that look like selector targets but may not be used as one.
pub open spec fn invalid_selector_target_names() -> Seq<Seq<char>> {
    seq!["slot"@]
}

/// `name` may not be used as a selector target.
pub fn is_invalid_selector_target(name: &str) -> (r: bool)
    ensures
        r == invalid_selector_target_names().contains(name@),
{
    let r = text_eq(name, "slot");
    proof {
        if r {
            assert(invalid_selector_target_names()[0] == name@);
        } else {
            assert forall|k: int| 0 <= k < 1 implies invalid_selector_target_names()[k] != name@ by {}
        }
    }
    r
}

} // verus!
