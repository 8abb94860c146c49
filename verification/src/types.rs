//! Small shared value types.
use vstd::prelude::*;

verus! {

#[derive(Debug, Clone, Copy, PartialEq, Eq, Structural)]
pub enum WindowShell {
    Wayland,
    Xwayland,
}

/// How a window is placed: tiled by the layout, floating above it, or
/// fullscreen.
#[derive(Debug, Clone, Copy, PartialEq, Eq, Structural)]
pub enum WindowMode {
    Tiled,
    Floating,
    Fullscreen,
}

impl Default for WindowMode {
    fn default() -> (r: Self)
        ensures
            r == WindowMode::Tiled,
    {
        WindowMode::Tiled
    }
}

impl WindowMode {
    pub fn is_floating(self) -> (r: bool)
        ensures
            r == (self is Floating),
    {
        match self {
            WindowMode::Floating => true,
            _ => false,
        }
    }

    pub fn is_fullscreen(self) -> (r: bool)
        ensures
            r == (self is Fullscreen),
    {
        match self {
            WindowMode::Fullscreen => true,
            _ => false,
        }
    }
}

/// The name of a layout definition.
#[derive(Debug)]
pub struct LayoutRef {
    pub name: String,
}

impl Clone for LayoutRef {
    fn clone(&self) -> (r: Self)
        ensures
            r == *self,
    {
        LayoutRef { name: self.name.clone() }
    }
}

/// Copies an optional string exactly.
pub fn copy_opt_string(s: &Option<String>) -> (r: Option<String>)
    ensures
        r == *s,
{
    match s {
        Some(s) => Some(s.clone()),
        None => None,
    }
}

/// Copies every string of `v` exactly.
pub fn copy_strings(v: &Vec<String>) -> (r: Vec<String>)
    ensures
        r@ == v@,
{
    let mut out: Vec<String> = Vec::new();
    let mut i: usize = 0;
    while i < v.len()
        invariant
            i <= v@.len(),
            out@ == v@.take(i as int),
        decreases v@.len() - i,
    {
        out.push(v[i].clone());
        assert(v@.take(i + 1) =~= v@.take(i as int).push(v@[i as int]));
        i = i + 1;
    }
    assert(v@.take(v@.len() as int) =~= v@);
    out
}

} // verus!
