//! Runtime inspection panels of the language environment: an inspector, an
//! object hierarchy and a viewport. They hold no state yet; updating and
//! rendering them changes nothing.
use vstd::prelude::*;

verus! {

/// Runtime inspection and debugging.
#[derive(Debug, Clone, Copy, PartialEq, Eq, Structural)]
pub struct Inspector {}

impl Inspector {
    pub fn new() -> (r: Inspector)
        ensures
            r == (Inspector {}),
    {
        Inspector {}
    }

    pub fn update(&mut self)
        ensures
            *final(self) == *old(self),
    {
    }

    pub fn render(&self) {
    }
}

/// The hierarchy of the objects of a scene.
#[derive(Debug, Clone, Copy, PartialEq, Eq, Structural)]
pub struct ObjectHierarchy {}

impl ObjectHierarchy {
    pub fn new() -> (r: ObjectHierarchy)
        ensures
            r == (ObjectHierarchy {}),
    {
        ObjectHierarchy {}
    }

    pub fn update(&mut self)
        ensures
            *final(self) == *old(self),
    {
    }

    pub fn render(&self) {
    }
}

/// The viewport showing a scene.
#[derive(Debug, Clone, Copy, PartialEq, Eq, Structural)]
pub struct Viewport {}

impl Viewport {
    pub fn new() -> (r: Viewport)
        ensures
            r == (Viewport {}),
    {
        Viewport {}
    }

    pub fn update(&mut self)
        ensures
            *final(self) == *old(self),
    {
    }

    pub fn render(&self) {
    }
}

} // verus!
