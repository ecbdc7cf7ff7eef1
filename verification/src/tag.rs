//! Free-form labels. A tag is identified by its name; the optional color is
//! a display hint. Tags carry no identifier and no timestamps.

use vstd::prelude::*;

verus! {

/// A label that can be attached to ideas and tasks. Identity is the name.
#[derive(Debug, Clone)]
pub struct Tag {
    pub name: String,
    pub color: Option<String>,
}

impl Tag {
    /// A fresh tag with the given name and no color.
    pub fn new(name: String) -> (t: Tag)
        ensures
            t.name@ == name@,
            t.color is None,
    {
        Tag { name, color: None }
    }

    /// Builder form: the same tag with the given color.
    pub fn with_color(self, color: String) -> (t: Tag)
        ensures
            t.name@ == self.name@,
            t.color matches Some(c) && c@ == color@,
    {
        Tag { color: Some(color), ..self }
    }

    /// Replace the color in place.
    pub fn set_color(&mut self, color: Option<String>)
        ensures
            final(self).name@ == old(self).name@,
            final(self).color == color,
    {
        self.color = color;
    }

    /// Replace the name in place.
    pub fn set_name(&mut self, name: String)
        ensures
            final(self).name@ == name@,
            final(self).color == old(self).color,
    {
        self.name = name;
    }
}

} // verus!
