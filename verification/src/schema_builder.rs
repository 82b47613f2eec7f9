//! In-memory accumulation of named, typed, optional property descriptors
//! into node/edge schema drafts prior to persistence. No page-layout
//! knowledge: a draft is what a later encoder would map onto a
//! `NodeSchema`/`EdgeSchema` plus `Name`/`PropertyDefinition` records.

use vstd::prelude::*;
use crate::file_layout::MAX_PROPERTIES_COUNT;
pub use crate::file_layout::PropertyType;

verus! {

/// One property descriptor of a schema draft: a name, a value type, and
/// whether the property is optional.
#[derive(Debug)]
pub struct PropertyBuilder {
    pub name: String,
    pub property_type: PropertyType,
    pub optional: bool,
}

impl PropertyBuilder {
    pub fn new(name: String, property_type: PropertyType, optional: bool) -> (r: Self)
        ensures
            r.name@ == name@,
            r.property_type == property_type,
            r.optional == optional,
    {
        PropertyBuilder { name, property_type, optional }
    }
}

/// A node schema draft: an identifier and an ordered sequence of property
/// descriptors. The format stores at most `MAX_PROPERTIES_COUNT`
/// properties per schema, so adding beyond that cap is a contract
/// violation of the caller, not a recoverable error.
#[derive(Debug)]
pub struct NodeSchemaBuilder {
    pub id: u64,
    pub properties: Vec<PropertyBuilder>,
}

impl NodeSchemaBuilder {
    pub fn new(id: u64) -> (r: Self)
        ensures
            r.id == id,
            r.properties@.len() == 0,
    {
        NodeSchemaBuilder { id, properties: Vec::new() }
    }

    /// Appends one property descriptor to the draft. The draft must still
    /// have a free slot: the format cannot represent more than
    /// `MAX_PROPERTIES_COUNT` properties.
    pub fn property(self, prop: PropertyBuilder) -> (r: Self)
        requires
            self.properties@.len() < MAX_PROPERTIES_COUNT,
        ensures
            r.id == self.id,
            r.properties@ == self.properties@.push(prop),
            r.properties@.len() == self.properties@.len() + 1,
    {
        let mut s = self;
        s.properties.push(prop);
        s
    }
}

/// An edge schema draft, accumulated exactly as a node schema draft.
#[derive(Debug)]
pub struct EdgeSchemaBuilder {
    pub id: u64,
    pub properties: Vec<PropertyBuilder>,
}

impl EdgeSchemaBuilder {
    pub fn new(id: u64) -> (r: Self)
        ensures
            r.id == id,
            r.properties@.len() == 0,
    {
        EdgeSchemaBuilder { id, properties: Vec::new() }
    }

    /// Appends one property descriptor to the draft. The draft must still
    /// have a free slot: the format cannot represent more than
    /// `MAX_PROPERTIES_COUNT` properties.
    pub fn property(self, prop: PropertyBuilder) -> (r: Self)
        requires
            self.properties@.len() < MAX_PROPERTIES_COUNT,
        ensures
            r.id == self.id,
            r.properties@ == self.properties@.push(prop),
            r.properties@.len() == self.properties@.len() + 1,
    {
        let mut s = self;
        s.properties.push(prop);
        s
    }
}

} // verus!
