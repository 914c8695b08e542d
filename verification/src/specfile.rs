//! The field specification: for each field number, its content type,
//! length type, length bounds and label. Built by the caller (for example
//! from a persisted description) and read-only here.

use vstd::prelude::*;
use std::collections::HashMap;
use crate::model::FieldDescView;

verus! {

broadcast use vstd::std_specs::hash::group_hash_axioms;

/// Per-field metadata needed to locate field boundaries in the wire
/// stream.
#[derive(Debug)]
pub struct FieldDescription {
    pub content_type: String,
    pub max_len: usize,
    pub min_len: usize,
    pub len_type: String,
    pub label: String,
}

impl View for FieldDescription {
    type V = FieldDescView;

    open spec fn view(&self) -> FieldDescView {
        FieldDescView {
            content_type: self.content_type@,
            max_len: self.max_len as nat,
            min_len: self.min_len as nat,
            len_type: self.len_type@,
            label: self.label@,
        }
    }
}

impl Clone for FieldDescription {
    fn clone(&self) -> (r: Self)
        ensures
            r@ == self@,
    {
        FieldDescription {
            content_type: self.content_type.clone(),
            max_len: self.max_len,
            min_len: self.min_len,
            len_type: self.len_type.clone(),
            label: self.label.clone(),
        }
    }
}

/// A field specification: field number → description.
#[derive(Debug)]
pub struct Spec {
    pub fields: HashMap<u64, FieldDescription>,
}

impl View for Spec {
    type V = Map<u64, FieldDescView>;

    open spec fn view(&self) -> Map<u64, FieldDescView> {
        Map::new(|k: u64| self.fields@.contains_key(k), |k: u64| self.fields@[k]@)
    }
}

impl Clone for Spec {
    fn clone(&self) -> (r: Self)
        ensures
            r@ == self@,
    {
        let fields = self.fields.clone();
        let r = Spec { fields };
        proof {
            assert(r@ =~= self@);
        }
        r
    }
}

} // verus!
