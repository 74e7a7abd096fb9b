//! Operations: graph nodes with ordered tensor-name references and a
//! name-to-value attribute mapping.

use vstd::prelude::*;

use crate::text::str_eq;
use crate::types::AttributeValue;

verus! {

/// One named attribute of an operation.
pub struct AttributeEntry {
    pub name: String,
    pub value: AttributeValue,
}

/// Information about one ONNX operation.
pub struct OnnxOperation {
    /// Identifier; graphs may leave it blank or reuse it.
    pub name: String,
    /// Tag identifying the operation's semantics, an open vocabulary.
    pub op_type: String,
    /// Ordered input tensor names; an empty entry is an unused slot.
    pub inputs: Vec<String>,
    /// Ordered output tensor names; an empty entry is an unused slot.
    pub outputs: Vec<String>,
    /// Attributes; names are unique when built by the model adapter.
    pub attributes: Vec<AttributeEntry>,
}

/// The first attribute entry carrying `name`, if any.
pub open spec fn spec_find_attr(entries: Seq<AttributeEntry>, name: Seq<char>) -> Option<
    AttributeValue,
>
    decreases entries.len(),
{
    if entries.len() == 0 {
        None
    } else if entries.first().name@ == name {
        Some(entries.first().value)
    } else {
        spec_find_attr(entries.drop_first(), name)
    }
}

impl OnnxOperation {
    /// Get an attribute by name; the first entry wins.
    pub fn get_attribute(&self, name: &str) -> (r: Option<&AttributeValue>)
        ensures
            match r {
                Some(v) => spec_find_attr(self.attributes@, name@) == Some(*v),
                None => spec_find_attr(self.attributes@, name@) is None,
            },
    {
        let n = self.attributes.len();
        let mut i: usize = 0;
        proof {
            assert(self.attributes@.skip(0) =~= self.attributes@);
        }
        while i < n
            invariant
                i <= n == self.attributes@.len(),
                spec_find_attr(self.attributes@, name@) == spec_find_attr(
                    self.attributes@.skip(i as int),
                    name@,
                ),
            decreases n - i,
        {
            proof {
                let rest = self.attributes@.skip(i as int);
                assert(rest.first() == self.attributes@[i as int]);
                assert(rest.drop_first() =~= self.attributes@.skip(i + 1));
            }
            if str_eq(self.attributes[i].name.as_str(), name) {
                return Some(&self.attributes[i].value);
            }
            i = i + 1;
        }
        proof {
            assert(self.attributes@.skip(n as int) =~= Seq::<AttributeEntry>::empty());
        }
        None
    }

    /// Get an integer attribute by name.
    pub fn get_int_attribute(&self, name: &str) -> (r: Option<i64>)
        ensures
            r == match spec_find_attr(self.attributes@, name@) {
                Some(AttributeValue::Int(i)) => Some(i),
                _ => None::<i64>,
            },
    {
        match self.get_attribute(name) {
            Some(v) => v.as_int(),
            None => None,
        }
    }

    /// Get a float attribute by name, as its IEEE-754 bit pattern.
    pub fn get_float_attribute(&self, name: &str) -> (r: Option<u32>)
        ensures
            r == match spec_find_attr(self.attributes@, name@) {
                Some(AttributeValue::Float(bits)) => Some(bits),
                _ => None::<u32>,
            },
    {
        match self.get_attribute(name) {
            Some(v) => v.as_float(),
            None => None,
        }
    }

    /// Get a string attribute by name.
    pub fn get_string_attribute(&self, name: &str) -> (r: Option<&str>)
        ensures
            match spec_find_attr(self.attributes@, name@) {
                Some(AttributeValue::String(s)) => r matches Some(v) && v@ == s@,
                _ => r is None,
            },
    {
        match self.get_attribute(name) {
            Some(v) => v.as_string(),
            None => None,
        }
    }

    /// Get an integer array attribute by name.
    pub fn get_ints_attribute(&self, name: &str) -> (r: Option<&Vec<i64>>)
        ensures
            match spec_find_attr(self.attributes@, name@) {
                Some(AttributeValue::Ints(v)) => r matches Some(w) && w@ == v@,
                _ => r is None,
            },
    {
        match self.get_attribute(name) {
            Some(v) => v.as_ints(),
            None => None,
        }
    }

    /// Get a float array attribute by name, as IEEE-754 bit patterns.
    pub fn get_floats_attribute(&self, name: &str) -> (r: Option<&Vec<u32>>)
        ensures
            match spec_find_attr(self.attributes@, name@) {
                Some(AttributeValue::Floats(v)) => r matches Some(w) && w@ == v@,
                _ => r is None,
            },
    {
        match self.get_attribute(name) {
            Some(v) => v.as_floats(),
            None => None,
        }
    }

    /// Check if the operation has an attribute with this name.
    pub fn has_attribute(&self, name: &str) -> (r: bool)
        ensures
            r == (spec_find_attr(self.attributes@, name@) is Some),
    {
        match self.get_attribute(name) {
            Some(_) => true,
            None => false,
        }
    }

    /// Number of input slots.
    pub fn input_count(&self) -> (r: usize)
        ensures
            r == self.inputs@.len(),
    {
        self.inputs.len()
    }

    /// Number of output slots.
    pub fn output_count(&self) -> (r: usize)
        ensures
            r == self.outputs@.len(),
    {
        self.outputs.len()
    }

    /// Check whether this operation has the given type tag.
    pub fn is_op_type(&self, op_type: &str) -> (r: bool)
        ensures
            r == (self.op_type@ == op_type@),
    {
        str_eq(self.op_type.as_str(), op_type)
    }

    /// All attribute names, in entry order.
    pub fn attribute_names(&self) -> (r: Vec<String>)
        ensures
            r@.len() == self.attributes@.len(),
            forall|k: int| 0 <= k < r@.len() ==> r@[k]@ == self.attributes@[k].name@,
    {
        let mut out: Vec<String> = Vec::new();
        let n = self.attributes.len();
        let mut i: usize = 0;
        while i < n
            invariant
                i <= n == self.attributes@.len(),
                out@.len() == i,
                forall|k: int| 0 <= k < i ==> out@[k]@ == self.attributes@[k].name@,
            decreases n - i,
        {
            out.push(self.attributes[i].name.clone());
            i = i + 1;
        }
        out
    }
}

} // verus!
