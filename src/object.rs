use vstd::prelude::*;

verus! {

/// A heap value. Only strings exist so far; the variant set is left open.
#[derive(Clone, Debug, PartialEq)]
pub struct Object {
    pub object_type: ObjectType,
}

#[derive(Clone, Debug, PartialEq)]
pub enum ObjectType {
    OBJ_STRING(String),
}

impl View for Object {
    type V = Seq<char>;

    /// The text of a string object.
    open spec fn view(&self) -> Seq<char> {
        match self.object_type {
            ObjectType::OBJ_STRING(s) => s@,
        }
    }
}

impl Object {
    /// A string object holding `text`.
    pub fn string(text: String) -> (r: Object)
        ensures
            r@ == text@,
    {
        Object { object_type: ObjectType::OBJ_STRING(text) }
    }

    /// A copy of this object with the same contents.
    pub fn duplicate(&self) -> (r: Object)
        ensures
            r == *self,
    {
        match &self.object_type {
            ObjectType::OBJ_STRING(s) => Object { object_type: ObjectType::OBJ_STRING(s.clone()) },
        }
    }

    /// Structural equality: same variant, same contents.
    pub fn equals(&self, other: &Object) -> (r: bool)
        ensures
            r == (self@ == other@),
    {
        match (&self.object_type, &other.object_type) {
            (ObjectType::OBJ_STRING(a), ObjectType::OBJ_STRING(b)) => *a == *b,
        }
    }
}

} // verus!
