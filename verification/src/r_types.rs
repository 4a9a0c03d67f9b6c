//! What kind of R object is being viewed.
use vstd::prelude::*;
use crate::text::{push_char, push_str};

verus! {

/// The facts about an R object that decide how it can be viewed.
#[derive(Clone, Copy)]
pub struct RTraits {
    pub is_frame: bool,
    pub is_list: bool,
    pub is_vector: bool,
    pub is_vector_atomic: bool,
    pub is_matrix: bool,
    pub is_array: bool,
    pub has_dim: bool,
    pub len: usize,
}

/// An object the viewer can show, by the way it shows it.
pub enum RobjContainer<T> {
    DataFrame { robj: T },
    Matrix { robj: T },
    List { robj: T },
    Vector { robj: T },
}

impl<T> RobjContainer<T> {
    /// The object itself.
    pub fn robj(&self) -> (r: &T)
        ensures
            *r == match *self {
                RobjContainer::DataFrame { robj } => robj,
                RobjContainer::Matrix { robj } => robj,
                RobjContainer::List { robj } => robj,
                RobjContainer::Vector { robj } => robj,
            },
    {
        match self {
            RobjContainer::DataFrame { robj } | RobjContainer::Matrix { robj } | RobjContainer::List { robj }
            | RobjContainer::Vector { robj } => robj,
        }
    }
}

/// An object that cannot be viewed, with the name of its class.
pub struct UnsupportedTypeError {
    pub rtype: String,
}

impl UnsupportedTypeError {
    /// The message shown for this error.
    pub fn message(&self) -> (r: String)
        ensures
            r@ == unsupported_message(self.rtype@),
    {
        let mut out = String::new();
        push_str(&mut out, "Cannot view object of type `");
        push_str(&mut out, self.rtype.as_str());
        push_str(&mut out, "`; expected a data.frame, matrix, list, or vector");
        out
    }
}

/// The message for an object of class `rtype` that cannot be viewed.
pub open spec fn unsupported_message(rtype: Seq<char>) -> Seq<char> {
    "Cannot view object of type `"@ + rtype + "`; expected a data.frame, matrix, list, or vector"@
}

/// Whether the viewer can open an object: a data frame, list, vector,
/// matrix or array.
pub open spec fn viewable(t: RTraits) -> bool {
    t.is_frame || t.is_list || t.is_vector || t.is_matrix || t.is_array
}

/// Whether the viewer can open an object.
pub fn is_viewable(t: &RTraits) -> (r: bool)
    ensures
        r == viewable(*t),
{
    t.is_frame || t.is_list || t.is_vector || t.is_matrix || t.is_array
}

/// Whether an object is a single atomic value (an atomic vector of length one).
pub fn is_scalar_vector(t: &RTraits) -> (r: bool)
    ensures
        r == (t.is_vector_atomic && t.len == 1),
{
    t.is_vector_atomic && t.len == 1
}

/// How an object is shown: a data frame as such, then a matrix; any other
/// object with dimensions cannot be shown; then a list, then an atomic vector.
pub open spec fn container_kind(t: RTraits) -> Option<int> {
    if t.is_frame {
        Some(0)
    } else if t.is_matrix {
        Some(1)
    } else if t.has_dim {
        None
    } else if t.is_list {
        Some(2)
    } else if t.is_vector_atomic {
        Some(3)
    } else {
        None
    }
}

/// Classifies `x`, whose traits are `t` and whose class is named `class_name`.
pub fn classify<T>(x: T, t: &RTraits, class_name: String) -> (r: Result<RobjContainer<T>, UnsupportedTypeError>)
    ensures
        match r {
            Ok(RobjContainer::DataFrame { robj }) => container_kind(*t) == Some(0int) && robj == x,
            Ok(RobjContainer::Matrix { robj }) => container_kind(*t) == Some(1int) && robj == x,
            Ok(RobjContainer::List { robj }) => container_kind(*t) == Some(2int) && robj == x,
            Ok(RobjContainer::Vector { robj }) => container_kind(*t) == Some(3int) && robj == x,
            Err(e) => container_kind(*t) is None && e.rtype == class_name,
        },
{
    if t.is_frame {
        Ok(RobjContainer::DataFrame { robj: x })
    } else if t.is_matrix {
        Ok(RobjContainer::Matrix { robj: x })
    } else if t.has_dim {
        Err(UnsupportedTypeError { rtype: class_name })
    } else if t.is_list {
        Ok(RobjContainer::List { robj: x })
    } else if t.is_vector_atomic {
        Ok(RobjContainer::Vector { robj: x })
    } else {
        Err(UnsupportedTypeError { rtype: class_name })
    }
}

} // verus!
