//! The values of the module's freeform `settings` attrset.

use vstd::prelude::*;
use crate::text::{owned, push_signed_decimal, signed_decimal};

verus! {

/// One value of a setting.
pub enum Scalar {
    Null,
    Bool(bool),
    Int(i64),
    /// A number that is not an integer, as its decimal spelling.
    Float(String),
    Str(String),
}

/// Anything limine's config understands is a key, so the only structure to
/// rely on is "one value or a list of them".
pub enum Setting {
    One(Scalar),
    Many(Vec<Scalar>),
}

/// How limine.conf spells a value; `None` for one that is not emitted.
pub open spec fn scalar_value(s: &Scalar) -> Option<Seq<char>> {
    match s {
        Scalar::Null => None,
        Scalar::Bool(true) => Some("yes"@),
        Scalar::Bool(false) => Some("no"@),
        Scalar::Int(i) => Some(signed_decimal(*i as int)),
        Scalar::Float(f) => Some(f@),
        Scalar::Str(s) => Some(s@),
    }
}

pub open spec fn scalar_str(s: &Scalar) -> Option<Seq<char>> {
    match s {
        Scalar::Str(s) => Some(s@),
        _ => None,
    }
}

impl Scalar {
    pub fn value(&self) -> (r: Option<String>)
        ensures
            match (r, scalar_value(self)) {
                (Some(a), Some(b)) => a@ == b,
                (None, None) => true,
                _ => false,
            },
    {
        match self {
            Scalar::Null => None,
            Scalar::Bool(true) => Some(owned("yes")),
            Scalar::Bool(false) => Some(owned("no")),
            Scalar::Int(i) => {
                let mut s = String::new();
                push_signed_decimal(&mut s, *i);
                Some(s)
            },
            Scalar::Float(f) => Some(f.clone()),
            Scalar::Str(s) => Some(s.clone()),
        }
    }

    pub fn as_str(&self) -> (r: Option<&String>)
        ensures
            match (r, scalar_str(self)) {
                (Some(a), Some(b)) => a@ == b,
                (None, None) => true,
                _ => false,
            },
    {
        match self {
            Scalar::Str(s) => Some(s),
            _ => None,
        }
    }
}

/// The values of a setting, in order.
pub open spec fn setting_values(s: &Setting) -> Seq<Scalar> {
    match s {
        Setting::One(v) => seq![*v],
        Setting::Many(vs) => vs@,
    }
}

} // verus!
