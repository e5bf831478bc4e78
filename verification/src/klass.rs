use vstd::prelude::*;

verus! {

/// The closed set of categories, plus a sentinel for codes that map to no
/// known category. Category codes start at 1; code 0 and any code above the
/// highest known one are rendered as `Invalid`.
#[derive(Clone, Copy, PartialEq, Eq, Structural, Debug)]
pub enum Klass {
    World,
    Sports,
    Business,
    SciTech,
    Invalid,
}

/// The category that a raw integer code denotes.
pub open spec fn klass_of_code(code: int) -> Klass {
    if code == 1 {
        Klass::World
    } else if code == 2 {
        Klass::Sports
    } else if code == 3 {
        Klass::Business
    } else if code == 4 {
        Klass::SciTech
    } else {
        Klass::Invalid
    }
}

/// The display name of a category.
pub open spec fn spec_klass_name(k: Klass) -> Seq<char> {
    match k {
        Klass::World => "World"@,
        Klass::Sports => "Sports"@,
        Klass::Business => "Business"@,
        Klass::SciTech => "Sci/Tech"@,
        Klass::Invalid => "Invalid"@,
    }
}

impl From<usize> for Klass {
    fn from(value: usize) -> (r: Self) {
        match value {
            1usize => Klass::World,
            2usize => Klass::Sports,
            3usize => Klass::Business,
            4usize => Klass::SciTech,
            _ => Klass::Invalid,
        }
    }
}

impl vstd::std_specs::convert::FromSpecImpl<usize> for Klass {
    open spec fn obeys_from_spec() -> bool {
        true
    }

    open spec fn from_spec(v: usize) -> Klass {
        klass_of_code(v as int)
    }
}

impl Klass {
    /// The display name of this category.
    pub fn name(&self) -> (r: String)
        ensures
            r@ == spec_klass_name(*self),
    {
        match *self {
            Klass::World => String::from_str("World"),
            Klass::Sports => String::from_str("Sports"),
            Klass::Business => String::from_str("Business"),
            Klass::SciTech => String::from_str("Sci/Tech"),
            Klass::Invalid => String::from_str("Invalid"),
        }
    }
}

} // verus!
