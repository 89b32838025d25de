//! Manifest record types.
//!
//! A manifest maps item names to records with a handful of optional fields.
//! The accessors below destructure the optional fields into usable values
//! with fixed fallbacks, so callers need no unwrap boilerplate.  Fetching and
//! deserializing manifests is left to the caller; these are plain data types.

use vstd::prelude::*;

verus! {

/// The rarity class of an item, parsed from the manifest's class strings.
#[derive(Debug, PartialEq, Eq, Structural, Clone, Copy)]
pub enum RiskClass {
    White,
    Green,
    Red,
    Yellow,
    Orange,
    Purple,
    Grey,
    NoClass,
}

impl RiskClass {
    /// The display name of each class.
    pub open spec fn spec_name(self) -> Seq<char> {
        match self {
            RiskClass::White => "White"@,
            RiskClass::Green => "Green"@,
            RiskClass::Red => "Red"@,
            RiskClass::Yellow => "Yellow"@,
            RiskClass::Orange => "Orange"@,
            RiskClass::Purple => "Purple"@,
            RiskClass::Grey => "Grey"@,
            RiskClass::NoClass => "None"@,
        }
    }

    /// The class a manifest class string denotes; anything unrecognized
    /// counts as no class.
    pub open spec fn spec_of_name(s: Seq<char>) -> RiskClass {
        if s == "white"@ {
            RiskClass::White
        } else if s == "green"@ {
            RiskClass::Green
        } else if s == "red"@ {
            RiskClass::Red
        } else if s == "yellow"@ {
            RiskClass::Yellow
        } else if s == "orange"@ {
            RiskClass::Orange
        } else if s == "purple"@ {
            RiskClass::Purple
        } else if s == "misc"@ {
            RiskClass::Grey
        } else {
            RiskClass::NoClass
        }
    }

    /// Safely match a class into its display name.
    pub fn class_to_string(&self) -> (r: &'static str)
        ensures
            r@ == self.spec_name(),
    {
        match self {
            RiskClass::White => "White",
            RiskClass::Green => "Green",
            RiskClass::Red => "Red",
            RiskClass::Yellow => "Yellow",
            RiskClass::Orange => "Orange",
            RiskClass::Purple => "Purple",
            RiskClass::Grey => "Grey",
            RiskClass::NoClass => "None",
        }
    }

    /// Parse a manifest class string into a class; unrecognized strings give
    /// `RiskClass::NoClass`.
    pub fn from_class_name(s: &str) -> (r: RiskClass)
        ensures
            r == RiskClass::spec_of_name(s@),
    {
        if crate::casefold::str_eq(s, "white") {
            RiskClass::White
        } else if crate::casefold::str_eq(s, "green") {
            RiskClass::Green
        } else if crate::casefold::str_eq(s, "red") {
            RiskClass::Red
        } else if crate::casefold::str_eq(s, "yellow") {
            RiskClass::Yellow
        } else if crate::casefold::str_eq(s, "orange") {
            RiskClass::Orange
        } else if crate::casefold::str_eq(s, "purple") {
            RiskClass::Purple
        } else if crate::casefold::str_eq(s, "misc") {
            RiskClass::Grey
        } else {
            RiskClass::NoClass
        }
    }
}

/// One item record from a manifest.  The name, description and class are
/// always present; the remaining fields are optional in the source data and
/// come with matching accessors that supply a fixed fallback.
#[derive(Debug)]
pub struct RiskItem {
    pub name: String,
    pub description: String,
    pub embryo: Option<String>,
    pub stack: Option<String>,
    pub unlock: Option<String>,
    pub drop: Option<String>,
    pub has_video: Option<bool>,
    pub max_stacks: Option<i32>,
    pub item_class: RiskClass,
}

impl RiskItem {
    /// Safely match the embryo field; items without one read as "N/A".
    pub fn match_embryo(&self) -> (r: &str)
        ensures
            r@ == (match self.embryo {
                Option::Some(v) => v@,
                Option::None => "N/A"@,
            }),
    {
        match &self.embryo {
            Option::Some(v) => v.as_str(),
            Option::None => "N/A",
        }
    }

    /// Safely match the stack field; items without one read as "N/A".
    pub fn match_stack(&self) -> (r: &str)
        ensures
            r@ == (match self.stack {
                Option::Some(v) => v@,
                Option::None => "N/A"@,
            }),
    {
        match &self.stack {
            Option::Some(v) => v.as_str(),
            Option::None => "N/A",
        }
    }

    /// Safely match the unlock field; items without one read as "N/A".
    pub fn match_unlock(&self) -> (r: &str)
        ensures
            r@ == (match self.unlock {
                Option::Some(v) => v@,
                Option::None => "N/A"@,
            }),
    {
        match &self.unlock {
            Option::Some(v) => v.as_str(),
            Option::None => "N/A",
        }
    }

    /// Safely match the drop field; items without one read as "N/A".
    pub fn match_drop(&self) -> (r: &str)
        ensures
            r@ == (match self.drop {
                Option::Some(v) => v@,
                Option::None => "N/A"@,
            }),
    {
        match &self.drop {
            Option::Some(v) => v.as_str(),
            Option::None => "N/A",
        }
    }

    /// Safely match the video flag; items without one read as `false`.
    pub fn match_video(&self) -> (r: bool)
        ensures
            r == (match self.has_video {
                Option::Some(b) => b,
                Option::None => false,
            }),
    {
        match self.has_video {
            Option::Some(true) => true,
            Option::Some(false) => false,
            Option::None => false,
        }
    }

    /// Safely match the maximum stack size; items without one read as 0.
    pub fn match_stack_size(&self) -> (r: i32)
        ensures
            r == (match self.max_stacks {
                Option::Some(v) => v,
                Option::None => 0i32,
            }),
    {
        match self.max_stacks {
            Option::Some(v) => v,
            Option::None => 0,
        }
    }
}

} // verus!
