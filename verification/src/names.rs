//! The names that a netlist is made of. Each wraps a slice of the source
//! text and is spoken of in contracts by its characters.
use vstd::prelude::*;
use vstd::string::*;

verus! {

/// Reference designator
#[derive(Debug, Clone, Copy, PartialEq, Eq, Hash)]
pub struct RefDes<'a>(pub &'a str);

impl<'a> View for RefDes<'a> {
    type V = Seq<char>;

    open spec fn view(&self) -> Seq<char> {
        self.0@
    }
}

impl<'a> RefDes<'a> {
    /// The name as a string slice.
    pub fn as_str(&self) -> (r: &str)
        ensures
            r@ == self@,
    {
        self.0
    }

    /// The name as an owned string.
    pub fn to_string(&self) -> (r: String)
        ensures
            r@ == self@,
    {
        self.0.to_owned()
    }
}

impl<'a> From<&'a str> for RefDes<'a> {
    fn from(value: &'a str) -> (r: Self) {
        RefDes(value)
    }
}

impl<'a> vstd::std_specs::convert::FromSpecImpl<&'a str> for RefDes<'a> {
    open spec fn obeys_from_spec() -> bool {
        true
    }

    open spec fn from_spec(value: &'a str) -> Self {
        RefDes(value)
    }
}

/// Pin number
///
/// Note that the number is a string, not an actual number, because we need to
/// support, eg, BGA packages with pin numbers A1, A2, A3 etc.
#[derive(Debug, Clone, Copy, PartialEq, Eq, Hash)]
pub struct PinNum<'a>(pub &'a str);

impl<'a> View for PinNum<'a> {
    type V = Seq<char>;

    open spec fn view(&self) -> Seq<char> {
        self.0@
    }
}

impl<'a> PinNum<'a> {
    /// The name as a string slice.
    pub fn as_str(&self) -> (r: &str)
        ensures
            r@ == self@,
    {
        self.0
    }

    /// The name as an owned string.
    pub fn to_string(&self) -> (r: String)
        ensures
            r@ == self@,
    {
        self.0.to_owned()
    }
}

impl<'a> From<&'a str> for PinNum<'a> {
    fn from(value: &'a str) -> (r: Self) {
        PinNum(value)
    }
}

impl<'a> vstd::std_specs::convert::FromSpecImpl<&'a str> for PinNum<'a> {
    open spec fn obeys_from_spec() -> bool {
        true
    }

    open spec fn from_spec(value: &'a str) -> Self {
        PinNum(value)
    }
}

/// Name of pin
#[derive(Debug, Clone, Copy, PartialEq, Eq, Hash)]
pub struct PinName<'a>(pub &'a str);

impl<'a> View for PinName<'a> {
    type V = Seq<char>;

    open spec fn view(&self) -> Seq<char> {
        self.0@
    }
}

impl<'a> PinName<'a> {
    /// The name as a string slice.
    pub fn as_str(&self) -> (r: &str)
        ensures
            r@ == self@,
    {
        self.0
    }

    /// The name as an owned string.
    pub fn to_string(&self) -> (r: String)
        ensures
            r@ == self@,
    {
        self.0.to_owned()
    }
}

impl<'a> From<&'a str> for PinName<'a> {
    fn from(value: &'a str) -> (r: Self) {
        PinName(value)
    }
}

impl<'a> vstd::std_specs::convert::FromSpecImpl<&'a str> for PinName<'a> {
    open spec fn obeys_from_spec() -> bool {
        true
    }

    open spec fn from_spec(value: &'a str) -> Self {
        PinName(value)
    }
}

/// Pin function
#[derive(Debug, Clone, Copy, PartialEq, Eq, Hash)]
pub struct PinFunction<'a>(pub &'a str);

impl<'a> View for PinFunction<'a> {
    type V = Seq<char>;

    open spec fn view(&self) -> Seq<char> {
        self.0@
    }
}

impl<'a> PinFunction<'a> {
    /// The name as a string slice.
    pub fn as_str(&self) -> (r: &str)
        ensures
            r@ == self@,
    {
        self.0
    }

    /// The name as an owned string.
    pub fn to_string(&self) -> (r: String)
        ensures
            r@ == self@,
    {
        self.0.to_owned()
    }
}

impl<'a> From<&'a str> for PinFunction<'a> {
    fn from(value: &'a str) -> (r: Self) {
        PinFunction(value)
    }
}

impl<'a> vstd::std_specs::convert::FromSpecImpl<&'a str> for PinFunction<'a> {
    open spec fn obeys_from_spec() -> bool {
        true
    }

    open spec fn from_spec(value: &'a str) -> Self {
        PinFunction(value)
    }
}

/// Component value
#[derive(Debug, Clone, Copy, PartialEq, Eq, Hash)]
pub struct Value<'a>(pub &'a str);

impl<'a> View for Value<'a> {
    type V = Seq<char>;

    open spec fn view(&self) -> Seq<char> {
        self.0@
    }
}

impl<'a> Value<'a> {
    /// The name as a string slice.
    pub fn as_str(&self) -> (r: &str)
        ensures
            r@ == self@,
    {
        self.0
    }

    /// The name as an owned string.
    pub fn to_string(&self) -> (r: String)
        ensures
            r@ == self@,
    {
        self.0.to_owned()
    }
}

impl<'a> From<&'a str> for Value<'a> {
    fn from(value: &'a str) -> (r: Self) {
        Value(value)
    }
}

impl<'a> vstd::std_specs::convert::FromSpecImpl<&'a str> for Value<'a> {
    open spec fn obeys_from_spec() -> bool {
        true
    }

    open spec fn from_spec(value: &'a str) -> Self {
        Value(value)
    }
}

/// Footprint
#[derive(Debug, Clone, Copy, PartialEq, Eq, Hash)]
pub struct Footprint<'a>(pub &'a str);

impl<'a> View for Footprint<'a> {
    type V = Seq<char>;

    open spec fn view(&self) -> Seq<char> {
        self.0@
    }
}

impl<'a> Footprint<'a> {
    /// The name as a string slice.
    pub fn as_str(&self) -> (r: &str)
        ensures
            r@ == self@,
    {
        self.0
    }

    /// The name as an owned string.
    pub fn to_string(&self) -> (r: String)
        ensures
            r@ == self@,
    {
        self.0.to_owned()
    }
}

impl<'a> From<&'a str> for Footprint<'a> {
    fn from(value: &'a str) -> (r: Self) {
        Footprint(value)
    }
}

impl<'a> vstd::std_specs::convert::FromSpecImpl<&'a str> for Footprint<'a> {
    open spec fn obeys_from_spec() -> bool {
        true
    }

    open spec fn from_spec(value: &'a str) -> Self {
        Footprint(value)
    }
}

/// Name of net
#[derive(Debug, Clone, Copy, PartialEq, Eq, Hash)]
pub struct NetName<'a>(pub &'a str);

impl<'a> View for NetName<'a> {
    type V = Seq<char>;

    open spec fn view(&self) -> Seq<char> {
        self.0@
    }
}

impl<'a> NetName<'a> {
    /// The name as a string slice.
    pub fn as_str(&self) -> (r: &str)
        ensures
            r@ == self@,
    {
        self.0
    }

    /// The name as an owned string.
    pub fn to_string(&self) -> (r: String)
        ensures
            r@ == self@,
    {
        self.0.to_owned()
    }
}

impl<'a> From<&'a str> for NetName<'a> {
    fn from(value: &'a str) -> (r: Self) {
        NetName(value)
    }
}

impl<'a> vstd::std_specs::convert::FromSpecImpl<&'a str> for NetName<'a> {
    open spec fn obeys_from_spec() -> bool {
        true
    }

    open spec fn from_spec(value: &'a str) -> Self {
        NetName(value)
    }
}

/// Net id
#[derive(Debug, Clone, Copy, PartialEq, Eq, Hash)]
pub struct NetCode<'a>(pub &'a str);

impl<'a> View for NetCode<'a> {
    type V = Seq<char>;

    open spec fn view(&self) -> Seq<char> {
        self.0@
    }
}

impl<'a> NetCode<'a> {
    /// The name as a string slice.
    pub fn as_str(&self) -> (r: &str)
        ensures
            r@ == self@,
    {
        self.0
    }

    /// The name as an owned string.
    pub fn to_string(&self) -> (r: String)
        ensures
            r@ == self@,
    {
        self.0.to_owned()
    }
}

impl<'a> From<&'a str> for NetCode<'a> {
    fn from(value: &'a str) -> (r: Self) {
        NetCode(value)
    }
}

impl<'a> vstd::std_specs::convert::FromSpecImpl<&'a str> for NetCode<'a> {
    open spec fn obeys_from_spec() -> bool {
        true
    }

    open spec fn from_spec(value: &'a str) -> Self {
        NetCode(value)
    }
}

/// Description
#[derive(Debug, Clone, Copy, PartialEq, Eq, Hash)]
pub struct PartDescription<'a>(pub &'a str);

impl<'a> View for PartDescription<'a> {
    type V = Seq<char>;

    open spec fn view(&self) -> Seq<char> {
        self.0@
    }
}

impl<'a> PartDescription<'a> {
    /// The name as a string slice.
    pub fn as_str(&self) -> (r: &str)
        ensures
            r@ == self@,
    {
        self.0
    }

    /// The name as an owned string.
    pub fn to_string(&self) -> (r: String)
        ensures
            r@ == self@,
    {
        self.0.to_owned()
    }
}

impl<'a> From<&'a str> for PartDescription<'a> {
    fn from(value: &'a str) -> (r: Self) {
        PartDescription(value)
    }
}

impl<'a> vstd::std_specs::convert::FromSpecImpl<&'a str> for PartDescription<'a> {
    open spec fn obeys_from_spec() -> bool {
        true
    }

    open spec fn from_spec(value: &'a str) -> Self {
        PartDescription(value)
    }
}

} // verus!
