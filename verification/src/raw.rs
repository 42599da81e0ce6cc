//! The records of a netlist as the text gives them, before anything is
//! linked: every field is a slice of the source.
use vstd::prelude::*;
use crate::error::view_all;

pub mod parser;

verus! {

/// The full netlist
#[derive(Debug, Clone)]
pub struct NetList<'a> {
    pub components: Vec<Component<'a>>,
    pub parts: Vec<Part<'a>>,
    pub nets: Vec<Net<'a>>,
}

/// A component in the schematic
#[derive(Debug, Clone)]
pub struct Component<'a> {
    pub ref_des: &'a str,
    pub value: &'a str,
    pub part: &'a str,
    pub lib: &'a str,
    pub properties: Vec<(&'a str, &'a str)>,
    pub footprint: Option<&'a str>,
}

/// An individual pin
#[derive(Debug, Clone)]
pub struct Pin<'a> {
    pub num: &'a str,
    pub name: &'a str,
    pub typ: &'a str,
}

/// A part
#[derive(Debug, Clone)]
pub struct Part<'a> {
    pub part: &'a str,
    pub lib: &'a str,
    pub description: &'a str,
    pub pins: Vec<Pin<'a>>,
}

/// A node connects a net to a pin
#[derive(Debug, Clone)]
pub struct Node<'a> {
    pub ref_des: &'a str,
    pub num: &'a str,
    pub function: Option<&'a str>,
    pub typ: &'a str,
}

/// A net
#[derive(Debug, Clone)]
pub struct Net<'a> {
    /// A unique id for the net
    pub code: &'a str,
    pub name: &'a str,
    pub nodes: Vec<Node<'a>>,
}

/// The records of a netlist with their strings as character sequences.
pub struct NetListView {
    pub components: Seq<ComponentView>,
    pub parts: Seq<PartView>,
    pub nets: Seq<NetView>,
}

/// A component record with its strings as character sequences.
pub struct ComponentView {
    pub ref_des: Seq<char>,
    pub value: Seq<char>,
    pub part: Seq<char>,
    pub lib: Seq<char>,
    pub properties: Seq<(Seq<char>, Seq<char>)>,
    pub footprint: Option<Seq<char>>,
}

/// A pin record with its strings as character sequences.
pub struct PinView {
    pub num: Seq<char>,
    pub name: Seq<char>,
    pub typ: Seq<char>,
}

/// A part record with its strings as character sequences.
pub struct PartView {
    pub part: Seq<char>,
    pub lib: Seq<char>,
    pub description: Seq<char>,
    pub pins: Seq<PinView>,
}

/// A node record with its strings as character sequences.
pub struct NodeView {
    pub ref_des: Seq<char>,
    pub num: Seq<char>,
    pub function: Option<Seq<char>>,
    pub typ: Seq<char>,
}

/// A net record with its strings as character sequences.
pub struct NetView {
    pub code: Seq<char>,
    pub name: Seq<char>,
    pub nodes: Seq<NodeView>,
}

/// The characters of an optional string.
pub open spec fn opt_text(s: Option<&str>) -> Option<Seq<char>> {
    match s {
        Some(x) => Some(x@),
        None => None,
    }
}

impl<'a> View for Pin<'a> {
    type V = PinView;

    open spec fn view(&self) -> PinView {
        PinView { num: self.num@, name: self.name@, typ: self.typ@ }
    }
}

impl<'a> View for Node<'a> {
    type V = NodeView;

    open spec fn view(&self) -> NodeView {
        NodeView {
            ref_des: self.ref_des@,
            num: self.num@,
            function: opt_text(self.function),
            typ: self.typ@,
        }
    }
}

impl<'a> View for Component<'a> {
    type V = ComponentView;

    open spec fn view(&self) -> ComponentView {
        ComponentView {
            ref_des: self.ref_des@,
            value: self.value@,
            part: self.part@,
            lib: self.lib@,
            properties: self.properties@.map_values(|p: (&'a str, &'a str)| (p.0@, p.1@)),
            footprint: opt_text(self.footprint),
        }
    }
}

impl<'a> View for Part<'a> {
    type V = PartView;

    open spec fn view(&self) -> PartView {
        PartView {
            part: self.part@,
            lib: self.lib@,
            description: self.description@,
            pins: view_all(self.pins@),
        }
    }
}

impl<'a> View for Net<'a> {
    type V = NetView;

    open spec fn view(&self) -> NetView {
        NetView { code: self.code@, name: self.name@, nodes: view_all(self.nodes@) }
    }
}

impl<'a> View for NetList<'a> {
    type V = NetListView;

    open spec fn view(&self) -> NetListView {
        NetListView {
            components: view_all(self.components@),
            parts: view_all(self.parts@),
            nets: view_all(self.nets@),
        }
    }
}

} // verus!
