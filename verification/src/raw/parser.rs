//! Reading the records of a netlist out of its S-expression: each record is a
//! fixed run of lookups by label.
use vstd::prelude::*;
use vstd::string::*;
use crate::error::{agrees, view_all, ParseError, ParseErrorView};
use crate::raw::{
    Component, ComponentView, Net, NetList, NetListView, NetView, Node, NodeView, Part, PartView,
    Pin, PinView,
};
use crate::seqs::{collect, lemma_collect_err, lemma_collect_ok};
use crate::sexpr::parser::sexpr_of;
use crate::sexpr::{SExpr, SExprView};
use crate::text::str_eq;

verus! {

/// The label that the outermost expression of a netlist carries.
pub open spec fn root_label() -> Seq<char> {
    "export"@
}

/// The one format version that is read.
pub open spec fn supported_version() -> Seq<char> {
    "E"@
}

/// A value that may be missing: any failure to find it gives `None`.
pub open spec fn optional(r: Result<Seq<char>, ParseErrorView>) -> Option<Seq<char>> {
    match r {
        Ok(s) => Some(s),
        Err(_) => None,
    }
}

/// A property of a component: its `name` and its `value`.
pub open spec fn property_of(e: SExprView) -> Result<(Seq<char>, Seq<char>), ParseErrorView> {
    match e.value("name"@) {
        Err(x) => Err(x),
        Ok(name) => match e.value("value"@) {
            Err(x) => Err(x),
            Ok(value) => Ok((name, value)),
        },
    }
}

/// The properties of a component, in document order.
pub open spec fn properties_of(e: SExprView) -> Result<
    Seq<(Seq<char>, Seq<char>)>,
    ParseErrorView,
> {
    collect(e.children("property"@).map_values(|p: SExprView| property_of(p)))
}

/// A component: `ref`, `value`, the optional `footprint`, the properties, and
/// `lib` and `part` of its `libsource`. The first of these that is missing
/// gives the error.
pub open spec fn component_of(e: SExprView) -> Result<ComponentView, ParseErrorView> {
    match e.value("ref"@) {
        Err(x) => Err(x),
        Ok(ref_des) => match e.value("value"@) {
            Err(x) => Err(x),
            Ok(value) => match properties_of(e) {
                Err(x) => Err(x),
                Ok(properties) => match e.child("libsource"@) {
                    Err(x) => Err(x),
                    Ok(source) => match source.value("lib"@) {
                        Err(x) => Err(x),
                        Ok(lib) => match source.value("part"@) {
                            Err(x) => Err(x),
                            Ok(part) => Ok(
                                ComponentView {
                                    ref_des,
                                    value,
                                    part,
                                    lib,
                                    properties,
                                    footprint: optional(e.value("footprint"@)),
                                },
                            ),
                        },
                    },
                },
            },
        },
    }
}

/// A pin of a part: `num`, `name` and `type`.
pub open spec fn pin_of(e: SExprView) -> Result<PinView, ParseErrorView> {
    match e.value("num"@) {
        Err(x) => Err(x),
        Ok(num) => match e.value("name"@) {
            Err(x) => Err(x),
            Ok(name) => match e.value("type"@) {
                Err(x) => Err(x),
                Ok(typ) => Ok(PinView { num, name, typ }),
            },
        },
    }
}

/// The pins of a part: the `pin` children of its `pins`, or none where it has
/// no `pins`.
pub open spec fn pins_of(e: SExprView) -> Result<Seq<PinView>, ParseErrorView> {
    match e.child("pins"@) {
        Ok(pins) => collect(pins.children("pin"@).map_values(|p: SExprView| pin_of(p))),
        Err(_) => Ok(Seq::empty()),
    }
}

/// A part: `lib`, `part`, `description` and the pins. Only the pins may be
/// missing; the first of the others that is missing gives the error.
pub open spec fn part_of(e: SExprView) -> Result<PartView, ParseErrorView> {
    match e.value("lib"@) {
        Err(x) => Err(x),
        Ok(lib) => match e.value("part"@) {
            Err(x) => Err(x),
            Ok(part) => match e.value("description"@) {
                Err(x) => Err(x),
                Ok(description) => match pins_of(e) {
                    Err(x) => Err(x),
                    Ok(pins) => Ok(PartView { part, lib, description, pins }),
                },
            },
        },
    }
}

/// A node of a net: `ref`, `pin`, the optional `pinfunction`, and `pintype`.
pub open spec fn node_of(e: SExprView) -> Result<NodeView, ParseErrorView> {
    match e.value("ref"@) {
        Err(x) => Err(x),
        Ok(ref_des) => match e.value("pin"@) {
            Err(x) => Err(x),
            Ok(num) => match e.value("pintype"@) {
                Err(x) => Err(x),
                Ok(typ) => Ok(
                    NodeView { ref_des, num, function: optional(e.value("pinfunction"@)), typ },
                ),
            },
        },
    }
}

/// A net: `code`, `name` and its `node` children.
pub open spec fn net_of(e: SExprView) -> Result<NetView, ParseErrorView> {
    match e.value("code"@) {
        Err(x) => Err(x),
        Ok(code) => match e.value("name"@) {
            Err(x) => Err(x),
            Ok(name) => match collect(e.children("node"@).map_values(|n: SExprView| node_of(n))) {
                Err(x) => Err(x),
                Ok(nodes) => Ok(NetView { code, name, nodes }),
            },
        },
    }
}

/// The label of the outermost expression; for an atom, its text.
pub open spec fn label_of(e: SExprView) -> Seq<char> {
    match e {
        SExprView::Labeled(label, _) => label,
        SExprView::Atom(s) => s,
    }
}

/// The `comp` children of `components`.
pub open spec fn components_of(e: SExprView) -> Result<Seq<ComponentView>, ParseErrorView> {
    match e.child("components"@) {
        Err(x) => Err(x),
        Ok(list) => collect(list.children("comp"@).map_values(|c: SExprView| component_of(c))),
    }
}

/// The `libpart` children of `libparts`.
pub open spec fn parts_of(e: SExprView) -> Result<Seq<PartView>, ParseErrorView> {
    match e.child("libparts"@) {
        Err(x) => Err(x),
        Ok(list) => collect(list.children("libpart"@).map_values(|c: SExprView| part_of(c))),
    }
}

/// The `net` children of `nets`.
pub open spec fn nets_of(e: SExprView) -> Result<Seq<NetView>, ParseErrorView> {
    match e.child("nets"@) {
        Err(x) => Err(x),
        Ok(list) => collect(list.children("net"@).map_values(|c: SExprView| net_of(c))),
    }
}

/// A netlist: the outermost expression has to be an `export` of the supported
/// version; then come its components, its parts and its nets.
pub open spec fn netlist_of(e: SExprView) -> Result<NetListView, ParseErrorView> {
    if !(e is Labeled) || label_of(e) != root_label() {
        Err(ParseErrorView::UnexpectedRootLabel(label_of(e)))
    } else {
        match e.value("version"@) {
            Err(x) => Err(x),
            Ok(version) => if version != supported_version() {
                Err(ParseErrorView::UnknownVersion(version))
            } else {
                match components_of(e) {
                    Err(x) => Err(x),
                    Ok(components) => match parts_of(e) {
                        Err(x) => Err(x),
                        Ok(parts) => match nets_of(e) {
                            Err(x) => Err(x),
                            Ok(nets) => Ok(NetListView { components, parts, nets }),
                        },
                    },
                }
            },
        }
    }
}

/// The netlist records that a text holds.
pub open spec fn raw_netlist_of(s: Seq<u8>) -> Result<NetListView, ParseErrorView> {
    match sexpr_of(s) {
        Err(x) => Err(x),
        Ok(e) => netlist_of(e),
    }
}

/// A record that one S-expression holds.
pub trait Record<'a>: View + Sized {
    /// The record that the expression holds, or why it holds none.
    spec fn reading(e: SExprView) -> Result<Self::V, ParseErrorView>;

    /// Reads the record from its expression.
    fn read(e: &SExpr<'a>) -> (r: Result<Self, ParseError>)
        ensures
            agrees(r, Self::reading(e@)),
    ;
}

impl<'a> Record<'a> for (&'a str, &'a str) {
    open spec fn reading(e: SExprView) -> Result<(Seq<char>, Seq<char>), ParseErrorView> {
        property_of(e)
    }

    fn read(e: &SExpr<'a>) -> (r: Result<Self, ParseError>) {
        let name = match e.value("name") {
            Err(x) => {
                return Err(x);
            },
            Ok(v) => v,
        };
        let value = match e.value("value") {
            Err(x) => {
                return Err(x);
            },
            Ok(v) => v,
        };
        Ok((name, value))
    }
}

impl<'a> Record<'a> for Component<'a> {
    open spec fn reading(e: SExprView) -> Result<ComponentView, ParseErrorView> {
        component_of(e)
    }

    fn read(e: &SExpr<'a>) -> (r: Result<Self, ParseError>) {
        Component::try_from(e)
    }
}

impl<'a> Record<'a> for Pin<'a> {
    open spec fn reading(e: SExprView) -> Result<PinView, ParseErrorView> {
        pin_of(e)
    }

    fn read(e: &SExpr<'a>) -> (r: Result<Self, ParseError>) {
        Pin::try_from(e)
    }
}

impl<'a> Record<'a> for Part<'a> {
    open spec fn reading(e: SExprView) -> Result<PartView, ParseErrorView> {
        part_of(e)
    }

    fn read(e: &SExpr<'a>) -> (r: Result<Self, ParseError>) {
        Part::try_from(e)
    }
}

impl<'a> Record<'a> for Node<'a> {
    open spec fn reading(e: SExprView) -> Result<NodeView, ParseErrorView> {
        node_of(e)
    }

    fn read(e: &SExpr<'a>) -> (r: Result<Self, ParseError>) {
        Node::try_from(e)
    }
}

impl<'a> Record<'a> for Net<'a> {
    open spec fn reading(e: SExprView) -> Result<NetView, ParseErrorView> {
        net_of(e)
    }

    fn read(e: &SExpr<'a>) -> (r: Result<Self, ParseError>) {
        Net::try_from(e)
    }
}

/// Reads a record from each child of `e` with the given label, in document
/// order. The first child that holds no record gives the error.
fn read_all<'a, T: Record<'a>>(e: &SExpr<'a>, label: &str) -> (r: Result<Vec<T>, ParseError>)
    ensures
        match collect(e@.children(label@).map_values(|c: SExprView| T::reading(c))) {
            Ok(v) => r matches Ok(x) && view_all(x@) == v,
            Err(err) => r matches Err(x) && x@ == err,
        },
{
    let mut iter = e.children(label);
    let ghost all = iter.remaining();
    let ghost steps = all.map_values(|c: SExprView| T::reading(c));
    let mut out: Vec<T> = Vec::new();
    loop
        invariant
            all == e@.children(label@),
            out.len() <= all.len(),
            iter.remaining() == all.skip(out.len() as int),
            steps == all.map_values(|c: SExprView| T::reading(c)),
            forall|j: int|
                0 <= j < out.len() ==> (#[trigger] steps[j]) == Ok::<T::V, ParseErrorView>(
                    out[j]@,
                ),
        ensures
            out.len() == all.len(),
        decreases iter.remaining().len(),
    {
        let ghost k = out.len() as int;
        match iter.next() {
            None => {
                break ;
            },
            Some(c) => {
                assert(c@ == all[k]);
                match T::read(c) {
                    Err(x) => {
                        proof {
                            lemma_collect_err(steps, k);
                        }
                        return Err(x);
                    },
                    Ok(v) => {
                        out.push(v);
                        assert(all.skip(k).drop_first() =~= all.skip(k + 1));
                    },
                }
            },
        }
    }
    proof {
        lemma_collect_ok(steps, view_all(out@));
    }
    Ok(out)
}

impl<'a> Component<'a> {
    /// Reads a component from its `comp` expression.
    pub fn try_from(value: &SExpr<'a>) -> (r: Result<Component<'a>, ParseError>)
        ensures
            agrees(r, component_of(value@)),
    {
        let ref_des = match value.value("ref") {
            Err(x) => {
                return Err(x);
            },
            Ok(v) => v,
        };
        let val = match value.value("value") {
            Err(x) => {
                return Err(x);
            },
            Ok(v) => v,
        };
        let footprint = match value.value("footprint") {
            Ok(f) => Some(f),
            Err(_) => None,
        };
        proof {
            let items = value@.children("property"@);
            assert(items.map_values(|p: SExprView| property_of(p)) =~= items.map_values(
                |c: SExprView| <(&'a str, &'a str)>::reading(c),
            ));
        }
        let properties: Vec<(&'a str, &'a str)> = match read_all(value, "property") {
            Err(x) => {
                return Err(x);
            },
            Ok(v) => v,
        };
        assert(properties@.map_values(|p: (&'a str, &'a str)| (p.0@, p.1@)) =~= view_all(
            properties@,
        ));
        let libsource = match value.child("libsource") {
            Err(x) => {
                return Err(x);
            },
            Ok(v) => v,
        };
        let lib = match libsource.value("lib") {
            Err(x) => {
                return Err(x);
            },
            Ok(v) => v,
        };
        let part = match libsource.value("part") {
            Err(x) => {
                return Err(x);
            },
            Ok(v) => v,
        };
        Ok(Component { ref_des, value: val, part, lib, properties, footprint })
    }
}

impl<'a> Pin<'a> {
    /// Reads a pin from its `pin` expression.
    pub fn try_from(value: &SExpr<'a>) -> (r: Result<Pin<'a>, ParseError>)
        ensures
            agrees(r, pin_of(value@)),
    {
        let num = match value.value("num") {
            Err(x) => {
                return Err(x);
            },
            Ok(v) => v,
        };
        let name = match value.value("name") {
            Err(x) => {
                return Err(x);
            },
            Ok(v) => v,
        };
        let typ = match value.value("type") {
            Err(x) => {
                return Err(x);
            },
            Ok(v) => v,
        };
        Ok(Pin { num, name, typ })
    }
}

impl<'a> Part<'a> {
    /// Reads a part from its `libpart` expression.
    pub fn try_from(value: &SExpr<'a>) -> (r: Result<Part<'a>, ParseError>)
        ensures
            agrees(r, part_of(value@)),
    {
        let lib = match value.value("lib") {
            Err(x) => {
                return Err(x);
            },
            Ok(v) => v,
        };
        let part = match value.value("part") {
            Err(x) => {
                return Err(x);
            },
            Ok(v) => v,
        };
        let description = match value.value("description") {
            Err(x) => {
                return Err(x);
            },
            Ok(v) => v,
        };
        let pins: Vec<Pin<'a>> = match value.child("pins") {
            Ok(list) => {
                proof {
                    let items = list@.children("pin"@);
                    assert(items.map_values(|p: SExprView| pin_of(p)) =~= items.map_values(
                        |c: SExprView| Pin::reading(c),
                    ));
                }
                match read_all(list, "pin") {
                    Err(x) => {
                        return Err(x);
                    },
                    Ok(v) => v,
                }
            },
            Err(_) => Vec::new(),
        };
        proof {
            assert(view_all(pins@) =~= pins_of(value@)->Ok_0);
        }
        Ok(Part { part, lib, description, pins })
    }
}

impl<'a> Node<'a> {
    /// Reads a node from its `node` expression.
    pub fn try_from(value: &SExpr<'a>) -> (r: Result<Node<'a>, ParseError>)
        ensures
            agrees(r, node_of(value@)),
    {
        let ref_des = match value.value("ref") {
            Err(x) => {
                return Err(x);
            },
            Ok(v) => v,
        };
        let num = match value.value("pin") {
            Err(x) => {
                return Err(x);
            },
            Ok(v) => v,
        };
        let function = match value.value("pinfunction") {
            Ok(f) => Some(f),
            Err(_) => None,
        };
        let typ = match value.value("pintype") {
            Err(x) => {
                return Err(x);
            },
            Ok(v) => v,
        };
        Ok(Node { ref_des, num, function, typ })
    }
}

impl<'a> Net<'a> {
    /// Reads a net from its `net` expression.
    pub fn try_from(value: &SExpr<'a>) -> (r: Result<Net<'a>, ParseError>)
        ensures
            agrees(r, net_of(value@)),
    {
        let code = match value.value("code") {
            Err(x) => {
                return Err(x);
            },
            Ok(v) => v,
        };
        let name = match value.value("name") {
            Err(x) => {
                return Err(x);
            },
            Ok(v) => v,
        };
        proof {
            let items = value@.children("node"@);
            assert(items.map_values(|n: SExprView| node_of(n)) =~= items.map_values(
                |c: SExprView| Node::reading(c),
            ));
        }
        let nodes: Vec<Node<'a>> = match read_all(value, "node") {
            Err(x) => {
                return Err(x);
            },
            Ok(v) => v,
        };
        Ok(Net { code, name, nodes })
    }
}

impl<'a> NetList<'a> {
    /// Reads the records of a netlist from its outermost expression.
    ///
    /// An expression that is no `export` fails with `UnexpectedRootLabel`, a
    /// version other than the supported one with `UnknownVersion`; both name
    /// what was found.
    pub fn try_from(value: &SExpr<'a>) -> (r: Result<NetList<'a>, ParseError>)
        ensures
            agrees(r, netlist_of(value@)),
            !(value@ is Labeled) || label_of(value@) != root_label() ==> r is Err && r->Err_0@
                == ParseErrorView::UnexpectedRootLabel(label_of(value@)),
            value@ is Labeled && label_of(value@) == root_label() && value@.value("version"@) is Ok
                && value@.value("version"@)->Ok_0 != supported_version() ==> r is Err
                && r->Err_0@ == ParseErrorView::UnknownVersion(value@.value("version"@)->Ok_0),
    {
        match value {
            SExpr::String(s) => {
                return Err(ParseError::UnexpectedRootLabel((*s).to_owned()));
            },
            SExpr::SExpr(label, _) => {
                if !str_eq(label, "export") {
                    return Err(ParseError::UnexpectedRootLabel((*label).to_owned()));
                }
            },
        }
        let version = match value.value("version") {
            Err(x) => {
                return Err(x);
            },
            Ok(v) => v,
        };
        if !str_eq(version, "E") {
            return Err(ParseError::UnknownVersion(version.to_owned()));
        }
        let components: Vec<Component<'a>> = match value.child("components") {
            Err(x) => {
                return Err(x);
            },
            Ok(list) => {
                proof {
                    let items = list@.children("comp"@);
                    assert(items.map_values(|c: SExprView| component_of(c)) =~= items.map_values(
                        |c: SExprView| Component::reading(c),
                    ));
                }
                match read_all(list, "comp") {
                    Err(x) => {
                        return Err(x);
                    },
                    Ok(v) => v,
                }
            },
        };
        let parts: Vec<Part<'a>> = match value.child("libparts") {
            Err(x) => {
                return Err(x);
            },
            Ok(list) => {
                proof {
                    let items = list@.children("libpart"@);
                    assert(items.map_values(|c: SExprView| part_of(c)) =~= items.map_values(
                        |c: SExprView| Part::reading(c),
                    ));
                }
                match read_all(list, "libpart") {
                    Err(x) => {
                        return Err(x);
                    },
                    Ok(v) => v,
                }
            },
        };
        let nets: Vec<Net<'a>> = match value.child("nets") {
            Err(x) => {
                return Err(x);
            },
            Ok(list) => {
                proof {
                    let items = list@.children("net"@);
                    assert(items.map_values(|c: SExprView| net_of(c)) =~= items.map_values(
                        |c: SExprView| Net::reading(c),
                    ));
                }
                match read_all(list, "net") {
                    Err(x) => {
                        return Err(x);
                    },
                    Ok(v) => v,
                }
            },
        };
        Ok(NetList { components, parts, nets })
    }

    /// Reads the records of a netlist from its text.
    pub fn parse(input: &'a str) -> (r: Result<NetList<'a>, ParseError>)
        ensures
            agrees(r, raw_netlist_of(input.spec_bytes())),
    {
        match SExpr::try_from(input) {
            Err(x) => Err(x),
            Ok(root) => NetList::try_from(&root),
        }
    }
}

} // verus!
