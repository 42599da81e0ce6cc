//! From the records of a netlist to the linked model: components, parts and
//! nets that refer to each other by name, with every reference checked.
use vstd::prelude::*;
use vstd::string::*;
use crate::error::{agrees, make_part_label, part_label, view_all, ParseError, ParseErrorView};
use crate::names::{
    Footprint, NetCode, NetName, PartDescription, PinFunction, PinName, PinNum, RefDes, Value,
};
use crate::raw;
use crate::seqs::{
    any, collect, lemma_collect_err, lemma_collect_ok, lemma_filter_step, lemma_position_found,
    lemma_position_none, position,
};
use crate::text::{has_suffix, str_ends_with, str_eq};
use crate::{
    Component, ComponentPin, ComponentPinView, ComponentView, Net, NetList, NetListView, NetNode,
    NetNodeView, NetView, Part, PartId, PartIdView, PartPin, PartPinView, PartView, PinType,
    Property, PropertyView,
};

verus! {

/// The pin type that a string names. A string that ends in `no_connect` names
/// the unconnected type, whatever stands before; the other types have one
/// name each.
pub open spec fn pin_type_of(s: Seq<char>) -> Result<PinType, ParseErrorView> {
    if has_suffix(s, "no_connect"@) {
        Ok(PinType::Unconnected)
    } else if s == "input"@ {
        Ok(PinType::Input)
    } else if s == "output"@ {
        Ok(PinType::Output)
    } else if s == "bidirectional"@ {
        Ok(PinType::Bidirectional)
    } else if s == "tri_state"@ {
        Ok(PinType::TriState)
    } else if s == "passive"@ {
        Ok(PinType::Passive)
    } else if s == "free"@ {
        Ok(PinType::Free)
    } else if s == "power_in"@ {
        Ok(PinType::PowerInput)
    } else if s == "power_out"@ {
        Ok(PinType::PowerOutput)
    } else if s == "open_collector"@ {
        Ok(PinType::OpenCollector)
    } else if s == "open_emitter"@ {
        Ok(PinType::OpenEmitter)
    } else {
        Err(ParseErrorView::UnknownPinType(s))
    }
}

/// The pin of a part that a pin record describes.
pub open spec fn part_pin_of(p: raw::PinView) -> Result<PartPinView, ParseErrorView> {
    match pin_type_of(p.typ) {
        Ok(typ) => Ok(PartPinView { num: p.num, name: p.name, typ }),
        Err(e) => Err(e),
    }
}

/// The part that a part record describes, before its users are known.
pub open spec fn part_of(p: raw::PartView) -> Result<PartView, ParseErrorView> {
    match collect(p.pins.map_values(|x: raw::PinView| part_pin_of(x))) {
        Ok(pins) => Ok(
            PartView {
                part_id: PartIdView { lib: p.lib, part: p.part },
                description: p.description,
                pins,
                components: Seq::empty(),
            },
        ),
        Err(e) => Err(e),
    }
}

/// The component that a component record describes, before its pins are
/// known.
pub open spec fn component_of(c: raw::ComponentView) -> ComponentView {
    ComponentView {
        ref_des: c.ref_des,
        value: c.value,
        part_id: PartIdView { lib: c.lib, part: c.part },
        properties: c.properties.map_values(
            |p: (Seq<char>, Seq<char>)| PropertyView { name: p.0, value: p.1 },
        ),
        footprint: c.footprint,
        pins: Seq::empty(),
    }
}

/// The node that a node record describes.
pub open spec fn node_of(n: raw::NodeView) -> Result<NetNodeView, ParseErrorView> {
    match pin_type_of(n.typ) {
        Ok(typ) => Ok(NetNodeView { ref_des: n.ref_des, num: n.num, function: n.function, typ }),
        Err(e) => Err(e),
    }
}

/// The net that a net record describes.
pub open spec fn net_of(n: raw::NetView) -> Result<NetView, ParseErrorView> {
    match collect(n.nodes.map_values(|x: raw::NodeView| node_of(x))) {
        Ok(nodes) => Ok(NetView { code: n.code, name: n.name, nodes }),
        Err(e) => Err(e),
    }
}

impl PinType {
    /// The pin type that `value` names; `UnknownPinType` where it names
    /// none.
    pub fn try_from(value: &str) -> (r: Result<PinType, ParseError>)
        ensures
            agrees(r, pin_type_of(value@)),
    {
        if str_ends_with(value, "no_connect") {
            Ok(PinType::Unconnected)
        } else if str_eq(value, "input") {
            Ok(PinType::Input)
        } else if str_eq(value, "output") {
            Ok(PinType::Output)
        } else if str_eq(value, "bidirectional") {
            Ok(PinType::Bidirectional)
        } else if str_eq(value, "tri_state") {
            Ok(PinType::TriState)
        } else if str_eq(value, "passive") {
            Ok(PinType::Passive)
        } else if str_eq(value, "free") {
            Ok(PinType::Free)
        } else if str_eq(value, "power_in") {
            Ok(PinType::PowerInput)
        } else if str_eq(value, "power_out") {
            Ok(PinType::PowerOutput)
        } else if str_eq(value, "open_collector") {
            Ok(PinType::OpenCollector)
        } else if str_eq(value, "open_emitter") {
            Ok(PinType::OpenEmitter)
        } else {
            Err(ParseError::UnknownPinType(value.to_owned()))
        }
    }
}

impl<'a> PartPin<'a> {
    /// The pin of a part that a pin record describes.
    pub fn try_from(value: raw::Pin<'a>) -> (r: Result<PartPin<'a>, ParseError>)
        ensures
            agrees(r, part_pin_of(value@)),
    {
        match PinType::try_from(value.typ) {
            Err(e) => Err(e),
            Ok(typ) => Ok(PartPin { num: PinNum(value.num), name: PinName(value.name), typ }),
        }
    }
}

impl<'a> Part<'a> {
    /// The part that a part record describes, still without users.
    pub fn try_from(value: raw::Part<'a>) -> (r: Result<Part<'a>, ParseError>)
        ensures
            agrees(r, part_of(value@)),
    {
        let raw::Part { part, lib, description, pins } = value;
        let part_id = PartId { lib, part };
        proof {
            let all = view_all(pins@);
            assert(all.map_values(|x: raw::PinView| part_pin_of(x)) =~= all.map_values(
                |x: raw::PinView| PartPin::made_from(x),
            ));
        }
        let out: Vec<PartPin<'a>> = match make_all(pins) {
            Err(e) => {
                return Err(e);
            },
            Ok(v) => v,
        };
        let p = Part {
            part_id,
            description: PartDescription(description),
            pins: out,
            components: Vec::new(),
        };
        assert(p@.components =~= Seq::empty());
        Ok(p)
    }
}

impl<'a> Component<'a> {
    /// The component that a component record describes, still without pins.
    /// It never fails.
    pub fn try_from(value: raw::Component<'a>) -> (r: Result<Component<'a>, ParseError>)
        ensures
            r matches Ok(c) && c@ == component_of(value@),
    {
        let raw::Component { ref_des, value: val, part, lib, properties, footprint } = value;
        let part_id = PartId { lib, part };
        let ghost all = properties@;
        let mut out: Vec<Property<'a>> = Vec::new();
        for p in it: properties.into_iter()
            invariant
                it.seq() == all,
                out.len() == it.index(),
                forall|j: int|
                    0 <= j < out.len() ==> (#[trigger] out[j])@ == (PropertyView {
                        name: all[j].0@,
                        value: all[j].1@,
                    }),
        {
            out.push(Property { name: p.0, value: p.1 });
        }
        let footprint = match footprint {
            Some(s) => Some(Footprint(s)),
            None => None,
        };
        let c = Component {
            ref_des: RefDes(ref_des),
            value: Value(val),
            part_id,
            properties: out,
            footprint,
            pins: Vec::new(),
        };
        proof {
            assert(c@.properties =~= component_of(value@).properties);
            assert(c@.pins =~= component_of(value@).pins);
        }
        Ok(c)
    }
}

impl<'a> NetNode<'a> {
    /// The node that a node record describes.
    pub fn try_from(value: raw::Node<'a>) -> (r: Result<NetNode<'a>, ParseError>)
        ensures
            agrees(r, node_of(value@)),
    {
        match PinType::try_from(value.typ) {
            Err(e) => Err(e),
            Ok(typ) => Ok(
                NetNode {
                    ref_des: RefDes(value.ref_des),
                    num: PinNum(value.num),
                    function: match value.function {
                        Some(f) => Some(PinFunction(f)),
                        None => None,
                    },
                    typ,
                },
            ),
        }
    }
}

impl<'a> Net<'a> {
    /// The net that a net record describes.
    pub fn try_from(value: raw::Net<'a>) -> (r: Result<Net<'a>, ParseError>)
        ensures
            agrees(r, net_of(value@)),
    {
        let raw::Net { code, name, nodes } = value;
        proof {
            let all = view_all(nodes@);
            assert(all.map_values(|x: raw::NodeView| node_of(x)) =~= all.map_values(
                |x: raw::NodeView| NetNode::made_from(x),
            ));
        }
        let out: Vec<NetNode<'a>> = match make_all(nodes) {
            Err(e) => {
                return Err(e);
            },
            Ok(v) => v,
        };
        Ok(Net { code: NetCode(code), name: NetName(name), nodes: out })
    }
}

/// The predicate that holds of the parts with the given identifier.
pub open spec fn with_id(id: PartIdView) -> spec_fn(PartView) -> bool {
    |p: PartView| p.part_id == id
}

/// The predicate that holds of the components that instantiate the part with
/// the given identifier.
pub open spec fn uses(id: PartIdView) -> spec_fn(ComponentView) -> bool {
    |c: ComponentView| c.part_id == id
}

/// The predicate that holds of the nodes that attach the given pin of the
/// given component.
pub open spec fn at_pin(ref_des: Seq<char>, num: Seq<char>) -> spec_fn(NetNodeView) -> bool {
    |n: NetNodeView| n.ref_des == ref_des && n.num == num
}

/// The predicate that holds of the nets with a node for the given pin of the
/// given component.
pub open spec fn touches(ref_des: Seq<char>, num: Seq<char>) -> spec_fn(NetView) -> bool {
    |net: NetView| any(net.nodes, at_pin(ref_des, num))
}

/// The pin of a component that stands for a pin of its part: it is bound to
/// the first net with a node for it.
pub open spec fn link_pin(ref_des: Seq<char>, pin: PartPinView, nets: Seq<NetView>) -> Result<
    ComponentPinView,
    ParseErrorView,
> {
    match position(nets, touches(ref_des, pin.num)) {
        Some(k) => Ok(
            ComponentPinView { num: pin.num, name: pin.name, typ: pin.typ, net: nets[k].name },
        ),
        None => Err(ParseErrorView::MissingNet(ref_des, pin.num)),
    }
}

/// The pins of a component, in the order of the pins of its part.
pub open spec fn link_pins(ref_des: Seq<char>, part: PartView, nets: Seq<NetView>) -> Result<
    Seq<ComponentPinView>,
    ParseErrorView,
> {
    collect(part.pins.map_values(|pin: PartPinView| link_pin(ref_des, pin, nets)))
}

/// The component with its pins: those of the first part with its identifier.
pub open spec fn link_component(c: ComponentView, parts: Seq<PartView>, nets: Seq<NetView>) -> Result<
    ComponentView,
    ParseErrorView,
> {
    match position(parts, with_id(c.part_id)) {
        None => Err(ParseErrorView::MissingPart(part_label(c.part_id.lib, c.part_id.part))),
        Some(j) => match link_pins(c.ref_des, parts[j], nets) {
            Ok(pins) => Ok(
                ComponentView {
                    ref_des: c.ref_des,
                    value: c.value,
                    part_id: c.part_id,
                    properties: c.properties,
                    footprint: c.footprint,
                    pins,
                },
            ),
            Err(e) => Err(e),
        },
    }
}

/// The function that gives the reference designator of a component.
pub open spec fn ref_des_of() -> spec_fn(ComponentView) -> Seq<char> {
    |c: ComponentView| c.ref_des
}

/// The reference designators of the components that instantiate a part, in
/// the order of the components.
pub open spec fn users(components: Seq<ComponentView>, id: PartIdView) -> Seq<Seq<char>> {
    components.filter(uses(id)).map_values(ref_des_of())
}

/// The part with its users; a part without any is an error.
pub open spec fn link_part(p: PartView, components: Seq<ComponentView>) -> Result<
    PartView,
    ParseErrorView,
> {
    let found = users(components, p.part_id);
    if found.len() == 0 {
        Err(ParseErrorView::UnusedPart(part_label(p.part_id.lib, p.part_id.part)))
    } else {
        Ok(
            PartView {
                part_id: p.part_id,
                description: p.description,
                pins: p.pins,
                components: found,
            },
        )
    }
}

/// The linked model of a netlist's records, or the first error in this
/// order: a pin type of a part, a pin type of a net's node, then for each
/// component its missing part or the first of its pins without a net, then
/// the first part without a user.
pub open spec fn resolve(raw: raw::NetListView) -> Result<NetListView, ParseErrorView> {
    match collect(raw.parts.map_values(|p: raw::PartView| part_of(p))) {
        Err(e) => Err(e),
        Ok(parts) => match collect(raw.nets.map_values(|n: raw::NetView| net_of(n))) {
            Err(e) => Err(e),
            Ok(nets) => match collect(
                raw.components.map_values(
                    |c: raw::ComponentView| link_component(component_of(c), parts, nets),
                ),
            ) {
                Err(e) => Err(e),
                Ok(components) => match collect(
                    parts.map_values(|p: PartView| link_part(p, components)),
                ) {
                    Err(e) => Err(e),
                    Ok(linked) => Ok(NetListView { components, parts: linked, nets }),
                },
            },
        },
    }
}

/// The linked model that a text describes.
pub open spec fn netlist_of(s: Seq<u8>) -> Result<NetListView, ParseErrorView> {
    match raw::parser::raw_netlist_of(s) {
        Err(e) => Err(e),
        Ok(raw) => resolve(raw),
    }
}

impl<'a> PartId<'a> {
    /// Whether two identifiers name the same library and part.
    pub fn same(&self, other: &PartId<'_>) -> (r: bool)
        ensures
            r == (self@ == other@),
    {
        str_eq(self.lib, other.lib) && str_eq(self.part, other.part)
    }
}

/// A piece of the model that is made from one record.
pub trait FromRecord<R: View>: View + Sized {
    /// The piece that the record describes, or why it describes none.
    spec fn made_from(record: R::V) -> Result<Self::V, ParseErrorView>;

    /// Makes the piece from its record.
    fn make(record: R) -> (r: Result<Self, ParseError>)
        ensures
            agrees(r, Self::made_from(record@)),
    ;
}

impl<'a> FromRecord<raw::Pin<'a>> for PartPin<'a> {
    open spec fn made_from(record: raw::PinView) -> Result<PartPinView, ParseErrorView> {
        part_pin_of(record)
    }

    fn make(record: raw::Pin<'a>) -> (r: Result<Self, ParseError>) {
        PartPin::try_from(record)
    }
}

impl<'a> FromRecord<raw::Part<'a>> for Part<'a> {
    open spec fn made_from(record: raw::PartView) -> Result<PartView, ParseErrorView> {
        part_of(record)
    }

    fn make(record: raw::Part<'a>) -> (r: Result<Self, ParseError>) {
        Part::try_from(record)
    }
}

impl<'a> FromRecord<raw::Node<'a>> for NetNode<'a> {
    open spec fn made_from(record: raw::NodeView) -> Result<NetNodeView, ParseErrorView> {
        node_of(record)
    }

    fn make(record: raw::Node<'a>) -> (r: Result<Self, ParseError>) {
        NetNode::try_from(record)
    }
}

impl<'a> FromRecord<raw::Net<'a>> for Net<'a> {
    open spec fn made_from(record: raw::NetView) -> Result<NetView, ParseErrorView> {
        net_of(record)
    }

    fn make(record: raw::Net<'a>) -> (r: Result<Self, ParseError>) {
        Net::try_from(record)
    }
}

/// Makes a piece of the model from each record, in their order. The first
/// record that describes none gives the error.
fn make_all<R: View, T: FromRecord<R>>(records: Vec<R>) -> (r: Result<Vec<T>, ParseError>)
    ensures
        match collect(view_all(records@).map_values(|x: R::V| T::made_from(x))) {
            Ok(v) => r matches Ok(x) && view_all(x@) == v,
            Err(e) => r matches Err(x) && x@ == e,
        },
{
    let ghost all = view_all(records@);
    let ghost steps = all.map_values(|x: R::V| T::made_from(x));
    let mut out: Vec<T> = Vec::new();
    for record in it: records.into_iter()
        invariant
            view_all(it.seq()) == all,
            all == view_all(records@),
            steps == all.map_values(|x: R::V| T::made_from(x)),
            out.len() == it.index(),
            forall|j: int|
                0 <= j < out.len() ==> (#[trigger] steps[j]) == Ok::<T::V, ParseErrorView>(
                    out[j]@,
                ),
    {
        let ghost k = it.index() as int;
        assert(record@ == all[k]);
        match T::make(record) {
            Err(e) => {
                proof {
                    lemma_collect_err(steps, k);
                }
                return Err(e);
            },
            Ok(x) => {
                out.push(x);
            },
        }
    }
    proof {
        lemma_collect_ok(steps, view_all(out@));
    }
    Ok(out)
}

/// The index of the first part with the given identifier.
pub fn find_part(parts: &Vec<Part<'_>>, id: &PartId<'_>) -> (r: Option<usize>)
    ensures
        match position(view_all(parts@), with_id(id@)) {
            Some(j) => r == Some(j as usize) && j < parts.len(),
            None => r is None,
        },
{
    let ghost all = view_all(parts@);
    let mut j: usize = 0;
    while j < parts.len()
        invariant
            j <= parts.len(),
            all == view_all(parts@),
            forall|k: int| 0 <= k < j ==> !with_id(id@)(#[trigger] all[k]),
        decreases parts.len() - j,
    {
        if parts[j].part_id.same(id) {
            proof {
                lemma_position_found(all, with_id(id@), j as int);
            }
            return Some(j);
        }
        j += 1;
    }
    proof {
        lemma_position_none(all, with_id(id@));
    }
    None
}

/// Whether the net has a node for the given pin of the given component.
pub fn net_touches(net: &Net<'_>, ref_des: &RefDes<'_>, num: &PinNum<'_>) -> (r: bool)
    ensures
        r == touches(ref_des@, num@)(net@),
{
    let ghost all = view_all(net.nodes@);
    let mut i: usize = 0;
    while i < net.nodes.len()
        invariant
            i <= net.nodes.len(),
            all == view_all(net.nodes@),
            forall|k: int| 0 <= k < i ==> !at_pin(ref_des@, num@)(#[trigger] all[k]),
        decreases net.nodes.len() - i,
    {
        let node = &net.nodes[i];
        if str_eq(node.ref_des.0, ref_des.0) && str_eq(node.num.0, num.0) {
            assert(at_pin(ref_des@, num@)(all[i as int]));
            return true;
        }
        i += 1;
    }
    false
}

/// The index of the first net with a node for the given pin of the given
/// component.
pub fn find_net(nets: &Vec<Net<'_>>, ref_des: &RefDes<'_>, num: &PinNum<'_>) -> (r: Option<usize>)
    ensures
        match position(view_all(nets@), touches(ref_des@, num@)) {
            Some(k) => r == Some(k as usize) && k < nets.len(),
            None => r is None,
        },
{
    let ghost all = view_all(nets@);
    let mut k: usize = 0;
    while k < nets.len()
        invariant
            k <= nets.len(),
            all == view_all(nets@),
            forall|j: int| 0 <= j < k ==> !touches(ref_des@, num@)(#[trigger] all[j]),
        decreases nets.len() - k,
    {
        if net_touches(&nets[k], ref_des, num) {
            proof {
                lemma_position_found(all, touches(ref_des@, num@), k as int);
            }
            return Some(k);
        }
        k += 1;
    }
    proof {
        lemma_position_none(all, touches(ref_des@, num@));
    }
    None
}

fn bind_pins<'a>(ref_des: &RefDes<'a>, part: &Part<'a>, nets: &Vec<Net<'a>>) -> (r: Result<
    Vec<ComponentPin<'a>>,
    ParseError,
>)
    ensures
        match link_pins(ref_des@, part@, view_all(nets@)) {
            Ok(v) => r matches Ok(x) && view_all(x@) == v,
            Err(e) => r matches Err(x) && x@ == e,
        },
{
    let ghost all = view_all(part.pins@);
    let ghost wires = view_all(nets@);
    let ghost steps = all.map_values(|pin: PartPinView| link_pin(ref_des@, pin, wires));
    let mut out: Vec<ComponentPin<'a>> = Vec::new();
    let mut i: usize = 0;
    while i < part.pins.len()
        invariant
            i <= part.pins.len(),
            out.len() == i,
            all == view_all(part.pins@),
            all == part@.pins,
            wires == view_all(nets@),
            steps == all.map_values(|pin: PartPinView| link_pin(ref_des@, pin, wires)),
            forall|j: int|
                0 <= j < out.len() ==> (#[trigger] steps[j]) == Ok::<
                    ComponentPinView,
                    ParseErrorView,
                >(out[j]@),
        decreases part.pins.len() - i,
    {
        let pin = &part.pins[i];
        assert(pin@ == all[i as int]);
        match find_net(nets, ref_des, &pin.num) {
            None => {
                proof {
                    lemma_collect_err(steps, i as int);
                }
                return Err(ParseError::MissingNet(ref_des.to_string(), pin.num.to_string()));
            },
            Some(k) => {
                out.push(
                    ComponentPin {
                        num: pin.num,
                        name: pin.name,
                        typ: pin.typ,
                        net: nets[k].name,
                    },
                );
            },
        }
        i += 1;
    }
    proof {
        lemma_collect_ok(steps, view_all(out@));
    }
    Ok(out)
}

fn bind_components<'a>(
    components: Vec<raw::Component<'a>>,
    parts: &Vec<Part<'a>>,
    nets: &Vec<Net<'a>>,
) -> (r: Result<Vec<Component<'a>>, ParseError>)
    ensures
        match collect(
            view_all(components@).map_values(
                |c: raw::ComponentView|
                    link_component(component_of(c), view_all(parts@), view_all(nets@)),
            ),
        ) {
            Ok(v) => r matches Ok(x) && view_all(x@) == v,
            Err(e) => r matches Err(x) && x@ == e,
        },
{
    let ghost all = view_all(components@);
    let ghost defs = view_all(parts@);
    let ghost wires = view_all(nets@);
    let ghost steps = all.map_values(
        |c: raw::ComponentView| link_component(component_of(c), defs, wires),
    );
    let mut out: Vec<Component<'a>> = Vec::new();
    for record in it: components.into_iter()
        invariant
            view_all(it.seq()) == all,
            all == view_all(components@),
            defs == view_all(parts@),
            wires == view_all(nets@),
            steps == all.map_values(
                |c: raw::ComponentView| link_component(component_of(c), defs, wires),
            ),
            out.len() == it.index(),
            forall|j: int|
                0 <= j < out.len() ==> (#[trigger] steps[j]) == Ok::<
                    ComponentView,
                    ParseErrorView,
                >(out[j]@),
    {
        let ghost k = it.index() as int;
        assert(record@ == all[k]);
        let comp = match Component::try_from(record) {
            Err(e) => {
                return Err(e);
            },
            Ok(c) => c,
        };
        let j = match find_part(parts, &comp.part_id) {
            None => {
                proof {
                    lemma_collect_err(steps, k);
                }
                return Err(
                    ParseError::MissingPart(make_part_label(comp.part_id.lib, comp.part_id.part)),
                );
            },
            Some(j) => j,
        };
        let pins = match bind_pins(&comp.ref_des, &parts[j], nets) {
            Err(e) => {
                proof {
                    lemma_collect_err(steps, k);
                }
                return Err(e);
            },
            Ok(p) => p,
        };
        let Component { ref_des, value, part_id, properties, footprint, pins: _ } = comp;
        out.push(Component { ref_des, value, part_id, properties, footprint, pins });
    }
    proof {
        lemma_collect_ok(steps, view_all(out@));
    }
    Ok(out)
}

/// The reference designators of the components that instantiate the part
/// with the given identifier.
pub fn users_of<'a>(components: &Vec<Component<'a>>, id: &PartId<'_>) -> (r: Vec<RefDes<'a>>)
    ensures
        view_all(r@) == users(view_all(components@), id@),
{
    let ghost all = view_all(components@);
    let mut out: Vec<RefDes<'a>> = Vec::new();
    let mut i: usize = 0;
    assert(all.take(0).filter(uses(id@)) =~= Seq::empty());
    while i < components.len()
        invariant
            i <= components.len(),
            all == view_all(components@),
            view_all(out@) =~= all.take(i as int).filter(uses(id@)).map_values(ref_des_of()),
        decreases components.len() - i,
    {
        proof {
            lemma_filter_step(all, uses(id@), i as int);
        }
        let ghost before = all.take(i as int).filter(uses(id@));
        let ghost held = view_all(out@);
        if components[i].part_id.same(id) {
            out.push(components[i].ref_des);
            assert(view_all(out@) =~= held.push(all[i as int].ref_des));
            assert(before.push(all[i as int]).map_values(ref_des_of()) =~= before.map_values(
                ref_des_of(),
            ).push(all[i as int].ref_des));
        }
        i += 1;
    }
    assert(all.take(i as int) =~= all);
    out
}

fn bind_parts<'a>(parts: Vec<Part<'a>>, components: &Vec<Component<'a>>) -> (r: Result<
    Vec<Part<'a>>,
    ParseError,
>)
    ensures
        match collect(
            view_all(parts@).map_values(|p: PartView| link_part(p, view_all(components@))),
        ) {
            Ok(v) => r matches Ok(x) && view_all(x@) == v,
            Err(e) => r matches Err(x) && x@ == e,
        },
{
    let ghost all = view_all(parts@);
    let ghost placed = view_all(components@);
    let ghost steps = all.map_values(|p: PartView| link_part(p, placed));
    let mut out: Vec<Part<'a>> = Vec::new();
    for part in it: parts.into_iter()
        invariant
            view_all(it.seq()) == all,
            all == view_all(parts@),
            placed == view_all(components@),
            steps == all.map_values(|p: PartView| link_part(p, placed)),
            out.len() == it.index(),
            forall|j: int|
                0 <= j < out.len() ==> (#[trigger] steps[j]) == Ok::<PartView, ParseErrorView>(
                    out[j]@,
                ),
    {
        let ghost k = it.index() as int;
        assert(part@ == all[k]);
        let found = users_of(components, &part.part_id);
        if found.len() == 0 {
            proof {
                lemma_collect_err(steps, k);
            }
            return Err(
                ParseError::UnusedPart(make_part_label(part.part_id.lib, part.part_id.part)),
            );
        }
        let Part { part_id, description, pins, components: _ } = part;
        out.push(Part { part_id, description, pins, components: found });
    }
    proof {
        lemma_collect_ok(steps, view_all(out@));
    }
    Ok(out)
}

impl<'a> NetList<'a> {
    /// Links the records of a netlist into the model.
    ///
    /// Every component gets the pins of its part, each bound to the net that
    /// holds a node for it; every part gets the components that use it. A
    /// component without its part fails with `MissingPart`, a pin without a
    /// net with `MissingNet`, a part without a user with `UnusedPart`, a pin
    /// type that is not known with `UnknownPinType`.
    pub fn try_from(value: raw::NetList<'a>) -> (r: Result<NetList<'a>, ParseError>)
        ensures
            agrees(r, resolve(value@)),
    {
        let raw::NetList { components, parts, nets } = value;
        proof {
            let all = view_all(parts@);
            assert(all.map_values(|p: raw::PartView| part_of(p)) =~= all.map_values(
                |x: raw::PartView| Part::made_from(x),
            ));
            let all = view_all(nets@);
            assert(all.map_values(|n: raw::NetView| net_of(n)) =~= all.map_values(
                |x: raw::NetView| Net::made_from(x),
            ));
        }
        let parts: Vec<Part<'a>> = match make_all(parts) {
            Err(e) => {
                return Err(e);
            },
            Ok(v) => v,
        };
        let nets: Vec<Net<'a>> = match make_all(nets) {
            Err(e) => {
                return Err(e);
            },
            Ok(v) => v,
        };
        let components = match bind_components(components, &parts, &nets) {
            Err(e) => {
                return Err(e);
            },
            Ok(v) => v,
        };
        let parts = match bind_parts(parts, &components) {
            Err(e) => {
                return Err(e);
            },
            Ok(v) => v,
        };
        Ok(NetList { components, parts, nets })
    }

    /// Reads a netlist from its text.
    pub fn parse(input: &'a str) -> (r: Result<NetList<'a>, ParseError>)
        ensures
            agrees(r, netlist_of(input.spec_bytes())),
    {
        match raw::NetList::parse(input) {
            Err(e) => Err(e),
            Ok(records) => NetList::try_from(records),
        }
    }
}

} // verus!
