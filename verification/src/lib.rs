//! # Read and manipulate KiCad netlist files
//!
//! The netlist is parsed from a provided `str` or `String` reference, and all
//! data is stored as references into that string.
use vstd::prelude::*;

pub mod error;
pub mod laws;
pub mod names;
pub mod parse;
pub mod raw;
pub mod seqs;
pub mod sexpr;
pub mod text;

pub use crate::error::ParseError;
pub use crate::names::{
    Footprint, NetCode, NetName, PartDescription, PinFunction, PinName, PinNum, RefDes, Value,
};
use crate::error::view_all;
use crate::parse::{find_net, find_part, touches, with_id};
use crate::seqs::{
    any, is_first, lemma_filter_same, lemma_filter_step, lemma_position, position,
};
use crate::text::str_eq;

verus! {

/// The full netlist
#[derive(Debug, Clone)]
pub struct NetList<'a> {
    pub components: Vec<Component<'a>>,
    pub parts: Vec<Part<'a>>,
    pub nets: Vec<Net<'a>>,
}

/// Part identifier
#[derive(Debug, Clone, Copy, PartialEq, Eq, Hash)]
pub struct PartId<'a> {
    pub lib: &'a str,
    pub part: &'a str,
}

/// General property
#[derive(Debug, Clone, Copy, PartialEq, Eq, Hash)]
pub struct Property<'a> {
    pub name: &'a str,
    pub value: &'a str,
}

/// A component in the schematic
#[derive(Debug, Clone)]
pub struct Component<'a> {
    pub ref_des: RefDes<'a>,
    pub value: Value<'a>,
    pub part_id: PartId<'a>,
    pub properties: Vec<Property<'a>>,
    pub footprint: Option<Footprint<'a>>,
    pub pins: Vec<ComponentPin<'a>>,
}

/// The electrical type of the pin
#[derive(Debug, Clone, Copy, PartialEq, Eq, Structural)]
pub enum PinType {
    Input,
    Output,
    Bidirectional,
    TriState,
    Passive,
    Free,
    PowerInput,
    PowerOutput,
    OpenCollector,
    OpenEmitter,
    Unconnected,
}

/// A pin of an individual component
#[derive(Debug, Clone)]
pub struct ComponentPin<'a> {
    pub num: PinNum<'a>,
    pub name: PinName<'a>,
    pub typ: PinType,
    pub net: NetName<'a>,
}

/// A pin of a part
#[derive(Debug, Clone)]
pub struct PartPin<'a> {
    pub num: PinNum<'a>,
    pub name: PinName<'a>,
    pub typ: PinType,
}

/// A part
#[derive(Debug, Clone)]
pub struct Part<'a> {
    pub part_id: PartId<'a>,
    pub description: PartDescription<'a>,
    pub pins: Vec<PartPin<'a>>,
    pub components: Vec<RefDes<'a>>,
}

/// A node connects a net to a pin
#[derive(Debug, Clone)]
pub struct NetNode<'a> {
    pub ref_des: RefDes<'a>,
    pub num: PinNum<'a>,
    pub function: Option<PinFunction<'a>>,
    pub typ: PinType,
}

/// A net
#[derive(Debug, Clone)]
pub struct Net<'a> {
    /// A unique id for the net
    pub code: NetCode<'a>,
    pub name: NetName<'a>,
    pub nodes: Vec<NetNode<'a>>,
}

/// A part identifier as character sequences.
pub struct PartIdView {
    pub lib: Seq<char>,
    pub part: Seq<char>,
}

/// A property as character sequences.
pub struct PropertyView {
    pub name: Seq<char>,
    pub value: Seq<char>,
}

/// A pin of a component, its names as character sequences.
pub struct ComponentPinView {
    pub num: Seq<char>,
    pub name: Seq<char>,
    pub typ: PinType,
    pub net: Seq<char>,
}

/// A component, its names as character sequences.
pub struct ComponentView {
    pub ref_des: Seq<char>,
    pub value: Seq<char>,
    pub part_id: PartIdView,
    pub properties: Seq<PropertyView>,
    pub footprint: Option<Seq<char>>,
    pub pins: Seq<ComponentPinView>,
}

/// A pin of a part, its names as character sequences.
pub struct PartPinView {
    pub num: Seq<char>,
    pub name: Seq<char>,
    pub typ: PinType,
}

/// A part, its names as character sequences; `components` holds the
/// reference designators of its users.
pub struct PartView {
    pub part_id: PartIdView,
    pub description: Seq<char>,
    pub pins: Seq<PartPinView>,
    pub components: Seq<Seq<char>>,
}

/// A node of a net, its names as character sequences.
pub struct NetNodeView {
    pub ref_des: Seq<char>,
    pub num: Seq<char>,
    pub function: Option<Seq<char>>,
    pub typ: PinType,
}

/// A net, its names as character sequences.
pub struct NetView {
    pub code: Seq<char>,
    pub name: Seq<char>,
    pub nodes: Seq<NetNodeView>,
}

/// The netlist as mathematics: three sequences, every name a sequence of
/// characters.
pub struct NetListView {
    pub components: Seq<ComponentView>,
    pub parts: Seq<PartView>,
    pub nets: Seq<NetView>,
}

impl View for PinType {
    type V = PinType;

    open spec fn view(&self) -> PinType {
        *self
    }
}

impl<'a> View for PartId<'a> {
    type V = PartIdView;

    open spec fn view(&self) -> PartIdView {
        PartIdView { lib: self.lib@, part: self.part@ }
    }
}

impl<'a> View for Property<'a> {
    type V = PropertyView;

    open spec fn view(&self) -> PropertyView {
        PropertyView { name: self.name@, value: self.value@ }
    }
}

impl<'a> View for ComponentPin<'a> {
    type V = ComponentPinView;

    open spec fn view(&self) -> ComponentPinView {
        ComponentPinView { num: self.num@, name: self.name@, typ: self.typ, net: self.net@ }
    }
}

impl<'a> View for PartPin<'a> {
    type V = PartPinView;

    open spec fn view(&self) -> PartPinView {
        PartPinView { num: self.num@, name: self.name@, typ: self.typ }
    }
}

impl<'a> View for Component<'a> {
    type V = ComponentView;

    open spec fn view(&self) -> ComponentView {
        ComponentView {
            ref_des: self.ref_des@,
            value: self.value@,
            part_id: self.part_id@,
            properties: view_all(self.properties@),
            footprint: match self.footprint {
                Some(f) => Some(f@),
                None => None,
            },
            pins: view_all(self.pins@),
        }
    }
}

impl<'a> View for Part<'a> {
    type V = PartView;

    open spec fn view(&self) -> PartView {
        PartView {
            part_id: self.part_id@,
            description: self.description@,
            pins: view_all(self.pins@),
            components: view_all(self.components@),
        }
    }
}

impl<'a> View for NetNode<'a> {
    type V = NetNodeView;

    open spec fn view(&self) -> NetNodeView {
        NetNodeView {
            ref_des: self.ref_des@,
            num: self.num@,
            function: match self.function {
                Some(f) => Some(f@),
                None => None,
            },
            typ: self.typ,
        }
    }
}

impl<'a> View for Net<'a> {
    type V = NetView;

    open spec fn view(&self) -> NetView {
        NetView { code: self.code@, name: self.name@, nodes: view_all(self.nodes@) }
    }
}

impl<'a> View for NetList<'a> {
    type V = NetListView;

    open spec fn view(&self) -> NetListView {
        NetListView {
            components: view_all(self.components@),
            parts: view_all(self.parts@),
            nets: view_all(self.nets@),
        }
    }
}

/// The predicate that holds of the components with the given reference
/// designator.
pub open spec fn named(ref_des: Seq<char>) -> spec_fn(ComponentView) -> bool {
    |c: ComponentView| c.ref_des == ref_des
}

/// The predicate that holds of the reference designators that `list` does
/// not hold.
pub open spec fn unlisted(list: Seq<Seq<char>>) -> spec_fn(Seq<char>) -> bool {
    |r: Seq<char>| !list.contains(r)
}

/// The predicate that holds of the components that `list` does not name.
pub open spec fn staying(list: Seq<Seq<char>>) -> spec_fn(ComponentView) -> bool {
    |c: ComponentView| !list.contains(c.ref_des)
}

/// The predicate that holds of the nodes of components that `list` does not
/// name.
pub open spec fn staying_node(list: Seq<Seq<char>>) -> spec_fn(NetNodeView) -> bool {
    |n: NetNodeView| !list.contains(n.ref_des)
}

/// The predicate that holds of the components that `list` names and that
/// instantiate the part with the given identifier.
pub open spec fn leaving_user(list: Seq<Seq<char>>, id: PartIdView) -> spec_fn(
    ComponentView,
) -> bool {
    |c: ComponentView| list.contains(c.ref_des) && c.part_id == id
}

/// The predicate that holds of the nets with at least one node.
pub open spec fn connected() -> spec_fn(NetView) -> bool {
    |n: NetView| n.nodes.len() > 0
}

impl NetView {
    /// The net without the nodes of the components that `list` names.
    pub open spec fn without(self, list: Seq<Seq<char>>) -> NetView {
        NetView { code: self.code, name: self.name, nodes: self.nodes.filter(staying_node(list)) }
    }
}

impl PartView {
    /// The part without the users that `list` names.
    pub open spec fn without(self, list: Seq<Seq<char>>) -> PartView {
        PartView {
            part_id: self.part_id,
            description: self.description,
            pins: self.pins,
            components: self.components.filter(unlisted(list)),
        }
    }
}

/// The nets after the components that `list` names have left: their nodes
/// are gone, and so is every net that has no node then.
pub open spec fn nets_without(nets: Seq<NetView>, list: Seq<Seq<char>>) -> Seq<NetView> {
    nets.map_values(|n: NetView| n.without(list)).filter(connected())
}

/// Whether removing the components that `list` names takes users from the
/// part at index `j`: some component that leaves instantiates it, and no part
/// before it has its identifier.
pub open spec fn loses_users(
    parts: Seq<PartView>,
    components: Seq<ComponentView>,
    list: Seq<Seq<char>>,
    j: int,
) -> bool {
    &&& is_first(parts, with_id(parts[j].part_id), j)
    &&& any(components, leaving_user(list, parts[j].part_id))
}

/// The first `n` parts after the components that `list` names have left: a
/// part that loses users loses all that `list` names, and is dropped when
/// none is left.
pub open spec fn parts_without(
    parts: Seq<PartView>,
    components: Seq<ComponentView>,
    list: Seq<Seq<char>>,
    n: nat,
) -> Seq<PartView>
    decreases n,
{
    if n == 0 || n > parts.len() {
        Seq::empty()
    } else {
        let j = n - 1;
        let before = parts_without(parts, components, list, j as nat);
        if loses_users(parts, components, list, j) {
            let left = parts[j].without(list);
            if left.components.len() == 0 {
                before
            } else {
                before.push(left)
            }
        } else {
            before.push(parts[j])
        }
    }
}

impl NetListView {
    /// The netlist without the first component with the given reference
    /// designator; unchanged where there is none.
    ///
    /// The nodes of that reference designator leave their nets, and a net
    /// left without nodes goes. The first part with the component's
    /// identifier loses the reference designator as a user, and goes when it
    /// has no user left.
    pub open spec fn remove_component(self, ref_des: Seq<char>) -> NetListView {
        match position(self.components, named(ref_des)) {
            None => self,
            Some(i) => NetListView {
                components: self.components.remove(i),
                parts: match position(self.parts, with_id(self.components[i].part_id)) {
                    None => self.parts,
                    Some(j) => {
                        let left = self.parts[j].without(seq![ref_des]);
                        if left.components.len() == 0 {
                            self.parts.remove(j)
                        } else {
                            self.parts.update(j, left)
                        }
                    },
                },
                nets: nets_without(self.nets, seq![ref_des]),
            },
        }
    }

    /// The netlist without the components that `list` names.
    pub open spec fn remove_components(self, list: Seq<Seq<char>>) -> NetListView {
        NetListView {
            components: self.components.filter(staying(list)),
            parts: parts_without(self.parts, self.components, list, self.parts.len()),
            nets: nets_without(self.nets, list),
        }
    }
}

/// Whether `list` holds the reference designator.
pub fn is_listed(list: &[RefDes<'_>], ref_des: &RefDes<'_>) -> (r: bool)
    ensures
        r == view_all(list@).contains(ref_des@),
{
    let ghost all = view_all(list@);
    let mut i: usize = 0;
    while i < list.len()
        invariant
            i <= list.len(),
            all == view_all(list@),
            forall|k: int| 0 <= k < i ==> all[k] != ref_des@,
        decreases list.len() - i,
    {
        if str_eq(list[i].0, ref_des.0) {
            assert(all[i as int] == ref_des@);
            return true;
        }
        i += 1;
    }
    false
}

/// What belongs to one component, which it names by reference designator.
pub trait Owned: View + Sized {
    /// The reference designator of the component that the item belongs to.
    spec fn owner(v: Self::V) -> Seq<char>;

    /// The reference designator of the component that the item belongs to.
    fn owner_name(&self) -> (r: &str)
        ensures
            r@ == Self::owner(self@),
    ;
}

impl<'a> Owned for RefDes<'a> {
    open spec fn owner(v: Seq<char>) -> Seq<char> {
        v
    }

    fn owner_name(&self) -> (r: &str) {
        self.0
    }
}

impl<'a> Owned for NetNode<'a> {
    open spec fn owner(v: NetNodeView) -> Seq<char> {
        v.ref_des
    }

    fn owner_name(&self) -> (r: &str) {
        self.ref_des.0
    }
}

impl<'a> Owned for Component<'a> {
    open spec fn owner(v: ComponentView) -> Seq<char> {
        v.ref_des
    }

    fn owner_name(&self) -> (r: &str) {
        self.ref_des.0
    }
}

/// The predicate that holds of the items that belong to no component that
/// `list` names.
pub open spec fn not_owned_by<T: Owned>(list: Seq<Seq<char>>) -> spec_fn(T::V) -> bool {
    |v: T::V| !list.contains(T::owner(v))
}

/// The items that belong to no component that `list` names, in their order.
fn keep_unlisted<T: Owned>(items: Vec<T>, list: &[RefDes<'_>]) -> (r: Vec<T>)
    ensures
        view_all(r@) == view_all(items@).filter(not_owned_by::<T>(view_all(list@))),
{
    let ghost all = view_all(items@);
    let ghost keep = not_owned_by::<T>(view_all(list@));
    let mut out: Vec<T> = Vec::new();
    assert(all.take(0).filter(keep) =~= Seq::empty());
    for x in it: items.into_iter()
        invariant
            view_all(it.seq()) == all,
            keep == not_owned_by::<T>(view_all(list@)),
            view_all(out@) =~= all.take(it.index() as int).filter(keep),
    {
        let ghost i = it.index() as int;
        let ghost held = view_all(out@);
        proof {
            lemma_filter_step(all, keep, i);
        }
        assert(x@ == all[i]);
        if !is_listed(list, &RefDes(x.owner_name())) {
            out.push(x);
            assert(view_all(out@) =~= held.push(all[i]));
        }
    }
    assert(all.take(all.len() as int) =~= all);
    out
}

fn strip_nets<'a>(nets: Vec<Net<'a>>, list: &[RefDes<'_>]) -> (r: Vec<Net<'a>>)
    ensures
        view_all(r@) == nets_without(view_all(nets@), view_all(list@)),
{
    let ghost all = view_all(nets@);
    let ghost names = view_all(list@);
    let ghost cut = all.map_values(|n: NetView| n.without(names));
    let mut out: Vec<Net<'a>> = Vec::new();
    assert(cut.take(0).filter(connected()) =~= Seq::empty());
    for net in it: nets.into_iter()
        invariant
            view_all(it.seq()) == all,
            names == view_all(list@),
            cut == all.map_values(|n: NetView| n.without(names)),
            view_all(out@) =~= cut.take(it.index() as int).filter(connected()),
    {
        let ghost i = it.index() as int;
        let ghost held = view_all(out@);
        proof {
            lemma_filter_step(cut, connected(), i);
        }
        assert(net@ == all[i]);
        let Net { code, name, nodes } = net;
        proof {
            lemma_filter_same(
                view_all(nodes@),
                not_owned_by::<NetNode<'a>>(names),
                staying_node(names),
            );
        }
        let nodes = keep_unlisted(nodes, list);
        if nodes.len() > 0 {
            let left = Net { code, name, nodes };
            assert(left@ == cut[i]);
            out.push(left);
            assert(view_all(out@) =~= held.push(cut[i]));
        }
    }
    assert(cut.take(cut.len() as int) =~= cut);
    out
}

/// The identifiers of the parts that the listed components instantiate.
fn leaving_part_ids<'a>(components: &Vec<Component<'a>>, list: &[RefDes<'_>]) -> (r: Vec<
    PartId<'a>,
>)
    ensures
        forall|id: PartIdView| #[trigger]
            view_all(r@).contains(id) <==> any(
                view_all(components@),
                leaving_user(view_all(list@), id),
            ),
{
    let ghost all = view_all(components@);
    let ghost names = view_all(list@);
    let mut out: Vec<PartId<'a>> = Vec::new();
    let mut i: usize = 0;
    while i < components.len()
        invariant
            i <= components.len(),
            all == view_all(components@),
            names == view_all(list@),
            forall|id: PartIdView| #[trigger]
                view_all(out@).contains(id) <==> any(all.take(i as int), leaving_user(names, id)),
        decreases components.len() - i,
    {
        let ghost held = view_all(out@);
        let ghost c = all[i as int];
        let ghost prev = all.take(i as int);
        assert(forall|id: PartIdView| #[trigger]
            held.contains(id) <==> any(prev, leaving_user(names, id)));
        let listed = is_listed(list, &components[i].ref_des);
        if listed {
            out.push(components[i].part_id);
            assert(view_all(out@) =~= held.push(c.part_id));
        }
        proof {
            let next = all.take(i + 1);
            let now = view_all(out@);
            assert(next =~= prev.push(c));
            assert forall|id: PartIdView| #[trigger]
                now.contains(id) <==> any(next, leaving_user(names, id)) by {
                let hit = leaving_user(names, id);
                if any(next, hit) {
                    let k = choose|k: int| 0 <= k < next.len() && hit(#[trigger] next[k]);
                    if k < i {
                        assert(hit(prev[k]));
                        assert(any(prev, hit));
                        assert(held.contains(id));
                        let m = choose|m: int| 0 <= m < held.len() && held[m] == id;
                        assert(now[m] == id);
                    } else {
                        assert(next[k] == c);
                        assert(listed);
                        assert(now[held.len() as int] == id);
                    }
                    assert(now.contains(id));
                }
                if now.contains(id) {
                    let m = choose|m: int| 0 <= m < now.len() && now[m] == id;
                    if m < held.len() {
                        assert(held[m] == id);
                        assert(held.contains(id));
                        assert(any(prev, hit));
                        let k = choose|k: int| 0 <= k < prev.len() && hit(#[trigger] prev[k]);
                        assert(hit(next[k]));
                    } else {
                        assert(listed);
                        assert(hit(next[i as int]));
                    }
                    assert(any(next, hit));
                }
            }
        }
        i += 1;
    }
    assert(all.take(i as int) =~= all);
    out
}

/// Whether `ids` holds the identifier.
fn holds_id(ids: &Vec<PartId<'_>>, id: &PartId<'_>) -> (r: bool)
    ensures
        r == view_all(ids@).contains(id@),
{
    let ghost all = view_all(ids@);
    let mut i: usize = 0;
    while i < ids.len()
        invariant
            i <= ids.len(),
            all == view_all(ids@),
            forall|k: int| 0 <= k < i ==> all[k] != id@,
        decreases ids.len() - i,
    {
        if ids[i].same(id) {
            assert(all[i as int] == id@);
            return true;
        }
        i += 1;
    }
    false
}

fn prune_parts<'a>(
    parts: Vec<Part<'a>>,
    leaving: &Vec<PartId<'a>>,
    list: &[RefDes<'_>],
    Ghost(components): Ghost<Seq<ComponentView>>,
) -> (r: Vec<Part<'a>>)
    requires
        forall|id: PartIdView| #[trigger]
            view_all(leaving@).contains(id) <==> any(
                components,
                leaving_user(view_all(list@), id),
            ),
    ensures
        view_all(r@) == parts_without(
            view_all(parts@),
            components,
            view_all(list@),
            parts@.len(),
        ),
{
    let ghost all = view_all(parts@);
    let ghost names = view_all(list@);
    let mut seen: Vec<PartId<'a>> = Vec::new();
    let mut out: Vec<Part<'a>> = Vec::new();
    for part in it: parts.into_iter()
        invariant
            view_all(it.seq()) == all,
            names == view_all(list@),
            seen.len() == it.index(),
            forall|k: int| 0 <= k < seen.len() ==> (#[trigger] seen[k])@ == all[k].part_id,
            forall|id: PartIdView| #[trigger]
                view_all(leaving@).contains(id) <==> any(components, leaving_user(names, id)),
            view_all(out@) == parts_without(all, components, names, it.index() as nat),
    {
        let ghost j = it.index() as int;
        let ghost held = view_all(out@);
        assert(part@ == all[j]);
        let id = part.part_id;
        let first = !holds_id(&seen, &id);
        proof {
            let same = with_id(id@);
            if first {
                assert forall|k: int| 0 <= k < j implies !same(#[trigger] all[k]) by {
                    if same(all[k]) {
                        assert(view_all(seen@)[k] == id@);
                    }
                }
                assert(is_first(all, same, j));
            } else {
                let k = choose|k: int| 0 <= k < seen.len() && view_all(seen@)[k] == id@;
                assert(same(all[k]));
                assert(!is_first(all, same, j));
            }
            assert(view_all(leaving@).contains(id@) <==> any(
                components,
                leaving_user(names, id@),
            ));
        }
        let hit = first && holds_id(leaving, &id);
        assert(hit == loses_users(all, components, names, j));
        seen.push(id);
        if hit {
            let Part { part_id, description, pins, components: users } = part;
            proof {
                lemma_filter_same(
                    view_all(users@),
                    not_owned_by::<RefDes<'a>>(names),
                    unlisted(names),
                );
            }
            let users = keep_unlisted(users, list);
            if users.len() > 0 {
                let left = Part { part_id, description, pins, components: users };
                assert(left@ == all[j].without(names));
                out.push(left);
                assert(view_all(out@) =~= held.push(all[j].without(names)));
            }
        } else {
            out.push(part);
            assert(view_all(out@) =~= held.push(all[j]));
        }
    }
    out
}

/// The index of the first component with the given reference designator.
pub fn find_component(components: &Vec<Component<'_>>, ref_des: &RefDes<'_>) -> (r: Option<usize>)
    ensures
        match position(view_all(components@), named(ref_des@)) {
            Some(i) => r == Some(i as usize) && i < components.len(),
            None => r is None,
        },
{
    let ghost all = view_all(components@);
    let mut i: usize = 0;
    while i < components.len()
        invariant
            i <= components.len(),
            all == view_all(components@),
            forall|k: int| 0 <= k < i ==> !named(ref_des@)(#[trigger] all[k]),
        decreases components.len() - i,
    {
        if str_eq(components[i].ref_des.0, ref_des.0) {
            proof {
                crate::seqs::lemma_position_found(all, named(ref_des@), i as int);
            }
            return Some(i);
        }
        i += 1;
    }
    proof {
        crate::seqs::lemma_position_none(all, named(ref_des@));
    }
    None
}

impl<'a> NetList<'a> {
    /// The net that the given pin of the given component is attached to: the
    /// first net with a node for it.
    pub fn net_of_pin(&self, ref_des: &RefDes<'_>, num: &PinNum<'_>) -> (r: Option<&Net<'a>>)
        ensures
            match position(self@.nets, touches(ref_des@, num@)) {
                Some(k) => r matches Some(net) && net@ == self@.nets[k],
                None => r is None,
            },
    {
        match find_net(&self.nets, ref_des, num) {
            Some(k) => Some(&self.nets[k]),
            None => None,
        }
    }

    /// The part that the component instantiates: the first part with its
    /// identifier.
    pub fn part_of(&self, component: &Component<'_>) -> (r: Option<&Part<'a>>)
        ensures
            match position(self@.parts, with_id(component@.part_id)) {
                Some(j) => r matches Some(part) && part@ == self@.parts[j],
                None => r is None,
            },
    {
        match find_part(&self.parts, &component.part_id) {
            Some(j) => Some(&self.parts[j]),
            None => None,
        }
    }

    /// Remove a component from the netlist
    ///
    /// Where no component has the reference designator, nothing changes.
    pub fn remove_component(&mut self, ref_des: RefDes<'_>)
        ensures
            final(self)@ == old(self)@.remove_component(ref_des@),
            !any(old(self)@.components, named(ref_des@)) ==> final(self)@ == old(self)@,
    {
        let ghost before = self@;
        proof {
            lemma_position(before.components, named(ref_des@));
        }
        let index = match find_component(&self.components, &ref_des) {
            None => {
                return ;
            },
            Some(i) => i,
        };
        let part_id = self.components[index].part_id;
        let list: Vec<RefDes<'_>> = vec![ref_des];
        assert(view_all(list@) =~= seq![ref_des@]);
        self.components.remove(index);
        assert(view_all(self.components@) =~= before.components.remove(index as int));

        let mut nets: Vec<Net<'a>> = Vec::new();
        core::mem::swap(&mut self.nets, &mut nets);
        self.nets = strip_nets(nets, list.as_slice());

        match find_part(&self.parts, &part_id) {
            None => {},
            Some(j) => {
                let part = self.parts.remove(j);
                let Part { part_id, description, pins, components: users } = part;
                proof {
                    lemma_filter_same(
                        view_all(users@),
                        not_owned_by::<RefDes<'a>>(seq![ref_des@]),
                        unlisted(seq![ref_des@]),
                    );
                }
                let users = keep_unlisted(users, list.as_slice());
                if users.len() > 0 {
                    let left = Part { part_id, description, pins, components: users };
                    assert(left@ == before.parts[j as int].without(seq![ref_des@]));
                    self.parts.insert(j, left);
                    assert(view_all(self.parts@) =~= before.parts.update(
                        j as int,
                        before.parts[j as int].without(seq![ref_des@]),
                    ));
                } else {
                    assert(view_all(self.parts@) =~= before.parts.remove(j as int));
                }
            },
        }
    }

    /// Remove components from the netlist
    ///
    /// A part goes only when the batch leaves it without any user.
    pub fn remove_components(&mut self, ref_des_list: &[RefDes<'_>])
        ensures
            final(self)@ == old(self)@.remove_components(view_all(ref_des_list@)),
    {
        let ghost before = self@;
        let leaving = leaving_part_ids(&self.components, ref_des_list);

        let mut components: Vec<Component<'a>> = Vec::new();
        core::mem::swap(&mut self.components, &mut components);
        proof {
            lemma_filter_same(
                before.components,
                not_owned_by::<Component<'a>>(view_all(ref_des_list@)),
                staying(view_all(ref_des_list@)),
            );
        }
        self.components = keep_unlisted(components, ref_des_list);

        let mut nets: Vec<Net<'a>> = Vec::new();
        core::mem::swap(&mut self.nets, &mut nets);
        self.nets = strip_nets(nets, ref_des_list);

        let mut parts: Vec<Part<'a>> = Vec::new();
        core::mem::swap(&mut self.parts, &mut parts);
        self.parts = prune_parts(parts, &leaving, ref_des_list, Ghost(before.components));
    }
}

} // verus!
