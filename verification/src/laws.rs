//! What holds of every netlist that this library gives out: the links that
//! parsing establishes, and what the removal of components keeps and changes.
use vstd::prelude::*;
use crate::error::ParseErrorView;
use crate::parse::{
    at_pin, component_of, link_component, link_part, link_pin, link_pins, net_of, netlist_of,
    part_of, ref_des_of, resolve, touches, users, uses, with_id,
};
use crate::raw;
use crate::seqs::{
    always, any, collect, distinct_by, is_first, lemma_collect, lemma_contains_add,
    lemma_filter_all, lemma_filter_but_one, lemma_filter_distinct, lemma_filter_map_filter,
    lemma_filter_remove, lemma_filter_same,
    lemma_filter_source, lemma_filter_twice, lemma_map_filter, lemma_position,
    lemma_position_filter, lemma_position_same, position,
};
use crate::sexpr::parser::sexpr_of;
use crate::sexpr::SExprView;
use crate::{
    connected, leaving_user, loses_users, named, nets_without, parts_without, staying,
    staying_node, unlisted, ComponentView, NetListView, NetView, PartIdView, PartView,
};

verus! {

/// The function that gives the identifier of a part.
pub open spec fn part_id_of() -> spec_fn(PartView) -> PartIdView {
    |p: PartView| p.part_id
}

impl NetListView {
    /// No two components have the same reference designator, and no two
    /// parts the same identifier.
    pub open spec fn distinct(self) -> bool {
        &&& distinct_by(self.components, ref_des_of())
        &&& distinct_by(self.parts, part_id_of())
    }

    /// The pins of the component at index `i` are those of its part, each
    /// bound to the first net with a node for it.
    pub open spec fn pins_joined(self, i: int) -> bool {
        position(self.parts, with_id(self.components[i].part_id)) matches Some(j) && link_pins(
            self.components[i].ref_des,
            self.parts[j],
            self.nets,
        ) == Ok::<Seq<crate::ComponentPinView>, ParseErrorView>(self.components[i].pins)
    }

    /// The links between the three collections hold: every component has its
    /// part; every part has users, which are the components that instantiate
    /// it; every pin of a component has a node in some net; the pins of a
    /// component are those of its part.
    pub open spec fn linked(self) -> bool {
        &&& forall|i: int|
            0 <= i < self.components.len() ==> any(
                self.parts,
                with_id((#[trigger] self.components[i]).part_id),
            )
        &&& forall|j: int|
            0 <= j < self.parts.len() ==> (#[trigger] self.parts[j]).components.len() > 0
                && self.parts[j].components == users(self.components, self.parts[j].part_id)
        &&& forall|i: int, k: int|
            0 <= i < self.components.len() && 0 <= k < self.components[i].pins.len() ==> any(
                self.nets,
                touches(self.components[i].ref_des, (#[trigger] self.components[i].pins[k]).num),
            )
        &&& forall|i: int| 0 <= i < self.components.len() ==> #[trigger] self.pins_joined(i)
    }

    /// Every node of every net names a component.
    pub open spec fn grounded(self) -> bool {
        forall|n: int, d: int|
            0 <= n < self.nets.len() && 0 <= d < self.nets[n].nodes.len() ==> any(
                self.components,
                named((#[trigger] self.nets[n].nodes[d]).ref_des),
            )
    }

    /// Every net has a node.
    pub open spec fn connected(self) -> bool {
        forall|n: int| 0 <= n < self.nets.len() ==> (#[trigger] self.nets[n]).nodes.len() > 0
    }
}

/// Linking keeps every record: the model has as many components, parts and
/// nets as the records, and its links hold.
pub proof fn lemma_resolve_linked(records: raw::NetListView)
    requires
        resolve(records) is Ok,
    ensures
        resolve(records)->Ok_0.components.len() == records.components.len(),
        resolve(records)->Ok_0.parts.len() == records.parts.len(),
        resolve(records)->Ok_0.nets.len() == records.nets.len(),
        resolve(records)->Ok_0.linked(),
{
    let nl = resolve(records)->Ok_0;
    let part_steps = records.parts.map_values(|p: raw::PartView| part_of(p));
    let parts = collect(part_steps)->Ok_0;
    let net_steps = records.nets.map_values(|n: raw::NetView| net_of(n));
    let nets = collect(net_steps)->Ok_0;
    let comp_steps = records.components.map_values(
        |c: raw::ComponentView| link_component(component_of(c), parts, nets),
    );
    let components = collect(comp_steps)->Ok_0;
    let link_steps = parts.map_values(|p: PartView| link_part(p, components));
    let linked = collect(link_steps)->Ok_0;
    lemma_collect(part_steps);
    lemma_collect(net_steps);
    lemma_collect(comp_steps);
    lemma_collect(link_steps);
    assert(nl.components == components);
    assert(nl.parts == linked);
    assert(nl.nets == nets);
    assert forall|j: int| 0 <= j < linked.len() implies (#[trigger] linked[j]).components.len() > 0
        && linked[j].components == users(components, linked[j].part_id) && linked[j].part_id
        == parts[j].part_id && linked[j].pins == parts[j].pins by {
        assert(link_steps[j] == Ok::<PartView, ParseErrorView>(linked[j]));
    }
    assert forall|i: int| 0 <= i < components.len() implies any(
        linked,
        with_id((#[trigger] components[i]).part_id),
    ) by {
        let base = component_of(records.components[i]);
        assert(comp_steps[i] == Ok::<ComponentView, ParseErrorView>(components[i]));
        lemma_position(parts, with_id(base.part_id));
        let j = position(parts, with_id(base.part_id))->0;
        assert(with_id(components[i].part_id)(linked[j]));
    }
    assert forall|i: int, k: int|
        0 <= i < components.len() && 0 <= k < components[i].pins.len() implies any(
        nets,
        touches(components[i].ref_des, (#[trigger] components[i].pins[k]).num),
    ) by {
        let base = component_of(records.components[i]);
        assert(comp_steps[i] == Ok::<ComponentView, ParseErrorView>(components[i]));
        let j = position(parts, with_id(base.part_id))->0;
        let pin_steps = parts[j].pins.map_values(
            |pin: crate::PartPinView| link_pin(base.ref_des, pin, nets),
        );
        assert(link_pins(base.ref_des, parts[j], nets) == collect(pin_steps));
        lemma_collect(pin_steps);
        assert(pin_steps[k] == Ok::<crate::ComponentPinView, ParseErrorView>(
            components[i].pins[k],
        ));
        lemma_position(nets, touches(base.ref_des, parts[j].pins[k].num));
    }
    assert forall|i: int| 0 <= i < components.len() implies #[trigger] nl.pins_joined(i) by {
        let base = component_of(records.components[i]);
        assert(comp_steps[i] == Ok::<ComponentView, ParseErrorView>(components[i]));
        lemma_position_same(parts, with_id(base.part_id), linked, with_id(base.part_id));
        let j = position(parts, with_id(base.part_id))->0;
        lemma_position(parts, with_id(base.part_id));
        assert(linked[j].pins == parts[j].pins);
    }
}

/// A net touches a pin of a component that stays exactly when it did before
/// the components of `list` left.
pub proof fn lemma_touch_kept(net: NetView, list: Seq<Seq<char>>, ref_des: Seq<char>, num: Seq<char>)
    requires
        !list.contains(ref_des),
    ensures
        touches(ref_des, num)(net.without(list)) == touches(ref_des, num)(net),
{
    let kept = net.nodes.filter(staying_node(list));
    lemma_filter_source(net.nodes, staying_node(list));
    if touches(ref_des, num)(net) {
        let d = choose|d: int| 0 <= d < net.nodes.len() && at_pin(ref_des, num)(#[trigger] net.nodes[d]);
        assert(kept.contains(net.nodes[d]));
        let e = choose|e: int| 0 <= e < kept.len() && kept[e] == net.nodes[d];
        assert(at_pin(ref_des, num)(net.without(list).nodes[e]));
    }
    if touches(ref_des, num)(net.without(list)) {
        let e = choose|e: int| 0 <= e < kept.len() && at_pin(ref_des, num)(#[trigger] kept[e]);
        assert(net.nodes.contains(kept[e]));
        let d = choose|d: int| 0 <= d < net.nodes.len() && net.nodes[d] == kept[e];
        assert(at_pin(ref_des, num)(net.nodes[d]));
    }
}

/// A component that names a part that is not defined makes linking fail; the
/// error is `MissingPart` with the name `lib/part` where every component
/// before it can be linked.
pub proof fn lemma_missing_part(records: raw::NetListView, i: int)
    requires
        0 <= i < records.components.len(),
        collect(records.parts.map_values(|p: raw::PartView| part_of(p))) is Ok,
        collect(records.nets.map_values(|n: raw::NetView| net_of(n))) is Ok,
        !any(
            collect(records.parts.map_values(|p: raw::PartView| part_of(p)))->Ok_0,
            with_id(PartIdView { lib: records.components[i].lib, part: records.components[i].part }),
        ),
    ensures
        resolve(records) is Err,
        (forall|k: int|
            0 <= k < i ==> link_component(
                component_of(#[trigger] records.components[k]),
                collect(records.parts.map_values(|p: raw::PartView| part_of(p)))->Ok_0,
                collect(records.nets.map_values(|n: raw::NetView| net_of(n)))->Ok_0,
            ) is Ok) ==> resolve(records) == Err::<NetListView, ParseErrorView>(
            ParseErrorView::MissingPart(
                crate::error::part_label(records.components[i].lib, records.components[i].part),
            ),
        ),
{
    let parts = collect(records.parts.map_values(|p: raw::PartView| part_of(p)))->Ok_0;
    let nets = collect(records.nets.map_values(|n: raw::NetView| net_of(n)))->Ok_0;
    let steps = records.components.map_values(
        |c: raw::ComponentView| link_component(component_of(c), parts, nets),
    );
    let id = PartIdView { lib: records.components[i].lib, part: records.components[i].part };
    lemma_position(parts, with_id(id));
    assert(steps[i] is Err);
    lemma_collect(steps);
    if forall|k: int|
        0 <= k < i ==> link_component(component_of(#[trigger] records.components[k]), parts, nets) is Ok {
        assert forall|k: int| 0 <= k < i implies (#[trigger] steps[k]) is Ok by {
            assert(link_component(component_of(records.components[k]), parts, nets) is Ok);
        }
        crate::seqs::lemma_collect_err(steps, i);
    }
}

/// A netlist that is read has one component for each `comp` of the
/// `components` of its text, one part for each `libpart` of the `libparts`,
/// and one net for each `net` of the `nets`.
pub proof fn lemma_parse_counts(s: Seq<u8>)
    requires
        netlist_of(s) is Ok,
    ensures
        sexpr_of(s) matches Ok(root) && root.child("components"@) matches Ok(cs) && root.child(
            "libparts"@,
        ) matches Ok(ps) && root.child("nets"@) matches Ok(ns) && {
            let nl = netlist_of(s)->Ok_0;
            &&& nl.components.len() == cs.children("comp"@).len()
            &&& nl.parts.len() == ps.children("libpart"@).len()
            &&& nl.nets.len() == ns.children("net"@).len()
        },
{
    let root = sexpr_of(s)->Ok_0;
    let records = raw::parser::raw_netlist_of(s)->Ok_0;
    assert(raw::parser::netlist_of(root) == Ok::<raw::NetListView, ParseErrorView>(records));
    lemma_resolve_linked(records);
    let cs = root.child("components"@)->Ok_0;
    let ps = root.child("libparts"@)->Ok_0;
    let ns = root.child("nets"@)->Ok_0;
    lemma_collect(cs.children("comp"@).map_values(|c: SExprView| raw::parser::component_of(c)));
    lemma_collect(ps.children("libpart"@).map_values(|c: SExprView| raw::parser::part_of(c)));
    lemma_collect(ns.children("net"@).map_values(|c: SExprView| raw::parser::net_of(c)));
}

/// Removing a reference designator that no component has changes nothing.
pub proof fn lemma_remove_absent(nl: NetListView, ref_des: Seq<char>)
    requires
        !any(nl.components, named(ref_des)),
    ensures
        nl.remove_component(ref_des) == nl,
{
    lemma_position(nl.components, named(ref_des));
}

/// A net from which nothing is taken stays as it is.
pub proof fn lemma_net_untouched(net: NetView, list: Seq<Seq<char>>)
    requires
        forall|k: int| 0 <= k < net.nodes.len() ==> !list.contains((#[trigger] net.nodes[k]).ref_des),
    ensures
        net.without(list) == net,
{
    lemma_filter_all(net.nodes, staying_node(list));
}

/// A part from which no user is taken stays as it is.
pub proof fn lemma_part_untouched(part: PartView, list: Seq<Seq<char>>)
    requires
        forall|k: int| 0 <= k < part.components.len() ==> !list.contains(#[trigger] part.components[k]),
    ensures
        part.without(list) == part,
{
    lemma_filter_all(part.components, unlisted(list));
}

/// Removing no component changes nothing in a netlist whose nets all have
/// nodes.
pub proof fn lemma_remove_nothing(nl: NetListView)
    requires
        nl.connected(),
    ensures
        nl.remove_components(Seq::empty()) == nl,
{
    let none = Seq::<Seq<char>>::empty();
    let after = nl.remove_components(none);
    lemma_filter_all(nl.components, staying(none));
    let cut = nl.nets.map_values(|n: NetView| n.without(none));
    assert forall|n: int| 0 <= n < nl.nets.len() implies cut[n] == nl.nets[n] by {
        lemma_net_untouched(nl.nets[n], none);
    }
    assert(cut =~= nl.nets);
    lemma_filter_all(nl.nets, connected());
    lemma_parts_untouched(nl.parts, nl.components, none, nl.parts.len());
    assert(nl.parts.take(nl.parts.len() as int) =~= nl.parts);
}

/// Where no component that leaves instantiates any part, the parts stay as
/// they are.
pub proof fn lemma_parts_untouched(
    parts: Seq<PartView>,
    components: Seq<ComponentView>,
    list: Seq<Seq<char>>,
    n: nat,
)
    requires
        n <= parts.len(),
        forall|i: int| 0 <= i < components.len() ==> !list.contains((#[trigger] components[i]).ref_des),
    ensures
        parts_without(parts, components, list, n) == parts.take(n as int),
    decreases n,
{
    if n > 0 {
        lemma_parts_untouched(parts, components, list, (n - 1) as nat);
        assert(!loses_users(parts, components, list, n - 1));
        assert(parts.take(n as int) =~= parts.take(n - 1).push(parts[n - 1]));
    } else {
        assert(parts.take(0) =~= Seq::empty());
    }
}

/// What the removal of components does to one net, whatever the other nets
/// hold: a net with a node that stays is kept in its place with exactly its
/// staying nodes, in their order; a net without any is dropped.
pub proof fn lemma_net_after_removal(nets: Seq<NetView>, list: Seq<Seq<char>>, n: int)
    requires
        0 <= n < nets.len(),
    ensures
        nets_without(nets, list) == nets_without(nets.take(n), list) + (if any(
            nets[n].nodes,
            staying_node(list),
        ) {
            seq![nets[n].without(list)]
        } else {
            Seq::empty()
        }) + nets_without(nets.skip(n + 1), list),
        nets[n].without(list).nodes == nets[n].nodes.filter(staying_node(list)),
{
    let cut = |x: NetView| x.without(list);
    let head = nets.take(n);
    let tail = nets.skip(n + 1);
    let one = seq![nets[n]];
    assert(nets =~= head + one + tail);
    assert(nets.map_values(cut) =~= head.map_values(cut) + one.map_values(cut) + tail.map_values(
        cut,
    ));
    Seq::filter_distributes_over_add(
        head.map_values(cut) + one.map_values(cut),
        tail.map_values(cut),
        connected(),
    );
    Seq::filter_distributes_over_add(head.map_values(cut), one.map_values(cut), connected());
    assert(one.map_values(cut) =~= Seq::<NetView>::empty().push(nets[n].without(list)));
    Seq::<NetView>::empty().lemma_filter_push(nets[n].without(list), connected());
    assert(Seq::<NetView>::empty().filter(connected()) =~= Seq::empty()) by {
        reveal(Seq::filter);
    }
    lemma_filter_source(nets[n].nodes, staying_node(list));
    let kept = nets[n].nodes.filter(staying_node(list));
    if any(nets[n].nodes, staying_node(list)) {
        let k = choose|k: int|
            0 <= k < nets[n].nodes.len() && staying_node(list)(#[trigger] nets[n].nodes[k]);
        assert(kept.contains(nets[n].nodes[k]));
        assert(Seq::<NetView>::empty().push(nets[n].without(list)) =~= seq![
            nets[n].without(list),
        ]);
    } else {
        if kept.len() > 0 {
            assert(nets[n].nodes.contains(kept[0]));
            let k = choose|k: int| 0 <= k < nets[n].nodes.len() && nets[n].nodes[k] == kept[0];
            assert(staying_node(list)(nets[n].nodes[k]));
        }
    }
}

/// The predicate that holds of the parts with a user.
pub open spec fn used() -> spec_fn(PartView) -> bool {
    |p: PartView| p.components.len() > 0
}

/// The function that takes the listed users from a part.
pub open spec fn part_cut(list: Seq<Seq<char>>) -> spec_fn(PartView) -> PartView {
    |p: PartView| p.without(list)
}

/// The netlist after the components of `list` have been removed one after
/// another.
pub open spec fn remove_each(nl: NetListView, list: Seq<Seq<char>>) -> NetListView
    decreases list.len(),
{
    if list.len() == 0 {
        nl
    } else {
        remove_each(nl.remove_component(list[0]), list.drop_first())
    }
}

/// The users of a part among the components that stay are its users without
/// those that leave.
pub proof fn lemma_users_after_batch(
    components: Seq<ComponentView>,
    id: PartIdView,
    list: Seq<Seq<char>>,
)
    ensures
        users(components.filter(staying(list)), id) == users(components, id).filter(
            unlisted(list),
        ),
{
    let both = |c: ComponentView| !list.contains(c.ref_des) && c.part_id == id;
    lemma_filter_twice(components, staying(list), uses(id), both);
    lemma_filter_twice(components, uses(id), staying(list), both);
    lemma_map_filter(components.filter(uses(id)), ref_des_of(), unlisted(list), staying(list));
}

/// Among components with distinct reference designators, taking one out is
/// keeping those with another reference designator.
pub proof fn lemma_remove_is_filter(components: Seq<ComponentView>, i: int)
    requires
        distinct_by(components, ref_des_of()),
        0 <= i < components.len(),
    ensures
        components.remove(i) == components.filter(staying(seq![components[i].ref_des])),
{
    let r = components[i].ref_des;
    let keep = staying(seq![r]);
    assert(seq![r][0] == r);
    assert forall|k: int| 0 <= k < components.len() && k != i implies keep(
        #[trigger] components[k],
    ) == always::<ComponentView>()(components[k]) by {
        if k < i {
            assert(ref_des_of()(components[k]) != ref_des_of()(components[i]));
        } else {
            assert(ref_des_of()(components[i]) != ref_des_of()(components[k]));
        }
    }
    lemma_filter_remove(components, i, always::<ComponentView>(), keep);
    lemma_filter_all(components.remove(i), always::<ComponentView>());
}

/// In a linked netlist with distinct names, the first `n` parts after a batch
/// are the first `n` parts without the users that leave, less those among
/// them that have no user then.
pub proof fn lemma_parts_after_batch(nl: NetListView, list: Seq<Seq<char>>, n: nat)
    requires
        nl.linked(),
        nl.distinct(),
        n <= nl.parts.len(),
    ensures
        parts_without(nl.parts, nl.components, list, n) == nl.parts.take(n as int).map_values(
            part_cut(list),
        ).filter(used()),
    decreases n,
{
    reveal(Seq::filter);
    let parts = nl.parts;
    if n == 0 {
        assert(parts.take(0).map_values(part_cut(list)) =~= Seq::empty());
    } else {
        let j = n - 1;
        lemma_parts_after_batch(nl, list, j as nat);
        let before = parts.take(j).map_values(part_cut(list));
        assert(parts.take(n as int).map_values(part_cut(list)) =~= before.push(
            parts[j].without(list),
        ));
        before.lemma_filter_push(parts[j].without(list), used());
        let id = parts[j].part_id;
        assert forall|k: int| 0 <= k < j implies !with_id(id)(#[trigger] parts[k]) by {
            assert(part_id_of()(parts[k]) != part_id_of()(parts[j]));
        }
        assert(is_first(parts, with_id(id), j));
        if !any(nl.components, leaving_user(list, id)) {
            let held = nl.components.filter(uses(id));
            lemma_filter_source(nl.components, uses(id));
            assert forall|k: int| 0 <= k < parts[j].components.len() implies !list.contains(
                #[trigger] parts[j].components[k],
            ) by {
                assert(parts[j].components[k] == held[k].ref_des);
                assert(nl.components.contains(held[k]));
                let m = choose|m: int| 0 <= m < nl.components.len() && nl.components[m] == held[k];
                assert(!leaving_user(list, id)(nl.components[m]));
            }
            lemma_part_untouched(parts[j], list);
        }
    }
}

/// In a linked netlist with distinct names, the parts after a batch are the
/// parts without the users that leave, less those that have no user then.
pub proof fn lemma_batch_parts(nl: NetListView, list: Seq<Seq<char>>)
    requires
        nl.linked(),
        nl.distinct(),
    ensures
        nl.remove_components(list).parts == nl.parts.map_values(part_cut(list)).filter(used()),
{
    lemma_parts_after_batch(nl, list, nl.parts.len());
    assert(nl.parts.take(nl.parts.len() as int) =~= nl.parts);
}

/// A component that stays was there before.
pub proof fn lemma_stayed(nl: NetListView, list: Seq<Seq<char>>, i: int) -> (k: int)
    requires
        0 <= i < nl.remove_components(list).components.len(),
    ensures
        0 <= k < nl.components.len(),
        nl.components[k] == nl.remove_components(list).components[i],
        !list.contains(nl.components[k].ref_des),
{
    lemma_filter_source(nl.components, staying(list));
    let c = nl.remove_components(list).components[i];
    assert(nl.components.contains(c));
    choose|k: int| 0 <= k < nl.components.len() && nl.components[k] == c
}

/// The part of a component that stays is still there after a batch, with the
/// pins it had.
pub proof fn lemma_batch_part_found(nl: NetListView, list: Seq<Seq<char>>, i: int)
    requires
        nl.linked(),
        nl.distinct(),
        0 <= i < nl.remove_components(list).components.len(),
    ensures
        position(
            nl.parts,
            with_id(nl.remove_components(list).components[i].part_id),
        ) matches Some(j) && position(
            nl.remove_components(list).parts,
            with_id(nl.remove_components(list).components[i].part_id),
        ) matches Some(m) && nl.remove_components(list).parts[m] == nl.parts[j].without(list),
{
    let after = nl.remove_components(list);
    let c = after.components[i];
    let id = c.part_id;
    let k = lemma_stayed(nl, list, i);
    let cut_parts = nl.parts.map_values(part_cut(list));
    lemma_batch_parts(nl, list);
    assert(any(nl.parts, with_id(nl.components[k].part_id)));
    lemma_position(nl.parts, with_id(id));
    let j = position(nl.parts, with_id(id))->0;
    lemma_position_same(nl.parts, with_id(id), cut_parts, with_id(id));
    assert(nl.parts[j].components == users(nl.components, id));
    lemma_users_after_batch(nl.components, id, list);
    lemma_filter_source(after.components, uses(id));
    assert(after.components.filter(uses(id)).contains(after.components[i]));
    assert(used()(cut_parts[j]));
    assert forall|m: int| 0 <= m < cut_parts.len() && with_id(id)(
        #[trigger] cut_parts[m],
    ) implies used()(cut_parts[m]) by {
        if m < j {
            assert(part_id_of()(nl.parts[m]) != part_id_of()(nl.parts[j]));
        } else if j < m {
            assert(part_id_of()(nl.parts[j]) != part_id_of()(nl.parts[m]));
        }
    }
    lemma_position_filter(cut_parts, used(), with_id(id));
}

/// After a batch the names are distinct as they were.
pub proof fn lemma_batch_distinct(nl: NetListView, list: Seq<Seq<char>>)
    requires
        nl.linked(),
        nl.distinct(),
    ensures
        nl.remove_components(list).distinct(),
{
    let cut_parts = nl.parts.map_values(part_cut(list));
    lemma_batch_parts(nl, list);
    lemma_filter_distinct(nl.components, staying(list), ref_des_of());
    assert(distinct_by(cut_parts, part_id_of())) by {
        assert forall|j: int, k: int| 0 <= j < k < cut_parts.len() implies part_id_of()(
            #[trigger] cut_parts[j],
        ) != part_id_of()(#[trigger] cut_parts[k]) by {
            assert(part_id_of()(nl.parts[j]) != part_id_of()(nl.parts[k]));
        }
    }
    lemma_filter_distinct(cut_parts, used(), part_id_of());
}

/// After a batch every part has users: the components that instantiate it.
pub proof fn lemma_batch_users(nl: NetListView, list: Seq<Seq<char>>)
    requires
        nl.linked(),
        nl.distinct(),
    ensures
        forall|j: int|
            0 <= j < nl.remove_components(list).parts.len() ==> (#[trigger] nl.remove_components(
                list,
            ).parts[j]).components.len() > 0 && nl.remove_components(list).parts[j].components
                == users(
                nl.remove_components(list).components,
                nl.remove_components(list).parts[j].part_id,
            ),
{
    let after = nl.remove_components(list);
    let cut_parts = nl.parts.map_values(part_cut(list));
    lemma_batch_parts(nl, list);
    lemma_filter_source(cut_parts, used());
    assert forall|j: int| 0 <= j < after.parts.len() implies (#[trigger] after.parts[j]).components.len()
        > 0 && after.parts[j].components == users(after.components, after.parts[j].part_id) by {
        assert(cut_parts.contains(after.parts[j]));
        let m = choose|m: int| 0 <= m < cut_parts.len() && cut_parts[m] == after.parts[j];
        assert(nl.parts[m].components == users(nl.components, nl.parts[m].part_id));
        lemma_users_after_batch(nl.components, nl.parts[m].part_id, list);
    }
}

/// After a batch every pin of every component still has a node in some net,
/// and no net is without a node.
pub proof fn lemma_batch_wired(nl: NetListView, list: Seq<Seq<char>>)
    requires
        nl.linked(),
    ensures
        nl.remove_components(list).connected(),
        forall|i: int, p: int|
            0 <= i < nl.remove_components(list).components.len() && 0 <= p < nl.remove_components(
                list,
            ).components[i].pins.len() ==> any(
                nl.remove_components(list).nets,
                touches(
                    nl.remove_components(list).components[i].ref_des,
                    (#[trigger] nl.remove_components(list).components[i].pins[p]).num,
                ),
            ),
{
    let after = nl.remove_components(list);
    let cut_nets = nl.nets.map_values(|n: NetView| n.without(list));
    lemma_filter_source(cut_nets, connected());
    assert forall|i: int, p: int|
        0 <= i < after.components.len() && 0 <= p < after.components[i].pins.len() implies any(
        after.nets,
        touches(after.components[i].ref_des, (#[trigger] after.components[i].pins[p]).num),
    ) by {
        let c = after.components[i];
        let k = lemma_stayed(nl, list, i);
        let num = nl.components[k].pins[p].num;
        assert(any(nl.nets, touches(c.ref_des, num)));
        let n = choose|n: int|
            0 <= n < nl.nets.len() && touches(c.ref_des, num)(#[trigger] nl.nets[n]);
        lemma_touch_kept(nl.nets[n], list, c.ref_des, num);
        assert(touches(c.ref_des, num)(cut_nets[n]));
        assert(connected()(cut_nets[n]));
        assert(after.nets.contains(cut_nets[n]));
        let m = choose|m: int| 0 <= m < after.nets.len() && after.nets[m] == cut_nets[n];
        assert(touches(c.ref_des, num)(after.nets[m]));
    }
}

/// A pin of a component that stays is bound after a batch to the net it was
/// bound to before.
pub proof fn lemma_batch_pin(
    nets: Seq<NetView>,
    list: Seq<Seq<char>>,
    ref_des: Seq<char>,
    pin: crate::PartPinView,
)
    requires
        !list.contains(ref_des),
    ensures
        link_pin(ref_des, pin, nets_without(nets, list)) == link_pin(ref_des, pin, nets),
{
    let cut_nets = nets.map_values(|n: NetView| n.without(list));
    let t = touches(ref_des, pin.num);
    assert forall|n: int| 0 <= n < nets.len() implies t(#[trigger] nets[n]) == t(cut_nets[n]) by {
        lemma_touch_kept(nets[n], list, ref_des, pin.num);
    }
    lemma_position_same(nets, t, cut_nets, t);
    lemma_position_filter(cut_nets, connected(), t);
    lemma_position(nets, t);
}

/// After a batch the pins of every component are still those of its part.
pub proof fn lemma_batch_joined(nl: NetListView, list: Seq<Seq<char>>)
    requires
        nl.linked(),
        nl.distinct(),
    ensures
        forall|i: int|
            0 <= i < nl.remove_components(list).components.len() ==> #[trigger] nl.remove_components(
                list,
            ).pins_joined(i),
{
    let after = nl.remove_components(list);
    assert forall|i: int| 0 <= i < after.components.len() implies #[trigger] after.pins_joined(
        i,
    ) by {
        let c = after.components[i];
        let k = lemma_stayed(nl, list, i);
        assert(nl.pins_joined(k));
        lemma_batch_part_found(nl, list, i);
        let j = position(nl.parts, with_id(c.part_id))->0;
        let pins = nl.parts[j].pins;
        let was = pins.map_values(|pin: crate::PartPinView| link_pin(c.ref_des, pin, nl.nets));
        let now = pins.map_values(|pin: crate::PartPinView| link_pin(c.ref_des, pin, after.nets));
        assert forall|x: int| 0 <= x < pins.len() implies was[x] == now[x] by {
            lemma_batch_pin(nl.nets, list, c.ref_des, pins[x]);
        }
        assert(was =~= now);
    }
}

/// Removing components keeps the links and the distinct names, and leaves no
/// net without a node.
pub proof fn lemma_remove_components_keeps_links(nl: NetListView, list: Seq<Seq<char>>)
    requires
        nl.linked(),
        nl.distinct(),
    ensures
        nl.remove_components(list).linked(),
        nl.remove_components(list).distinct(),
        nl.remove_components(list).connected(),
{
    let after = nl.remove_components(list);
    lemma_batch_distinct(nl, list);
    lemma_batch_users(nl, list);
    lemma_batch_wired(nl, list);
    lemma_batch_joined(nl, list);
    assert forall|i: int| 0 <= i < after.components.len() implies any(
        after.parts,
        with_id((#[trigger] after.components[i]).part_id),
    ) by {
        lemma_batch_part_found(nl, list, i);
        lemma_position(after.parts, with_id(after.components[i].part_id));
    }
}

/// A part that the component at index `i` does not instantiate does not have
/// it as a user.
pub proof fn lemma_other_part_untouched(nl: NetListView, i: int, m: int)
    requires
        nl.distinct(),
        0 <= i < nl.components.len(),
        0 <= m < nl.parts.len(),
        nl.parts[m].components == users(nl.components, nl.parts[m].part_id),
        nl.parts[m].part_id != nl.components[i].part_id,
    ensures
        nl.parts[m].without(seq![nl.components[i].ref_des]) == nl.parts[m],
{
    let list = seq![nl.components[i].ref_des];
    let other = nl.parts[m].part_id;
    let held = nl.components.filter(uses(other));
    lemma_filter_source(nl.components, uses(other));
    assert forall|k: int| 0 <= k < nl.parts[m].components.len() implies !list.contains(
        #[trigger] nl.parts[m].components[k],
    ) by {
        assert(nl.parts[m].components[k] == held[k].ref_des);
        assert(nl.components.contains(held[k]));
        let x = choose|x: int| 0 <= x < nl.components.len() && nl.components[x] == held[k];
        if x < i {
            assert(ref_des_of()(nl.components[x]) != ref_des_of()(nl.components[i]));
        } else if i < x {
            assert(ref_des_of()(nl.components[i]) != ref_des_of()(nl.components[x]));
        }
        if list.contains(held[k].ref_des) {
            let y = choose|y: int| 0 <= y < list.len() && list[y] == held[k].ref_des;
            assert(list[y] == nl.components[i].ref_des);
        }
    }
    lemma_part_untouched(nl.parts[m], list);
}

/// In a linked netlist with distinct names, the parts after the removal of
/// the component at index `i` are the parts without that user, less the part
/// that has no user then.
pub proof fn lemma_single_parts(nl: NetListView, i: int)
    requires
        nl.linked(),
        nl.distinct(),
        0 <= i < nl.components.len(),
    ensures
        position(nl.parts, with_id(nl.components[i].part_id)) matches Some(j) && {
            let left = nl.parts[j].without(seq![nl.components[i].ref_des]);
            nl.parts.map_values(part_cut(seq![nl.components[i].ref_des])).filter(used()) == if left.components.len()
                == 0 {
                nl.parts.remove(j)
            } else {
                nl.parts.update(j, left)
            }
        },
{
    let list = seq![nl.components[i].ref_des];
    let id = nl.components[i].part_id;
    assert(any(nl.parts, with_id(nl.components[i].part_id)));
    lemma_position(nl.parts, with_id(id));
    let j = position(nl.parts, with_id(id))->0;
    let left = nl.parts[j].without(list);
    let cut = nl.parts.map_values(part_cut(list));
    assert forall|m: int| 0 <= m < nl.parts.len() && m != j implies cut[m] == nl.parts[m]
        && used()(#[trigger] cut[m]) by {
        if m < j {
            assert(part_id_of()(nl.parts[m]) != part_id_of()(nl.parts[j]));
        } else {
            assert(part_id_of()(nl.parts[j]) != part_id_of()(nl.parts[m]));
        }
        assert(nl.parts[m].components.len() > 0);
        lemma_other_part_untouched(nl, i, m);
    }
    assert(cut =~= nl.parts.update(j, left));
    lemma_filter_but_one(cut, j, used());
    assert(cut.remove(j) =~= nl.parts.remove(j));
}

/// In a linked netlist with distinct names, removing one component that is
/// there is removing the batch that holds it alone.
pub proof fn lemma_single_is_batch(nl: NetListView, ref_des: Seq<char>)
    requires
        nl.linked(),
        nl.distinct(),
        any(nl.components, named(ref_des)),
    ensures
        nl.remove_component(ref_des) == nl.remove_components(seq![ref_des]),
{
    lemma_position(nl.components, named(ref_des));
    let i = position(nl.components, named(ref_des))->0;
    lemma_remove_is_filter(nl.components, i);
    lemma_batch_parts(nl, seq![ref_des]);
    lemma_single_parts(nl, i);
}

/// What the removal of a component does to its part, in a linked netlist with
/// distinct names. The part keeps the users that remain. Where none remains,
/// the part is removed, and no part has its identifier then; otherwise it
/// stays in its place, with its other users in their order.
pub proof fn lemma_part_after_removal(nl: NetListView, ref_des: Seq<char>)
    requires
        nl.linked(),
        nl.distinct(),
        any(nl.components, named(ref_des)),
    ensures
        position(nl.components, named(ref_des)) matches Some(i) && position(
            nl.parts,
            with_id(nl.components[i].part_id),
        ) matches Some(j) && {
            let id = nl.components[i].part_id;
            let after = nl.remove_component(ref_des);
            let others = users(after.components, id);
            &&& nl.parts[j].components.contains(ref_des)
            &&& others == nl.parts[j].components.filter(unlisted(seq![ref_des]))
            &&& !others.contains(ref_des)
            &&& others.len() == 0 ==> after.parts == nl.parts.remove(j) && !any(
                after.parts,
                with_id(id),
            )
            &&& others.len() > 0 ==> after.parts == nl.parts.update(
                j,
                PartView {
                    part_id: id,
                    description: nl.parts[j].description,
                    pins: nl.parts[j].pins,
                    components: others,
                },
            )
        },
{
    let list = seq![ref_des];
    assert(list[0] == ref_des);
    lemma_position(nl.components, named(ref_des));
    let i = position(nl.components, named(ref_des))->0;
    let id = nl.components[i].part_id;
    assert(any(nl.parts, with_id(nl.components[i].part_id)));
    lemma_position(nl.parts, with_id(id));
    let j = position(nl.parts, with_id(id))->0;
    let after = nl.remove_component(ref_des);
    let others = users(after.components, id);
    lemma_remove_is_filter(nl.components, i);
    lemma_users_after_batch(nl.components, id, list);
    assert(nl.parts[j].components == users(nl.components, id));
    lemma_filter_source(nl.parts[j].components, unlisted(list));
    if others.contains(ref_des) {
        let k = choose|k: int| 0 <= k < others.len() && others[k] == ref_des;
        assert(unlisted(list)(others[k]));
    }
    lemma_filter_source(nl.components, uses(id));
    let held = nl.components.filter(uses(id));
    assert(held.contains(nl.components[i]));
    let h = choose|h: int| 0 <= h < held.len() && held[h] == nl.components[i];
    assert(users(nl.components, id)[h] == ref_des);
    if others.len() == 0 {
        assert forall|m: int| 0 <= m < after.parts.len() implies !with_id(id)(
            #[trigger] after.parts[m],
        ) by {
            if m < j {
                assert(part_id_of()(nl.parts[m]) != part_id_of()(nl.parts[j]));
            } else {
                assert(after.parts[m] == nl.parts[m + 1]);
                assert(part_id_of()(nl.parts[j]) != part_id_of()(nl.parts[m + 1]));
            }
        }
    }
}

/// Removing one component keeps the links and the distinct names; where it
/// removes a component, it leaves no net without a node.
pub proof fn lemma_remove_component_keeps_links(nl: NetListView, ref_des: Seq<char>)
    requires
        nl.linked(),
        nl.distinct(),
    ensures
        nl.remove_component(ref_des).linked(),
        nl.remove_component(ref_des).distinct(),
        nl.connected() || any(nl.components, named(ref_des)) ==> nl.remove_component(
            ref_des,
        ).connected(),
{
    if any(nl.components, named(ref_des)) {
        lemma_single_is_batch(nl, ref_des);
        lemma_remove_components_keeps_links(nl, seq![ref_des]);
    } else {
        lemma_remove_absent(nl, ref_des);
    }
}

/// Taking the nodes or users of two lists in turn is taking those of both
/// at once.
pub proof fn lemma_cut_twice(a: Seq<Seq<char>>, b: Seq<Seq<char>>)
    ensures
        forall|n: NetView| #[trigger] n.without(a).without(b) == n.without(a + b),
        forall|p: PartView| #[trigger] p.without(a).without(b) == p.without(a + b),
{
    assert forall|n: NetView| #[trigger] n.without(a).without(b) == n.without(a + b) by {
        assert forall|k: int| 0 <= k < n.nodes.len() implies staying_node(a + b)(
            #[trigger] n.nodes[k],
        ) == (staying_node(a)(n.nodes[k]) && staying_node(b)(n.nodes[k])) by {
            lemma_contains_add(a, b, n.nodes[k].ref_des);
        }
        lemma_filter_twice(n.nodes, staying_node(a), staying_node(b), staying_node(a + b));
    }
    assert forall|p: PartView| #[trigger] p.without(a).without(b) == p.without(a + b) by {
        assert forall|k: int| 0 <= k < p.components.len() implies unlisted(a + b)(
            #[trigger] p.components[k],
        ) == (unlisted(a)(p.components[k]) && unlisted(b)(p.components[k])) by {
            lemma_contains_add(a, b, p.components[k]);
        }
        lemma_filter_twice(p.components, unlisted(a), unlisted(b), unlisted(a + b));
    }
}

/// In a linked netlist with distinct names, removing two batches in turn is
/// removing both at once.
pub proof fn lemma_batch_splits(nl: NetListView, a: Seq<Seq<char>>, b: Seq<Seq<char>>)
    requires
        nl.linked(),
        nl.distinct(),
    ensures
        nl.remove_components(a).remove_components(b) == nl.remove_components(a + b),
{
    let first = nl.remove_components(a);
    let second = first.remove_components(b);
    let both = nl.remove_components(a + b);
    lemma_cut_twice(a, b);
    lemma_remove_components_keeps_links(nl, a);
    lemma_batch_parts(nl, a);
    lemma_batch_parts(nl, a + b);
    lemma_batch_parts(first, b);

    assert forall|k: int| 0 <= k < nl.components.len() implies staying(a + b)(
        #[trigger] nl.components[k],
    ) == (staying(a)(nl.components[k]) && staying(b)(nl.components[k])) by {
        lemma_contains_add(a, b, nl.components[k].ref_des);
    }
    lemma_filter_twice(nl.components, staying(a), staying(b), staying(a + b));
    assert(second.components == both.components);

    let cut_a = nl.parts.map_values(part_cut(a));
    assert forall|k: int| 0 <= k < cut_a.len() && used()(part_cut(b)(#[trigger] cut_a[k])) implies used()(
        cut_a[k],
    ) by {
        cut_a[k].components.lemma_filter_len(unlisted(b));
    }
    lemma_filter_map_filter(cut_a, used(), part_cut(b), used());
    assert(cut_a.map_values(part_cut(b)) =~= nl.parts.map_values(part_cut(a + b)));
    assert(second.parts == both.parts);

    let nets_a = nl.nets.map_values(|n: NetView| n.without(a));
    let via = |n: NetView| n.without(b);
    assert forall|k: int| 0 <= k < nets_a.len() && connected()(via(#[trigger] nets_a[k])) implies connected()(
        nets_a[k],
    ) by {
        nets_a[k].nodes.lemma_filter_len(staying_node(b));
    }
    lemma_filter_map_filter(nets_a, connected(), via, connected());
    assert(nets_a.map_values(via) =~= nl.nets.map_values(|n: NetView| n.without(a + b)));
    assert(second.nets == both.nets);
}

/// A component other than the one that is removed is still there.
pub proof fn lemma_others_stay(nl: NetListView, gone: Seq<char>, other: Seq<char>)
    requires
        any(nl.components, named(other)),
        other != gone,
    ensures
        any(nl.remove_component(gone).components, named(other)),
{
    lemma_position(nl.components, named(gone));
    let k = choose|k: int| 0 <= k < nl.components.len() && named(other)(#[trigger] nl.components[k]);
    match position(nl.components, named(gone)) {
        None => {},
        Some(i) => {
            let rest = nl.components.remove(i);
            if k < i {
                assert(named(other)(rest[k]));
            } else {
                assert(named(other)(rest[k - 1]));
            }
        },
    }
}

/// In a linked netlist with distinct names, removing a batch of components
/// that are all there, each named once, is removing them one after another.
/// (For the empty batch the nets all have to have nodes: the batch drops a
/// net without nodes, and removing nothing one by one does not.)
pub proof fn lemma_batch_is_one_by_one(nl: NetListView, list: Seq<Seq<char>>)
    requires
        nl.linked(),
        nl.distinct(),
        nl.connected() || list.len() > 0,
        list.no_duplicates(),
        forall|k: int| 0 <= k < list.len() ==> any(nl.components, named(#[trigger] list[k])),
    ensures
        nl.remove_components(list) == remove_each(nl, list),
    decreases list.len(),
{
    if list.len() == 0 {
        assert(list =~= Seq::empty());
        lemma_remove_nothing(nl);
    } else {
        let r = list[0];
        let rest = list.drop_first();
        let next = nl.remove_component(r);
        assert(any(nl.components, named(list[0])));
        lemma_single_is_batch(nl, r);
        lemma_remove_component_keeps_links(nl, r);
        assert forall|k: int| 0 <= k < rest.len() implies any(
            next.components,
            named(#[trigger] rest[k]),
        ) by {
            assert(rest[k] == list[k + 1]);
            assert(any(nl.components, named(list[k + 1])));
            lemma_others_stay(nl, r, rest[k]);
        }
        assert(rest.no_duplicates()) by {
            assert forall|x: int, y: int| 0 <= x < rest.len() && 0 <= y < rest.len() && x
                != y implies rest[x] != rest[y] by {
                assert(rest[x] == list[x + 1] && rest[y] == list[y + 1]);
            }
        }
        lemma_batch_is_one_by_one(next, rest);
        lemma_batch_splits(nl, seq![r], rest);
        assert(seq![r] + rest =~= list);
    }
}

/// After a batch every node still names a component, where every node did
/// before.
pub proof fn lemma_batch_grounded(nl: NetListView, list: Seq<Seq<char>>)
    requires
        nl.grounded(),
    ensures
        nl.remove_components(list).grounded(),
{
    let after = nl.remove_components(list);
    let cut_nets = nl.nets.map_values(|n: NetView| n.without(list));
    lemma_filter_source(cut_nets, connected());
    lemma_filter_source(nl.components, staying(list));
    assert forall|n: int, d: int|
        0 <= n < after.nets.len() && 0 <= d < after.nets[n].nodes.len() implies any(
        after.components,
        named((#[trigger] after.nets[n].nodes[d]).ref_des),
    ) by {
        assert(cut_nets.contains(after.nets[n]));
        let m = choose|m: int| 0 <= m < cut_nets.len() && cut_nets[m] == after.nets[n];
        let node = after.nets[n].nodes[d];
        lemma_filter_source(nl.nets[m].nodes, staying_node(list));
        assert(nl.nets[m].nodes.contains(node));
        let e = choose|e: int| 0 <= e < nl.nets[m].nodes.len() && nl.nets[m].nodes[e] == node;
        assert(any(nl.components, named(nl.nets[m].nodes[e].ref_des)));
        let k = choose|k: int|
            0 <= k < nl.components.len() && named(node.ref_des)(#[trigger] nl.components[k]);
        assert(after.components.contains(nl.components[k]));
        let i = choose|i: int| 0 <= i < after.components.len() && after.components[i]
            == nl.components[k];
        assert(named(node.ref_des)(after.components[i]));
    }
}

/// In a linked netlist with distinct names in which every node names a
/// component, a name that no component has adds nothing to a batch.
pub proof fn lemma_absent_name(nl: NetListView, ref_des: Seq<char>, list: Seq<Seq<char>>)
    requires
        nl.linked(),
        nl.distinct(),
        nl.grounded(),
        !any(nl.components, named(ref_des)),
    ensures
        nl.remove_components(seq![ref_des] + list) == nl.remove_components(list),
{
    let more = seq![ref_des] + list;
    assert(seq![ref_des][0] == ref_des);
    assert forall|x: Seq<char>| x != ref_des implies more.contains(x) == list.contains(x) by {
        lemma_contains_add(seq![ref_des], list, x);
        if seq![ref_des].contains(x) {
            let y = choose|y: int| 0 <= y < seq![ref_des].len() && seq![ref_des][y] == x;
        }
    }
    assert forall|i: int| 0 <= i < nl.components.len() implies staying(more)(
        #[trigger] nl.components[i],
    ) == staying(list)(nl.components[i]) by {
        assert(!named(ref_des)(nl.components[i]));
    }
    lemma_filter_same(nl.components, staying(more), staying(list));

    let cut_more = nl.nets.map_values(|n: NetView| n.without(more));
    let cut_list = nl.nets.map_values(|n: NetView| n.without(list));
    assert forall|n: int| 0 <= n < nl.nets.len() implies cut_more[n] == cut_list[n] by {
        let nodes = nl.nets[n].nodes;
        assert forall|d: int| 0 <= d < nodes.len() implies staying_node(more)(#[trigger] nodes[d])
            == staying_node(list)(nodes[d]) by {
            assert(any(nl.components, named(nl.nets[n].nodes[d].ref_des)));
        }
        lemma_filter_same(nodes, staying_node(more), staying_node(list));
    }
    assert(cut_more =~= cut_list);

    lemma_batch_parts(nl, more);
    lemma_batch_parts(nl, list);
    let parts_more = nl.parts.map_values(part_cut(more));
    let parts_list = nl.parts.map_values(part_cut(list));
    assert forall|j: int| 0 <= j < nl.parts.len() implies parts_more[j] == parts_list[j] by {
        let id = nl.parts[j].part_id;
        let held = nl.components.filter(uses(id));
        lemma_filter_source(nl.components, uses(id));
        let names = nl.parts[j].components;
        assert(names == users(nl.components, id));
        assert forall|k: int| 0 <= k < names.len() implies unlisted(more)(#[trigger] names[k])
            == unlisted(list)(names[k]) by {
            assert(names[k] == held[k].ref_des);
            assert(nl.components.contains(held[k]));
            let x = choose|x: int| 0 <= x < nl.components.len() && nl.components[x] == held[k];
            assert(!named(ref_des)(nl.components[x]));
        }
        lemma_filter_same(names, unlisted(more), unlisted(list));
    }
    assert(parts_more =~= parts_list);
}

/// In a linked netlist with distinct names in which every node names a
/// component, removing a batch is removing its names one after another,
/// whatever the batch holds: names may come twice, and need not name a
/// component. (Where no name of the batch names a component, the nets all
/// have to have nodes: the batch drops a net without nodes, and removing
/// nothing does not.)
pub proof fn lemma_any_batch_is_one_by_one(nl: NetListView, list: Seq<Seq<char>>)
    requires
        nl.linked(),
        nl.distinct(),
        nl.grounded(),
        nl.connected() || exists|k: int|
            0 <= k < list.len() && any(nl.components, named(#[trigger] list[k])),
    ensures
        nl.remove_components(list) == remove_each(nl, list),
    decreases list.len(),
{
    if list.len() == 0 {
        assert(list =~= Seq::empty());
        lemma_remove_nothing(nl);
    } else {
        let r = list[0];
        let rest = list.drop_first();
        let next = nl.remove_component(r);
        assert(seq![r] + rest =~= list);
        if any(nl.components, named(r)) {
            lemma_single_is_batch(nl, r);
            lemma_remove_component_keeps_links(nl, r);
            lemma_batch_grounded(nl, seq![r]);
            lemma_any_batch_is_one_by_one(next, rest);
            lemma_batch_splits(nl, seq![r], rest);
        } else {
            lemma_remove_absent(nl, r);
            if !nl.connected() {
                let k = choose|k: int|
                    0 <= k < list.len() && any(nl.components, named(#[trigger] list[k]));
                assert(rest[k - 1] == list[k]);
            }
            lemma_any_batch_is_one_by_one(nl, rest);
            lemma_absent_name(nl, r, rest);
        }
    }
}

} // verus!
