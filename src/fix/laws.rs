use super::component::{ComponentFieldType, ComponentView};
use super::dictionary::{
    expand, expand_all, group_fields, lookup_component, lookup_field, with_field, with_group,
};
use super::field::{field_type_of, FieldView};
use super::group::tags_of;
use super::loader::field_defs;
use super::message::MessageView;
use super::xml::{attr_of, XmlNodeView};
use crate::text::i32_of;
use vstd::prelude::*;

verus! {

/// A field just defined answers a lookup by its name with the tag it was
/// defined with and the value type its raw type normalises to.
pub proof fn lemma_defined_field_found(
    cat: Seq<FieldView>,
    tag: i32,
    name: Seq<char>,
    raw_type: Seq<char>,
)
    ensures
        lookup_field(
            cat.push(FieldView { tag, name, value_type: field_type_of(raw_type) }),
            name,
        ) == Some(FieldView { tag, name, value_type: field_type_of(raw_type) }),
{
    let c = cat.push(FieldView { tag, name, value_type: field_type_of(raw_type) });
    assert(c.last().name == name);
}

/// The tags of the names among `names` that resolve to a field.
pub open spec fn resolved_tags(cat: Seq<FieldView>, names: Set<Seq<char>>) -> Set<i32> {
    Set::new(
        |t: i32|
            exists|n: Seq<char>|
                #![trigger names.contains(n)]
                names.contains(n) && lookup_field(cat, n) is Some && lookup_field(cat, n)->Some_0.tag
                    == t,
    )
}

/// The names referred to by the first `k` references of `c`.
pub open spec fn names_upto(c: ComponentView, k: int) -> Set<Seq<char>> {
    c.members.take(k).map_values(|p: (ComponentFieldType, Seq<char>)| p.1).to_set()
}

/// Whether every reference of `c` is a field reference.
pub open spec fn only_fields(c: ComponentView) -> bool {
    forall|i: int| 0 <= i < c.members.len() ==> #[trigger] c.members[i].0 == ComponentFieldType::FIELD
}

proof fn lemma_direct_fields_upto(
    cat: Seq<FieldView>,
    comps: Seq<ComponentView>,
    c: ComponentView,
    k: nat,
    stack: Seq<Seq<char>>,
    m: MessageView,
)
    requires
        forall|i: int| 0 <= i < k ==> #[trigger] c.members[i].0 == ComponentFieldType::FIELD,
        k <= c.members.len(),
    ensures
        expand(cat, comps, c, k, stack, m) is Some,
        expand(cat, comps, c, k, stack, m)->Some_0.fields.dom() == m.fields.dom() + resolved_tags(
            cat,
            names_upto(c, k as int),
        ),
        expand(cat, comps, c, k, stack, m)->Some_0.groups == m.groups,
        expand(cat, comps, c, k, stack, m)->Some_0.name == m.name,
        expand(cat, comps, c, k, stack, m)->Some_0.msg_type == m.msg_type,
        expand(cat, comps, c, k, stack, m)->Some_0.category == m.category,
    decreases k,
{
    let proj = |p: (ComponentFieldType, Seq<char>)| p.1;
    if k == 0 {
        assert(names_upto(c, 0) =~= Set::empty());
        assert(resolved_tags(cat, Set::empty()) =~= Set::empty());
        assert(m.fields.dom() + Set::<i32>::empty() =~= m.fields.dom());
    } else {
        lemma_direct_fields_upto(cat, comps, c, (k - 1) as nat, stack, m);
        let prev = expand(cat, comps, c, (k - 1) as nat, stack, m)->Some_0;
        let name = c.members[k - 1].1;
        assert(c.members[k - 1].0 == ComponentFieldType::FIELD);
        assert(c.members.take(k as int).map_values(proj) =~= c.members.take(k - 1).map_values(
            proj,
        ).push(name));
        assert(names_upto(c, k as int) =~= names_upto(c, k - 1).insert(name)) by {
            c.members.take(k - 1).map_values(proj).lemma_push_to_set_commute(name);
        }
        let next = expand(cat, comps, c, k, stack, m)->Some_0;
        assert(next == with_field(cat, name, prev));
        assert(next.fields.dom() =~= m.fields.dom() + resolved_tags(cat, names_upto(c, k as int)))
            by {
            assert forall|t: i32| #[trigger]
                resolved_tags(cat, names_upto(c, k as int)).contains(t) implies next.fields.dom().contains(
                t,
            ) || m.fields.dom().contains(t) by {
                let n = choose|n: Seq<char>|
                    names_upto(c, k as int).contains(n) && lookup_field(cat, n) is Some
                        && lookup_field(cat, n)->Some_0.tag == t;
                if n != name {
                    assert(names_upto(c, k - 1).contains(n));
                    assert(resolved_tags(cat, names_upto(c, k - 1)).contains(t));
                }
            }
            assert forall|t: i32| #[trigger]
                resolved_tags(cat, names_upto(c, k - 1)).contains(t) implies resolved_tags(
                cat,
                names_upto(c, k as int),
            ).contains(t) by {
                let n = choose|n: Seq<char>|
                    names_upto(c, k - 1).contains(n) && lookup_field(cat, n) is Some
                        && lookup_field(cat, n)->Some_0.tag == t;
                assert(names_upto(c, k as int).contains(n));
            }
            if lookup_field(cat, name) is Some {
                assert(names_upto(c, k as int).contains(name));
                assert(resolved_tags(cat, names_upto(c, k as int)).contains(
                    lookup_field(cat, name)->Some_0.tag,
                ));
            }
        }
    }
}

/// A component made of field references alone, expanded into a message,
/// adds exactly the tags of the names among its references that resolve,
/// and nothing else; the order of the references does not enter.
pub proof fn lemma_direct_fields(
    cat: Seq<FieldView>,
    comps: Seq<ComponentView>,
    c: ComponentView,
    stack: Seq<Seq<char>>,
    m: MessageView,
)
    requires
        only_fields(c),
    ensures
        expand_all(cat, comps, c, stack, m) is Some,
        expand_all(cat, comps, c, stack, m)->Some_0.fields.dom() == m.fields.dom()
            + resolved_tags(cat, names_upto(c, c.members.len() as int)),
        expand_all(cat, comps, c, stack, m)->Some_0.groups == m.groups,
{
    lemma_direct_fields_upto(cat, comps, c, c.members.len(), stack, m);
}

/// Expanding a component of field references alone a second time into the
/// message it produced leaves its field set as it was.
pub proof fn lemma_direct_fields_idempotent(
    cat: Seq<FieldView>,
    comps: Seq<ComponentView>,
    c: ComponentView,
    stack: Seq<Seq<char>>,
    m: MessageView,
)
    requires
        only_fields(c),
    ensures
        expand_all(cat, comps, c, stack, expand_all(cat, comps, c, stack, m)->Some_0) is Some,
        expand_all(
            cat,
            comps,
            c,
            stack,
            expand_all(cat, comps, c, stack, m)->Some_0,
        )->Some_0.fields.dom() == expand_all(cat, comps, c, stack, m)->Some_0.fields.dom(),
{
    lemma_direct_fields(cat, comps, c, stack, m);
    let m1 = expand_all(cat, comps, c, stack, m)->Some_0;
    lemma_direct_fields(cat, comps, c, stack, m1);
    let t = resolved_tags(cat, names_upto(c, c.members.len() as int));
    assert(m.fields.dom() + t + t =~= m.fields.dom() + t);
}

/// Two components of field references alone that refer to the same names,
/// in whatever order, expand into a message with the same field set.
pub proof fn lemma_direct_fields_order_free(
    cat: Seq<FieldView>,
    comps: Seq<ComponentView>,
    c1: ComponentView,
    c2: ComponentView,
    stack: Seq<Seq<char>>,
    m: MessageView,
)
    requires
        only_fields(c1),
        only_fields(c2),
        names_upto(c1, c1.members.len() as int) == names_upto(c2, c2.members.len() as int),
    ensures
        expand_all(cat, comps, c1, stack, m)->Some_0.fields.dom() == expand_all(
            cat,
            comps,
            c2,
            stack,
            m,
        )->Some_0.fields.dom(),
{
    lemma_direct_fields(cat, comps, c1, stack, m);
    lemma_direct_fields(cat, comps, c2, stack, m);
}

/// A reference that resolves to nothing leaves the expansion as it stood
/// and fails nothing: the references after it are expanded as if it were
/// not there.
pub proof fn lemma_unresolved_skipped(
    cat: Seq<FieldView>,
    comps: Seq<ComponentView>,
    c: ComponentView,
    k: nat,
    stack: Seq<Seq<char>>,
    m: MessageView,
)
    requires
        k < c.members.len(),
        lookup_field(cat, c.members[k as int].1) is None,
        c.members[k as int].0 != ComponentFieldType::COMPONENT,
    ensures
        expand(cat, comps, c, k + 1, stack, m) == expand(cat, comps, c, k, stack, m),
{
}

} // verus!

verus! {

/// The members of a group built from the names `names`: no tag twice; each
/// member is the field of one of the names; each name that resolves has its
/// tag among the members; the group has members exactly when some name
/// resolves, and then the first is the field of the first name that resolves.
pub proof fn lemma_group_shape(cat: Seq<FieldView>, names: Seq<Seq<char>>)
    ensures
        tags_of(group_fields(cat, names)).no_duplicates(),
        forall|i: int|
            0 <= i < group_fields(cat, names).len() ==> exists|j: int|
                0 <= j < names.len() && lookup_field(cat, names[j]) == Some(
                    #[trigger] group_fields(cat, names)[i],
                ),
        forall|j: int|
            0 <= j < names.len() && #[trigger] lookup_field(cat, names[j]) is Some ==> tags_of(
                group_fields(cat, names),
            ).contains(lookup_field(cat, names[j])->Some_0.tag),
        group_fields(cat, names).len() > 0 <==> exists|j: int|
            0 <= j < names.len() && #[trigger] lookup_field(cat, names[j]) is Some,
        forall|j: int|
            0 <= j < names.len() && #[trigger] lookup_field(cat, names[j]) is Some && (forall|
                j2: int,
            |
                0 <= j2 < j ==> lookup_field(cat, names[j2]) is None) ==> group_fields(cat, names)[0]
                == lookup_field(cat, names[j])->Some_0,
    decreases names.len(),
{
    let gf = group_fields(cat, names);
    if names.len() > 0 {
        let ns = names.drop_last();
        let x = names.last();
        lemma_group_shape(cat, ns);
        let prev = group_fields(cat, ns);
        assert forall|j: int| 0 <= j < ns.len() implies names[j] == ns[j] by {}
        assert(names[names.len() - 1] == x);
        match lookup_field(cat, x) {
            Some(f) => {
                if !tags_of(prev).contains(f.tag) {
                    assert(tags_of(gf) =~= tags_of(prev).push(f.tag));
                    assert forall|i: int| 0 <= i < gf.len() implies exists|j: int|
                        0 <= j < names.len() && lookup_field(cat, names[j]) == Some(
                            #[trigger] gf[i],
                        ) by {
                        if i < prev.len() {
                            let j = choose|j: int|
                                0 <= j < ns.len() && lookup_field(cat, ns[j]) == Some(prev[i]);
                            assert(lookup_field(cat, names[j]) == Some(gf[i]));
                        } else {
                            assert(lookup_field(cat, names[names.len() - 1]) == Some(gf[i]));
                        }
                    }
                    assert forall|j: int|
                        0 <= j < names.len() && #[trigger] lookup_field(cat, names[j])
                            is Some implies tags_of(gf).contains(
                        lookup_field(cat, names[j])->Some_0.tag,
                    ) by {
                        if j < ns.len() {
                            assert(lookup_field(cat, ns[j]) is Some);
                            let t = lookup_field(cat, names[j])->Some_0.tag;
                            let w = choose|w: int| 0 <= w < tags_of(prev).len() && tags_of(prev)[w] == t;
                            assert(tags_of(gf)[w] == t);
                        } else {
                            assert(tags_of(gf)[prev.len() as int] == f.tag);
                        }
                    }
                    assert forall|j: int|
                        0 <= j < names.len() && #[trigger] lookup_field(cat, names[j]) is Some && (
                        forall|j2: int|
                            0 <= j2 < j ==> lookup_field(cat, names[j2]) is None) implies gf[0]
                        == lookup_field(cat, names[j])->Some_0 by {
                        if j < ns.len() {
                            assert(lookup_field(cat, ns[j]) is Some);
                            assert forall|j2: int| 0 <= j2 < j implies lookup_field(cat, ns[j2])
                                is None by {
                                assert(lookup_field(cat, names[j2]) is None);
                            }
                        } else {
                            if prev.len() > 0 {
                                let j3 = choose|j3: int|
                                    0 <= j3 < ns.len() && #[trigger] lookup_field(cat, ns[j3])
                                        is Some;
                                assert(lookup_field(cat, names[j3]) is None);
                            }
                        }
                    }
                } else {
                    assert(gf == prev);
                    assert forall|i: int| 0 <= i < gf.len() implies exists|j: int|
                        0 <= j < names.len() && lookup_field(cat, names[j]) == Some(
                            #[trigger] gf[i],
                        ) by {
                        let j = choose|j: int|
                            0 <= j < ns.len() && lookup_field(cat, ns[j]) == Some(prev[i]);
                        assert(lookup_field(cat, names[j]) == Some(gf[i]));
                    }
                    assert forall|j: int|
                        0 <= j < names.len() && #[trigger] lookup_field(cat, names[j])
                            is Some implies tags_of(gf).contains(
                        lookup_field(cat, names[j])->Some_0.tag,
                    ) by {
                        if j < ns.len() {
                            assert(lookup_field(cat, ns[j]) is Some);
                        }
                    }
                    let w = choose|w: int| 0 <= w < tags_of(prev).len() && tags_of(prev)[w] == f.tag;
                    assert(prev.len() > 0);
                    let j3 = choose|j3: int|
                        0 <= j3 < ns.len() && #[trigger] lookup_field(cat, ns[j3]) is Some;
                    assert(lookup_field(cat, names[j3]) is Some);
                    assert forall|j: int|
                        0 <= j < names.len() && #[trigger] lookup_field(cat, names[j]) is Some && (
                        forall|j2: int|
                            0 <= j2 < j ==> lookup_field(cat, names[j2]) is None) implies gf[0]
                        == lookup_field(cat, names[j])->Some_0 by {
                        if j < ns.len() {
                            assert(lookup_field(cat, ns[j]) is Some);
                            assert forall|j2: int| 0 <= j2 < j implies lookup_field(cat, ns[j2])
                                is None by {
                                assert(lookup_field(cat, names[j2]) is None);
                            }
                        } else {
                            assert(lookup_field(cat, names[j3]) is None);
                        }
                    }
                }
            },
            None => {
                assert(gf == prev);
                assert forall|i: int| 0 <= i < gf.len() implies exists|j: int|
                    0 <= j < names.len() && lookup_field(cat, names[j]) == Some(#[trigger] gf[i]) by {
                    let j = choose|j: int|
                        0 <= j < ns.len() && lookup_field(cat, ns[j]) == Some(prev[i]);
                    assert(lookup_field(cat, names[j]) == Some(gf[i]));
                }
                assert forall|j: int|
                    0 <= j < names.len() && #[trigger] lookup_field(cat, names[j])
                        is Some implies tags_of(gf).contains(
                    lookup_field(cat, names[j])->Some_0.tag,
                ) by {
                    if j < ns.len() {
                        assert(lookup_field(cat, ns[j]) is Some);
                    }
                }
                if exists|j: int| 0 <= j < names.len() && #[trigger] lookup_field(cat, names[j]) is Some {
                    let j = choose|j: int| 0 <= j < names.len() && #[trigger] lookup_field(cat, names[j]) is Some;
                    assert(j < ns.len());
                    assert(lookup_field(cat, ns[j]) is Some);
                }
                if gf.len() > 0 {
                    let j3 = choose|j3: int|
                        0 <= j3 < ns.len() && #[trigger] lookup_field(cat, ns[j3]) is Some;
                    assert(lookup_field(cat, names[j3]) is Some);
                }
                assert forall|j: int|
                    0 <= j < names.len() && #[trigger] lookup_field(cat, names[j]) is Some && (
                    forall|j2: int|
                        0 <= j2 < j ==> lookup_field(cat, names[j2]) is None) implies gf[0]
                    == lookup_field(cat, names[j])->Some_0 by {
                    assert(j < ns.len());
                    assert(lookup_field(cat, ns[j]) is Some);
                    assert forall|j2: int| 0 <= j2 < j implies lookup_field(cat, ns[j2]) is None by {
                        assert(lookup_field(cat, names[j2]) is None);
                    }
                }
            },
        }
    } else {
        assert(tags_of(gf) =~= Seq::<i32>::empty());
    }
}

} // verus!

verus! {

/// The tags of the fields that the first `k` references of `c` reach: its
/// own field references that resolve, and, through each component reference
/// that resolves, the fields that component reaches in turn.
pub open spec fn flat_tags(
    cat: Seq<FieldView>,
    comps: Seq<ComponentView>,
    c: ComponentView,
    k: nat,
    stack: Seq<Seq<char>>,
) -> Set<i32>
    decreases comps.len() - stack.len(), k,
{
    if k == 0 {
        Set::empty()
    } else {
        let prev = flat_tags(cat, comps, c, (k - 1) as nat, stack);
        let name = c.members[k - 1].1;
        match c.members[k - 1].0 {
            ComponentFieldType::FIELD => match lookup_field(cat, name) {
                Some(f) => prev.insert(f.tag),
                None => prev,
            },
            ComponentFieldType::GROUP => prev,
            ComponentFieldType::COMPONENT => match lookup_component(comps, name) {
                None => prev,
                Some(d) => if stack.contains(name) || stack.len() >= comps.len() {
                    prev
                } else {
                    prev + flat_tags(cat, comps, d, d.members.len(), stack.push(name))
                },
            },
        }
    }
}

/// Expansion flattens: the fields a message holds after a component is
/// expanded into it are those it held before together with every field the
/// component reaches, directly or through nested components at any depth.
pub proof fn lemma_flattening(
    cat: Seq<FieldView>,
    comps: Seq<ComponentView>,
    c: ComponentView,
    k: nat,
    stack: Seq<Seq<char>>,
    m: MessageView,
)
    requires
        expand(cat, comps, c, k, stack, m) is Some,
    ensures
        expand(cat, comps, c, k, stack, m)->Some_0.fields.dom() == m.fields.dom() + flat_tags(
            cat,
            comps,
            c,
            k,
            stack,
        ),
    decreases comps.len() - stack.len(), k,
{
    if k == 0 {
        assert(m.fields.dom() + Set::<i32>::empty() =~= m.fields.dom());
    } else {
        lemma_flattening(cat, comps, c, (k - 1) as nat, stack, m);
        let m1 = expand(cat, comps, c, (k - 1) as nat, stack, m)->Some_0;
        let prev = flat_tags(cat, comps, c, (k - 1) as nat, stack);
        let name = c.members[k - 1].1;
        let r = expand(cat, comps, c, k, stack, m)->Some_0;
        match c.members[k - 1].0 {
            ComponentFieldType::FIELD => {
                assert(r == with_field(cat, name, m1));
                match lookup_field(cat, name) {
                    Some(f) => {
                        assert(r.fields.dom() =~= m.fields.dom() + prev.insert(f.tag));
                    },
                    None => {},
                }
            },
            ComponentFieldType::GROUP => {
                assert(r == with_group(cat, c, name, m1));
                assert(r.fields == m1.fields);
            },
            ComponentFieldType::COMPONENT => {
                match lookup_component(comps, name) {
                    None => {},
                    Some(d) => {
                        lemma_flattening(cat, comps, d, d.members.len(), stack.push(name), m1);
                        let inner = flat_tags(cat, comps, d, d.members.len(), stack.push(name));
                        assert(r.fields.dom() =~= m.fields.dom() + (prev + inner));
                    },
                }
            },
        }
    }
}

/// A reference to a group whose counting field resolves, and at least one
/// of whose members resolves, gives the message one group, under the
/// counting field's tag, built from the member names the component records.
pub proof fn lemma_group_reference(
    cat: Seq<FieldView>,
    comps: Seq<ComponentView>,
    c: ComponentView,
    k: nat,
    stack: Seq<Seq<char>>,
    m: MessageView,
)
    requires
        k < c.members.len(),
        c.members[k as int].0 == ComponentFieldType::GROUP,
        lookup_field(cat, c.members[k as int].1) is Some,
        c.group_members(c.members[k as int].1) is Some,
        group_fields(cat, c.group_members(c.members[k as int].1)->Some_0).len() > 0,
        expand(cat, comps, c, k, stack, m) is Some,
    ensures
        expand(cat, comps, c, k + 1, stack, m) == Some(
            MessageView {
                groups: expand(cat, comps, c, k, stack, m)->Some_0.groups.insert(
                    lookup_field(cat, c.members[k as int].1)->Some_0.tag,
                    group_fields(cat, c.group_members(c.members[k as int].1)->Some_0),
                ),
                ..expand(cat, comps, c, k, stack, m)->Some_0
            },
        ),
{
}

} // verus!

verus! {

/// The fields that the names `names` resolve to, in order.
pub open spec fn resolved_fields(cat: Seq<FieldView>, names: Seq<Seq<char>>) -> Seq<FieldView> {
    names.map_values(|n: Seq<char>| lookup_field(cat, n)->Some_0)
}

/// Where every member name resolves, and to fields of distinct tags, the
/// group's members are those fields in the order the names are listed.
pub proof fn lemma_group_in_source_order(cat: Seq<FieldView>, names: Seq<Seq<char>>)
    requires
        forall|j: int| 0 <= j < names.len() ==> #[trigger] lookup_field(cat, names[j]) is Some,
        tags_of(resolved_fields(cat, names)).no_duplicates(),
    ensures
        group_fields(cat, names) == resolved_fields(cat, names),
    decreases names.len(),
{
    if names.len() > 0 {
        let ns = names.drop_last();
        assert forall|j: int| 0 <= j < ns.len() implies #[trigger] lookup_field(cat, ns[j]) is Some by {
            assert(ns[j] == names[j]);
        }
        assert(resolved_fields(cat, ns) =~= resolved_fields(cat, names).drop_last());
        assert(tags_of(resolved_fields(cat, ns)) =~= tags_of(resolved_fields(cat, names)).drop_last());
        lemma_group_in_source_order(cat, ns);
        let f = lookup_field(cat, names.last())->Some_0;
        assert(lookup_field(cat, names[names.len() - 1]) is Some);
        let all = tags_of(resolved_fields(cat, names));
        assert(all[names.len() - 1] == f.tag);
        if tags_of(resolved_fields(cat, ns)).contains(f.tag) {
            let w = choose|w: int|
                0 <= w < tags_of(resolved_fields(cat, ns)).len() && tags_of(resolved_fields(cat, ns))[w]
                    == f.tag;
            assert(all[w] == f.tag);
        }
        assert(resolved_fields(cat, names) =~= resolved_fields(cat, ns).push(f));
    } else {
        assert(resolved_fields(cat, names) =~= Seq::<FieldView>::empty());
    }
}

} // verus!

verus! {

/// Whether an expansion succeeds does not depend on the message it fills.
pub proof fn lemma_expand_success_any_message(
    cat: Seq<FieldView>,
    comps: Seq<ComponentView>,
    c: ComponentView,
    k: nat,
    stack: Seq<Seq<char>>,
    m1: MessageView,
    m2: MessageView,
)
    ensures
        expand(cat, comps, c, k, stack, m1) is Some <==> expand(cat, comps, c, k, stack, m2) is Some,
    decreases comps.len() - stack.len(), k,
{
    if k > 0 {
        lemma_expand_success_any_message(cat, comps, c, (k - 1) as nat, stack, m1, m2);
        let before1 = expand(cat, comps, c, (k - 1) as nat, stack, m1);
        let before2 = expand(cat, comps, c, (k - 1) as nat, stack, m2);
        if before1 is Some && before2 is Some {
            let name = c.members[k - 1].1;
            if c.members[k - 1].0 == ComponentFieldType::COMPONENT {
                match lookup_component(comps, name) {
                    None => {},
                    Some(d) => {
                        if !(stack.contains(name) || stack.len() >= comps.len()) {
                            lemma_expand_success_any_message(
                                cat,
                                comps,
                                d,
                                d.members.len(),
                                stack.push(name),
                                before1->Some_0,
                                before2->Some_0,
                            );
                        }
                    },
                }
            }
        }
    }
}

/// Expanding a component into a message a second time succeeds and leaves
/// the field set as the first expansion made it; and expanding it into two
/// messages with the same fields gives the same field set.
pub proof fn lemma_expansion_idempotent(
    cat: Seq<FieldView>,
    comps: Seq<ComponentView>,
    c: ComponentView,
    stack: Seq<Seq<char>>,
    m: MessageView,
    m2: MessageView,
)
    requires
        expand_all(cat, comps, c, stack, m) is Some,
        m2.fields.dom() == m.fields.dom(),
    ensures
        expand_all(cat, comps, c, stack, expand_all(cat, comps, c, stack, m)->Some_0) is Some,
        expand_all(
            cat,
            comps,
            c,
            stack,
            expand_all(cat, comps, c, stack, m)->Some_0,
        )->Some_0.fields.dom() == expand_all(cat, comps, c, stack, m)->Some_0.fields.dom(),
        expand_all(cat, comps, c, stack, m2) is Some,
        expand_all(cat, comps, c, stack, m2)->Some_0.fields.dom() == expand_all(
            cat,
            comps,
            c,
            stack,
            m,
        )->Some_0.fields.dom(),
{
    let n = c.members.len();
    let r = expand_all(cat, comps, c, stack, m)->Some_0;
    lemma_expand_success_any_message(cat, comps, c, n, stack, m, r);
    lemma_expand_success_any_message(cat, comps, c, n, stack, m, m2);
    lemma_flattening(cat, comps, c, n, stack, m);
    lemma_flattening(cat, comps, c, n, stack, r);
    lemma_flattening(cat, comps, c, n, stack, m2);
    let t = flat_tags(cat, comps, c, n, stack);
    assert(m.fields.dom() + t + t =~= m.fields.dom() + t);
}

} // verus!

verus! {

/// One level of nesting flattens into a union: a component of field
/// references followed by a reference to a second component of field
/// references adds to the message the resolved fields of both.
pub proof fn lemma_one_level_union(
    cat: Seq<FieldView>,
    comps: Seq<ComponentView>,
    c: ComponentView,
    b: ComponentView,
    stack: Seq<Seq<char>>,
    m: MessageView,
)
    requires
        c.members.len() > 0,
        forall|i: int|
            0 <= i < c.members.len() - 1 ==> #[trigger] c.members[i].0 == ComponentFieldType::FIELD,
        c.members.last().0 == ComponentFieldType::COMPONENT,
        lookup_component(comps, c.members.last().1) == Some(b),
        only_fields(b),
        !stack.contains(c.members.last().1),
        stack.len() < comps.len(),
    ensures
        expand_all(cat, comps, c, stack, m) is Some,
        expand_all(cat, comps, c, stack, m)->Some_0.fields.dom() == m.fields.dom() + resolved_tags(
            cat,
            names_upto(c, c.members.len() - 1),
        ) + resolved_tags(cat, names_upto(b, b.members.len() as int)),
{
    let k = (c.members.len() - 1) as nat;
    lemma_direct_fields_upto(cat, comps, c, k, stack, m);
    let prev = expand(cat, comps, c, k, stack, m)->Some_0;
    let name = c.members.last().1;
    assert(c.members[k as int] == c.members.last());
    lemma_direct_fields(cat, comps, b, stack.push(name), prev);
}

} // verus!

verus! {

/// Whether the element `n` is a `field` element that defines `f`: its name
/// attribute is `f`'s name, its number attribute reads as `f`'s tag, and its
/// type attribute normalises to `f`'s value type.
pub open spec fn element_defines(n: XmlNodeView, f: FieldView) -> bool {
    &&& n.name == "field"@
    &&& attr_of(n, "name"@) == Some(f.name)
    &&& attr_of(n, "number"@) is Some && i32_of(attr_of(n, "number"@)->Some_0) == Some(f.tag)
    &&& attr_of(n, "type"@) is Some && f.value_type == field_type_of(attr_of(n, "type"@)->Some_0)
}

/// A lookup by name answers with an entry of the catalog that has that name.
pub proof fn lemma_lookup_field_member(cat: Seq<FieldView>, name: Seq<char>)
    ensures
        lookup_field(cat, name) is Some ==> {
            &&& lookup_field(cat, name)->Some_0.name == name
            &&& exists|i: int| 0 <= i < cat.len() && cat[i] == lookup_field(cat, name)->Some_0
        },
    decreases cat.len(),
{
    if cat.len() > 0 && cat.last().name != name {
        lemma_lookup_field_member(cat.drop_last(), name);
        if lookup_field(cat, name) is Some {
            let i = choose|i: int|
                0 <= i < cat.drop_last().len() && cat.drop_last()[i] == lookup_field(cat, name)->Some_0;
            assert(cat[i] == cat.drop_last()[i]);
        }
    } else if cat.len() > 0 {
        assert(cat[cat.len() - 1] == cat.last());
    }
}

/// Every field that a fields section defines is defined by one of its `field` elements.
pub proof fn lemma_field_defs_elements(nodes: Seq<XmlNodeView>, kids: Seq<usize>)
    requires
        field_defs(nodes, kids) is Some,
    ensures
        forall|i: int|
            0 <= i < field_defs(nodes, kids)->Some_0.len() ==> exists|j: int|
                0 <= j < kids.len() && element_defines(
                    nodes[kids[j] as int],
                    #[trigger] field_defs(nodes, kids)->Some_0[i],
                ),
    decreases kids.len(),
{
    if kids.len() > 0 {
        let ks = kids.drop_last();
        lemma_field_defs_elements(nodes, ks);
        let prev = field_defs(nodes, ks)->Some_0;
        let defs = field_defs(nodes, kids)->Some_0;
        assert forall|i: int| 0 <= i < defs.len() implies exists|j: int|
            0 <= j < kids.len() && element_defines(nodes[kids[j] as int], #[trigger] defs[i]) by {
            if i < prev.len() {
                assert(defs[i] == prev[i]);
                let j = choose|j: int|
                    0 <= j < ks.len() && element_defines(nodes[ks[j] as int], prev[i]);
                assert(kids[j] == ks[j]);
            } else {
                assert(kids[kids.len() - 1] == kids.last());
                assert(element_defines(nodes[kids[kids.len() - 1] as int], defs[i]));
            }
        }
    }
}

/// The field that a lookup by name finds among a fields section's
/// definitions was written by a `field` element of that name, with the tag
/// its number reads as and the value type its raw type normalises to.
pub proof fn lemma_section_field_found(nodes: Seq<XmlNodeView>, kids: Seq<usize>, name: Seq<char>)
    requires
        field_defs(nodes, kids) is Some,
        lookup_field(field_defs(nodes, kids)->Some_0, name) is Some,
    ensures
        lookup_field(field_defs(nodes, kids)->Some_0, name)->Some_0.name == name,
        exists|j: int|
            0 <= j < kids.len() && #[trigger] element_defines(
                nodes[kids[j] as int],
                lookup_field(field_defs(nodes, kids)->Some_0, name)->Some_0,
            ),
{
    let defs = field_defs(nodes, kids)->Some_0;
    lemma_lookup_field_member(defs, name);
    lemma_field_defs_elements(nodes, kids);
    let i = choose|i: int| 0 <= i < defs.len() && defs[i] == lookup_field(defs, name)->Some_0;
    assert(exists|j: int| 0 <= j < kids.len() && element_defines(nodes[kids[j] as int], defs[i]));
}

/// A lookup in a catalog extended by new definitions finds the new
/// definition of the name where there is one, and the old entry otherwise.
pub proof fn lemma_lookup_appended(cat: Seq<FieldView>, defs: Seq<FieldView>, name: Seq<char>)
    ensures
        lookup_field(cat + defs, name) == (match lookup_field(defs, name) {
            Some(f) => Some(f),
            None => lookup_field(cat, name),
        }),
    decreases defs.len(),
{
    if defs.len() == 0 {
        assert(cat + defs =~= cat);
    } else {
        assert((cat + defs).drop_last() =~= cat + defs.drop_last());
        assert((cat + defs).last() == defs.last());
        lemma_lookup_appended(cat, defs.drop_last(), name);
    }
}

} // verus!

verus! {

/// The group a group reference adds opens with the field of the first of
/// its member names that resolves, and holds each member tag once.
pub proof fn lemma_group_reference_first(
    cat: Seq<FieldView>,
    comps: Seq<ComponentView>,
    c: ComponentView,
    k: nat,
    stack: Seq<Seq<char>>,
    m: MessageView,
    j: int,
)
    requires
        k < c.members.len(),
        c.members[k as int].0 == ComponentFieldType::GROUP,
        lookup_field(cat, c.members[k as int].1) is Some,
        c.group_members(c.members[k as int].1) is Some,
        expand(cat, comps, c, k, stack, m) is Some,
        0 <= j < c.group_members(c.members[k as int].1)->Some_0.len(),
        lookup_field(cat, c.group_members(c.members[k as int].1)->Some_0[j]) is Some,
        forall|j2: int|
            0 <= j2 < j ==> lookup_field(cat, #[trigger] c.group_members(c.members[k as int].1)->Some_0[j2])
                is None,
    ensures
        expand(cat, comps, c, k + 1, stack, m)->Some_0.groups.contains_key(
            lookup_field(cat, c.members[k as int].1)->Some_0.tag,
        ),
        expand(cat, comps, c, k + 1, stack, m)->Some_0.groups[lookup_field(
            cat,
            c.members[k as int].1,
        )->Some_0.tag][0] == lookup_field(cat, c.group_members(c.members[k as int].1)->Some_0[j])->Some_0,
        tags_of(
            expand(cat, comps, c, k + 1, stack, m)->Some_0.groups[lookup_field(
                cat,
                c.members[k as int].1,
            )->Some_0.tag],
        ).no_duplicates(),
{
    let names = c.group_members(c.members[k as int].1)->Some_0;
    lemma_group_shape(cat, names);
    assert(group_fields(cat, names).len() > 0);
    lemma_group_reference(cat, comps, c, k, stack, m);
}

} // verus!
