use super::component::{Component, ComponentFieldType, ComponentView};
use super::dictionary::{expand_all, Dictionary};
use super::field::{field_type_of, FieldView};
use super::message::{empty_message, Message, MessageView};
use super::xml::{
    attr_of, attribute, children, children_of, nodes_view, parse_xml, xml_nodes_of, XmlNode,
    XmlNodeView,
};
use crate::extrans_error::ExtransError;
use crate::text::{i32_of, names_of, parse_i32, text_is};
use vstd::prelude::*;

verus! {

/// The fields defined by the nodes `kids` of a fields section, in order; a
/// `field` element lacking its number, name or type, or whose number is no
/// `i32`, makes the section malformed.
pub open spec fn field_defs(nodes: Seq<XmlNodeView>, kids: Seq<usize>) -> Option<Seq<FieldView>>
    decreases kids.len(),
{
    if kids.len() == 0 {
        Some(Seq::empty())
    } else {
        match field_defs(nodes, kids.drop_last()) {
            None => None,
            Some(prev) => {
                let n = nodes[kids.last() as int];
                if n.name != "field"@ {
                    Some(prev)
                } else {
                    match (attr_of(n, "number"@), attr_of(n, "name"@), attr_of(n, "type"@)) {
                        (Some(num), Some(name), Some(ty)) => match i32_of(num) {
                            Some(tag) => Some(
                                prev.push(FieldView { tag, name, value_type: field_type_of(ty) }),
                            ),
                            None => None,
                        },
                        _ => None,
                    }
                }
            },
        }
    }
}

/// The member names listed by the `field` elements among `kids`, each of
/// which must carry a name.
pub open spec fn group_names(nodes: Seq<XmlNodeView>, kids: Seq<usize>) -> Option<Seq<Seq<char>>>
    decreases kids.len(),
{
    if kids.len() == 0 {
        Some(Seq::empty())
    } else {
        match group_names(nodes, kids.drop_last()) {
            None => None,
            Some(prev) => {
                let n = nodes[kids.last() as int];
                if n.name != "field"@ {
                    Some(prev)
                } else {
                    match attr_of(n, "name"@) {
                        Some(name) => Some(prev.push(name)),
                        None => None,
                    }
                }
            },
        }
    }
}

/// `c` with the references written by the elements `kids` appended: `field`,
/// `component` and `group` elements, each of which must carry a name; a
/// group's own `field` children give its member names.
pub open spec fn body_of(nodes: Seq<XmlNodeView>, kids: Seq<usize>, c: ComponentView) -> Option<
    ComponentView,
>
    decreases kids.len(),
{
    if kids.len() == 0 {
        Some(c)
    } else {
        match body_of(nodes, kids.drop_last(), c) {
            None => None,
            Some(prev) => {
                let n = nodes[kids.last() as int];
                if n.name == "field"@ || n.name == "component"@ || n.name == "group"@ {
                    match attr_of(n, "name"@) {
                        None => None,
                        Some(name) => if n.name == "field"@ {
                            Some(
                                ComponentView {
                                    members: prev.members.push((ComponentFieldType::FIELD, name)),
                                    ..prev
                                },
                            )
                        } else if n.name == "component"@ {
                            Some(
                                ComponentView {
                                    members: prev.members.push(
                                        (ComponentFieldType::COMPONENT, name),
                                    ),
                                    ..prev
                                },
                            )
                        } else {
                            match group_names(nodes, children_of(nodes, kids.last())) {
                                None => None,
                                Some(ns) => Some(
                                    ComponentView {
                                        members: prev.members.push(
                                            (ComponentFieldType::GROUP, name),
                                        ),
                                        groups: prev.groups.push((name, ns)),
                                        ..prev
                                    },
                                ),
                            }
                        },
                    }
                } else {
                    Some(prev)
                }
            },
        }
    }
}

/// A component with a name and nothing in it yet.
pub open spec fn empty_component(name: Seq<char>) -> ComponentView {
    ComponentView { name, members: Seq::empty(), groups: Seq::empty() }
}

/// The components defined by the `component` elements among `kids`, each
/// of which must carry a name.
pub open spec fn component_defs(nodes: Seq<XmlNodeView>, kids: Seq<usize>) -> Option<
    Seq<ComponentView>,
>
    decreases kids.len(),
{
    if kids.len() == 0 {
        Some(Seq::empty())
    } else {
        match component_defs(nodes, kids.drop_last()) {
            None => None,
            Some(prev) => {
                let k = kids.last();
                let n = nodes[k as int];
                if n.name != "component"@ {
                    Some(prev)
                } else {
                    match attr_of(n, "name"@) {
                        None => None,
                        Some(name) => match body_of(
                            nodes,
                            children_of(nodes, k),
                            empty_component(name),
                        ) {
                            None => None,
                            Some(c) => Some(prev.push(c)),
                        },
                    }
                }
            },
        }
    }
}

/// The messages defined by the `message` elements among `kids`, each of
/// which must carry a name, a type and a category, resolved against the
/// catalogs `cat` and `comps`.
pub open spec fn message_defs(
    nodes: Seq<XmlNodeView>,
    kids: Seq<usize>,
    cat: Seq<FieldView>,
    comps: Seq<ComponentView>,
) -> Option<Seq<MessageView>>
    decreases kids.len(),
{
    if kids.len() == 0 {
        Some(Seq::empty())
    } else {
        match message_defs(nodes, kids.drop_last(), cat, comps) {
            None => None,
            Some(prev) => {
                let k = kids.last();
                let n = nodes[k as int];
                if n.name != "message"@ {
                    Some(prev)
                } else {
                    match (attr_of(n, "name"@), attr_of(n, "msgtype"@), attr_of(n, "msgcat"@)) {
                        (Some(name), Some(ty), Some(mc)) => match body_of(
                            nodes,
                            children_of(nodes, k),
                            empty_component(name),
                        ) {
                            None => None,
                            Some(def) => match expand_all(
                                cat,
                                comps,
                                def,
                                Seq::empty(),
                                empty_message(name, ty, mc),
                            ) {
                                None => None,
                                Some(m) => Some(prev.push(m)),
                            },
                        },
                        _ => None,
                    }
                }
            },
        }
    }
}

} // verus!

verus! {

/// Once a prefix of a fields section is malformed, the whole of it is.
pub proof fn lemma_field_defs_fail(nodes: Seq<XmlNodeView>, kids: Seq<usize>, i: int)
    requires
        0 <= i <= kids.len(),
        field_defs(nodes, kids.take(i)) is None,
    ensures
        field_defs(nodes, kids) is None,
    decreases kids.len() - i,
{
    if i < kids.len() {
        assert(kids.take(i + 1).drop_last() =~= kids.take(i));
        lemma_field_defs_fail(nodes, kids, i + 1);
    } else {
        assert(kids.take(i) =~= kids);
    }
}

/// Once a prefix of a group member list is malformed, the whole of it is.
pub proof fn lemma_group_names_fail(nodes: Seq<XmlNodeView>, kids: Seq<usize>, i: int)
    requires
        0 <= i <= kids.len(),
        group_names(nodes, kids.take(i)) is None,
    ensures
        group_names(nodes, kids) is None,
    decreases kids.len() - i,
{
    if i < kids.len() {
        assert(kids.take(i + 1).drop_last() =~= kids.take(i));
        lemma_group_names_fail(nodes, kids, i + 1);
    } else {
        assert(kids.take(i) =~= kids);
    }
}

/// Once a prefix of a list of references is malformed, the whole of it is.
pub proof fn lemma_body_fail(nodes: Seq<XmlNodeView>, kids: Seq<usize>, c: ComponentView, i: int)
    requires
        0 <= i <= kids.len(),
        body_of(nodes, kids.take(i), c) is None,
    ensures
        body_of(nodes, kids, c) is None,
    decreases kids.len() - i,
{
    if i < kids.len() {
        assert(kids.take(i + 1).drop_last() =~= kids.take(i));
        lemma_body_fail(nodes, kids, c, i + 1);
    } else {
        assert(kids.take(i) =~= kids);
    }
}

/// Once a prefix of a components section is malformed, the whole of it is.
pub proof fn lemma_component_defs_fail(nodes: Seq<XmlNodeView>, kids: Seq<usize>, i: int)
    requires
        0 <= i <= kids.len(),
        component_defs(nodes, kids.take(i)) is None,
    ensures
        component_defs(nodes, kids) is None,
    decreases kids.len() - i,
{
    if i < kids.len() {
        assert(kids.take(i + 1).drop_last() =~= kids.take(i));
        lemma_component_defs_fail(nodes, kids, i + 1);
    } else {
        assert(kids.take(i) =~= kids);
    }
}

/// Once a prefix of a messages section is malformed, the whole of it is.
pub proof fn lemma_message_defs_fail(
    nodes: Seq<XmlNodeView>,
    kids: Seq<usize>,
    cat: Seq<FieldView>,
    comps: Seq<ComponentView>,
    i: int,
)
    requires
        0 <= i <= kids.len(),
        message_defs(nodes, kids.take(i), cat, comps) is None,
    ensures
        message_defs(nodes, kids, cat, comps) is None,
    decreases kids.len() - i,
{
    if i < kids.len() {
        assert(kids.take(i + 1).drop_last() =~= kids.take(i));
        lemma_message_defs_fail(nodes, kids, cat, comps, i + 1);
    } else {
        assert(kids.take(i) =~= kids);
    }
}

/// A setup error whose message is `what` followed by `name`.
fn setup_error(what: &str, name: &str) -> (r: ExtransError)
    ensures
        r is SetupError,
{
    let mut msg = what.to_string();
    msg.append(name);
    ExtransError::SetupError(msg)
}

/// The member names listed by the `field` elements among `kids`.
pub fn read_group_names(nodes: &Vec<XmlNode>, kids: &Vec<usize>) -> (r: Result<
    Vec<String>,
    ExtransError,
>)
    requires
        forall|i: int| 0 <= i < kids@.len() ==> kids@[i] < nodes@.len(),
    ensures
        r is Ok <==> group_names(nodes_view(nodes@), kids@) is Some,
        r is Err ==> r->Err_0 is SetupError,
        r is Ok ==> group_names(nodes_view(nodes@), kids@) == Some(names_of(r->Ok_0@)),
{
    let ghost nv = nodes_view(nodes@);
    let mut names: Vec<String> = Vec::new();
    let mut i: usize = 0;
    while i < kids.len()
        invariant
            i <= kids@.len(),
            nv == nodes_view(nodes@),
            forall|j: int| 0 <= j < kids@.len() ==> kids@[j] < nodes@.len(),
            group_names(nv, kids@.take(i as int)) == Some(names_of(names@)),
        decreases kids@.len() - i,
    {
        assert(kids@.take(i + 1).drop_last() =~= kids@.take(i as int));
        let node = &nodes[kids[i]];
        if text_is(node.name.as_str(), "field") {
            match attribute(node, "name") {
                Some(name) => {
                    names.push(name.clone());
                    assert(names_of(names@) =~= names_of(names@.drop_last()).push(name@));
                },
                None => {
                    proof {
                        lemma_group_names_fail(nv, kids@, i + 1);
                    }
                    return Err(setup_error("group member without a name", ""));
                },
            }
        }
        i = i + 1;
    }
    assert(kids@.take(i as int) =~= kids@);
    Ok(names)
}

/// Appends to `c` the references written by the elements `kids`.
pub fn read_body(nodes: &Vec<XmlNode>, kids: &Vec<usize>, c: &mut Component) -> (r: Result<
    (),
    ExtransError,
>)
    requires
        forall|i: int| 0 <= i < kids@.len() ==> kids@[i] < nodes@.len(),
    ensures
        r is Ok <==> body_of(nodes_view(nodes@), kids@, old(c)@) is Some,
        r is Err ==> r->Err_0 is SetupError,
        r is Ok ==> body_of(nodes_view(nodes@), kids@, old(c)@) == Some(final(c)@),
{
    let ghost nv = nodes_view(nodes@);
    let ghost c0 = c@;
    let mut i: usize = 0;
    while i < kids.len()
        invariant
            i <= kids@.len(),
            nv == nodes_view(nodes@),
            c0 == old(c)@,
            forall|j: int| 0 <= j < kids@.len() ==> kids@[j] < nodes@.len(),
            body_of(nv, kids@.take(i as int), c0) == Some(c@),
        decreases kids@.len() - i,
    {
        assert(kids@.take(i + 1).drop_last() =~= kids@.take(i as int));
        let k = kids[i];
        let node = &nodes[k];
        let is_field = text_is(node.name.as_str(), "field");
        let is_component = text_is(node.name.as_str(), "component");
        let is_group = text_is(node.name.as_str(), "group");
        if is_field || is_component || is_group {
            match attribute(node, "name") {
                None => {
                    proof {
                        lemma_body_fail(nv, kids@, c0, i + 1);
                    }
                    return Err(setup_error("reference without a name in ", c.m_name.as_str()));
                },
                Some(name) => {
                    if is_field {
                        c.add_field(name.clone());
                    } else if is_component {
                        c.add_component(name.clone());
                    } else {
                        let members = children(nodes, k);
                        match read_group_names(nodes, &members) {
                            Ok(names) => {
                                c.add_group(name.clone(), names);
                            },
                            Err(e) => {
                                proof {
                                    lemma_body_fail(nv, kids@, c0, i + 1);
                                }
                                return Err(e);
                            },
                        }
                    }
                },
            }
        }
        i = i + 1;
    }
    assert(kids@.take(i as int) =~= kids@);
    Ok(())
}

} // verus!

verus! {

impl Dictionary {
    /// Defines the fields of the fields section `section`.
    pub fn load_fields(&mut self, nodes: &Vec<XmlNode>, section: usize) -> (r: Result<
        (),
        ExtransError,
    >)
        ensures
            final(self).components() == old(self).components(),
            final(self).messages() == old(self).messages(),
            r is Err ==> r->Err_0 is SetupError,
            r is Ok <==> field_defs(nodes_view(nodes@), children_of(nodes_view(nodes@), section))
                is Some,
            r is Ok ==> field_defs(nodes_view(nodes@), children_of(nodes_view(nodes@), section))
                == Some(final(self).catalog().skip(old(self).catalog().len() as int)),
            r is Ok ==> final(self).catalog().len() >= old(self).catalog().len(),
            r is Ok ==> final(self).catalog().take(old(self).catalog().len() as int)
                == old(self).catalog(),
    {
        let ghost nv = nodes_view(nodes@);
        let ghost cat0 = self.catalog();
        let kids = children(nodes, section);
        let mut i: usize = 0;
        assert(self.catalog().skip(cat0.len() as int) =~= Seq::<FieldView>::empty());
        assert(self.catalog().take(cat0.len() as int) =~= cat0);
        while i < kids.len()
            invariant
                i <= kids@.len(),
                nv == nodes_view(nodes@),
                kids@ == children_of(nv, section),
                forall|j: int| 0 <= j < kids@.len() ==> kids@[j] < nodes@.len(),
                cat0 == old(self).catalog(),
                self.components() == old(self).components(),
                self.messages() == old(self).messages(),
                self.catalog().len() >= cat0.len(),
                self.catalog().take(cat0.len() as int) == cat0,
                field_defs(nv, kids@.take(i as int)) == Some(
                    self.catalog().skip(cat0.len() as int),
                ),
            decreases kids@.len() - i,
        {
            assert(kids@.take(i + 1).drop_last() =~= kids@.take(i as int));
            let node = &nodes[kids[i]];
            if text_is(node.name.as_str(), "field") {
                let number = attribute(node, "number");
                let name = attribute(node, "name");
                let ftype = attribute(node, "type");
                if number.is_none() || name.is_none() || ftype.is_none() {
                    proof {
                        lemma_field_defs_fail(nv, kids@, i + 1);
                    }
                    return Err(setup_error("field without a number, name or type", ""));
                }
                let number = number.unwrap();
                match parse_i32(number.as_str()) {
                    Some(tag) => {
                        let ghost before = self.catalog();
                        let f = self.define_field(tag, name.unwrap().clone(), ftype.unwrap().clone());
                        assert(self.catalog().skip(cat0.len() as int) =~= before.skip(
                            cat0.len() as int,
                        ).push(f@));
                        assert(self.catalog().take(cat0.len() as int) =~= before.take(
                            cat0.len() as int,
                        ));
                    },
                    None => {
                        proof {
                            lemma_field_defs_fail(nv, kids@, i + 1);
                        }
                        return Err(setup_error("field number is no integer: ", number.as_str()));
                    },
                }
            }
            i = i + 1;
        }
        assert(kids@.take(i as int) =~= kids@);
        Ok(())
    }

    /// Defines the components of the components section `section`.
    pub fn load_component(&mut self, nodes: &Vec<XmlNode>, section: usize) -> (r: Result<
        (),
        ExtransError,
    >)
        ensures
            final(self).catalog() == old(self).catalog(),
            final(self).messages() == old(self).messages(),
            r is Err ==> r->Err_0 is SetupError,
            r is Ok <==> component_defs(
                nodes_view(nodes@),
                children_of(nodes_view(nodes@), section),
            ) is Some,
            r is Ok ==> component_defs(
                nodes_view(nodes@),
                children_of(nodes_view(nodes@), section),
            ) == Some(final(self).components().skip(old(self).components().len() as int)),
            r is Ok ==> final(self).components().len() >= old(self).components().len(),
            r is Ok ==> final(self).components().take(old(self).components().len() as int)
                == old(self).components(),
    {
        let ghost nv = nodes_view(nodes@);
        let ghost cs0 = self.components();
        let kids = children(nodes, section);
        let mut i: usize = 0;
        assert(self.components().skip(cs0.len() as int) =~= Seq::<ComponentView>::empty());
        assert(self.components().take(cs0.len() as int) =~= cs0);
        while i < kids.len()
            invariant
                i <= kids@.len(),
                nv == nodes_view(nodes@),
                kids@ == children_of(nv, section),
                forall|j: int| 0 <= j < kids@.len() ==> kids@[j] < nodes@.len(),
                cs0 == old(self).components(),
                self.catalog() == old(self).catalog(),
                self.messages() == old(self).messages(),
                self.components().len() >= cs0.len(),
                self.components().take(cs0.len() as int) == cs0,
                component_defs(nv, kids@.take(i as int)) == Some(
                    self.components().skip(cs0.len() as int),
                ),
            decreases kids@.len() - i,
        {
            assert(kids@.take(i + 1).drop_last() =~= kids@.take(i as int));
            let k = kids[i];
            let node = &nodes[k];
            if text_is(node.name.as_str(), "component") {
                match attribute(node, "name") {
                    None => {
                        proof {
                            lemma_component_defs_fail(nv, kids@, i + 1);
                        }
                        return Err(setup_error("component without a name", ""));
                    },
                    Some(name) => {
                        let mut component = Component::new(name.clone());
                        assert(component@ == empty_component(name@));
                        let body = children(nodes, k);
                        match read_body(nodes, &body, &mut component) {
                            Ok(()) => {
                                let ghost before = self.components();
                                let ghost cv = component@;
                                self.define_component(component);
                                assert(self.components().skip(cs0.len() as int) =~= before.skip(
                                    cs0.len() as int,
                                ).push(cv));
                                assert(self.components().take(cs0.len() as int) =~= before.take(
                                    cs0.len() as int,
                                ));
                            },
                            Err(e) => {
                                proof {
                                    lemma_component_defs_fail(nv, kids@, i + 1);
                                }
                                return Err(e);
                            },
                        }
                    },
                }
            }
            i = i + 1;
        }
        assert(kids@.take(i as int) =~= kids@);
        Ok(())
    }

    /// Resolves the messages of the messages section `section` against the
    /// catalogs, and adds them.
    pub fn load_messages(&mut self, nodes: &Vec<XmlNode>, section: usize) -> (r: Result<
        (),
        ExtransError,
    >)
        ensures
            final(self).catalog() == old(self).catalog(),
            final(self).components() == old(self).components(),
            r is Err ==> r->Err_0 is SetupError,
            r is Ok <==> message_defs(
                nodes_view(nodes@),
                children_of(nodes_view(nodes@), section),
                old(self).catalog(),
                old(self).components(),
            ) is Some,
            r is Ok ==> message_defs(
                nodes_view(nodes@),
                children_of(nodes_view(nodes@), section),
                old(self).catalog(),
                old(self).components(),
            ) == Some(final(self).messages().skip(old(self).messages().len() as int)),
            r is Ok ==> final(self).messages().len() >= old(self).messages().len(),
            r is Ok ==> final(self).messages().take(old(self).messages().len() as int)
                == old(self).messages(),
    {
        let ghost nv = nodes_view(nodes@);
        let ghost ms0 = self.messages();
        let ghost cat = self.catalog();
        let ghost comps = self.components();
        let kids = children(nodes, section);
        let mut i: usize = 0;
        assert(self.messages().skip(ms0.len() as int) =~= Seq::<MessageView>::empty());
        assert(self.messages().take(ms0.len() as int) =~= ms0);
        while i < kids.len()
            invariant
                i <= kids@.len(),
                nv == nodes_view(nodes@),
                kids@ == children_of(nv, section),
                forall|j: int| 0 <= j < kids@.len() ==> kids@[j] < nodes@.len(),
                ms0 == old(self).messages(),
                cat == old(self).catalog(),
                comps == old(self).components(),
                self.catalog() == cat,
                self.components() == comps,
                self.messages().len() >= ms0.len(),
                self.messages().take(ms0.len() as int) == ms0,
                message_defs(nv, kids@.take(i as int), cat, comps) == Some(
                    self.messages().skip(ms0.len() as int),
                ),
            decreases kids@.len() - i,
        {
            assert(kids@.take(i + 1).drop_last() =~= kids@.take(i as int));
            let k = kids[i];
            let node = &nodes[k];
            if text_is(node.name.as_str(), "message") {
                let name = attribute(node, "name");
                let mtype = attribute(node, "msgtype");
                let mcat = attribute(node, "msgcat");
                if name.is_none() || mtype.is_none() || mcat.is_none() {
                    proof {
                        lemma_message_defs_fail(nv, kids@, cat, comps, i + 1);
                    }
                    return Err(setup_error("message without a name, type or category", ""));
                }
                let name = name.unwrap();
                let mut def = Component::new(name.clone());
                assert(def@ == empty_component(name@));
                let body = children(nodes, k);
                if let Err(e) = read_body(nodes, &body, &mut def) {
                    proof {
                        lemma_message_defs_fail(nv, kids@, cat, comps, i + 1);
                    }
                    return Err(e);
                }
                let mut message = Message::new(name.clone(), mtype.unwrap().clone(), mcat.unwrap().clone());
                let mut stack: Vec<String> = Vec::new();
                assert(names_of(stack@) =~= Seq::<Seq<char>>::empty());
                let res = self.resolve_component(&mut message, &def, &mut stack);
                if res.is_err() {
                    proof {
                        lemma_message_defs_fail(nv, kids@, cat, comps, i + 1);
                    }
                    return res;
                }
                let ghost before = self.messages();
                let ghost mv = message@;
                self.m_messages.push(message);
                assert(self.messages() =~= before.push(mv));
                assert(self.messages().skip(ms0.len() as int) =~= before.skip(ms0.len() as int).push(mv));
                assert(self.messages().take(ms0.len() as int) =~= before.take(ms0.len() as int));
            }
            i = i + 1;
        }
        assert(kids@.take(i as int) =~= kids@);
        Ok(())
    }
}

} // verus!

verus! {

/// The field and component catalogs defined by the first `k` nodes, the
/// sections taken in document order.
pub open spec fn catalogs_upto(nodes: Seq<XmlNodeView>, k: nat) -> Option<
    (Seq<FieldView>, Seq<ComponentView>),
>
    decreases k,
{
    if k == 0 {
        Some((Seq::empty(), Seq::empty()))
    } else {
        match catalogs_upto(nodes, (k - 1) as nat) {
            None => None,
            Some(prev) => {
                let p = (k - 1) as usize;
                if nodes[k - 1].name == "components"@ {
                    match component_defs(nodes, children_of(nodes, p)) {
                        Some(cs) => Some((prev.0, prev.1 + cs)),
                        None => None,
                    }
                } else if nodes[k - 1].name == "fields"@ {
                    match field_defs(nodes, children_of(nodes, p)) {
                        Some(fs) => Some((prev.0 + fs, prev.1)),
                        None => None,
                    }
                } else {
                    Some(prev)
                }
            },
        }
    }
}

/// The messages defined by the first `k` nodes, resolved against `cat` and `comps`.
pub open spec fn messages_upto(
    nodes: Seq<XmlNodeView>,
    cat: Seq<FieldView>,
    comps: Seq<ComponentView>,
    k: nat,
) -> Option<Seq<MessageView>>
    decreases k,
{
    if k == 0 {
        Some(Seq::empty())
    } else {
        match messages_upto(nodes, cat, comps, (k - 1) as nat) {
            None => None,
            Some(prev) => if nodes[k - 1].name == "messages"@ {
                match message_defs(nodes, children_of(nodes, (k - 1) as usize), cat, comps) {
                    Some(ms) => Some(prev + ms),
                    None => None,
                }
            } else {
                Some(prev)
            },
        }
    }
}

/// What a document defines: its field catalog, its component catalog, and
/// its messages resolved against both; `None` where it is malformed.
pub open spec fn dictionary_of(nodes: Seq<XmlNodeView>) -> Option<
    (Seq<FieldView>, Seq<ComponentView>, Seq<MessageView>),
> {
    match catalogs_upto(nodes, nodes.len()) {
        None => None,
        Some(c) => match messages_upto(nodes, c.0, c.1, nodes.len()) {
            None => None,
            Some(ms) => Some((c.0, c.1, ms)),
        },
    }
}

/// What the dictionary text `contents` defines; `None` where there is no
/// text, where it is no well-formed document, or where it is malformed.
pub open spec fn dictionary_of_text(contents: Option<Seq<char>>) -> Option<
    (Seq<FieldView>, Seq<ComponentView>, Seq<MessageView>),
> {
    match contents {
        None => None,
        Some(t) => match xml_nodes_of(t) {
            None => None,
            Some(nodes) => dictionary_of(nodes),
        },
    }
}

/// The characters of an optional text.
pub open spec fn text_view(contents: Option<&str>) -> Option<Seq<char>> {
    match contents {
        Some(t) => Some(t@),
        None => None,
    }
}

/// Once the catalogs of a prefix of the nodes are malformed, those of every
/// longer prefix are.
pub proof fn lemma_catalogs_fail(nodes: Seq<XmlNodeView>, k: nat, n: nat)
    requires
        k <= n,
        catalogs_upto(nodes, k) is None,
    ensures
        catalogs_upto(nodes, n) is None,
    decreases n - k,
{
    if k < n {
        lemma_catalogs_fail(nodes, k, (n - 1) as nat);
    }
}

/// Once the messages of a prefix of the nodes are malformed, those of every
/// longer prefix are.
pub proof fn lemma_messages_fail(
    nodes: Seq<XmlNodeView>,
    cat: Seq<FieldView>,
    comps: Seq<ComponentView>,
    k: nat,
    n: nat,
)
    requires
        k <= n,
        messages_upto(nodes, cat, comps, k) is None,
    ensures
        messages_upto(nodes, cat, comps, n) is None,
    decreases n - k,
{
    if k < n {
        lemma_messages_fail(nodes, cat, comps, k, (n - 1) as nat);
    }
}

impl Dictionary {
    /// Builds the dictionary a parsed document defines: first the fields and
    /// components sections, then the messages sections against them.
    pub fn load_nodes(nodes: &Vec<XmlNode>) -> (r: Result<Dictionary, ExtransError>)
        ensures
            r is Ok <==> dictionary_of(nodes_view(nodes@)) is Some,
            r is Err ==> r->Err_0 is SetupError,
            r is Ok ==> dictionary_of(nodes_view(nodes@)) == Some(
                (r->Ok_0.catalog(), r->Ok_0.components(), r->Ok_0.messages()),
            ),
    {
        let ghost nv = nodes_view(nodes@);
        let mut d = Dictionary::new();
        let mut k: usize = 0;
        while k < nodes.len()
            invariant
                k <= nodes@.len(),
                nv == nodes_view(nodes@),
                catalogs_upto(nv, k as nat) == Some((d.catalog(), d.components())),
                d.messages() == Seq::<MessageView>::empty(),
            decreases nodes@.len() - k,
        {
            let ghost cat = d.catalog();
            let ghost comps = d.components();
            if text_is(nodes[k].name.as_str(), "components") {
                if let Err(e) = d.load_component(nodes, k) {
                    proof {
                        lemma_catalogs_fail(nv, (k + 1) as nat, nv.len());
                    }
                    return Err(e);
                }
                assert(d.components() =~= comps + d.components().skip(comps.len() as int));
            } else if text_is(nodes[k].name.as_str(), "fields") {
                if let Err(e) = d.load_fields(nodes, k) {
                    proof {
                        lemma_catalogs_fail(nv, (k + 1) as nat, nv.len());
                    }
                    return Err(e);
                }
                assert(d.catalog() =~= cat + d.catalog().skip(cat.len() as int));
            }
            k = k + 1;
        }
        let ghost cat = d.catalog();
        let ghost comps = d.components();
        let mut k: usize = 0;
        while k < nodes.len()
            invariant
                k <= nodes@.len(),
                nv == nodes_view(nodes@),
                catalogs_upto(nv, nv.len()) == Some((cat, comps)),
                d.catalog() == cat,
                d.components() == comps,
                messages_upto(nv, cat, comps, k as nat) == Some(d.messages()),
            decreases nodes@.len() - k,
        {
            let ghost ms = d.messages();
            if text_is(nodes[k].name.as_str(), "messages") {
                if let Err(e) = d.load_messages(nodes, k) {
                    proof {
                        lemma_messages_fail(nv, cat, comps, (k + 1) as nat, nv.len());
                    }
                    return Err(e);
                }
                assert(d.messages() =~= ms + d.messages().skip(ms.len() as int));
            }
            k = k + 1;
        }
        Ok(d)
    }

    /// Builds the dictionary written in `contents`, the text of the file
    /// `filename`; `None` stands for a file that does not exist.
    pub fn load_text(filename: &str, contents: Option<&str>) -> (r: Result<
        Dictionary,
        ExtransError,
    >)
        ensures
            r is Ok <==> dictionary_of_text(text_view(contents)) is Some,
            r is Ok ==> dictionary_of_text(text_view(contents)) == Some(
                (r->Ok_0.catalog(), r->Ok_0.components(), r->Ok_0.messages()),
            ),
            r is Err ==> r->Err_0 is SetupError,
    {
        match contents {
            None => {
                let mut msg = "FIX Dictionary '".to_string();
                msg.append(filename);
                msg.append("' does not exist.");
                Err(ExtransError::SetupError(msg))
            },
            Some(text) => match parse_xml(text) {
                Err(msg) => Err(ExtransError::SetupError(msg)),
                Ok(nodes) => Dictionary::load_nodes(&nodes),
            },
        }
    }
}

} // verus!
