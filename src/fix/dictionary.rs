use super::component::{Component, ComponentFieldType, ComponentView};
use super::field::{field_type_of, Field, FieldView};
use super::group::{tags_of, views_of, Group};
use super::message::{empty_message, Message, MessageView};
use crate::extrans_error::ExtransError;
use crate::text::{contains_name, names_of};
use vstd::prelude::*;

verus! {

/// The field named `name`; where several carry the name, the one defined last.
pub open spec fn lookup_field(cat: Seq<FieldView>, name: Seq<char>) -> Option<FieldView>
    decreases cat.len(),
{
    if cat.len() == 0 {
        None
    } else if cat.last().name == name {
        Some(cat.last())
    } else {
        lookup_field(cat.drop_last(), name)
    }
}

/// The component named `name`; where several carry the name, the one defined last.
pub open spec fn lookup_component(comps: Seq<ComponentView>, name: Seq<char>) -> Option<
    ComponentView,
>
    decreases comps.len(),
{
    if comps.len() == 0 {
        None
    } else if comps.last().name == name {
        Some(comps.last())
    } else {
        lookup_component(comps.drop_last(), name)
    }
}

/// The members of a group whose member names are `names`: each name that
/// resolves to a field, in order, a tag already present being skipped.
pub open spec fn group_fields(cat: Seq<FieldView>, names: Seq<Seq<char>>) -> Seq<FieldView>
    decreases names.len(),
{
    if names.len() == 0 {
        Seq::empty()
    } else {
        let prev = group_fields(cat, names.drop_last());
        match lookup_field(cat, names.last()) {
            Some(f) => if tags_of(prev).contains(f.tag) {
                prev
            } else {
                prev.push(f)
            },
            None => prev,
        }
    }
}

/// A message after the field reference `name`: the field is added under its
/// tag, or nothing changes if no field has that name.
pub open spec fn with_field(cat: Seq<FieldView>, name: Seq<char>, m: MessageView) -> MessageView {
    match lookup_field(cat, name) {
        Some(f) => MessageView { fields: m.fields.insert(f.tag, f), ..m },
        None => m,
    }
}

/// A message after the group reference `name` of `c`: the group, keyed by
/// the tag of the field named like it, with the members `c` records for it.
/// Nothing changes if no field has that name or no member resolves.
pub open spec fn with_group(cat: Seq<FieldView>, c: ComponentView, name: Seq<char>, m: MessageView) -> MessageView {
    match lookup_field(cat, name) {
        Some(f) => {
            let names = match c.group_members(name) {
                Some(ns) => ns,
                None => Seq::empty(),
            };
            let gf = group_fields(cat, names);
            if gf.len() == 0 {
                m
            } else {
                MessageView { groups: m.groups.insert(f.tag, gf), ..m }
            }
        },
        None => m,
    }
}

/// The message `m` after the first `k` references of `c` are expanded into
/// it, `stack` naming the components being expanded around `c`. A reference
/// to a component that is being expanded already is a cycle, and gives
/// `None`; so does a chain of nested components longer than the catalog,
/// which must pass one component twice.
pub open spec fn expand(
    cat: Seq<FieldView>,
    comps: Seq<ComponentView>,
    c: ComponentView,
    k: nat,
    stack: Seq<Seq<char>>,
    m: MessageView,
) -> Option<MessageView>
    decreases comps.len() - stack.len(), k,
{
    if k == 0 {
        Some(m)
    } else {
        match expand(cat, comps, c, (k - 1) as nat, stack, m) {
            None => None,
            Some(m1) => {
                let name = c.members[k - 1].1;
                match c.members[k - 1].0 {
                    ComponentFieldType::FIELD => Some(with_field(cat, name, m1)),
                    ComponentFieldType::GROUP => Some(with_group(cat, c, name, m1)),
                    ComponentFieldType::COMPONENT => match lookup_component(comps, name) {
                        None => Some(m1),
                        Some(d) => if stack.contains(name) || stack.len() >= comps.len() {
                            None
                        } else {
                            expand(cat, comps, d, d.members.len(), stack.push(name), m1)
                        },
                    },
                }
            },
        }
    }
}

/// The whole of `c` expanded into `m`.
pub open spec fn expand_all(
    cat: Seq<FieldView>,
    comps: Seq<ComponentView>,
    c: ComponentView,
    stack: Seq<Seq<char>>,
    m: MessageView,
) -> Option<MessageView> {
    expand(cat, comps, c, c.members.len(), stack, m)
}

/// Once a prefix of the references fails, every longer prefix fails.
pub proof fn lemma_expand_fails_onward(
    cat: Seq<FieldView>,
    comps: Seq<ComponentView>,
    c: ComponentView,
    k: nat,
    n: nat,
    stack: Seq<Seq<char>>,
    m: MessageView,
)
    requires
        k <= n,
        expand(cat, comps, c, k, stack, m) is None,
    ensures
        expand(cat, comps, c, n, stack, m) is None,
    decreases n - k,
{
    if k < n {
        lemma_expand_fails_onward(cat, comps, c, k, (n - 1) as nat, stack, m);
    }
}

/// The message of type `ty`; where several have the type, the one defined last.
pub open spec fn lookup_message(ms: Seq<MessageView>, ty: Seq<char>) -> Option<MessageView>
    decreases ms.len(),
{
    if ms.len() == 0 {
        None
    } else if ms.last().msg_type == ty {
        Some(ms.last())
    } else {
        lookup_message(ms.drop_last(), ty)
    }
}

/// The message of the error a cyclic reference to the component `name` gives.
pub open spec fn cycle_message(name: Seq<char>) -> Seq<char> {
    "cyclic component reference: "@ + name
}

/// The catalogs of a dictionary and the messages resolved from them.
///
/// Each catalog is a list in order of definition, and a lookup by name (or,
/// for messages, by type) answers with the entry defined last: the same
/// answers a map would give that each definition overwrites, while the list
/// keeps every definition in the order the document gives it, which the
/// contracts state the loading over. Message types are looked up the same
/// way, so of two definitions of one type the later one is the message of
/// that type.
pub struct Dictionary {
    pub m_fix_fields: Vec<Field>,
    pub m_components: Vec<Component>,
    pub m_messages: Vec<Message>,
}

impl Dictionary {
    /// The field catalog, in order of definition.
    pub open spec fn catalog(&self) -> Seq<FieldView> {
        views_of(self.m_fix_fields@)
    }

    /// The component catalog, in order of definition.
    pub open spec fn components(&self) -> Seq<ComponentView> {
        self.m_components@.map_values(|c: Component| c@)
    }

    /// The resolved messages, in order of definition.
    pub open spec fn messages(&self) -> Seq<MessageView> {
        self.m_messages@.map_values(|m: Message| m@)
    }

    pub fn new() -> (r: Dictionary)
        ensures
            r.catalog() == Seq::<FieldView>::empty(),
            r.components() == Seq::<ComponentView>::empty(),
            r.messages() == Seq::<MessageView>::empty(),
    {
        let r = Dictionary { m_fix_fields: Vec::new(), m_components: Vec::new(), m_messages: Vec::new() };
        assert(r.catalog() =~= Seq::<FieldView>::empty());
        assert(r.components() =~= Seq::<ComponentView>::empty());
        assert(r.messages() =~= Seq::<MessageView>::empty());
        r
    }

    /// Defines a field; it then answers lookups by its name.
    pub fn define_field(&mut self, tag: i32, name: String, raw_type: String) -> (r: Field)
        ensures
            r.m_tag == tag,
            r.m_name@ == name@,
            r.m_field_type == field_type_of(raw_type@),
            final(self).catalog() == old(self).catalog().push(r@),
            final(self).m_components == old(self).m_components,
            final(self).m_messages == old(self).m_messages,
    {
        let f = Field::new(tag, name, raw_type);
        self.m_fix_fields.push(f.copied());
        assert(self.catalog() =~= old(self).catalog().push(f@));
        f
    }

    /// Defines a component; it then answers lookups by its name.
    pub fn define_component(&mut self, component: Component)
        ensures
            final(self).components() == old(self).components().push(component@),
            final(self).m_fix_fields == old(self).m_fix_fields,
            final(self).m_messages == old(self).m_messages,
    {
        let ghost cv = component@;
        self.m_components.push(component);
        assert(self.components() =~= old(self).components().push(cv));
    }

    pub fn get_field_by_name(&self, name: &String) -> (r: Option<&Field>)
        ensures
            match r {
                Some(f) => lookup_field(self.catalog(), name@) == Some(f@),
                None => lookup_field(self.catalog(), name@) is None,
            },
    {
        let mut i: usize = self.m_fix_fields.len();
        assert(self.catalog().take(i as int) =~= self.catalog());
        while i > 0
            invariant
                i <= self.m_fix_fields@.len(),
                lookup_field(self.catalog(), name@) == lookup_field(
                    self.catalog().take(i as int),
                    name@,
                ),
            decreases i,
        {
            assert(self.catalog().take(i as int).drop_last() =~= self.catalog().take(i - 1));
            if self.m_fix_fields[i - 1].m_name == *name {
                return Some(&self.m_fix_fields[i - 1]);
            }
            i = i - 1;
        }
        None
    }

    pub fn get_component(&self, name: &String) -> (r: Option<&Component>)
        ensures
            match r {
                Some(c) => lookup_component(self.components(), name@) == Some(c@),
                None => lookup_component(self.components(), name@) is None,
            },
    {
        let mut i: usize = self.m_components.len();
        assert(self.components().take(i as int) =~= self.components());
        while i > 0
            invariant
                i <= self.m_components@.len(),
                lookup_component(self.components(), name@) == lookup_component(
                    self.components().take(i as int),
                    name@,
                ),
            decreases i,
        {
            assert(self.components().take(i as int).drop_last() =~= self.components().take(i - 1));
            if self.m_components[i - 1].m_name == *name {
                return Some(&self.m_components[i - 1]);
            }
            i = i - 1;
        }
        None
    }

    /// The resolved message of type `msg_type`.
    pub fn get_message(&self, msg_type: &String) -> (r: Option<&Message>)
        ensures
            match r {
                Some(m) => lookup_message(self.messages(), msg_type@) == Some(m@),
                None => lookup_message(self.messages(), msg_type@) is None,
            },
    {
        let mut i: usize = self.m_messages.len();
        assert(self.messages().take(i as int) =~= self.messages());
        while i > 0
            invariant
                i <= self.m_messages@.len(),
                lookup_message(self.messages(), msg_type@) == lookup_message(
                    self.messages().take(i as int),
                    msg_type@,
                ),
            decreases i,
        {
            assert(self.messages().take(i as int).drop_last() =~= self.messages().take(i - 1));
            if self.m_messages[i - 1].m_type == *msg_type {
                return Some(&self.m_messages[i - 1]);
            }
            i = i - 1;
        }
        None
    }

    /// The number of message definitions resolved; of several definitions of
    /// one type, `get_message` answers with the last.
    pub fn message_count(&self) -> (r: usize)
        ensures
            r == self.messages().len(),
    {
        self.m_messages.len()
    }

    /// Builds the group counted by `parent` from the member names `names`.
    pub fn resolve_group(&self, parent: i32, names: &Vec<String>) -> (r: Group)
        ensures
            r.wf(),
            r.m_parent_tag == parent,
            r.members() == group_fields(self.catalog(), names_of(names@)),
    {
        let mut g = Group::new(parent);
        let mut j: usize = 0;
        while j < names.len()
            invariant
                j <= names@.len(),
                g.wf(),
                g.m_parent_tag == parent,
                g.members() == group_fields(self.catalog(), names_of(names@).take(j as int)),
            decreases names@.len() - j,
        {
            assert(names_of(names@).take(j + 1).drop_last() =~= names_of(names@).take(j as int));
            if let Some(f) = self.get_field_by_name(&names[j]) {
                g.add_field(f.copied());
            }
            j = j + 1;
        }
        assert(names_of(names@).take(j as int) =~= names_of(names@));
        g
    }

    /// Expands the references of `component` into `message`: fields by name,
    /// groups with their recorded members, nested components recursively.
    /// `stack` names the components being expanded around this one, and is
    /// handed back as it came. References that resolve to nothing are
    /// skipped; a cyclic component reference fails the expansion.
    pub fn resolve_component(
        &self,
        message: &mut Message,
        component: &Component,
        stack: &mut Vec<String>,
    ) -> (r: Result<(), ExtransError>)
        requires
            old(message).wf(),
        ensures
            final(message).wf(),
            final(stack)@ == old(stack)@,
            r is Err ==> r->Err_0 is SetupError,
            r is Err ==> exists|n: Seq<char>|
                r->Err_0->SetupError_0@ == cycle_message(n) && #[trigger] lookup_component(
                    self.components(),
                    n,
                ) is Some,
            r is Ok <==> expand_all(
                self.catalog(),
                self.components(),
                component@,
                names_of(old(stack)@),
                old(message)@,
            ) is Some,
            r is Ok ==> expand_all(
                self.catalog(),
                self.components(),
                component@,
                names_of(old(stack)@),
                old(message)@,
            ) == Some(final(message)@),
        decreases self.m_components@.len() - old(stack)@.len(),
    {
        let ghost cat = self.catalog();
        let ghost comps = self.components();
        let ghost st = names_of(stack@);
        let ghost m0 = message@;
        let n = component.m_fields.len();
        let mut i: usize = 0;
        while i < n
            invariant
                n == component@.members.len(),
                i <= n,
                message.wf(),
                stack@ == old(stack)@,
                st == names_of(stack@),
                expand(cat, comps, component@, i as nat, st, m0) == Some(message@),
                cat == self.catalog(),
                comps == self.components(),
                m0 == old(message)@,
            decreases n - i,
        {
            let kind = component.m_fields[i].0;
            let name = &component.m_fields[i].1;
            assert(component@.members[i as int] == (kind, name@));
            match kind {
                ComponentFieldType::FIELD => {
                    if let Some(f) = self.get_field_by_name(name) {
                        message.add_field(f.copied());
                    }
                    assert(message@ =~= with_field(cat, name@, expand(cat, comps, component@, i as nat, st, m0)->Some_0));
                },
                ComponentFieldType::GROUP => {
                    if let Some(f) = self.get_field_by_name(name) {
                        let g = match component.group_fields_ref(name) {
                            Some(names) => self.resolve_group(f.m_tag, names),
                            None => {
                                let empty: Vec<String> = Vec::new();
                                assert(names_of(empty@) =~= Seq::<Seq<char>>::empty());
                                self.resolve_group(f.m_tag, &empty)
                            },
                        };
                        message.add_group(g);
                    }
                    assert(message@ =~= with_group(cat, component@, name@, expand(cat, comps, component@, i as nat, st, m0)->Some_0));
                },
                ComponentFieldType::COMPONENT => {
                    if let Some(d) = self.get_component(name) {
                        if contains_name(stack, name) || stack.len() >= self.m_components.len() {
                            proof {
                                assert(st.len() == stack@.len());
                                assert(expand(cat, comps, component@, (i + 1) as nat, st, m0) is None);
                                lemma_expand_fails_onward(cat, comps, component@, (i + 1) as nat, n as nat, st, m0);
                            }
                            let mut msg = "cyclic component reference: ".to_string();
                            msg.append(name.as_str());
                            assert(msg@ == cycle_message(name@));
                            assert(lookup_component(self.components(), name@) is Some);
                            return Err(ExtransError::SetupError(msg));
                        }
                        let ghost mi = message@;
                        stack.push(name.clone());
                        assert(names_of(stack@) =~= st.push(name@));
                        let res = self.resolve_component(message, d, stack);
                        stack.pop();
                        assert(stack@ =~= old(stack)@);
                        if res.is_err() {
                            proof {
                                assert(st.len() == stack@.len());
                                assert(expand(cat, comps, component@, (i + 1) as nat, st, m0) is None);
                                lemma_expand_fails_onward(cat, comps, component@, (i + 1) as nat, n as nat, st, m0);
                            }
                            return res;
                        }
                    }
                },
            }
            i = i + 1;
        }
        Ok(())
    }
}

} // verus!
