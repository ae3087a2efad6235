use crate::text::{copy_names, names_of};
use vstd::prelude::*;

verus! {

/// The three kinds of reference a component or message can hold.
#[derive(Clone, Copy, Debug, PartialEq, Eq, Structural)]
pub enum ComponentFieldType {
    FIELD,
    COMPONENT,
    GROUP,
}

impl ComponentFieldType {
    /// How the kind of a reference is printed.
    pub open spec fn text(self) -> Seq<char> {
        match self {
            ComponentFieldType::FIELD => "Field"@,
            ComponentFieldType::COMPONENT => "Component"@,
            ComponentFieldType::GROUP => "Group"@,
        }
    }

    pub fn to_string(&self) -> (r: String)
        ensures
            r@ == self.text(),
    {
        match self {
            ComponentFieldType::FIELD => "Field".to_string(),
            ComponentFieldType::COMPONENT => "Component".to_string(),
            ComponentFieldType::GROUP => "Group".to_string(),
        }
    }
}

/// The printed lines of a list of references: kind and name, one per line.
pub open spec fn member_lines(ms: Seq<(ComponentFieldType, Seq<char>)>) -> Seq<char>
    decreases ms.len(),
{
    if ms.len() == 0 {
        Seq::empty()
    } else {
        member_lines(ms.drop_last()) + ms.last().0.text() + " "@ + ms.last().1 + "\n"@
    }
}

/// The members of a group side table recorded under `name`; the entry
/// recorded last wins.
pub open spec fn group_lookup(t: Seq<(Seq<char>, Seq<Seq<char>>)>, name: Seq<char>) -> Option<
    Seq<Seq<char>>,
>
    decreases t.len(),
{
    if t.len() == 0 {
        None
    } else if t.last().0 == name {
        Some(t.last().1)
    } else {
        group_lookup(t.drop_last(), name)
    }
}

/// What a component is: its name, its ordered references, and the member
/// names recorded for its groups, in the order recorded.
pub ghost struct ComponentView {
    pub name: Seq<char>,
    pub members: Seq<(ComponentFieldType, Seq<char>)>,
    pub groups: Seq<(Seq<char>, Seq<Seq<char>>)>,
}

impl ComponentView {
    /// The recorded member field names of the group `name`.
    pub open spec fn group_members(self, name: Seq<char>) -> Option<Seq<Seq<char>>> {
        group_lookup(self.groups, name)
    }
}

/// A named, reusable, ordered block of references, with the member names of
/// each group it references.
pub struct Component {
    pub m_name: String,
    pub m_fields: Vec<(ComponentFieldType, String)>,
    pub m_groups: Vec<(String, Vec<String>)>,
}

impl View for Component {
    type V = ComponentView;

    open spec fn view(&self) -> ComponentView {
        ComponentView {
            name: self.m_name@,
            members: self.m_fields@.map_values(|p: (ComponentFieldType, String)| (p.0, p.1@)),
            groups: self.m_groups@.map_values(|p: (String, Vec<String>)| (p.0@, names_of(p.1@))),
        }
    }
}

impl Component {
    /// The ordered references, each as its kind and the name it refers to.
    pub open spec fn members(&self) -> Seq<(ComponentFieldType, Seq<char>)> {
        self@.members
    }

    /// The recorded member field names of the group `name`.
    pub open spec fn group_members(&self, name: Seq<char>) -> Option<Seq<Seq<char>>> {
        self@.group_members(name)
    }

    pub fn new(name: String) -> (r: Component)
        ensures
            r@ == (ComponentView { name: name@, members: Seq::empty(), groups: Seq::empty() }),
    {
        let r = Component { m_name: name, m_fields: Vec::new(), m_groups: Vec::new() };
        assert(r.members() =~= Seq::<(ComponentFieldType, Seq<char>)>::empty());
        assert(r@.groups =~= Seq::<(Seq<char>, Seq<Seq<char>>)>::empty());
        r
    }

    pub fn add_field(&mut self, name: String)
        ensures
            final(self).m_name == old(self).m_name,
            final(self).members() == old(self).members().push((ComponentFieldType::FIELD, name@)),
            final(self)@.groups == old(self)@.groups,
    {
        self.m_fields.push((ComponentFieldType::FIELD, name));
        assert(self.members() =~= old(self).members().push((ComponentFieldType::FIELD, name@)));
    }

    pub fn add_component(&mut self, name: String)
        ensures
            final(self).m_name == old(self).m_name,
            final(self).members() == old(self).members().push(
                (ComponentFieldType::COMPONENT, name@),
            ),
            final(self)@.groups == old(self)@.groups,
    {
        self.m_fields.push((ComponentFieldType::COMPONENT, name));
        assert(self.members() =~= old(self).members().push(
            (ComponentFieldType::COMPONENT, name@),
        ));
    }

    /// Appends a group reference and records its member field names.
    pub fn add_group(&mut self, name: String, group_fields: Vec<String>)
        ensures
            final(self).m_name == old(self).m_name,
            final(self).members() == old(self).members().push((ComponentFieldType::GROUP, name@)),
            final(self)@.groups == old(self)@.groups.push((name@, names_of(group_fields@))),
            final(self).group_members(name@) == Some(names_of(group_fields@)),
            forall|n: Seq<char>|
                n != name@ ==> #[trigger] final(self).group_members(n) == old(self).group_members(
                    n,
                ),
    {
        let ghost gf = group_fields;
        self.m_fields.push((ComponentFieldType::GROUP, name.clone()));
        self.m_groups.push((name, group_fields));
        assert(self.members() =~= old(self).members().push((ComponentFieldType::GROUP, name@)));
        assert(self@.groups =~= old(self)@.groups.push((name@, names_of(gf@))));
        assert(self@.groups.drop_last() =~= old(self)@.groups);
    }

    pub fn set_fields(&mut self, fields: Vec<(ComponentFieldType, String)>)
        ensures
            final(self).m_name == old(self).m_name,
            final(self).m_fields@ == fields@,
            final(self)@.groups == old(self)@.groups,
    {
        self.m_fields = fields;
    }

    /// The component printed: one line per reference.
    pub fn to_string(&self) -> (r: String)
        ensures
            r@ == member_lines(self.members()),
    {
        let mut r = String::new();
        let mut i: usize = 0;
        while i < self.m_fields.len()
            invariant
                i <= self.m_fields@.len(),
                r@ == member_lines(self.members().take(i as int)),
            decreases self.m_fields@.len() - i,
        {
            assert(self.members().take(i + 1).drop_last() =~= self.members().take(i as int));
            let kind = self.m_fields[i].0.to_string();
            r.append(kind.as_str());
            r.append(" ");
            r.append(self.m_fields[i].1.as_str());
            r.append("\n");
            assert(r@ =~= member_lines(self.members().take(i + 1)));
            i = i + 1;
        }
        assert(self.members().take(i as int) =~= self.members());
        r
    }

    /// The references in order.
    pub fn iter(&self) -> (r: &Vec<(ComponentFieldType, String)>)
        ensures
            r@ == self.m_fields@,
    {
        &self.m_fields
    }

    /// The recorded member names of the group `group_name`, as a borrowed list.
    pub fn group_fields_ref(&self, group_name: &String) -> (r: Option<&Vec<String>>)
        ensures
            match r {
                Some(v) => self.group_members(group_name@) == Some(names_of(v@)),
                None => self.group_members(group_name@) is None,
            },
    {
        let mut i: usize = self.m_groups.len();
        assert(self@.groups.take(i as int) =~= self@.groups);
        while i > 0
            invariant
                i <= self.m_groups@.len(),
                self.group_members(group_name@) == group_lookup(
                    self@.groups.take(i as int),
                    group_name@,
                ),
            decreases i,
        {
            assert(self@.groups.take(i as int).drop_last() =~= self@.groups.take(i - 1));
            if self.m_groups[i - 1].0 == *group_name {
                return Some(&self.m_groups[i - 1].1);
            }
            i = i - 1;
        }
        None
    }

    /// A copy of the recorded member names of the group `group_name`.
    pub fn get_group_fields(&self, group_name: String) -> (r: Option<Vec<String>>)
        ensures
            match r {
                Some(v) => self.group_members(group_name@) == Some(names_of(v@)),
                None => self.group_members(group_name@) is None,
            },
    {
        match self.group_fields_ref(&group_name) {
            Some(v) => Some(copy_names(v)),
            None => None,
        }
    }
}

} // verus!
