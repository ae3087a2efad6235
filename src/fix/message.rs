use super::field::{Field, FieldView};
use super::group::Group;
use std::collections::HashMap;
use vstd::prelude::*;

verus! {

broadcast use vstd::std_specs::hash::group_hash_axioms;

/// What a resolved message holds: its fields by tag, and the members of
/// each of its groups by the group's counting tag.
pub ghost struct MessageView {
    pub name: Seq<char>,
    pub msg_type: Seq<char>,
    pub category: Seq<char>,
    pub fields: Map<i32, FieldView>,
    pub groups: Map<i32, Seq<FieldView>>,
}

/// A message with its identity and nothing in it yet.
pub open spec fn empty_message(name: Seq<char>, msg_type: Seq<char>, category: Seq<char>) -> MessageView {
    MessageView { name, msg_type, category, fields: Map::empty(), groups: Map::empty() }
}

/// The resolved shape of one message type.
pub struct Message {
    pub m_name: String,
    pub m_type: String,
    pub m_cat: String,
    pub m_fields: HashMap<i32, Field>,
    pub m_groups: HashMap<i32, Group>,
}

impl View for Message {
    type V = MessageView;

    open spec fn view(&self) -> MessageView {
        MessageView {
            name: self.m_name@,
            msg_type: self.m_type@,
            category: self.m_cat@,
            fields: self.m_fields@.map_values(|f: Field| f@),
            groups: Map::new(
                |k: i32| self.m_groups@.contains_key(k),
                |k: i32| self.m_groups@[k].members(),
            ),
        }
    }
}

impl Message {
    /// Every field sits under its own tag; every group is well formed,
    /// not empty, and sits under its counting tag.
    pub open spec fn wf(&self) -> bool {
        &&& forall|k: i32| #[trigger]
            self.m_fields@.contains_key(k) ==> self.m_fields@[k].m_tag == k
        &&& forall|k: i32| #[trigger]
            self.m_groups@.contains_key(k) ==> {
                &&& self.m_groups@[k].wf()
                &&& self.m_groups@[k].m_parent_tag == k
                &&& self.m_groups@[k].members().len() > 0
            }
    }

    pub fn new(name: String, msgtype: String, msgcat: String) -> (r: Message)
        ensures
            r.wf(),
            r@ == empty_message(name@, msgtype@, msgcat@),
    {
        let r = Message {
            m_name: name,
            m_type: msgtype,
            m_cat: msgcat,
            m_fields: HashMap::new(),
            m_groups: HashMap::new(),
        };
        assert(r@.groups =~= Map::empty());
        assert(r@.fields =~= Map::empty());
        r
    }

    /// Adds a field under its tag; a field already there under that tag is replaced.
    pub fn add_field(&mut self, field: Field)
        requires
            old(self).wf(),
        ensures
            final(self).wf(),
            final(self)@ == (MessageView {
                fields: old(self)@.fields.insert(field.m_tag, field@),
                ..old(self)@
            }),
    {
        let ghost fv = field@;
        self.m_fields.insert(field.m_tag, field);
        assert(self@.groups =~= old(self)@.groups);
        assert(self@.fields =~= old(self)@.fields.insert(fv.tag, fv));
    }

    /// Adds a group under its counting tag; a group without fields adds nothing.
    pub fn add_group(&mut self, group: Group)
        requires
            old(self).wf(),
            group.wf(),
        ensures
            final(self).wf(),
            final(self)@ == (if group.members().len() == 0 {
                old(self)@
            } else {
                MessageView {
                    groups: old(self)@.groups.insert(group.m_parent_tag, group.members()),
                    ..old(self)@
                }
            }),
    {
        if group.m_fields.len() > 0 {
            let ghost g = group;
            self.m_groups.insert(group.m_parent_tag, group);
            assert(self@.groups =~= old(self)@.groups.insert(g.m_parent_tag, g.members()));
            assert(self@.fields =~= old(self)@.fields);
        }
    }

    pub fn get_type(&self) -> (r: &String)
        ensures
            r@ == self.m_type@,
    {
        &self.m_type
    }

    /// Whether the message holds a field under `tag`.
    pub fn has_field(&self, tag: i32) -> (r: bool)
        ensures
            r == self@.fields.contains_key(tag),
    {
        self.m_fields.contains_key(&tag)
    }

    /// The group counted by the field `tag`, if the message has one.
    pub fn get_group(&self, tag: i32) -> (r: Option<&Group>)
        ensures
            r is Some <==> self@.groups.contains_key(tag),
            r is Some ==> r->Some_0.members() == self@.groups[tag],
    {
        self.m_groups.get(&tag)
    }

    /// The number of distinct field tags the message holds.
    pub fn field_count(&self) -> (r: usize)
        ensures
            r == self@.fields.len(),
    {
        proof {
            assert(self@.fields.dom() =~= self.m_fields@.dom());
        }
        self.m_fields.len()
    }

    /// The number of groups the message holds.
    pub fn group_count(&self) -> (r: usize)
        ensures
            r == self@.groups.len(),
    {
        proof {
            assert(self@.groups.dom() =~= self.m_groups@.dom());
        }
        self.m_groups.len()
    }
}

} // verus!
