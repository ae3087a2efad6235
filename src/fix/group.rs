use super::field::{field_text, Field, FieldView};
use crate::text::{append_decimal, decimal_of};
use vstd::prelude::*;

verus! {

/// The tags of a sequence of fields, in order.
pub open spec fn tags_of(fs: Seq<FieldView>) -> Seq<i32> {
    fs.map_values(|f: FieldView| f.tag)
}

/// The views of a sequence of fields.
pub open spec fn views_of(fs: Seq<Field>) -> Seq<FieldView> {
    fs.map_values(|f: Field| f@)
}

/// The printed lines of a group's members, each indented by four spaces.
pub open spec fn member_lines(fs: Seq<FieldView>) -> Seq<char>
    decreases fs.len(),
{
    if fs.len() == 0 {
        Seq::empty()
    } else {
        member_lines(fs.drop_last()) + "    "@ + field_text(fs.last()) + "\n"@
    }
}

/// The resolved shape of one repeating group: the tag of the field that
/// counts its repetitions, the tag that opens each repetition, and its
/// member fields in order, each tag once.
pub struct Group {
    pub m_parent_tag: i32,
    pub m_first_tag: i32,
    pub m_tags: Vec<i32>,
    pub m_fields: Vec<Field>,
}

impl Group {
    /// The group's invariant: the tags mirror the fields, hold no tag twice,
    /// and the first tag is that of the first field (0 while there is none).
    pub open spec fn wf(&self) -> bool {
        &&& self.m_tags@ == tags_of(self.members())
        &&& self.m_tags@.no_duplicates()
        &&& if self.m_fields@.len() == 0 {
            self.m_first_tag == 0
        } else {
            self.m_first_tag == self.m_fields@[0].m_tag
        }
    }

    /// The member fields, in order.
    pub open spec fn members(&self) -> Seq<FieldView> {
        views_of(self.m_fields@)
    }

    pub fn new(parent: i32) -> (r: Group)
        ensures
            r.wf(),
            r.m_parent_tag == parent,
            r.members().len() == 0,
    {
        let r = Group { m_parent_tag: parent, m_first_tag: 0, m_tags: Vec::new(), m_fields: Vec::new() };
        assert(r.m_tags@ =~= tags_of(r.members()));
        r
    }

    pub fn get_parent_tag(&self) -> (r: i32)
        ensures
            r == self.m_parent_tag,
    {
        self.m_parent_tag
    }

    /// Appends a field unless its tag is already a member; the first field
    /// appended fixes the first tag.
    pub fn add_field(&mut self, field: Field)
        requires
            old(self).wf(),
        ensures
            final(self).wf(),
            final(self).m_parent_tag == old(self).m_parent_tag,
            final(self).members() == (if tags_of(old(self).members()).contains(field.m_tag) {
                old(self).members()
            } else {
                old(self).members().push(field@)
            }),
    {
        if !self.has_tag(field.m_tag) {
            if self.m_tags.len() == 0 {
                self.m_first_tag = field.m_tag;
            }
            let ghost before = self.members();
            let ghost fv = field@;
            self.m_tags.push(field.m_tag);
            self.m_fields.push(field);
            assert(self.members() =~= before.push(fv));
            assert(self.m_tags@ =~= tags_of(self.members()));
        }
    }

    pub fn is_first_tag(&self, tag: i32) -> (r: bool)
        ensures
            r == (tag == self.m_first_tag),
    {
        tag == self.m_first_tag
    }

    pub fn has_tag(&self, tag: i32) -> (r: bool)
        ensures
            r == self.m_tags@.contains(tag),
    {
        let mut i: usize = 0;
        while i < self.m_tags.len()
            invariant
                i <= self.m_tags@.len(),
                forall|j: int| 0 <= j < i ==> self.m_tags@[j] != tag,
            decreases self.m_tags@.len() - i,
        {
            if self.m_tags[i] == tag {
                return true;
            }
            i = i + 1;
        }
        false
    }

    /// The group printed: its counting tag on a line, then one line per member.
    pub fn to_string(&self) -> (r: String)
        ensures
            r@ == "group parent tag: "@ + decimal_of(self.m_parent_tag as int) + "\n"@
                + member_lines(self.members()),
    {
        let mut r = "group parent tag: ".to_string();
        append_decimal(&mut r, self.m_parent_tag);
        r.append("\n");
        let ghost head = r@;
        let mut i: usize = 0;
        while i < self.m_fields.len()
            invariant
                i <= self.m_fields@.len(),
                r@ == head + member_lines(self.members().take(i as int)),
            decreases self.m_fields@.len() - i,
        {
            assert(self.members().take(i + 1).drop_last() =~= self.members().take(i as int));
            r.append("    ");
            let line = self.m_fields[i].to_string();
            r.append(line.as_str());
            r.append("\n");
            assert(r@ =~= head + member_lines(self.members().take(i + 1)));
            i = i + 1;
        }
        assert(self.members().take(i as int) =~= self.members());
        r
    }

    /// The member fields in order.
    pub fn iter_fields(&self) -> (r: &Vec<Field>)
        ensures
            r@ == self.m_fields@,
    {
        &self.m_fields
    }
}

} // verus!
