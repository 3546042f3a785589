//! Structures, and the selectors of their fields.

use vstd::prelude::*;
use crate::symbols::metadata::{MetaDataTypeName, SelectorDescription};
use crate::symbols::name::Name;
use super::names_alike;
use super::recursion_detector::Cycle;

verus! {

/// A selector as a value: the name of a field, and the structures that
/// had a field of that name when the selector was taken.
#[derive(Debug)]
pub struct SelectorInstance {
    pub member: Name,
    pub structures: Vec<Name>,
}

fn copy_names(names: &Vec<Name>) -> (r: Vec<Name>)
    ensures
        names_alike(r@, names@),
{
    let mut r: Vec<Name> = Vec::new();
    let mut i: usize = 0;
    while i < names.len()
        invariant
            i <= names.len(),
            r@.len() == i,
            forall|k: int| 0 <= k < i ==> (#[trigger] r@[k])@ == names@[k]@,
        decreases names.len() - i,
    {
        r.push(names[i].clone());
        i += 1;
    }
    r
}

impl SelectorInstance {
    /// Whether two selectors are spelled alike.
    pub open spec fn alike(self, other: SelectorInstance) -> bool {
        self.member@ == other.member@ && names_alike(self.structures@, other.structures@)
    }

    pub fn from_description(desc: &SelectorDescription) -> (r: SelectorInstance)
        ensures
            r.member@ == desc.member@,
            names_alike(r.structures@, desc.structures@),
    {
        SelectorInstance { member: Name::from_name(&desc.member), structures: copy_names(&desc.structures) }
    }

    pub fn duplicate(&self) -> (r: SelectorInstance)
        ensures
            r.alike(*self),
    {
        SelectorInstance { member: self.member.clone(), structures: copy_names(&self.structures) }
    }

    /// Whether a structure of the given datatype has the field.
    pub open spec fn admits(&self, datatype: Seq<char>) -> bool {
        listed(self.structures@, datatype)
    }

    /// Whether a structure of the given datatype has the field.
    pub fn is_admitted(&self, datatype: &str) -> (r: bool)
        ensures
            r == self.admits(datatype@),
    {
        let mut i: usize = 0;
        while i < self.structures.len()
            invariant
                i <= self.structures.len(),
                forall|k: int| 0 <= k < i ==> (#[trigger] self.structures@[k])@ != datatype@,
            decreases self.structures.len() - i,
        {
            if crate::text::same_chars(&self.structures[i].as_chars(), &crate::text::chars_of(datatype)) {
                return true;
            }
            i += 1;
        }
        false
    }
}

/// One field of a structure: its name, its datatype, and its cell.
#[derive(Debug)]
pub struct StructureInstanceMember {
    pub name: Name,
    pub datatype: MetaDataTypeName,
    pub cell: usize,
}

impl StructureInstanceMember {
    pub open spec fn alike(self, other: StructureInstanceMember) -> bool {
        self.name@ == other.name@ && self.datatype@ == other.datatype@ && self.cell == other.cell
    }

    pub fn as_string(&self) -> (r: String)
        ensures
            r@ == self.name@,
    {
        self.name.as_string()
    }

    pub fn duplicate(&self) -> (r: StructureInstanceMember)
        ensures
            r.alike(*self),
    {
        StructureInstanceMember { name: self.name.clone(), datatype: self.datatype.clone(), cell: self.cell }
    }
}

/// A structure: its datatype and its fields, in the order of the datatype.
#[derive(Debug)]
pub struct StructureInstance {
    datatype: MetaDataTypeName,
    recursion_pass: Cycle,
    members: Vec<StructureInstanceMember>,
}

impl StructureInstance {
    /// The name of the datatype.
    pub closed spec fn datatype(&self) -> Seq<char> {
        self.datatype@
    }

    /// The fields.
    pub closed spec fn members(&self) -> Seq<StructureInstanceMember> {
        self.members@
    }

    /// The cells of the fields.
    pub open spec fn cells(&self) -> Seq<usize> {
        Seq::new(self.members().len(), |i: int| self.members()[i].cell)
    }

    /// Whether two structures are the same but for where they are kept.
    pub open spec fn alike(self, other: StructureInstance) -> bool {
        &&& self.datatype() == other.datatype()
        &&& self.members().len() == other.members().len()
        &&& forall|i: int| 0 <= i < self.members().len() ==> (#[trigger] self.members()[i]).alike(other.members()[i])
    }

    pub fn as_datatype(&self) -> (r: MetaDataTypeName)
        ensures
            r@ == self.datatype(),
    {
        self.datatype.clone()
    }

    pub fn as_string(&self) -> (r: String)
        ensures
            r@ == self.datatype(),
    {
        self.datatype.as_string()
    }

    pub fn as_values(&self) -> (r: &Vec<StructureInstanceMember>)
        ensures
            r@ == self.members(),
    {
        &self.members
    }

    pub fn length(&self) -> (r: usize)
        ensures
            r == self.members().len(),
    {
        self.members.len()
    }

    pub fn from_string(name: &String, members: Vec<StructureInstanceMember>) -> (r: StructureInstance)
        ensures
            r.datatype() == name@,
            r.members() == members@,
    {
        StructureInstance {
            datatype: MetaDataTypeName::from_string(name),
            recursion_pass: Cycle { pass: 0 },
            members: members,
        }
    }

    /// A structure like this one but made of other cells, one for each field.
    pub fn with_cells(&self, cells: &Vec<usize>) -> (r: StructureInstance)
        requires
            cells@.len() == self.members().len(),
        ensures
            r.datatype() == self.datatype(),
            r.members().len() == self.members().len(),
            forall|i: int|
                0 <= i < self.members().len() ==> (#[trigger] r.members()[i]).name@ == self.members()[i].name@
                    && r.members()[i].datatype@ == self.members()[i].datatype@ && r.members()[i].cell == cells@[i],
            r.cells() == cells@,
    {
        let mut members: Vec<StructureInstanceMember> = Vec::new();
        let mut i: usize = 0;
        while i < self.members.len()
            invariant
                i <= self.members.len(),
                cells@.len() == self.members@.len(),
                members@.len() == i,
                forall|k: int|
                    0 <= k < i ==> (#[trigger] members@[k]).name@ == self.members@[k].name@ && members@[k].datatype@
                        == self.members@[k].datatype@ && members@[k].cell == cells@[k],
            decreases self.members.len() - i,
        {
            members.push(
                StructureInstanceMember {
                    name: self.members[i].name.clone(),
                    datatype: self.members[i].datatype.clone(),
                    cell: cells[i],
                },
            );
            i += 1;
        }
        let r = StructureInstance { datatype: self.datatype.clone(), recursion_pass: Cycle { pass: 0 }, members: members };
        assert(r.cells() =~= cells@);
        r
    }

    /// A copy of the structure with the same cells.
    pub fn duplicate(&self) -> (r: StructureInstance)
        ensures
            r.alike(*self),
    {
        let mut members: Vec<StructureInstanceMember> = Vec::new();
        let mut i: usize = 0;
        while i < self.members.len()
            invariant
                i <= self.members.len(),
                members@.len() == i,
                forall|k: int| 0 <= k < i ==> (#[trigger] members@[k]).alike(self.members@[k]),
            decreases self.members.len() - i,
        {
            members.push(self.members[i].duplicate());
            i += 1;
        }
        StructureInstance { datatype: self.datatype.clone(), recursion_pass: self.recursion_pass, members: members }
    }

    /// The index of the field that a selector selects: the first field
    /// of its name, if the selector knows the datatype of the structure.
    pub open spec fn selected(&self, selector: &SelectorInstance) -> Option<int> {
        if selector.admits(self.datatype()) {
            first_named(self.members(), selector.member@, 0)
        } else {
            None
        }
    }

    /// Finds the field that a selector selects.
    pub fn find_field(&self, selector: &SelectorInstance) -> (r: Option<usize>)
        ensures
            match r {
                Some(i) => i < self.members().len() && self.selected(selector) == Some(i as int),
                None => self.selected(selector) is None,
            },
    {
        if !selector.is_admitted(self.datatype.as_str()) {
            return None;
        }
        let wanted = selector.member.as_chars();
        let mut i: usize = 0;
        while i < self.members.len()
            invariant
                i <= self.members.len(),
                wanted@ == selector.member@,
                selector.admits(self.datatype()),
                first_named(self.members@, selector.member@, i as int) == first_named(
                    self.members@,
                    selector.member@,
                    0,
                ),
            decreases self.members.len() - i,
        {
            if crate::text::same_chars(&self.members[i].name.as_chars(), &wanted) {
                return Some(i);
            }
            i += 1;
        }
        None
    }
}

/// The index of the first of the fields from index `i` on that has a name.
pub open spec fn first_named(members: Seq<StructureInstanceMember>, name: Seq<char>, i: int) -> Option<int>
    decreases members.len() - i,
{
    if i < 0 || i >= members.len() {
        None
    } else if members[i].name@ == name {
        Some(i)
    } else {
        first_named(members, name, i + 1)
    }
}

/// The first field of a name is a field of that name.
pub proof fn lemma_first_named(members: Seq<StructureInstanceMember>, name: Seq<char>, i: int)
    requires
        0 <= i,
    ensures
        first_named(members, name, i) matches Some(k) ==> i <= k < members.len() && members[k].name@ == name,
    decreases members.len() - i,
{
    if i < members.len() && members[i].name@ != name {
        lemma_first_named(members, name, i + 1);
    }
}

/// Whether a datatype is one of a list of names.
pub open spec fn listed(structures: Seq<Name>, datatype: Seq<char>) -> bool {
    exists|i: int| 0 <= i < structures.len() && (#[trigger] structures[i])@ == datatype
}

/// Lists of names that are spelled alike list the same datatypes.
pub proof fn lemma_listed_alike(a: Seq<Name>, b: Seq<Name>, datatype: Seq<char>)
    requires
        names_alike(a, b),
    ensures
        listed(a, datatype) == listed(b, datatype),
{
    if listed(a, datatype) {
        let i = choose|i: int| 0 <= i < a.len() && (#[trigger] a[i])@ == datatype;
        assert(b[i]@ == datatype);
    }
    if listed(b, datatype) {
        let i = choose|i: int| 0 <= i < b.len() && (#[trigger] b[i])@ == datatype;
        assert(a[i]@ == datatype);
    }
}

} // verus!
