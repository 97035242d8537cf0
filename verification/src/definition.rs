//! Named definitions of a pool and the table that maps full names to them.
use vstd::prelude::*;
use crate::text::chars_eq;

verus! {

/// What a full name in a pool refers to, with the index of the definition
/// (for members, the index of the enclosing message, service or enum).
#[derive(Copy, Clone, PartialEq, Eq, Structural, Debug)]
pub enum DefinitionKind {
    Package,
    Message(u32),
    Field(u32),
    Oneof(u32),
    Service(u32),
    Method(u32),
    Enum(u32),
    EnumValue(u32),
    Extension(u32),
}

impl DefinitionKind {
    /// Whether names can be nested inside a definition of this kind.
    pub open spec fn spec_is_parent(self) -> bool {
        match self {
            DefinitionKind::Package => true,
            DefinitionKind::Message(_) => true,
            DefinitionKind::Field(_) => false,
            DefinitionKind::Oneof(_) => false,
            DefinitionKind::Service(_) => true,
            DefinitionKind::Method(_) => false,
            DefinitionKind::Enum(_) => true,
            DefinitionKind::EnumValue(_) => false,
            DefinitionKind::Extension(_) => false,
        }
    }

    /// Whether names can be nested inside a definition of this kind.
    pub fn is_parent(&self) -> (r: bool)
        ensures
            r == self.spec_is_parent(),
    {
        match self {
            DefinitionKind::Package => true,
            DefinitionKind::Message(_) => true,
            DefinitionKind::Field(_) => false,
            DefinitionKind::Oneof(_) => false,
            DefinitionKind::Service(_) => true,
            DefinitionKind::Method(_) => false,
            DefinitionKind::Enum(_) => true,
            DefinitionKind::EnumValue(_) => false,
            DefinitionKind::Extension(_) => false,
        }
    }
}

/// A definition: the file it is in, its path in that file and what it is.
pub struct Definition {
    pub file: u32,
    pub path: Vec<i32>,
    pub kind: DefinitionKind,
}

/// An entry of the name table.
pub struct NameEntry {
    pub name: Vec<char>,
    pub def: Definition,
}

/// The index of the first entry named `key`, if any.
pub open spec fn lookup(entries: Seq<NameEntry>, key: Seq<char>) -> Option<int>
    decreases entries.len(),
{
    if entries.len() == 0 {
        None
    } else {
        match lookup(entries.drop_last(), key) {
            Some(i) => Some(i),
            None => if entries.last().name@ == key {
                Some(entries.len() - 1)
            } else {
                None
            },
        }
    }
}

/// `lookup` finds an entry with the key, and the first one.
pub proof fn lemma_lookup(entries: Seq<NameEntry>, key: Seq<char>)
    ensures
        lookup(entries, key) matches Some(i) ==> 0 <= i < entries.len() && entries[i].name@ == key
            && forall|j: int| 0 <= j < i ==> entries[j].name@ != key,
        lookup(entries, key) is None ==> forall|j: int|
            0 <= j < entries.len() ==> entries[j].name@ != key,
    decreases entries.len(),
{
    if entries.len() > 0 {
        let prefix = entries.drop_last();
        lemma_lookup(prefix, key);
        assert forall|j: int| 0 <= j < prefix.len() implies prefix[j] == entries[j] by {}
    }
}

/// Appending an entry with a new name keeps earlier lookups and finds the new one.
pub proof fn lemma_lookup_push(entries: Seq<NameEntry>, e: NameEntry, key: Seq<char>)
    requires
        lookup(entries, e.name@) is None,
    ensures
        lookup(entries.push(e), key) == (if key == e.name@ {
            Some(entries.len() as int)
        } else {
            lookup(entries, key)
        }),
{
    assert(entries.push(e).drop_last() =~= entries);
}

/// Finds the index of the entry named `key`.
pub fn find_name(entries: &Vec<NameEntry>, key: &Vec<char>) -> (r: Option<usize>)
    ensures
        r matches Some(i) ==> lookup(entries@, key@) == Some(i as int) && i < entries@.len()
            && entries@[i as int].name@ == key@,
        r is None ==> lookup(entries@, key@) is None,
{
    let mut i: usize = 0;
    while i < entries.len()
        invariant
            i <= entries@.len(),
            lookup(entries@.take(i as int), key@) is None,
        decreases entries@.len() - i,
    {
        proof {
            assert(entries@.take(i + 1).drop_last() =~= entries@.take(i as int));
        }
        if chars_eq(&entries[i].name, key) {
            proof {
                lemma_lookup(entries@.take(i as int), key@);
                lemma_prefix_lookup(entries@, i as int + 1, key@);
                lemma_lookup(entries@, key@);
            }
            return Some(i);
        }
        i += 1;
    }
    proof {
        assert(entries@.take(entries@.len() as int) =~= entries@);
    }
    None
}

/// A lookup that succeeds in a prefix succeeds the same way in the whole table.
pub proof fn lemma_prefix_lookup(entries: Seq<NameEntry>, n: int, key: Seq<char>)
    requires
        0 <= n <= entries.len(),
        lookup(entries.take(n), key) is Some,
    ensures
        lookup(entries, key) == lookup(entries.take(n), key),
    decreases entries.len() - n,
{
    if n < entries.len() {
        assert(entries.take(n + 1).drop_last() =~= entries.take(n));
        lemma_prefix_lookup(entries, n + 1, key);
    } else {
        assert(entries.take(n) =~= entries);
    }
}

} // verus!
