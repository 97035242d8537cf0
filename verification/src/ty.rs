//! A table of the named types of a pool: scalar, message and enum types
//! addressed by a `TypeId`, and their full names.
use vstd::prelude::*;
use crate::error::{DescriptorError, DescriptorErrorKind};
use crate::kind::Cardinality;
use crate::text::chars_of;
use crate::names::without_leading_dot;

verus! {

/// What a `TypeId` refers to.
#[derive(Copy, Clone, PartialEq, Eq, Structural, Debug)]
pub enum TypeKind {
    Scalar,
    Message,
    Enum,
}

/// A reference to a type in a `TypeMap`: its kind and its index.
#[derive(Copy, Clone, PartialEq, Eq, Structural, Debug)]
pub struct TypeId(pub TypeKind, pub u32);

/// The scalar types, in the order of their indices.
#[derive(Copy, Clone, PartialEq, Eq, Structural, Debug)]
pub enum Scalar {
    Double,
    Float,
    Int32,
    Int64,
    Uint32,
    Uint64,
    Sint32,
    Sint64,
    Fixed32,
    Fixed64,
    Sfixed32,
    Sfixed64,
    Bool,
    String,
    Bytes,
}

/// The number of scalar types.
pub const SCALAR_COUNT: u32 = 15;

/// The index of a scalar type.
pub open spec fn spec_scalar_index(s: Scalar) -> u32 {
    match s {
        Scalar::Double => 0,
        Scalar::Float => 1,
        Scalar::Int32 => 2,
        Scalar::Int64 => 3,
        Scalar::Uint32 => 4,
        Scalar::Uint64 => 5,
        Scalar::Sint32 => 6,
        Scalar::Sint64 => 7,
        Scalar::Fixed32 => 8,
        Scalar::Fixed64 => 9,
        Scalar::Sfixed32 => 10,
        Scalar::Sfixed64 => 11,
        Scalar::Bool => 12,
        Scalar::String => 13,
        Scalar::Bytes => 14,
    }
}

/// The index of a scalar type.
pub fn scalar_index(s: Scalar) -> (r: u32)
    ensures
        r == spec_scalar_index(s),
        r < SCALAR_COUNT,
{
    match s {
        Scalar::Double => 0,
        Scalar::Float => 1,
        Scalar::Int32 => 2,
        Scalar::Int64 => 3,
        Scalar::Uint32 => 4,
        Scalar::Uint64 => 5,
        Scalar::Sint32 => 6,
        Scalar::Sint64 => 7,
        Scalar::Fixed32 => 8,
        Scalar::Fixed64 => 9,
        Scalar::Sfixed32 => 10,
        Scalar::Sfixed64 => 11,
        Scalar::Bool => 12,
        Scalar::String => 13,
        Scalar::Bytes => 14,
    }
}

/// The scalar type with index `i`.
pub fn scalar_at(i: u32) -> (r: Scalar)
    requires
        i < SCALAR_COUNT,
    ensures
        spec_scalar_index(r) == i,
{
    match i {
        0 => Scalar::Double,
        1 => Scalar::Float,
        2 => Scalar::Int32,
        3 => Scalar::Int64,
        4 => Scalar::Uint32,
        5 => Scalar::Uint64,
        6 => Scalar::Sint32,
        7 => Scalar::Sint64,
        8 => Scalar::Fixed32,
        9 => Scalar::Fixed64,
        10 => Scalar::Sfixed32,
        11 => Scalar::Sfixed64,
        12 => Scalar::Bool,
        13 => Scalar::String,
        _ => Scalar::Bytes,
    }
}

impl Scalar {
    /// Whether a repeated field of this type may be packed: every scalar but
    /// `string` and `bytes`.
    pub open spec fn spec_is_packable(&self) -> bool {
        !(*self == Scalar::String || *self == Scalar::Bytes)
    }

    /// Whether a repeated field of this type may be packed.
    pub fn is_packable(&self) -> (r: bool)
        ensures
            r == self.spec_is_packable(),
    {
        match self {
            Scalar::String | Scalar::Bytes => false,
            _ => true,
        }
    }
}

/// A field of a message type in the table.
pub struct FieldDescriptorInner {
    pub name: String,
    pub full_name: String,
    pub json_name: String,
    pub number: u32,
    pub is_group: bool,
    pub cardinality: Cardinality,
    pub is_packed: bool,
    pub supports_presence: bool,
    pub oneof_index: Option<usize>,
    pub ty: TypeId,
}

/// A oneof of a message type in the table.
pub struct OneofDescriptorInner {
    pub name: String,
    pub full_name: String,
    pub fields: Vec<u32>,
}

/// A message type in the table.
pub struct MessageDescriptorInner {
    pub full_name: String,
    pub parent: Option<TypeId>,
    pub is_map_entry: bool,
    pub fields: Vec<FieldDescriptorInner>,
    pub oneof_decls: Vec<OneofDescriptorInner>,
}

/// A value of an enum type in the table.
pub struct EnumValueDescriptorInner {
    pub name: String,
    pub full_name: String,
    pub number: i32,
}

/// An enum type in the table.
pub struct EnumDescriptorInner {
    pub full_name: String,
    pub parent: Option<TypeId>,
    pub values: Vec<EnumValueDescriptorInner>,
    pub default_value: i32,
}

/// A type looked up in a `TypeMap`.
pub enum Type<'a> {
    Message(&'a MessageDescriptorInner),
    Enum(&'a EnumDescriptorInner),
    Scalar(Scalar),
}

impl<'a> Type<'a> {
    /// Whether this is a message type.
    pub fn is_message(&self) -> (r: bool)
        ensures
            r == (*self is Message),
    {
        match self {
            Type::Message(_) => true,
            _ => false,
        }
    }

    /// The message type this is.
    pub fn unwrap_message(&self) -> (r: &'a MessageDescriptorInner)
        requires
            *self is Message,
        ensures
            *self == Type::Message(r),
    {
        match self {
            Type::Message(message) => message,
            _ => vstd::pervasive::unreached(),
        }
    }

    /// Whether this is an enum type.
    pub fn is_enum(&self) -> (r: bool)
        ensures
            r == (*self is Enum),
    {
        match self {
            Type::Enum(_) => true,
            _ => false,
        }
    }

    /// The enum type this is.
    pub fn unwrap_enum(&self) -> (r: &'a EnumDescriptorInner)
        requires
            *self is Enum,
        ensures
            *self == Type::Enum(r),
    {
        match self {
            Type::Enum(enum_ty) => enum_ty,
            _ => vstd::pervasive::unreached(),
        }
    }

    /// Whether a repeated field of this type may be packed: scalars other
    /// than strings and bytes, and enums.
    pub open spec fn spec_is_packable(&self) -> bool {
        match *self {
            Type::Scalar(s) => s.spec_is_packable(),
            Type::Enum(_) => true,
            Type::Message(_) => false,
        }
    }

    /// Whether a repeated field of this type may be packed.
    pub fn is_packable(&self) -> (r: bool)
        ensures
            r == self.spec_is_packable(),
    {
        match self {
            Type::Scalar(scalar) => scalar.is_packable(),
            Type::Enum(_) => true,
            _ => false,
        }
    }
}

} // verus!

verus! {

/// A name given to a type.
pub struct NamedType {
    pub name: String,
    pub id: TypeId,
}

/// The type last given name `key` among `entries`, if any.
pub open spec fn find_named(entries: Seq<NamedType>, key: Seq<char>) -> Option<TypeId>
    decreases entries.len(),
{
    if entries.len() == 0 {
        None
    } else if entries.last().name@ == key {
        Some(entries.last().id)
    } else {
        find_named(entries.drop_last(), key)
    }
}

/// `s` without all of its leading `.` characters.
pub open spec fn trim_leading_dots(s: Seq<char>) -> Seq<char>
    decreases s.len(),
{
    if s.len() > 0 && s[0] == '.' {
        trim_leading_dots(s.drop_first())
    } else {
        s
    }
}

/// The named, message and enum types of a pool.
pub struct TypeMap {
    pub named_types: Vec<NamedType>,
    pub messages: Vec<MessageDescriptorInner>,
    pub enums: Vec<EnumDescriptorInner>,
}

/// Releases the spare capacity of a vector with `Vec::shrink_to_fit`; trusted
/// to keep its elements, in order, as std documents.
#[verifier::external_body]
fn shrink_vec<T>(v: &mut Vec<T>)
    ensures
        final(v)@ == old(v)@,
{
    v.shrink_to_fit();
}

impl TypeMap {
    /// The full names of the table, with the type each one refers to.
    pub open spec fn names(&self) -> Map<Seq<char>, TypeId> {
        Map::new(
            |k: Seq<char>| find_named(self.named_types@, k) is Some,
            |k: Seq<char>| find_named(self.named_types@, k)->0,
        )
    }

    /// An empty table.
    pub fn new() -> (r: TypeMap)
        ensures
            r.names() == Map::<Seq<char>, TypeId>::empty(),
            r.named_types@.len() == 0,
            r.messages@.len() == 0,
            r.enums@.len() == 0,
    {
        let r = TypeMap { named_types: Vec::new(), messages: Vec::new(), enums: Vec::new() };
        assert(r.names() =~= Map::<Seq<char>, TypeId>::empty());
        r
    }

    /// The ids of the message types, in order.
    pub fn messages(&self) -> (r: Vec<TypeId>)
        requires
            self.messages@.len() <= u32::MAX + 1,
        ensures
            r@.len() == self.messages@.len(),
            forall|i: int| 0 <= i < r@.len() ==> r@[i] == TypeId(TypeKind::Message, i as u32),
    {
        let mut r: Vec<TypeId> = Vec::new();
        let mut i: usize = 0;
        while i < self.messages.len()
            invariant
                i <= self.messages@.len() <= u32::MAX + 1,
                r@.len() == i,
                forall|j: int| 0 <= j < i ==> r@[j] == TypeId(TypeKind::Message, j as u32),
            decreases self.messages@.len() - i,
        {
            r.push(TypeId(TypeKind::Message, i as u32));
            i += 1;
        }
        r
    }

    /// One id for each enum type, in order. As it always has, it numbers them
    /// with the `Message` kind.
    pub fn enums(&self) -> (r: Vec<TypeId>)
        requires
            self.enums@.len() <= u32::MAX + 1,
        ensures
            r@.len() == self.enums@.len(),
            forall|i: int| 0 <= i < r@.len() ==> r@[i] == TypeId(TypeKind::Message, i as u32),
    {
        let mut r: Vec<TypeId> = Vec::new();
        let mut i: usize = 0;
        while i < self.enums.len()
            invariant
                i <= self.enums@.len() <= u32::MAX + 1,
                r@.len() == i,
                forall|j: int| 0 <= j < i ==> r@[j] == TypeId(TypeKind::Message, j as u32),
            decreases self.enums@.len() - i,
        {
            r.push(TypeId(TypeKind::Message, i as u32));
            i += 1;
        }
        r
    }

    /// Releases spare capacity; the contents stay as they are.
    pub fn shrink_to_fit(&mut self)
        ensures
            final(self).named_types@ == old(self).named_types@,
            final(self).messages@ == old(self).messages@,
            final(self).enums@ == old(self).enums@,
    {
        shrink_vec(&mut self.named_types);
        shrink_vec(&mut self.messages);
        shrink_vec(&mut self.enums);
    }

    /// Adds a message type and returns its id.
    pub fn add_message(&mut self, message: MessageDescriptorInner) -> (r: TypeId)
        requires
            old(self).messages@.len() <= u32::MAX,
        ensures
            r == TypeId(TypeKind::Message, old(self).messages@.len() as u32),
            final(self).messages@ == old(self).messages@.push(message),
            final(self).enums@ == old(self).enums@,
            final(self).named_types@ == old(self).named_types@,
    {
        let id = self.messages.len() as u32;
        self.messages.push(message);
        TypeId(TypeKind::Message, id)
    }

    /// Adds an enum type and returns its id.
    pub fn add_enum(&mut self, enum_desc: EnumDescriptorInner) -> (r: TypeId)
        requires
            old(self).enums@.len() <= u32::MAX,
        ensures
            r == TypeId(TypeKind::Enum, old(self).enums@.len() as u32),
            final(self).enums@ == old(self).enums@.push(enum_desc),
            final(self).messages@ == old(self).messages@,
            final(self).named_types@ == old(self).named_types@,
    {
        let id = self.enums.len() as u32;
        self.enums.push(enum_desc);
        TypeId(TypeKind::Enum, id)
    }

    /// Gives `ty` the name `name`, without its leading `.` if it has one; a
    /// type given that name before loses it.
    pub fn add_name(&mut self, name: &str, ty: TypeId)
        ensures
            final(self).names() == old(self).names().insert(without_leading_dot(name@), ty),
            final(self).messages@ == old(self).messages@,
            final(self).enums@ == old(self).enums@,
    {
        let chars = chars_of(name);
        let mut key = String::new();
        let start: usize = if chars.len() > 0 && chars[0] == '.' { 1 } else { 0 };
        let mut i: usize = start;
        while i < chars.len()
            invariant
                start <= i <= chars@.len(),
                key@ == chars@.subrange(start as int, i as int),
            decreases chars@.len() - i,
        {
            crate::text::push_char(&mut key, chars[i]);
            proof {
                assert(chars@.subrange(start as int, i + 1) =~= chars@.subrange(start as int, i as int).push(chars@[i as int]));
            }
            i += 1;
        }
        proof {
            if start == 1 {
                assert(key@ =~= name@.drop_first());
            } else {
                assert(key@ =~= name@);
            }
        }
        let ghost old_entries = self.named_types@;
        let entry = NamedType { name: key, id: ty };
        self.named_types.push(entry);
        proof {
            assert forall|k: Seq<char>| #![auto] find_named(self.named_types@, k) == (if k == without_leading_dot(name@) { Some(ty) } else { find_named(old_entries, k) }) by {
                assert(self.named_types@.drop_last() =~= old_entries);
            }
            assert(self.names() =~= old(self).names().insert(without_leading_dot(name@), ty));
        }
    }

    /// The type an id refers to.
    pub fn get(&self, id: TypeId) -> (r: Type<'_>)
        requires
            id.0 == TypeKind::Scalar ==> id.1 < SCALAR_COUNT,
            id.0 == TypeKind::Message ==> id.1 < self.messages@.len(),
            id.0 == TypeKind::Enum ==> id.1 < self.enums@.len(),
        ensures
            id.0 == TypeKind::Scalar ==> r is Scalar && spec_scalar_index(r->Scalar_0) == id.1,
            id.0 == TypeKind::Message ==> r == Type::Message(&self.messages@[id.1 as int]),
            id.0 == TypeKind::Enum ==> r == Type::Enum(&self.enums@[id.1 as int]),
    {
        match id.0 {
            TypeKind::Scalar => Type::Scalar(scalar_at(id.1)),
            TypeKind::Message => Type::Message(&self.messages[id.1 as usize]),
            TypeKind::Enum => Type::Enum(&self.enums[id.1 as usize]),
        }
    }

    /// Replaces the message type an id refers to.
    pub fn set_message(&mut self, id: TypeId, message: MessageDescriptorInner)
        requires
            id.0 == TypeKind::Message,
            id.1 < old(self).messages@.len(),
        ensures
            final(self).messages@ == old(self).messages@.update(id.1 as int, message),
            final(self).enums@ == old(self).enums@,
            final(self).named_types@ == old(self).named_types@,
    {
        self.messages.set(id.1 as usize, message);
    }

    /// The type named `name`, ignoring any leading `.` characters.
    pub fn try_get_by_name(&self, name: &str) -> (r: Option<TypeId>)
        ensures
            r == find_named(self.named_types@, trim_leading_dots(name@)),
    {
        let chars = chars_of(name);
        let mut start: usize = 0;
        proof {
            assert(chars@.subrange(0, chars@.len() as int) =~= chars@);
        }
        while start < chars.len() && chars[start] == '.'
            invariant
                start <= chars@.len(),
                trim_leading_dots(chars@.subrange(start as int, chars@.len() as int)) == trim_leading_dots(name@),
                chars@ == name@,
            decreases chars@.len() - start,
        {
            proof {
                assert(chars@.subrange(start + 1, chars@.len() as int) =~= chars@.subrange(start as int, chars@.len() as int).drop_first());
            }
            start += 1;
        }
        let ghost key = chars@.subrange(start as int, chars@.len() as int);
        proof {
            assert(trim_leading_dots(key) == key);
        }
        let mut i: usize = self.named_types.len();
        proof {
            assert(self.named_types@.take(i as int) =~= self.named_types@);
        }
        while i > 0
            invariant
                i <= self.named_types@.len(),
                find_named(self.named_types@.take(i as int), key) == find_named(self.named_types@, key),
                key == chars@.subrange(start as int, chars@.len() as int),
                trim_leading_dots(name@) == key,
                start <= chars@.len(),
            decreases i,
        {
            let entry = &self.named_types[i - 1];
            let ghost prefix = self.named_types@.take(i as int);
            proof {
                assert(prefix.drop_last() =~= self.named_types@.take(i - 1));
                assert(prefix.last() == self.named_types@[i - 1]);
            }
            let entry_chars = chars_of(entry.name.as_str());
            if suffix_eq(&entry_chars, &chars, start) {
                proof {
                    assert(find_named(prefix, key) == Some(entry.id));
                }
                return Some(entry.id);
            }
            i -= 1;
        }
        proof {
            assert(self.named_types@.take(0) =~= Seq::<NamedType>::empty());
        }
        None
    }

    /// The type named `name`, ignoring any leading `.` characters, or an
    /// error naming it.
    pub fn get_by_name(&self, name: &str) -> (r: Result<TypeId, DescriptorError>)
        ensures
            r matches Ok(id) ==> find_named(self.named_types@, trim_leading_dots(name@)) == Some(id),
            r is Err <==> find_named(self.named_types@, trim_leading_dots(name@)) is None,
            r matches Err(e) ==> (e.kinds().len() == 1 && (e.kinds()[0] matches DescriptorErrorKind::TypeNotFound { name: n } && n@ == name@)),
    {
        match self.try_get_by_name(name) {
            Some(id) => Ok(id),
            None => Err(DescriptorError::type_not_found(name)),
        }
    }

    /// The id of a scalar type.
    pub fn get_scalar(&self, scalar: Scalar) -> (r: TypeId)
        ensures
            r == TypeId(TypeKind::Scalar, spec_scalar_index(scalar)),
    {
        TypeId(TypeKind::Scalar, scalar_index(scalar))
    }
}

/// Whether `a` equals `b` from index `start` on.
fn suffix_eq(a: &Vec<char>, b: &Vec<char>, start: usize) -> (r: bool)
    requires
        start <= b@.len(),
    ensures
        r == (a@ == b@.subrange(start as int, b@.len() as int)),
{
    if a.len() != b.len() - start {
        return false;
    }
    let mut i: usize = 0;
    while i < a.len()
        invariant
            start <= b@.len(),
            a@.len() == b@.len() - start,
            b@.len() == b.len(),
            i <= a@.len(),
            forall|j: int| 0 <= j < i ==> a@[j] == b@[start + j],
        decreases a@.len() - i,
    {
        if a[i] != b[start + i] {
            return false;
        }
        i += 1;
    }
    assert(a@ =~= b@.subrange(start as int, b@.len() as int));
    true
}

} // verus!
