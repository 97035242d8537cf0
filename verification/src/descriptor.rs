//! Handles to the definitions of a pool: files, messages, fields, oneofs,
//! extensions, enums, enum values, services and methods.
use vstd::prelude::*;
use crate::api::DescriptorPool;
use crate::kind::{Cardinality, KindIndex, Syntax};
use crate::pool::{
    DescriptorPoolInner, EnumDescriptorInner, EnumValueDescriptorInner, ExtensionDescriptorInner,
    FieldDescriptorInner, FileDescriptorInner, MessageDescriptorInner, MethodDescriptorInner,
    OneofDescriptorInner, ServiceDescriptorInner,
};
use crate::text::opt_str;
use crate::types::FileDescriptorProto;

verus! {

/// The increasing list of the indices below `n` that satisfy `pred`.
pub open spec fn indices_where(n: int, pred: spec_fn(int) -> bool) -> Seq<int>
    decreases n,
{
    if n <= 0 {
        Seq::empty()
    } else {
        let s = indices_where(n - 1, pred);
        if pred(n - 1) {
            s.push(n - 1)
        } else {
            s
        }
    }
}

/// A file of a pool.
#[derive(Clone, Copy)]
pub struct FileDescriptor<'a> {
    pool: &'a DescriptorPool,
    index: u32,
}

/// A message type of a pool.
#[derive(Clone, Copy)]
pub struct MessageDescriptor<'a> {
    pool: &'a DescriptorPool,
    index: u32,
}

/// A field of a message type.
#[derive(Clone, Copy)]
pub struct FieldDescriptor<'a> {
    message: MessageDescriptor<'a>,
    index: usize,
}

/// A oneof of a message type.
#[derive(Clone, Copy)]
pub struct OneofDescriptor<'a> {
    message: MessageDescriptor<'a>,
    index: usize,
}

/// An extension field of a pool.
#[derive(Clone, Copy)]
pub struct ExtensionDescriptor<'a> {
    pool: &'a DescriptorPool,
    index: u32,
}

/// An enum type of a pool.
#[derive(Clone, Copy)]
pub struct EnumDescriptor<'a> {
    pool: &'a DescriptorPool,
    index: u32,
}

/// A value of an enum type.
#[derive(Clone, Copy)]
pub struct EnumValueDescriptor<'a> {
    parent: EnumDescriptor<'a>,
    index: usize,
}

/// A service of a pool.
#[derive(Clone, Copy)]
pub struct ServiceDescriptor<'a> {
    pool: &'a DescriptorPool,
    index: u32,
}

/// A method of a service.
#[derive(Clone, Copy)]
pub struct MethodDescriptor<'a> {
    service: ServiceDescriptor<'a>,
    index: usize,
}

impl<'a> FileDescriptor<'a> {
    /// The handle refers to a file of its pool.
    #[verifier::type_invariant]
    spec fn in_pool(self) -> bool {
        self.index < self.pool@.files@.len()
    }

    /// What the pool of this file holds.
    pub closed spec fn pool_view(self) -> DescriptorPoolInner {
        self.pool@
    }

    /// The index of this file in its pool.
    pub closed spec fn index_view(self) -> int {
        self.index as int
    }

    /// This file as the pool holds it.
    pub open spec fn data(self) -> FileDescriptorInner {
        self.pool_view().files@[self.index_view()]
    }

    /// The file at `index` of `pool`.
    pub fn new(pool: &'a DescriptorPool, index: usize) -> (r: FileDescriptor<'a>)
        requires
            index < pool@.files@.len(),
        ensures
            r.pool_view() == pool@,
            r.index_view() == index,
    {
        let inner = pool.inner();
        FileDescriptor { pool, index: index as u32 }
    }

    /// The pool this file is in.
    pub fn parent_pool(&self) -> (r: &'a DescriptorPool)
        ensures
            r@ == self.pool_view(),
    {
        self.pool
    }

    fn inner(&self) -> (r: &'a FileDescriptorInner)
        ensures
            *r == self.data(),
            self.index_view() < self.pool_view().files@.len(),
    {
        proof {
            use_type_invariant(self);
        }
        &self.pool.inner().files[self.index as usize]
    }

    /// The name of this file relative to the root of the source tree, e.g.
    /// `path/to/my_package.proto`.
    pub fn name(&self) -> (r: &'a str)
        ensures
            r@ == opt_str(self.data().raw.name),
    {
        crate::text::opt_str_or_empty(&self.inner().raw.name)
    }

    /// The package of this file, e.g. `my.package`; empty when it declares none.
    pub fn package_name(&self) -> (r: &'a str)
        ensures
            r@ == opt_str(self.data().raw.package),
    {
        crate::text::opt_str_or_empty(&self.inner().raw.package)
    }

    /// The index of this file in its pool.
    pub fn index(&self) -> (r: usize)
        ensures
            r == self.index_view(),
    {
        self.index as usize
    }

    /// The syntax of this file.
    pub fn syntax(&self) -> (r: Syntax)
        ensures
            r == self.data().syntax,
    {
        self.inner().syntax
    }

    /// The file descriptor this file was built from.
    pub fn file_descriptor_proto(&self) -> (r: &'a FileDescriptorProto)
        ensures
            *r == self.data().raw,
    {
        &self.inner().raw
    }

    /// The files this file imports, in import order.
    pub fn dependencies(&self) -> (r: Vec<FileDescriptor<'a>>)
        ensures
            r@.len() == self.data().dependencies@.len(),
            forall|k: int| 0 <= k < r@.len() ==> (#[trigger] r@[k]).pool_view() == self.pool_view()
                && r@[k].index_view() == self.data().dependencies@[k],
    {
        let pool = self.pool;
        let inner = pool.inner();
        let deps = &self.inner().dependencies;
        let mut r: Vec<FileDescriptor<'a>> = Vec::new();
        let mut k: usize = 0;
        while k < deps.len()
            invariant
                k <= deps@.len(),
                *deps == self.data().dependencies,
                *inner == pool@,
                pool@ == self.pool_view(),
                self.index_view() < self.pool_view().files@.len(),
                crate::wf::pool_usable(pool@),
                r@.len() == k,
                forall|j: int| 0 <= j < k ==> (#[trigger] r@[j]).pool_view() == self.pool_view()
                    && r@[j].index_view() == self.data().dependencies@[j],
            decreases deps@.len() - k,
        {
            proof {
                assert(crate::wf::file_ok(pool@.files@[self.index_view()], crate::wf::sizes(pool@)));
            }
            r.push(FileDescriptor { pool, index: deps[k] });
            k += 1;
        }
        r
    }

    /// The message types defined at the top level of this file, in order.
    pub fn messages(&self) -> (r: Vec<MessageDescriptor<'a>>)
        ensures
            r@.len() == indices_where(
                self.pool_view().messages@.len() as int,
                |j: int| self.pool_view().messages@[j].id.file == self.index_view()
                    && self.pool_view().messages@[j].parent is None,
            ).len(),
            forall|k: int| 0 <= k < r@.len() ==> (#[trigger] r@[k]).pool_view() == self.pool_view()
                && r@[k].index_view() == indices_where(
                self.pool_view().messages@.len() as int,
                |j: int| self.pool_view().messages@[j].id.file == self.index_view()
                    && self.pool_view().messages@[j].parent is None,
            )[k],
    {
        proof {
            use_type_invariant(self);
        }
        let pool = self.pool;
        let inner = pool.inner();
        let ghost pred = |j: int| self.pool_view().messages@[j].id.file == self.index_view()
            && self.pool_view().messages@[j].parent is None;
        let mut r: Vec<MessageDescriptor<'a>> = Vec::new();
        let mut j: usize = 0;
        while j < inner.messages.len()
            invariant
                j <= inner.messages@.len(),
                *inner == pool@,
                pool@ == self.pool_view(),
                crate::visit::counts_fit(crate::wf::sizes(pool@)),
                pred == (|j: int| self.pool_view().messages@[j].id.file == self.index_view()
                    && self.pool_view().messages@[j].parent is None),
                r@.len() == indices_where(j as int, pred).len(),
                forall|k: int| 0 <= k < r@.len() ==> (#[trigger] r@[k]).pool_view() == self.pool_view()
                    && r@[k].index_view() == indices_where(j as int, pred)[k],
            decreases inner.messages@.len() - j,
        {
            let m = &inner.messages[j];
            if m.id.file == self.index && m.parent.is_none() {
                r.push(MessageDescriptor { pool, index: j as u32 });
            }
            j += 1;
        }
        r
    }
}

} // verus!

verus! {

/// The message a path of a file leads to: `[4, i]` is the `i`-th top-level
/// message, and each further `[3, j]` the `j`-th message nested in the one
/// before.
pub open spec fn message_at(file: FileDescriptorProto, path: Seq<i32>) -> Option<crate::types::DescriptorProto>
    decreases path.len(),
{
    if path.len() < 2 {
        None
    } else if path.len() == 2 {
        if path[0] == crate::tag::FILE_MESSAGE_TYPE && 0 <= path[1] < file.message_type@.len() {
            Some(file.message_type@[path[1] as int])
        } else {
            None
        }
    } else {
        match message_at(file, path.take(path.len() - 2)) {
            Some(m) => if path[path.len() - 2] == crate::tag::MESSAGE_NESTED_TYPE && 0 <= path[path.len() - 1]
                < m.nested_type@.len() {
                Some(m.nested_type@[path[path.len() - 1] as int])
            } else {
                None
            },
            None => None,
        }
    }
}

/// Follows a path of a file to the message it leads to.
pub fn find_message_proto<'b>(file: &'b FileDescriptorProto, path: &[i32]) -> (r: Option<&'b crate::types::DescriptorProto>)
    ensures
        match r {
            Some(m) => message_at(*file, path@) == Some(*m),
            None => message_at(*file, path@) is None,
        },
{
    if path.len() < 2 || path.len() % 2 != 0 {
        proof {
            lemma_message_at_even(*file, path@);
        }
        return None;
    }
    if path[0] != crate::tag::FILE_MESSAGE_TYPE || path[1] < 0 || path[1] as usize >= file.message_type.len() {
        proof {
            lemma_message_at_first(*file, path@, 2);
        }
        return None;
    }
    let mut cur: &'b crate::types::DescriptorProto = &file.message_type[path[1] as usize];
    let mut i: usize = 2;
    proof {
        assert(path@.take(2).len() == 2);
    }
    while i < path.len()
        invariant
            2 <= i <= path@.len(),
            i % 2 == 0,
            path@.len() % 2 == 0,
            message_at(*file, path@.take(i as int)) == Some(*cur),
        decreases path@.len() - i,
    {
        proof {
            let q = path@.take(i + 2);
            assert(q.take(q.len() - 2) =~= path@.take(i as int));
        }
        if path[i] != crate::tag::MESSAGE_NESTED_TYPE || path[i + 1] < 0 || path[i + 1] as usize >= cur.nested_type.len() {
            proof {
                lemma_message_at_first(*file, path@, i + 2);
            }
            return None;
        }
        cur = &cur.nested_type[path[i + 1] as usize];
        i += 2;
    }
    proof {
        assert(path@.take(path@.len() as int) =~= path@);
    }
    Some(cur)
}

/// Only paths of even length, at least two, lead to a message.
pub proof fn lemma_message_at_even(file: FileDescriptorProto, path: Seq<i32>)
    ensures
        message_at(file, path) is Some ==> path.len() >= 2 && path.len() % 2 == 0,
    decreases path.len(),
{
    if path.len() > 2 {
        lemma_message_at_even(file, path.take(path.len() - 2));
    }
}

/// A path that leads nowhere at some even prefix leads nowhere.
pub proof fn lemma_message_at_first(file: FileDescriptorProto, path: Seq<i32>, n: int)
    requires
        2 <= n <= path.len(),
        n % 2 == 0,
        path.len() % 2 == 0,
        message_at(file, path.take(n)) is None,
    ensures
        message_at(file, path) is None,
    decreases path.len() - n,
{
    if n < path.len() {
        let q = path.take(n + 2);
        assert(q.take(q.len() - 2) =~= path.take(n));
        lemma_message_at_first(file, path, n + 2);
    } else {
        assert(path.take(n) =~= path);
    }
}

impl<'a> MessageDescriptor<'a> {
    /// The handle refers to a message type of its pool.
    #[verifier::type_invariant]
    spec fn in_pool(self) -> bool {
        self.index < self.pool@.messages@.len()
    }

    /// What the pool of this message type holds.
    pub closed spec fn pool_view(self) -> DescriptorPoolInner {
        self.pool@
    }

    /// The index of this message type in its pool.
    pub closed spec fn index_view(self) -> int {
        self.index as int
    }

    /// This message type as the pool holds it.
    pub open spec fn data(self) -> MessageDescriptorInner {
        self.pool_view().messages@[self.index_view()]
    }

    /// The file descriptor this message type is defined in.
    pub open spec fn raw_file(self) -> FileDescriptorProto {
        self.pool_view().files@[self.data().id.file as int].raw
    }

    fn inner(&self) -> (r: &'a MessageDescriptorInner)
        ensures
            *r == self.data(),
            self.index_view() < self.pool_view().messages@.len(),
            self.data().id.file < self.pool_view().files@.len(),
            crate::wf::message_shape_ok(self.data(), crate::wf::sizes(self.pool_view())),
            crate::visit::counts_fit(crate::wf::sizes(self.pool_view())),
            crate::wf::pool_usable(self.pool_view()),
            crate::link::numbers_sorted(self.data().field_numbers@),
            crate::link::numbers_name_fields(self.data()),
    {
        proof {
            use_type_invariant(self);
        }
        let inner = self.pool.inner();
        &inner.messages[self.index as usize]
    }

    /// The pool this message type is defined in.
    pub fn parent_pool(&self) -> (r: &'a DescriptorPool)
        ensures
            r@ == self.pool_view(),
    {
        self.pool
    }

    /// The file this message type is defined in.
    pub fn parent_file(&self) -> (r: FileDescriptor<'a>)
        ensures
            r.pool_view() == self.pool_view(),
            r.index_view() == self.data().id.file,
    {
        let file = self.inner().id.file;
        FileDescriptor { pool: self.pool, index: file }
    }

    /// The message type this one is nested in, if any.
    pub fn parent_message(&self) -> (r: Option<MessageDescriptor<'a>>)
        ensures
            match self.data().parent {
                Some(p) => r matches Some(m) && m.pool_view() == self.pool_view() && m.index_view() == p,
                None => r is None,
            },
    {
        match self.inner().parent {
            Some(p) => Some(MessageDescriptor { pool: self.pool, index: p }),
            None => None,
        }
    }

    /// The short name of this message type, e.g. `MyMessage`.
    pub fn name(&self) -> (r: &'a str)
        ensures
            r@ == self.data().id.name@,
    {
        self.inner().id.name()
    }

    /// The full name of this message type, e.g. `my.package.MyMessage`.
    pub fn full_name(&self) -> (r: &'a str)
        ensures
            r@ == self.data().id.full_name@,
    {
        self.inner().id.full_name()
    }

    /// The package this message type is defined in, e.g. `my.package`; empty
    /// when the file declares none.
    pub fn package_name(&self) -> (r: &'a str)
        ensures
            r@ == opt_str(self.raw_file().package),
    {
        let f = self.parent_file_descriptor_proto();
        crate::text::opt_str_or_empty(&f.package)
    }

    /// Where this message type is defined in its file descriptor, e.g. `[4, 0]`.
    pub fn path(&self) -> (r: &'a [i32])
        ensures
            r@ == self.data().id.path@,
    {
        self.inner().id.path.as_slice()
    }

    /// The file descriptor this message type is defined in.
    pub fn parent_file_descriptor_proto(&self) -> (r: &'a FileDescriptorProto)
        ensures
            *r == self.raw_file(),
    {
        let m = self.inner();
        let inner = self.pool.inner();
        &inner.files[m.id.file as usize].raw
    }

    /// The descriptor this message type was built from, found by its path.
    pub fn descriptor_proto(&self) -> (r: Option<&'a crate::types::DescriptorProto>)
        ensures
            match r {
                Some(m) => message_at(self.raw_file(), self.data().id.path@) == Some(*m),
                None => message_at(self.raw_file(), self.data().id.path@) is None,
            },
    {
        let f = self.parent_file_descriptor_proto();
        find_message_proto(f, self.path())
    }

    /// Whether this is a message type generated for the entries of a map field.
    pub fn is_map_entry(&self) -> (r: bool)
        ensures
            r == (message_at(self.raw_file(), self.data().id.path@) matches Some(m) && m.options matches Some(
                o,
            ) && o.map_entry == Some(true)),
    {
        match self.descriptor_proto() {
            Some(m) => match &m.options {
                Some(o) => match o.map_entry {
                    Some(b) => b,
                    None => false,
                },
                None => false,
            },
            None => false,
        }
    }

    /// The fields of this message type, ordered by number.
    pub fn fields(&self) -> (r: Vec<FieldDescriptor<'a>>)
        ensures
            crate::link::numbers_sorted(self.data().field_numbers@),
            r@.len() == self.data().field_numbers@.len(),
            forall|k: int| 0 <= k < r@.len() ==> (#[trigger] r@[k]).message_view() == *self
                && r@[k].index_view() == self.data().field_numbers@[k].1,
            forall|k: int| 0 <= k < r@.len() ==> (#[trigger] r@[k]).index_view() < self.data().fields@.len()
                && self.data().fields@[r@[k].index_view() as int].number == self.data().field_numbers@[k].0,
            forall|k1: int, k2: int| 0 <= k1 < k2 < r@.len() ==> (#[trigger] r@[k1]).index_view() != (
            #[trigger] r@[k2]).index_view(),
    {
        let m = self.inner();
        let mut r: Vec<FieldDescriptor<'a>> = Vec::new();
        let mut k: usize = 0;
        while k < m.field_numbers.len()
            invariant
                k <= m.field_numbers@.len(),
                *m == self.data(),
                self.index_view() < self.pool_view().messages@.len(),
                crate::wf::message_shape_ok(self.data(), crate::wf::sizes(self.pool_view())),
                r@.len() == k,
                crate::link::numbers_name_fields(self.data()),
                forall|j: int| 0 <= j < k ==> (#[trigger] r@[j]).message_view() == *self
                    && r@[j].index_view() == self.data().field_numbers@[j].1,
            decreases m.field_numbers@.len() - k,
        {
            r.push(FieldDescriptor { message: *self, index: m.field_numbers[k].1 as usize });
            k += 1;
        }
        r
    }

    /// The oneofs of this message type, in order.
    pub fn oneofs(&self) -> (r: Vec<OneofDescriptor<'a>>)
        ensures
            r@.len() == self.data().oneofs@.len(),
            forall|k: int| 0 <= k < r@.len() ==> (#[trigger] r@[k]).message_view() == *self
                && r@[k].index_view() == k,
    {
        let m = self.inner();
        let mut r: Vec<OneofDescriptor<'a>> = Vec::new();
        let mut k: usize = 0;
        while k < m.oneofs.len()
            invariant
                k <= m.oneofs@.len(),
                *m == self.data(),
                self.index_view() < self.pool_view().messages@.len(),
                r@.len() == k,
                forall|j: int| 0 <= j < k ==> (#[trigger] r@[j]).message_view() == *self && r@[j].index_view() == j,
            decreases m.oneofs@.len() - k,
        {
            r.push(OneofDescriptor { message: *self, index: k });
            k += 1;
        }
        r
    }

    /// The field numbered `number`, if any.
    pub fn get_field(&self, number: u32) -> (r: Option<FieldDescriptor<'a>>)
        ensures
            match r {
                Some(f) => f.message_view() == *self && f.index_view() < self.data().fields@.len()
                    && self.data().fields@[f.index_view() as int].number == number && exists|k: int|
                    0 <= k < self.data().field_numbers@.len() && #[trigger] self.data().field_numbers@[k].0 == number
                        && f.index_view() == self.data().field_numbers@[k].1,
                None => forall|k: int|
                    0 <= k < self.data().field_numbers@.len() ==> #[trigger] self.data().field_numbers@[k].0 != number,
            },
    {
        let m = self.inner();
        let mut k: usize = 0;
        while k < m.field_numbers.len()
            invariant
                k <= m.field_numbers@.len(),
                *m == self.data(),
                self.index_view() < self.pool_view().messages@.len(),
                crate::wf::message_shape_ok(self.data(), crate::wf::sizes(self.pool_view())),
                crate::link::numbers_name_fields(self.data()),
                forall|j: int| 0 <= j < k ==> #[trigger] self.data().field_numbers@[j].0 != number,
            decreases m.field_numbers@.len() - k,
        {
            if m.field_numbers[k].0 == number {
                return Some(FieldDescriptor { message: *self, index: m.field_numbers[k].1 as usize });
            }
            k += 1;
        }
        None
    }

    /// The first field named `name`, if any.
    pub fn get_field_by_name(&self, name: &str) -> (r: Option<FieldDescriptor<'a>>)
        ensures
            match r {
                Some(f) => f.message_view() == *self && 0 <= f.index_view() < self.data().fields@.len()
                    && self.data().fields@[f.index_view()].id.name@ == name@ && forall|k: int|
                    0 <= k < f.index_view() ==> #[trigger] self.data().fields@[k].id.name@ != name@,
                None => forall|k: int| 0 <= k < self.data().fields@.len() ==> #[trigger] self.data().fields@[k].id.name@ != name@,
            },
    {
        let m = self.inner();
        let mut k: usize = 0;
        while k < m.fields.len()
            invariant
                k <= m.fields@.len(),
                *m == self.data(),
                self.index_view() < self.pool_view().messages@.len(),
                crate::visit::counts_fit(crate::wf::sizes(self.pool_view())),
                forall|j: int| 0 <= j < k ==> #[trigger] self.data().fields@[j].id.name@ != name@,
            decreases m.fields@.len() - k,
        {
            if crate::text::str_eq(m.fields[k].id.name.as_str(), name) {
                return Some(FieldDescriptor { message: *self, index: k });
            }
            k += 1;
        }
        None
    }
}

} // verus!

verus! {

impl<'a> FieldDescriptor<'a> {
    /// The handle refers to a field of a message type of its pool.
    #[verifier::type_invariant]
    spec fn in_pool(self) -> bool {
        &&& self.message.index < self.message.pool@.messages@.len()
        &&& self.index < self.message.pool@.messages@[self.message.index as int].fields@.len()
    }

    /// The message type this field belongs to.
    pub closed spec fn message_view(self) -> MessageDescriptor<'a> {
        self.message
    }

    /// The index of this field among the fields of its message type.
    pub closed spec fn index_view(self) -> int {
        self.index as int
    }

    /// This field as the pool holds it.
    pub open spec fn data(self) -> FieldDescriptorInner {
        self.message_view().data().fields@[self.index_view()]
    }
}

impl<'a> OneofDescriptor<'a> {
    /// The handle refers to a oneof of a message type of its pool.
    #[verifier::type_invariant]
    spec fn in_pool(self) -> bool {
        &&& self.message.index < self.message.pool@.messages@.len()
        &&& self.index < self.message.pool@.messages@[self.message.index as int].oneofs@.len()
    }

    /// The message type this oneof belongs to.
    pub closed spec fn message_view(self) -> MessageDescriptor<'a> {
        self.message
    }

    /// The index of this oneof among the oneofs of its message type.
    pub closed spec fn index_view(self) -> int {
        self.index as int
    }

    /// This oneof as the pool holds it.
    pub open spec fn data(self) -> OneofDescriptorInner {
        self.message_view().data().oneofs@[self.index_view()]
    }
}

} // verus!

verus! {

/// The start of a range as a descriptor gives it, 0 when unset.
pub open spec fn range_bound(b: Option<i32>) -> i32 {
    match b {
        Some(v) => v,
        None => 0,
    }
}

impl<'a> MessageDescriptor<'a> {
    /// The first field whose JSON name is `json_name`, if any.
    pub fn get_field_by_json_name(&self, json_name: &str) -> (r: Option<FieldDescriptor<'a>>)
        ensures
            match r {
                Some(f) => f.message_view() == *self && 0 <= f.index_view() < self.data().fields@.len()
                    && self.data().fields@[f.index_view()].json_name@ == json_name@ && forall|k: int|
                    0 <= k < f.index_view() ==> #[trigger] self.data().fields@[k].json_name@ != json_name@,
                None => forall|k: int|
                    0 <= k < self.data().fields@.len() ==> #[trigger] self.data().fields@[k].json_name@ != json_name@,
            },
    {
        let m = self.inner();
        let mut k: usize = 0;
        while k < m.fields.len()
            invariant
                k <= m.fields@.len(),
                *m == self.data(),
                self.index_view() < self.pool_view().messages@.len(),
                forall|j: int| 0 <= j < k ==> #[trigger] self.data().fields@[j].json_name@ != json_name@,
            decreases m.fields@.len() - k,
        {
            if crate::text::str_eq(m.fields[k].json_name.as_str(), json_name) {
                return Some(FieldDescriptor { message: *self, index: k });
            }
            k += 1;
        }
        None
    }

    /// The message types nested in this one, in order.
    pub fn child_messages(&self) -> (r: Vec<MessageDescriptor<'a>>)
        ensures
            r@.len() == indices_where(
                self.pool_view().messages@.len() as int,
                |j: int| self.pool_view().messages@[j].parent == Some(self.index_view() as u32),
            ).len(),
            forall|k: int| 0 <= k < r@.len() ==> (#[trigger] r@[k]).pool_view() == self.pool_view()
                && r@[k].index_view() == indices_where(
                self.pool_view().messages@.len() as int,
                |j: int| self.pool_view().messages@[j].parent == Some(self.index_view() as u32),
            )[k],
    {
        proof {
            use_type_invariant(self);
        }
        let pool = self.pool;
        let inner = pool.inner();
        let ghost pred = |j: int| self.pool_view().messages@[j].parent == Some(self.index_view() as u32);
        let mut r: Vec<MessageDescriptor<'a>> = Vec::new();
        let mut j: usize = 0;
        while j < inner.messages.len()
            invariant
                j <= inner.messages@.len(),
                *inner == pool@,
                pool@ == self.pool_view(),
                crate::visit::counts_fit(crate::wf::sizes(pool@)),
                pred == (|j: int| self.pool_view().messages@[j].parent == Some(self.index_view() as u32)),
                r@.len() == indices_where(j as int, pred).len(),
                forall|k: int| 0 <= k < r@.len() ==> (#[trigger] r@[k]).pool_view() == self.pool_view()
                    && r@[k].index_view() == indices_where(j as int, pred)[k],
            decreases inner.messages@.len() - j,
        {
            if inner.messages[j].parent == Some(self.index) {
                r.push(MessageDescriptor { pool, index: j as u32 });
            }
            j += 1;
        }
        r
    }

    /// The enum types nested in this message type, in order.
    pub fn child_enums(&self) -> (r: Vec<EnumDescriptor<'a>>)
        ensures
            r@.len() == indices_where(
                self.pool_view().enums@.len() as int,
                |j: int| self.pool_view().enums@[j].parent == Some(self.index_view() as u32),
            ).len(),
            forall|k: int| 0 <= k < r@.len() ==> (#[trigger] r@[k]).pool_view() == self.pool_view()
                && r@[k].index_view() == indices_where(
                self.pool_view().enums@.len() as int,
                |j: int| self.pool_view().enums@[j].parent == Some(self.index_view() as u32),
            )[k],
    {
        proof {
            use_type_invariant(self);
        }
        let pool = self.pool;
        let inner = pool.inner();
        let ghost pred = |j: int| self.pool_view().enums@[j].parent == Some(self.index_view() as u32);
        let mut r: Vec<EnumDescriptor<'a>> = Vec::new();
        let mut j: usize = 0;
        while j < inner.enums.len()
            invariant
                j <= inner.enums@.len(),
                *inner == pool@,
                pool@ == self.pool_view(),
                crate::visit::counts_fit(crate::wf::sizes(pool@)),
                pred == (|j: int| self.pool_view().enums@[j].parent == Some(self.index_view() as u32)),
                r@.len() == indices_where(j as int, pred).len(),
                forall|k: int| 0 <= k < r@.len() ==> (#[trigger] r@[k]).pool_view() == self.pool_view()
                    && r@[k].index_view() == indices_where(j as int, pred)[k],
            decreases inner.enums@.len() - j,
        {
            if inner.enums[j].parent == Some(self.index) {
                r.push(EnumDescriptor { pool, index: j as u32 });
            }
            j += 1;
        }
        r
    }

    /// The extensions defined nested in this message type, in order.
    pub fn child_extensions(&self) -> (r: Vec<ExtensionDescriptor<'a>>)
        ensures
            r@.len() == indices_where(
                self.pool_view().extensions@.len() as int,
                |j: int| self.pool_view().extensions@[j].parent == Some(self.index_view() as u32),
            ).len(),
            forall|k: int| 0 <= k < r@.len() ==> (#[trigger] r@[k]).pool_view() == self.pool_view()
                && r@[k].index_view() == indices_where(
                self.pool_view().extensions@.len() as int,
                |j: int| self.pool_view().extensions@[j].parent == Some(self.index_view() as u32),
            )[k],
    {
        proof {
            use_type_invariant(self);
        }
        let pool = self.pool;
        let inner = pool.inner();
        let ghost pred = |j: int| self.pool_view().extensions@[j].parent == Some(self.index_view() as u32);
        let mut r: Vec<ExtensionDescriptor<'a>> = Vec::new();
        let mut j: usize = 0;
        while j < inner.extensions.len()
            invariant
                j <= inner.extensions@.len(),
                *inner == pool@,
                pool@ == self.pool_view(),
                crate::visit::counts_fit(crate::wf::sizes(pool@)),
                pred == (|j: int| self.pool_view().extensions@[j].parent == Some(self.index_view() as u32)),
                r@.len() == indices_where(j as int, pred).len(),
                forall|k: int| 0 <= k < r@.len() ==> (#[trigger] r@[k]).pool_view() == self.pool_view()
                    && r@[k].index_view() == indices_where(j as int, pred)[k],
            decreases inner.extensions@.len() - j,
        {
            if inner.extensions[j].parent == Some(self.index) {
                r.push(ExtensionDescriptor { pool, index: j as u32 });
            }
            j += 1;
        }
        r
    }

    /// The extensions of this message type defined anywhere in the pool, in
    /// the order they were added; an index left over from a failed add that
    /// names no extension of the pool is skipped.
    pub fn extensions(&self) -> (r: Vec<ExtensionDescriptor<'a>>)
        ensures
            r@.len() == self.data().extensions@.filter(|e: u32| e < self.pool_view().extensions@.len()).len(),
            forall|k: int| 0 <= k < r@.len() ==> (#[trigger] r@[k]).pool_view() == self.pool_view()
                && r@[k].index_view() == self.data().extensions@.filter(
                |e: u32| e < self.pool_view().extensions@.len(),
            )[k],
    {
        let m = self.inner();
        let pool = self.pool;
        let inner = pool.inner();
        let n = inner.extensions.len();
        let ghost pred = |e: u32| e < self.pool_view().extensions@.len();
        let ghost xs = self.data().extensions@;
        let mut r: Vec<ExtensionDescriptor<'a>> = Vec::new();
        let mut k: usize = 0;
        proof {
            reveal(Seq::filter);
            assert(xs.take(0) =~= Seq::<u32>::empty());
        }
        while k < m.extensions.len()
            invariant
                k <= m.extensions@.len(),
                *m == self.data(),
                xs == m.extensions@,
                *inner == pool@,
                pool@ == self.pool_view(),
                n == pool@.extensions@.len(),
                pred == (|e: u32| e < self.pool_view().extensions@.len()),
                r@.len() == xs.take(k as int).filter(pred).len(),
                forall|j: int| 0 <= j < r@.len() ==> (#[trigger] r@[j]).pool_view() == self.pool_view()
                    && r@[j].index_view() == xs.take(k as int).filter(pred)[j],
            decreases m.extensions@.len() - k,
        {
            proof {
                reveal(Seq::filter);
                assert(xs.take(k + 1).drop_last() =~= xs.take(k as int));
                assert(xs.take(k + 1).last() == xs[k as int]);
            }
            let e = m.extensions[k];
            if (e as usize) < n {
                r.push(ExtensionDescriptor { pool, index: e });
            }
            k += 1;
        }
        proof {
            assert(xs.take(xs.len() as int) =~= xs);
        }
        r
    }

    /// The field numbered 1 of a map entry type, its key.
    pub fn map_entry_key_field(&self) -> (r: FieldDescriptor<'a>)
        requires
            exists|k: int| 0 <= k < self.data().field_numbers@.len() && #[trigger] self.data().field_numbers@[k].0 == 1,
        ensures
            r.message_view() == *self,
            exists|k: int|
                0 <= k < self.data().field_numbers@.len() && #[trigger] self.data().field_numbers@[k].0 == 1
                    && r.index_view() == self.data().field_numbers@[k].1,
    {
        let f = self.get_field(1);
        proof {
            if f is None {
                let k = choose|k: int| 0 <= k < self.data().field_numbers@.len() && #[trigger] self.data().field_numbers@[k].0 == 1;
                assert(self.data().field_numbers@[k].0 != 1);
            }
        }
        f.unwrap()
    }

    /// The field numbered 2 of a map entry type, its value.
    pub fn map_entry_value_field(&self) -> (r: FieldDescriptor<'a>)
        requires
            exists|k: int| 0 <= k < self.data().field_numbers@.len() && #[trigger] self.data().field_numbers@[k].0 == 2,
        ensures
            r.message_view() == *self,
            exists|k: int|
                0 <= k < self.data().field_numbers@.len() && #[trigger] self.data().field_numbers@[k].0 == 2
                    && r.index_view() == self.data().field_numbers@[k].1,
    {
        let f = self.get_field(2);
        proof {
            if f is None {
                let k = choose|k: int| 0 <= k < self.data().field_numbers@.len() && #[trigger] self.data().field_numbers@[k].0 == 2;
                assert(self.data().field_numbers@[k].0 != 2);
            }
        }
        f.unwrap()
    }
}

} // verus!

verus! {

impl<'a> ExtensionDescriptor<'a> {
    /// The handle refers to an extension of its pool.
    #[verifier::type_invariant]
    spec fn in_pool(self) -> bool {
        self.index < self.pool@.extensions@.len()
    }

    /// What the pool of this extension holds.
    pub closed spec fn pool_view(self) -> DescriptorPoolInner {
        self.pool@
    }

    /// The index of this extension in its pool.
    pub closed spec fn index_view(self) -> int {
        self.index as int
    }

    /// This extension as the pool holds it.
    pub open spec fn data(self) -> ExtensionDescriptorInner {
        self.pool_view().extensions@[self.index_view()]
    }
}

impl<'a> EnumDescriptor<'a> {
    /// The handle refers to an enum type of its pool.
    #[verifier::type_invariant]
    spec fn in_pool(self) -> bool {
        self.index < self.pool@.enums@.len()
    }

    /// What the pool of this enum type holds.
    pub closed spec fn pool_view(self) -> DescriptorPoolInner {
        self.pool@
    }

    /// The index of this enum type in its pool.
    pub closed spec fn index_view(self) -> int {
        self.index as int
    }

    /// This enum type as the pool holds it.
    pub open spec fn data(self) -> EnumDescriptorInner {
        self.pool_view().enums@[self.index_view()]
    }
}

impl<'a> EnumValueDescriptor<'a> {
    /// The handle refers to a value of an enum type of its pool.
    #[verifier::type_invariant]
    spec fn in_pool(self) -> bool {
        &&& self.parent.index < self.parent.pool@.enums@.len()
        &&& self.index < self.parent.pool@.enums@[self.parent.index as int].values@.len()
    }

    /// The enum type this value belongs to.
    pub closed spec fn enum_view(self) -> EnumDescriptor<'a> {
        self.parent
    }

    /// The index of this value among the values of its enum type.
    pub closed spec fn index_view(self) -> int {
        self.index as int
    }

    /// This value as the pool holds it.
    pub open spec fn data(self) -> EnumValueDescriptorInner {
        self.enum_view().data().values@[self.index_view()]
    }
}

impl<'a> ServiceDescriptor<'a> {
    /// The handle refers to a service of its pool.
    #[verifier::type_invariant]
    spec fn in_pool(self) -> bool {
        self.index < self.pool@.services@.len()
    }

    /// What the pool of this service holds.
    pub closed spec fn pool_view(self) -> DescriptorPoolInner {
        self.pool@
    }

    /// The index of this service in its pool.
    pub closed spec fn index_view(self) -> int {
        self.index as int
    }

    /// This service as the pool holds it.
    pub open spec fn data(self) -> ServiceDescriptorInner {
        self.pool_view().services@[self.index_view()]
    }
}

impl<'a> MethodDescriptor<'a> {
    /// The handle refers to a method of a service of its pool.
    #[verifier::type_invariant]
    spec fn in_pool(self) -> bool {
        &&& self.service.index < self.service.pool@.services@.len()
        &&& self.index < self.service.pool@.services@[self.service.index as int].methods@.len()
    }

    /// The service this method belongs to.
    pub closed spec fn service_view(self) -> ServiceDescriptor<'a> {
        self.service
    }

    /// The index of this method among the methods of its service.
    pub closed spec fn index_view(self) -> int {
        self.index as int
    }

    /// This method as the pool holds it.
    pub open spec fn data(self) -> MethodDescriptorInner {
        self.service_view().data().methods@[self.index_view()]
    }
}

} // verus!

verus! {

/// The type of a field.
#[derive(Clone, Copy)]
pub enum Kind<'a> {
    Double,
    Float,
    Int32,
    Int64,
    Uint32,
    Uint64,
    Sint32,
    Sint64,
    Fixed32,
    Fixed64,
    Sfixed32,
    Sfixed64,
    Bool,
    String,
    Bytes,
    /// A message type, also for fields encoded as groups.
    Message(MessageDescriptor<'a>),
    /// An enum type.
    Enum(EnumDescriptor<'a>),
}

/// Whether `k` is the type `kind` stands for in a pool holding `pool`.
pub open spec fn kind_is(k: Kind, kind: KindIndex, pool: DescriptorPoolInner) -> bool {
    match kind {
        KindIndex::Double => k is Double,
        KindIndex::Float => k is Float,
        KindIndex::Int32 => k is Int32,
        KindIndex::Int64 => k is Int64,
        KindIndex::Uint32 => k is Uint32,
        KindIndex::Uint64 => k is Uint64,
        KindIndex::Sint32 => k is Sint32,
        KindIndex::Sint64 => k is Sint64,
        KindIndex::Fixed32 => k is Fixed32,
        KindIndex::Fixed64 => k is Fixed64,
        KindIndex::Sfixed32 => k is Sfixed32,
        KindIndex::Sfixed64 => k is Sfixed64,
        KindIndex::Bool => k is Bool,
        KindIndex::String => k is String,
        KindIndex::Bytes => k is Bytes,
        KindIndex::Message(m) => k matches Kind::Message(d) && d.pool_view() == pool && d.index_view() == m,
        KindIndex::Group(m) => k matches Kind::Message(d) && d.pool_view() == pool && d.index_view() == m,
        KindIndex::Enum(e) => k matches Kind::Enum(d) && d.pool_view() == pool && d.index_view() == e,
    }
}

impl<'a> Kind<'a> {
    /// The type `kind` stands for in `pool`.
    pub fn new(pool: &'a DescriptorPool, kind: KindIndex) -> (r: Kind<'a>)
        requires
            crate::wf::kind_index_below(kind, crate::wf::sizes(pool@)),
        ensures
            kind_is(r, kind, pool@),
    {
        match kind {
            KindIndex::Double => Kind::Double,
            KindIndex::Float => Kind::Float,
            KindIndex::Int32 => Kind::Int32,
            KindIndex::Int64 => Kind::Int64,
            KindIndex::Uint32 => Kind::Uint32,
            KindIndex::Uint64 => Kind::Uint64,
            KindIndex::Sint32 => Kind::Sint32,
            KindIndex::Sint64 => Kind::Sint64,
            KindIndex::Fixed32 => Kind::Fixed32,
            KindIndex::Fixed64 => Kind::Fixed64,
            KindIndex::Sfixed32 => Kind::Sfixed32,
            KindIndex::Sfixed64 => Kind::Sfixed64,
            KindIndex::Bool => Kind::Bool,
            KindIndex::String => Kind::String,
            KindIndex::Bytes => Kind::Bytes,
            KindIndex::Message(m) | KindIndex::Group(m) => Kind::Message(MessageDescriptor { pool, index: m }),
            KindIndex::Enum(e) => Kind::Enum(EnumDescriptor { pool, index: e }),
        }
    }

    /// The message type, if this is one.
    pub fn as_message(&self) -> (r: Option<&MessageDescriptor<'a>>)
        ensures
            match *self {
                Kind::Message(d) => r == Some(&d),
                _ => r is None,
            },
    {
        match self {
            Kind::Message(d) => Some(d),
            _ => None,
        }
    }

    /// The enum type, if this is one.
    pub fn as_enum(&self) -> (r: Option<&EnumDescriptor<'a>>)
        ensures
            match *self {
                Kind::Enum(d) => r == Some(&d),
                _ => r is None,
            },
    {
        match self {
            Kind::Enum(d) => Some(d),
            _ => None,
        }
    }

    /// The wire type values of this type are encoded with; messages use the
    /// length-delimited encoding.
    pub fn wire_type(&self) -> (r: crate::kind::WireType)
        ensures
            r == match *self {
                Kind::Double | Kind::Fixed64 | Kind::Sfixed64 => crate::kind::WireType::SixtyFourBit,
                Kind::Float | Kind::Fixed32 | Kind::Sfixed32 => crate::kind::WireType::ThirtyTwoBit,
                Kind::Enum(_) | Kind::Int32 | Kind::Int64 | Kind::Uint32 | Kind::Uint64 | Kind::Sint32
                | Kind::Sint64 | Kind::Bool => crate::kind::WireType::Varint,
                Kind::String | Kind::Bytes | Kind::Message(_) => crate::kind::WireType::LengthDelimited,
            },
    {
        match self {
            Kind::Double | Kind::Fixed64 | Kind::Sfixed64 => crate::kind::WireType::SixtyFourBit,
            Kind::Float | Kind::Fixed32 | Kind::Sfixed32 => crate::kind::WireType::ThirtyTwoBit,
            Kind::Enum(_) | Kind::Int32 | Kind::Int64 | Kind::Uint32 | Kind::Uint64 | Kind::Sint32 | Kind::Sint64
            | Kind::Bool => crate::kind::WireType::Varint,
            Kind::String | Kind::Bytes | Kind::Message(_) => crate::kind::WireType::LengthDelimited,
        }
    }
}

/// The element at the last index of `path` in `items`, if that index is in range.
pub open spec fn at_last<T>(items: Seq<T>, path: Seq<i32>) -> Option<T> {
    if path.len() > 0 && 0 <= path.last() < items.len() {
        Some(items[path.last() as int])
    } else {
        None
    }
}

impl<'a> FieldDescriptor<'a> {
    fn inner(&self) -> (r: &'a FieldDescriptorInner)
        ensures
            *r == self.data(),
            self.message_view().index_view() < self.message_view().pool_view().messages@.len(),
            self.index_view() < self.message_view().data().fields@.len(),
            crate::wf::message_shape_ok(self.message_view().data(), crate::wf::sizes(self.message_view().pool_view())),
    {
        proof {
            use_type_invariant(self);
        }
        let m = self.message.inner();
        &m.fields[self.index]
    }

    /// The pool this field is defined in.
    pub fn parent_pool(&self) -> (r: &'a DescriptorPool)
        ensures
            r@ == self.message_view().pool_view(),
    {
        self.message.parent_pool()
    }

    /// The file this field is defined in.
    pub fn parent_file(&self) -> (r: FileDescriptor<'a>)
        ensures
            r.pool_view() == self.message_view().pool_view(),
            r.index_view() == self.message_view().data().id.file,
    {
        self.message.parent_file()
    }

    /// The message type this field belongs to.
    pub fn parent_message(&self) -> (r: &MessageDescriptor<'a>)
        ensures
            *r == self.message_view(),
    {
        &self.message
    }

    /// The short name of this field, e.g. `my_field`.
    pub fn name(&self) -> (r: &'a str)
        ensures
            r@ == self.data().id.name@,
    {
        self.inner().id.name()
    }

    /// The full name of this field, e.g. `my.package.MyMessage.my_field`.
    pub fn full_name(&self) -> (r: &'a str)
        ensures
            r@ == self.data().id.full_name@,
    {
        self.inner().id.full_name()
    }

    /// Where this field is defined in its file descriptor, e.g. `[4, 0, 2, 0]`.
    pub fn path(&self) -> (r: &'a [i32])
        ensures
            r@ == self.data().id.path@,
    {
        self.inner().id.path.as_slice()
    }

    /// The descriptor this field was built from, found by its path.
    pub fn field_descriptor_proto(&self) -> (r: Option<&'a crate::types::FieldDescriptorProto>)
        ensures
            match message_at(self.message_view().raw_file(), self.message_view().data().id.path@) {
                Some(m) => match at_last(m.field@, self.data().id.path@) {
                    Some(f) => r == Some(&f),
                    None => r is None,
                },
                None => r is None,
            },
    {
        match self.message.descriptor_proto() {
            Some(m) => {
                let p = self.path();
                if p.len() > 0 && p[p.len() - 1] >= 0 && (p[p.len() - 1] as usize) < m.field.len() {
                    Some(&m.field[p[p.len() - 1] as usize])
                } else {
                    None
                }
            },
            None => None,
        }
    }

    /// The number of this field.
    pub fn number(&self) -> (r: u32)
        ensures
            r == self.data().number,
    {
        self.inner().number
    }

    /// The name of this field in JSON: the camel-case form of its name unless
    /// the file sets another.
    pub fn json_name(&self) -> (r: &'a str)
        ensures
            r@ == self.data().json_name@,
    {
        self.inner().json_name.as_str()
    }

    /// Whether this field is encoded as a group.
    pub fn is_group(&self) -> (r: bool)
        ensures
            r == self.data().kind is Group,
    {
        match self.inner().kind {
            KindIndex::Group(_) => true,
            _ => false,
        }
    }

    /// Whether this field holds a map: it is repeated and its type is a map
    /// entry type.
    pub fn is_map(&self) -> (r: bool)
        ensures
            r == (self.data().cardinality == Cardinality::Repeated && match self.data().kind {
                KindIndex::Message(m) | KindIndex::Group(m) => {
                    let t = self.message_view().pool_view().messages@[m as int];
                    let f = self.message_view().pool_view().files@[t.id.file as int].raw;
                    message_at(f, t.id.path@) matches Some(d) && d.options matches Some(o) && o.map_entry
                        == Some(true)
                },
                _ => false,
            }),
    {
        let f = self.inner();
        if f.cardinality != Cardinality::Repeated {
            return false;
        }
        match self.kind() {
            Kind::Message(m) => m.is_map_entry(),
            _ => false,
        }
    }

    /// Whether this field holds a list: it is repeated and not a map.
    pub fn is_list(&self) -> (r: bool)
        ensures
            r == (self.data().cardinality == Cardinality::Repeated && !(match self.data().kind {
                KindIndex::Message(m) | KindIndex::Group(m) => {
                    let t = self.message_view().pool_view().messages@[m as int];
                    let f = self.message_view().pool_view().files@[t.id.file as int].raw;
                    message_at(f, t.id.path@) matches Some(d) && d.options matches Some(o) && o.map_entry
                        == Some(true)
                },
                _ => false,
            })),
    {
        self.inner().cardinality == Cardinality::Repeated && !self.is_map()
    }

    /// Whether this list field uses the packed encoding.
    pub fn is_packed(&self) -> (r: bool)
        ensures
            r == self.data().is_packed,
    {
        self.inner().is_packed
    }

    /// The cardinality of this field.
    pub fn cardinality(&self) -> (r: Cardinality)
        ensures
            r == self.data().cardinality,
    {
        self.inner().cardinality
    }

    /// Whether this field tells an unset value from the default value.
    pub fn supports_presence(&self) -> (r: bool)
        ensures
            r == self.data().supports_presence,
    {
        self.inner().supports_presence
    }

    /// The type of this field.
    pub fn kind(&self) -> (r: Kind<'a>)
        ensures
            kind_is(r, self.data().kind, self.message_view().pool_view()),
    {
        let f = self.inner();
        proof {
            assert(crate::wf::kind_index_below(f.kind, crate::wf::sizes(self.message_view().pool_view())));
        }
        Kind::new(self.message.parent_pool(), f.kind)
    }

    /// The oneof this field belongs to, if any.
    pub fn containing_oneof(&self) -> (r: Option<OneofDescriptor<'a>>)
        ensures
            match self.data().oneof {
                Some(o) => r matches Some(d) && d.message_view() == self.message_view() && d.index_view() == o,
                None => r is None,
            },
    {
        let f = self.inner();
        proof {
            assert(crate::wf::kind_index_below(f.kind, crate::wf::sizes(self.message_view().pool_view())));
        }
        match f.oneof {
            Some(o) => Some(OneofDescriptor { message: self.message, index: o as usize }),
            None => None,
        }
    }
}

impl<'a> OneofDescriptor<'a> {
    fn inner(&self) -> (r: &'a OneofDescriptorInner)
        ensures
            *r == self.data(),
            self.message_view().index_view() < self.message_view().pool_view().messages@.len(),
            self.index_view() < self.message_view().data().oneofs@.len(),
            crate::wf::message_shape_ok(self.message_view().data(), crate::wf::sizes(self.message_view().pool_view())),
    {
        proof {
            use_type_invariant(self);
        }
        let m = self.message.inner();
        &m.oneofs[self.index]
    }

    /// The pool this oneof is defined in.
    pub fn parent_pool(&self) -> (r: &'a DescriptorPool)
        ensures
            r@ == self.message_view().pool_view(),
    {
        self.message.parent_pool()
    }

    /// The file this oneof is defined in.
    pub fn parent_file(&self) -> (r: FileDescriptor<'a>)
        ensures
            r.pool_view() == self.message_view().pool_view(),
            r.index_view() == self.message_view().data().id.file,
    {
        self.message.parent_file()
    }

    /// The message type this oneof belongs to.
    pub fn parent_message(&self) -> (r: &MessageDescriptor<'a>)
        ensures
            *r == self.message_view(),
    {
        &self.message
    }

    /// The short name of this oneof, e.g. `my_oneof`.
    pub fn name(&self) -> (r: &'a str)
        ensures
            r@ == self.data().id.name@,
    {
        self.inner().id.name()
    }

    /// The full name of this oneof, e.g. `my.package.MyMessage.my_oneof`.
    pub fn full_name(&self) -> (r: &'a str)
        ensures
            r@ == self.data().id.full_name@,
    {
        self.inner().id.full_name()
    }

    /// Where this oneof is defined in its file descriptor, e.g. `[4, 0, 8, 0]`.
    pub fn path(&self) -> (r: &'a [i32])
        ensures
            r@ == self.data().id.path@,
    {
        self.inner().id.path.as_slice()
    }

    /// The descriptor this oneof was built from.
    pub fn oneof_descriptor_proto(&self) -> (r: Option<&'a crate::types::OneofDescriptorProto>)
        ensures
            match message_at(self.message_view().raw_file(), self.message_view().data().id.path@) {
                Some(m) => if self.index_view() < m.oneof_decl@.len() {
                    r == Some(&m.oneof_decl@[self.index_view()])
                } else {
                    r is None
                },
                None => r is None,
            },
    {
        match self.message.descriptor_proto() {
            Some(m) => if self.index < m.oneof_decl.len() {
                Some(&m.oneof_decl[self.index])
            } else {
                None
            },
            None => None,
        }
    }

    /// The fields of the message type that this oneof holds, in order.
    pub fn fields(&self) -> (r: Vec<FieldDescriptor<'a>>)
        ensures
            r@.len() == self.data().fields@.len(),
            forall|k: int| 0 <= k < r@.len() ==> (#[trigger] r@[k]).message_view() == self.message_view()
                && r@[k].index_view() == self.data().fields@[k],
    {
        let o = self.inner();
        let mut r: Vec<FieldDescriptor<'a>> = Vec::new();
        let mut k: usize = 0;
        while k < o.fields.len()
            invariant
                k <= o.fields@.len(),
                *o == self.data(),
                self.message_view().index_view() < self.message_view().pool_view().messages@.len(),
                self.index_view() < self.message_view().data().oneofs@.len(),
                crate::wf::message_shape_ok(self.message_view().data(), crate::wf::sizes(self.message_view().pool_view())),
                r@.len() == k,
                forall|j: int| 0 <= j < k ==> (#[trigger] r@[j]).message_view() == self.message_view()
                    && r@[j].index_view() == self.data().fields@[j],
            decreases o.fields@.len() - k,
        {
            proof {
                assert(self.message_view().data().oneofs@[self.index_view()].fields@[k as int]
                    < self.message_view().data().fields@.len());
            }
            r.push(FieldDescriptor { message: self.message, index: o.fields[k] as usize });
            k += 1;
        }
        r
    }
}

} // verus!

verus! {

/// The enum a path of a file leads to: `[5, i]` is the `i`-th top-level enum,
/// and a message path followed by `[4, j]` the `j`-th enum nested in it.
pub open spec fn enum_at(file: FileDescriptorProto, path: Seq<i32>) -> Option<crate::types::EnumDescriptorProto> {
    if path.len() == 2 {
        if path[0] == crate::tag::FILE_ENUM_TYPE && 0 <= path[1] < file.enum_type@.len() {
            Some(file.enum_type@[path[1] as int])
        } else {
            None
        }
    } else if path.len() > 2 {
        match message_at(file, path.take(path.len() - 2)) {
            Some(m) => if path[path.len() - 2] == crate::tag::MESSAGE_ENUM_TYPE && 0 <= path[path.len() - 1]
                < m.enum_type@.len() {
                Some(m.enum_type@[path[path.len() - 1] as int])
            } else {
                None
            },
            None => None,
        }
    } else {
        None
    }
}

/// The extension a path of a file leads to: `[7, i]` is the `i`-th top-level
/// extension, and a message path followed by `[6, j]` the `j`-th extension
/// nested in it.
pub open spec fn extension_at(file: FileDescriptorProto, path: Seq<i32>) -> Option<crate::types::FieldDescriptorProto> {
    if path.len() == 2 {
        if path[0] == crate::tag::FILE_EXTENSION && 0 <= path[1] < file.extension@.len() {
            Some(file.extension@[path[1] as int])
        } else {
            None
        }
    } else if path.len() > 2 {
        match message_at(file, path.take(path.len() - 2)) {
            Some(m) => if path[path.len() - 2] == crate::tag::MESSAGE_EXTENSION && 0 <= path[path.len() - 1]
                < m.extension@.len() {
                Some(m.extension@[path[path.len() - 1] as int])
            } else {
                None
            },
            None => None,
        }
    } else {
        None
    }
}

/// Follows a path of a file to the enum it leads to.
pub fn find_enum_proto<'b>(file: &'b FileDescriptorProto, path: &[i32]) -> (r: Option<&'b crate::types::EnumDescriptorProto>)
    ensures
        match r {
            Some(e) => enum_at(*file, path@) == Some(*e),
            None => enum_at(*file, path@) is None,
        },
{
    let n = path.len();
    if n == 2 {
        if path[0] == crate::tag::FILE_ENUM_TYPE && path[1] >= 0 && (path[1] as usize) < file.enum_type.len() {
            Some(&file.enum_type[path[1] as usize])
        } else {
            None
        }
    } else if n > 2 {
        let prefix = slice_prefix(path, n - 2);
        match find_message_proto(file, prefix) {
            Some(m) => {
                if path[n - 2] == crate::tag::MESSAGE_ENUM_TYPE && path[n - 1] >= 0 && (path[n - 1] as usize) < m.enum_type.len() {
                    Some(&m.enum_type[path[n - 1] as usize])
                } else {
                    None
                }
            },
            None => None,
        }
    } else {
        None
    }
}

/// Follows a path of a file to the extension it leads to.
pub fn find_extension_proto<'b>(file: &'b FileDescriptorProto, path: &[i32]) -> (r: Option<&'b crate::types::FieldDescriptorProto>)
    ensures
        match r {
            Some(e) => extension_at(*file, path@) == Some(*e),
            None => extension_at(*file, path@) is None,
        },
{
    let n = path.len();
    if n == 2 {
        if path[0] == crate::tag::FILE_EXTENSION && path[1] >= 0 && (path[1] as usize) < file.extension.len() {
            Some(&file.extension[path[1] as usize])
        } else {
            None
        }
    } else if n > 2 {
        let prefix = slice_prefix(path, n - 2);
        match find_message_proto(file, prefix) {
            Some(m) => {
                if path[n - 2] == crate::tag::MESSAGE_EXTENSION && path[n - 1] >= 0 && (path[n - 1] as usize) < m.extension.len() {
                    Some(&m.extension[path[n - 1] as usize])
                } else {
                    None
                }
            },
            None => None,
        }
    } else {
        None
    }
}

/// The first `n` elements of a slice.
fn slice_prefix<'b>(s: &'b [i32], n: usize) -> (r: &'b [i32])
    requires
        n <= s@.len(),
    ensures
        r@ == s@.take(n as int),
{
    vstd::slice::slice_subrange(s, 0, n)
}

} // verus!

verus! {

impl<'a> ExtensionDescriptor<'a> {
    fn inner(&self) -> (r: &'a ExtensionDescriptorInner)
        ensures
            *r == self.data(),
            self.index_view() < self.pool_view().extensions@.len(),
            crate::wf::extension_ok(self.data(), crate::wf::sizes(self.pool_view())),
    {
        proof {
            use_type_invariant(self);
        }
        let inner = self.pool.inner();
        &inner.extensions[self.index as usize]
    }

    /// The file descriptor this extension is defined in.
    pub open spec fn raw_file(self) -> FileDescriptorProto {
        self.pool_view().files@[self.data().id.file as int].raw
    }

    /// The pool this extension is defined in.
    pub fn parent_pool(&self) -> (r: &'a DescriptorPool)
        ensures
            r@ == self.pool_view(),
    {
        self.pool
    }

    /// The file this extension is defined in.
    pub fn parent_file(&self) -> (r: FileDescriptor<'a>)
        ensures
            r.pool_view() == self.pool_view(),
            r.index_view() == self.data().id.file,
    {
        let file = self.inner().id.file;
        FileDescriptor { pool: self.pool, index: file }
    }

    /// The message type this extension is nested in, if any; not the one it
    /// extends.
    pub fn parent_message(&self) -> (r: Option<MessageDescriptor<'a>>)
        ensures
            match self.data().parent {
                Some(p) => r matches Some(m) && m.pool_view() == self.pool_view() && m.index_view() == p,
                None => r is None,
            },
    {
        match self.inner().parent {
            Some(p) => Some(MessageDescriptor { pool: self.pool, index: p }),
            None => None,
        }
    }

    /// The short name of this extension, e.g. `my_extension`.
    pub fn name(&self) -> (r: &'a str)
        ensures
            r@ == self.data().id.name@,
    {
        self.inner().id.name()
    }

    /// The full name of this extension, e.g. `my.package.ParentMessage.my_extension`.
    pub fn full_name(&self) -> (r: &'a str)
        ensures
            r@ == self.data().id.full_name@,
    {
        self.inner().id.full_name()
    }

    /// The package this extension is defined in; empty when the file declares none.
    pub fn package_name(&self) -> (r: &'a str)
        ensures
            r@ == opt_str(self.raw_file().package),
    {
        let f = self.parent_file_descriptor_proto();
        crate::text::opt_str_or_empty(&f.package)
    }

    /// Where this extension is defined in its file descriptor, e.g. `[7, 0]`.
    pub fn path(&self) -> (r: &'a [i32])
        ensures
            r@ == self.data().id.path@,
    {
        self.inner().id.path.as_slice()
    }

    /// The file descriptor this extension is defined in.
    pub fn parent_file_descriptor_proto(&self) -> (r: &'a FileDescriptorProto)
        ensures
            *r == self.raw_file(),
    {
        let x = self.inner();
        let inner = self.pool.inner();
        &inner.files[x.id.file as usize].raw
    }

    /// The descriptor this extension was built from, found by its path.
    pub fn field_descriptor_proto(&self) -> (r: Option<&'a crate::types::FieldDescriptorProto>)
        ensures
            match r {
                Some(f) => extension_at(self.raw_file(), self.data().id.path@) == Some(*f),
                None => extension_at(self.raw_file(), self.data().id.path@) is None,
            },
    {
        let f = self.parent_file_descriptor_proto();
        find_extension_proto(f, self.path())
    }

    /// The number of this extension.
    pub fn number(&self) -> (r: u32)
        ensures
            r == self.data().number,
    {
        self.inner().number
    }

    /// The name of this extension in JSON, e.g. `[my.package.my_extension]`.
    pub fn json_name(&self) -> (r: &'a str)
        ensures
            r@ == self.data().json_name@,
    {
        self.inner().json_name.as_str()
    }

    /// Whether this extension is encoded as a group.
    pub fn is_group(&self) -> (r: bool)
        ensures
            r == self.data().kind is Group,
    {
        match self.inner().kind {
            KindIndex::Group(_) => true,
            _ => false,
        }
    }

    /// Whether this extension holds a map: it is repeated and its type is a
    /// map entry type.
    pub fn is_map(&self) -> (r: bool)
        ensures
            r == (self.data().cardinality == Cardinality::Repeated && match self.data().kind {
                KindIndex::Message(m) | KindIndex::Group(m) => {
                    let t = self.pool_view().messages@[m as int];
                    let f = self.pool_view().files@[t.id.file as int].raw;
                    message_at(f, t.id.path@) matches Some(d) && d.options matches Some(o) && o.map_entry
                        == Some(true)
                },
                _ => false,
            }),
    {
        let x = self.inner();
        if x.cardinality != Cardinality::Repeated {
            return false;
        }
        match self.kind() {
            Kind::Message(m) => m.is_map_entry(),
            _ => false,
        }
    }

    /// Whether this extension holds a list: it is repeated and not a map.
    pub fn is_list(&self) -> (r: bool)
        ensures
            r == (self.data().cardinality == Cardinality::Repeated && !(match self.data().kind {
                KindIndex::Message(m) | KindIndex::Group(m) => {
                    let t = self.pool_view().messages@[m as int];
                    let f = self.pool_view().files@[t.id.file as int].raw;
                    message_at(f, t.id.path@) matches Some(d) && d.options matches Some(o) && o.map_entry
                        == Some(true)
                },
                _ => false,
            })),
    {
        self.inner().cardinality == Cardinality::Repeated && !self.is_map()
    }

    /// Whether this list extension uses the packed encoding.
    pub fn is_packed(&self) -> (r: bool)
        ensures
            r == self.data().is_packed,
    {
        self.inner().is_packed
    }

    /// The cardinality of this extension.
    pub fn cardinality(&self) -> (r: Cardinality)
        ensures
            r == self.data().cardinality,
    {
        self.inner().cardinality
    }

    /// Whether this extension tells an unset value from the default value:
    /// exactly when it is not repeated.
    pub fn supports_presence(&self) -> (r: bool)
        ensures
            r == (self.data().cardinality != Cardinality::Repeated),
    {
        self.inner().cardinality != Cardinality::Repeated
    }

    /// The type of this extension.
    pub fn kind(&self) -> (r: Kind<'a>)
        ensures
            kind_is(r, self.data().kind, self.pool_view()),
    {
        let x = self.inner();
        Kind::new(self.pool, x.kind)
    }

    /// The message type this extension extends.
    pub fn containing_message(&self) -> (r: MessageDescriptor<'a>)
        ensures
            r.pool_view() == self.pool_view(),
            r.index_view() == self.data().extendee,
    {
        let x = self.inner();
        MessageDescriptor { pool: self.pool, index: x.extendee }
    }
}

impl<'a> EnumDescriptor<'a> {
    fn inner(&self) -> (r: &'a EnumDescriptorInner)
        ensures
            *r == self.data(),
            self.index_view() < self.pool_view().enums@.len(),
            crate::wf::enum_ok(self.data(), crate::wf::sizes(self.pool_view())),
            crate::link::values_sorted(self.data().value_numbers@),
            crate::link::numbers_name_values(self.data()),
    {
        proof {
            use_type_invariant(self);
        }
        let inner = self.pool.inner();
        &inner.enums[self.index as usize]
    }

    /// The file descriptor this enum type is defined in.
    pub open spec fn raw_file(self) -> FileDescriptorProto {
        self.pool_view().files@[self.data().id.file as int].raw
    }

    /// The pool this enum type is defined in.
    pub fn parent_pool(&self) -> (r: &'a DescriptorPool)
        ensures
            r@ == self.pool_view(),
    {
        self.pool
    }

    /// The file this enum type is defined in.
    pub fn parent_file(&self) -> (r: FileDescriptor<'a>)
        ensures
            r.pool_view() == self.pool_view(),
            r.index_view() == self.data().id.file,
    {
        let file = self.inner().id.file;
        FileDescriptor { pool: self.pool, index: file }
    }

    /// The message type this enum type is nested in, if any.
    pub fn parent_message(&self) -> (r: Option<MessageDescriptor<'a>>)
        ensures
            match self.data().parent {
                Some(p) => r matches Some(m) && m.pool_view() == self.pool_view() && m.index_view() == p,
                None => r is None,
            },
    {
        match self.inner().parent {
            Some(p) => Some(MessageDescriptor { pool: self.pool, index: p }),
            None => None,
        }
    }

    /// The short name of this enum type, e.g. `MyEnum`.
    pub fn name(&self) -> (r: &'a str)
        ensures
            r@ == self.data().id.name@,
    {
        self.inner().id.name()
    }

    /// The full name of this enum type, e.g. `my.package.MyEnum`.
    pub fn full_name(&self) -> (r: &'a str)
        ensures
            r@ == self.data().id.full_name@,
    {
        self.inner().id.full_name()
    }

    /// The package this enum type is defined in; empty when the file declares none.
    pub fn package_name(&self) -> (r: &'a str)
        ensures
            r@ == opt_str(self.raw_file().package),
    {
        let f = self.parent_file_descriptor_proto();
        crate::text::opt_str_or_empty(&f.package)
    }

    /// Where this enum type is defined in its file descriptor, e.g. `[5, 0]`.
    pub fn path(&self) -> (r: &'a [i32])
        ensures
            r@ == self.data().id.path@,
    {
        self.inner().id.path.as_slice()
    }

    /// The file descriptor this enum type is defined in.
    pub fn parent_file_descriptor_proto(&self) -> (r: &'a FileDescriptorProto)
        ensures
            *r == self.raw_file(),
    {
        let e = self.inner();
        let inner = self.pool.inner();
        &inner.files[e.id.file as usize].raw
    }

    /// The descriptor this enum type was built from, found by its path.
    pub fn enum_descriptor_proto(&self) -> (r: Option<&'a crate::types::EnumDescriptorProto>)
        ensures
            match r {
                Some(e) => enum_at(self.raw_file(), self.data().id.path@) == Some(*e),
                None => enum_at(self.raw_file(), self.data().id.path@) is None,
            },
    {
        let f = self.parent_file_descriptor_proto();
        find_enum_proto(f, self.path())
    }

    /// The default value of this enum type: its first value.
    pub fn default_value(&self) -> (r: EnumValueDescriptor<'a>)
        requires
            self.data().values@.len() > 0,
        ensures
            r.enum_view() == *self,
            r.index_view() == 0,
    {
        proof {
            use_type_invariant(self);
        }
        EnumValueDescriptor { parent: *self, index: 0 }
    }

    /// The first value named `name`, if any.
    pub fn get_value_by_name(&self, name: &str) -> (r: Option<EnumValueDescriptor<'a>>)
        ensures
            match r {
                Some(v) => v.enum_view() == *self && 0 <= v.index_view() < self.data().values@.len()
                    && self.data().values@[v.index_view()].id.name@ == name@ && forall|k: int|
                    0 <= k < v.index_view() ==> #[trigger] self.data().values@[k].id.name@ != name@,
                None => forall|k: int| 0 <= k < self.data().values@.len() ==> #[trigger] self.data().values@[k].id.name@ != name@,
            },
    {
        let e = self.inner();
        let mut k: usize = 0;
        while k < e.values.len()
            invariant
                k <= e.values@.len(),
                *e == self.data(),
                self.index_view() < self.pool_view().enums@.len(),
                forall|j: int| 0 <= j < k ==> #[trigger] self.data().values@[j].id.name@ != name@,
            decreases e.values@.len() - k,
        {
            if crate::text::str_eq(e.values[k].id.name.as_str(), name) {
                return Some(EnumValueDescriptor { parent: *self, index: k });
            }
            k += 1;
        }
        None
    }

    /// A value numbered `number`, if any; with aliases, the first of them in
    /// number order.
    pub fn get_value(&self, number: i32) -> (r: Option<EnumValueDescriptor<'a>>)
        ensures
            match r {
                Some(v) => v.enum_view() == *self && v.index_view() < self.data().values@.len()
                    && self.data().values@[v.index_view() as int].number == number && exists|k: int|
                    0 <= k < self.data().value_numbers@.len() && #[trigger] self.data().value_numbers@[k].0 == number
                        && v.index_view() == self.data().value_numbers@[k].1,
                None => forall|k: int|
                    0 <= k < self.data().value_numbers@.len() ==> #[trigger] self.data().value_numbers@[k].0 != number,
            },
    {
        let e = self.inner();
        let mut k: usize = 0;
        while k < e.value_numbers.len()
            invariant
                k <= e.value_numbers@.len(),
                *e == self.data(),
                self.index_view() < self.pool_view().enums@.len(),
                crate::wf::enum_ok(self.data(), crate::wf::sizes(self.pool_view())),
                crate::link::numbers_name_values(self.data()),
                forall|j: int| 0 <= j < k ==> #[trigger] self.data().value_numbers@[j].0 != number,
            decreases e.value_numbers@.len() - k,
        {
            if e.value_numbers[k].0 == number {
                return Some(EnumValueDescriptor { parent: *self, index: e.value_numbers[k].1 as usize });
            }
            k += 1;
        }
        None
    }

    /// The values of this enum type, ordered by number.
    pub fn values(&self) -> (r: Vec<EnumValueDescriptor<'a>>)
        ensures
            crate::link::values_sorted(self.data().value_numbers@),
            r@.len() == self.data().value_numbers@.len(),
            forall|k: int| 0 <= k < r@.len() ==> (#[trigger] r@[k]).enum_view() == *self
                && r@[k].index_view() == self.data().value_numbers@[k].1,
            forall|k: int| 0 <= k < r@.len() ==> (#[trigger] r@[k]).index_view() < self.data().values@.len()
                && self.data().values@[r@[k].index_view() as int].number == self.data().value_numbers@[k].0,
    {
        let e = self.inner();
        let mut r: Vec<EnumValueDescriptor<'a>> = Vec::new();
        let mut k: usize = 0;
        while k < e.value_numbers.len()
            invariant
                k <= e.value_numbers@.len(),
                *e == self.data(),
                self.index_view() < self.pool_view().enums@.len(),
                crate::wf::enum_ok(self.data(), crate::wf::sizes(self.pool_view())),
                r@.len() == k,
                crate::link::numbers_name_values(self.data()),
                forall|j: int| 0 <= j < k ==> (#[trigger] r@[j]).enum_view() == *self
                    && r@[j].index_view() == self.data().value_numbers@[j].1,
            decreases e.value_numbers@.len() - k,
        {
            r.push(EnumValueDescriptor { parent: *self, index: e.value_numbers[k].1 as usize });
            k += 1;
        }
        r
    }
}

impl<'a> EnumValueDescriptor<'a> {
    fn inner(&self) -> (r: &'a EnumValueDescriptorInner)
        ensures
            *r == self.data(),
            self.enum_view().index_view() < self.enum_view().pool_view().enums@.len(),
            self.index_view() < self.enum_view().data().values@.len(),
    {
        proof {
            use_type_invariant(self);
        }
        let e = self.parent.inner();
        &e.values[self.index]
    }

    /// The pool this value is defined in.
    pub fn parent_pool(&self) -> (r: &'a DescriptorPool)
        ensures
            r@ == self.enum_view().pool_view(),
    {
        self.parent.parent_pool()
    }

    /// The file this value is defined in.
    pub fn parent_file(&self) -> (r: FileDescriptor<'a>)
        ensures
            r.pool_view() == self.enum_view().pool_view(),
            r.index_view() == self.enum_view().data().id.file,
    {
        self.parent.parent_file()
    }

    /// The enum type this value belongs to.
    pub fn parent_enum(&self) -> (r: &EnumDescriptor<'a>)
        ensures
            *r == self.enum_view(),
    {
        &self.parent
    }

    /// The short name of this value, e.g. `MY_VALUE`.
    pub fn name(&self) -> (r: &'a str)
        ensures
            r@ == self.data().id.name@,
    {
        self.inner().id.name()
    }

    /// The full name of this value, e.g. `my.package.MY_VALUE`.
    pub fn full_name(&self) -> (r: &'a str)
        ensures
            r@ == self.data().id.full_name@,
    {
        self.inner().id.full_name()
    }

    /// Where this value is defined in its file descriptor, e.g. `[5, 0, 2, 0]`.
    pub fn path(&self) -> (r: &'a [i32])
        ensures
            r@ == self.data().id.path@,
    {
        self.inner().id.path.as_slice()
    }

    /// The descriptor this value was built from.
    pub fn enum_value_descriptor_proto(&self) -> (r: Option<&'a crate::types::EnumValueDescriptorProto>)
        ensures
            match enum_at(self.enum_view().raw_file(), self.enum_view().data().id.path@) {
                Some(e) => if self.index_view() < e.value@.len() {
                    r == Some(&e.value@[self.index_view()])
                } else {
                    r is None
                },
                None => r is None,
            },
    {
        match self.parent.enum_descriptor_proto() {
            Some(e) => if self.index < e.value.len() {
                Some(&e.value[self.index])
            } else {
                None
            },
            None => None,
        }
    }

    /// The number of this value.
    pub fn number(&self) -> (r: i32)
        ensures
            r == self.data().number,
    {
        self.inner().number
    }
}

} // verus!

verus! {

impl<'a> ServiceDescriptor<'a> {
    fn inner(&self) -> (r: &'a ServiceDescriptorInner)
        ensures
            *r == self.data(),
            self.index_view() < self.pool_view().services@.len(),
            crate::wf::service_ok(self.data(), crate::wf::sizes(self.pool_view())),
    {
        proof {
            use_type_invariant(self);
        }
        let inner = self.pool.inner();
        &inner.services[self.index as usize]
    }

    /// The file descriptor this service is defined in.
    pub open spec fn raw_file(self) -> FileDescriptorProto {
        self.pool_view().files@[self.data().id.file as int].raw
    }

    /// The service at `index` of `pool`.
    pub fn new(pool: &'a DescriptorPool, index: usize) -> (r: ServiceDescriptor<'a>)
        requires
            index < pool@.services@.len(),
        ensures
            r.pool_view() == pool@,
            r.index_view() == index,
    {
        let inner = pool.inner();
        ServiceDescriptor { pool, index: index as u32 }
    }

    /// The index of this service in its pool.
    pub fn index(&self) -> (r: usize)
        ensures
            r == self.index_view(),
    {
        self.index as usize
    }

    /// The pool this service is defined in.
    pub fn parent_pool(&self) -> (r: &'a DescriptorPool)
        ensures
            r@ == self.pool_view(),
    {
        self.pool
    }

    /// The file this service is defined in.
    pub fn parent_file(&self) -> (r: FileDescriptor<'a>)
        ensures
            r.pool_view() == self.pool_view(),
            r.index_view() == self.data().id.file,
    {
        let file = self.inner().id.file;
        FileDescriptor { pool: self.pool, index: file }
    }

    /// The short name of this service, e.g. `MyService`.
    pub fn name(&self) -> (r: &'a str)
        ensures
            r@ == self.data().id.name@,
    {
        self.inner().id.name()
    }

    /// The full name of this service, e.g. `my.package.MyService`.
    pub fn full_name(&self) -> (r: &'a str)
        ensures
            r@ == self.data().id.full_name@,
    {
        self.inner().id.full_name()
    }

    /// The package this service is defined in; empty when the file declares none.
    pub fn package_name(&self) -> (r: &'a str)
        ensures
            r@ == opt_str(self.raw_file().package),
    {
        let f = self.parent_file_descriptor_proto();
        crate::text::opt_str_or_empty(&f.package)
    }

    /// Where this service is defined in its file descriptor, e.g. `[6, 0]`.
    pub fn path(&self) -> (r: &'a [i32])
        ensures
            r@ == self.data().id.path@,
    {
        self.inner().id.path.as_slice()
    }

    /// The file descriptor this service is defined in.
    pub fn parent_file_descriptor_proto(&self) -> (r: &'a FileDescriptorProto)
        ensures
            *r == self.raw_file(),
    {
        let s = self.inner();
        let inner = self.pool.inner();
        &inner.files[s.id.file as usize].raw
    }

    /// The descriptor this service was built from, found by the last index of its path.
    pub fn service_descriptor_proto(&self) -> (r: Option<&'a crate::types::ServiceDescriptorProto>)
        ensures
            match at_last(self.raw_file().service@, self.data().id.path@) {
                Some(s) => r == Some(&s),
                None => r is None,
            },
    {
        let f = self.parent_file_descriptor_proto();
        let p = self.path();
        if p.len() > 0 && p[p.len() - 1] >= 0 && (p[p.len() - 1] as usize) < f.service.len() {
            Some(&f.service[p[p.len() - 1] as usize])
        } else {
            None
        }
    }

    /// The methods of this service, in order.
    pub fn methods(&self) -> (r: Vec<MethodDescriptor<'a>>)
        ensures
            r@.len() == self.data().methods@.len(),
            forall|k: int| 0 <= k < r@.len() ==> (#[trigger] r@[k]).service_view() == *self && r@[k].index_view() == k,
    {
        let s = self.inner();
        let mut r: Vec<MethodDescriptor<'a>> = Vec::new();
        let mut k: usize = 0;
        while k < s.methods.len()
            invariant
                k <= s.methods@.len(),
                *s == self.data(),
                self.index_view() < self.pool_view().services@.len(),
                r@.len() == k,
                forall|j: int| 0 <= j < k ==> (#[trigger] r@[j]).service_view() == *self && r@[j].index_view() == j,
            decreases s.methods@.len() - k,
        {
            r.push(MethodDescriptor { service: *self, index: k });
            k += 1;
        }
        r
    }
}

impl<'a> MethodDescriptor<'a> {
    fn inner(&self) -> (r: &'a MethodDescriptorInner)
        ensures
            *r == self.data(),
            self.service_view().index_view() < self.service_view().pool_view().services@.len(),
            self.index_view() < self.service_view().data().methods@.len(),
            crate::wf::service_ok(self.service_view().data(), crate::wf::sizes(self.service_view().pool_view())),
    {
        proof {
            use_type_invariant(self);
        }
        let s = self.service.inner();
        &s.methods[self.index]
    }

    /// The method at `index` of `service`.
    pub fn new(service: ServiceDescriptor<'a>, index: usize) -> (r: MethodDescriptor<'a>)
        requires
            index < service.data().methods@.len(),
        ensures
            r.service_view() == service,
            r.index_view() == index,
    {
        proof {
            use_type_invariant(&service);
        }
        MethodDescriptor { service, index }
    }

    /// The index of this method in its service.
    pub fn index(&self) -> (r: usize)
        ensures
            r == self.index_view(),
    {
        self.index
    }

    /// The service this method belongs to.
    pub fn parent_service(&self) -> (r: &ServiceDescriptor<'a>)
        ensures
            *r == self.service_view(),
    {
        &self.service
    }

    /// The pool this method is defined in.
    pub fn parent_pool(&self) -> (r: &'a DescriptorPool)
        ensures
            r@ == self.service_view().pool_view(),
    {
        self.service.parent_pool()
    }

    /// The file this method is defined in.
    pub fn parent_file(&self) -> (r: FileDescriptor<'a>)
        ensures
            r.pool_view() == self.service_view().pool_view(),
            r.index_view() == self.service_view().data().id.file,
    {
        self.service.parent_file()
    }

    /// The short name of this method, e.g. `method`.
    pub fn name(&self) -> (r: &'a str)
        ensures
            r@ == self.data().id.name@,
    {
        self.inner().id.name()
    }

    /// The full name of this method, e.g. `my.package.MyService.method`.
    pub fn full_name(&self) -> (r: &'a str)
        ensures
            r@ == self.data().id.full_name@,
    {
        self.inner().id.full_name()
    }

    /// Where this method is defined in its file descriptor, e.g. `[6, 0, 2, 0]`.
    pub fn path(&self) -> (r: &'a [i32])
        ensures
            r@ == self.data().id.path@,
    {
        self.inner().id.path.as_slice()
    }

    /// The descriptor this method was built from.
    pub fn method_descriptor_proto(&self) -> (r: Option<&'a crate::types::MethodDescriptorProto>)
        ensures
            match at_last(self.service_view().raw_file().service@, self.service_view().data().id.path@) {
                Some(s) => if self.index_view() < s.method@.len() {
                    r == Some(&s.method@[self.index_view()])
                } else {
                    r is None
                },
                None => r is None,
            },
    {
        match self.service.service_descriptor_proto() {
            Some(s) => if self.index < s.method.len() {
                Some(&s.method[self.index])
            } else {
                None
            },
            None => None,
        }
    }

    /// The message type of the requests of this method.
    pub fn input(&self) -> (r: MessageDescriptor<'a>)
        ensures
            r.pool_view() == self.service_view().pool_view(),
            r.index_view() == self.data().input,
    {
        let m = self.inner();
        MessageDescriptor { pool: self.service.pool, index: m.input }
    }

    /// The message type of the responses of this method.
    pub fn output(&self) -> (r: MessageDescriptor<'a>)
        ensures
            r.pool_view() == self.service_view().pool_view(),
            r.index_view() == self.data().output,
    {
        let m = self.inner();
        MessageDescriptor { pool: self.service.pool, index: m.output }
    }

    /// Whether the client streams several requests.
    pub fn is_client_streaming(&self) -> (r: bool)
        ensures
            r == (match at_last(self.service_view().raw_file().service@, self.service_view().data().id.path@) {
                Some(s) => self.index_view() < s.method@.len() && s.method@[self.index_view()].client_streaming
                    == Some(true),
                None => false,
            }),
    {
        match self.method_descriptor_proto() {
            Some(m) => match m.client_streaming {
                Some(b) => b,
                None => false,
            },
            None => false,
        }
    }

    /// Whether the server streams several responses.
    pub fn is_server_streaming(&self) -> (r: bool)
        ensures
            r == (match at_last(self.service_view().raw_file().service@, self.service_view().data().id.path@) {
                Some(s) => self.index_view() < s.method@.len() && s.method@[self.index_view()].server_streaming
                    == Some(true),
                None => false,
            }),
    {
        match self.method_descriptor_proto() {
            Some(m) => match m.server_streaming {
                Some(b) => b,
                None => false,
            },
            None => false,
        }
    }
}

} // verus!

verus! {

/// What the entry for `name` in a pool's name table refers to, if any.
pub open spec fn definition_of(pool: DescriptorPoolInner, name: Seq<char>) -> Option<crate::definition::DefinitionKind> {
    match crate::definition::lookup(pool.names@, name) {
        Some(i) => Some(pool.names@[i].def.kind),
        None => None,
    }
}

impl DescriptorPool {
    /// The definition the name table holds for `name`, less one leading `.`,
    /// if any.
    fn definition(&self, name: &str) -> (r: Option<crate::definition::DefinitionKind>)
        ensures
            r == definition_of(self@, crate::names::without_leading_dot(name@)),
            r matches Some(k) ==> crate::collect::kind_below(k, crate::wf::sizes(self@)),
            r matches Some(crate::definition::DefinitionKind::Message(m)) ==> m < self@.messages@.len()
                && self@.messages@[m as int].id.full_name@ == crate::names::without_leading_dot(name@),
            r matches Some(crate::definition::DefinitionKind::Enum(e)) ==> e < self@.enums@.len()
                && self@.enums@[e as int].id.full_name@ == crate::names::without_leading_dot(name@),
    {
        let inner = self.inner();
        let mut key = crate::text::chars_of(name);
        if key.len() > 0 && key[0] == '.' {
            key.remove(0);
            proof {
                assert(key@ =~= name@.drop_first());
            }
        }
        match crate::definition::find_name(&inner.names, &key) {
            Some(i) => {
                proof {
                    assert(crate::collect::kind_below(inner.names@[i as int].def.kind, crate::wf::sizes(self@)));
                    assert(crate::api::names_consistent(self@));
                    crate::definition::lemma_lookup(inner.names@, key@);
                }
                Some(inner.names[i].def.kind)
            },
            None => None,
        }
    }

    /// The message type whose full name is `name`, e.g. `my.package.MyMessage`.
    /// One leading `.` is ignored.
    pub fn get_message_by_name<'a>(&'a self, name: &str) -> (r: Option<MessageDescriptor<'a>>)
        ensures
            match definition_of(self@, crate::names::without_leading_dot(name@)) {
                Some(crate::definition::DefinitionKind::Message(m)) => r matches Some(d) && d.pool_view() == self@
                    && d.index_view() == m,
                _ => r is None,
            },
            r matches Some(d) ==> d.data().id.full_name@ == crate::names::without_leading_dot(name@),
    {
        match self.definition(name) {
            Some(crate::definition::DefinitionKind::Message(m)) => Some(MessageDescriptor { pool: self, index: m }),
            _ => None,
        }
    }

    /// The enum type whose full name is `name`, e.g. `my.package.MyEnum`.
    /// One leading `.` is ignored.
    pub fn get_enum_by_name<'a>(&'a self, name: &str) -> (r: Option<EnumDescriptor<'a>>)
        ensures
            match definition_of(self@, crate::names::without_leading_dot(name@)) {
                Some(crate::definition::DefinitionKind::Enum(e)) => r matches Some(d) && d.pool_view() == self@
                    && d.index_view() == e,
                _ => r is None,
            },
            r matches Some(d) ==> d.data().id.full_name@ == crate::names::without_leading_dot(name@),
    {
        match self.definition(name) {
            Some(crate::definition::DefinitionKind::Enum(e)) => Some(EnumDescriptor { pool: self, index: e }),
            _ => None,
        }
    }

    /// The extension whose full name is `name`, e.g. `my.package.my_extension`.
    /// One leading `.` is ignored.
    pub fn get_extension_by_name<'a>(&'a self, name: &str) -> (r: Option<ExtensionDescriptor<'a>>)
        ensures
            match definition_of(self@, crate::names::without_leading_dot(name@)) {
                Some(crate::definition::DefinitionKind::Extension(x)) => r matches Some(d) && d.pool_view() == self@
                    && d.index_view() == x,
                _ => r is None,
            },
    {
        match self.definition(name) {
            Some(crate::definition::DefinitionKind::Extension(x)) => Some(ExtensionDescriptor { pool: self, index: x }),
            _ => None,
        }
    }

    /// The service whose full name is `name`, e.g. `my.package.MyService`.
    /// One leading `.` is ignored.
    pub fn get_service_by_name<'a>(&'a self, name: &str) -> (r: Option<ServiceDescriptor<'a>>)
        ensures
            match definition_of(self@, crate::names::without_leading_dot(name@)) {
                Some(crate::definition::DefinitionKind::Service(s)) => r matches Some(d) && d.pool_view() == self@
                    && d.index_view() == s,
                _ => r is None,
            },
    {
        match self.definition(name) {
            Some(crate::definition::DefinitionKind::Service(s)) => Some(ServiceDescriptor { pool: self, index: s }),
            _ => None,
        }
    }

    /// The files of the pool, in the order they were added.
    pub fn files<'a>(&'a self) -> (r: Vec<FileDescriptor<'a>>)
        ensures
            r@.len() == self@.files@.len(),
            forall|k: int| 0 <= k < r@.len() ==> (#[trigger] r@[k]).pool_view() == self@ && r@[k].index_view() == k,
    {
        let inner = self.inner();
        let mut r: Vec<FileDescriptor<'a>> = Vec::new();
        let mut k: usize = 0;
        while k < inner.files.len()
            invariant
                k <= inner.files@.len(),
                *inner == self@,
                crate::visit::counts_fit(crate::wf::sizes(self@)),
                r@.len() == k,
                forall|j: int| 0 <= j < k ==> (#[trigger] r@[j]).pool_view() == self@ && r@[j].index_view() == j,
            decreases inner.files@.len() - k,
        {
            r.push(FileDescriptor { pool: self, index: k as u32 });
            k += 1;
        }
        r
    }

    /// The file named `name`, if one was added.
    pub fn get_file_by_name<'a>(&'a self, name: &str) -> (r: Option<FileDescriptor<'a>>)
        ensures
            match r {
                Some(f) => f.pool_view() == self@ && 0 <= f.index_view() < self@.files@.len() && opt_str(
                    self@.files@[f.index_view()].raw.name,
                ) == name@ && forall|k: int| 0 <= k < f.index_view() ==> opt_str(#[trigger] self@.files@[k].raw.name) != name@,
                None => forall|k: int| 0 <= k < self@.files@.len() ==> opt_str(#[trigger] self@.files@[k].raw.name) != name@,
            },
    {
        let inner = self.inner();
        let mut k: usize = 0;
        while k < inner.files.len()
            invariant
                k <= inner.files@.len(),
                *inner == self@,
                crate::visit::counts_fit(crate::wf::sizes(self@)),
                forall|j: int| 0 <= j < k ==> opt_str(#[trigger] self@.files@[j].raw.name) != name@,
            decreases inner.files@.len() - k,
        {
            if crate::text::str_eq(crate::text::opt_str_or_empty(&inner.files[k].raw.name), name) {
                return Some(FileDescriptor { pool: self, index: k as u32 });
            }
            k += 1;
        }
        None
    }

    /// The file descriptors the pool was built from, in the order they were added.
    pub fn file_descriptor_protos(&self) -> (r: Vec<&FileDescriptorProto>)
        ensures
            r@.len() == self@.files@.len(),
            forall|k: int| 0 <= k < r@.len() ==> *(#[trigger] r@[k]) == self@.files@[k].raw,
    {
        let inner = self.inner();
        let mut r: Vec<&FileDescriptorProto> = Vec::new();
        let mut k: usize = 0;
        while k < inner.files.len()
            invariant
                k <= inner.files@.len(),
                *inner == self@,
                r@.len() == k,
                forall|j: int| 0 <= j < k ==> *(#[trigger] r@[j]) == self@.files@[j].raw,
            decreases inner.files@.len() - k,
        {
            r.push(&inner.files[k].raw);
            k += 1;
        }
        r
    }

    /// Every message type of the pool, nested ones included, in order.
    pub fn all_messages<'a>(&'a self) -> (r: Vec<MessageDescriptor<'a>>)
        ensures
            r@.len() == self@.messages@.len(),
            forall|k: int| 0 <= k < r@.len() ==> (#[trigger] r@[k]).pool_view() == self@ && r@[k].index_view() == k,
    {
        let inner = self.inner();
        let mut r: Vec<MessageDescriptor<'a>> = Vec::new();
        let mut k: usize = 0;
        while k < inner.messages.len()
            invariant
                k <= inner.messages@.len(),
                *inner == self@,
                crate::visit::counts_fit(crate::wf::sizes(self@)),
                r@.len() == k,
                forall|j: int| 0 <= j < k ==> (#[trigger] r@[j]).pool_view() == self@ && r@[j].index_view() == j,
            decreases inner.messages@.len() - k,
        {
            r.push(MessageDescriptor { pool: self, index: k as u32 });
            k += 1;
        }
        r
    }

    /// Every enum type of the pool, nested ones included, in order.
    pub fn all_enums<'a>(&'a self) -> (r: Vec<EnumDescriptor<'a>>)
        ensures
            r@.len() == self@.enums@.len(),
            forall|k: int| 0 <= k < r@.len() ==> (#[trigger] r@[k]).pool_view() == self@ && r@[k].index_view() == k,
    {
        let inner = self.inner();
        let mut r: Vec<EnumDescriptor<'a>> = Vec::new();
        let mut k: usize = 0;
        while k < inner.enums.len()
            invariant
                k <= inner.enums@.len(),
                *inner == self@,
                crate::visit::counts_fit(crate::wf::sizes(self@)),
                r@.len() == k,
                forall|j: int| 0 <= j < k ==> (#[trigger] r@[j]).pool_view() == self@ && r@[j].index_view() == j,
            decreases inner.enums@.len() - k,
        {
            r.push(EnumDescriptor { pool: self, index: k as u32 });
            k += 1;
        }
        r
    }

    /// Every extension of the pool, nested ones included, in order.
    pub fn all_extensions<'a>(&'a self) -> (r: Vec<ExtensionDescriptor<'a>>)
        ensures
            r@.len() == self@.extensions@.len(),
            forall|k: int| 0 <= k < r@.len() ==> (#[trigger] r@[k]).pool_view() == self@ && r@[k].index_view() == k,
    {
        let inner = self.inner();
        let mut r: Vec<ExtensionDescriptor<'a>> = Vec::new();
        let mut k: usize = 0;
        while k < inner.extensions.len()
            invariant
                k <= inner.extensions@.len(),
                *inner == self@,
                crate::visit::counts_fit(crate::wf::sizes(self@)),
                r@.len() == k,
                forall|j: int| 0 <= j < k ==> (#[trigger] r@[j]).pool_view() == self@ && r@[j].index_view() == j,
            decreases inner.extensions@.len() - k,
        {
            r.push(ExtensionDescriptor { pool: self, index: k as u32 });
            k += 1;
        }
        r
    }

    /// Every service of the pool, in order.
    pub fn services<'a>(&'a self) -> (r: Vec<ServiceDescriptor<'a>>)
        ensures
            r@.len() == self@.services@.len(),
            forall|k: int| 0 <= k < r@.len() ==> (#[trigger] r@[k]).pool_view() == self@ && r@[k].index_view() == k,
    {
        let inner = self.inner();
        let mut r: Vec<ServiceDescriptor<'a>> = Vec::new();
        let mut k: usize = 0;
        while k < inner.services.len()
            invariant
                k <= inner.services@.len(),
                *inner == self@,
                crate::visit::counts_fit(crate::wf::sizes(self@)),
                r@.len() == k,
                forall|j: int| 0 <= j < k ==> (#[trigger] r@[j]).pool_view() == self@ && r@[j].index_view() == j,
            decreases inner.services@.len() - k,
        {
            r.push(ServiceDescriptor { pool: self, index: k as u32 });
            k += 1;
        }
        r
    }
}

} // verus!

verus! {

impl<'a> FileDescriptor<'a> {
    /// The enum types defined at the top level of this file, in order.
    pub fn enums(&self) -> (r: Vec<EnumDescriptor<'a>>)
        ensures
            r@.len() == indices_where(
                self.pool_view().enums@.len() as int,
                |j: int| self.pool_view().enums@[j].id.file == self.index_view()
                    && self.pool_view().enums@[j].parent is None,
            ).len(),
            forall|k: int| 0 <= k < r@.len() ==> (#[trigger] r@[k]).pool_view() == self.pool_view()
                && r@[k].index_view() == indices_where(
                self.pool_view().enums@.len() as int,
                |j: int| self.pool_view().enums@[j].id.file == self.index_view()
                    && self.pool_view().enums@[j].parent is None,
            )[k],
    {
        let pool = self.pool;
        let inner = pool.inner();
        let ghost pred = |j: int| self.pool_view().enums@[j].id.file == self.index_view()
            && self.pool_view().enums@[j].parent is None;
        let mut r: Vec<EnumDescriptor<'a>> = Vec::new();
        let mut j: usize = 0;
        while j < inner.enums.len()
            invariant
                j <= inner.enums@.len(),
                *inner == pool@,
                pool@ == self.pool_view(),
                crate::visit::counts_fit(crate::wf::sizes(pool@)),
                pred == (|j: int| self.pool_view().enums@[j].id.file == self.index_view()
                    && self.pool_view().enums@[j].parent is None),
                r@.len() == indices_where(j as int, pred).len(),
                forall|k: int| 0 <= k < r@.len() ==> (#[trigger] r@[k]).pool_view() == self.pool_view()
                    && r@[k].index_view() == indices_where(j as int, pred)[k],
            decreases inner.enums@.len() - j,
        {
            let e = &inner.enums[j];
            if e.id.file == self.index && e.parent.is_none() {
                r.push(EnumDescriptor { pool, index: j as u32 });
            }
            j += 1;
        }
        r
    }

    /// The extensions defined at the top level of this file, in order.
    pub fn extensions(&self) -> (r: Vec<ExtensionDescriptor<'a>>)
        ensures
            r@.len() == indices_where(
                self.pool_view().extensions@.len() as int,
                |j: int| self.pool_view().extensions@[j].id.file == self.index_view()
                    && self.pool_view().extensions@[j].parent is None,
            ).len(),
            forall|k: int| 0 <= k < r@.len() ==> (#[trigger] r@[k]).pool_view() == self.pool_view()
                && r@[k].index_view() == indices_where(
                self.pool_view().extensions@.len() as int,
                |j: int| self.pool_view().extensions@[j].id.file == self.index_view()
                    && self.pool_view().extensions@[j].parent is None,
            )[k],
    {
        let pool = self.pool;
        let inner = pool.inner();
        let ghost pred = |j: int| self.pool_view().extensions@[j].id.file == self.index_view()
            && self.pool_view().extensions@[j].parent is None;
        let mut r: Vec<ExtensionDescriptor<'a>> = Vec::new();
        let mut j: usize = 0;
        while j < inner.extensions.len()
            invariant
                j <= inner.extensions@.len(),
                *inner == pool@,
                pool@ == self.pool_view(),
                crate::visit::counts_fit(crate::wf::sizes(pool@)),
                pred == (|j: int| self.pool_view().extensions@[j].id.file == self.index_view()
                    && self.pool_view().extensions@[j].parent is None),
                r@.len() == indices_where(j as int, pred).len(),
                forall|k: int| 0 <= k < r@.len() ==> (#[trigger] r@[k]).pool_view() == self.pool_view()
                    && r@[k].index_view() == indices_where(j as int, pred)[k],
            decreases inner.extensions@.len() - j,
        {
            let x = &inner.extensions[j];
            if x.id.file == self.index && x.parent.is_none() {
                r.push(ExtensionDescriptor { pool, index: j as u32 });
            }
            j += 1;
        }
        r
    }

    /// The services defined in this file, in order.
    pub fn services(&self) -> (r: Vec<ServiceDescriptor<'a>>)
        ensures
            r@.len() == indices_where(
                self.pool_view().services@.len() as int,
                |j: int| self.pool_view().services@[j].id.file == self.index_view(),
            ).len(),
            forall|k: int| 0 <= k < r@.len() ==> (#[trigger] r@[k]).pool_view() == self.pool_view()
                && r@[k].index_view() == indices_where(
                self.pool_view().services@.len() as int,
                |j: int| self.pool_view().services@[j].id.file == self.index_view(),
            )[k],
    {
        let pool = self.pool;
        let inner = pool.inner();
        let ghost pred = |j: int| self.pool_view().services@[j].id.file == self.index_view();
        let mut r: Vec<ServiceDescriptor<'a>> = Vec::new();
        let mut j: usize = 0;
        while j < inner.services.len()
            invariant
                j <= inner.services@.len(),
                *inner == pool@,
                pool@ == self.pool_view(),
                crate::visit::counts_fit(crate::wf::sizes(pool@)),
                pred == (|j: int| self.pool_view().services@[j].id.file == self.index_view()),
                r@.len() == indices_where(j as int, pred).len(),
                forall|k: int| 0 <= k < r@.len() ==> (#[trigger] r@[k]).pool_view() == self.pool_view()
                    && r@[k].index_view() == indices_where(j as int, pred)[k],
            decreases inner.services@.len() - j,
        {
            if inner.services[j].id.file == self.index {
                r.push(ServiceDescriptor { pool, index: j as u32 });
            }
            j += 1;
        }
        r
    }

    /// The files this file imports publicly, in the order the file lists
    /// them; an entry that names no import is skipped.
    pub fn public_dependencies(&self) -> (r: Vec<FileDescriptor<'a>>)
        ensures
            r@.len() == self.data().raw.public_dependency@.filter(
                |i: i32| 0 <= i < self.data().dependencies@.len(),
            ).len(),
            forall|k: int| 0 <= k < r@.len() ==> (#[trigger] r@[k]).pool_view() == self.pool_view()
                && r@[k].index_view() == self.data().dependencies@[self.data().raw.public_dependency@.filter(
                |i: i32| 0 <= i < self.data().dependencies@.len(),
            )[k] as int],
    {
        proof {
            use_type_invariant(self);
        }
        let pool = self.pool;
        let inner = pool.inner();
        let f = self.inner();
        let deps = &f.dependencies;
        let ghost pred = |i: i32| 0 <= i < self.data().dependencies@.len();
        let ghost xs = f.raw.public_dependency@;
        let mut r: Vec<FileDescriptor<'a>> = Vec::new();
        let mut k: usize = 0;
        proof {
            reveal(Seq::filter);
            assert(xs.take(0) =~= Seq::<i32>::empty());
            assert(crate::wf::file_ok(pool@.files@[self.index_view()], crate::wf::sizes(pool@)));
        }
        while k < f.raw.public_dependency.len()
            invariant
                k <= xs.len(),
                *f == self.data(),
                xs == f.raw.public_dependency@,
                *inner == pool@,
                pool@ == self.pool_view(),
                *deps == self.data().dependencies,
                crate::wf::file_ok(pool@.files@[self.index_view()], crate::wf::sizes(pool@)),
                self.index_view() < pool@.files@.len(),
                pred == (|i: i32| 0 <= i < self.data().dependencies@.len()),
                r@.len() == xs.take(k as int).filter(pred).len(),
                forall|j: int| 0 <= j < r@.len() ==> (#[trigger] r@[j]).pool_view() == self.pool_view()
                    && r@[j].index_view() == self.data().dependencies@[xs.take(k as int).filter(pred)[j] as int],
            decreases xs.len() - k,
        {
            proof {
                reveal(Seq::filter);
                assert(xs.take(k + 1).drop_last() =~= xs.take(k as int));
                assert(xs.take(k + 1).last() == xs[k as int]);
            }
            let i = f.raw.public_dependency[k];
            if i >= 0 && (i as usize) < deps.len() {
                r.push(FileDescriptor { pool, index: deps[i as usize] });
            }
            k += 1;
        }
        proof {
            assert(xs.take(xs.len() as int) =~= xs);
        }
        r
    }
}

} // verus!

verus! {

impl<'a> MessageDescriptor<'a> {
    /// The ranges of field numbers this message type reserves, each from its
    /// start up to its end, excluded; nothing when its descriptor is not found.
    pub fn reserved_ranges(&self) -> (r: Vec<std::ops::Range<u32>>)
        ensures
            match message_at(self.raw_file(), self.data().id.path@) {
                Some(m) => r@.len() == m.reserved_range@.len() && forall|k: int|
                    0 <= k < r@.len() ==> (#[trigger] r@[k]).start == range_bound(m.reserved_range@[k].start) as u32
                        && r@[k].end == range_bound(m.reserved_range@[k].end) as u32,
                None => r@.len() == 0,
            },
    {
        let mut r: Vec<std::ops::Range<u32>> = Vec::new();
        match self.descriptor_proto() {
            Some(m) => {
                let mut k: usize = 0;
                while k < m.reserved_range.len()
                    invariant
                        k <= m.reserved_range@.len(),
                        r@.len() == k,
                        forall|j: int|
                            0 <= j < k ==> (#[trigger] r@[j]).start == range_bound(m.reserved_range@[j].start) as u32
                                && r@[j].end == range_bound(m.reserved_range@[j].end) as u32,
                    decreases m.reserved_range@.len() - k,
                {
                    let start = match m.reserved_range[k].start { Some(v) => v, None => 0 };
                    let end = match m.reserved_range[k].end { Some(v) => v, None => 0 };
                    r.push(std::ops::Range { start: start as u32, end: end as u32 });
                    k += 1;
                }
            },
            None => {},
        }
        r
    }

    /// The ranges of field numbers this message type sets aside for
    /// extensions, each from its start up to its end, excluded; nothing when
    /// its descriptor is not found.
    pub fn extension_ranges(&self) -> (r: Vec<std::ops::Range<u32>>)
        ensures
            match message_at(self.raw_file(), self.data().id.path@) {
                Some(m) => r@.len() == m.extension_range@.len() && forall|k: int|
                    0 <= k < r@.len() ==> (#[trigger] r@[k]).start == range_bound(m.extension_range@[k].start) as u32
                        && r@[k].end == range_bound(m.extension_range@[k].end) as u32,
                None => r@.len() == 0,
            },
    {
        let mut r: Vec<std::ops::Range<u32>> = Vec::new();
        match self.descriptor_proto() {
            Some(m) => {
                let mut k: usize = 0;
                while k < m.extension_range.len()
                    invariant
                        k <= m.extension_range@.len(),
                        r@.len() == k,
                        forall|j: int|
                            0 <= j < k ==> (#[trigger] r@[j]).start == range_bound(m.extension_range@[j].start) as u32
                                && r@[j].end == range_bound(m.extension_range@[j].end) as u32,
                    decreases m.extension_range@.len() - k,
                {
                    let start = match m.extension_range[k].start { Some(v) => v, None => 0 };
                    let end = match m.extension_range[k].end { Some(v) => v, None => 0 };
                    r.push(std::ops::Range { start: start as u32, end: end as u32 });
                    k += 1;
                }
            },
            None => {},
        }
        r
    }

    /// The field names this message type reserves; nothing when its
    /// descriptor is not found.
    pub fn reserved_names(&self) -> (r: Vec<&'a str>)
        ensures
            match message_at(self.raw_file(), self.data().id.path@) {
                Some(m) => r@.len() == m.reserved_name@.len() && forall|k: int|
                    0 <= k < r@.len() ==> (#[trigger] r@[k])@ == m.reserved_name@[k]@,
                None => r@.len() == 0,
            },
    {
        let mut r: Vec<&'a str> = Vec::new();
        match self.descriptor_proto() {
            Some(m) => {
                let mut k: usize = 0;
                while k < m.reserved_name.len()
                    invariant
                        k <= m.reserved_name@.len(),
                        r@.len() == k,
                        forall|j: int| 0 <= j < k ==> (#[trigger] r@[j])@ == m.reserved_name@[j]@,
                    decreases m.reserved_name@.len() - k,
                {
                    r.push(m.reserved_name[k].as_str());
                    k += 1;
                }
            },
            None => {},
        }
        r
    }

    /// The extensions of this message type that the pool holds, by index.
    pub open spec fn live_extensions(self) -> Seq<u32> {
        self.data().extensions@.filter(|e: u32| e < self.pool_view().extensions@.len())
    }

    /// The first extension of this message type numbered `number`, if any.
    pub fn get_extension(&self, number: u32) -> (r: Option<ExtensionDescriptor<'a>>)
        ensures
            match r {
                Some(x) => x.pool_view() == self.pool_view() && exists|k: int|
                    0 <= k < self.live_extensions().len() && #[trigger] self.live_extensions()[k] == x.index_view()
                        && self.pool_view().extensions@[x.index_view()].number == number && forall|j: int|
                        0 <= j < k ==> self.pool_view().extensions@[#[trigger] self.live_extensions()[j] as int].number
                            != number,
                None => forall|k: int|
                    0 <= k < self.live_extensions().len() ==> self.pool_view().extensions@[#[trigger] self.live_extensions()[k] as int].number
                        != number,
            },
    {
        let xs = self.extensions();
        let ghost live = self.live_extensions();
        let mut k: usize = 0;
        while k < xs.len()
            invariant
                k <= xs@.len(),
                live == self.live_extensions(),
                xs@.len() == live.len(),
                forall|i: int| 0 <= i < xs@.len() ==> (#[trigger] xs@[i]).pool_view() == self.pool_view()
                    && xs@[i].index_view() == live[i],
                forall|j: int| 0 <= j < k ==> self.pool_view().extensions@[#[trigger] live[j] as int].number != number,
            decreases xs@.len() - k,
        {
            let x = xs[k];
            if x.number() == number {
                proof {
                    assert(live[k as int] == x.index_view());
                }
                return Some(x);
            }
            proof {
                assert(xs@[k as int].index_view() == live[k as int]);
            }
            k += 1;
        }
        None
    }
}

} // verus!

verus! {

impl<'a> MessageDescriptor<'a> {
    /// The first extension of this message type whose full name is `name`, if any.
    pub fn get_extension_by_full_name(&self, name: &str) -> (r: Option<ExtensionDescriptor<'a>>)
        ensures
            match r {
                Some(x) => x.pool_view() == self.pool_view() && exists|k: int|
                    0 <= k < self.live_extensions().len() && #[trigger] self.live_extensions()[k] == x.index_view()
                        && self.pool_view().extensions@[x.index_view()].id.full_name@ == name@ && forall|j: int|
                        0 <= j < k ==> self.pool_view().extensions@[#[trigger] self.live_extensions()[j] as int].id.full_name@
                            != name@,
                None => forall|k: int|
                    0 <= k < self.live_extensions().len() ==> self.pool_view().extensions@[#[trigger] self.live_extensions()[k] as int].id.full_name@
                        != name@,
            },
    {
        let xs = self.extensions();
        let ghost live = self.live_extensions();
        let mut k: usize = 0;
        while k < xs.len()
            invariant
                k <= xs@.len(),
                live == self.live_extensions(),
                xs@.len() == live.len(),
                forall|i: int| 0 <= i < xs@.len() ==> (#[trigger] xs@[i]).pool_view() == self.pool_view()
                    && xs@[i].index_view() == live[i],
                forall|j: int| 0 <= j < k ==> self.pool_view().extensions@[#[trigger] live[j] as int].id.full_name@ != name@,
            decreases xs@.len() - k,
        {
            let x = xs[k];
            if crate::text::str_eq(x.full_name(), name) {
                proof {
                    assert(live[k as int] == x.index_view());
                }
                return Some(x);
            }
            proof {
                assert(xs@[k as int].index_view() == live[k as int]);
            }
            k += 1;
        }
        None
    }

    /// The first extension of this message type whose JSON name is `name`,
    /// e.g. `[my.package.my_extension]`, if any.
    pub fn get_extension_by_json_name(&self, name: &str) -> (r: Option<ExtensionDescriptor<'a>>)
        ensures
            match r {
                Some(x) => x.pool_view() == self.pool_view() && exists|k: int|
                    0 <= k < self.live_extensions().len() && #[trigger] self.live_extensions()[k] == x.index_view()
                        && self.pool_view().extensions@[x.index_view()].json_name@ == name@ && forall|j: int|
                        0 <= j < k ==> self.pool_view().extensions@[#[trigger] self.live_extensions()[j] as int].json_name@
                            != name@,
                None => forall|k: int|
                    0 <= k < self.live_extensions().len() ==> self.pool_view().extensions@[#[trigger] self.live_extensions()[k] as int].json_name@
                        != name@,
            },
    {
        let xs = self.extensions();
        let ghost live = self.live_extensions();
        let mut k: usize = 0;
        while k < xs.len()
            invariant
                k <= xs@.len(),
                live == self.live_extensions(),
                xs@.len() == live.len(),
                forall|i: int| 0 <= i < xs@.len() ==> (#[trigger] xs@[i]).pool_view() == self.pool_view()
                    && xs@[i].index_view() == live[i],
                forall|j: int| 0 <= j < k ==> self.pool_view().extensions@[#[trigger] live[j] as int].json_name@ != name@,
            decreases xs@.len() - k,
        {
            let x = xs[k];
            if crate::text::str_eq(x.json_name(), name) {
                proof {
                    assert(live[k as int] == x.index_view());
                }
                return Some(x);
            }
            proof {
                assert(xs@[k as int].index_view() == live[k as int]);
            }
            k += 1;
        }
        None
    }
}

impl<'a> EnumDescriptor<'a> {
    /// The ranges of numbers this enum type reserves, each from its start to
    /// its end, included; nothing when its descriptor is not found.
    pub fn reserved_ranges(&self) -> (r: Vec<std::ops::RangeInclusive<i32>>)
        ensures
            match enum_at(self.raw_file(), self.data().id.path@) {
                Some(e) => r@.len() == e.reserved_range@.len() && forall|k: int|
                    0 <= k < r@.len() ==> (#[trigger] r@[k])@.start == range_bound(e.reserved_range@[k].start)
                        && r@[k]@.end == range_bound(e.reserved_range@[k].end) && !r@[k]@.exhausted,
                None => r@.len() == 0,
            },
    {
        let mut r: Vec<std::ops::RangeInclusive<i32>> = Vec::new();
        match self.enum_descriptor_proto() {
            Some(e) => {
                let mut k: usize = 0;
                while k < e.reserved_range.len()
                    invariant
                        k <= e.reserved_range@.len(),
                        r@.len() == k,
                        forall|j: int|
                            0 <= j < k ==> (#[trigger] r@[j])@.start == range_bound(e.reserved_range@[j].start)
                                && r@[j]@.end == range_bound(e.reserved_range@[j].end) && !r@[j]@.exhausted,
                    decreases e.reserved_range@.len() - k,
                {
                    let start = match e.reserved_range[k].start { Some(v) => v, None => 0 };
                    let end = match e.reserved_range[k].end { Some(v) => v, None => 0 };
                    r.push(std::ops::RangeInclusive::new(start, end));
                    k += 1;
                }
            },
            None => {},
        }
        r
    }

    /// The value names this enum type reserves; nothing when its descriptor
    /// is not found.
    pub fn reserved_names(&self) -> (r: Vec<&'a str>)
        ensures
            match enum_at(self.raw_file(), self.data().id.path@) {
                Some(e) => r@.len() == e.reserved_name@.len() && forall|k: int|
                    0 <= k < r@.len() ==> (#[trigger] r@[k])@ == e.reserved_name@[k]@,
                None => r@.len() == 0,
            },
    {
        let mut r: Vec<&'a str> = Vec::new();
        match self.enum_descriptor_proto() {
            Some(e) => {
                let mut k: usize = 0;
                while k < e.reserved_name.len()
                    invariant
                        k <= e.reserved_name@.len(),
                        r@.len() == k,
                        forall|j: int| 0 <= j < k ==> (#[trigger] r@[j])@ == e.reserved_name@[j]@,
                    decreases e.reserved_name@.len() - k,
                {
                    r.push(e.reserved_name[k].as_str());
                    k += 1;
                }
            },
            None => {},
        }
        r
    }
}

} // verus!

verus! {

/// Every message type, enum type, service and extension that a batch added to
/// a pool is found by its full name: the name table refers to it, at the index
/// it was numbered with, and a message or enum type found so has that full
/// name.
pub proof fn lemma_added_found_by_name(
    old: DescriptorPoolInner,
    new: DescriptorPoolInner,
    batch: Seq<FileDescriptorProto>,
    j: int,
)
    requires
        crate::api::added(old, new, batch),
        0 <= j < crate::visit::files_visits(
            crate::api::new_files(old.files@, batch),
            0,
            crate::api::pool_counts(old),
        ).0.len(),
    ensures
        ({
            let v = crate::visit::files_visits(
                crate::api::new_files(old.files@, batch),
                0,
                crate::api::pool_counts(old),
            ).0[j];
            &&& v.what is Message ==> definition_of(new, v.full_name) == Some(
                crate::definition::DefinitionKind::Message(v.index as u32),
            ) && new.messages@[v.index].id.full_name@ == v.full_name
            &&& v.what is Enum ==> definition_of(new, v.full_name) == Some(
                crate::definition::DefinitionKind::Enum(v.index as u32),
            ) && new.enums@[v.index].id.full_name@ == v.full_name
            &&& v.what is Service ==> definition_of(new, v.full_name) == Some(
                crate::definition::DefinitionKind::Service(v.index as u32),
            )
            &&& v.what is Extension ==> definition_of(new, v.full_name) == Some(
                crate::definition::DefinitionKind::Extension(v.index as u32),
            )
        }),
{
    let visits = crate::visit::files_visits(crate::api::new_files(old.files@, batch), 0, crate::api::pool_counts(old)).0;
    let v = visits[j];
    match v.what {
        crate::visit::Visited::Message { .. } | crate::visit::Visited::Enum { .. } | crate::visit::Visited::Service(_)
        | crate::visit::Visited::Extension { .. } => {
            let d = crate::collect::defs_of(v)[0];
            assert(crate::collect::registered(new.names@, crate::collect::defs_of(visits[j])[0], true));
            crate::definition::lemma_lookup(new.names@, d.name);
        },
        _ => {},
    }
}

} // verus!

verus! {

/// A full name that a pool defines keeps its definition when a batch is added.
pub proof fn lemma_add_keeps_definitions(
    old: DescriptorPoolInner,
    new: DescriptorPoolInner,
    batch: Seq<FileDescriptorProto>,
    name: Seq<char>,
)
    requires
        crate::api::added(old, new, batch),
        definition_of(old, name) is Some,
    ensures
        definition_of(new, name) == definition_of(old, name),
{
    let n = old.names@.len() as int;
    crate::definition::lemma_lookup(old.names@, name);
    assert(new.names@.take(n) == old.names@);
    crate::definition::lemma_prefix_lookup(new.names@, n, name);
    let i = crate::definition::lookup(old.names@, name)->0;
    assert(new.names@.take(n)[i] == new.names@[i]);
}

} // verus!

verus! {

impl<'a> Kind<'a> {
    /// The name of this type as a proto file writes it: the scalar type's
    /// keyword, or the full name of the message or enum type.
    pub fn proto_name(&self) -> (r: &'a str)
        ensures
            r@ == match *self {
                Kind::Double => "double"@,
                Kind::Float => "float"@,
                Kind::Int32 => "int32"@,
                Kind::Int64 => "int64"@,
                Kind::Uint32 => "uint32"@,
                Kind::Uint64 => "uint64"@,
                Kind::Sint32 => "sint32"@,
                Kind::Sint64 => "sint64"@,
                Kind::Fixed32 => "fixed32"@,
                Kind::Fixed64 => "fixed64"@,
                Kind::Sfixed32 => "sfixed32"@,
                Kind::Sfixed64 => "sfixed64"@,
                Kind::Bool => "bool"@,
                Kind::String => "string"@,
                Kind::Bytes => "bytes"@,
                Kind::Message(m) => m.data().id.full_name@,
                Kind::Enum(e) => e.data().id.full_name@,
            },
    {
        match self {
            Kind::Double => "double",
            Kind::Float => "float",
            Kind::Int32 => "int32",
            Kind::Int64 => "int64",
            Kind::Uint32 => "uint32",
            Kind::Uint64 => "uint64",
            Kind::Sint32 => "sint32",
            Kind::Sint64 => "sint64",
            Kind::Fixed32 => "fixed32",
            Kind::Fixed64 => "fixed64",
            Kind::Sfixed32 => "sfixed32",
            Kind::Sfixed64 => "sfixed64",
            Kind::Bool => "bool",
            Kind::String => "string",
            Kind::Bytes => "bytes",
            Kind::Message(m) => m.full_name(),
            Kind::Enum(e) => e.full_name(),
        }
    }
}

} // verus!

verus! {

/// The indices below `n` that pass a test are the indices `0..n` filtered
/// by it, in order.
pub proof fn lemma_indices_where_filter(n: int, pred: spec_fn(int) -> bool)
    requires
        n >= 0,
    ensures
        indices_where(n, pred) == Seq::new(n as nat, |i: int| i).filter(pred),
    decreases n,
{
    if n == 0 {
        reveal(Seq::filter);
        assert(Seq::new(0, |i: int| i).filter(pred) =~= Seq::<int>::empty());
    } else {
        lemma_indices_where_filter(n - 1, pred);
        let s = Seq::new(n as nat, |i: int| i);
        let t = Seq::new((n - 1) as nat, |i: int| i);
        assert(s =~= t.push(n - 1));
        t.lemma_filter_push(n - 1, pred);
    }
}

/// The top-level message types of a file, as `FileDescriptor::messages`
/// lists them, are the pool's message types, as `all_messages` lists them,
/// kept when they are defined in that file and have no parent: same
/// indices, same order.
pub proof fn lemma_file_messages_are_filtered(pool: DescriptorPoolInner, file: int)
    ensures
        indices_where(
            pool.messages@.len() as int,
            |j: int| pool.messages@[j].id.file == file && pool.messages@[j].parent is None,
        ) == Seq::new(pool.messages@.len(), |i: int| i).filter(
            |j: int| pool.messages@[j].id.file == file && pool.messages@[j].parent is None,
        ),
{
    lemma_indices_where_filter(
        pool.messages@.len() as int,
        |j: int| pool.messages@[j].id.file == file && pool.messages@[j].parent is None,
    );
}

/// In a number table sorted by number, a number is listed once: the field
/// `get_field` finds for the number of an entry of `fields()` is that entry.
pub proof fn lemma_field_number_listed_once(table: Seq<(u32, u32)>, k: int, k2: int)
    requires
        crate::link::numbers_sorted(table),
        0 <= k < table.len(),
        0 <= k2 < table.len(),
        table[k].0 == table[k2].0,
    ensures
        k == k2,
{
    if k < k2 {
        assert(table[k].0 < table[k2].0);
    } else if k2 < k {
        assert(table[k2].0 < table[k].0);
    }
}

/// Each field an added batch defines has presence exactly when it is a
/// proto3 `optional` field, is in a oneof, or is not repeated and is a
/// message field or in a proto2 file.
pub proof fn lemma_added_field_presence(
    old: DescriptorPoolInner,
    new: DescriptorPoolInner,
    batch: Seq<FileDescriptorProto>,
    j: int,
)
    requires
        crate::api::added(old, new, batch),
        0 <= j < crate::visit::files_visits(crate::api::new_files(old.files@, batch), 0, crate::api::pool_counts(old)).0.len(),
        crate::visit::files_visits(crate::api::new_files(old.files@, batch), 0, crate::api::pool_counts(old)).0[j].what is Field,
    ensures
        ({
            let v = crate::visit::files_visits(crate::api::new_files(old.files@, batch), 0, crate::api::pool_counts(old)).0[j];
            let m = v.what->Field_message;
            let field = v.what->Field_field;
            &&& 0 <= m < new.messages@.len()
            &&& exists|i: int|
                0 <= i < new.messages@[m].fields@.len() && {
                    let f = #[trigger] new.messages@[m].fields@[i];
                    &&& f.id.full_name@ == v.full_name
                    &&& f.supports_presence == (crate::types::opt_bool(field.proto3_optional)
                        || field.oneof_index is Some || (f.cardinality != Cardinality::Repeated && (
                    f.kind.spec_is_message() || new.files@[v.file].syntax == Syntax::Proto2)))
                }
        }),
{
    let vs = crate::visit::files_visits(crate::api::new_files(old.files@, batch), 0, crate::api::pool_counts(old)).0;
    let v = vs[j];
    assert(crate::link::fields_linked(new.messages@, vs, new.files@));
    let m = v.what->Field_message;
    let field = v.what->Field_field;
    let (i, k) = choose|i: int, k: KindIndex|
        0 <= i < new.messages@[m].fields@.len() && #[trigger] crate::link::field_built(
            new.messages@[m].fields@[i],
            v.file,
            v.path,
            v.full_name,
            field,
            k,
            new.files@[v.file].syntax,
        );
    assert(0 <= i < new.messages@[m].fields@.len());
}

} // verus!
