//! The order in which the definitions of a batch of files are visited, with
//! the path, full name and index each definition gets.
use vstd::prelude::*;
use crate::names::{join_name, joined_name};
use crate::tag;
use crate::text::chars_of;
use crate::types::{
    DescriptorProto, EnumDescriptorProto, EnumValueDescriptorProto, FieldDescriptorProto,
    FileDescriptorProto, MethodDescriptorProto, OneofDescriptorProto, ServiceDescriptorProto,
};

verus! {

/// The number of files, messages, enums, services and extensions in a pool;
/// the next definition of each kind gets the index given here.
#[derive(Copy, Clone, PartialEq, Eq, Structural, Debug)]
pub struct DescriptorPoolOffsets {
    pub file: u32,
    pub message: u32,
    pub enum_: u32,
    pub service: u32,
    pub extension: u32,
}

/// Counters over the integers, as the traversal advances them.
pub struct Counts {
    pub file: int,
    pub message: int,
    pub enum_: int,
    pub service: int,
    pub extension: int,
}

impl DescriptorPoolOffsets {
    /// The counters these offsets start from.
    pub open spec fn counts(self) -> Counts {
        Counts {
            file: self.file as int,
            message: self.message as int,
            enum_: self.enum_ as int,
            service: self.service as int,
            extension: self.extension as int,
        }
    }
}

/// What is visited.
pub enum Visited {
    File(FileDescriptorProto),
    Message { parent: Option<int>, message: DescriptorProto },
    Field { message: int, field: FieldDescriptorProto },
    Oneof { message: int, oneof: OneofDescriptorProto },
    Service(ServiceDescriptorProto),
    Method { service: int, method: MethodDescriptorProto },
    Enum { parent: Option<int>, enum_: EnumDescriptorProto },
    EnumValue { enum_: int, value: EnumValueDescriptorProto },
    Extension { parent: Option<int>, extension: FieldDescriptorProto },
}

/// One visit: the path of the definition within its file, its full name, the
/// index of its file, its own index and what it is.
pub struct Visit {
    pub path: Seq<i32>,
    pub full_name: Seq<char>,
    pub file: int,
    pub index: int,
    pub what: Visited,
}

/// The visits of the oneofs of message `message` from index `i` on.
pub open spec fn oneof_visits(
    oneofs: Seq<OneofDescriptorProto>,
    i: int,
    path: Seq<i32>,
    scope: Seq<char>,
    file: int,
    message: int,
) -> Seq<Visit>
    decreases oneofs.len() - i,
{
    if i < 0 || i >= oneofs.len() {
        Seq::empty()
    } else {
        seq![Visit {
            path: path.push(i as i32),
            full_name: joined_name(scope, crate::text::opt_str(oneofs[i].name)),
            file,
            index: i,
            what: Visited::Oneof { message, oneof: oneofs[i] },
        }] + oneof_visits(oneofs, i + 1, path, scope, file, message)
    }
}

/// The visits of the fields of message `message` from index `i` on.
pub open spec fn field_visits(
    fields: Seq<FieldDescriptorProto>,
    i: int,
    path: Seq<i32>,
    scope: Seq<char>,
    file: int,
    message: int,
) -> Seq<Visit>
    decreases fields.len() - i,
{
    if i < 0 || i >= fields.len() {
        Seq::empty()
    } else {
        seq![Visit {
            path: path.push(i as i32),
            full_name: joined_name(scope, crate::text::opt_str(fields[i].name)),
            file,
            index: i,
            what: Visited::Field { message, field: fields[i] },
        }] + field_visits(fields, i + 1, path, scope, file, message)
    }
}

/// The visits of the values of enum `enum_` from index `i` on; values are
/// named in the scope enclosing the enum.
pub open spec fn value_visits(
    values: Seq<EnumValueDescriptorProto>,
    i: int,
    path: Seq<i32>,
    scope: Seq<char>,
    file: int,
    enum_: int,
) -> Seq<Visit>
    decreases values.len() - i,
{
    if i < 0 || i >= values.len() {
        Seq::empty()
    } else {
        seq![Visit {
            path: path.push(i as i32),
            full_name: joined_name(scope, crate::text::opt_str(values[i].name)),
            file,
            index: i,
            what: Visited::EnumValue { enum_, value: values[i] },
        }] + value_visits(values, i + 1, path, scope, file, enum_)
    }
}

/// The visits of the methods of service `service` from index `i` on.
pub open spec fn method_visits(
    methods: Seq<MethodDescriptorProto>,
    i: int,
    path: Seq<i32>,
    scope: Seq<char>,
    file: int,
    service: int,
) -> Seq<Visit>
    decreases methods.len() - i,
{
    if i < 0 || i >= methods.len() {
        Seq::empty()
    } else {
        seq![Visit {
            path: path.push(i as i32),
            full_name: joined_name(scope, crate::text::opt_str(methods[i].name)),
            file,
            index: i,
            what: Visited::Method { service, method: methods[i] },
        }] + method_visits(methods, i + 1, path, scope, file, service)
    }
}

/// Counters with `n` more enums.
pub open spec fn add_enums(c: Counts, n: int) -> Counts {
    Counts { enum_: c.enum_ + n, ..c }
}

/// The visits of enums from index `i` on: each enum, then its values.
pub open spec fn enum_visits(
    enums: Seq<EnumDescriptorProto>,
    i: int,
    path: Seq<i32>,
    scope: Seq<char>,
    file: int,
    parent: Option<int>,
    c: Counts,
) -> Seq<Visit>
    decreases enums.len() - i,
{
    if i < 0 || i >= enums.len() {
        Seq::empty()
    } else {
        let e = enums[i];
        let epath = path.push(i as i32);
        seq![Visit {
            path: epath,
            full_name: joined_name(scope, crate::text::opt_str(e.name)),
            file,
            index: c.enum_,
            what: Visited::Enum { parent, enum_: e },
        }] + value_visits(e.value@, 0, epath.push(tag::ENUM_VALUE), scope, file, c.enum_)
            + enum_visits(enums, i + 1, path, scope, file, parent, add_enums(c, 1))
    }
}

/// The visits of extensions from index `i` on.
pub open spec fn extension_visits(
    extensions: Seq<FieldDescriptorProto>,
    i: int,
    path: Seq<i32>,
    scope: Seq<char>,
    file: int,
    parent: Option<int>,
    next: int,
) -> Seq<Visit>
    decreases extensions.len() - i,
{
    if i < 0 || i >= extensions.len() {
        Seq::empty()
    } else {
        seq![Visit {
            path: path.push(i as i32),
            full_name: joined_name(scope, crate::text::opt_str(extensions[i].name)),
            file,
            index: next,
            what: Visited::Extension { parent, extension: extensions[i] },
        }] + extension_visits(extensions, i + 1, path, scope, file, parent, next + 1)
    }
}

/// The visits of services from index `i` on: each service, then its methods.
pub open spec fn service_visits(
    services: Seq<ServiceDescriptorProto>,
    i: int,
    path: Seq<i32>,
    scope: Seq<char>,
    file: int,
    next: int,
) -> Seq<Visit>
    decreases services.len() - i,
{
    if i < 0 || i >= services.len() {
        Seq::empty()
    } else {
        let s = services[i];
        let spath = path.push(i as i32);
        let full = joined_name(scope, crate::text::opt_str(s.name));
        seq![Visit {
            path: spath,
            full_name: full,
            file,
            index: next,
            what: Visited::Service(s),
        }] + method_visits(s.method@, 0, spath.push(tag::SERVICE_METHOD), full, file, next)
            + service_visits(services, i + 1, path, scope, file, next + 1)
    }
}

} // verus!

verus! {

/// Counters with one more message.
pub open spec fn add_message(c: Counts) -> Counts {
    Counts { message: c.message + 1, ..c }
}

/// Counters with `n` more extensions.
pub open spec fn add_extensions(c: Counts, n: int) -> Counts {
    Counts { extension: c.extension + n, ..c }
}

/// Counters with `n` more services.
pub open spec fn add_services(c: Counts, n: int) -> Counts {
    Counts { service: c.service + n, ..c }
}

/// The visits of a message and everything nested in it, in this order: the
/// message, its oneofs, its fields, its nested messages, its nested enums and
/// its nested extensions; with the counters after them.
pub open spec fn message_visits(
    m: DescriptorProto,
    path: Seq<i32>,
    scope: Seq<char>,
    file: int,
    parent: Option<int>,
    c: Counts,
) -> (Seq<Visit>, Counts)
    decreases m, 0int,
{
    let full = joined_name(scope, crate::text::opt_str(m.name));
    let idx = c.message;
    let head = Visit { path, full_name: full, file, index: idx, what: Visited::Message { parent, message: m } };
    let oneofs = oneof_visits(m.oneof_decl@, 0, path.push(tag::MESSAGE_ONEOF_DECL), full, file, idx);
    let fields = field_visits(m.field@, 0, path.push(tag::MESSAGE_FIELD), full, file, idx);
    let nested = messages_visits(
        m.nested_type@,
        0,
        path.push(tag::MESSAGE_NESTED_TYPE),
        full,
        file,
        Some(idx),
        add_message(c),
    );
    let c2 = nested.1;
    let enums = enum_visits(m.enum_type@, 0, path.push(tag::MESSAGE_ENUM_TYPE), full, file, Some(idx), c2);
    let c3 = add_enums(c2, m.enum_type@.len() as int);
    let exts = extension_visits(
        m.extension@,
        0,
        path.push(tag::MESSAGE_EXTENSION),
        full,
        file,
        Some(idx),
        c3.extension,
    );
    (
        seq![head] + oneofs + fields + nested.0 + enums + exts,
        add_extensions(c3, m.extension@.len() as int),
    )
}

/// The visits of the messages from index `i` on, with the counters after them.
pub open spec fn messages_visits(
    ms: Seq<DescriptorProto>,
    i: int,
    path: Seq<i32>,
    scope: Seq<char>,
    file: int,
    parent: Option<int>,
    c: Counts,
) -> (Seq<Visit>, Counts)
    decreases ms, ms.len() - i,
{
    if i < 0 || i >= ms.len() {
        (Seq::empty(), c)
    } else {
        let a = message_visits(ms[i], path.push(i as i32), scope, file, parent, c);
        let b = messages_visits(ms, i + 1, path, scope, file, parent, a.1);
        (a.0 + b.0, b.1)
    }
}

/// The visits of a file: the file itself, then its messages, enums, services
/// and extensions, all named in the scope of its package.
pub open spec fn file_visits(f: FileDescriptorProto, c: Counts) -> (Seq<Visit>, Counts) {
    let scope = crate::text::opt_str(f.package);
    let fidx = c.file;
    let head = Visit { path: Seq::empty(), full_name: scope, file: fidx, index: fidx, what: Visited::File(f) };
    let msgs = messages_visits(
        f.message_type@,
        0,
        seq![tag::FILE_MESSAGE_TYPE],
        scope,
        fidx,
        None,
        Counts { file: c.file + 1, ..c },
    );
    let c1 = msgs.1;
    let enums = enum_visits(f.enum_type@, 0, seq![tag::FILE_ENUM_TYPE], scope, fidx, None, c1);
    let c2 = add_enums(c1, f.enum_type@.len() as int);
    let services = service_visits(f.service@, 0, seq![tag::FILE_SERVICE], scope, fidx, c2.service);
    let c3 = add_services(c2, f.service@.len() as int);
    let exts = extension_visits(f.extension@, 0, seq![tag::FILE_EXTENSION], scope, fidx, None, c3.extension);
    (
        seq![head] + msgs.0 + enums + services + exts,
        add_extensions(c3, f.extension@.len() as int),
    )
}

/// The visits of the files from index `i` on, with the counters after them.
pub open spec fn files_visits(fs: Seq<FileDescriptorProto>, i: int, c: Counts) -> (Seq<Visit>, Counts)
    decreases fs.len() - i,
{
    if i < 0 || i >= fs.len() {
        (Seq::empty(), c)
    } else {
        let a = file_visits(fs[i], c);
        let b = files_visits(fs, i + 1, a.1);
        (a.0 + b.0, b.1)
    }
}

} // verus!

verus! {

/// A visited definition, referring into the files being visited.
pub enum VisitedRef<'a> {
    File(&'a FileDescriptorProto),
    Message { parent: Option<u32>, message: &'a DescriptorProto },
    Field { message: u32, field: &'a FieldDescriptorProto },
    Oneof { message: u32, oneof: &'a OneofDescriptorProto },
    Service(&'a ServiceDescriptorProto),
    Method { service: u32, method: &'a MethodDescriptorProto },
    Enum { parent: Option<u32>, enum_: &'a EnumDescriptorProto },
    EnumValue { enum_: u32, value: &'a EnumValueDescriptorProto },
    Extension { parent: Option<u32>, extension: &'a FieldDescriptorProto },
}

/// One visit of a definition.
pub struct VisitEvent<'a> {
    pub path: Vec<i32>,
    pub full_name: Vec<char>,
    pub file: u32,
    pub index: u32,
    pub what: VisitedRef<'a>,
}

/// The optional index as an integer.
pub open spec fn opt_int(o: Option<u32>) -> Option<int> {
    match o {
        Some(x) => Some(x as int),
        None => None,
    }
}

impl<'a> VisitedRef<'a> {
    /// What is visited, by value.
    pub open spec fn view(&self) -> Visited {
        match *self {
            VisitedRef::File(f) => Visited::File(*f),
            VisitedRef::Message { parent, message } => Visited::Message {
                parent: opt_int(parent),
                message: *message,
            },
            VisitedRef::Field { message, field } => Visited::Field {
                message: message as int,
                field: *field,
            },
            VisitedRef::Oneof { message, oneof } => Visited::Oneof {
                message: message as int,
                oneof: *oneof,
            },
            VisitedRef::Service(s) => Visited::Service(*s),
            VisitedRef::Method { service, method } => Visited::Method {
                service: service as int,
                method: *method,
            },
            VisitedRef::Enum { parent, enum_ } => Visited::Enum {
                parent: opt_int(parent),
                enum_: *enum_,
            },
            VisitedRef::EnumValue { enum_, value } => Visited::EnumValue {
                enum_: enum_ as int,
                value: *value,
            },
            VisitedRef::Extension { parent, extension } => Visited::Extension {
                parent: opt_int(parent),
                extension: *extension,
            },
        }
    }
}

impl<'a> VisitEvent<'a> {
    /// The visit, by value.
    pub open spec fn view(&self) -> Visit {
        Visit {
            path: self.path@,
            full_name: self.full_name@,
            file: self.file as int,
            index: self.index as int,
            what: self.what.view(),
        }
    }
}

/// The visits recorded in a sequence of events.
pub open spec fn events_view<'a>(s: Seq<VisitEvent<'a>>) -> Seq<Visit> {
    s.map_values(|e: VisitEvent<'a>| e.view())
}

/// Appending an event appends its visit.
pub proof fn lemma_events_push<'a>(s: Seq<VisitEvent<'a>>, e: VisitEvent<'a>)
    ensures
        events_view(s.push(e)) == events_view(s).push(e.view()),
{
    assert(events_view(s.push(e)) =~= events_view(s).push(e.view()));
}

/// Whether counters stay within the range of indices.
pub open spec fn counts_fit(c: Counts) -> bool {
    c.file <= u32::MAX && c.message <= u32::MAX && c.enum_ <= u32::MAX && c.service <= u32::MAX
        && c.extension <= u32::MAX
}

/// Whether the counters `b` are at least `a`, with the same file and service counts.
pub open spec fn counts_grow_in_file(a: Counts, b: Counts) -> bool {
    b.file == a.file && b.service == a.service && b.message >= a.message && b.enum_ >= a.enum_
        && b.extension >= a.extension
}

/// Visiting messages only moves the message, enum and extension counters forward.
pub proof fn lemma_message_counts(
    m: DescriptorProto,
    path: Seq<i32>,
    scope: Seq<char>,
    file: int,
    parent: Option<int>,
    c: Counts,
)
    ensures
        counts_grow_in_file(add_message(c), message_visits(m, path, scope, file, parent, c).1),
    decreases m, 0int,
{
    let full = joined_name(scope, crate::text::opt_str(m.name));
    lemma_messages_counts(
        m.nested_type@,
        0,
        path.push(tag::MESSAGE_NESTED_TYPE),
        full,
        file,
        Some(c.message),
        add_message(c),
    );
}

/// Visiting messages only moves the message, enum and extension counters forward.
pub proof fn lemma_messages_counts(
    ms: Seq<DescriptorProto>,
    i: int,
    path: Seq<i32>,
    scope: Seq<char>,
    file: int,
    parent: Option<int>,
    c: Counts,
)
    ensures
        counts_grow_in_file(c, messages_visits(ms, i, path, scope, file, parent, c).1),
    decreases ms, ms.len() - i,
{
    if 0 <= i < ms.len() {
        let a = message_visits(ms[i], path.push(i as i32), scope, file, parent, c);
        lemma_message_counts(ms[i], path.push(i as i32), scope, file, parent, c);
        lemma_messages_counts(ms, i + 1, path, scope, file, parent, a.1);
    }
}

/// A copy of a path.
pub fn clone_path(v: &Vec<i32>) -> (r: Vec<i32>)
    ensures
        r@ == v@,
{
    let r = v.clone();
    assert(r@ =~= v@);
    r
}

/// The traversal state: the current path, scope and counters.
pub struct Context {
    pub path: Vec<i32>,
    pub scope: Vec<char>,
    pub offsets: DescriptorPoolOffsets,
}

/// Returns the current value of a counter and advances it.
pub fn post_inc(index: &mut u32) -> (r: u32)
    requires
        *old(index) < u32::MAX,
    ensures
        r == *old(index),
        *final(index) == *old(index) + 1,
{
    let value = *index;
    *index = value + 1;
    value
}

impl Context {
    /// Descends into field `path` of the current definition.
    pub fn push_path(&mut self, path: i32)
        ensures
            final(self).path@ == old(self).path@.push(path),
            final(self).scope@ == old(self).scope@,
            final(self).offsets == old(self).offsets,
    {
        self.path.push(path);
    }

    /// Returns from the last field descended into.
    pub fn pop_path(&mut self)
        requires
            old(self).path@.len() > 0,
        ensures
            final(self).path@ == old(self).path@.drop_last(),
            final(self).scope@ == old(self).scope@,
            final(self).offsets == old(self).offsets,
    {
        self.path.pop();
    }

    /// Enters the scope of a definition named `scope`.
    pub fn push_scope(&mut self, scope: &Vec<char>)
        ensures
            final(self).scope@ == joined_name(old(self).scope@, scope@),
            final(self).path@ == old(self).path@,
            final(self).offsets == old(self).offsets,
    {
        let joined = join_name(&self.scope, scope);
        self.scope = joined;
    }

    /// Leaves the scope of a definition named `scope`.
    pub fn pop_scope(&mut self, scope: &Vec<char>)
        requires
            exists|outer: Seq<char>| old(self).scope@ == joined_name(outer, scope@),
        ensures
            forall|outer: Seq<char>| old(self).scope@ == joined_name(outer, scope@)
                ==> final(self).scope@ == outer,
            final(self).path@ == old(self).path@,
            final(self).offsets == old(self).offsets,
    {
        let ghost outer = choose|outer: Seq<char>| old(self).scope@ == joined_name(outer, scope@);
        let len = self.scope.len();
        proof {
            assert(len >= scope@.len());
        }
        let keep = if len - scope.len() >= 1 {
            len - scope.len() - 1
        } else {
            0
        };
        self.scope.truncate(keep);
        proof {
            assert forall|o: Seq<char>| old(self).scope@ == joined_name(o, scope@) implies self.scope@
                == o by {
                if o.len() == 0 {
                    assert(self.scope@ =~= o);
                } else {
                    assert(old(self).scope@.take(keep as int) =~= o);
                }
            }
        }
    }
}

} // verus!

verus! {

impl Context {
    /// The counters as integers.
    pub open spec fn counts(&self) -> Counts {
        self.offsets.counts()
    }

    /// Records a visit at the current path and scope.
    fn record<'a>(&self, out: &mut Vec<VisitEvent<'a>>, file: u32, index: u32, what: VisitedRef<'a>)
        ensures
            events_view(final(out)@) == events_view(old(out)@).push(
                Visit {
                    path: self.path@,
                    full_name: self.scope@,
                    file: file as int,
                    index: index as int,
                    what: what.view(),
                },
            ),
    {
        let e = VisitEvent {
            path: clone_path(&self.path),
            full_name: crate::resolve::clone_chars(&self.scope),
            file,
            index,
            what,
        };
        proof {
            lemma_events_push(old(out)@, e);
        }
        out.push(e);
    }

    /// Visits the oneofs of message `message`.
    fn visit_oneofs<'a>(
        &mut self,
        oneofs: &'a Vec<OneofDescriptorProto>,
        out: &mut Vec<VisitEvent<'a>>,
        file: u32,
        message: u32,
    )
        requires
            oneofs@.len() <= u32::MAX,
        ensures
            events_view(final(out)@) == events_view(old(out)@) + oneof_visits(
                oneofs@,
                0,
                old(self).path@,
                old(self).scope@,
                file as int,
                message as int,
            ),
            final(self).path@ == old(self).path@,
            final(self).scope@ == old(self).scope@,
            final(self).offsets == old(self).offsets,
    {
        let ghost p = self.path@;
        let ghost s = self.scope@;
        let ghost out0 = events_view(out@);
        let mut i: usize = 0;
        while i < oneofs.len()
            invariant
                i <= oneofs@.len(),
                oneofs@.len() <= u32::MAX,
                self.path@ == p,
                self.scope@ == s,
                self.offsets == old(self).offsets,
                events_view(out@) + oneof_visits(oneofs@, i as int, p, s, file as int, message as int)
                    == out0 + oneof_visits(oneofs@, 0, p, s, file as int, message as int),
            decreases oneofs@.len() - i,
        {
            let name = chars_of(oneofs[i].name());
            self.push_path(i as i32);
            self.push_scope(&name);
            let ghost before = events_view(out@);
            self.record(out, file, i as u32, VisitedRef::Oneof { message, oneof: &oneofs[i] });
            proof {
                let v = Visit {
                    path: p.push(i as i32),
                    full_name: joined_name(s, crate::text::opt_str(oneofs@[i as int].name)),
                    file: file as int,
                    index: i as int,
                    what: Visited::Oneof { message: message as int, oneof: oneofs@[i as int] },
                };
                assert(self.path@ == p.push(i as i32));
                assert(events_view(out@) == before.push(v));
                assert(oneof_visits(oneofs@, i as int, p, s, file as int, message as int)
                    == seq![v] + oneof_visits(oneofs@, i + 1, p, s, file as int, message as int));
                assert(events_view(out@) + oneof_visits(oneofs@, i + 1, p, s, file as int, message as int)
                    =~= before + oneof_visits(oneofs@, i as int, p, s, file as int, message as int));
            }
            self.pop_scope(&name);
            self.pop_path();
            proof {
                assert(self.path@ =~= p);
            }
            i += 1;
        }
        proof {
            assert(events_view(out@) + oneof_visits(oneofs@, i as int, p, s, file as int, message as int)
                =~= events_view(out@));
        }
    }

    /// Visits the fields of message `message`.
    fn visit_fields<'a>(
        &mut self,
        fields: &'a Vec<FieldDescriptorProto>,
        out: &mut Vec<VisitEvent<'a>>,
        file: u32,
        message: u32,
    )
        requires
            fields@.len() <= u32::MAX,
        ensures
            events_view(final(out)@) == events_view(old(out)@) + field_visits(
                fields@,
                0,
                old(self).path@,
                old(self).scope@,
                file as int,
                message as int,
            ),
            final(self).path@ == old(self).path@,
            final(self).scope@ == old(self).scope@,
            final(self).offsets == old(self).offsets,
    {
        let ghost p = self.path@;
        let ghost s = self.scope@;
        let ghost out0 = events_view(out@);
        let mut i: usize = 0;
        while i < fields.len()
            invariant
                i <= fields@.len(),
                fields@.len() <= u32::MAX,
                self.path@ == p,
                self.scope@ == s,
                self.offsets == old(self).offsets,
                events_view(out@) + field_visits(fields@, i as int, p, s, file as int, message as int)
                    == out0 + field_visits(fields@, 0, p, s, file as int, message as int),
            decreases fields@.len() - i,
        {
            let name = chars_of(fields[i].name());
            self.push_path(i as i32);
            self.push_scope(&name);
            let ghost before = events_view(out@);
            self.record(out, file, i as u32, VisitedRef::Field { message, field: &fields[i] });
            proof {
                let v = Visit {
                    path: p.push(i as i32),
                    full_name: joined_name(s, crate::text::opt_str(fields@[i as int].name)),
                    file: file as int,
                    index: i as int,
                    what: Visited::Field { message: message as int, field: fields@[i as int] },
                };
                assert(self.path@ == p.push(i as i32));
                assert(events_view(out@) == before.push(v));
                assert(field_visits(fields@, i as int, p, s, file as int, message as int)
                    == seq![v] + field_visits(fields@, i + 1, p, s, file as int, message as int));
                assert(events_view(out@) + field_visits(fields@, i + 1, p, s, file as int, message as int)
                    =~= before + field_visits(fields@, i as int, p, s, file as int, message as int));
            }
            self.pop_scope(&name);
            self.pop_path();
            proof {
                assert(self.path@ =~= p);
            }
            i += 1;
        }
        proof {
            assert(events_view(out@) + field_visits(fields@, i as int, p, s, file as int, message as int)
                =~= events_view(out@));
        }
    }

    /// Visits the values of enum `enum_`.
    fn visit_enum_values<'a>(
        &mut self,
        values: &'a Vec<EnumValueDescriptorProto>,
        out: &mut Vec<VisitEvent<'a>>,
        file: u32,
        enum_: u32,
    )
        requires
            values@.len() <= u32::MAX,
        ensures
            events_view(final(out)@) == events_view(old(out)@) + value_visits(
                values@,
                0,
                old(self).path@,
                old(self).scope@,
                file as int,
                enum_ as int,
            ),
            final(self).path@ == old(self).path@,
            final(self).scope@ == old(self).scope@,
            final(self).offsets == old(self).offsets,
    {
        let ghost p = self.path@;
        let ghost s = self.scope@;
        let ghost out0 = events_view(out@);
        let mut i: usize = 0;
        while i < values.len()
            invariant
                i <= values@.len(),
                values@.len() <= u32::MAX,
                self.path@ == p,
                self.scope@ == s,
                self.offsets == old(self).offsets,
                events_view(out@) + value_visits(values@, i as int, p, s, file as int, enum_ as int)
                    == out0 + value_visits(values@, 0, p, s, file as int, enum_ as int),
            decreases values@.len() - i,
        {
            let name = chars_of(values[i].name());
            self.push_path(i as i32);
            self.push_scope(&name);
            let ghost before = events_view(out@);
            self.record(out, file, i as u32, VisitedRef::EnumValue { enum_, value: &values[i] });
            proof {
                let v = Visit {
                    path: p.push(i as i32),
                    full_name: joined_name(s, crate::text::opt_str(values@[i as int].name)),
                    file: file as int,
                    index: i as int,
                    what: Visited::EnumValue { enum_: enum_ as int, value: values@[i as int] },
                };
                assert(self.path@ == p.push(i as i32));
                assert(events_view(out@) == before.push(v));
                assert(value_visits(values@, i as int, p, s, file as int, enum_ as int)
                    == seq![v] + value_visits(values@, i + 1, p, s, file as int, enum_ as int));
                assert(events_view(out@) + value_visits(values@, i + 1, p, s, file as int, enum_ as int)
                    =~= before + value_visits(values@, i as int, p, s, file as int, enum_ as int));
            }
            self.pop_scope(&name);
            self.pop_path();
            proof {
                assert(self.path@ =~= p);
            }
            i += 1;
        }
        proof {
            assert(events_view(out@) + value_visits(values@, i as int, p, s, file as int, enum_ as int)
                =~= events_view(out@));
        }
    }

    /// Visits the methods of service `service`.
    fn visit_methods<'a>(
        &mut self,
        methods: &'a Vec<MethodDescriptorProto>,
        out: &mut Vec<VisitEvent<'a>>,
        file: u32,
        service: u32,
    )
        requires
            methods@.len() <= u32::MAX,
        ensures
            events_view(final(out)@) == events_view(old(out)@) + method_visits(
                methods@,
                0,
                old(self).path@,
                old(self).scope@,
                file as int,
                service as int,
            ),
            final(self).path@ == old(self).path@,
            final(self).scope@ == old(self).scope@,
            final(self).offsets == old(self).offsets,
    {
        let ghost p = self.path@;
        let ghost s = self.scope@;
        let ghost out0 = events_view(out@);
        let mut i: usize = 0;
        while i < methods.len()
            invariant
                i <= methods@.len(),
                methods@.len() <= u32::MAX,
                self.path@ == p,
                self.scope@ == s,
                self.offsets == old(self).offsets,
                events_view(out@) + method_visits(methods@, i as int, p, s, file as int, service as int)
                    == out0 + method_visits(methods@, 0, p, s, file as int, service as int),
            decreases methods@.len() - i,
        {
            let name = chars_of(methods[i].name());
            self.push_path(i as i32);
            self.push_scope(&name);
            let ghost before = events_view(out@);
            self.record(out, file, i as u32, VisitedRef::Method { service, method: &methods[i] });
            proof {
                let v = Visit {
                    path: p.push(i as i32),
                    full_name: joined_name(s, crate::text::opt_str(methods@[i as int].name)),
                    file: file as int,
                    index: i as int,
                    what: Visited::Method { service: service as int, method: methods@[i as int] },
                };
                assert(self.path@ == p.push(i as i32));
                assert(events_view(out@) == before.push(v));
                assert(method_visits(methods@, i as int, p, s, file as int, service as int)
                    == seq![v] + method_visits(methods@, i + 1, p, s, file as int, service as int));
                assert(events_view(out@) + method_visits(methods@, i + 1, p, s, file as int, service as int)
                    =~= before + method_visits(methods@, i as int, p, s, file as int, service as int));
            }
            self.pop_scope(&name);
            self.pop_path();
            proof {
                assert(self.path@ =~= p);
            }
            i += 1;
        }
        proof {
            assert(events_view(out@) + method_visits(methods@, i as int, p, s, file as int, service as int)
                =~= events_view(out@));
        }
    }
}

} // verus!

verus! {

/// Whether every enum has at most `u32::MAX` values.
pub open spec fn enum_values_fit(es: Seq<EnumDescriptorProto>) -> bool {
    forall|i: int| 0 <= i < es.len() ==> #[trigger] es[i].value@.len() <= u32::MAX
}

/// Whether every service has at most `u32::MAX` methods.
pub open spec fn service_methods_fit(ss: Seq<ServiceDescriptorProto>) -> bool {
    forall|i: int| 0 <= i < ss.len() ==> #[trigger] ss[i].method@.len() <= u32::MAX
}

impl Context {
    /// Visits an enum and its values.
    fn visit_enum<'a>(
        &mut self,
        enum_: &'a EnumDescriptorProto,
        out: &mut Vec<VisitEvent<'a>>,
        file: u32,
        parent: Option<u32>,
    )
        requires
            old(self).offsets.enum_ < u32::MAX,
            enum_.value@.len() <= u32::MAX,
        ensures
            events_view(final(out)@) == events_view(old(out)@) + seq![
                Visit {
                    path: old(self).path@,
                    full_name: joined_name(old(self).scope@, crate::text::opt_str(enum_.name)),
                    file: file as int,
                    index: old(self).offsets.enum_ as int,
                    what: Visited::Enum { parent: opt_int(parent), enum_: *enum_ },
                },
            ] + value_visits(
                enum_.value@,
                0,
                old(self).path@.push(tag::ENUM_VALUE),
                old(self).scope@,
                file as int,
                old(self).offsets.enum_ as int,
            ),
            final(self).path@ == old(self).path@,
            final(self).scope@ == old(self).scope@,
            final(self).counts() == add_enums(old(self).counts(), 1),
    {
        let name = chars_of(enum_.name());
        self.push_scope(&name);
        let index = post_inc(&mut self.offsets.enum_);
        self.record(out, file, index, VisitedRef::Enum { parent, enum_ });
        self.pop_scope(&name);
        self.push_path(tag::ENUM_VALUE);
        self.visit_enum_values(&enum_.value, out, file, index);
        self.pop_path();
        proof {
            assert(self.path@ =~= old(self).path@);
            assert(self.counts() =~= add_enums(old(self).counts(), 1));
        }
    }

    /// Visits a list of enums.
    fn visit_enums<'a>(
        &mut self,
        enums: &'a Vec<EnumDescriptorProto>,
        out: &mut Vec<VisitEvent<'a>>,
        file: u32,
        parent: Option<u32>,
    )
        requires
            old(self).offsets.enum_ + enums@.len() <= u32::MAX,
            enum_values_fit(enums@),
        ensures
            events_view(final(out)@) == events_view(old(out)@) + enum_visits(
                enums@,
                0,
                old(self).path@,
                old(self).scope@,
                file as int,
                opt_int(parent),
                old(self).counts(),
            ),
            final(self).path@ == old(self).path@,
            final(self).scope@ == old(self).scope@,
            final(self).counts() == add_enums(old(self).counts(), enums@.len() as int),
    {
        let ghost p = self.path@;
        let ghost s = self.scope@;
        let ghost c0 = self.counts();
        let ghost out0 = events_view(out@);
        let mut i: usize = 0;
        while i < enums.len()
            invariant
                i <= enums@.len(),
                c0.enum_ + enums@.len() <= u32::MAX,
                enum_values_fit(enums@),
                self.path@ == p,
                self.scope@ == s,
                self.counts() == add_enums(c0, i as int),
                events_view(out@) + enum_visits(enums@, i as int, p, s, file as int, opt_int(parent), self.counts())
                    == out0 + enum_visits(enums@, 0, p, s, file as int, opt_int(parent), c0),
            decreases enums@.len() - i,
        {
            let ghost before = events_view(out@);
            let ghost cur = self.counts();
            self.push_path(i as i32);
            assert(enums@[i as int].value@.len() <= u32::MAX);
            self.visit_enum(&enums[i], out, file, parent);
            self.pop_path();
            proof {
                assert(self.path@ =~= p);
                assert(add_enums(cur, 1) =~= add_enums(c0, i + 1));
                assert(events_view(out@) + enum_visits(enums@, i + 1, p, s, file as int, opt_int(parent), self.counts())
                    =~= before + enum_visits(enums@, i as int, p, s, file as int, opt_int(parent), cur));
            }
            i += 1;
        }
        proof {
            assert(events_view(out@) + enum_visits(enums@, i as int, p, s, file as int, opt_int(parent), self.counts())
                =~= events_view(out@));
        }
    }

    /// Visits a list of extensions.
    fn visit_extensions<'a>(
        &mut self,
        extensions: &'a Vec<FieldDescriptorProto>,
        out: &mut Vec<VisitEvent<'a>>,
        file: u32,
        parent: Option<u32>,
    )
        requires
            old(self).offsets.extension + extensions@.len() <= u32::MAX,
        ensures
            events_view(final(out)@) == events_view(old(out)@) + extension_visits(
                extensions@,
                0,
                old(self).path@,
                old(self).scope@,
                file as int,
                opt_int(parent),
                old(self).offsets.extension as int,
            ),
            final(self).path@ == old(self).path@,
            final(self).scope@ == old(self).scope@,
            final(self).counts() == add_extensions(old(self).counts(), extensions@.len() as int),
    {
        let ghost p = self.path@;
        let ghost s = self.scope@;
        let ghost c0 = self.counts();
        let ghost out0 = events_view(out@);
        let mut i: usize = 0;
        while i < extensions.len()
            invariant
                i <= extensions@.len(),
                c0.extension + extensions@.len() <= u32::MAX,
                self.path@ == p,
                self.scope@ == s,
                self.counts() == add_extensions(c0, i as int),
                events_view(out@) + extension_visits(extensions@, i as int, p, s, file as int, opt_int(parent), self.offsets.extension as int)
                    == out0 + extension_visits(extensions@, 0, p, s, file as int, opt_int(parent), c0.extension),
            decreases extensions@.len() - i,
        {
            let ghost before = events_view(out@);
            let ghost cur = self.counts();
            let name = chars_of(extensions[i].name());
            self.push_path(i as i32);
            self.push_scope(&name);
            let index = post_inc(&mut self.offsets.extension);
            self.record(out, file, index, VisitedRef::Extension { parent, extension: &extensions[i] });
            self.pop_scope(&name);
            self.pop_path();
            proof {
                assert(self.path@ =~= p);
                assert(self.counts() =~= add_extensions(c0, i + 1));
                assert(events_view(out@) + extension_visits(extensions@, i + 1, p, s, file as int, opt_int(parent), self.offsets.extension as int)
                    =~= before + extension_visits(extensions@, i as int, p, s, file as int, opt_int(parent), cur.extension));
            }
            i += 1;
        }
        proof {
            assert(events_view(out@) + extension_visits(extensions@, i as int, p, s, file as int, opt_int(parent), self.offsets.extension as int)
                =~= events_view(out@));
        }
    }

    /// Visits a list of services and their methods.
    fn visit_services<'a>(
        &mut self,
        services: &'a Vec<ServiceDescriptorProto>,
        out: &mut Vec<VisitEvent<'a>>,
        file: u32,
    )
        requires
            old(self).offsets.service + services@.len() <= u32::MAX,
            service_methods_fit(services@),
        ensures
            events_view(final(out)@) == events_view(old(out)@) + service_visits(
                services@,
                0,
                old(self).path@,
                old(self).scope@,
                file as int,
                old(self).offsets.service as int,
            ),
            final(self).path@ == old(self).path@,
            final(self).scope@ == old(self).scope@,
            final(self).counts() == add_services(old(self).counts(), services@.len() as int),
    {
        let ghost p = self.path@;
        let ghost s = self.scope@;
        let ghost c0 = self.counts();
        let ghost out0 = events_view(out@);
        let mut i: usize = 0;
        while i < services.len()
            invariant
                i <= services@.len(),
                c0.service + services@.len() <= u32::MAX,
                service_methods_fit(services@),
                self.path@ == p,
                self.scope@ == s,
                self.counts() == add_services(c0, i as int),
                events_view(out@) + service_visits(services@, i as int, p, s, file as int, self.offsets.service as int)
                    == out0 + service_visits(services@, 0, p, s, file as int, c0.service),
            decreases services@.len() - i,
        {
            let ghost before = events_view(out@);
            let ghost cur = self.counts();
            let name = chars_of(services[i].name());
            self.push_path(i as i32);
            self.push_scope(&name);
            let index = post_inc(&mut self.offsets.service);
            self.record(out, file, index, VisitedRef::Service(&services[i]));
            self.push_path(tag::SERVICE_METHOD);
            assert(services@[i as int].method@.len() <= u32::MAX);
            self.visit_methods(&services[i].method, out, file, index);
            self.pop_path();
            self.pop_scope(&name);
            self.pop_path();
            proof {
                assert(self.path@ =~= p);
                assert(self.counts() =~= add_services(c0, i + 1));
                assert(events_view(out@) + service_visits(services@, i + 1, p, s, file as int, self.offsets.service as int)
                    =~= before + service_visits(services@, i as int, p, s, file as int, cur.service));
            }
            i += 1;
        }
        proof {
            assert(events_view(out@) + service_visits(services@, i as int, p, s, file as int, self.offsets.service as int)
                =~= events_view(out@));
        }
    }
}

} // verus!

verus! {

/// Whether the lists in a message, and in the messages nested in it, are
/// short enough to be indexed by `u32`.
pub open spec fn message_fits(m: DescriptorProto) -> bool
    decreases m, 0int,
{
    &&& m.oneof_decl@.len() <= u32::MAX
    &&& m.field@.len() <= u32::MAX
    &&& enum_values_fit(m.enum_type@)
    &&& messages_fit(m.nested_type@, 0)
}

/// Whether `message_fits` holds of the messages from index `i` on.
pub open spec fn messages_fit(ms: Seq<DescriptorProto>, i: int) -> bool
    decreases ms, ms.len() - i,
{
    if i < 0 || i >= ms.len() {
        true
    } else {
        message_fits(ms[i]) && messages_fit(ms, i + 1)
    }
}

impl Context {
    /// Visits a message and everything nested in it.
    fn visit_message<'a>(
        &mut self,
        message: &'a DescriptorProto,
        out: &mut Vec<VisitEvent<'a>>,
        file: u32,
        parent: Option<u32>,
    )
        requires
            message_fits(*message),
            counts_fit(
                message_visits(
                    *message,
                    old(self).path@,
                    old(self).scope@,
                    file as int,
                    opt_int(parent),
                    old(self).counts(),
                ).1,
            ),
        ensures
            events_view(final(out)@) == events_view(old(out)@) + message_visits(
                *message,
                old(self).path@,
                old(self).scope@,
                file as int,
                opt_int(parent),
                old(self).counts(),
            ).0,
            final(self).counts() == message_visits(
                *message,
                old(self).path@,
                old(self).scope@,
                file as int,
                opt_int(parent),
                old(self).counts(),
            ).1,
            final(self).path@ == old(self).path@,
            final(self).scope@ == old(self).scope@,
        decreases *message, 0int,
    {
        let ghost p = self.path@;
        let ghost s = self.scope@;
        let ghost c0 = self.counts();
        let ghost out0 = events_view(out@);
        let ghost mv = message_visits(*message, p, s, file as int, opt_int(parent), c0);
        proof {
            lemma_message_counts(*message, p, s, file as int, opt_int(parent), c0);
        }
        let name = chars_of(message.name());
        self.push_scope(&name);
        let ghost full = self.scope@;
        let index = post_inc(&mut self.offsets.message);
        self.record(out, file, index, VisitedRef::Message { parent, message });
        let ghost after_head = events_view(out@);

        self.push_path(tag::MESSAGE_ONEOF_DECL);
        self.visit_oneofs(&message.oneof_decl, out, file, index);
        self.pop_path();
        proof {
            assert(self.path@ =~= p);
        }

        let ghost after_oneofs = events_view(out@);
        self.push_path(tag::MESSAGE_FIELD);
        self.visit_fields(&message.field, out, file, index);
        self.pop_path();
        proof {
            assert(self.path@ =~= p);
        }
        let ghost after_fields = events_view(out@);
        proof {
            assert(full == joined_name(s, crate::text::opt_str(message.name)));
            assert(index as int == c0.message);
            assert(after_head == out0.push(mv.0[0]));
        }

        self.push_path(tag::MESSAGE_NESTED_TYPE);
        let ghost np = self.path@;
        let ghost c1 = self.counts();
        let ghost nested_all = messages_visits(message.nested_type@, 0, np, full, file as int, Some(index as int), c1);
        proof {
            assert(c1 == add_message(c0));
        }
        let mut i: usize = 0;
        while i < message.nested_type.len()
            invariant
                i <= message.nested_type@.len(),
                messages_fit(message.nested_type@, i as int),
                self.path@ == np,
                self.scope@ == full,
                nested_all == messages_visits(message.nested_type@, 0, np, full, file as int, Some(index as int), c1),
                counts_fit(nested_all.1),
                messages_visits(message.nested_type@, i as int, np, full, file as int, Some(index as int), self.counts()).1
                    == nested_all.1,
                events_view(out@) + messages_visits(message.nested_type@, i as int, np, full, file as int, Some(index as int), self.counts()).0
                    == after_fields + nested_all.0,
            decreases message.nested_type@.len() - i,
        {
            let ghost before = events_view(out@);
            let ghost cur = self.counts();
            let ghost a = message_visits(message.nested_type@[i as int], np.push(i as i32), full, file as int, Some(index as int), cur);
            proof {
                lemma_messages_counts(message.nested_type@, i + 1, np, full, file as int, Some(index as int), a.1);
                assert(message_fits(message.nested_type@[i as int]));
            }
            self.push_path(i as i32);
            self.visit_message(&message.nested_type[i], out, file, Some(index));
            self.pop_path();
            proof {
                assert(self.path@ =~= np);
                assert(events_view(out@) + messages_visits(message.nested_type@, i + 1, np, full, file as int, Some(index as int), self.counts()).0
                    =~= before + messages_visits(message.nested_type@, i as int, np, full, file as int, Some(index as int), cur).0);
            }
            i += 1;
        }
        self.pop_path();
        proof {
            assert(self.path@ =~= p);
            assert(events_view(out@) =~= after_fields + nested_all.0);
            assert(self.counts() == nested_all.1);
        }
        let ghost after_nested = events_view(out@);

        self.push_path(tag::MESSAGE_ENUM_TYPE);
        self.visit_enums(&message.enum_type, out, file, Some(index));
        self.pop_path();
        proof {
            assert(self.path@ =~= p);
        }
        let ghost after_enums = events_view(out@);
        self.push_path(tag::MESSAGE_EXTENSION);
        self.visit_extensions(&message.extension, out, file, Some(index));
        self.pop_path();
        self.pop_scope(&name);
        proof {
            let full2 = joined_name(s, crate::text::opt_str(message.name));
            let head = Visit { path: p, full_name: full2, file: file as int, index: c0.message, what: Visited::Message { parent: opt_int(parent), message: *message } };
            assert(after_head =~= out0 + seq![head]);
            assert(after_oneofs =~= after_head + oneof_visits(message.oneof_decl@, 0, p.push(tag::MESSAGE_ONEOF_DECL), full2, file as int, c0.message));
            assert(after_fields =~= after_oneofs + field_visits(message.field@, 0, p.push(tag::MESSAGE_FIELD), full2, file as int, c0.message));
            let nested = messages_visits(message.nested_type@, 0, p.push(tag::MESSAGE_NESTED_TYPE), full2, file as int, Some(c0.message), add_message(c0));
            assert(nested == nested_all);
            assert(after_nested =~= after_fields + nested.0);
            let c2 = nested.1;
            let enums = enum_visits(message.enum_type@, 0, p.push(tag::MESSAGE_ENUM_TYPE), full2, file as int, Some(c0.message), c2);
            assert(after_enums =~= after_nested + enums);
            let c3 = add_enums(c2, message.enum_type@.len() as int);
            let exts = extension_visits(message.extension@, 0, p.push(tag::MESSAGE_EXTENSION), full2, file as int, Some(c0.message), c3.extension);
            assert(events_view(out@) =~= after_enums + exts);
        }
        proof {
            assert(self.path@ =~= p);
            assert(events_view(out@) =~= out0 + mv.0);
            assert(self.counts() =~= mv.1);
        }
    }
}

} // verus!

verus! {

/// Whether the lists in a file are short enough to be indexed by `u32`.
pub open spec fn file_fits(f: FileDescriptorProto) -> bool {
    &&& messages_fit(f.message_type@, 0)
    &&& enum_values_fit(f.enum_type@)
    &&& service_methods_fit(f.service@)
}

/// Whether every file of a batch fits.
pub open spec fn files_fit(fs: Seq<FileDescriptorProto>) -> bool {
    forall|i: int| 0 <= i < fs.len() ==> #[trigger] file_fits(fs[i])
}

impl Context {
    /// Visits a file and everything defined in it.
    fn visit_file<'a>(&mut self, file: &'a FileDescriptorProto, out: &mut Vec<VisitEvent<'a>>)
        requires
            file_fits(*file),
            old(self).path@.len() == 0,
            old(self).scope@.len() == 0,
            counts_fit(file_visits(*file, old(self).counts()).1),
        ensures
            events_view(final(out)@) == events_view(old(out)@) + file_visits(*file, old(self).counts()).0,
            final(self).counts() == file_visits(*file, old(self).counts()).1,
            final(self).path@.len() == 0,
            final(self).scope@.len() == 0,
    {
        let ghost c0 = self.counts();
        let ghost out0 = events_view(out@);
        let ghost fv = file_visits(*file, c0);
        let ghost p = self.path@;
        proof {
            assert(p =~= Seq::<i32>::empty());
        }
        let package = chars_of(file.package());
        let has_package = package.len() > 0;
        if has_package {
            self.push_scope(&package);
        }
        let ghost scope = self.scope@;
        proof {
            assert(scope =~= crate::text::opt_str(file.package));
            let c1 = Counts { file: c0.file + 1, ..c0 };
            lemma_messages_counts(file.message_type@, 0, seq![tag::FILE_MESSAGE_TYPE], scope, c0.file, None, c1);
        }
        let index = post_inc(&mut self.offsets.file);
        self.record(out, index, index, VisitedRef::File(file));
        let ghost after_head = events_view(out@);

        self.push_path(tag::FILE_MESSAGE_TYPE);
        let ghost np = self.path@;
        let ghost c1 = self.counts();
        let ghost msgs = messages_visits(file.message_type@, 0, np, scope, index as int, None, c1);
        proof {
            assert(np =~= seq![tag::FILE_MESSAGE_TYPE]);
        }
        let mut i: usize = 0;
        while i < file.message_type.len()
            invariant
                i <= file.message_type@.len(),
                messages_fit(file.message_type@, i as int),
                self.path@ == np,
                self.scope@ == scope,
                msgs == messages_visits(file.message_type@, 0, np, scope, index as int, None, c1),
                counts_fit(msgs.1),
                messages_visits(file.message_type@, i as int, np, scope, index as int, None, self.counts()).1
                    == msgs.1,
                events_view(out@) + messages_visits(file.message_type@, i as int, np, scope, index as int, None, self.counts()).0
                    == after_head + msgs.0,
            decreases file.message_type@.len() - i,
        {
            let ghost before = events_view(out@);
            let ghost cur = self.counts();
            let ghost a = message_visits(file.message_type@[i as int], np.push(i as i32), scope, index as int, None, cur);
            proof {
                lemma_messages_counts(file.message_type@, i + 1, np, scope, index as int, None, a.1);
            }
            self.push_path(i as i32);
            self.visit_message(&file.message_type[i], out, index, None);
            self.pop_path();
            proof {
                assert(self.path@ =~= np);
                assert(events_view(out@) + messages_visits(file.message_type@, i + 1, np, scope, index as int, None, self.counts()).0
                    =~= before + messages_visits(file.message_type@, i as int, np, scope, index as int, None, cur).0);
            }
            i += 1;
        }
        self.pop_path();
        proof {
            assert(self.path@ =~= p);
            assert(events_view(out@) =~= after_head + msgs.0);
            assert(self.counts() == msgs.1);
        }
        let ghost after_msgs = events_view(out@);

        self.push_path(tag::FILE_ENUM_TYPE);
        self.visit_enums(&file.enum_type, out, index, None);
        self.pop_path();
        proof {
            assert(self.path@ =~= p);
        }
        let ghost after_enums = events_view(out@);
        self.push_path(tag::FILE_SERVICE);
        self.visit_services(&file.service, out, index);
        self.pop_path();
        proof {
            assert(self.path@ =~= p);
        }
        let ghost after_services = events_view(out@);
        self.push_path(tag::FILE_EXTENSION);
        self.visit_extensions(&file.extension, out, index, None);
        self.pop_path();
        if has_package {
            self.pop_scope(&package);
        }
        proof {
            assert(self.path@ =~= p);
            let head = Visit { path: Seq::empty(), full_name: scope, file: c0.file, index: c0.file, what: Visited::File(*file) };
            assert(p.push(tag::FILE_ENUM_TYPE) =~= seq![tag::FILE_ENUM_TYPE]);
            assert(p.push(tag::FILE_SERVICE) =~= seq![tag::FILE_SERVICE]);
            assert(p.push(tag::FILE_EXTENSION) =~= seq![tag::FILE_EXTENSION]);
            assert(after_head =~= out0 + seq![head]);
            let c2 = add_enums(msgs.1, file.enum_type@.len() as int);
            let c3 = add_services(c2, file.service@.len() as int);
            assert(after_enums =~= after_msgs + enum_visits(file.enum_type@, 0, seq![tag::FILE_ENUM_TYPE], scope, c0.file, None, msgs.1));
            assert(after_services =~= after_enums + service_visits(file.service@, 0, seq![tag::FILE_SERVICE], scope, c0.file, c2.service));
            assert(events_view(out@) =~= after_services + extension_visits(file.extension@, 0, seq![tag::FILE_EXTENSION], scope, c0.file, None, c3.extension));
            assert(events_view(out@) =~= out0 + fv.0);
            assert(self.counts() =~= fv.1);
            if has_package {
                assert(self.scope@ =~= Seq::<char>::empty());
            }
        }
    }
}

/// Visits each file of a batch in order, numbering its definitions from
/// `offsets` on.
pub fn visit<'a>(offsets: DescriptorPoolOffsets, files: &'a Vec<FileDescriptorProto>) -> (r: (Vec<VisitEvent<'a>>, DescriptorPoolOffsets))
    requires
        files_fit(files@),
        counts_fit(files_visits(files@, 0, offsets.counts()).1),
    ensures
        events_view(r.0@) == files_visits(files@, 0, offsets.counts()).0,
        r.1.counts() == files_visits(files@, 0, offsets.counts()).1,
{
    let mut context = Context { path: Vec::new(), scope: Vec::new(), offsets };
    let mut out: Vec<VisitEvent<'a>> = Vec::new();
    let ghost all = files_visits(files@, 0, offsets.counts());
    let mut i: usize = 0;
    while i < files.len()
        invariant
            i <= files@.len(),
            files_fit(files@),
            context.path@.len() == 0,
            context.scope@.len() == 0,
            all == files_visits(files@, 0, offsets.counts()),
            counts_fit(all.1),
            files_visits(files@, i as int, context.counts()).1 == all.1,
            events_view(out@) + files_visits(files@, i as int, context.counts()).0 == all.0,
        decreases files@.len() - i,
    {
        let ghost before = events_view(out@);
        let ghost cur = context.counts();
        let ghost a = file_visits(files@[i as int], cur);
        proof {
            lemma_file_counts(files@[i as int], cur);
            lemma_files_counts(files@, i + 1, a.1);
            assert(file_fits(files@[i as int]));
        }
        context.visit_file(&files[i], &mut out);
        proof {
            assert(events_view(out@) + files_visits(files@, i + 1, context.counts()).0
                =~= before + files_visits(files@, i as int, cur).0);
        }
        i += 1;
    }
    proof {
        assert(events_view(out@) =~= all.0);
    }
    (out, context.offsets)
}

/// Whether the counters `b` are at least `a`.
pub open spec fn counts_grow(a: Counts, b: Counts) -> bool {
    b.file >= a.file && b.service >= a.service && b.message >= a.message && b.enum_ >= a.enum_
        && b.extension >= a.extension
}

/// Visiting a file moves every counter forward, the file counter by one.
pub proof fn lemma_file_counts(f: FileDescriptorProto, c: Counts)
    ensures
        counts_grow(c, file_visits(f, c).1),
        file_visits(f, c).1.file == c.file + 1,
{
    let scope = crate::text::opt_str(f.package);
    lemma_messages_counts(f.message_type@, 0, seq![tag::FILE_MESSAGE_TYPE], scope, c.file, None, Counts { file: c.file + 1, ..c });
}

/// Visiting files moves every counter forward.
pub proof fn lemma_files_counts(fs: Seq<FileDescriptorProto>, i: int, c: Counts)
    ensures
        counts_grow(c, files_visits(fs, i, c).1),
    decreases fs.len() - i,
{
    if 0 <= i < fs.len() {
        let a = file_visits(fs[i], c);
        lemma_file_counts(fs[i], c);
        lemma_files_counts(fs, i + 1, a.1);
    }
}

} // verus!

verus! {

/// Visits one file, numbering its definitions from `offsets` on.
pub fn visit_file_events<'a>(offsets: DescriptorPoolOffsets, file: &'a FileDescriptorProto) -> (r: (Vec<VisitEvent<'a>>, DescriptorPoolOffsets))
    requires
        file_fits(*file),
        counts_fit(file_visits(*file, offsets.counts()).1),
    ensures
        events_view(r.0@) == file_visits(*file, offsets.counts()).0,
        r.1.counts() == file_visits(*file, offsets.counts()).1,
{
    let mut context = Context { path: Vec::new(), scope: Vec::new(), offsets };
    let mut out: Vec<VisitEvent<'a>> = Vec::new();
    context.visit_file(file, &mut out);
    proof {
        assert(events_view(out@) =~= file_visits(*file, offsets.counts()).0);
    }
    (out, context.offsets)
}

/// Whether all visits are in file `file` and none is the visit of a file.
pub open spec fn inner_visits(s: Seq<Visit>, file: int) -> bool {
    forall|j: int| 0 <= j < s.len() ==> (#[trigger] s[j]).file == file && !(s[j].what is File)
}

/// Concatenating visits inside a file stays inside it.
pub proof fn lemma_inner_concat(a: Seq<Visit>, b: Seq<Visit>, file: int)
    requires
        inner_visits(a, file),
        inner_visits(b, file),
    ensures
        inner_visits(a + b, file),
{
    assert forall|j: int| 0 <= j < (a + b).len() implies (#[trigger] (a + b)[j]).file == file && !((a + b)[j].what is File) by {
        if j < a.len() {
            assert((a + b)[j] == a[j]);
        } else {
            assert((a + b)[j] == b[j - a.len()]);
        }
    }
}

/// The visits of oneofs, fields, values and methods are inside their file.
pub proof fn lemma_member_visits_inner(
    oneofs: Seq<OneofDescriptorProto>,
    fields: Seq<FieldDescriptorProto>,
    values: Seq<EnumValueDescriptorProto>,
    methods: Seq<MethodDescriptorProto>,
    i: int,
    path: Seq<i32>,
    scope: Seq<char>,
    file: int,
    parent: int,
)
    ensures
        inner_visits(oneof_visits(oneofs, i, path, scope, file, parent), file),
        inner_visits(field_visits(fields, i, path, scope, file, parent), file),
        inner_visits(value_visits(values, i, path, scope, file, parent), file),
        inner_visits(method_visits(methods, i, path, scope, file, parent), file),
    decreases oneofs.len() + fields.len() + values.len() + methods.len() - i,
{
    if i >= 0 && (i < oneofs.len() || i < fields.len() || i < values.len() || i < methods.len()) {
        lemma_member_visits_inner(oneofs, fields, values, methods, i + 1, path, scope, file, parent);
        if i < oneofs.len() {
            let h = oneof_visits(oneofs, i, path, scope, file, parent);
            lemma_inner_concat(h.take(1), oneof_visits(oneofs, i + 1, path, scope, file, parent), file);
            assert(h =~= h.take(1) + oneof_visits(oneofs, i + 1, path, scope, file, parent));
        }
        if i < fields.len() {
            let h = field_visits(fields, i, path, scope, file, parent);
            lemma_inner_concat(h.take(1), field_visits(fields, i + 1, path, scope, file, parent), file);
            assert(h =~= h.take(1) + field_visits(fields, i + 1, path, scope, file, parent));
        }
        if i < values.len() {
            let h = value_visits(values, i, path, scope, file, parent);
            lemma_inner_concat(h.take(1), value_visits(values, i + 1, path, scope, file, parent), file);
            assert(h =~= h.take(1) + value_visits(values, i + 1, path, scope, file, parent));
        }
        if i < methods.len() {
            let h = method_visits(methods, i, path, scope, file, parent);
            lemma_inner_concat(h.take(1), method_visits(methods, i + 1, path, scope, file, parent), file);
            assert(h =~= h.take(1) + method_visits(methods, i + 1, path, scope, file, parent));
        }
    }
}

} // verus!

verus! {

/// The visits of enums, extensions and services are inside their file.
pub proof fn lemma_enum_ext_service_inner(
    enums: Seq<EnumDescriptorProto>,
    extensions: Seq<FieldDescriptorProto>,
    services: Seq<ServiceDescriptorProto>,
    i: int,
    path: Seq<i32>,
    scope: Seq<char>,
    file: int,
    parent: Option<int>,
    c: Counts,
    next: int,
)
    ensures
        inner_visits(enum_visits(enums, i, path, scope, file, parent, c), file),
        inner_visits(extension_visits(extensions, i, path, scope, file, parent, next), file),
        inner_visits(service_visits(services, i, path, scope, file, next), file),
    decreases enums.len() + extensions.len() + services.len() - i,
{
    if i >= 0 && (i < enums.len() || i < extensions.len() || i < services.len()) {
        lemma_enum_ext_service_inner(enums, extensions, services, i + 1, path, scope, file, parent, add_enums(c, 1), next + 1);
        if i < enums.len() {
            let e = enums[i];
            let epath = path.push(i as i32);
            let vs = value_visits(e.value@, 0, epath.push(tag::ENUM_VALUE), scope, file, c.enum_);
            let rest = enum_visits(enums, i + 1, path, scope, file, parent, add_enums(c, 1));
            let h = enum_visits(enums, i, path, scope, file, parent, c);
            lemma_member_visits_inner(Seq::empty(), Seq::empty(), e.value@, Seq::empty(), 0, epath.push(tag::ENUM_VALUE), scope, file, c.enum_);
            lemma_inner_concat(h.take(1), vs, file);
            lemma_inner_concat(h.take(1) + vs, rest, file);
            assert(h =~= h.take(1) + vs + rest);
        }
        if i < extensions.len() {
            let h = extension_visits(extensions, i, path, scope, file, parent, next);
            lemma_inner_concat(h.take(1), extension_visits(extensions, i + 1, path, scope, file, parent, next + 1), file);
            assert(h =~= h.take(1) + extension_visits(extensions, i + 1, path, scope, file, parent, next + 1));
        }
        if i < services.len() {
            let s = services[i];
            let spath = path.push(i as i32);
            let full = joined_name(scope, crate::text::opt_str(s.name));
            let ms = method_visits(s.method@, 0, spath.push(tag::SERVICE_METHOD), full, file, next);
            let rest = service_visits(services, i + 1, path, scope, file, next + 1);
            let h = service_visits(services, i, path, scope, file, next);
            lemma_member_visits_inner(Seq::empty(), Seq::empty(), Seq::empty(), s.method@, 0, spath.push(tag::SERVICE_METHOD), full, file, next);
            lemma_inner_concat(h.take(1), ms, file);
            lemma_inner_concat(h.take(1) + ms, rest, file);
            assert(h =~= h.take(1) + ms + rest);
        }
    }
}

/// The visits of a message are inside its file.
pub proof fn lemma_message_inner(
    m: DescriptorProto,
    path: Seq<i32>,
    scope: Seq<char>,
    file: int,
    parent: Option<int>,
    c: Counts,
)
    ensures
        inner_visits(message_visits(m, path, scope, file, parent, c).0, file),
    decreases m, 0int,
{
    let full = joined_name(scope, crate::text::opt_str(m.name));
    let idx = c.message;
    let mv = message_visits(m, path, scope, file, parent, c);
    let oneofs = oneof_visits(m.oneof_decl@, 0, path.push(tag::MESSAGE_ONEOF_DECL), full, file, idx);
    let fields = field_visits(m.field@, 0, path.push(tag::MESSAGE_FIELD), full, file, idx);
    let nested = messages_visits(m.nested_type@, 0, path.push(tag::MESSAGE_NESTED_TYPE), full, file, Some(idx), add_message(c));
    let c2 = nested.1;
    let enums = enum_visits(m.enum_type@, 0, path.push(tag::MESSAGE_ENUM_TYPE), full, file, Some(idx), c2);
    let c3 = add_enums(c2, m.enum_type@.len() as int);
    let exts = extension_visits(m.extension@, 0, path.push(tag::MESSAGE_EXTENSION), full, file, Some(idx), c3.extension);
    lemma_member_visits_inner(m.oneof_decl@, Seq::empty(), Seq::empty(), Seq::empty(), 0, path.push(tag::MESSAGE_ONEOF_DECL), full, file, idx);
    lemma_member_visits_inner(Seq::empty(), m.field@, Seq::empty(), Seq::empty(), 0, path.push(tag::MESSAGE_FIELD), full, file, idx);
    lemma_messages_inner(m.nested_type@, 0, path.push(tag::MESSAGE_NESTED_TYPE), full, file, Some(idx), add_message(c));
    lemma_enum_ext_service_inner(m.enum_type@, Seq::empty(), Seq::empty(), 0, path.push(tag::MESSAGE_ENUM_TYPE), full, file, Some(idx), c2, 0);
    lemma_enum_ext_service_inner(Seq::empty(), m.extension@, Seq::empty(), 0, path.push(tag::MESSAGE_EXTENSION), full, file, Some(idx), c2, c3.extension);
    let head = mv.0.take(1);
    assert(inner_visits(head, file));
    lemma_inner_concat(head, oneofs, file);
    lemma_inner_concat(head + oneofs, fields, file);
    lemma_inner_concat(head + oneofs + fields, nested.0, file);
    lemma_inner_concat(head + oneofs + fields + nested.0, enums, file);
    lemma_inner_concat(head + oneofs + fields + nested.0 + enums, exts, file);
    assert(mv.0 =~= head + oneofs + fields + nested.0 + enums + exts);
}

/// The visits of messages are inside their file.
pub proof fn lemma_messages_inner(
    ms: Seq<DescriptorProto>,
    i: int,
    path: Seq<i32>,
    scope: Seq<char>,
    file: int,
    parent: Option<int>,
    c: Counts,
)
    ensures
        inner_visits(messages_visits(ms, i, path, scope, file, parent, c).0, file),
    decreases ms, ms.len() - i,
{
    if 0 <= i < ms.len() {
        let a = message_visits(ms[i], path.push(i as i32), scope, file, parent, c);
        lemma_message_inner(ms[i], path.push(i as i32), scope, file, parent, c);
        lemma_messages_inner(ms, i + 1, path, scope, file, parent, a.1);
        lemma_inner_concat(a.0, messages_visits(ms, i + 1, path, scope, file, parent, a.1).0, file);
    }
}

/// The visits of a file: first the file itself, then visits inside it.
pub proof fn lemma_file_visits_shape(f: FileDescriptorProto, c: Counts)
    ensures
        file_visits(f, c).0.len() >= 1,
        file_visits(f, c).0[0] == (Visit {
            path: Seq::empty(),
            full_name: crate::text::opt_str(f.package),
            file: c.file,
            index: c.file,
            what: Visited::File(f),
        }),
        inner_visits(file_visits(f, c).0.drop_first(), c.file),
{
    let scope = crate::text::opt_str(f.package);
    let fidx = c.file;
    let msgs = messages_visits(f.message_type@, 0, seq![tag::FILE_MESSAGE_TYPE], scope, fidx, None, Counts { file: c.file + 1, ..c });
    let c1 = msgs.1;
    let enums = enum_visits(f.enum_type@, 0, seq![tag::FILE_ENUM_TYPE], scope, fidx, None, c1);
    let c2 = add_enums(c1, f.enum_type@.len() as int);
    let services = service_visits(f.service@, 0, seq![tag::FILE_SERVICE], scope, fidx, c2.service);
    let c3 = add_services(c2, f.service@.len() as int);
    let exts = extension_visits(f.extension@, 0, seq![tag::FILE_EXTENSION], scope, fidx, None, c3.extension);
    lemma_messages_inner(f.message_type@, 0, seq![tag::FILE_MESSAGE_TYPE], scope, fidx, None, Counts { file: c.file + 1, ..c });
    lemma_enum_ext_service_inner(f.enum_type@, Seq::empty(), Seq::empty(), 0, seq![tag::FILE_ENUM_TYPE], scope, fidx, None, c1, 0);
    lemma_enum_ext_service_inner(Seq::empty(), Seq::empty(), f.service@, 0, seq![tag::FILE_SERVICE], scope, fidx, None, c1, c2.service);
    lemma_enum_ext_service_inner(Seq::empty(), f.extension@, Seq::empty(), 0, seq![tag::FILE_EXTENSION], scope, fidx, None, c1, c3.extension);
    lemma_inner_concat(msgs.0, enums, fidx);
    lemma_inner_concat(msgs.0 + enums, services, fidx);
    lemma_inner_concat(msgs.0 + enums + services, exts, fidx);
    assert(file_visits(f, c).0.drop_first() =~= msgs.0 + enums + services + exts);
}

} // verus!

verus! {

/// Whether a visit refers only to definitions numbered from the counters `c` on.
pub open spec fn visit_above(v: Visit, c: Counts) -> bool {
    match v.what {
        Visited::File(_) => v.index >= c.file,
        Visited::Message { .. } => v.index >= c.message,
        Visited::Field { message, .. } => message >= c.message,
        Visited::Oneof { message, .. } => message >= c.message,
        Visited::Service(_) => v.index >= c.service,
        Visited::Method { service, .. } => service >= c.service,
        Visited::Enum { .. } => v.index >= c.enum_,
        Visited::EnumValue { enum_, .. } => enum_ >= c.enum_,
        Visited::Extension { .. } => v.index >= c.extension,
    }
}

/// Whether every visit refers only to definitions numbered from `c` on.
pub open spec fn visits_above(s: Seq<Visit>, c: Counts) -> bool {
    forall|j: int| 0 <= j < s.len() ==> visit_above(#[trigger] s[j], c)
}

/// Visits above some counters are above smaller counters, and concatenation keeps it.
pub proof fn lemma_above_concat(a: Seq<Visit>, b: Seq<Visit>, c: Counts, ca: Counts, cb: Counts)
    requires
        visits_above(a, ca),
        visits_above(b, cb),
        counts_grow(c, ca),
        counts_grow(c, cb),
    ensures
        visits_above(a + b, c),
{
    assert forall|j: int| 0 <= j < (a + b).len() implies visit_above(#[trigger] (a + b)[j], c) by {
        if j < a.len() {
            assert((a + b)[j] == a[j]);
            assert(visit_above(a[j], ca));
        } else {
            assert((a + b)[j] == b[j - a.len()]);
            assert(visit_above(b[j - a.len()], cb));
        }
    }
}

/// The counters grow reflexively.
pub proof fn lemma_counts_grow_refl(c: Counts)
    ensures
        counts_grow(c, c),
{
}

/// Member visits refer to their parent.
pub proof fn lemma_member_visits_above(
    oneofs: Seq<OneofDescriptorProto>,
    fields: Seq<FieldDescriptorProto>,
    values: Seq<EnumValueDescriptorProto>,
    methods: Seq<MethodDescriptorProto>,
    i: int,
    path: Seq<i32>,
    scope: Seq<char>,
    file: int,
    parent: int,
    c: Counts,
)
    requires
        parent >= c.message,
    ensures
        visits_above(oneof_visits(oneofs, i, path, scope, file, parent), c),
        visits_above(field_visits(fields, i, path, scope, file, parent), c),
    decreases oneofs.len() + fields.len() - i,
{
    if i >= 0 && (i < oneofs.len() || i < fields.len()) {
        lemma_member_visits_above(oneofs, fields, values, methods, i + 1, path, scope, file, parent, c);
        if i < oneofs.len() {
            let h = oneof_visits(oneofs, i, path, scope, file, parent);
            lemma_above_concat(h.take(1), oneof_visits(oneofs, i + 1, path, scope, file, parent), c, c, c);
            assert(h =~= h.take(1) + oneof_visits(oneofs, i + 1, path, scope, file, parent));
        }
        if i < fields.len() {
            let h = field_visits(fields, i, path, scope, file, parent);
            lemma_above_concat(h.take(1), field_visits(fields, i + 1, path, scope, file, parent), c, c, c);
            assert(h =~= h.take(1) + field_visits(fields, i + 1, path, scope, file, parent));
        }
    }
}

/// Value and method visits refer to their parent.
pub proof fn lemma_value_method_visits_above(
    values: Seq<EnumValueDescriptorProto>,
    methods: Seq<MethodDescriptorProto>,
    i: int,
    path: Seq<i32>,
    scope: Seq<char>,
    file: int,
    parent: int,
    c: Counts,
)
    ensures
        parent >= c.enum_ ==> visits_above(value_visits(values, i, path, scope, file, parent), c),
        parent >= c.service ==> visits_above(method_visits(methods, i, path, scope, file, parent), c),
    decreases values.len() + methods.len() - i,
{
    if i >= 0 && (i < values.len() || i < methods.len()) {
        lemma_value_method_visits_above(values, methods, i + 1, path, scope, file, parent, c);
        if i < values.len() && parent >= c.enum_ {
            let h = value_visits(values, i, path, scope, file, parent);
            lemma_above_concat(h.take(1), value_visits(values, i + 1, path, scope, file, parent), c, c, c);
            assert(h =~= h.take(1) + value_visits(values, i + 1, path, scope, file, parent));
        }
        if i < methods.len() && parent >= c.service {
            let h = method_visits(methods, i, path, scope, file, parent);
            lemma_above_concat(h.take(1), method_visits(methods, i + 1, path, scope, file, parent), c, c, c);
            assert(h =~= h.take(1) + method_visits(methods, i + 1, path, scope, file, parent));
        }
    }
}

/// Enum, extension and service visits refer to definitions from their counters on.
pub proof fn lemma_enum_ext_service_above(
    enums: Seq<EnumDescriptorProto>,
    extensions: Seq<FieldDescriptorProto>,
    services: Seq<ServiceDescriptorProto>,
    i: int,
    path: Seq<i32>,
    scope: Seq<char>,
    file: int,
    parent: Option<int>,
    c: Counts,
    ce: Counts,
    next_ext: int,
    next_service: int,
)
    requires
        counts_grow(c, ce),
        next_ext >= c.extension,
        next_service >= c.service,
    ensures
        visits_above(enum_visits(enums, i, path, scope, file, parent, ce), c),
        visits_above(extension_visits(extensions, i, path, scope, file, parent, next_ext), c),
        visits_above(service_visits(services, i, path, scope, file, next_service), c),
    decreases enums.len() + extensions.len() + services.len() - i,
{
    if i >= 0 && (i < enums.len() || i < extensions.len() || i < services.len()) {
        lemma_enum_ext_service_above(enums, extensions, services, i + 1, path, scope, file, parent, c, add_enums(ce, 1), next_ext + 1, next_service + 1);
        if i < enums.len() {
            let e = enums[i];
            let epath = path.push(i as i32);
            let vs = value_visits(e.value@, 0, epath.push(tag::ENUM_VALUE), scope, file, ce.enum_);
            let rest = enum_visits(enums, i + 1, path, scope, file, parent, add_enums(ce, 1));
            let h = enum_visits(enums, i, path, scope, file, parent, ce);
            lemma_value_method_visits_above(e.value@, Seq::empty(), 0, epath.push(tag::ENUM_VALUE), scope, file, ce.enum_, c);
            lemma_counts_grow_refl(c);
            assert(visits_above(h.take(1), c));
            lemma_above_concat(h.take(1), vs, c, c, c);
            lemma_above_concat(h.take(1) + vs, rest, c, c, c);
            assert(h =~= h.take(1) + vs + rest);
        }
        if i < extensions.len() {
            let h = extension_visits(extensions, i, path, scope, file, parent, next_ext);
            lemma_counts_grow_refl(c);
            assert(visits_above(h.take(1), c));
            lemma_above_concat(h.take(1), extension_visits(extensions, i + 1, path, scope, file, parent, next_ext + 1), c, c, c);
            assert(h =~= h.take(1) + extension_visits(extensions, i + 1, path, scope, file, parent, next_ext + 1));
        }
        if i < services.len() {
            let s = services[i];
            let spath = path.push(i as i32);
            let full = joined_name(scope, crate::text::opt_str(s.name));
            let ms = method_visits(s.method@, 0, spath.push(tag::SERVICE_METHOD), full, file, next_service);
            let rest = service_visits(services, i + 1, path, scope, file, next_service + 1);
            let h = service_visits(services, i, path, scope, file, next_service);
            lemma_value_method_visits_above(Seq::empty(), s.method@, 0, spath.push(tag::SERVICE_METHOD), full, file, next_service, c);
            lemma_counts_grow_refl(c);
            assert(visits_above(h.take(1), c));
            lemma_above_concat(h.take(1), ms, c, c, c);
            lemma_above_concat(h.take(1) + ms, rest, c, c, c);
            assert(h =~= h.take(1) + ms + rest);
        }
    }
}

/// The visits of a message refer to definitions from the counters on.
pub proof fn lemma_message_above(
    m: DescriptorProto,
    path: Seq<i32>,
    scope: Seq<char>,
    file: int,
    parent: Option<int>,
    c0: Counts,
    c: Counts,
)
    requires
        counts_grow(c0, c),
    ensures
        visits_above(message_visits(m, path, scope, file, parent, c).0, c0),
    decreases m, 0int,
{
    let full = joined_name(scope, crate::text::opt_str(m.name));
    let idx = c.message;
    let mv = message_visits(m, path, scope, file, parent, c);
    let oneofs = oneof_visits(m.oneof_decl@, 0, path.push(tag::MESSAGE_ONEOF_DECL), full, file, idx);
    let fields = field_visits(m.field@, 0, path.push(tag::MESSAGE_FIELD), full, file, idx);
    let nested = messages_visits(m.nested_type@, 0, path.push(tag::MESSAGE_NESTED_TYPE), full, file, Some(idx), add_message(c));
    let c2 = nested.1;
    let enums = enum_visits(m.enum_type@, 0, path.push(tag::MESSAGE_ENUM_TYPE), full, file, Some(idx), c2);
    let c3 = add_enums(c2, m.enum_type@.len() as int);
    let exts = extension_visits(m.extension@, 0, path.push(tag::MESSAGE_EXTENSION), full, file, Some(idx), c3.extension);
    lemma_member_visits_above(m.oneof_decl@, m.field@, Seq::empty(), Seq::empty(), 0, path.push(tag::MESSAGE_ONEOF_DECL), full, file, idx, c0);
    assert(visits_above(fields, c0)) by {
        lemma_member_visits_above(m.oneof_decl@, m.field@, Seq::empty(), Seq::empty(), 0, path.push(tag::MESSAGE_FIELD), full, file, idx, c0);
    }
    lemma_messages_counts(m.nested_type@, 0, path.push(tag::MESSAGE_NESTED_TYPE), full, file, Some(idx), add_message(c));
    lemma_messages_above(m.nested_type@, 0, path.push(tag::MESSAGE_NESTED_TYPE), full, file, Some(idx), c0, add_message(c));
    lemma_enum_ext_service_above(m.enum_type@, m.extension@, Seq::empty(), 0, path.push(tag::MESSAGE_ENUM_TYPE), full, file, Some(idx), c0, c2, c3.extension, c0.service);
    assert(visits_above(exts, c0)) by {
        lemma_enum_ext_service_above(m.enum_type@, m.extension@, Seq::empty(), 0, path.push(tag::MESSAGE_EXTENSION), full, file, Some(idx), c0, c2, c3.extension, c0.service);
    }
    let head = mv.0.take(1);
    lemma_counts_grow_refl(c0);
    assert(visits_above(head, c0));
    lemma_above_concat(head, oneofs, c0, c0, c0);
    lemma_above_concat(head + oneofs, fields, c0, c0, c0);
    lemma_above_concat(head + oneofs + fields, nested.0, c0, c0, c0);
    lemma_above_concat(head + oneofs + fields + nested.0, enums, c0, c0, c0);
    lemma_above_concat(head + oneofs + fields + nested.0 + enums, exts, c0, c0, c0);
    assert(mv.0 =~= head + oneofs + fields + nested.0 + enums + exts);
}

/// The visits of messages refer to definitions from the counters on.
pub proof fn lemma_messages_above(
    ms: Seq<DescriptorProto>,
    i: int,
    path: Seq<i32>,
    scope: Seq<char>,
    file: int,
    parent: Option<int>,
    c0: Counts,
    c: Counts,
)
    requires
        counts_grow(c0, c),
    ensures
        visits_above(messages_visits(ms, i, path, scope, file, parent, c).0, c0),
    decreases ms, ms.len() - i,
{
    if 0 <= i < ms.len() {
        let a = message_visits(ms[i], path.push(i as i32), scope, file, parent, c);
        lemma_message_above(ms[i], path.push(i as i32), scope, file, parent, c0, c);
        lemma_message_counts(ms[i], path.push(i as i32), scope, file, parent, c);
        lemma_messages_above(ms, i + 1, path, scope, file, parent, c0, a.1);
        lemma_counts_grow_refl(c0);
        lemma_above_concat(a.0, messages_visits(ms, i + 1, path, scope, file, parent, a.1).0, c0, c0, c0);
    }
}

/// The visits of a file refer to definitions from its counters on.
pub proof fn lemma_file_above(f: FileDescriptorProto, c0: Counts, c: Counts)
    requires
        counts_grow(c0, c),
    ensures
        visits_above(file_visits(f, c).0, c0),
{
    let scope = crate::text::opt_str(f.package);
    let fidx = c.file;
    let c1x = Counts { file: c.file + 1, ..c };
    let msgs = messages_visits(f.message_type@, 0, seq![tag::FILE_MESSAGE_TYPE], scope, fidx, None, c1x);
    let c1 = msgs.1;
    let enums = enum_visits(f.enum_type@, 0, seq![tag::FILE_ENUM_TYPE], scope, fidx, None, c1);
    let c2 = add_enums(c1, f.enum_type@.len() as int);
    let services = service_visits(f.service@, 0, seq![tag::FILE_SERVICE], scope, fidx, c2.service);
    let c3 = add_services(c2, f.service@.len() as int);
    let exts = extension_visits(f.extension@, 0, seq![tag::FILE_EXTENSION], scope, fidx, None, c3.extension);
    lemma_messages_counts(f.message_type@, 0, seq![tag::FILE_MESSAGE_TYPE], scope, fidx, None, c1x);
    lemma_messages_above(f.message_type@, 0, seq![tag::FILE_MESSAGE_TYPE], scope, fidx, None, c0, c1x);
    lemma_enum_ext_service_above(f.enum_type@, Seq::empty(), Seq::empty(), 0, seq![tag::FILE_ENUM_TYPE], scope, fidx, None, c0, c1, c0.extension, c0.service);
    lemma_enum_ext_service_above(Seq::empty(), Seq::empty(), f.service@, 0, seq![tag::FILE_SERVICE], scope, fidx, None, c0, c1, c0.extension, c2.service);
    lemma_enum_ext_service_above(Seq::empty(), f.extension@, Seq::empty(), 0, seq![tag::FILE_EXTENSION], scope, fidx, None, c0, c1, c3.extension, c0.service);
    let head = file_visits(f, c).0.take(1);
    lemma_counts_grow_refl(c0);
    assert(visits_above(head, c0));
    lemma_above_concat(head, msgs.0, c0, c0, c0);
    lemma_above_concat(head + msgs.0, enums, c0, c0, c0);
    lemma_above_concat(head + msgs.0 + enums, services, c0, c0, c0);
    lemma_above_concat(head + msgs.0 + enums + services, exts, c0, c0, c0);
    assert(file_visits(f, c).0 =~= head + msgs.0 + enums + services + exts);
}

/// Visiting files advances the file counter by one per file.
pub proof fn lemma_files_file_count(fs: Seq<FileDescriptorProto>, i: int, c: Counts)
    requires
        0 <= i <= fs.len(),
    ensures
        files_visits(fs, i, c).1.file == c.file + fs.len() - i,
    decreases fs.len() - i,
{
    if i < fs.len() {
        let a = file_visits(fs[i], c);
        lemma_file_counts(fs[i], c);
        lemma_files_file_count(fs, i + 1, a.1);
    }
}

} // verus!

verus! {

/// Whether a visit is of a definition of kind `k`: messages (0), enums (1),
/// services (2) or extensions (3).
pub open spec fn is_kind(v: Visit, k: int) -> bool {
    match v.what {
        Visited::Message { .. } => k == 0,
        Visited::Enum { .. } => k == 1,
        Visited::Service(_) => k == 2,
        Visited::Extension { .. } => k == 3,
        _ => false,
    }
}

/// The counter of kind `k`.
pub open spec fn counter(c: Counts, k: int) -> int {
    if k == 0 {
        c.message
    } else if k == 1 {
        c.enum_
    } else if k == 2 {
        c.service
    } else {
        c.extension
    }
}

/// The number of visits of kind `k`.
pub open spec fn count_kind(s: Seq<Visit>, k: int) -> int
    decreases s.len(),
{
    if s.len() == 0 {
        0
    } else {
        count_kind(s.drop_last(), k) + if is_kind(s.last(), k) {
            1int
        } else {
            0int
        }
    }
}

/// Whether the visits of kind `k` are numbered consecutively from `start`.
pub open spec fn numbered(s: Seq<Visit>, k: int, start: int) -> bool {
    forall|j: int| 0 <= j < s.len() && is_kind(#[trigger] s[j], k) ==> s[j].index == start + count_kind(s.take(j), k)
}

/// Counting distributes over concatenation.
pub proof fn lemma_count_concat(a: Seq<Visit>, b: Seq<Visit>, k: int)
    ensures
        count_kind(a + b, k) == count_kind(a, k) + count_kind(b, k),
    decreases b.len(),
{
    if b.len() == 0 {
        assert(a + b =~= a);
    } else {
        lemma_count_concat(a, b.drop_last(), k);
        assert((a + b).drop_last() =~= a + b.drop_last());
    }
}

/// Numbering distributes over concatenation.
pub proof fn lemma_numbered_concat(a: Seq<Visit>, b: Seq<Visit>, k: int, start: int)
    requires
        numbered(a, k, start),
        numbered(b, k, start + count_kind(a, k)),
    ensures
        numbered(a + b, k, start),
{
    assert forall|j: int| 0 <= j < (a + b).len() && is_kind(#[trigger] (a + b)[j], k) implies (a + b)[j].index == start
        + count_kind((a + b).take(j), k) by {
        if j < a.len() {
            assert((a + b).take(j) =~= a.take(j));
            assert((a + b)[j] == a[j]);
        } else {
            assert((a + b).take(j) =~= a + b.take(j - a.len()));
            lemma_count_concat(a, b.take(j - a.len()), k);
            assert((a + b)[j] == b[j - a.len()]);
        }
    }
}

/// A single visit is numbered by its index.
pub proof fn lemma_numbered_single(v: Visit, k: int, start: int)
    requires
        is_kind(v, k) ==> v.index == start,
    ensures
        numbered(seq![v], k, start),
        count_kind(seq![v], k) == if is_kind(v, k) { 1int } else { 0int },
{
    assert(seq![v].take(0) =~= Seq::<Visit>::empty());
    assert(seq![v].drop_last() =~= Seq::<Visit>::empty());
    assert(count_kind(Seq::<Visit>::empty(), k) == 0);
    assert(seq![v].last() == v);
}

/// Whether a visit is of a numbered kind.
pub open spec fn numbered_kind(v: Visit) -> bool {
    v.what is Message || v.what is Enum || v.what is Service || v.what is Extension
}

/// Visits of no numbered kind.
pub open spec fn unnumbered(s: Seq<Visit>) -> bool {
    forall|j: int| 0 <= j < s.len() ==> !numbered_kind(#[trigger] s[j])
}

/// Visits of no numbered kind are numbered from anywhere, and count nothing.
pub proof fn lemma_unnumbered(s: Seq<Visit>, k: int, start: int)
    requires
        unnumbered(s),
    ensures
        numbered(s, k, start),
        count_kind(s, k) == 0,
    decreases s.len(),
{
    if s.len() > 0 {
        assert forall|j: int| 0 <= j < s.drop_last().len() implies !numbered_kind(#[trigger] s.drop_last()[j]) by {
            assert(s.drop_last()[j] == s[j]);
        }
        lemma_unnumbered(s.drop_last(), k, start);
        assert(!is_kind(s.last(), k));
    }
}

/// Member visits are of no numbered kind.
pub proof fn lemma_member_unnumbered(
    oneofs: Seq<OneofDescriptorProto>,
    fields: Seq<FieldDescriptorProto>,
    values: Seq<EnumValueDescriptorProto>,
    methods: Seq<MethodDescriptorProto>,
    i: int,
    path: Seq<i32>,
    scope: Seq<char>,
    file: int,
    parent: int,
)
    ensures
        unnumbered(oneof_visits(oneofs, i, path, scope, file, parent)),
        unnumbered(field_visits(fields, i, path, scope, file, parent)),
        unnumbered(value_visits(values, i, path, scope, file, parent)),
        unnumbered(method_visits(methods, i, path, scope, file, parent)),
    decreases oneofs.len() + fields.len() + values.len() + methods.len() - i,
{
    if i >= 0 && (i < oneofs.len() || i < fields.len() || i < values.len() || i < methods.len()) {
        lemma_member_unnumbered(oneofs, fields, values, methods, i + 1, path, scope, file, parent);
        let a = oneof_visits(oneofs, i, path, scope, file, parent);
        let b = field_visits(fields, i, path, scope, file, parent);
        let c = value_visits(values, i, path, scope, file, parent);
        let d = method_visits(methods, i, path, scope, file, parent);
        if i < oneofs.len() {
            assert forall|j: int| 0 <= j < a.len() implies !numbered_kind(#[trigger] a[j]) by {
                if j > 0 {
                    assert(a[j] == oneof_visits(oneofs, i + 1, path, scope, file, parent)[j - 1]);
                }
            }
        }
        if i < fields.len() {
            assert forall|j: int| 0 <= j < b.len() implies !numbered_kind(#[trigger] b[j]) by {
                if j > 0 {
                    assert(b[j] == field_visits(fields, i + 1, path, scope, file, parent)[j - 1]);
                }
            }
        }
        if i < values.len() {
            assert forall|j: int| 0 <= j < c.len() implies !numbered_kind(#[trigger] c[j]) by {
                if j > 0 {
                    assert(c[j] == value_visits(values, i + 1, path, scope, file, parent)[j - 1]);
                }
            }
        }
        if i < methods.len() {
            assert forall|j: int| 0 <= j < d.len() implies !numbered_kind(#[trigger] d[j]) by {
                if j > 0 {
                    assert(d[j] == method_visits(methods, i + 1, path, scope, file, parent)[j - 1]);
                }
            }
        }
    }
}

} // verus!

verus! {

/// Whether the visits of each numbered kind are numbered consecutively from
/// the counters `c`, up to the counters `c2`.
pub open spec fn numbering(s: Seq<Visit>, c: Counts, c2: Counts) -> bool {
    forall|k: int| 0 <= k < 4 ==> numbered(s, k, #[trigger] counter(c, k)) && count_kind(s, k) == counter(c2, k) - counter(c, k)
}

/// Numbering composes over concatenation.
pub proof fn lemma_numbering_concat(a: Seq<Visit>, b: Seq<Visit>, c: Counts, c1: Counts, c2: Counts)
    requires
        numbering(a, c, c1),
        numbering(b, c1, c2),
    ensures
        numbering(a + b, c, c2),
{
    assert forall|k: int| 0 <= k < 4 implies numbered(a + b, k, #[trigger] counter(c, k)) && count_kind(a + b, k) == counter(c2, k) - counter(c, k) by {
        assert(numbered(a, k, counter(c, k)));
        assert(numbered(b, k, counter(c1, k)));
        lemma_numbered_concat(a, b, k, counter(c, k));
        lemma_count_concat(a, b, k);
    }
}

/// Visits of no numbered kind keep the counters.
pub proof fn lemma_numbering_unnumbered(s: Seq<Visit>, c: Counts)
    requires
        unnumbered(s),
    ensures
        numbering(s, c, c),
{
    assert forall|k: int| 0 <= k < 4 implies numbered(s, k, #[trigger] counter(c, k)) && count_kind(s, k) == counter(c, k) - counter(c, k) by {
        lemma_unnumbered(s, k, counter(c, k));
    }
}

/// One visit of a numbered kind, numbered by its counter.
pub proof fn lemma_numbering_single(v: Visit, c: Counts, c2: Counts)
    requires
        forall|k: int| 0 <= k < 4 ==> (#[trigger] is_kind(v, k) ==> v.index == counter(c, k)) && counter(c2, k) == counter(c, k) + if is_kind(v, k) { 1int } else { 0int },
    ensures
        numbering(seq![v], c, c2),
{
    assert forall|k: int| 0 <= k < 4 implies numbered(seq![v], k, #[trigger] counter(c, k)) && count_kind(seq![v], k) == counter(c2, k) - counter(c, k) by {
        assert(is_kind(v, k) ==> v.index == counter(c, k));
        lemma_numbered_single(v, k, counter(c, k));
    }
}

/// Enums, extensions and services are numbered from their counters.
pub proof fn lemma_enum_ext_service_numbering(
    enums: Seq<EnumDescriptorProto>,
    extensions: Seq<FieldDescriptorProto>,
    services: Seq<ServiceDescriptorProto>,
    i: int,
    path: Seq<i32>,
    scope: Seq<char>,
    file: int,
    parent: Option<int>,
    c: Counts,
    next_ext: int,
    next_service: int,
)
    requires
        0 <= i,
    ensures
        i <= enums.len() ==> numbering(enum_visits(enums, i, path, scope, file, parent, c), c, add_enums(c, enums.len() - i)),
        i <= extensions.len() ==> numbering(
            extension_visits(extensions, i, path, scope, file, parent, next_ext),
            Counts { extension: next_ext, ..c },
            Counts { extension: next_ext + extensions.len() - i, ..c },
        ),
        i <= services.len() ==> numbering(
            service_visits(services, i, path, scope, file, next_service),
            Counts { service: next_service, ..c },
            Counts { service: next_service + services.len() - i, ..c },
        ),
    decreases enums.len() + extensions.len() + services.len() - i,
{
    if i < enums.len() || i < extensions.len() || i < services.len() {
        lemma_enum_ext_service_numbering(enums, extensions, services, i + 1, path, scope, file, parent, add_enums(c, 1), next_ext + 1, next_service + 1);
    }
    if i == enums.len() {
        assert(enum_visits(enums, i, path, scope, file, parent, c) =~= Seq::<Visit>::empty());
        lemma_numbering_unnumbered(Seq::<Visit>::empty(), c);
        assert(add_enums(c, 0) == c);
    } else if i < enums.len() {
        let e = enums[i];
        let epath = path.push(i as i32);
        let vs = value_visits(e.value@, 0, epath.push(tag::ENUM_VALUE), scope, file, c.enum_);
        let rest = enum_visits(enums, i + 1, path, scope, file, parent, add_enums(c, 1));
        let h = enum_visits(enums, i, path, scope, file, parent, c);
        lemma_member_unnumbered(Seq::empty(), Seq::empty(), e.value@, Seq::empty(), 0, epath.push(tag::ENUM_VALUE), scope, file, c.enum_);
        lemma_numbering_single(h[0], c, add_enums(c, 1));
        lemma_numbering_unnumbered(vs, add_enums(c, 1));
        lemma_numbering_concat(seq![h[0]], vs, c, add_enums(c, 1), add_enums(c, 1));
        assert(add_enums(add_enums(c, 1), enums.len() - (i + 1)) == add_enums(c, enums.len() - i));
        lemma_numbering_concat(seq![h[0]] + vs, rest, c, add_enums(c, 1), add_enums(c, enums.len() - i));
        assert(h =~= seq![h[0]] + vs + rest);
    }
    let cx = Counts { extension: next_ext, ..c };
    if i == extensions.len() {
        assert(extension_visits(extensions, i, path, scope, file, parent, next_ext) =~= Seq::<Visit>::empty());
        lemma_numbering_unnumbered(Seq::<Visit>::empty(), cx);
    } else if i < extensions.len() {
        let h = extension_visits(extensions, i, path, scope, file, parent, next_ext);
        let rest = extension_visits(extensions, i + 1, path, scope, file, parent, next_ext + 1);
        let c1 = Counts { extension: next_ext + 1, ..c };
        lemma_numbering_single(h[0], cx, c1);
        assert(Counts { extension: next_ext + 1, ..add_enums(c, 1) } == Counts { extension: next_ext + 1, enum_: c.enum_ + 1, ..c });
        assert(rest == extension_visits(extensions, i + 1, path, scope, file, parent, next_ext + 1));
        assert(numbering(rest, c1, Counts { extension: next_ext + extensions.len() - i, ..c })) by {
            assert forall|k: int| 0 <= k < 4 implies numbered(rest, k, #[trigger] counter(c1, k)) && count_kind(rest, k) == counter(Counts { extension: next_ext + extensions.len() - i, ..c }, k) - counter(c1, k) by {
                assert(numbering(rest, Counts { extension: next_ext + 1, ..add_enums(c, 1) }, Counts { extension: next_ext + 1 + extensions.len() - (i + 1), ..add_enums(c, 1) }));
                assert(counter(Counts { extension: next_ext + 1, ..add_enums(c, 1) }, k) - counter(c1, k) == if k == 1 { 1int } else { 0int });
                if k == 1 {
                    lemma_numbered_shift(rest, k, counter(Counts { extension: next_ext + 1, ..add_enums(c, 1) }, k), counter(c1, k));
                }
            }
        }
        lemma_numbering_concat(seq![h[0]], rest, cx, c1, Counts { extension: next_ext + extensions.len() - i, ..c });
        assert(h =~= seq![h[0]] + rest);
    }
    let cs = Counts { service: next_service, ..c };
    if i == services.len() {
        assert(service_visits(services, i, path, scope, file, next_service) =~= Seq::<Visit>::empty());
        lemma_numbering_unnumbered(Seq::<Visit>::empty(), cs);
    } else if i < services.len() {
        let s = services[i];
        let spath = path.push(i as i32);
        let full = joined_name(scope, crate::text::opt_str(s.name));
        let ms = method_visits(s.method@, 0, spath.push(tag::SERVICE_METHOD), full, file, next_service);
        let rest = service_visits(services, i + 1, path, scope, file, next_service + 1);
        let h = service_visits(services, i, path, scope, file, next_service);
        let c1 = Counts { service: next_service + 1, ..c };
        lemma_member_unnumbered(Seq::empty(), Seq::empty(), Seq::empty(), s.method@, 0, spath.push(tag::SERVICE_METHOD), full, file, next_service);
        lemma_numbering_single(h[0], cs, c1);
        lemma_numbering_unnumbered(ms, c1);
        lemma_numbering_concat(seq![h[0]], ms, cs, c1, c1);
        assert(numbering(rest, c1, Counts { service: next_service + services.len() - i, ..c })) by {
            assert forall|k: int| 0 <= k < 4 implies numbered(rest, k, #[trigger] counter(c1, k)) && count_kind(rest, k) == counter(Counts { service: next_service + services.len() - i, ..c }, k) - counter(c1, k) by {
                assert(numbering(rest, Counts { service: next_service + 1, ..add_enums(c, 1) }, Counts { service: next_service + 1 + services.len() - (i + 1), ..add_enums(c, 1) }));
                assert(counter(Counts { service: next_service + 1, ..add_enums(c, 1) }, k) - counter(c1, k) == if k == 1 { 1int } else { 0int });
                if k == 1 {
                    lemma_numbered_shift(rest, k, counter(Counts { service: next_service + 1, ..add_enums(c, 1) }, k), counter(c1, k));
                }
            }
        }
        lemma_numbering_concat(seq![h[0]] + ms, rest, cs, c1, Counts { service: next_service + services.len() - i, ..c });
        assert(h =~= seq![h[0]] + ms + rest);
    }
}

/// Visits with no visit of kind `k` are numbered in kind `k` from anywhere.
pub proof fn lemma_numbered_shift(s: Seq<Visit>, k: int, a: int, b: int)
    requires
        numbered(s, k, a),
        count_kind(s, k) == 0,
    ensures
        numbered(s, k, b),
{
    assert forall|j: int| 0 <= j < s.len() && is_kind(#[trigger] s[j], k) implies s[j].index == b + count_kind(s.take(j), k) by {
        lemma_count_positive(s, k, j);
    }
}

/// A visit of kind `k` makes the count of kind `k` positive.
pub proof fn lemma_count_positive(s: Seq<Visit>, k: int, j: int)
    requires
        0 <= j < s.len(),
        is_kind(s[j], k),
    ensures
        count_kind(s, k) > 0,
    decreases s.len(),
{
    if j < s.len() - 1 {
        lemma_count_positive(s.drop_last(), k, j);
        lemma_count_nonneg(s.drop_last(), k);
    } else {
        lemma_count_nonneg(s.drop_last(), k);
    }
}

/// Counts are never negative.
pub proof fn lemma_count_nonneg(s: Seq<Visit>, k: int)
    ensures
        count_kind(s, k) >= 0,
    decreases s.len(),
{
    if s.len() > 0 {
        lemma_count_nonneg(s.drop_last(), k);
    }
}

} // verus!

verus! {

/// The definitions of a message are numbered from its counters on.
pub proof fn lemma_message_numbering(
    m: DescriptorProto,
    path: Seq<i32>,
    scope: Seq<char>,
    file: int,
    parent: Option<int>,
    c: Counts,
)
    ensures
        numbering(message_visits(m, path, scope, file, parent, c).0, c, message_visits(m, path, scope, file, parent, c).1),
    decreases m, 0int,
{
    let full = joined_name(scope, crate::text::opt_str(m.name));
    let idx = c.message;
    let mv = message_visits(m, path, scope, file, parent, c);
    let oneofs = oneof_visits(m.oneof_decl@, 0, path.push(tag::MESSAGE_ONEOF_DECL), full, file, idx);
    let fields = field_visits(m.field@, 0, path.push(tag::MESSAGE_FIELD), full, file, idx);
    let c1 = add_message(c);
    let nested = messages_visits(m.nested_type@, 0, path.push(tag::MESSAGE_NESTED_TYPE), full, file, Some(idx), c1);
    let c2 = nested.1;
    let enums = enum_visits(m.enum_type@, 0, path.push(tag::MESSAGE_ENUM_TYPE), full, file, Some(idx), c2);
    let c3 = add_enums(c2, m.enum_type@.len() as int);
    let exts = extension_visits(m.extension@, 0, path.push(tag::MESSAGE_EXTENSION), full, file, Some(idx), c3.extension);
    let head = mv.0[0];
    lemma_numbering_single(head, c, c1);
    lemma_member_unnumbered(m.oneof_decl@, m.field@, Seq::empty(), Seq::empty(), 0, path.push(tag::MESSAGE_ONEOF_DECL), full, file, idx);
    lemma_numbering_unnumbered(oneofs, c1);
    lemma_member_unnumbered(m.oneof_decl@, m.field@, Seq::empty(), Seq::empty(), 0, path.push(tag::MESSAGE_FIELD), full, file, idx);
    lemma_numbering_unnumbered(fields, c1);
    lemma_messages_numbering(m.nested_type@, 0, path.push(tag::MESSAGE_NESTED_TYPE), full, file, Some(idx), c1);
    lemma_enum_ext_service_numbering(m.enum_type@, Seq::empty(), Seq::empty(), 0, path.push(tag::MESSAGE_ENUM_TYPE), full, file, Some(idx), c2, 0, 0);
    lemma_enum_ext_service_numbering(Seq::empty(), m.extension@, Seq::empty(), 0, path.push(tag::MESSAGE_EXTENSION), full, file, Some(idx), c3, c3.extension, 0);
    assert(Counts { extension: c3.extension, ..c3 } == c3);
    assert(Counts { extension: c3.extension + m.extension@.len() - 0, ..c3 } == add_extensions(c3, m.extension@.len() as int));
    lemma_numbering_concat(seq![head], oneofs, c, c1, c1);
    lemma_numbering_concat(seq![head] + oneofs, fields, c, c1, c1);
    lemma_numbering_concat(seq![head] + oneofs + fields, nested.0, c, c1, c2);
    lemma_numbering_concat(seq![head] + oneofs + fields + nested.0, enums, c, c2, c3);
    lemma_numbering_concat(seq![head] + oneofs + fields + nested.0 + enums, exts, c, c3, mv.1);
    assert(mv.0 =~= seq![head] + oneofs + fields + nested.0 + enums + exts);
}

/// The definitions of messages are numbered from their counters on.
pub proof fn lemma_messages_numbering(
    ms: Seq<DescriptorProto>,
    i: int,
    path: Seq<i32>,
    scope: Seq<char>,
    file: int,
    parent: Option<int>,
    c: Counts,
)
    ensures
        numbering(messages_visits(ms, i, path, scope, file, parent, c).0, c, messages_visits(ms, i, path, scope, file, parent, c).1),
    decreases ms, ms.len() - i,
{
    if 0 <= i < ms.len() {
        let a = message_visits(ms[i], path.push(i as i32), scope, file, parent, c);
        lemma_message_numbering(ms[i], path.push(i as i32), scope, file, parent, c);
        lemma_messages_numbering(ms, i + 1, path, scope, file, parent, a.1);
        lemma_numbering_concat(a.0, messages_visits(ms, i + 1, path, scope, file, parent, a.1).0, c, a.1, messages_visits(ms, i, path, scope, file, parent, c).1);
    } else {
        lemma_numbering_unnumbered(Seq::<Visit>::empty(), c);
    }
}

/// The definitions of a file are numbered from its counters on.
pub proof fn lemma_file_numbering(f: FileDescriptorProto, c: Counts)
    ensures
        numbering(file_visits(f, c).0, c, file_visits(f, c).1),
{
    let scope = crate::text::opt_str(f.package);
    let fidx = c.file;
    let c1x = Counts { file: c.file + 1, ..c };
    let msgs = messages_visits(f.message_type@, 0, seq![tag::FILE_MESSAGE_TYPE], scope, fidx, None, c1x);
    let c1 = msgs.1;
    let enums = enum_visits(f.enum_type@, 0, seq![tag::FILE_ENUM_TYPE], scope, fidx, None, c1);
    let c2 = add_enums(c1, f.enum_type@.len() as int);
    let services = service_visits(f.service@, 0, seq![tag::FILE_SERVICE], scope, fidx, c2.service);
    let c3 = add_services(c2, f.service@.len() as int);
    let exts = extension_visits(f.extension@, 0, seq![tag::FILE_EXTENSION], scope, fidx, None, c3.extension);
    let fv = file_visits(f, c);
    let head = fv.0[0];
    lemma_numbering_single(head, c, c1x);
    lemma_messages_numbering(f.message_type@, 0, seq![tag::FILE_MESSAGE_TYPE], scope, fidx, None, c1x);
    lemma_enum_ext_service_numbering(f.enum_type@, Seq::empty(), Seq::empty(), 0, seq![tag::FILE_ENUM_TYPE], scope, fidx, None, c1, 0, 0);
    lemma_enum_ext_service_numbering(Seq::empty(), Seq::empty(), f.service@, 0, seq![tag::FILE_SERVICE], scope, fidx, None, c2, 0, c2.service);
    assert(Counts { service: c2.service, ..c2 } == c2);
    assert(Counts { service: c2.service + f.service@.len() - 0, ..c2 } == c3);
    lemma_enum_ext_service_numbering(Seq::empty(), f.extension@, Seq::empty(), 0, seq![tag::FILE_EXTENSION], scope, fidx, None, c3, c3.extension, 0);
    assert(Counts { extension: c3.extension, ..c3 } == c3);
    assert(Counts { extension: c3.extension + f.extension@.len() - 0, ..c3 } == fv.1);
    lemma_numbering_concat(seq![head], msgs.0, c, c1x, c1);
    lemma_numbering_concat(seq![head] + msgs.0, enums, c, c1, c2);
    lemma_numbering_concat(seq![head] + msgs.0 + enums, services, c, c2, c3);
    lemma_numbering_concat(seq![head] + msgs.0 + enums + services, exts, c, c3, fv.1);
    assert(fv.0 =~= seq![head] + msgs.0 + enums + services + exts);
}

/// The definitions of a batch of files are numbered from its counters on.
pub proof fn lemma_files_numbering(fs: Seq<FileDescriptorProto>, i: int, c: Counts)
    ensures
        numbering(files_visits(fs, i, c).0, c, files_visits(fs, i, c).1),
    decreases fs.len() - i,
{
    if 0 <= i < fs.len() {
        let a = file_visits(fs[i], c);
        lemma_file_numbering(fs[i], c);
        lemma_files_numbering(fs, i + 1, a.1);
        lemma_numbering_concat(a.0, files_visits(fs, i + 1, a.1).0, c, a.1, files_visits(fs, i, c).1);
    } else {
        lemma_numbering_unnumbered(Seq::<Visit>::empty(), c);
    }
}

} // verus!

verus! {

/// Whether a visit refers only to definitions numbered below the counters `c`.
pub open spec fn visit_below(v: Visit, c: Counts) -> bool {
    &&& match v.what {
        Visited::File(_) => v.index < c.file,
        Visited::Message { parent, .. } => v.index < c.message && (parent matches Some(p) ==> p < c.message),
        Visited::Field { message, .. } => message < c.message,
        Visited::Oneof { message, .. } => message < c.message,
        Visited::Service(_) => v.index < c.service,
        Visited::Method { service, .. } => service < c.service,
        Visited::Enum { parent, .. } => v.index < c.enum_ && (parent matches Some(p) ==> p < c.message),
        Visited::EnumValue { enum_, .. } => enum_ < c.enum_,
        Visited::Extension { parent, .. } => v.index < c.extension && (parent matches Some(p) ==> p < c.message),
    }
    &&& v.file < c.file
}

/// Whether every visit refers only to definitions numbered below `c`.
pub open spec fn visits_below(s: Seq<Visit>, c: Counts) -> bool {
    forall|j: int| 0 <= j < s.len() ==> visit_below(#[trigger] s[j], c)
}

/// Visits below some counters are below larger counters, and concatenation keeps it.
pub proof fn lemma_below_concat(a: Seq<Visit>, b: Seq<Visit>, c: Counts, ca: Counts, cb: Counts)
    requires
        visits_below(a, ca),
        visits_below(b, cb),
        counts_grow(ca, c),
        counts_grow(cb, c),
    ensures
        visits_below(a + b, c),
{
    assert forall|j: int| 0 <= j < (a + b).len() implies visit_below(#[trigger] (a + b)[j], c) by {
        if j < a.len() {
            assert((a + b)[j] == a[j]);
            assert(visit_below(a[j], ca));
        } else {
            assert((a + b)[j] == b[j - a.len()]);
            assert(visit_below(b[j - a.len()], cb));
        }
    }
}

/// Member visits refer to their parent.
pub proof fn lemma_member_visits_below(
    oneofs: Seq<OneofDescriptorProto>,
    fields: Seq<FieldDescriptorProto>,
    values: Seq<EnumValueDescriptorProto>,
    methods: Seq<MethodDescriptorProto>,
    i: int,
    path: Seq<i32>,
    scope: Seq<char>,
    file: int,
    parent: int,
    c: Counts,
)
    requires
        file < c.file,
    ensures
        parent < c.message ==> visits_below(oneof_visits(oneofs, i, path, scope, file, parent), c),
        parent < c.message ==> visits_below(field_visits(fields, i, path, scope, file, parent), c),
        parent < c.enum_ ==> visits_below(value_visits(values, i, path, scope, file, parent), c),
        parent < c.service ==> visits_below(method_visits(methods, i, path, scope, file, parent), c),
    decreases oneofs.len() + fields.len() + values.len() + methods.len() - i,
{
    if i >= 0 && (i < oneofs.len() || i < fields.len() || i < values.len() || i < methods.len()) {
        lemma_member_visits_below(oneofs, fields, values, methods, i + 1, path, scope, file, parent, c);
        if i < oneofs.len() && parent < c.message {
            let h = oneof_visits(oneofs, i, path, scope, file, parent);
            lemma_below_concat(h.take(1), oneof_visits(oneofs, i + 1, path, scope, file, parent), c, c, c);
            assert(h =~= h.take(1) + oneof_visits(oneofs, i + 1, path, scope, file, parent));
        }
        if i < fields.len() && parent < c.message {
            let h = field_visits(fields, i, path, scope, file, parent);
            lemma_below_concat(h.take(1), field_visits(fields, i + 1, path, scope, file, parent), c, c, c);
            assert(h =~= h.take(1) + field_visits(fields, i + 1, path, scope, file, parent));
        }
        if i < values.len() && parent < c.enum_ {
            let h = value_visits(values, i, path, scope, file, parent);
            lemma_below_concat(h.take(1), value_visits(values, i + 1, path, scope, file, parent), c, c, c);
            assert(h =~= h.take(1) + value_visits(values, i + 1, path, scope, file, parent));
        }
        if i < methods.len() && parent < c.service {
            let h = method_visits(methods, i, path, scope, file, parent);
            lemma_below_concat(h.take(1), method_visits(methods, i + 1, path, scope, file, parent), c, c, c);
            assert(h =~= h.take(1) + method_visits(methods, i + 1, path, scope, file, parent));
        }
    }
}

/// Enum, extension and service visits refer to definitions below the counters after them.
pub proof fn lemma_enum_ext_service_below(
    enums: Seq<EnumDescriptorProto>,
    extensions: Seq<FieldDescriptorProto>,
    services: Seq<ServiceDescriptorProto>,
    i: int,
    path: Seq<i32>,
    scope: Seq<char>,
    file: int,
    parent: Option<int>,
    c: Counts,
    next_ext: int,
    next_service: int,
    cf: Counts,
)
    requires
        0 <= i,
        file < cf.file,
        parent matches Some(p) ==> p < cf.message,
    ensures
        i <= enums.len() && counts_grow(add_enums(c, enums.len() - i), cf) ==> visits_below(enum_visits(enums, i, path, scope, file, parent, c), cf),
        i <= extensions.len() && next_ext + extensions.len() - i <= cf.extension ==> visits_below(
            extension_visits(extensions, i, path, scope, file, parent, next_ext), cf),
        i <= services.len() && next_service + services.len() - i <= cf.service ==> visits_below(
            service_visits(services, i, path, scope, file, next_service), cf),
    decreases enums.len() + extensions.len() + services.len() - i,
{
    if i < enums.len() || i < extensions.len() || i < services.len() {
        lemma_enum_ext_service_below(enums, extensions, services, i + 1, path, scope, file, parent, add_enums(c, 1), next_ext + 1, next_service + 1, cf);
    }
    if i < enums.len() && counts_grow(add_enums(c, enums.len() - i), cf) {
        let e = enums[i];
        let epath = path.push(i as i32);
        let vs = value_visits(e.value@, 0, epath.push(tag::ENUM_VALUE), scope, file, c.enum_);
        let rest = enum_visits(enums, i + 1, path, scope, file, parent, add_enums(c, 1));
        let h = enum_visits(enums, i, path, scope, file, parent, c);
        lemma_member_visits_below(Seq::empty(), Seq::empty(), e.value@, Seq::empty(), 0, epath.push(tag::ENUM_VALUE), scope, file, c.enum_, cf);
        assert(add_enums(add_enums(c, 1), enums.len() - (i + 1)) == add_enums(c, enums.len() - i));
        assert(visits_below(h.take(1), cf));
        lemma_below_concat(h.take(1), vs, cf, cf, cf);
        lemma_below_concat(h.take(1) + vs, rest, cf, cf, cf);
        assert(h =~= h.take(1) + vs + rest);
    }
    if i < extensions.len() && next_ext + extensions.len() - i <= cf.extension {
        let h = extension_visits(extensions, i, path, scope, file, parent, next_ext);
        assert(visits_below(h.take(1), cf));
        lemma_below_concat(h.take(1), extension_visits(extensions, i + 1, path, scope, file, parent, next_ext + 1), cf, cf, cf);
        assert(h =~= h.take(1) + extension_visits(extensions, i + 1, path, scope, file, parent, next_ext + 1));
    }
    if i < services.len() && next_service + services.len() - i <= cf.service {
        let s = services[i];
        let spath = path.push(i as i32);
        let full = joined_name(scope, crate::text::opt_str(s.name));
        let ms = method_visits(s.method@, 0, spath.push(tag::SERVICE_METHOD), full, file, next_service);
        let rest = service_visits(services, i + 1, path, scope, file, next_service + 1);
        let h = service_visits(services, i, path, scope, file, next_service);
        lemma_member_visits_below(Seq::empty(), Seq::empty(), Seq::empty(), s.method@, 0, spath.push(tag::SERVICE_METHOD), full, file, next_service, cf);
        assert(visits_below(h.take(1), cf));
        lemma_below_concat(h.take(1), ms, cf, cf, cf);
        lemma_below_concat(h.take(1) + ms, rest, cf, cf, cf);
        assert(h =~= h.take(1) + ms + rest);
    }
    if i == enums.len() {
        assert(enum_visits(enums, i, path, scope, file, parent, c) =~= Seq::<Visit>::empty());
    }
    if i == extensions.len() {
        assert(extension_visits(extensions, i, path, scope, file, parent, next_ext) =~= Seq::<Visit>::empty());
    }
    if i == services.len() {
        assert(service_visits(services, i, path, scope, file, next_service) =~= Seq::<Visit>::empty());
    }
}

} // verus!

verus! {

/// The visits of a message refer to definitions below any counters at or
/// after the ones its visit ends with.
pub proof fn lemma_message_below(
    m: DescriptorProto,
    path: Seq<i32>,
    scope: Seq<char>,
    file: int,
    parent: Option<int>,
    c: Counts,
    cf: Counts,
)
    requires
        counts_grow(message_visits(m, path, scope, file, parent, c).1, cf),
        file < cf.file,
        parent matches Some(p) ==> p < cf.message,
    ensures
        visits_below(message_visits(m, path, scope, file, parent, c).0, cf),
    decreases m, 0int,
{
    let full = joined_name(scope, crate::text::opt_str(m.name));
    let idx = c.message;
    let mv = message_visits(m, path, scope, file, parent, c);
    let oneofs = oneof_visits(m.oneof_decl@, 0, path.push(tag::MESSAGE_ONEOF_DECL), full, file, idx);
    let fields = field_visits(m.field@, 0, path.push(tag::MESSAGE_FIELD), full, file, idx);
    let c1 = add_message(c);
    let nested = messages_visits(m.nested_type@, 0, path.push(tag::MESSAGE_NESTED_TYPE), full, file, Some(idx), c1);
    let c2 = nested.1;
    let enums = enum_visits(m.enum_type@, 0, path.push(tag::MESSAGE_ENUM_TYPE), full, file, Some(idx), c2);
    let c3 = add_enums(c2, m.enum_type@.len() as int);
    let exts = extension_visits(m.extension@, 0, path.push(tag::MESSAGE_EXTENSION), full, file, Some(idx), c3.extension);
    lemma_messages_counts(m.nested_type@, 0, path.push(tag::MESSAGE_NESTED_TYPE), full, file, Some(idx), c1);
    assert(idx < cf.message);
    lemma_member_visits_below(m.oneof_decl@, m.field@, Seq::empty(), Seq::empty(), 0, path.push(tag::MESSAGE_ONEOF_DECL), full, file, idx, cf);
    assert(visits_below(fields, cf)) by {
        lemma_member_visits_below(m.oneof_decl@, m.field@, Seq::empty(), Seq::empty(), 0, path.push(tag::MESSAGE_FIELD), full, file, idx, cf);
    }
    lemma_messages_below(m.nested_type@, 0, path.push(tag::MESSAGE_NESTED_TYPE), full, file, Some(idx), c1, cf);
    lemma_enum_ext_service_below(m.enum_type@, m.extension@, Seq::empty(), 0, path.push(tag::MESSAGE_ENUM_TYPE), full, file, Some(idx), c2, c3.extension, 0, cf);
    assert(visits_below(exts, cf)) by {
        lemma_enum_ext_service_below(m.enum_type@, m.extension@, Seq::empty(), 0, path.push(tag::MESSAGE_EXTENSION), full, file, Some(idx), c2, c3.extension, 0, cf);
    }
    let head = mv.0.take(1);
    assert(visits_below(head, cf));
    lemma_below_concat(head, oneofs, cf, cf, cf);
    lemma_below_concat(head + oneofs, fields, cf, cf, cf);
    lemma_below_concat(head + oneofs + fields, nested.0, cf, cf, cf);
    lemma_below_concat(head + oneofs + fields + nested.0, enums, cf, cf, cf);
    lemma_below_concat(head + oneofs + fields + nested.0 + enums, exts, cf, cf, cf);
    assert(mv.0 =~= head + oneofs + fields + nested.0 + enums + exts);
}

/// The visits of messages refer to definitions below the counters after them.
pub proof fn lemma_messages_below(
    ms: Seq<DescriptorProto>,
    i: int,
    path: Seq<i32>,
    scope: Seq<char>,
    file: int,
    parent: Option<int>,
    c: Counts,
    cf: Counts,
)
    requires
        counts_grow(messages_visits(ms, i, path, scope, file, parent, c).1, cf),
        file < cf.file,
        parent matches Some(p) ==> p < cf.message,
    ensures
        visits_below(messages_visits(ms, i, path, scope, file, parent, c).0, cf),
    decreases ms, ms.len() - i,
{
    if 0 <= i < ms.len() {
        let a = message_visits(ms[i], path.push(i as i32), scope, file, parent, c);
        lemma_messages_counts(ms, i + 1, path, scope, file, parent, a.1);
        lemma_message_below(ms[i], path.push(i as i32), scope, file, parent, c, cf);
        lemma_messages_below(ms, i + 1, path, scope, file, parent, a.1, cf);
        lemma_below_concat(a.0, messages_visits(ms, i + 1, path, scope, file, parent, a.1).0, cf, cf, cf);
    }
}

/// The visits of a file refer to definitions below any counters at or after
/// the ones its visit ends with.
pub proof fn lemma_file_below(f: FileDescriptorProto, c: Counts, cf: Counts)
    requires
        counts_grow(file_visits(f, c).1, cf),
    ensures
        visits_below(file_visits(f, c).0, cf),
{
    let scope = crate::text::opt_str(f.package);
    let fidx = c.file;
    let c1x = Counts { file: c.file + 1, ..c };
    let msgs = messages_visits(f.message_type@, 0, seq![tag::FILE_MESSAGE_TYPE], scope, fidx, None, c1x);
    let c1 = msgs.1;
    let enums = enum_visits(f.enum_type@, 0, seq![tag::FILE_ENUM_TYPE], scope, fidx, None, c1);
    let c2 = add_enums(c1, f.enum_type@.len() as int);
    let services = service_visits(f.service@, 0, seq![tag::FILE_SERVICE], scope, fidx, c2.service);
    let c3 = add_services(c2, f.service@.len() as int);
    let exts = extension_visits(f.extension@, 0, seq![tag::FILE_EXTENSION], scope, fidx, None, c3.extension);
    lemma_messages_counts(f.message_type@, 0, seq![tag::FILE_MESSAGE_TYPE], scope, fidx, None, c1x);
    lemma_messages_below(f.message_type@, 0, seq![tag::FILE_MESSAGE_TYPE], scope, fidx, None, c1x, cf);
    lemma_enum_ext_service_below(f.enum_type@, Seq::empty(), Seq::empty(), 0, seq![tag::FILE_ENUM_TYPE], scope, fidx, None, c1, 0, 0, cf);
    lemma_enum_ext_service_below(Seq::empty(), Seq::empty(), f.service@, 0, seq![tag::FILE_SERVICE], scope, fidx, None, c1, 0, c2.service, cf);
    lemma_enum_ext_service_below(Seq::empty(), f.extension@, Seq::empty(), 0, seq![tag::FILE_EXTENSION], scope, fidx, None, c1, c3.extension, 0, cf);
    let head = file_visits(f, c).0.take(1);
    assert(visits_below(head, cf));
    lemma_below_concat(head, msgs.0, cf, cf, cf);
    lemma_below_concat(head + msgs.0, enums, cf, cf, cf);
    lemma_below_concat(head + msgs.0 + enums, services, cf, cf, cf);
    lemma_below_concat(head + msgs.0 + enums + services, exts, cf, cf, cf);
    assert(file_visits(f, c).0 =~= head + msgs.0 + enums + services + exts);
}

/// The visits of a batch refer to definitions below the counters after it.
pub proof fn lemma_files_below(fs: Seq<FileDescriptorProto>, i: int, c: Counts, cf: Counts)
    requires
        counts_grow(files_visits(fs, i, c).1, cf),
    ensures
        visits_below(files_visits(fs, i, c).0, cf),
    decreases fs.len() - i,
{
    if 0 <= i < fs.len() {
        let a = file_visits(fs[i], c);
        lemma_files_counts(fs, i + 1, a.1);
        lemma_file_below(fs[i], c, cf);
        lemma_files_below(fs, i + 1, a.1, cf);
        lemma_below_concat(a.0, files_visits(fs, i + 1, a.1).0, cf, cf, cf);
    }
}

} // verus!
