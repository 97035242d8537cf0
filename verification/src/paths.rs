//! The paths recorded for message and enum types lead to their descriptors.
use vstd::prelude::*;
use crate::descriptor::{enum_at, message_at};
use crate::types::{
    DescriptorProto, EnumDescriptorProto, FieldDescriptorProto, FileDescriptorProto, ServiceDescriptorProto,
};
use crate::visit::{
    enum_visits, extension_visits, file_visits, files_visits, message_visits, messages_visits, service_visits,
    unnumbered, Counts, Visit, Visited,
};

verus! {

/// Whether the messages and enums nested in `m`, at every depth, are few
/// enough to be indexed by `i32` in a path.
pub open spec fn nested_fit_i32(m: DescriptorProto) -> bool
    decreases m, 0int,
{
    &&& m.nested_type@.len() <= i32::MAX
    &&& m.enum_type@.len() <= i32::MAX
    &&& nesteds_fit_i32(m.nested_type@, 0)
}

/// Whether `nested_fit_i32` holds of the messages from index `i` on.
pub open spec fn nesteds_fit_i32(ms: Seq<DescriptorProto>, i: int) -> bool
    decreases ms, ms.len() - i,
{
    if i < 0 || i >= ms.len() {
        true
    } else {
        nested_fit_i32(ms[i]) && nesteds_fit_i32(ms, i + 1)
    }
}

/// Whether the messages and enums of a file, at every depth, are few enough
/// to be indexed by `i32` in a path.
pub open spec fn file_fits_i32(f: FileDescriptorProto) -> bool {
    &&& f.message_type@.len() <= i32::MAX
    &&& f.enum_type@.len() <= i32::MAX
    &&& nesteds_fit_i32(f.message_type@, 0)
}

/// Whether every message and enum visit among `vs` is at a path of `raw`
/// that leads to the message or enum visited.
pub open spec fn paths_ok(raw: FileDescriptorProto, vs: Seq<Visit>) -> bool {
    &&& forall|j: int| 0 <= j < vs.len() && (#[trigger] vs[j]).what is Message ==> message_at(raw, vs[j].path)
        == Some(vs[j].what->Message_message)
    &&& forall|j: int| 0 <= j < vs.len() && (#[trigger] vs[j]).what is Enum ==> enum_at(raw, vs[j].path) == Some(
        vs[j].what->Enum_enum_,
    )
}

/// Whether no visit among `vs` is the visit of a message or an enum.
pub open spec fn no_types(vs: Seq<Visit>) -> bool {
    forall|j: int| 0 <= j < vs.len() ==> !((#[trigger] vs[j]).what is Message) && !(vs[j].what is Enum)
}

/// Paths stay right when visits are put together.
pub proof fn lemma_paths_concat(raw: FileDescriptorProto, a: Seq<Visit>, b: Seq<Visit>)
    requires
        paths_ok(raw, a),
        paths_ok(raw, b),
    ensures
        paths_ok(raw, a + b),
{
    assert forall|j: int| 0 <= j < (a + b).len() implies {
        &&& (#[trigger] (a + b)[j]).what is Message ==> message_at(raw, (a + b)[j].path) == Some(
            (a + b)[j].what->Message_message,
        )
        &&& (a + b)[j].what is Enum ==> enum_at(raw, (a + b)[j].path) == Some((a + b)[j].what->Enum_enum_)
    } by {
        if j < a.len() {
            assert((a + b)[j] == a[j]);
        } else {
            assert((a + b)[j] == b[j - a.len()]);
        }
    }
}

/// Visits that visit no message and no enum have nothing to check.
pub proof fn lemma_no_types_ok(raw: FileDescriptorProto, vs: Seq<Visit>)
    requires
        no_types(vs),
    ensures
        paths_ok(raw, vs),
{
}

/// Visits of no numbered kind visit no message and no enum.
pub proof fn lemma_unnumbered_no_types(vs: Seq<Visit>)
    requires
        unnumbered(vs),
    ensures
        no_types(vs),
{
    assert forall|j: int| 0 <= j < vs.len() implies !((#[trigger] vs[j]).what is Message) && !(vs[j].what is Enum) by {
        assert(!crate::visit::numbered_kind(vs[j]));
    }
}

/// The visits of enums found at `path` followed by their index record paths
/// that lead to the enums they visit.
pub proof fn lemma_enum_paths(
    raw: FileDescriptorProto,
    enums: Seq<EnumDescriptorProto>,
    i: int,
    path: Seq<i32>,
    scope: Seq<char>,
    file: int,
    parent: Option<int>,
    c: Counts,
)
    requires
        forall|k: int| i <= k < enums.len() ==> enum_at(raw, #[trigger] path.push(k as i32)) == Some(enums[k]),
    ensures
        paths_ok(raw, enum_visits(enums, i, path, scope, file, parent, c)),
    decreases enums.len() - i,
{
    if 0 <= i < enums.len() {
        lemma_enum_paths(raw, enums, i + 1, path, scope, file, parent, crate::visit::add_enums(c, 1));
        let e = enums[i];
        let epath = path.push(i as i32);
        assert(enum_at(raw, epath) == Some(e));
        crate::visit::lemma_member_unnumbered(
            Seq::empty(),
            Seq::empty(),
            e.value@,
            Seq::empty(),
            0,
            epath.push(crate::tag::ENUM_VALUE),
            scope,
            file,
            c.enum_,
        );
        let vals = crate::visit::value_visits(e.value@, 0, epath.push(crate::tag::ENUM_VALUE), scope, file, c.enum_);
        lemma_unnumbered_no_types(vals);
        lemma_no_types_ok(raw, vals);
        let head = Visit {
            path: epath,
            full_name: crate::names::joined_name(scope, crate::text::opt_str(e.name)),
            file,
            index: c.enum_,
            what: Visited::Enum { parent, enum_: e },
        };
        assert(paths_ok(raw, seq![head]));
        lemma_paths_concat(raw, seq![head], vals);
        lemma_paths_concat(
            raw,
            seq![head] + vals,
            enum_visits(enums, i + 1, path, scope, file, parent, crate::visit::add_enums(c, 1)),
        );
    }
}

/// Visits of extensions and services visit no message and no enum.
pub proof fn lemma_ext_service_no_types(
    exts: Seq<FieldDescriptorProto>,
    services: Seq<ServiceDescriptorProto>,
    i: int,
    path: Seq<i32>,
    scope: Seq<char>,
    file: int,
    parent: Option<int>,
    next: int,
)
    ensures
        no_types(extension_visits(exts, i, path, scope, file, parent, next)),
        no_types(service_visits(services, i, path, scope, file, next)),
    decreases exts.len() + services.len() - i,
{
    if i >= 0 && (i < exts.len() || i < services.len()) {
        lemma_ext_service_no_types(exts, services, i + 1, path, scope, file, parent, next + 1);
        if i < exts.len() {
            let all = extension_visits(exts, i, path, scope, file, parent, next);
            let rest = extension_visits(exts, i + 1, path, scope, file, parent, next + 1);
            assert forall|j: int| 0 <= j < all.len() implies !((#[trigger] all[j]).what is Message) && !(
            all[j].what is Enum) by {
                if j > 0 {
                    assert(all[j] == rest[j - 1]);
                }
            }
        }
        if i < services.len() {
            let s = services[i];
            let spath = path.push(i as i32);
            let full = crate::names::joined_name(scope, crate::text::opt_str(s.name));
            crate::visit::lemma_member_unnumbered(
                Seq::empty(),
                Seq::empty(),
                Seq::empty(),
                s.method@,
                0,
                spath.push(crate::tag::SERVICE_METHOD),
                full,
                file,
                next,
            );
            let ms = crate::visit::method_visits(s.method@, 0, spath.push(crate::tag::SERVICE_METHOD), full, file, next);
            lemma_unnumbered_no_types(ms);
            let all = service_visits(services, i, path, scope, file, next);
            let rest = service_visits(services, i + 1, path, scope, file, next + 1);
            assert forall|j: int| 0 <= j < all.len() implies !((#[trigger] all[j]).what is Message) && !(
            all[j].what is Enum) by {
                if j > 0 && j < 1 + ms.len() {
                    assert(all[j] == ms[j - 1]);
                } else if j >= 1 + ms.len() {
                    assert(all[j] == rest[j - 1 - ms.len()]);
                }
            }
        }
    }
}

/// The visits of a message found at `path` record paths that lead to the
/// messages they visit.
pub proof fn lemma_message_paths(
    raw: FileDescriptorProto,
    m: DescriptorProto,
    path: Seq<i32>,
    scope: Seq<char>,
    file: int,
    parent: Option<int>,
    c: Counts,
)
    requires
        message_at(raw, path) == Some(m),
        nested_fit_i32(m),
    ensures
        paths_ok(raw, message_visits(m, path, scope, file, parent, c).0),
    decreases m, 0int,
{
    let full = crate::names::joined_name(scope, crate::text::opt_str(m.name));
    let idx = c.message;
    let head = Visit { path, full_name: full, file, index: idx, what: Visited::Message { parent, message: m } };
    crate::visit::lemma_member_unnumbered(
        m.oneof_decl@,
        m.field@,
        Seq::empty(),
        Seq::empty(),
        0,
        path.push(crate::tag::MESSAGE_ONEOF_DECL),
        full,
        file,
        idx,
    );
    crate::visit::lemma_member_unnumbered(
        Seq::empty(),
        m.field@,
        Seq::empty(),
        Seq::empty(),
        0,
        path.push(crate::tag::MESSAGE_FIELD),
        full,
        file,
        idx,
    );
    let oneofs = crate::visit::oneof_visits(m.oneof_decl@, 0, path.push(crate::tag::MESSAGE_ONEOF_DECL), full, file, idx);
    let fields = crate::visit::field_visits(m.field@, 0, path.push(crate::tag::MESSAGE_FIELD), full, file, idx);
    lemma_unnumbered_no_types(oneofs);
    lemma_unnumbered_no_types(fields);
    lemma_no_types_ok(raw, oneofs);
    lemma_no_types_ok(raw, fields);
    let npath = path.push(crate::tag::MESSAGE_NESTED_TYPE);
    assert forall|k: int| 0 <= k < m.nested_type@.len() implies message_at(raw, #[trigger] npath.push(k as i32))
        == Some(m.nested_type@[k]) by {
        let q = npath.push(k as i32);
        crate::descriptor::lemma_message_at_even(raw, path);
        assert(q.take(q.len() - 2) =~= path);
        assert(q[q.len() - 1] as int == k);
    }
    let epath = path.push(crate::tag::MESSAGE_ENUM_TYPE);
    assert forall|k: int| 0 <= k < m.enum_type@.len() implies enum_at(raw, #[trigger] epath.push(k as i32))
        == Some(m.enum_type@[k]) by {
        let q = epath.push(k as i32);
        crate::descriptor::lemma_message_at_even(raw, path);
        assert(q.take(q.len() - 2) =~= path);
        assert(q[q.len() - 2] == crate::tag::MESSAGE_ENUM_TYPE);
        assert(q[q.len() - 1] as int == k);
    }
    lemma_messages_paths(raw, m.nested_type@, 0, npath, full, file, Some(idx), crate::visit::add_message(c));
    let nested = messages_visits(m.nested_type@, 0, npath, full, file, Some(idx), crate::visit::add_message(c));
    let c2 = nested.1;
    let enums = enum_visits(m.enum_type@, 0, path.push(crate::tag::MESSAGE_ENUM_TYPE), full, file, Some(idx), c2);
    let c3 = crate::visit::add_enums(c2, m.enum_type@.len() as int);
    let exts = extension_visits(m.extension@, 0, path.push(crate::tag::MESSAGE_EXTENSION), full, file, Some(idx), c3.extension);
    lemma_enum_paths(raw, m.enum_type@, 0, epath, full, file, Some(idx), c2);
    lemma_ext_service_no_types(m.extension@, Seq::empty(), 0, path.push(crate::tag::MESSAGE_EXTENSION), full, file, Some(idx), c3.extension);
    lemma_no_types_ok(raw, exts);
    assert(paths_ok(raw, seq![head]));
    lemma_paths_concat(raw, seq![head], oneofs);
    lemma_paths_concat(raw, seq![head] + oneofs, fields);
    lemma_paths_concat(raw, seq![head] + oneofs + fields, nested.0);
    lemma_paths_concat(raw, seq![head] + oneofs + fields + nested.0, enums);
    lemma_paths_concat(raw, seq![head] + oneofs + fields + nested.0 + enums, exts);
}

/// The visits of messages found at `path` followed by their index record
/// paths that lead to the messages they visit.
pub proof fn lemma_messages_paths(
    raw: FileDescriptorProto,
    ms: Seq<DescriptorProto>,
    i: int,
    path: Seq<i32>,
    scope: Seq<char>,
    file: int,
    parent: Option<int>,
    c: Counts,
)
    requires
        forall|k: int| i <= k < ms.len() ==> message_at(raw, #[trigger] path.push(k as i32)) == Some(ms[k]),
        nesteds_fit_i32(ms, i),
    ensures
        paths_ok(raw, messages_visits(ms, i, path, scope, file, parent, c).0),
    decreases ms, ms.len() - i,
{
    if 0 <= i < ms.len() {
        let a = message_visits(ms[i], path.push(i as i32), scope, file, parent, c);
        assert(message_at(raw, path.push(i as i32)) == Some(ms[i]));
        lemma_message_paths(raw, ms[i], path.push(i as i32), scope, file, parent, c);
        lemma_messages_paths(raw, ms, i + 1, path, scope, file, parent, a.1);
        lemma_paths_concat(raw, a.0, messages_visits(ms, i + 1, path, scope, file, parent, a.1).0);
    }
}

} // verus!

verus! {

/// The visits of a file record paths that lead to the messages and enums
/// they visit.
pub proof fn lemma_file_paths(f: FileDescriptorProto, c: Counts)
    requires
        file_fits_i32(f),
    ensures
        paths_ok(f, file_visits(f, c).0),
        forall|j: int| 0 <= j < file_visits(f, c).0.len() ==> (#[trigger] file_visits(f, c).0[j]).file == c.file,
{
    let scope = crate::text::opt_str(f.package);
    let fidx = c.file;
    let head = Visit { path: Seq::empty(), full_name: scope, file: fidx, index: fidx, what: Visited::File(f) };
    let mpath = seq![crate::tag::FILE_MESSAGE_TYPE];
    assert forall|k: int| 0 <= k < f.message_type@.len() implies message_at(f, #[trigger] mpath.push(k as i32))
        == Some(f.message_type@[k]) by {
        let q = mpath.push(k as i32);
        assert(q.len() == 2);
        assert(q[0] == crate::tag::FILE_MESSAGE_TYPE);
        assert(q[1] as int == k);
    }
    let epath = seq![crate::tag::FILE_ENUM_TYPE];
    assert forall|k: int| 0 <= k < f.enum_type@.len() implies enum_at(f, #[trigger] epath.push(k as i32)) == Some(
        f.enum_type@[k],
    ) by {
        let q = epath.push(k as i32);
        assert(q.len() == 2);
        assert(q[0] == crate::tag::FILE_ENUM_TYPE);
        assert(q[1] as int == k);
    }
    let c0 = Counts { file: c.file + 1, ..c };
    lemma_messages_paths(f, f.message_type@, 0, mpath, scope, fidx, None, c0);
    let msgs = messages_visits(f.message_type@, 0, mpath, scope, fidx, None, c0);
    let c1 = msgs.1;
    let enums = enum_visits(f.enum_type@, 0, seq![crate::tag::FILE_ENUM_TYPE], scope, fidx, None, c1);
    let c2 = crate::visit::add_enums(c1, f.enum_type@.len() as int);
    let services = service_visits(f.service@, 0, seq![crate::tag::FILE_SERVICE], scope, fidx, c2.service);
    let c3 = crate::visit::add_services(c2, f.service@.len() as int);
    let exts = extension_visits(f.extension@, 0, seq![crate::tag::FILE_EXTENSION], scope, fidx, None, c3.extension);
    lemma_enum_paths(f, f.enum_type@, 0, epath, scope, fidx, None, c1);
    lemma_ext_service_no_types(Seq::empty(), f.service@, 0, seq![crate::tag::FILE_SERVICE], scope, fidx, None, c2.service);
    lemma_ext_service_no_types(f.extension@, Seq::empty(), 0, seq![crate::tag::FILE_EXTENSION], scope, fidx, None, c3.extension);
    lemma_no_types_ok(f, services);
    lemma_no_types_ok(f, exts);
    assert(paths_ok(f, seq![head]));
    lemma_paths_concat(f, seq![head], msgs.0);
    lemma_paths_concat(f, seq![head] + msgs.0, enums);
    lemma_paths_concat(f, seq![head] + msgs.0 + enums, services);
    lemma_paths_concat(f, seq![head] + msgs.0 + enums + services, exts);
    crate::visit::lemma_file_visits_shape(f, c);
    let all = file_visits(f, c).0;
    assert forall|j: int| 0 <= j < all.len() implies (#[trigger] all[j]).file == c.file by {
        if j > 0 {
            assert(all.drop_first()[j - 1] == all[j]);
        }
    }
}

/// The visits of files from index `i` on record, for each message and enum,
/// its file and a path of that file that leads to it.
pub proof fn lemma_files_paths(fs: Seq<FileDescriptorProto>, i: int, c: Counts)
    requires
        0 <= i <= fs.len(),
        forall|k: int| i <= k < fs.len() ==> file_fits_i32(#[trigger] fs[k]),
    ensures
        forall|j: int|
            0 <= j < files_visits(fs, i, c).0.len() && (#[trigger] files_visits(fs, i, c).0[j]).what is Message ==> {
                let v = files_visits(fs, i, c).0[j];
                &&& c.file <= v.file < c.file + fs.len() - i
                &&& message_at(fs[i + v.file - c.file], v.path) == Some(v.what->Message_message)
            },
        forall|j: int|
            0 <= j < files_visits(fs, i, c).0.len() && (#[trigger] files_visits(fs, i, c).0[j]).what is Enum ==> {
                let v = files_visits(fs, i, c).0[j];
                &&& c.file <= v.file < c.file + fs.len() - i
                &&& enum_at(fs[i + v.file - c.file], v.path) == Some(v.what->Enum_enum_)
            },
    decreases fs.len() - i,
{
    if i < fs.len() {
        let a = file_visits(fs[i], c);
        lemma_file_paths(fs[i], c);
        crate::visit::lemma_file_counts(fs[i], c);
        lemma_files_paths(fs, i + 1, a.1);
        let b = files_visits(fs, i + 1, a.1);
        let all = files_visits(fs, i, c).0;
        assert(all == a.0 + b.0);
        assert forall|j: int| 0 <= j < all.len() implies {
            let v = #[trigger] all[j];
            &&& (v.what is Message || v.what is Enum) ==> c.file <= v.file < c.file + fs.len() - i
            &&& v.what is Message ==> message_at(fs[i + v.file - c.file], v.path) == Some(v.what->Message_message)
            &&& v.what is Enum ==> enum_at(fs[i + v.file - c.file], v.path) == Some(v.what->Enum_enum_)
        } by {
            if j < a.0.len() {
                assert(all[j] == a.0[j]);
                assert(a.0[j].file == c.file);
            } else {
                assert(all[j] == b.0[j - a.0.len()]);
            }
        }
    }
}

/// Every message and enum type a batch added to a pool is found, by its path,
/// in the descriptor of the file that defines it; so its own descriptor can
/// be read.
pub proof fn lemma_added_types_have_descriptors(
    old: crate::pool::DescriptorPoolInner,
    new: crate::pool::DescriptorPoolInner,
    batch: Seq<FileDescriptorProto>,
    j: int,
)
    requires
        crate::api::added(old, new, batch),
        forall|k: int| 0 <= k < crate::api::new_files(old.files@, batch).len() ==> file_fits_i32(
            #[trigger] crate::api::new_files(old.files@, batch)[k],
        ),
        0 <= j < files_visits(crate::api::new_files(old.files@, batch), 0, crate::api::pool_counts(old)).0.len(),
    ensures
        ({
            let v = files_visits(crate::api::new_files(old.files@, batch), 0, crate::api::pool_counts(old)).0[j];
            &&& v.what is Message ==> {
                let m = new.messages@[v.index];
                message_at(new.files@[m.id.file as int].raw, m.id.path@) == Some(v.what->Message_message)
            }
            &&& v.what is Enum ==> {
                let e = new.enums@[v.index];
                enum_at(new.files@[e.id.file as int].raw, e.id.path@) == Some(v.what->Enum_enum_)
            }
        }),
{
    let d = crate::api::new_files(old.files@, batch);
    let c0 = crate::api::pool_counts(old);
    lemma_files_paths(d, 0, c0);
    let vs = files_visits(d, 0, c0).0;
    let v = vs[j];
    if v.what is Message || v.what is Enum {
        let k = v.file - c0.file;
        assert(crate::collect::raws_from(new.files@, old.files@.len() as int)[k] == new.files@[old.files@.len()
            + k].raw);
    }
}

} // verus!
