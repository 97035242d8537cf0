//! The descriptor pool: adding files to it, and looking definitions up.
use vstd::prelude::*;
use crate::collect::{collect_names, defs_in_files, raws_from};
use crate::error::{DescriptorError, DescriptorErrorKind, Label};
use crate::kind::Syntax;
use crate::link::{file_named, link_names, numbers_in_order};
use crate::pool::{DescriptorPoolInner, FileDescriptorInner};
use crate::text::opt_str;
use crate::types::{FileDescriptorProto, FileDescriptorSet};
use crate::visit::{counts_fit, files_fit, files_visits, Counts, DescriptorPoolOffsets};

verus! {

/// A collection of related descriptors: the files added to it, with every
/// message, enum, extension and service they define.
pub struct DescriptorPool {
    inner: DescriptorPoolInner,
}

/// Whether a file declares a syntax the pool knows: none, `proto2` or `proto3`.
pub open spec fn known_syntax(f: FileDescriptorProto) -> bool {
    match f.syntax {
        None => true,
        Some(s) => s@ == "proto2"@ || s@ == "proto3"@,
    }
}

/// The syntax of a file that declares a known one.
pub open spec fn spec_syntax(f: FileDescriptorProto) -> Syntax {
    match f.syntax {
        Some(s) => if s@ == "proto3"@ {
            Syntax::Proto3
        } else {
            Syntax::Proto2
        },
        None => Syntax::Proto2,
    }
}

/// The syntax of a file.
fn syntax_of(f: &FileDescriptorProto) -> (r: Syntax)
    requires
        known_syntax(*f),
    ensures
        r == spec_syntax(*f),
{
    match &f.syntax {
        Some(s) => {
            if crate::text::str_eq(s.as_str(), "proto3") {
                Syntax::Proto3
            } else {
                Syntax::Proto2
            }
        },
        None => Syntax::Proto2,
    }
}

/// The files of a batch that are not in the pool yet, by name.
pub open spec fn new_files(existing: Seq<FileDescriptorInner>, batch: Seq<FileDescriptorProto>) -> Seq<FileDescriptorProto> {
    batch.filter(|f: FileDescriptorProto| file_named(existing, opt_str(f.name)) is None)
}

/// Whether the enum `e` holds what the visit `v` of an enum defines: its
/// names, its parent, whether it allows aliases, and its values with their
/// names, full names (in the scope around the enum) and numbers, in order.
pub open spec fn enum_contents(e: crate::pool::EnumDescriptorInner, v: crate::visit::Visit) -> bool {
    match v.what {
        crate::visit::Visited::Enum { parent, enum_ } => {
            &&& e.id.name@ == opt_str(enum_.name)
            &&& crate::visit::opt_int(e.parent) == parent
            &&& e.allow_alias == crate::options::spec_allow_alias(enum_.options)
            &&& e.values@.len() == enum_.value@.len()
            &&& forall|i: int| 0 <= i < e.values@.len() ==> #[trigger] crate::collect::value_built(
                e.values@[i],
                v.file,
                v.path,
                crate::collect::enclosing_scope(v.full_name, opt_str(enum_.name)),
                enum_.value@[i],
                i,
            )
        },
        _ => false,
    }
}

/// Whether each message and enum of the visits has the identity of its visit
/// at its index in the tables, and each enum the contents its visit defines.
pub open spec fn identities_at_index(
    messages: Seq<crate::pool::MessageDescriptorInner>,
    enums: Seq<crate::pool::EnumDescriptorInner>,
    visits: Seq<crate::visit::Visit>,
) -> bool {
    &&& forall|j: int| 0 <= j < visits.len() && (#[trigger] visits[j]).what is Message ==> 0 <= visits[j].index
        < messages.len() && messages[visits[j].index].id.full_name@ == visits[j].full_name
        && messages[visits[j].index].id.file == visits[j].file && messages[visits[j].index].id.path@ == visits[j].path
    &&& forall|j: int| 0 <= j < visits.len() && (#[trigger] visits[j]).what is Enum ==> 0 <= visits[j].index
        < enums.len() && enums[visits[j].index].id.full_name@ == visits[j].full_name
        && enums[visits[j].index].id.file == visits[j].file && enums[visits[j].index].id.path@ == visits[j].path
        && enum_contents(enums[visits[j].index], visits[j])
}

/// The counters a pool's sizes give.
pub open spec fn pool_counts(p: DescriptorPoolInner) -> Counts {
    Counts {
        file: p.files@.len() as int,
        message: p.messages@.len() as int,
        enum_: p.enums@.len() as int,
        service: p.services@.len() as int,
        extension: p.extensions@.len() as int,
    }
}

/// Whether every name the table gives to a message or enum type is the full
/// name of that type in the pool.
pub open spec fn names_consistent(p: DescriptorPoolInner) -> bool {
    forall|i: int| 0 <= i < p.names@.len() ==> match (#[trigger] p.names@[i]).def.kind {
        crate::definition::DefinitionKind::Message(m) => m < p.messages@.len() && p.messages@[m as int].id.full_name@
            == p.names@[i].name@,
        crate::definition::DefinitionKind::Enum(e) => e < p.enums@.len() && p.enums@[e as int].id.full_name@
            == p.names@[i].name@,
        _ => true,
    }
}

/// Whether a pool is consistent: every name refers to a file of the pool,
/// names of types are those types' full names, and number tables are in
/// order.
pub open spec fn pool_wf(p: DescriptorPoolInner) -> bool {
    &&& defs_in_files(p.names@, p.files@.len() as int)
    &&& names_consistent(p)
    &&& numbers_in_order(p.messages@, p.enums@)
}

/// Whether two pools hold the same files, names and definitions.
pub open spec fn same_contents(a: DescriptorPoolInner, b: DescriptorPoolInner) -> bool {
    &&& a.files@ == b.files@
    &&& a.names@ == b.names@
    &&& a.messages@ == b.messages@
    &&& a.enums@ == b.enums@
    &&& a.extensions@ == b.extensions@
    &&& a.services@ == b.services@
}

/// What a pool holds after a batch was added to it: the files it held, then
/// the new files of the batch in order, with every message and enum at the
/// index its definition was numbered with, and every name defined by the new
/// files registered for its definition.
pub open spec fn added(old: DescriptorPoolInner, new: DescriptorPoolInner, batch: Seq<FileDescriptorProto>) -> bool {
    let d = new_files(old.files@, batch);
    let visits = files_visits(d, 0, pool_counts(old)).0;
    &&& new.files@.take(old.files@.len() as int) == old.files@
    &&& new.names@.len() >= old.names@.len()
    &&& new.names@.take(old.names@.len() as int) == old.names@
    &&& raws_from(new.files@, old.files@.len() as int) == d
    &&& identities_at_index(new.messages@, new.enums@, visits)
    &&& crate::link::services_at_index(new.services@, visits)
    &&& crate::link::fields_linked(new.messages@, visits, new.files@)
    &&& crate::link::extensions_at_index(new.extensions@, visits, new.files@)
    &&& crate::collect::all_registered(new.names@, visits, true)
}

/// Whether adding `batch` to the pool can be done without overflowing the
/// `u32` indices of the pool.
pub open spec fn batch_fits(p: DescriptorPoolInner, batch: Seq<FileDescriptorProto>) -> bool {
    let d = new_files(p.files@, batch);
    &&& files_fit(d)
    &&& counts_fit(files_visits(d, 0, pool_counts(p)).1)
}

/// Whether no enum a batch adds is invalid in the syntax of its file: none
/// is empty, and outside proto2 each has a first value numbered 0.
pub open spec fn batch_enums_valid(p: DescriptorPoolInner, batch: Seq<FileDescriptorProto>) -> bool {
    let d = new_files(p.files@, batch);
    let vs = files_visits(d, 0, pool_counts(p)).0;
    forall|j: int| 0 <= j < vs.len() ==> match (#[trigger] vs[j]).what {
        crate::visit::Visited::Enum { enum_, .. } => !crate::collect::enum_invalid(
            enum_,
            spec_syntax(d[vs[j].file - p.files@.len()]),
        ),
        _ => true,
    }
}

/// The visits of files from index `i` on belong to those files.
pub proof fn lemma_files_file_range(fs: Seq<FileDescriptorProto>, i: int, c: Counts)
    requires
        0 <= i <= fs.len(),
    ensures
        forall|j: int| 0 <= j < files_visits(fs, i, c).0.len() ==> c.file <= (#[trigger] files_visits(fs, i, c).0[j]).file
            < c.file + fs.len() - i,
    decreases fs.len() - i,
{
    if i < fs.len() {
        let a = crate::visit::file_visits(fs[i], c);
        crate::visit::lemma_file_visits_shape(fs[i], c);
        crate::visit::lemma_file_counts(fs[i], c);
        lemma_files_file_range(fs, i + 1, a.1);
        let b = files_visits(fs, i + 1, a.1);
        let all = files_visits(fs, i, c).0;
        assert(all == a.0 + b.0);
        assert forall|j: int| 0 <= j < all.len() implies c.file <= (#[trigger] all[j]).file < c.file + fs.len() - i by {
            if j < a.0.len() {
                if j > 0 {
                    assert(a.0.drop_first()[j - 1] == a.0[j]);
                }
            } else {
                assert(all[j] == b.0[j - a.0.len()]);
            }
        }
    }
}

/// Whether every import of `f` names a file of the pool `p` or one of the
/// files `d`, and every public and weak import index of `f` is the index of
/// one of its imports.
pub open spec fn imports_known(p: DescriptorPoolInner, d: Seq<FileDescriptorProto>, f: FileDescriptorProto) -> bool {
    &&& forall|i: int| 0 <= i < f.dependency@.len() ==> (#[trigger] file_named(p.files@, f.dependency@[i]@)) is Some
        || exists|k: int| 0 <= k < d.len() && opt_str(#[trigger] d[k].name) == f.dependency@[i]@
    &&& forall|i: int| 0 <= i < f.public_dependency@.len() ==> 0 <= #[trigger] f.public_dependency@[i] < f.dependency@.len()
    &&& forall|i: int| 0 <= i < f.weak_dependency@.len() ==> 0 <= #[trigger] f.weak_dependency@[i] < f.dependency@.len()
}

/// Whether the files a batch adds have names unlike each other's, define
/// nothing but messages without fields and services without methods, and
/// introduce their names without a clash with the pool or with each other.
pub open spec fn simple_defs(p: DescriptorPoolInner, batch: Seq<FileDescriptorProto>) -> bool {
    let d = new_files(p.files@, batch);
    let vs = files_visits(d, 0, pool_counts(p)).0;
    &&& forall|k1: int, k2: int| 0 <= k1 < k2 < d.len() ==> opt_str(#[trigger] d[k1].name) != opt_str(#[trigger] d[k2].name)
    &&& forall|j: int| 0 <= j < vs.len() ==> crate::collect::simple_visit(#[trigger] vs[j])
    &&& crate::collect::names_clean(p.names@, vs)
}

/// Whether a batch is as `simple_defs` says, and its new files import only
/// files of the pool or of the batch.
pub open spec fn simple_batch(p: DescriptorPoolInner, batch: Seq<FileDescriptorProto>) -> bool {
    let d = new_files(p.files@, batch);
    &&& simple_defs(p, batch)
    &&& forall|k: int| 0 <= k < d.len() ==> imports_known(p, d, #[trigger] d[k])
}

/// For the files of a pool followed by the new files `d` of a batch, the
/// imports of a new file are valid exactly when they are known to the pool
/// or the batch.
proof fn lemma_imports_known_valid(
    p0: DescriptorPoolInner,
    files: Seq<FileDescriptorInner>,
    d: Seq<FileDescriptorProto>,
    k: int,
)
    requires
        p0.files@.len() <= k < files.len(),
        files.take(p0.files@.len() as int) == p0.files@,
        raws_from(files, p0.files@.len() as int) == d,
    ensures
        crate::link::imports_valid(files, files[k].raw) <==> imports_known(p0, d, files[k].raw),
{
    let old_len = p0.files@.len() as int;
    let f = files[k].raw;
    assert forall|i: int| 0 <= i < f.dependency@.len() implies ((#[trigger] file_named(files, f.dependency@[i]@)) is Some
        <==> (file_named(p0.files@, f.dependency@[i]@) is Some || exists|b: int|
        0 <= b < d.len() && opt_str(#[trigger] d[b].name) == f.dependency@[i]@)) by {
        let n = f.dependency@[i]@;
        crate::link::lemma_file_named(files, n);
        crate::link::lemma_file_named(p0.files@, n);
        if file_named(p0.files@, n) is Some {
            let a = file_named(p0.files@, n)->0;
            assert(files.take(old_len)[a] == files[a]);
            assert(opt_str(files[a].raw.name) == n);
        } else if exists|b: int| 0 <= b < d.len() && opt_str(#[trigger] d[b].name) == n {
            let b = choose|b: int| 0 <= b < d.len() && opt_str(#[trigger] d[b].name) == n;
            assert(raws_from(files, old_len)[b] == files[old_len + b].raw);
            assert(opt_str(files[old_len + b].raw.name) == n);
        } else if file_named(files, n) is Some {
            let a = file_named(files, n)->0;
            if a < old_len {
                assert(files.take(old_len)[a] == files[a]);
                assert(opt_str(p0.files@[a].raw.name) == n);
            } else {
                assert(raws_from(files, old_len)[a - old_len] == files[a].raw);
                assert(opt_str(d[a - old_len].name) == n);
            }
        }
    }
    if crate::link::imports_valid(files, f) {
        assert forall|i: int| 0 <= i < f.dependency@.len() implies (#[trigger] file_named(p0.files@, f.dependency@[i]@)) is Some
            || exists|b: int| 0 <= b < d.len() && opt_str(#[trigger] d[b].name) == f.dependency@[i]@ by {
            assert(file_named(files, f.dependency@[i]@) is Some);
        }
    }
    if imports_known(p0, d, f) {
        assert forall|i: int| 0 <= i < f.dependency@.len() implies (#[trigger] file_named(files, f.dependency@[i]@)) is Some by {
            assert(file_named(p0.files@, f.dependency@[i]@) is Some || exists|b: int|
                0 <= b < d.len() && opt_str(#[trigger] d[b].name) == f.dependency@[i]@);
        }
    }
}

/// What the simple batches state of the new files, once they follow the
/// files of the pool.
proof fn lemma_simple_files(p0: DescriptorPoolInner, batch: Seq<FileDescriptorProto>, files: Seq<FileDescriptorInner>)
    requires
        files.len() >= p0.files@.len(),
        files.take(p0.files@.len() as int) == p0.files@,
        raws_from(files, p0.files@.len() as int) == new_files(p0.files@, batch),
    ensures
        simple_defs(p0, batch) ==> crate::collect::simple_files_from(
            files,
            p0.files@.len() as int,
            p0.names@,
            files_visits(raws_from(files, p0.files@.len() as int), 0, pool_counts(p0)).0,
        ),
        simple_batch(p0, batch) ==> crate::link::simple_linkable_from(
            files,
            p0.files@.len() as int,
            files_visits(raws_from(files, p0.files@.len() as int), 0, pool_counts(p0)).0,
        ),
        simple_defs(p0, batch) && !simple_batch(p0, batch) ==> exists|k: int|
            p0.files@.len() <= k < files.len() && !crate::link::imports_valid(files, #[trigger] files[k].raw),
{
    let old_len = p0.files@.len() as int;
    let d = new_files(p0.files@, batch);
    let pred = |f: FileDescriptorProto| file_named(p0.files@, opt_str(f.name)) is None;
    batch.filter_lemma(pred);
    if simple_defs(p0, batch) {
        assert forall|k: int| old_len <= k < files.len() implies !crate::collect::file_name_taken(files, k) by {
            assert(raws_from(files, old_len)[k - old_len] == files[k].raw);
            assert(pred(d[k - old_len]));
            crate::link::lemma_file_named(p0.files@, opt_str(files[k].raw.name));
            assert forall|j: int| 0 <= j < k implies opt_str(files[j].raw.name) != opt_str(files[k].raw.name) by {
                if j < old_len {
                    assert(files.take(old_len)[j] == files[j]);
                } else {
                    assert(raws_from(files, old_len)[j - old_len] == files[j].raw);
                    assert(opt_str(d[j - old_len].name) != opt_str(d[k - old_len].name));
                }
            }
        }
        if simple_batch(p0, batch) {
            assert forall|k: int| old_len <= k < files.len() implies crate::link::imports_valid(files, #[trigger] files[k].raw) by {
                assert(raws_from(files, old_len)[k - old_len] == files[k].raw);
                lemma_imports_known_valid(p0, files, d, k);
            }
        } else {
            let k = choose|k: int| 0 <= k < d.len() && !imports_known(p0, d, #[trigger] d[k]);
            assert(raws_from(files, old_len)[k] == files[old_len + k].raw);
            lemma_imports_known_valid(p0, files, d, old_len + k);
        }
    }
}

/// What adding `batch` to the pool `old` promises of the pool `new` it
/// leaves and the result `r`, as the add functions state it.
pub open spec fn add_outcome(
    old: DescriptorPoolInner,
    new: DescriptorPoolInner,
    batch: Seq<FileDescriptorProto>,
    r: Result<(), DescriptorError>,
) -> bool {
    &&& r is Ok ==> crate::wf::pool_valid(new)
    &&& match r {
        Err(e) => e.kinds().len() > 0,
        Ok(_) => true,
    }
    &&& !new_syntax_known(old, batch) ==> new == old && match r {
        Err(e) => forall|j: int| 0 <= j < e.kinds().len() ==> reports_unknown_syntax(old, batch, #[trigger] e.kinds()[j]),
        Ok(_) => false,
    }
    &&& crate::wf::pool_valid(old) && new_syntax_known(old, batch) && r is Err ==> rolled_back(old, new)
    &&& crate::wf::pool_valid(old) && r is Ok ==> added(old, new, batch)
    &&& crate::wf::pool_valid(old) && new_files(old.files@, batch).len() == 0 ==> r is Ok && same_contents(old, new)
    &&& !batch_enums_valid(old, batch) ==> r is Err
    &&& new_syntax_known(old, batch) && !batch_enums_valid(old, batch) ==> match r {
        Err(e) => crate::collect::has_enum_error(e.kinds()),
        Ok(_) => false,
    }
    &&& new_syntax_known(old, batch) && crate::collect::later_clash(files_visits(new_files(old.files@, batch), 0, pool_counts(old)).0)
        ==> match r {
        Err(e) => crate::collect::has_duplicate_name(e.kinds()),
        Ok(_) => false,
    }
    &&& new_syntax_known(old, batch) && simple_batch(old, batch) ==> r is Ok
    &&& new_syntax_known(old, batch) && simple_defs(old, batch) && !simple_batch(old, batch) ==> match r {
        Err(e) => crate::link::import_errors_from(e.kinds(), 0),
        Ok(_) => false,
    }
    &&& new_syntax_known(old, batch) ==> exists|mid: DescriptorPoolInner| #[trigger] stale_dropped(old, mid) && {
        &&& r is Err ==> rolled_back(mid, new)
        &&& r is Ok ==> added(mid, new, batch)
    }
}

/// Whether `e` is below `bound`.
pub open spec fn below(bound: int) -> spec_fn(u32) -> bool {
    |e: u32| e < bound
}

/// Whether `new` is `old` with every index that names no extension of the
/// pool dropped from the extension lists of its messages.
pub open spec fn stale_dropped(old: DescriptorPoolInner, new: DescriptorPoolInner) -> bool {
    &&& new.files@ == old.files@
    &&& new.names@ == old.names@
    &&& new.enums@ == old.enums@
    &&& new.extensions@ == old.extensions@
    &&& new.services@ == old.services@
    &&& new.messages@.len() == old.messages@.len()
    &&& forall|j: int| 0 <= j < old.messages@.len() ==> {
        let m0 = #[trigger] old.messages@[j];
        let m1 = new.messages@[j];
        &&& m1.id == m0.id && m1.parent == m0.parent && m1.fields == m0.fields
        &&& m1.field_numbers == m0.field_numbers && m1.oneofs == m0.oneofs
        &&& m1.extensions@ == m0.extensions@.filter(below(old.extensions@.len() as int))
    }
}

/// Keeping the elements that all pass a test keeps the whole sequence.
pub proof fn lemma_filter_keeps_all(s: Seq<u32>, pred: spec_fn(u32) -> bool)
    requires
        forall|k: int| 0 <= k < s.len() ==> pred(#[trigger] s[k]),
    ensures
        s.filter(pred) == s,
    decreases s.len(),
{
    if s.len() > 0 {
        let t = s.drop_last();
        lemma_filter_keeps_all(t, pred);
        assert(t.push(s.last()) =~= s);
        t.lemma_filter_push(s.last(), pred);
    } else {
        reveal(Seq::filter);
        assert(s.filter(pred) =~= s);
    }
}

/// Whether the file `f` of a batch is new to the pool `p`.
pub open spec fn is_new(p: DescriptorPoolInner, f: FileDescriptorProto) -> bool {
    file_named(p.files@, opt_str(f.name)) is None
}

/// Whether every file of a batch that is new to the pool declares a known
/// syntax.
pub open spec fn new_syntax_known(p: DescriptorPoolInner, batch: Seq<FileDescriptorProto>) -> bool {
    forall|k: int| 0 <= k < batch.len() && is_new(p, #[trigger] batch[k]) ==> known_syntax(batch[k])
}

/// Whether `e` reports the unknown syntax of a file of the batch that is new
/// to the pool, at the file's `syntax` field.
pub open spec fn reports_unknown_syntax(
    p: DescriptorPoolInner,
    batch: Seq<FileDescriptorProto>,
    e: DescriptorErrorKind,
) -> bool {
    exists|k: int|
        0 <= k < batch.len() && is_new(p, #[trigger] batch[k]) && !known_syntax(batch[k]) && match e {
            DescriptorErrorKind::UnknownSyntax { syntax, found } => batch[k].syntax == Some(syntax)
                && found.file@ == opt_str(batch[k].name) && found.path@ == seq![crate::tag::FILE_SYNTAX]
                && found.span == crate::error::span_in_file(batch[k], found.path@),
            _ => false,
        }
}

/// A batch with no new file has no new file of unknown syntax.
pub proof fn lemma_no_new_known(p: DescriptorPoolInner, batch: Seq<FileDescriptorProto>)
    ensures
        new_files(p.files@, batch).len() == 0 ==> new_syntax_known(p, batch),
{
    if new_files(p.files@, batch).len() == 0 {
        let pred = |f: FileDescriptorProto| file_named(p.files@, opt_str(f.name)) is None;
        assert forall|k: int| 0 <= k < batch.len() && is_new(p, #[trigger] batch[k]) implies known_syntax(batch[k]) by {
            assert(pred(batch[k]));
            batch.lemma_filter_contains_rev(pred, batch[k]);
            assert(batch.contains(batch[k]));
        }
    }
}

/// One error for each file of a batch, new to the pool, whose syntax is
/// neither `proto2` nor `proto3`.
fn unknown_syntax_errors(p: &DescriptorPoolInner, files: &Vec<FileDescriptorProto>) -> (r: Vec<DescriptorErrorKind>)
    ensures
        r@.len() == 0 <==> new_syntax_known(*p, files@),
        forall|j: int| 0 <= j < r@.len() ==> reports_unknown_syntax(*p, files@, #[trigger] r@[j]),
{
    let mut r: Vec<DescriptorErrorKind> = Vec::new();
    let mut i: usize = 0;
    while i < files.len()
        invariant
            i <= files@.len(),
            r@.len() == 0 <==> forall|k: int| 0 <= k < i && is_new(*p, #[trigger] files@[k]) ==> known_syntax(files@[k]),
            forall|j: int| 0 <= j < r@.len() ==> reports_unknown_syntax(*p, files@, #[trigger] r@[j]),
        decreases files@.len() - i,
    {
        let f = &files[i];
        let taken = crate::collect::has_file_named(&p.files, p.files.len(), f.name());
        proof {
            crate::link::lemma_file_named(p.files@, opt_str(f.name));
        }
        if !taken {
            match &f.syntax {
                Some(s) => {
                    if !(crate::text::str_eq(s.as_str(), "proto2") || crate::text::str_eq(s.as_str(), "proto3")) {
                        let mut path: Vec<i32> = Vec::new();
                        path.push(crate::tag::FILE_SYNTAX);
                        let found = Label::in_file(f, path);
                        let e = DescriptorErrorKind::UnknownSyntax { syntax: s.clone(), found };
                        proof {
                            assert(found.path@ =~= seq![crate::tag::FILE_SYNTAX]);
                            assert(is_new(*p, files@[i as int]));
                            assert(reports_unknown_syntax(*p, files@, e));
                        }
                        r.push(e);
                    }
                },
                None => {},
            }
        }
        i += 1;
    }
    r
}

/// What a pool keeps when adding files fails: its files, names, enums,
/// extensions and services, and its messages, except that the list of
/// extensions of each message, with the extensions that were being added
/// appended, keeps only the indices below the number of messages.
pub open spec fn rolled_back(old: DescriptorPoolInner, new: DescriptorPoolInner) -> bool {
    &&& new.files@ == old.files@
    &&& new.names@ == old.names@
    &&& new.enums@ == old.enums@
    &&& new.services@ == old.services@
    &&& new.extensions@ == old.extensions@
    &&& new.messages@.len() == old.messages@.len()
    &&& forall|j: int| 0 <= j < old.messages@.len() ==> {
        let m0 = #[trigger] old.messages@[j];
        let m1 = new.messages@[j];
        &&& m1.id == m0.id
        &&& m1.parent == m0.parent
        &&& m1.fields == m0.fields
        &&& m1.field_numbers == m0.field_numbers
        &&& m1.oneofs == m0.oneofs
        &&& exists|added: Seq<u32>|
            (forall|k: int| 0 <= k < added.len() ==> added[k] >= old.extensions@.len())
            && m1.extensions@ == (m0.extensions@ + added).filter(|e: u32| e < old.messages@.len())
    }
}

impl DescriptorPoolOffsets {
    /// The counters a pool's sizes give.
    pub fn new(pool: &DescriptorPoolInner) -> (r: DescriptorPoolOffsets)
        requires
            counts_fit(pool_counts(*pool)),
        ensures
            r.counts() == pool_counts(*pool),
    {
        DescriptorPoolOffsets {
            file: pool.files.len() as u32,
            message: pool.messages.len() as u32,
            enum_: pool.enums.len() as u32,
            service: pool.services.len() as u32,
            extension: pool.extensions.len() as u32,
        }
    }

    /// Takes a pool back to these counters: everything added since is
    /// dropped, and message extension lists keep only the indices below the
    /// message counter.
    pub fn rollback(&self, pool: &mut DescriptorPoolInner, names_len: usize)
        requires
            self.file <= old(pool).files@.len(),
            self.message <= old(pool).messages@.len(),
            self.enum_ <= old(pool).enums@.len(),
            self.service <= old(pool).services@.len(),
            self.extension <= old(pool).extensions@.len(),
            names_len <= old(pool).names@.len(),
        ensures
            final(pool).files@ == old(pool).files@.take(self.file as int),
            final(pool).enums@ == old(pool).enums@.take(self.enum_ as int),
            final(pool).services@ == old(pool).services@.take(self.service as int),
            final(pool).extensions@ == old(pool).extensions@.take(self.extension as int),
            final(pool).names@ == old(pool).names@.take(names_len as int),
            final(pool).messages@.len() == self.message,
            forall|j: int| 0 <= j < self.message ==> {
                let m0 = #[trigger] old(pool).messages@[j];
                let m1 = final(pool).messages@[j];
                &&& m1.id == m0.id
                &&& m1.parent == m0.parent
                &&& m1.fields == m0.fields
                &&& m1.field_numbers == m0.field_numbers
                &&& m1.oneofs == m0.oneofs
                &&& m1.extensions@ == m0.extensions@.filter(|e: u32| e < self.message)
            },
    {
        pool.files.truncate(self.file as usize);
        pool.messages.truncate(self.message as usize);
        pool.enums.truncate(self.enum_ as usize);
        pool.extensions.truncate(self.extension as usize);
        pool.services.truncate(self.service as usize);
        pool.names.truncate(names_len);
        proof {
            assert(pool.files@ =~= old(pool).files@.take(self.file as int));
            assert(pool.enums@ =~= old(pool).enums@.take(self.enum_ as int));
            assert(pool.services@ =~= old(pool).services@.take(self.service as int));
            assert(pool.extensions@ =~= old(pool).extensions@.take(self.extension as int));
            assert(pool.names@ =~= old(pool).names@.take(names_len as int));
            assert(pool.messages@ =~= old(pool).messages@.take(self.message as int));
        }
        let ghost m0 = pool.messages@;
        let ghost f1 = pool.files@;
        let ghost e1 = pool.enums@;
        let ghost s1 = pool.services@;
        let ghost x1 = pool.extensions@;
        let ghost n1 = pool.names@;
        let mut j: usize = 0;
        while j < pool.messages.len()
            invariant
                j <= pool.messages@.len(),
                pool.messages@.len() == m0.len(),
                m0.len() == self.message,
                m0 == old(pool).messages@.take(self.message as int),
                pool.files@ == f1 && pool.enums@ == e1 && pool.services@ == s1,
                pool.extensions@ == x1 && pool.names@ == n1,
                forall|k: int| j <= k < m0.len() ==> #[trigger] pool.messages@[k] == m0[k],
                forall|k: int| 0 <= k < j ==> {
                    let a = #[trigger] m0[k];
                    let b = pool.messages@[k];
                    &&& b.id == a.id && b.parent == a.parent && b.fields == a.fields
                    &&& b.field_numbers == a.field_numbers && b.oneofs == a.oneofs
                    &&& b.extensions@ == a.extensions@.filter(|e: u32| e < self.message)
                },
            decreases m0.len() - j,
        {
            retain_below(&mut pool.messages[j].extensions, self.message);
            j += 1;
        }
        proof {
            assert forall|j: int| 0 <= j < self.message implies #[trigger] old(pool).messages@[j] == m0[j] by {}
        }
    }
}

/// Keeps the elements of `v` below `bound`, in order.
fn retain_below(v: &mut Vec<u32>, bound: u32)
    ensures
        final(v)@ == old(v)@.filter(|e: u32| e < bound),
{
    let ghost v0 = v@;
    let mut kept: Vec<u32> = Vec::new();
    let mut i: usize = 0;
    proof {
        reveal(Seq::filter);
        assert(v0.take(0) =~= Seq::<u32>::empty());
    }
    while i < v.len()
        invariant
            v@ == v0,
            i <= v0.len(),
            kept@ == v0.take(i as int).filter(|e: u32| e < bound),
        decreases v0.len() - i,
    {
        proof {
            reveal(Seq::filter);
            assert(v0.take(i + 1).drop_last() =~= v0.take(i as int));
            assert(v0.take(i + 1).last() == v0[i as int]);
        }
        if v[i] < bound {
            kept.push(v[i]);
        }
        i += 1;
    }
    proof {
        assert(v0.take(v0.len() as int) =~= v0);
    }
    *v = kept;
}

} // verus!

verus! {

impl DescriptorPoolInner {
    /// A new, empty pool.
    pub fn empty() -> (r: DescriptorPoolInner)
        ensures
            pool_wf(r),
            r.files@.len() == 0,
            r.names@.len() == 0,
            r.messages@.len() == 0,
            r.enums@.len() == 0,
            r.services@.len() == 0,
            r.extensions@.len() == 0,
    {
        DescriptorPoolInner {
            names: Vec::new(),
            files: Vec::new(),
            messages: Vec::new(),
            enums: Vec::new(),
            extensions: Vec::new(),
            services: Vec::new(),
        }
    }

    /// Adds a batch of files. Files whose name is already in the pool are
    /// skipped. When the files are invalid, the errors found are returned and
    /// the pool is taken back to what it was; otherwise every name the new
    /// files define is registered for its definition.
    #[verifier::rlimit(50)]
    #[verifier::spinoff_prover]
    pub fn build_files(&mut self, files: Vec<FileDescriptorProto>) -> (r: Result<(), DescriptorError>)
        requires
            pool_wf(*old(self)),
            crate::wf::pool_valid(*old(self)),
            batch_fits(*old(self), files@),
            new_syntax_known(*old(self), files@),
        ensures
            r is Ok ==> crate::wf::pool_valid(*final(self)),
            r is Ok ==> counts_fit(crate::wf::sizes(*final(self))),
            r is Ok ==> final(self).names@.len() >= old(self).names@.len(),
            r is Ok ==> final(self).names@.take(old(self).names@.len() as int) == old(self).names@,
            new_files(old(self).files@, files@).len() == 0 ==> r is Ok && final(self).files@ == old(self).files@
                && final(self).names@ == old(self).names@ && final(self).messages@ == old(self).messages@
                && final(self).enums@ == old(self).enums@ && final(self).extensions@ == old(self).extensions@
                && final(self).services@ == old(self).services@,
            r is Err ==> rolled_back(*old(self), *final(self)),
            r matches Err(e) ==> e.kinds().len() > 0,
            r is Ok ==> pool_wf(*final(self)),
            r is Ok ==> final(self).files@.take(old(self).files@.len() as int) == old(self).files@,
            r is Ok ==> raws_from(final(self).files@, old(self).files@.len() as int) == new_files(
                old(self).files@,
                files@,
            ),
            r is Ok ==> identities_at_index(
                final(self).messages@,
                final(self).enums@,
                files_visits(new_files(old(self).files@, files@), 0, pool_counts(*old(self))).0,
            ),
            r is Ok ==> crate::collect::all_registered(
                final(self).names@,
                files_visits(new_files(old(self).files@, files@), 0, pool_counts(*old(self))).0,
                true,
            ),
            r is Ok ==> batch_enums_valid(*old(self), files@),
            !batch_enums_valid(*old(self), files@) ==> (r matches Err(e) && crate::collect::has_enum_error(e.kinds())),
            crate::collect::later_clash(files_visits(new_files(old(self).files@, files@), 0, pool_counts(*old(self))).0)
                ==> (r matches Err(e) && crate::collect::has_duplicate_name(e.kinds())),
            r is Ok ==> crate::link::services_at_index(
                final(self).services@,
                files_visits(new_files(old(self).files@, files@), 0, pool_counts(*old(self))).0,
            ),
            r is Ok ==> crate::link::fields_linked(
                final(self).messages@,
                files_visits(new_files(old(self).files@, files@), 0, pool_counts(*old(self))).0,
                final(self).files@,
            ),
            r is Ok ==> crate::link::extensions_at_index(
                final(self).extensions@,
                files_visits(new_files(old(self).files@, files@), 0, pool_counts(*old(self))).0,
                final(self).files@,
            ),
            simple_batch(*old(self), files@) ==> r is Ok,
            simple_defs(*old(self), files@) && !simple_batch(*old(self), files@) ==> (r matches Err(e)
                && crate::link::import_errors_from(e.kinds(), 0)),
    {
        let ghost p0 = (*self);
        let ghost d = new_files(p0.files@, files@);
        proof {
            crate::visit::lemma_files_counts(d, 0, pool_counts(p0));
            crate::visit::lemma_files_file_count(d, 0, pool_counts(p0));
        }
        let offsets = DescriptorPoolOffsets::new(self);
        let names_len = self.names.len();
        let old_len = self.files.len();
        let mut batch = files;
        let ghost b0 = batch@;
        let ghost pred = |f: FileDescriptorProto| file_named(p0.files@, opt_str(f.name)) is None;
        let ghost mut i: int = 0;
        proof {
            reveal(Seq::filter);
            assert(b0.skip(0) =~= b0);
            assert(raws_from(self.files@, old_len as int) =~= b0.take(0).filter(pred));
            assert(self.files@.take(old_len as int) =~= p0.files@);
        }
        while batch.len() > 0
            invariant
                0 <= i <= b0.len(),
                batch@ == b0.skip(i),
                forall|k: int| 0 <= k < b0.len() && is_new(p0, #[trigger] b0[k]) ==> known_syntax(b0[k]),
                old_len == p0.files@.len(),
                self.files@.len() >= old_len,
                self.files@.take(old_len as int) == p0.files@,
                raws_from(self.files@, old_len as int) == b0.take(i).filter(pred),
                pred == (|f: FileDescriptorProto| file_named(p0.files@, opt_str(f.name)) is None),
                self.names == p0.names,
                self.messages == p0.messages,
                self.enums == p0.enums,
                self.services == p0.services,
                self.extensions == p0.extensions,
                forall|k: int| 0 <= k < self.files@.len() ==> (#[trigger] self.files@[k]).syntax == (
                    if k < old_len { p0.files@[k].syntax } else { spec_syntax(self.files@[k].raw) }),
            decreases b0.len() - i,
        {
            let f = batch.remove(0);
            proof {
                assert(f == b0[i]);
                assert(batch@ =~= b0.skip(i + 1));
                crate::link::lemma_file_named(p0.files@, opt_str(f.name));
                reveal(Seq::filter);
                assert(b0.take(i + 1).drop_last() =~= b0.take(i));
                assert(b0.take(i + 1).last() == f);
            }
            let taken = crate::collect::has_file_named(&self.files, old_len, f.name());
            proof {
                if taken {
                    let j = choose|j: int| 0 <= j < old_len && #[trigger] opt_str(self.files@[j].raw.name) == opt_str(f.name);
                    assert(self.files@.take(old_len as int)[j] == self.files@[j]);
                } else {
                    assert forall|j: int| 0 <= j < p0.files@.len() implies opt_str(p0.files@[j].raw.name) != opt_str(f.name) by {
                        assert(self.files@.take(old_len as int)[j] == self.files@[j]);
                    }
                }
            }
            if !taken {
                let syntax = syntax_of(&f);
                let ghost before = self.files@;
                self.files.push(FileDescriptorInner {
                    syntax,
                    raw: f,
                    dependencies: Vec::new(),
                    transitive_dependencies: Vec::new(),
                });
                proof {
                    assert(self.files@.take(old_len as int) =~= before.take(old_len as int));
                    assert(raws_from(self.files@, old_len as int) =~= raws_from(before, old_len as int).push(b0[i]));
                }
            }
            proof {
                i = i + 1;
            }
        }
        proof {
            assert(b0.take(i) =~= b0);
            assert(raws_from(self.files@, old_len as int) == d);
            lemma_simple_files(p0, files@, self.files@);
        }
        if self.files.len() == old_len {
            proof {
                assert(crate::wf::sizes(*self) == pool_counts(p0));
                assert(self.names@.take(p0.names@.len() as int) =~= p0.names@);
                assert(d.len() == 0);
                assert(files_visits(d, 0, pool_counts(p0)).0 =~= Seq::<crate::visit::Visit>::empty());
                assert(self.files@ =~= p0.files@);
            }
            return Ok(());
        }
        let ghost cf = files_visits(d, 0, pool_counts(p0)).1;
        proof {
            assert(crate::wf::sizes(p0) == pool_counts(p0));
            crate::wf::lemma_tables_ok_grow(p0, pool_counts(p0), cf);
        }
        let (errors, collected) = collect_names(
            &mut self.names,
            &mut self.messages,
            &mut self.enums,
            &self.files,
            offsets,
        );
        proof {
            if !batch_enums_valid(p0, files@) {
                let vs = files_visits(d, 0, pool_counts(p0)).0;
                lemma_files_file_range(d, 0, pool_counts(p0));
                let j = choose|j: int| 0 <= j < vs.len() && !match (#[trigger] vs[j]).what {
                    crate::visit::Visited::Enum { enum_, .. } => !crate::collect::enum_invalid(
                        enum_,
                        spec_syntax(d[vs[j].file - p0.files@.len()]),
                    ),
                    _ => true,
                };
                let k = vs[j].file - p0.files@.len();
                assert(raws_from(self.files@, old_len as int)[k] == self.files@[vs[j].file].raw);
                assert(!crate::collect::no_invalid_enum(vs, self.files@));
                assert(crate::collect::has_enum_error(errors@));
            }
        }
        if errors.len() > 0 {
            let ghost before = (*self);
            offsets.rollback(self, names_len);
            proof {
                assert(self.files@ =~= p0.files@);
                assert(self.names@ =~= p0.names@);
                assert(self.enums@ =~= p0.enums@);
                assert(self.services@ =~= p0.services@);
                assert(self.extensions@ =~= p0.extensions@);
                assert forall|j: int| 0 <= j < p0.messages@.len() implies {
                    let m0 = #[trigger] p0.messages@[j];
                    let m1 = self.messages@[j];
                    &&& m1.id == m0.id
                    &&& m1.parent == m0.parent
                    &&& m1.fields == m0.fields
                    &&& m1.field_numbers == m0.field_numbers
                    &&& m1.oneofs == m0.oneofs
                    &&& exists|added: Seq<u32>|
                        (forall|k: int| 0 <= k < added.len() ==> added[k] >= p0.extensions@.len())
                        && m1.extensions@ == (m0.extensions@ + added).filter(|e: u32| e < p0.messages@.len())
                } by {
                    assert(before.messages@.take(p0.messages@.len() as int)[j] == before.messages@[j]);
                    let added = Seq::<u32>::empty();
                    assert(p0.messages@[j].extensions@ + added =~= p0.messages@[j].extensions@);
                }
            }
            return Err(DescriptorError::new(errors));
        }
        let ghost after_collect = (*self);
        proof {
            let vs = files_visits(d, 0, pool_counts(p0)).0;
            lemma_files_file_range(d, 0, pool_counts(p0));
            assert forall|j: int| 0 <= j < vs.len() implies match (#[trigger] vs[j]).what {
                crate::visit::Visited::Enum { enum_, .. } => !crate::collect::enum_invalid(
                    enum_,
                    spec_syntax(d[vs[j].file - p0.files@.len()]),
                ),
                _ => true,
            } by {
                let k = vs[j].file - p0.files@.len();
                assert(raws_from(self.files@, old_len as int)[k] == self.files@[vs[j].file].raw);
            }
            assert(batch_enums_valid(p0, files@));
            assert(collected.counts() == cf);
            assert(self.files@.len() == cf.file);
            assert forall|i: int| 0 <= i < self.names@.len() implies crate::collect::kind_below(#[trigger] self.names@[i].def.kind, cf)
                && self.names@[i].def.file < cf.file by {
                if i < p0.names@.len() {
                    assert(self.names@.take(p0.names@.len() as int)[i] == self.names@[i]);
                    assert(crate::collect::kind_below(p0.names@[i].def.kind, cf));
                }
            }
            assert forall|j: int| 0 <= j < self.messages@.len() implies crate::wf::message_ok(#[trigger] self.messages@[j], cf) by {
                if j < p0.messages@.len() {
                    assert(self.messages@.take(p0.messages@.len() as int)[j] == self.messages@[j]);
                    assert(crate::wf::message_ok(p0.messages@[j], cf));
                }
            }
            assert forall|j: int| 0 <= j < self.enums@.len() implies crate::wf::enum_ok(#[trigger] self.enums@[j], cf) by {
                if j < p0.enums@.len() {
                    assert(self.enums@.take(p0.enums@.len() as int)[j] == self.enums@[j]);
                    assert(crate::wf::enum_ok(p0.enums@[j], cf));
                }
            }
            assert(crate::link::link_state_ok(self.names@, self.messages@, self.enums@, self.services@, self.extensions@, cf));
            assert forall|j: int| 0 <= j < self.messages@.len() implies crate::link::numbers_sorted(
                #[trigger] self.messages@[j].field_numbers@,
            ) by {
                if j < p0.messages@.len() {
                    assert(self.messages@.take(p0.messages@.len() as int)[j] == self.messages@[j]);
                }
            }
            assert forall|j: int| 0 <= j < self.messages@.len() implies crate::link::numbers_name_fields(
                #[trigger] self.messages@[j],
            ) by {
                if j < p0.messages@.len() {
                    assert(self.messages@.take(p0.messages@.len() as int)[j] == self.messages@[j]);
                }
            }
            assert forall|j: int| 0 <= j < self.enums@.len() implies crate::link::values_sorted(
                #[trigger] self.enums@[j].value_numbers@,
            ) by {
                if j < p0.enums@.len() {
                    assert(self.enums@.take(p0.enums@.len() as int)[j] == self.enums@[j]);
                }
            }
            assert forall|j: int| 0 <= j < self.enums@.len() implies crate::link::numbers_name_values(
                #[trigger] self.enums@[j],
            ) by {
                if j < p0.enums@.len() {
                    assert(self.enums@.take(p0.enums@.len() as int)[j] == self.enums@[j]);
                }
            }
        }
        let (errors, linked) = link_names(
            &self.names,
            &mut self.files,
            &mut self.messages,
            &mut self.enums,
            &mut self.services,
            &mut self.extensions,
            offsets,
        );
        if errors.len() > 0 {
            let ghost before = (*self);
            offsets.rollback(self, names_len);
            proof {
                assert forall|k: int| 0 <= k < old_len implies before.files@[k] == p0.files@[k] by {
                    assert(after_collect.files@.take(old_len as int)[k] == after_collect.files@[k]);
                }
                assert(self.files@ =~= p0.files@);
                assert(self.names@ =~= p0.names@);
                assert forall|k: int| 0 <= k < p0.enums@.len() implies before.enums@[k] == p0.enums@[k] by {
                    assert(after_collect.enums@.take(p0.enums@.len() as int)[k] == after_collect.enums@[k]);
                }
                assert(self.enums@ =~= p0.enums@);
                assert(self.services@ =~= p0.services@);
                assert(self.extensions@ =~= before.extensions@.take(p0.extensions@.len() as int));
                assert(self.extensions@ =~= p0.extensions@);
                assert forall|j: int| 0 <= j < p0.messages@.len() implies {
                    let m0 = #[trigger] p0.messages@[j];
                    let m1 = self.messages@[j];
                    &&& m1.id == m0.id
                    &&& m1.parent == m0.parent
                    &&& m1.fields == m0.fields
                    &&& m1.field_numbers == m0.field_numbers
                    &&& m1.oneofs == m0.oneofs
                    &&& exists|added: Seq<u32>|
                        (forall|k: int| 0 <= k < added.len() ==> added[k] >= p0.extensions@.len())
                        && m1.extensions@ == (m0.extensions@ + added).filter(|e: u32| e < p0.messages@.len())
                } by {
                    assert(after_collect.messages@.take(p0.messages@.len() as int)[j] == after_collect.messages@[j]);
                    let a = p0.messages@[j].extensions@;
                    let b = before.messages@[j].extensions@;
                    let added = b.skip(a.len() as int);
                    assert(b =~= a + added);
                    assert forall|k: int| 0 <= k < added.len() implies added[k] >= p0.extensions@.len() by {
                        assert(added[k] == b[a.len() + k]);
                    }
                }
            }
            return Err(DescriptorError::new(errors));
        }
        proof {
            assert forall|k: int| 0 <= k < old_len implies self.files@[k] == p0.files@[k] by {
                assert(after_collect.files@.take(old_len as int)[k] == after_collect.files@[k]);
            }
            assert(self.files@.take(old_len as int) =~= p0.files@);
            assert(raws_from(self.files@, old_len as int) =~= raws_from(after_collect.files@, old_len as int));
            assert(linked.counts() == cf);
            let vs = files_visits(d, 0, pool_counts(p0)).0;
            assert forall|j: int| 0 <= j < vs.len() && (#[trigger] vs[j]).what is Message implies 0 <= vs[j].index
                < self.messages@.len() && self.messages@[vs[j].index].id.full_name@ == vs[j].full_name
                && self.messages@[vs[j].index].id.file == vs[j].file && self.messages@[vs[j].index].id.path@ == vs[j].path by {
                assert(crate::collect::message_of_visit(after_collect.messages@[vs[j].index], vs[j]));
            }
            assert forall|j: int| 0 <= j < vs.len() && (#[trigger] vs[j]).what is Enum implies 0 <= vs[j].index
                < self.enums@.len() && self.enums@[vs[j].index].id.full_name@ == vs[j].full_name
                && self.enums@[vs[j].index].id.file == vs[j].file && self.enums@[vs[j].index].id.path@ == vs[j].path
                && enum_contents(self.enums@[vs[j].index], vs[j]) by {
                assert(crate::collect::enum_of_visit(after_collect.enums@[vs[j].index], vs[j]));
                assert(crate::link::enum_kept(after_collect.enums@[vs[j].index], self.enums@[vs[j].index]));
            }
            assert(self.names@ == after_collect.names@);
            assert(crate::wf::sizes((*self)) == cf);
            assert forall|j: int| 0 <= j < self.files@.len() implies crate::wf::file_ok(#[trigger] self.files@[j], cf) by {
                if j < old_len {
                    assert(crate::wf::file_ok(p0.files@[j], cf));
                }
            }
        }
        Ok(())
    }
}

} // verus!

verus! {

/// Whether every element of `v` is below `bound`.
fn all_below(v: &Vec<u32>, bound: usize) -> (r: bool)
    ensures
        r == (forall|k: int| 0 <= k < v@.len() ==> v@[k] < bound),
{
    let mut i: usize = 0;
    while i < v.len()
        invariant
            i <= v@.len(),
            forall|k: int| 0 <= k < i ==> v@[k] < bound,
        decreases v@.len() - i,
    {
        if v[i] as usize >= bound {
            return false;
        }
        i += 1;
    }
    true
}

/// Drops from the extension lists of the messages every index that names no
/// extension of the pool; a valid pool is left as it is.
fn drop_stale_extensions(pool: &mut DescriptorPoolInner)
    requires
        crate::wf::pool_usable(*old(pool)),
        pool_wf(*old(pool)),
    ensures
        crate::wf::pool_valid(*final(pool)),
        pool_wf(*final(pool)),
        final(pool).names@ == old(pool).names@,
        final(pool).files@ == old(pool).files@,
        final(pool).enums@ == old(pool).enums@,
        final(pool).extensions@ == old(pool).extensions@,
        final(pool).services@ == old(pool).services@,
        final(pool).messages@.len() == old(pool).messages@.len(),
        crate::wf::pool_valid(*old(pool)) ==> final(pool).messages@ == old(pool).messages@,
        stale_dropped(*old(pool), *final(pool)),
{
    let n = pool.extensions.len();
    let ghost p0 = *pool;
    let ghost c = crate::wf::sizes(p0);
    let mut j: usize = 0;
    while j < pool.messages.len()
        invariant
            j <= pool.messages@.len(),
            n == p0.extensions@.len(),
            c == crate::wf::sizes(p0),
            pool.messages@.len() == p0.messages@.len(),
            pool.names == p0.names && pool.files == p0.files && pool.enums == p0.enums,
            pool.extensions == p0.extensions && pool.services == p0.services,
            forall|k: int| j <= k < pool.messages@.len() ==> #[trigger] pool.messages@[k] == p0.messages@[k],
            forall|k: int| 0 <= k < j ==> {
                let m0 = #[trigger] p0.messages@[k];
                let m1 = pool.messages@[k];
                &&& m1.id == m0.id && m1.parent == m0.parent && m1.fields == m0.fields
                &&& m1.field_numbers == m0.field_numbers && m1.oneofs == m0.oneofs
                &&& m1.extensions@ == m0.extensions@.filter(below(n as int))
                &&& forall|e: int| 0 <= e < m1.extensions@.len() ==> m1.extensions@[e] < n
                &&& (forall|e: int| 0 <= e < m0.extensions@.len() ==> m0.extensions@[e] < n) ==> m1 == m0
            },
        decreases pool.messages@.len() - j,
    {
        if !all_below(&pool.messages[j].extensions, n) {
            proof {
                let v = pool.messages@[j as int].extensions@;
                let k = choose|k: int| 0 <= k < v.len() && !(v[k] < n);
                assert(n <= v[k] <= u32::MAX);
            }
            retain_below(&mut pool.messages[j].extensions, n as u32);
            proof {
                let ex = pool.messages@[j as int].extensions@;
                let s0 = p0.messages@[j as int].extensions@;
                let pred = |x: u32| x < n as u32;
                s0.filter_lemma(pred);
                assert forall|e: int| 0 <= e < ex.len() implies ex[e] < n by {
                    assert(pred(s0.filter(pred)[e]));
                }
                assert(pred =~= below(n as int));
            }
        } else {
            proof {
                lemma_filter_keeps_all(pool.messages@[j as int].extensions@, below(n as int));
            }
        }
        j += 1;
    }
    proof {
        assert forall|k: int| 0 <= k < pool.messages@.len() implies crate::wf::message_ok(#[trigger] pool.messages@[k], c) by {
            assert(crate::wf::message_shape_ok(p0.messages@[k], c));
        }
        if crate::wf::pool_valid(p0) {
            assert forall|k: int| 0 <= k < pool.messages@.len() implies #[trigger] pool.messages@[k] == p0.messages@[k] by {
                assert(crate::wf::message_ok(p0.messages@[k], c));
            }
            assert(pool.messages@ =~= p0.messages@);
        }
        assert(crate::wf::sizes(*pool) == c);
        assert forall|k: int| 0 <= k < pool.messages@.len() implies crate::link::numbers_sorted(
            #[trigger] pool.messages@[k].field_numbers@,
        ) by {
            assert(crate::link::numbers_sorted(p0.messages@[k].field_numbers@));
        }
        assert forall|k: int| 0 <= k < pool.messages@.len() implies crate::link::numbers_name_fields(
            #[trigger] pool.messages@[k],
        ) by {
            assert(crate::link::numbers_name_fields(p0.messages@[k]));
        }
    }
}

} // verus!

verus! {

/// A pool taken back after a failed add stays usable and consistent.
pub proof fn lemma_rolled_back_usable(old: DescriptorPoolInner, new: DescriptorPoolInner)
    requires
        crate::wf::pool_usable(old),
        pool_wf(old),
        rolled_back(old, new),
    ensures
        crate::wf::pool_usable(new),
        pool_wf(new),
{
    let c = crate::wf::sizes(old);
    assert(crate::wf::sizes(new) == c);
    assert forall|j: int| 0 <= j < new.messages@.len() implies crate::wf::message_shape_ok(#[trigger] new.messages@[j], c) by {
        assert(crate::wf::message_shape_ok(old.messages@[j], c));
    }
    assert forall|j: int| 0 <= j < new.messages@.len() implies crate::link::numbers_sorted(
        #[trigger] new.messages@[j].field_numbers@,
    ) by {
        assert(crate::link::numbers_sorted(old.messages@[j].field_numbers@));
    }
    assert forall|j: int| 0 <= j < new.messages@.len() implies crate::link::numbers_name_fields(
        #[trigger] new.messages@[j],
    ) by {
        assert(crate::link::numbers_name_fields(old.messages@[j]));
    }
}

impl View for DescriptorPool {
    type V = DescriptorPoolInner;

    /// What the pool holds.
    closed spec fn view(&self) -> DescriptorPoolInner {
        self.inner
    }
}

impl DescriptorPool {
    /// A pool is consistent, and every index it stores but those left over
    /// in extension lists by a failed add refers to something it holds.
    #[verifier::type_invariant]
    spec fn consistent(self) -> bool {
        &&& pool_wf(self.inner)
        &&& crate::wf::pool_usable(self.inner)
        &&& counts_fit(crate::wf::sizes(self.inner))
    }

    /// A new, empty pool.
    pub fn new() -> (r: DescriptorPool)
        ensures
            pool_wf(r@),
            crate::wf::pool_valid(r@),
            r@.files@.len() == 0,
            r@.names@.len() == 0,
            r@.messages@.len() == 0,
            r@.enums@.len() == 0,
            r@.services@.len() == 0,
            r@.extensions@.len() == 0,
    {
        DescriptorPool { inner: DescriptorPoolInner::empty() }
    }

    /// What the pool holds, read-only.
    pub fn inner(&self) -> (r: &DescriptorPoolInner)
        ensures
            *r == self@,
            pool_wf(self@),
            crate::wf::pool_usable(self@),
            counts_fit(crate::wf::sizes(self@)),
    {
        proof {
            use_type_invariant(self);
        }
        &self.inner
    }

    /// Adds a batch of files. Files whose name is already in the pool are
    /// skipped. When the files are invalid, the errors found are returned and
    /// the pool is taken back to what it was; otherwise every name the new
    /// files define is registered for its definition. Extension indices that
    /// an earlier failed add left in the messages' lists, and that name no
    /// extension of the pool, are dropped first.
    pub fn build_files(&mut self, files: Vec<FileDescriptorProto>) -> (r: Result<(), DescriptorError>)
        requires
            batch_fits(old(self)@, files@),
        ensures
            r is Ok ==> crate::wf::pool_valid(final(self)@),
            r matches Err(e) ==> e.kinds().len() > 0,
            !new_syntax_known(old(self)@, files@) ==> final(self)@ == old(self)@ && (r matches Err(e) && forall|j: int|
                0 <= j < e.kinds().len() ==> reports_unknown_syntax(old(self)@, files@, #[trigger] e.kinds()[j])),
            crate::wf::pool_valid(old(self)@) && new_syntax_known(old(self)@, files@) && r is Err ==> rolled_back(
                old(self)@,
                final(self)@,
            ),
            crate::wf::pool_valid(old(self)@) && r is Ok ==> added(old(self)@, final(self)@, files@),
            crate::wf::pool_valid(old(self)@) && new_files(old(self)@.files@, files@).len() == 0 ==> r is Ok
                && same_contents(old(self)@, final(self)@),
            !batch_enums_valid(old(self)@, files@) ==> r is Err,
            new_syntax_known(old(self)@, files@) && !batch_enums_valid(old(self)@, files@) ==> (r matches Err(e)
                && crate::collect::has_enum_error(e.kinds())),
            new_syntax_known(old(self)@, files@) && crate::collect::later_clash(
                files_visits(new_files(old(self)@.files@, files@), 0, pool_counts(old(self)@)).0,
            ) ==> (r matches Err(e) && crate::collect::has_duplicate_name(e.kinds())),
            new_syntax_known(old(self)@, files@) && simple_batch(old(self)@, files@) ==> r is Ok,
            new_syntax_known(old(self)@, files@) && simple_defs(old(self)@, files@) && !simple_batch(old(self)@, files@) ==> (r matches Err(e)
                && crate::link::import_errors_from(e.kinds(), 0)),
            new_syntax_known(old(self)@, files@) ==> exists|mid: DescriptorPoolInner| #[trigger] stale_dropped(old(self)@, mid) && {
                &&& r is Err ==> rolled_back(mid, final(self)@)
                &&& r is Ok ==> added(mid, final(self)@, files@)
            },
    {
        proof {
            use_type_invariant(&*self);
        }
        proof {
            lemma_no_new_known(self@, files@);
        }
        let syntax_errors = unknown_syntax_errors(&self.inner, &files);
        if syntax_errors.len() > 0 {
            return Err(DescriptorError::new(syntax_errors));
        }
        let mut inner = DescriptorPoolInner::empty();
        std::mem::swap(&mut inner, &mut self.inner);
        let ghost p0 = inner;
        drop_stale_extensions(&mut inner);
        let ghost p1 = inner;
        proof {
            assert(pool_counts(p1) == pool_counts(p0));
            assert(new_files(p1.files@, files@) == new_files(p0.files@, files@));
            assert(batch_enums_valid(p1, files@) == batch_enums_valid(p0, files@));
            assert(simple_batch(p1, files@) == simple_batch(p0, files@));
            assert(simple_defs(p1, files@) == simple_defs(p0, files@));
        }
        let r = inner.build_files(files);
        proof {
            crate::visit::lemma_files_counts(new_files(p1.files@, files@), 0, pool_counts(p1));
            if r is Ok {
                crate::wf::lemma_valid_usable(inner);
            } else {
                crate::wf::lemma_valid_usable(p1);
                lemma_rolled_back_usable(p1, inner);
            }
        }
        self.inner = inner;
        r
    }
}

} // verus!

verus! {

/// Whether a pool holds nothing.
pub open spec fn holds_nothing(p: DescriptorPoolInner) -> bool {
    &&& p.files@.len() == 0
    &&& p.names@.len() == 0
    &&& p.messages@.len() == 0
    &&& p.enums@.len() == 0
    &&& p.extensions@.len() == 0
    &&& p.services@.len() == 0
}

/// A pool that holds nothing.
pub open spec fn nothing() -> DescriptorPoolInner {
    choose|p: DescriptorPoolInner| holds_nothing(p)
}

/// The counters of an empty pool.
pub open spec fn no_counts() -> Counts {
    Counts { file: 0, message: 0, enum_: 0, service: 0, extension: 0 }
}

/// Whether a batch can make a new pool without overflowing its indices.
pub open spec fn batch_fits_new(batch: Seq<FileDescriptorProto>) -> bool {
    let d = new_files(Seq::<FileDescriptorInner>::empty(), batch);
    &&& files_fit(d)
    &&& counts_fit(files_visits(d, 0, no_counts()).1)
}

/// What building a new pool from the files `batch` promises of the result:
/// a valid pool holding the new files, each message, enum and service at its
/// index, and every name registered for its definition; or an error.
pub open spec fn set_pool_result(batch: Seq<FileDescriptorProto>, r: Result<DescriptorPool, DescriptorError>) -> bool {
    let e = nothing();
    &&& !new_syntax_known(e, batch) ==> match r {
        Err(err) => forall|j: int| 0 <= j < err.kinds().len() ==> reports_unknown_syntax(e, batch, #[trigger] err.kinds()[j]),
        Ok(_) => false,
    }
    &&& new_syntax_known(e, batch) && !batch_enums_valid(e, batch) ==> match r {
        Err(err) => crate::collect::has_enum_error(err.kinds()),
        Ok(_) => false,
    }
    &&& new_syntax_known(e, batch) && crate::collect::later_clash(files_visits(new_files(e.files@, batch), 0, no_counts()).0)
        ==> match r {
        Err(err) => crate::collect::has_duplicate_name(err.kinds()),
        Ok(_) => false,
    }
    &&& new_syntax_known(e, batch) && simple_batch(e, batch) ==> r is Ok
    &&& new_syntax_known(e, batch) && simple_defs(e, batch) && !simple_batch(e, batch) ==> match r {
        Err(err) => crate::link::import_errors_from(err.kinds(), 0),
        Ok(_) => false,
    }
    &&& match r {
        Ok(p) => crate::wf::pool_valid(p@) && p@.files@.len() == new_files(Seq::<FileDescriptorInner>::empty(), batch).len()
            && {
            let visits = files_visits(new_files(Seq::<FileDescriptorInner>::empty(), batch), 0, no_counts()).0;
            &&& raws_from(p@.files@, 0) == new_files(Seq::<FileDescriptorInner>::empty(), batch)
            &&& identities_at_index(p@.messages@, p@.enums@, visits)
            &&& crate::link::services_at_index(p@.services@, visits)
            &&& crate::link::fields_linked(p@.messages@, visits, p@.files@)
            &&& crate::link::extensions_at_index(p@.extensions@, visits, p@.files@)
            &&& crate::collect::all_registered(p@.names@, visits, true)
        },
        Err(e) => e.kinds().len() > 0,
    }
}

impl DescriptorPool {
    /// A pool holding the files of a set.
    pub fn from_file_descriptor_set(file_descriptor_set: FileDescriptorSet) -> (r: Result<DescriptorPool, DescriptorError>)
        requires
            batch_fits_new(file_descriptor_set.file@),
        ensures
            set_pool_result(file_descriptor_set.file@, r),
    {
        let mut pool = DescriptorPool::new();
        proof {
            assert(pool@.files@ =~= Seq::<FileDescriptorInner>::empty());
            assert(pool_counts(pool@) == no_counts());
        }
        let ghost p0 = pool@;
        proof {
            assert(holds_nothing(p0));
            let e = nothing();
            assert(holds_nothing(e));
            assert(e.files@ =~= p0.files@);
            assert(e.names@ =~= p0.names@);
            assert(pool_counts(e) == pool_counts(p0));
            assert(pool_counts(p0) == no_counts());
        }
        match pool.add_file_descriptor_set(file_descriptor_set) {
            Ok(()) => {
                proof {
                    assert(pool@.files@.take(0) =~= Seq::<FileDescriptorInner>::empty());
                }
                Ok(pool)
            },
            Err(e) => Err(e),
        }
    }

    /// Adds the files of a set; see `add_file_descriptor_protos`.
    pub fn add_file_descriptor_set(&mut self, file_descriptor_set: FileDescriptorSet) -> (r: Result<(), DescriptorError>)
        requires
            batch_fits(old(self)@, file_descriptor_set.file@),
        ensures
            r is Ok ==> crate::wf::pool_valid(final(self)@),
            r matches Err(e) ==> e.kinds().len() > 0,
            !new_syntax_known(old(self)@, file_descriptor_set.file@) ==> final(self)@ == old(self)@ && (r matches Err(e) && forall|j: int|
                0 <= j < e.kinds().len() ==> reports_unknown_syntax(old(self)@, file_descriptor_set.file@, #[trigger] e.kinds()[j])),
            crate::wf::pool_valid(old(self)@) && new_syntax_known(old(self)@, file_descriptor_set.file@) && r is Err ==> rolled_back(
                old(self)@,
                final(self)@,
            ),
            crate::wf::pool_valid(old(self)@) && r is Ok ==> added(old(self)@, final(self)@, file_descriptor_set.file@),
            crate::wf::pool_valid(old(self)@) && new_files(old(self)@.files@, file_descriptor_set.file@).len() == 0 ==> r is Ok
                && same_contents(old(self)@, final(self)@),
            !batch_enums_valid(old(self)@, file_descriptor_set.file@) ==> r is Err,
            new_syntax_known(old(self)@, file_descriptor_set.file@) && !batch_enums_valid(old(self)@, file_descriptor_set.file@) ==> (r matches Err(e)
                && crate::collect::has_enum_error(e.kinds())),
            new_syntax_known(old(self)@, file_descriptor_set.file@) && crate::collect::later_clash(
                files_visits(new_files(old(self)@.files@, file_descriptor_set.file@), 0, pool_counts(old(self)@)).0,
            ) ==> (r matches Err(e) && crate::collect::has_duplicate_name(e.kinds())),
            new_syntax_known(old(self)@, file_descriptor_set.file@) && simple_batch(old(self)@, file_descriptor_set.file@) ==> r is Ok,
            new_syntax_known(old(self)@, file_descriptor_set.file@) && simple_defs(old(self)@, file_descriptor_set.file@) && !simple_batch(old(self)@, file_descriptor_set.file@) ==> (r matches Err(e)
                && crate::link::import_errors_from(e.kinds(), 0)),
            new_syntax_known(old(self)@, file_descriptor_set.file@) ==> exists|mid: DescriptorPoolInner| #[trigger] stale_dropped(old(self)@, mid) && {
                &&& r is Err ==> rolled_back(mid, final(self)@)
                &&& r is Ok ==> added(mid, final(self)@, file_descriptor_set.file@)
            },
    {
        self.add_file_descriptor_protos(file_descriptor_set.file)
    }

    /// Adds a collection of files, in any order: every type they refer to
    /// must be defined in one of them or in a file already in the pool.
    /// Files whose name is already in the pool are skipped. On error the pool
    /// is taken back to what it held.
    pub fn add_file_descriptor_protos(&mut self, files: Vec<FileDescriptorProto>) -> (r: Result<(), DescriptorError>)
        requires
            batch_fits(old(self)@, files@),
        ensures
            r is Ok ==> crate::wf::pool_valid(final(self)@),
            r matches Err(e) ==> e.kinds().len() > 0,
            !new_syntax_known(old(self)@, files@) ==> final(self)@ == old(self)@ && (r matches Err(e) && forall|j: int|
                0 <= j < e.kinds().len() ==> reports_unknown_syntax(old(self)@, files@, #[trigger] e.kinds()[j])),
            crate::wf::pool_valid(old(self)@) && new_syntax_known(old(self)@, files@) && r is Err ==> rolled_back(
                old(self)@,
                final(self)@,
            ),
            crate::wf::pool_valid(old(self)@) && r is Ok ==> added(old(self)@, final(self)@, files@),
            crate::wf::pool_valid(old(self)@) && new_files(old(self)@.files@, files@).len() == 0 ==> r is Ok
                && same_contents(old(self)@, final(self)@),
            !batch_enums_valid(old(self)@, files@) ==> r is Err,
            new_syntax_known(old(self)@, files@) && !batch_enums_valid(old(self)@, files@) ==> (r matches Err(e)
                && crate::collect::has_enum_error(e.kinds())),
            new_syntax_known(old(self)@, files@) && crate::collect::later_clash(
                files_visits(new_files(old(self)@.files@, files@), 0, pool_counts(old(self)@)).0,
            ) ==> (r matches Err(e) && crate::collect::has_duplicate_name(e.kinds())),
            new_syntax_known(old(self)@, files@) && simple_batch(old(self)@, files@) ==> r is Ok,
            new_syntax_known(old(self)@, files@) && simple_defs(old(self)@, files@) && !simple_batch(old(self)@, files@) ==> (r matches Err(e)
                && crate::link::import_errors_from(e.kinds(), 0)),
            new_syntax_known(old(self)@, files@) ==> exists|mid: DescriptorPoolInner| #[trigger] stale_dropped(old(self)@, mid) && {
                &&& r is Err ==> rolled_back(mid, final(self)@)
                &&& r is Ok ==> added(mid, final(self)@, files@)
            },
    {
        self.build_files(files)
    }

    /// Adds a single file: every type it refers to must be defined in it or
    /// in a file already in the pool. A file whose name is already in the
    /// pool is skipped.
    pub fn add_file_descriptor_proto(&mut self, file: FileDescriptorProto) -> (r: Result<(), DescriptorError>)
        requires
            batch_fits(old(self)@, seq![file]),
        ensures
            r is Ok ==> crate::wf::pool_valid(final(self)@),
            r matches Err(e) ==> e.kinds().len() > 0,
            !new_syntax_known(old(self)@, seq![file]) ==> final(self)@ == old(self)@ && (r matches Err(e) && forall|j: int|
                0 <= j < e.kinds().len() ==> reports_unknown_syntax(old(self)@, seq![file], #[trigger] e.kinds()[j])),
            crate::wf::pool_valid(old(self)@) && new_syntax_known(old(self)@, seq![file]) && r is Err ==> rolled_back(
                old(self)@,
                final(self)@,
            ),
            crate::wf::pool_valid(old(self)@) && r is Ok ==> added(old(self)@, final(self)@, seq![file]),
            crate::wf::pool_valid(old(self)@) && new_files(old(self)@.files@, seq![file]).len() == 0 ==> r is Ok
                && same_contents(old(self)@, final(self)@),
            !batch_enums_valid(old(self)@, seq![file]) ==> r is Err,
            new_syntax_known(old(self)@, seq![file]) && !batch_enums_valid(old(self)@, seq![file]) ==> (r matches Err(e)
                && crate::collect::has_enum_error(e.kinds())),
            new_syntax_known(old(self)@, seq![file]) && crate::collect::later_clash(
                files_visits(new_files(old(self)@.files@, seq![file]), 0, pool_counts(old(self)@)).0,
            ) ==> (r matches Err(e) && crate::collect::has_duplicate_name(e.kinds())),
            new_syntax_known(old(self)@, seq![file]) && simple_batch(old(self)@, seq![file]) ==> r is Ok,
            new_syntax_known(old(self)@, seq![file]) && simple_defs(old(self)@, seq![file]) && !simple_batch(old(self)@, seq![file]) ==> (r matches Err(e)
                && crate::link::import_errors_from(e.kinds(), 0)),
            new_syntax_known(old(self)@, seq![file]) ==> exists|mid: DescriptorPoolInner| #[trigger] stale_dropped(old(self)@, mid) && {
                &&& r is Err ==> rolled_back(mid, final(self)@)
                &&& r is Ok ==> added(mid, final(self)@, seq![file])
            },
    {
        let mut files: Vec<FileDescriptorProto> = Vec::new();
        files.push(file);
        proof {
            assert(files@ =~= seq![file]);
        }
        self.build_files(files)
    }
}

} // verus!

verus! {

/// Two different definitions of a batch under one full name, unless both are
/// packages, make adding the batch fail: no successful add defines them.
pub proof fn lemma_clashing_names_not_added(
    old: DescriptorPoolInner,
    new: DescriptorPoolInner,
    batch: Seq<FileDescriptorProto>,
    j1: int,
    t1: int,
    j2: int,
    t2: int,
)
    requires
        0 <= j1 < files_visits(new_files(old.files@, batch), 0, pool_counts(old)).0.len(),
        0 <= j2 < files_visits(new_files(old.files@, batch), 0, pool_counts(old)).0.len(),
        0 <= t1 < crate::collect::defs_of(files_visits(new_files(old.files@, batch), 0, pool_counts(old)).0[j1]).len(),
        0 <= t2 < crate::collect::defs_of(files_visits(new_files(old.files@, batch), 0, pool_counts(old)).0[j2]).len(),
        ({
            let vs = files_visits(new_files(old.files@, batch), 0, pool_counts(old)).0;
            let d1 = crate::collect::defs_of(vs[j1])[t1];
            let d2 = crate::collect::defs_of(vs[j2])[t2];
            &&& d1.name == d2.name
            &&& d1 != d2
            &&& !(d1.kind == crate::definition::DefinitionKind::Package && d2.kind
                == crate::definition::DefinitionKind::Package)
        }),
    ensures
        !added(old, new, batch),
{
    let vs = files_visits(new_files(old.files@, batch), 0, pool_counts(old)).0;
    let d1 = crate::collect::defs_of(vs[j1])[t1];
    let d2 = crate::collect::defs_of(vs[j2])[t2];
    if added(old, new, batch) {
        assert(crate::collect::registered(new.names@, d1, true));
        assert(crate::collect::registered(new.names@, d2, true));
        let k = crate::definition::lookup(new.names@, d1.name)->0;
        let e = new.names@[k];
        if crate::collect::entry_is(e, d1) && crate::collect::entry_is(e, d2) {
            assert(d1 == d2);
        }
    }
}

} // verus!
