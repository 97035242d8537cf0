//! Whether a batch of files can be added to a pool without overflowing the
//! indices of its tables.
use vstd::prelude::*;
use crate::types::{DescriptorProto, FileDescriptorProto};
use crate::visit::{
    add_enums, add_extensions, add_message, add_services, counts_fit, enum_values_fit, files_fit, file_fits,
    file_visits, files_visits, message_fits, message_visits, messages_fit, messages_visits, service_methods_fit,
    Counts,
};

verus! {

/// The counters after a message and everything nested in it.
pub open spec fn message_count(m: DescriptorProto, c: Counts) -> Counts
    decreases m, 0int,
{
    let c1 = messages_count(m.nested_type@, 0, add_message(c));
    add_extensions(add_enums(c1, m.enum_type@.len() as int), m.extension@.len() as int)
}

/// The counters after the messages from index `i` on.
pub open spec fn messages_count(ms: Seq<DescriptorProto>, i: int, c: Counts) -> Counts
    decreases ms, ms.len() - i,
{
    if i < 0 || i >= ms.len() {
        c
    } else {
        messages_count(ms, i + 1, message_count(ms[i], c))
    }
}

/// The counters after a file.
pub open spec fn file_count(f: FileDescriptorProto, c: Counts) -> Counts {
    let c1 = messages_count(f.message_type@, 0, Counts { file: c.file + 1, ..c });
    add_extensions(
        add_services(add_enums(c1, f.enum_type@.len() as int), f.service@.len() as int),
        f.extension@.len() as int,
    )
}

/// The counters after the files from index `i` on.
pub open spec fn files_count(fs: Seq<FileDescriptorProto>, i: int, c: Counts) -> Counts
    decreases fs.len() - i,
{
    if i < 0 || i >= fs.len() {
        c
    } else {
        files_count(fs, i + 1, file_count(fs[i], c))
    }
}

/// Where a message is and what it is named does not change how far its
/// visits move the counters.
pub proof fn lemma_message_count(
    m: DescriptorProto,
    path: Seq<i32>,
    scope: Seq<char>,
    file: int,
    parent: Option<int>,
    c: Counts,
)
    ensures
        message_visits(m, path, scope, file, parent, c).1 == message_count(m, c),
        crate::visit::counts_grow(c, message_count(m, c)),
        message_count(m, c).message >= c.message + 1,
    decreases m, 0int,
{
    let full = crate::names::joined_name(scope, crate::text::opt_str(m.name));
    lemma_messages_count(
        m.nested_type@,
        0,
        path.push(crate::tag::MESSAGE_NESTED_TYPE),
        full,
        file,
        Some(c.message),
        add_message(c),
    );
}

/// Where messages are and what they are named does not change how far their
/// visits move the counters.
pub proof fn lemma_messages_count(
    ms: Seq<DescriptorProto>,
    i: int,
    path: Seq<i32>,
    scope: Seq<char>,
    file: int,
    parent: Option<int>,
    c: Counts,
)
    ensures
        messages_visits(ms, i, path, scope, file, parent, c).1 == messages_count(ms, i, c),
        crate::visit::counts_grow(c, messages_count(ms, i, c)),
    decreases ms, ms.len() - i,
{
    if 0 <= i < ms.len() {
        lemma_message_count(ms[i], path.push(i as i32), scope, file, parent, c);
        lemma_messages_count(ms, i + 1, path, scope, file, parent, message_count(ms[i], c));
    }
}

/// How far a file's visits move the counters.
pub proof fn lemma_file_count(f: FileDescriptorProto, c: Counts)
    ensures
        file_visits(f, c).1 == file_count(f, c),
        crate::visit::counts_grow(c, file_count(f, c)),
{
    let scope = crate::text::opt_str(f.package);
    lemma_messages_count(f.message_type@, 0, seq![crate::tag::FILE_MESSAGE_TYPE], scope, c.file, None, Counts { file: c.file + 1, ..c });
}

/// How far the visits of files move the counters.
pub proof fn lemma_files_count(fs: Seq<FileDescriptorProto>, i: int, c: Counts)
    ensures
        files_visits(fs, i, c).1 == files_count(fs, i, c),
        crate::visit::counts_grow(c, files_count(fs, i, c)),
    decreases fs.len() - i,
{
    if 0 <= i < fs.len() {
        lemma_file_count(fs[i], c);
        lemma_files_count(fs, i + 1, file_count(fs[i], c));
    }
}

/// Counters held as machine integers while they are checked.
pub struct Tally {
    pub file: u64,
    pub message: u64,
    pub enum_: u64,
    pub service: u64,
    pub extension: u64,
}

impl Tally {
    /// The counters this tally holds.
    pub open spec fn view(&self) -> Counts {
        Counts {
            file: self.file as int,
            message: self.message as int,
            enum_: self.enum_ as int,
            service: self.service as int,
            extension: self.extension as int,
        }
    }
}

/// Whether each enum has at most `u32::MAX` values.
fn enum_values_ok(es: &Vec<crate::types::EnumDescriptorProto>) -> (r: bool)
    ensures
        r == enum_values_fit(es@),
{
    let mut i: usize = 0;
    while i < es.len()
        invariant
            i <= es@.len(),
            forall|k: int| 0 <= k < i ==> #[trigger] es@[k].value@.len() <= u32::MAX,
        decreases es@.len() - i,
    {
        if es[i].value.len() > 4294967295usize {
            proof {
                assert(!(es@[i as int].value@.len() <= u32::MAX));
            }
            return false;
        }
        i += 1;
    }
    true
}

/// Whether each service has at most `u32::MAX` methods.
fn service_methods_ok(ss: &Vec<crate::types::ServiceDescriptorProto>) -> (r: bool)
    ensures
        r == service_methods_fit(ss@),
{
    let mut i: usize = 0;
    while i < ss.len()
        invariant
            i <= ss@.len(),
            forall|k: int| 0 <= k < i ==> #[trigger] ss@[k].method@.len() <= u32::MAX,
        decreases ss@.len() - i,
    {
        if ss[i].method.len() > 4294967295usize {
            proof {
                assert(!(ss@[i as int].method@.len() <= u32::MAX));
            }
            return false;
        }
        i += 1;
    }
    true
}

/// Adds `n` to a counter of at most `u32::MAX`, when the sum stays at most
/// `u32::MAX`.
fn add_within(a: u64, n: usize) -> (r: Option<u64>)
    requires
        a <= u32::MAX,
    ensures
        match r {
            Some(s) => s == a + n && s <= u32::MAX,
            None => a + n > u32::MAX,
        },
{
    if n > 4294967295usize {
        return None;
    }
    let s = a + n as u64;
    if s > 4294967295u64 {
        None
    } else {
        Some(s)
    }
}

} // verus!

verus! {

/// `messages_fit` holds exactly when every message from index `i` on fits.
pub proof fn lemma_messages_fit_all(ms: Seq<DescriptorProto>, i: int)
    requires
        0 <= i <= ms.len(),
    ensures
        messages_fit(ms, i) <==> forall|k: int| i <= k < ms.len() ==> #[trigger] message_fits(ms[k]),
    decreases ms.len() - i,
{
    if i < ms.len() {
        lemma_messages_fit_all(ms, i + 1);
        assert(messages_fit(ms, i) == (message_fits(ms[i]) && messages_fit(ms, i + 1)));
        if forall|k: int| i <= k < ms.len() ==> #[trigger] message_fits(ms[k]) {
            assert(message_fits(ms[i]));
            assert forall|k: int| i + 1 <= k < ms.len() implies #[trigger] message_fits(ms[k]) by {}
        }
    }
}

/// Counting the messages from `i` on is counting up to `k`, then on.
pub proof fn lemma_messages_count_split(ms: Seq<DescriptorProto>, i: int, k: int, c: Counts)
    requires
        0 <= i <= k <= ms.len(),
    ensures
        messages_count(ms, i, c) == messages_count(ms, k, messages_count(ms.take(k), i, c)),
    decreases k - i,
{
    if i < k {
        assert(ms.take(k)[i] == ms[i]);
        lemma_messages_count_split(ms, i + 1, k, message_count(ms[i], c));
    }
}

/// Counting moves the counters forward.
pub proof fn lemma_messages_count_grows(ms: Seq<DescriptorProto>, i: int, c: Counts)
    ensures
        crate::visit::counts_grow(c, messages_count(ms, i, c)),
{
    lemma_messages_count(ms, i, Seq::empty(), Seq::empty(), 0, None, c);
}

/// Counters that do not fit still do not fit when they grow.
pub proof fn lemma_not_fit_grows(a: Counts, b: Counts)
    requires
        !counts_fit(a),
        crate::visit::counts_grow(a, b),
    ensures
        !counts_fit(b),
{
}

/// Moves the tally past a message and everything nested in it, when every
/// list in it is short enough and no counter passes `u32::MAX`.
fn tally_message(m: &DescriptorProto, t: &mut Tally) -> (ok: bool)
    requires
        counts_fit(old(t)@),
    ensures
        ok ==> message_fits(*m) && final(t)@ == message_count(*m, old(t)@) && counts_fit(final(t)@),
        !ok ==> !(message_fits(*m) && counts_fit(message_count(*m, old(t)@))),
    decreases m,
{
    let ghost c0 = t@;
    if m.oneof_decl.len() > 4294967295usize || m.field.len() > 4294967295usize {
        return false;
    }
    if !enum_values_ok(&m.enum_type) {
        return false;
    }
    proof {
        lemma_message_count(*m, Seq::empty(), Seq::empty(), 0, None, c0);
    }
    match add_within(t.message, 1) {
        Some(v) => {
            t.message = v;
        },
        None => {
            return false;
        },
    }
    let ghost ms = m.nested_type@;
    let ghost cn = messages_count(ms, 0, add_message(c0));
    proof {
        assert(t@ == add_message(c0));
        assert(ms.take(0) =~= Seq::<DescriptorProto>::empty());
        lemma_messages_count_grows(ms, 0, add_message(c0));
    }
    let mut i: usize = 0;
    while i < m.nested_type.len()
        invariant
            i <= ms.len(),
            ms == m.nested_type@,
            counts_fit(t@),
            c0 == old(t)@,
            cn == messages_count(ms, 0, add_message(c0)),
            cn == messages_count(ms, i as int, t@),
            crate::visit::counts_grow(t@, cn),
            forall|k: int| 0 <= k < i ==> #[trigger] message_fits(ms[k]),
            message_count(*m, c0) == add_extensions(add_enums(cn, m.enum_type@.len() as int), m.extension@.len() as int),
            m.oneof_decl@.len() <= u32::MAX,
            m.field@.len() <= u32::MAX,
            enum_values_fit(m.enum_type@),
        decreases ms.len() - i,
    {
        let ghost before = t@;
        let ok = tally_message(&m.nested_type[i], t);
        if !ok {
            proof {
                lemma_messages_fit_all(ms, 0);
                if counts_fit(message_count(ms[i as int], before)) {
                    assert(!message_fits(ms[i as int]));
                    assert(!messages_fit(ms, 0));
                    assert(!message_fits(*m));
                } else {
                    assert(cn == messages_count(ms, i + 1, message_count(ms[i as int], before)));
                    lemma_messages_count_grows(ms, i + 1, message_count(ms[i as int], before));
                    lemma_not_fit_grows(message_count(ms[i as int], before), cn);
                    assert(!counts_fit(message_count(*m, c0)));
                }
            }
            return false;
        }
        proof {
            lemma_messages_count_grows(ms, i + 1, t@);
        }
        i += 1;
    }
    proof {
        lemma_messages_fit_all(ms, 0);
        assert(t@ == cn);
    }
    match add_within(t.enum_, m.enum_type.len()) {
        Some(v) => {
            t.enum_ = v;
        },
        None => {
            return false;
        },
    }
    match add_within(t.extension, m.extension.len()) {
        Some(v) => {
            t.extension = v;
        },
        None => {
            return false;
        },
    }
    true
}

} // verus!

verus! {

/// Counting a file after a list of files is counting the longer list.
pub proof fn lemma_files_count_push(fs: Seq<FileDescriptorProto>, f: FileDescriptorProto, i: int, c: Counts)
    requires
        0 <= i <= fs.len(),
    ensures
        files_count(fs.push(f), i, c) == file_count(f, files_count(fs, i, c)),
    decreases fs.len() - i,
{
    if i < fs.len() {
        assert(fs.push(f)[i] == fs[i]);
        lemma_files_count_push(fs, f, i + 1, file_count(fs[i], c));
    } else {
        assert(fs.push(f)[i] == f);
        assert(files_count(fs.push(f), i + 1, file_count(f, c)) == file_count(f, c));
    }
}

/// Counting files from `i` on is counting up to `k`, then on.
pub proof fn lemma_files_count_split(fs: Seq<FileDescriptorProto>, i: int, k: int, c: Counts)
    requires
        0 <= i <= k <= fs.len(),
    ensures
        files_count(fs, i, c) == files_count(fs, k, files_count(fs.take(k), i, c)),
    decreases k - i,
{
    if i < k {
        assert(fs.take(k)[i] == fs[i]);
        lemma_files_count_split(fs, i + 1, k, file_count(fs[i], c));
    }
}

/// Moves the tally past a file and everything defined in it, when every list
/// in it is short enough and no counter passes `u32::MAX`.
fn tally_file(f: &FileDescriptorProto, t: &mut Tally) -> (ok: bool)
    requires
        counts_fit(old(t)@),
    ensures
        ok ==> file_fits(*f) && final(t)@ == file_count(*f, old(t)@) && counts_fit(final(t)@),
        !ok ==> !(file_fits(*f) && counts_fit(file_count(*f, old(t)@))),
{
    let ghost c0 = t@;
    if !enum_values_ok(&f.enum_type) || !service_methods_ok(&f.service) {
        return false;
    }
    proof {
        lemma_messages_count_grows(f.message_type@, 0, Counts { file: c0.file + 1, ..c0 });
    }
    match add_within(t.file, 1) {
        Some(v) => {
            t.file = v;
        },
        None => {
            return false;
        },
    }
    let ghost ms = f.message_type@;
    let ghost cn = messages_count(ms, 0, Counts { file: c0.file + 1, ..c0 });
    proof {
        assert(t@ == Counts { file: c0.file + 1, ..c0 });
    }
    let mut i: usize = 0;
    while i < f.message_type.len()
        invariant
            i <= ms.len(),
            ms == f.message_type@,
            c0 == old(t)@,
            counts_fit(t@),
            cn == messages_count(ms, 0, Counts { file: c0.file + 1, ..c0 }),
            cn == messages_count(ms, i as int, t@),
            crate::visit::counts_grow(t@, cn),
            forall|k: int| 0 <= k < i ==> #[trigger] message_fits(ms[k]),
            file_count(*f, c0) == add_extensions(
                add_services(add_enums(cn, f.enum_type@.len() as int), f.service@.len() as int),
                f.extension@.len() as int,
            ),
            enum_values_fit(f.enum_type@),
            service_methods_fit(f.service@),
        decreases ms.len() - i,
    {
        let ghost before = t@;
        let ok = tally_message(&f.message_type[i], t);
        if !ok {
            proof {
                lemma_messages_fit_all(ms, 0);
                if counts_fit(message_count(ms[i as int], before)) {
                    assert(!message_fits(ms[i as int]));
                    assert(!messages_fit(ms, 0));
                } else {
                    assert(cn == messages_count(ms, i + 1, message_count(ms[i as int], before)));
                    lemma_messages_count_grows(ms, i + 1, message_count(ms[i as int], before));
                    lemma_not_fit_grows(message_count(ms[i as int], before), cn);
                    assert(!counts_fit(file_count(*f, c0)));
                }
            }
            return false;
        }
        proof {
            lemma_messages_count_grows(ms, i + 1, t@);
        }
        i += 1;
    }
    proof {
        lemma_messages_fit_all(ms, 0);
        assert(t@ == cn);
    }
    match add_within(t.enum_, f.enum_type.len()) {
        Some(v) => {
            t.enum_ = v;
        },
        None => {
            return false;
        },
    }
    match add_within(t.service, f.service.len()) {
        Some(v) => {
            t.service = v;
        },
        None => {
            return false;
        },
    }
    match add_within(t.extension, f.extension.len()) {
        Some(v) => {
            t.extension = v;
        },
        None => {
            return false;
        },
    }
    true
}

} // verus!

verus! {

impl crate::api::DescriptorPool {
    /// Whether `files` can be added to this pool: the files not in the pool
    /// yet are small enough that every index of the pool stays within `u32`.
    pub fn can_add(&self, files: &Vec<FileDescriptorProto>) -> (r: bool)
        ensures
            r == crate::api::batch_fits(self@, files@),
    {
        let inner = self.inner();
        let mut t = Tally {
            file: inner.files.len() as u64,
            message: inner.messages.len() as u64,
            enum_: inner.enums.len() as u64,
            service: inner.services.len() as u64,
            extension: inner.extensions.len() as u64,
        };
        let ghost c0 = t@;
        let ghost p = self@;
        let ghost pred = |f: FileDescriptorProto| crate::link::file_named(p.files@, crate::text::opt_str(f.name)) is None;
        let ghost d = crate::api::new_files(p.files@, files@);
        let ghost mut kept: Seq<FileDescriptorProto> = Seq::empty();
        proof {
            assert(c0 == crate::api::pool_counts(p));
            assert(files@.take(0) =~= Seq::<FileDescriptorProto>::empty());
            reveal(Seq::filter);
            assert(files@.take(0).filter(pred) =~= kept);
        }
        let mut i: usize = 0;
        while i < files.len()
            invariant
                i <= files@.len(),
                *inner == p,
                p == self@,
                c0 == crate::api::pool_counts(p),
                pred == (|f: FileDescriptorProto| crate::link::file_named(p.files@, crate::text::opt_str(f.name)) is None),
                d == files@.filter(pred),
                kept == files@.take(i as int).filter(pred),
                t@ == files_count(kept, 0, c0),
                counts_fit(t@),
                forall|k: int| 0 <= k < kept.len() ==> #[trigger] file_fits(kept[k]),
            decreases files@.len() - i,
        {
            let f = &files[i];
            let taken = crate::collect::has_file_named(&inner.files, inner.files.len(), f.name());
            let ghost next = files@.take(i + 1).filter(pred);
            proof {
                crate::link::lemma_file_named(p.files@, crate::text::opt_str(f.name));
                assert(taken == !pred(*f));
                reveal(Seq::filter);
                assert(files@.take(i + 1).drop_last() =~= files@.take(i as int));
                assert(files@.take(i + 1).last() == *f);
                assert(next == if pred(*f) { kept.push(*f) } else { kept });
            }
            if !taken {
                let ghost before = t@;
                let ok = tally_file(f, &mut t);
                if !ok {
                    proof {
                        files@.take(i + 1).lemma_filter_monotone(files@, pred);
                        assert(files@.take(i + 1).is_prefix_of(files@));
                        assert(next.is_prefix_of(d));
                        let k = next.len() as int;
                        assert(d.take(k) =~= next);
                        assert(next == kept.push(*f));
                        assert(next[k - 1] == *f);
                        assert(d.take(k)[k - 1] == d[k - 1]);
                        assert(d[k - 1] == *f);
                        if counts_fit(file_count(*f, before)) {
                            assert(!file_fits(d[k - 1]));
                            assert(!files_fit(d));
                        } else {
                            lemma_files_count_push(kept, *f, 0, c0);
                            lemma_files_count_split(d, 0, k, c0);
                            lemma_files_count(d, k, files_count(next, 0, c0));
                            lemma_not_fit_grows(files_count(next, 0, c0), files_count(d, 0, c0));
                            lemma_files_count(d, 0, c0);
                        }
                    }
                    return false;
                }
                proof {
                    lemma_files_count_push(kept, *f, 0, c0);
                    assert forall|k: int| 0 <= k < next.len() implies #[trigger] file_fits(next[k]) by {
                        if k < kept.len() {
                            assert(next[k] == kept[k]);
                        }
                    }
                }
            }
            proof {
                kept = next;
            }
            i += 1;
        }
        proof {
            assert(files@.take(files@.len() as int) =~= files@);
            lemma_files_count(d, 0, c0);
        }
        true
    }
}

} // verus!
