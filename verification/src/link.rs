//! Linking the files of a batch once their names are known: imports are
//! found, field types, method types and extendees are resolved, and the
//! fields, methods, extensions and enum values are added to the pool.
use vstd::prelude::*;
use crate::definition::{DefinitionKind, NameEntry};
use crate::error::{DescriptorErrorKind, Label};
use crate::pool::FileDescriptorInner;
use crate::tag;
use crate::text::opt_str;
use crate::kind::KindIndex;

verus! {

/// The numbers below `n`, as a set.
pub open spec fn below(n: u32) -> Set<u32> {
    Set::new(|x: u32| x < n)
}

/// There are `n` numbers below `n`.
pub proof fn lemma_below_len(n: u32)
    ensures
        below(n).finite(),
        below(n).len() == n,
    decreases n,
{
    if n == 0 {
        assert(below(n) =~= Set::<u32>::empty());
    } else {
        lemma_below_len((n - 1) as u32);
        assert(below(n) =~= below((n - 1) as u32).insert((n - 1) as u32));
    }
}

/// A sequence of distinct numbers below `n` has at most `n` elements.
pub proof fn lemma_distinct_below(s: Seq<u32>, n: u32)
    requires
        s.no_duplicates(),
        forall|i: int| 0 <= i < s.len() ==> s[i] < n,
    ensures
        s.len() <= n,
{
    s.unique_seq_to_set();
    lemma_below_len(n);
    assert(s.to_set().subset_of(below(n))) by {
        assert forall|x: u32| s.to_set().contains(x) implies below(n).contains(x) by {
            let i = s.index_of(x);
        }
    }
    vstd::set_lib::lemma_len_subset(s.to_set(), below(n));
}

/// The index of the first file named `name`, if any.
pub open spec fn file_named(files: Seq<FileDescriptorInner>, name: Seq<char>) -> Option<int>
    decreases files.len(),
{
    if files.len() == 0 {
        None
    } else {
        match file_named(files.drop_last(), name) {
            Some(i) => Some(i),
            None => if opt_str(files.last().raw.name) == name {
                Some(files.len() - 1)
            } else {
                None
            },
        }
    }
}

/// `file_named` finds a file with the name, and the first one.
pub proof fn lemma_file_named(files: Seq<FileDescriptorInner>, name: Seq<char>)
    ensures
        file_named(files, name) matches Some(i) ==> 0 <= i < files.len() && opt_str(files[i].raw.name)
            == name && forall|j: int| 0 <= j < i ==> opt_str(files[j].raw.name) != name,
        file_named(files, name) is None ==> forall|j: int|
            0 <= j < files.len() ==> opt_str(files[j].raw.name) != name,
    decreases files.len(),
{
    if files.len() > 0 {
        let prefix = files.drop_last();
        lemma_file_named(prefix, name);
        assert forall|j: int| 0 <= j < prefix.len() implies prefix[j] == files[j] by {}
    }
}

/// Finds the first file named `name`.
pub fn find_file(files: &Vec<FileDescriptorInner>, name: &str) -> (r: Option<u32>)
    requires
        files@.len() <= u32::MAX,
    ensures
        r matches Some(i) ==> file_named(files@, name@) == Some(i as int),
        r is None ==> file_named(files@, name@) is None,
{
    let mut i: usize = 0;
    while i < files.len()
        invariant
            i <= files@.len() <= u32::MAX,
            forall|j: int| 0 <= j < i ==> opt_str(#[trigger] files@[j].raw.name) != name@,
        decreases files@.len() - i,
    {
        if crate::text::str_eq(files[i].raw.name(), name) {
            proof {
                lemma_file_named(files@, name@);
            }
            return Some(i as u32);
        }
        i += 1;
    }
    proof {
        lemma_file_named(files@, name@);
    }
    None
}

/// The indices of the files named by `deps` among the first `n`, in order,
/// skipping the names no file has.
pub open spec fn found_deps(files: Seq<FileDescriptorInner>, deps: Seq<String>, n: int) -> Seq<u32>
    decreases n,
{
    if n <= 0 {
        Seq::empty()
    } else {
        found_deps(files, deps, n - 1) + match file_named(files, deps[n - 1]@) {
            Some(i) => seq![i as u32],
            None => Seq::empty(),
        }
    }
}

/// The file that public import `p` of the file at index `t` names, if it is
/// a valid import of a file that is found.
pub open spec fn public_dep_target(files: Seq<FileDescriptorInner>, t: int, p: int) -> Option<int> {
    let d = files[t].raw.public_dependency@[p];
    if 0 <= d < files[t].raw.dependency@.len() {
        file_named(files, files[t].raw.dependency@[d as int]@)
    } else {
        None
    }
}

/// The files the file at index `t` imports publicly, among the files found.
pub open spec fn public_imports(files: Seq<FileDescriptorInner>, t: int) -> Set<u32> {
    Set::new(
        |x: u32|
            exists|p: int|
                0 <= p < files[t].raw.public_dependency@.len() && #[trigger] public_dep_target(files, t, p)
                    == Some(x as int),
    )
}

/// Whether a set of files holds every file that one of its files imports publicly.
pub open spec fn closed_under_public(files: Seq<FileDescriptorInner>, s: Seq<u32>) -> bool {
    forall|i: int, x: u32| 0 <= i < s.len() && #[trigger] public_imports(files, s[i] as int).contains(x)
        ==> s.contains(x)
}

/// Whether every element of `s` from index `from` on is imported publicly by
/// an element before it.
pub open spec fn publicly_reached(files: Seq<FileDescriptorInner>, s: Seq<u32>, from: int) -> bool {
    forall|i: int| from <= i < s.len() ==> #[trigger] imported_before(files, s, i)
}

/// Whether the element of `s` at `i` is imported publicly by an element
/// before it.
pub open spec fn imported_before(files: Seq<FileDescriptorInner>, s: Seq<u32>, i: int) -> bool {
    exists|j: int| 0 <= j < i && #[trigger] public_imports(files, s[j] as int).contains(s[i])
}

/// Whether each element of `seen` is the file `fi`, one of its imports
/// `deps`, or a file that an element before it imports publicly.
pub open spec fn seen_from(files: Seq<FileDescriptorInner>, fi: u32, deps: Seq<u32>, seen: Seq<u32>) -> bool {
    forall|i: int| 0 <= i < seen.len() ==> seen[i] == fi || deps.contains(seen[i]) || #[trigger] imported_before(files, seen, i)
}

/// The files a file sees are the least set that holds the file and its
/// imports and that holds every file one of its files imports publicly: any
/// such set holds every file of `seen`. So an import of an import is seen
/// only through public imports.
pub proof fn lemma_seen_files_least(
    files: Seq<FileDescriptorInner>,
    fi: u32,
    deps: Seq<u32>,
    seen: Seq<u32>,
    s: Set<u32>,
)
    requires
        seen_from(files, fi, deps, seen),
        s.contains(fi),
        forall|i: int| 0 <= i < deps.len() ==> s.contains(#[trigger] deps[i]),
        forall|x: u32, y: u32| s.contains(x) && #[trigger] public_imports(files, x as int).contains(y) ==> s.contains(y),
    ensures
        forall|i: int| 0 <= i < seen.len() ==> s.contains(#[trigger] seen[i]),
{
    assert forall|i: int| 0 <= i < seen.len() implies s.contains(#[trigger] seen[i]) by {
        lemma_seen_prefix_in(files, fi, deps, seen, s, i);
    }
}

proof fn lemma_seen_prefix_in(
    files: Seq<FileDescriptorInner>,
    fi: u32,
    deps: Seq<u32>,
    seen: Seq<u32>,
    s: Set<u32>,
    i: int,
)
    requires
        seen_from(files, fi, deps, seen),
        s.contains(fi),
        forall|k: int| 0 <= k < deps.len() ==> s.contains(#[trigger] deps[k]),
        forall|x: u32, y: u32| s.contains(x) && #[trigger] public_imports(files, x as int).contains(y) ==> s.contains(y),
        0 <= i < seen.len(),
    ensures
        s.contains(seen[i]),
    decreases i,
{
    assert(seen[i] == fi || deps.contains(seen[i]) || imported_before(files, seen, i));
    if seen[i] == fi {
    } else if deps.contains(seen[i]) {
        let k = choose|k: int| 0 <= k < deps.len() && deps[k] == seen[i];
        assert(s.contains(deps[k]));
    } else {
        let j = choose|j: int| 0 <= j < i && #[trigger] public_imports(files, seen[j] as int).contains(seen[i]);
        lemma_seen_prefix_in(files, fi, deps, seen, s, j);
    }
}

/// Appending to a sequence whose elements from `from` on are reached
/// publicly files that its element at `k` imports publicly keeps them reached.
proof fn lemma_reached_step(files: Seq<FileDescriptorInner>, before: Seq<u32>, after: Seq<u32>, from: int, k: int)
    requires
        publicly_reached(files, before, from),
        0 <= k < before.len(),
        before.len() <= after.len(),
        after.take(before.len() as int) == before,
        forall|i: int| before.len() <= i < after.len() ==> public_imports(files, before[k] as int).contains(#[trigger] after[i]),
    ensures
        publicly_reached(files, after, from),
{
    assert forall|i: int| from <= i < after.len() implies #[trigger] imported_before(files, after, i) by {
        assert(imported_before(files, before, i) || i >= before.len());
        if i < before.len() {
            assert(after.take(before.len() as int)[i] == after[i]);
            let j = choose|j: int| 0 <= j < i && #[trigger] public_imports(files, before[j] as int).contains(before[i]);
            assert(after.take(before.len() as int)[j] == after[j]);
            assert(public_imports(files, after[j] as int).contains(after[i]));
        } else {
            assert(after.take(before.len() as int)[k] == after[k]);
            assert(public_imports(files, after[k] as int).contains(after[i]));
        }
    }
}

/// The files a file imports publicly depend only on the file descriptors.
pub proof fn lemma_public_imports_same_raws(a: Seq<FileDescriptorInner>, b: Seq<FileDescriptorInner>, t: int)
    requires
        a.len() == b.len(),
        forall|k: int| 0 <= k < a.len() ==> (#[trigger] a[k]).raw == b[k].raw,
        0 <= t < a.len(),
    ensures
        public_imports(a, t) == public_imports(b, t),
{
    assert forall|p: int| 0 <= p < a[t].raw.public_dependency@.len() implies #[trigger] public_dep_target(a, t, p)
        == public_dep_target(b, t, p) by {
        let d = a[t].raw.public_dependency@[p];
        if 0 <= d < a[t].raw.dependency@.len() {
            lemma_file_named_same_raws(a, b, a[t].raw.dependency@[d as int]@);
        }
    }
    assert(a[t].raw == b[t].raw);
    assert forall|x: u32| public_imports(a, t).contains(x) <==> public_imports(b, t).contains(x) by {
        if public_imports(a, t).contains(x) {
            let p = choose|p: int| 0 <= p < a[t].raw.public_dependency@.len() && #[trigger] public_dep_target(a, t, p) == Some(x as int);
            assert(public_dep_target(b, t, p) == Some(x as int));
        }
        if public_imports(b, t).contains(x) {
            let p = choose|p: int| 0 <= p < b[t].raw.public_dependency@.len() && #[trigger] public_dep_target(b, t, p) == Some(x as int);
            assert(public_dep_target(a, t, p) == public_dep_target(b, t, p));
            assert(public_dep_target(a, t, p) == Some(x as int));
        }
    }
    assert(public_imports(a, t) =~= public_imports(b, t));
}

/// Which files a file sees, and how, depends only on the file descriptors.
pub proof fn lemma_seen_from_same_raws(
    a: Seq<FileDescriptorInner>,
    b: Seq<FileDescriptorInner>,
    fi: u32,
    deps: Seq<u32>,
    seen: Seq<u32>,
)
    requires
        a.len() == b.len(),
        forall|k: int| 0 <= k < a.len() ==> (#[trigger] a[k]).raw == b[k].raw,
        forall|i: int| 0 <= i < seen.len() ==> seen[i] < a.len(),
        seen_from(b, fi, deps, seen),
    ensures
        seen_from(a, fi, deps, seen),
{
    assert forall|i: int| 0 <= i < seen.len() implies seen[i] == fi || deps.contains(seen[i])
        || #[trigger] imported_before(a, seen, i) by {
        if imported_before(b, seen, i) {
            let j = choose|j: int| 0 <= j < i && #[trigger] public_imports(b, seen[j] as int).contains(seen[i]);
            lemma_public_imports_same_raws(a, b, seen[j] as int);
            assert(public_imports(a, seen[j] as int).contains(seen[i]));
        }
    }
}

/// Adds `x` to `set` unless it is there.
fn add_unique(set: &mut Vec<u32>, x: u32)
    requires
        old(set)@.no_duplicates(),
    ensures
        final(set)@.no_duplicates(),
        final(set)@.contains(x),
        old(set)@.contains(x) ==> final(set)@ == old(set)@,
        !old(set)@.contains(x) ==> final(set)@ == old(set)@.push(x),
{
    if !crate::resolve::contains_u32(set, x) {
        let ghost before = set@;
        set.push(x);
        proof {
            assert forall|a: int, b: int| 0 <= a < b < set@.len() implies set@[a] != set@[b] by {
                if b == set@.len() - 1 {
                    assert(before.contains(set@[a]));
                }
            }
            assert(set@[set@.len() - 1] == x);
        }
    }
}

/// Adds to `set` the files that the file at index `t` imports publicly.
fn add_public_imports(files: &Vec<FileDescriptorInner>, set: &mut Vec<u32>, t: usize)
    requires
        t < files@.len() <= u32::MAX,
        old(set)@.no_duplicates(),
        forall|i: int| 0 <= i < old(set)@.len() ==> old(set)@[i] < files@.len(),
    ensures
        final(set)@.no_duplicates(),
        forall|i: int| 0 <= i < final(set)@.len() ==> final(set)@[i] < files@.len(),
        final(set)@.len() >= old(set)@.len(),
        final(set)@.take(old(set)@.len() as int) == old(set)@,
        forall|x: u32| #[trigger] public_imports(files@, t as int).contains(x) ==> final(set)@.contains(x),
        forall|i: int| old(set)@.len() <= i < final(set)@.len() ==> public_imports(files@, t as int).contains(
            #[trigger] final(set)@[i],
        ),
{
    let ghost s0 = set@;
    let raw = &files[t].raw;
    let mut p: usize = 0;
    proof {
        assert(s0.take(s0.len() as int) =~= s0);
    }
    while p < raw.public_dependency.len()
        invariant
            t < files@.len() <= u32::MAX,
            raw == &files@[t as int].raw,
            set@.no_duplicates(),
            forall|i: int| 0 <= i < set@.len() ==> set@[i] < files@.len(),
            set@.len() >= s0.len(),
            set@.take(s0.len() as int) == s0,
            p <= raw.public_dependency@.len(),
            forall|q: int| 0 <= q < p && (#[trigger] public_dep_target(files@, t as int, q)) is Some
                ==> set@.contains((public_dep_target(files@, t as int, q)->0) as u32),
            forall|i: int| s0.len() <= i < set@.len() ==> public_imports(files@, t as int).contains(#[trigger] set@[i]),
        decreases raw.public_dependency@.len() - p,
    {
        let d = raw.public_dependency[p];
        if d >= 0 && (d as usize) < raw.dependency.len() {
            match find_file(files, raw.dependency[d as usize].as_str()) {
                Some(x) => {
                    proof {
                        lemma_file_named(files@, raw.dependency@[d as int]@);
                    }
                    let ghost before = set@;
                    add_unique(set, x);
                    proof {
                        assert(set@.take(s0.len() as int) =~= before.take(s0.len() as int));
                        assert(public_dep_target(files@, t as int, p as int) == Some(x as int));
                        assert(public_imports(files@, t as int).contains(x));
                        assert forall|i: int| s0.len() <= i < set@.len() implies public_imports(files@, t as int).contains(
                            #[trigger] set@[i],
                        ) by {
                            if i < before.len() {
                                assert(set@[i] == before[i]);
                            }
                        }
                        assert forall|q: int| 0 <= q < p + 1 && (#[trigger] public_dep_target(files@, t as int, q)) is Some
                            implies set@.contains((public_dep_target(files@, t as int, q)->0) as u32) by {
                            if q < p {
                                let y = (public_dep_target(files@, t as int, q)->0) as u32;
                                assert(before.contains(y));
                                let w = before.index_of(y);
                                assert(set@[w] == y);
                            }
                        }
                    }
                },
                None => {},
            }
        }
        p += 1;
    }
    proof {
        assert forall|x: u32| #[trigger] public_imports(files@, t as int).contains(x) implies set@.contains(x) by {
            let q = choose|q: int|
                0 <= q < files@[t as int].raw.public_dependency@.len() && #[trigger] public_dep_target(files@, t as int, q) == Some(x as int);
            assert(public_dep_target(files@, t as int, q) == Some(x as int));
        }
    }
}

/// Adds to `set` the files that a file of it imports publicly, until no more
/// can be added.
fn close_under_public(files: &Vec<FileDescriptorInner>, set: &mut Vec<u32>)
    requires
        files@.len() <= u32::MAX,
        old(set)@.no_duplicates(),
        forall|i: int| 0 <= i < old(set)@.len() ==> old(set)@[i] < files@.len(),
    ensures
        final(set)@.no_duplicates(),
        forall|i: int| 0 <= i < final(set)@.len() ==> final(set)@[i] < files@.len(),
        final(set)@.len() >= old(set)@.len(),
        final(set)@.take(old(set)@.len() as int) == old(set)@,
        closed_under_public(files@, final(set)@),
        publicly_reached(files@, final(set)@, old(set)@.len() as int),
{
    let ghost s0 = set@;
    let n = files.len() as u32;
    proof {
        assert(s0.take(s0.len() as int) =~= s0);
    }
    loop
        invariant
            n == files@.len(),
            files@.len() <= u32::MAX,
            set@.no_duplicates(),
            forall|i: int| 0 <= i < set@.len() ==> set@[i] < files@.len(),
            set@.len() >= s0.len(),
            set@.take(s0.len() as int) == s0,
            publicly_reached(files@, set@, s0.len() as int),
        ensures
            set@.no_duplicates(),
            forall|i: int| 0 <= i < set@.len() ==> set@[i] < files@.len(),
            set@.len() >= s0.len(),
            set@.take(s0.len() as int) == s0,
            closed_under_public(files@, set@),
            publicly_reached(files@, set@, s0.len() as int),
        decreases files@.len() - set@.len(),
    {
        proof {
            lemma_distinct_below(set@, n);
        }
        let start_len = set.len();
        let mut k: usize = 0;
        while k < set.len()
            invariant
                n == files@.len(),
                files@.len() <= u32::MAX,
                set@.no_duplicates(),
                forall|i: int| 0 <= i < set@.len() ==> set@[i] < files@.len(),
                set@.len() >= start_len,
                start_len >= s0.len(),
                set@.take(s0.len() as int) == s0,
                k <= set@.len(),
                set@.len() <= files@.len(),
                set@.len() == start_len ==> forall|i: int, x: u32| 0 <= i < k && #[trigger] public_imports(files@, set@[i] as int).contains(x)
                    ==> set@.contains(x),
                publicly_reached(files@, set@, s0.len() as int),
            decreases files@.len() - set@.len(), set@.len() - k,
        {
            let t = set[k] as usize;
            let ghost before = set@;
            add_public_imports(files, set, t);
            proof {
                lemma_reached_step(files@, before, set@, s0.len() as int, k as int);
                assert(publicly_reached(files@, set@, s0.len() as int));
                lemma_distinct_below(set@, n);
                assert(set@.take(s0.len() as int) =~= set@.take(before.len() as int).take(s0.len() as int));
                if set@.len() == start_len {
                    assert(set@ =~= before);
                }
            }
            k += 1;
        }
        if set.len() == start_len {
            break;
        }
    }
}

} // verus!

verus! {

/// Whether an error reports an import: of a file that is not found, or an
/// import index that is not the index of an import.
pub open spec fn is_import_error(e: DescriptorErrorKind) -> bool {
    e is FileNotFound || e is InvalidImportIndex
}

/// Whether every error of `errors` from index `from` on reports an import.
pub open spec fn import_errors_from(errors: Seq<DescriptorErrorKind>, from: int) -> bool {
    forall|j: int| from <= j < errors.len() ==> is_import_error(#[trigger] errors[j])
}

/// Whether every import of a file names a file, and every public and weak
/// import index is the index of one of its imports.
pub open spec fn imports_valid(files: Seq<FileDescriptorInner>, f: crate::types::FileDescriptorProto) -> bool {
    &&& forall|i: int| 0 <= i < f.dependency@.len() ==> (#[trigger] file_named(files, f.dependency@[i]@)) is Some
    &&& forall|i: int| 0 <= i < f.public_dependency@.len() ==> 0 <= #[trigger] f.public_dependency@[i] < f.dependency@.len()
    &&& forall|i: int| 0 <= i < f.weak_dependency@.len() ==> 0 <= #[trigger] f.weak_dependency@[i] < f.dependency@.len()
}

/// Whether the imports of the files from index `off` on are valid, and the
/// visits `vs` are simple.
pub open spec fn simple_linkable_from(files: Seq<FileDescriptorInner>, off: int, vs: Seq<crate::visit::Visit>) -> bool {
    &&& forall|k: int| off <= k < files.len() ==> imports_valid(files, #[trigger] files[k].raw)
    &&& forall|j: int| 0 <= j < vs.len() ==> crate::collect::simple_visit(#[trigger] vs[j])
}

/// What a prefix of a sequence contains, the sequence contains.
pub proof fn lemma_contains_prefix(s: Seq<u32>, t: Seq<u32>, x: u32)
    requires
        s.len() <= t.len(),
        t.take(s.len() as int) == s,
        s.contains(x),
    ensures
        t.contains(x),
{
    let w = choose|w: int| 0 <= w < s.len() && s[w] == x;
    assert(t.take(s.len() as int)[w] == t[w]);
}

/// Reports each import index in `indices` that is not the index of an import.
fn check_import_indices(indices: &Vec<i32>, n: usize, errors: &mut Vec<DescriptorErrorKind>)
    ensures
        final(errors)@.len() >= old(errors)@.len(),
        final(errors)@.take(old(errors)@.len() as int) == old(errors)@,
        (final(errors)@.len() == old(errors)@.len()) == (forall|i: int| 0 <= i < indices@.len() ==> 0 <= #[trigger] indices@[i] < n),
        import_errors_from(final(errors)@, old(errors)@.len() as int),
{
    let ghost e0 = errors@;
    let mut i: usize = 0;
    proof {
        assert(e0.take(e0.len() as int) =~= e0);
    }
    while i < indices.len()
        invariant
            i <= indices@.len(),
            errors@.len() >= e0.len(),
            errors@.take(e0.len() as int) == e0,
            (errors@.len() == e0.len()) == (forall|j: int| 0 <= j < i ==> 0 <= #[trigger] indices@[j] < n),
            import_errors_from(errors@, e0.len() as int),
        decreases indices@.len() - i,
    {
        let d = indices[i];
        if !(d >= 0 && (d as usize) < n) {
            let ghost before = errors@;
            errors.push(DescriptorErrorKind::InvalidImportIndex);
            proof {
                assert(errors@.take(e0.len() as int) =~= before.take(e0.len() as int));
            }
        }
        i += 1;
    }
}

/// Finds the files a file imports: the index of each imported file, in
/// order, and the files whose definitions it sees: itself, its imports and
/// whatever they import publicly. Imports of unknown files and invalid
/// import indices are reported.
pub fn resolve_dependencies(
    files: &Vec<FileDescriptorInner>,
    fi: u32,
    errors: &mut Vec<DescriptorErrorKind>,
) -> (r: (Vec<u32>, Vec<u32>))
    requires
        fi < files@.len() <= u32::MAX,
    ensures
        r.0@ == found_deps(files@, files@[fi as int].raw.dependency@, files@[fi as int].raw.dependency@.len() as int),
        r.1@.contains(fi),
        forall|i: int| 0 <= i < r.0@.len() ==> r.1@.contains(#[trigger] r.0@[i]),
        forall|i: int| 0 <= i < r.0@.len() ==> #[trigger] r.0@[i] < files@.len(),
        r.1@.no_duplicates(),
        forall|i: int| 0 <= i < r.1@.len() ==> r.1@[i] < files@.len(),
        closed_under_public(files@, r.1@),
        final(errors)@.len() >= old(errors)@.len(),
        final(errors)@.take(old(errors)@.len() as int) == old(errors)@,
        (final(errors)@.len() == old(errors)@.len()) == imports_valid(files@, files@[fi as int].raw),
        import_errors_from(final(errors)@, old(errors)@.len() as int),
        seen_from(files@, fi, r.0@, r.1@),
{
    let raw = &files[fi as usize].raw;
    let ghost e0 = errors@;
    let mut deps: Vec<u32> = Vec::new();
    let mut seen: Vec<u32> = Vec::new();
    seen.push(fi);
    let mut i: usize = 0;
    proof {
        assert(seen@[0] == fi);
        assert(e0.take(e0.len() as int) =~= e0);
        assert(found_deps(files@, raw.dependency@, 0) =~= Seq::<u32>::empty());
    }
    while i < raw.dependency.len()
        invariant
            fi < files@.len() <= u32::MAX,
            raw == &files@[fi as int].raw,
            i <= raw.dependency@.len(),
            deps@ == found_deps(files@, raw.dependency@, i as int),
            forall|j: int| 0 <= j < deps@.len() ==> #[trigger] deps@[j] < files@.len(),
            seen@.contains(fi),
            forall|j: int| 0 <= j < deps@.len() ==> seen@.contains(#[trigger] deps@[j]),
            seen@.no_duplicates(),
            forall|j: int| 0 <= j < seen@.len() ==> seen@[j] < files@.len(),
            errors@.len() >= e0.len(),
            errors@.take(e0.len() as int) == e0,
            (errors@.len() == e0.len()) == (forall|j: int| 0 <= j < i ==> (#[trigger] file_named(files@, raw.dependency@[j]@)) is Some),
            import_errors_from(errors@, e0.len() as int),
            forall|j: int| 0 <= j < seen@.len() ==> seen@[j] == fi || deps@.contains(#[trigger] seen@[j]),
        decreases raw.dependency@.len() - i,
    {
        match find_file(files, raw.dependency[i].as_str()) {
            Some(x) => {
                proof {
                    lemma_file_named(files@, raw.dependency@[i as int]@);
                }
                let ghost before_seen = seen@;
                let ghost before_deps = deps@;
                deps.push(x);
                add_unique(&mut seen, x);
                proof {
                    assert forall|j: int| 0 <= j < deps@.len() implies seen@.contains(#[trigger] deps@[j]) by {
                        if j < deps@.len() - 1 {
                            assert(before_seen.contains(deps@[j]));
                            let w = before_seen.index_of(deps@[j]);
                            assert(seen@[w] == deps@[j]);
                        }
                    }
                    assert forall|j: int| 0 <= j < seen@.len() implies seen@[j] < files@.len() by {
                        if j < before_seen.len() {
                            assert(seen@[j] == before_seen[j]);
                        }
                    }
                    let w = before_seen.index_of(fi);
                    assert(seen@[w] == fi);
                    assert forall|j: int| 0 <= j < seen@.len() implies seen@[j] == fi || deps@.contains(#[trigger] seen@[j]) by {
                        if j < before_seen.len() {
                            assert(seen@[j] == before_seen[j]);
                            if before_seen[j] != fi {
                                assert(before_deps.contains(before_seen[j]));
                                let w2 = choose|w2: int| 0 <= w2 < before_deps.len() && before_deps[w2] == before_seen[j];
                                assert(deps@[w2] == before_deps[w2]);
                            }
                        } else {
                            assert(seen@[j] == x);
                            assert(deps@[deps@.len() - 1] == x);
                        }
                    }
                }
            },
            None => {
                let found = Label::new(files, fi, crate::collect::path_with_two(tag::FILE_DEPENDENCY, i as i32));
                let ghost before = errors@;
                errors.push(DescriptorErrorKind::FileNotFound {
                    name: crate::text::to_owned_string(raw.dependency[i].as_str()),
                    found,
                });
                proof {
                    assert(errors@.take(e0.len() as int) =~= before.take(e0.len() as int));
                }
            },
        }
        i += 1;
    }
    let ghost before_close = seen@;
    close_under_public(files, &mut seen);
    proof {
        assert forall|j: int| 0 <= j < seen@.len() implies seen@[j] == fi || deps@.contains(seen@[j])
            || #[trigger] imported_before(files@, seen@, j) by {
            if j < before_close.len() {
                assert(seen@.take(before_close.len() as int)[j] == seen@[j]);
                assert(before_close[j] == fi || deps@.contains(before_close[j]));
            }
        }
        assert forall|j: int| 0 <= j < deps@.len() implies seen@.contains(#[trigger] deps@[j]) by {
            lemma_contains_prefix(before_close, seen@, deps@[j]);
        }
        lemma_contains_prefix(before_close, seen@, fi);
    }
    let ghost e1 = errors@;
    check_import_indices(&raw.public_dependency, raw.dependency.len(), errors);
    let ghost e2 = errors@;
    check_import_indices(&raw.weak_dependency, raw.dependency.len(), errors);
    proof {
        assert forall|j: int| e0.len() <= j < errors@.len() implies is_import_error(#[trigger] errors@[j]) by {
            if j < e2.len() {
                assert(errors@.take(e2.len() as int)[j] == errors@[j]);
                if j < e1.len() {
                    assert(e2.take(e1.len() as int)[j] == e2[j]);
                }
            }
        }
        assert(e2.take(e0.len() as int) =~= e2.take(e1.len() as int).take(e0.len() as int));
        assert(errors@.take(e0.len() as int) =~= errors@.take(e2.len() as int).take(e0.len() as int));
    }
    (deps, seen)
}

} // verus!

verus! {

/// The scalar kind a field type number stands for; `None` for message,
/// group and enum types and for numbers that are no type.
pub open spec fn spec_scalar_kind(t: i32) -> Option<crate::kind::KindIndex> {
    if t == crate::types::TYPE_DOUBLE { Some(KindIndex::Double) }
    else if t == crate::types::TYPE_FLOAT { Some(KindIndex::Float) }
    else if t == crate::types::TYPE_INT64 { Some(KindIndex::Int64) }
    else if t == crate::types::TYPE_UINT64 { Some(KindIndex::Uint64) }
    else if t == crate::types::TYPE_INT32 { Some(KindIndex::Int32) }
    else if t == crate::types::TYPE_FIXED64 { Some(KindIndex::Fixed64) }
    else if t == crate::types::TYPE_FIXED32 { Some(KindIndex::Fixed32) }
    else if t == crate::types::TYPE_BOOL { Some(KindIndex::Bool) }
    else if t == crate::types::TYPE_STRING { Some(KindIndex::String) }
    else if t == crate::types::TYPE_BYTES { Some(KindIndex::Bytes) }
    else if t == crate::types::TYPE_UINT32 { Some(KindIndex::Uint32) }
    else if t == crate::types::TYPE_SFIXED32 { Some(KindIndex::Sfixed32) }
    else if t == crate::types::TYPE_SFIXED64 { Some(KindIndex::Sfixed64) }
    else if t == crate::types::TYPE_SINT32 { Some(KindIndex::Sint32) }
    else if t == crate::types::TYPE_SINT64 { Some(KindIndex::Sint64) }
    else { None }
}

/// The scalar kind a field type number stands for.
pub fn scalar_kind(t: i32) -> (r: Option<crate::kind::KindIndex>)
    ensures
        r == spec_scalar_kind(t),
{
    if t == crate::types::TYPE_DOUBLE { Some(KindIndex::Double) }
    else if t == crate::types::TYPE_FLOAT { Some(KindIndex::Float) }
    else if t == crate::types::TYPE_INT64 { Some(KindIndex::Int64) }
    else if t == crate::types::TYPE_UINT64 { Some(KindIndex::Uint64) }
    else if t == crate::types::TYPE_INT32 { Some(KindIndex::Int32) }
    else if t == crate::types::TYPE_FIXED64 { Some(KindIndex::Fixed64) }
    else if t == crate::types::TYPE_FIXED32 { Some(KindIndex::Fixed32) }
    else if t == crate::types::TYPE_BOOL { Some(KindIndex::Bool) }
    else if t == crate::types::TYPE_STRING { Some(KindIndex::String) }
    else if t == crate::types::TYPE_BYTES { Some(KindIndex::Bytes) }
    else if t == crate::types::TYPE_UINT32 { Some(KindIndex::Uint32) }
    else if t == crate::types::TYPE_SFIXED32 { Some(KindIndex::Sfixed32) }
    else if t == crate::types::TYPE_SFIXED64 { Some(KindIndex::Sfixed64) }
    else if t == crate::types::TYPE_SINT32 { Some(KindIndex::Sint32) }
    else if t == crate::types::TYPE_SINT64 { Some(KindIndex::Sint64) }
    else { None }
}

/// The kind of a field: with a type name, the message or enum that name
/// resolves to (a group if the type says so); without one, the scalar its
/// type number gives. `None` when neither works.
pub open spec fn spec_field_kind(
    deps: Seq<u32>,
    names: Seq<NameEntry>,
    scope: Seq<char>,
    field: crate::types::FieldDescriptorProto,
) -> Option<crate::kind::KindIndex> {
    match field.named_type {
        Some(tname) => match crate::resolve::resolve(deps, names, scope, tname@, crate::resolve::ResolveNameFilter::FieldType) {
            crate::resolve::Resolution::Found { index, .. } => match names[index].def.kind {
                DefinitionKind::Message(m) => if field.field_type == Some(crate::types::TYPE_GROUP) {
                    Some(KindIndex::Group(m))
                } else {
                    Some(KindIndex::Message(m))
                },
                DefinitionKind::Enum(e) => Some(KindIndex::Enum(e)),
                _ => None,
            },
            _ => None,
        },
        None => match field.field_type {
            Some(t) => spec_scalar_kind(t),
            None => None,
        },
    }
}

/// Resolves the kind of a field whose reference is at `path` in file `file`,
/// reporting a name that does not resolve, or a missing type.
pub fn field_kind(
    deps: &Vec<u32>,
    names: &Vec<NameEntry>,
    files: &Vec<FileDescriptorInner>,
    scope: &Vec<char>,
    field: &crate::types::FieldDescriptorProto,
    file: u32,
    path: &Vec<i32>,
    errors: &mut Vec<DescriptorErrorKind>,
) -> (r: Option<crate::kind::KindIndex>)
    requires
        file < files@.len(),
        crate::collect::defs_in_files(names@, files@.len() as int),
    ensures
        r == spec_field_kind(deps@, names@, scope@, *field),
        final(errors)@.len() >= old(errors)@.len(),
        final(errors)@.take(old(errors)@.len() as int) == old(errors)@,
        r is None ==> final(errors)@.len() > old(errors)@.len(),
        r is Some ==> final(errors)@ == old(errors)@,
{
    let ghost e0 = errors@;
    proof {
        assert(e0.take(e0.len() as int) =~= e0);
    }
    match &field.named_type {
        Some(tname) => {
            let name = crate::text::chars_of(tname.as_str());
            let res = crate::resolve::resolve_name(deps, names, scope, &name, crate::resolve::ResolveNameFilter::FieldType);
            proof {
                crate::resolve::lemma_resolution_sound(deps@, names@, scope@, name@, crate::resolve::ResolveNameFilter::FieldType);
            }
            let type_path = crate::collect::single_path(tag::FIELD_TYPE_NAME);
            match res.into_result(&name, files, names, file, path, &type_path) {
                Ok((_, index)) => {
                    match names[index].def.kind {
                        DefinitionKind::Message(m) => {
                            if field.field_type == Some(crate::types::TYPE_GROUP) {
                                Some(KindIndex::Group(m))
                            } else {
                                Some(KindIndex::Message(m))
                            }
                        },
                        DefinitionKind::Enum(e) => Some(KindIndex::Enum(e)),
                        _ => {
                            proof {
                                assert(false);
                            }
                            None
                        },
                    }
                },
                Err(e) => {
                    errors.push(e);
                    proof {
                        assert(errors@.take(e0.len() as int) =~= e0);
                    }
                    None
                },
            }
        },
        None => {
            let kind = match field.field_type {
                Some(t) => scalar_kind(t),
                None => None,
            };
            if kind.is_none() {
                let label = Label::new(files, file, crate::collect::path_with1(path, tag::FIELD_TYPE));
                errors.push(DescriptorErrorKind::MissingRequiredField { label });
                proof {
                    assert(errors@.take(e0.len() as int) =~= e0);
                }
            }
            kind
        },
    }
}

} // verus!

verus! {

/// Whether number–index pairs are ordered by strictly increasing number.
pub open spec fn numbers_sorted(v: Seq<(u32, u32)>) -> bool {
    forall|i: int, j: int| 0 <= i < j < v.len() ==> v[i].0 < v[j].0
}

/// Whether each pair of a message's number table names a field of the
/// message that has that number.
pub open spec fn numbers_name_fields(m: crate::pool::MessageDescriptorInner) -> bool {
    &&& forall|k: int| 0 <= k < m.field_numbers@.len() ==> {
        let e = #[trigger] m.field_numbers@[k];
        e.1 < m.fields@.len() && m.fields@[e.1 as int].number == e.0
    }
    &&& forall|k1: int, k2: int|
        0 <= k1 < k2 < m.field_numbers@.len() ==> (#[trigger] m.field_numbers@[k1]).1 != (
        #[trigger] m.field_numbers@[k2]).1
}

/// Inserts `(number, index)` in order, unless `number` is there; then
/// returns the position of the pair that has it.
pub fn insert_number(v: &mut Vec<(u32, u32)>, number: u32, index: u32) -> (r: Option<usize>)
    requires
        numbers_sorted(old(v)@),
    ensures
        numbers_sorted(final(v)@),
        r matches Some(k) ==> k < old(v)@.len() && old(v)@[k as int].0 == number && final(v)@ == old(v)@,
        r is None ==> (forall|k: int| 0 <= k < old(v)@.len() ==> old(v)@[k].0 != number)
            && final(v)@.len() == old(v)@.len() + 1 && final(v)@.contains((number, index))
            && forall|e: (u32, u32)| #[trigger] final(v)@.contains(e) <==> (e == (number, index) || old(v)@.contains(e)),
{
    let mut pos: usize = 0;
    while pos < v.len() && v[pos].0 < number
        invariant
            pos <= v@.len(),
            numbers_sorted(v@),
            forall|k: int| 0 <= k < pos ==> v@[k].0 < number,
        decreases v@.len() - pos,
    {
        pos += 1;
    }
    if pos < v.len() && v[pos].0 == number {
        return Some(pos);
    }
    let ghost before = v@;
    v.insert(pos, (number, index));
    proof {
        assert(v@ == before.insert(pos as int, (number, index)));
        assert forall|k: int| 0 <= k < before.len() implies before[k].0 != number by {
            if k >= pos {
                assert(before[pos as int].0 > number);
            }
        }
        assert forall|i: int, j: int| 0 <= i < j < v@.len() implies v@[i].0 < v@[j].0 by {
            if j < pos {
            } else if i < pos && j == pos {
            } else if i < pos {
                assert(v@[j] == before[j - 1]);
            } else if i == pos {
                assert(v@[j] == before[j - 1]);
                assert(before[pos as int].0 > number || j - 1 == pos);
                if j - 1 > pos {
                    assert(before[pos as int].0 < before[j - 1].0);
                }
            } else {
                assert(v@[i] == before[i - 1]);
                assert(v@[j] == before[j - 1]);
            }
        }
        assert(v@[pos as int] == (number, index));
        assert forall|e: (u32, u32)| #[trigger] v@.contains(e) <==> (e == (number, index) || before.contains(e)) by {
            if v@.contains(e) {
                let k = choose|k: int| 0 <= k < v@.len() && v@[k] == e;
                if k < pos {
                    assert(before[k] == e);
                } else if k > pos {
                    assert(before[k - 1] == e);
                }
            }
            if before.contains(e) {
                let k = choose|k: int| 0 <= k < before.len() && before[k] == e;
                if k < pos {
                    assert(v@[k] == e);
                } else {
                    assert(v@[k + 1] == e);
                }
            }
        }
    }
    None
}

/// The cardinality a field label gives; unset or unknown labels are optional.
pub open spec fn spec_cardinality(label: Option<i32>) -> crate::kind::Cardinality {
    match label {
        Some(l) => if l == crate::types::LABEL_REQUIRED {
            crate::kind::Cardinality::Required
        } else if l == crate::types::LABEL_REPEATED {
            crate::kind::Cardinality::Repeated
        } else {
            crate::kind::Cardinality::Optional
        },
        None => crate::kind::Cardinality::Optional,
    }
}

/// The cardinality a field label gives.
pub fn cardinality_of(label: Option<i32>) -> (r: crate::kind::Cardinality)
    ensures
        r == spec_cardinality(label),
{
    match label {
        Some(l) => if l == crate::types::LABEL_REQUIRED {
            crate::kind::Cardinality::Required
        } else if l == crate::types::LABEL_REPEATED {
            crate::kind::Cardinality::Repeated
        } else {
            crate::kind::Cardinality::Optional
        },
        None => crate::kind::Cardinality::Optional,
    }
}

/// The JSON name of a field: the one it gives, or the one derived from its name.
pub open spec fn spec_json_name(field: crate::types::FieldDescriptorProto) -> Seq<char> {
    match field.json_name {
        Some(j) => j@,
        None => crate::names::json_name_of(opt_str(field.name)),
    }
}

/// Whether a repeated field is packed: its type must allow it, and its
/// `packed` option says so; without options, proto3 packs and proto2 does not.
pub open spec fn spec_is_packed(
    cardinality: crate::kind::Cardinality,
    kind: KindIndex,
    options: Option<crate::types::Options>,
    syntax: crate::kind::Syntax,
) -> bool {
    cardinality == crate::kind::Cardinality::Repeated && kind.spec_is_packable() && match options {
        Some(o) => crate::types::opt_bool(o.packed),
        None => syntax == crate::kind::Syntax::Proto3,
    }
}

/// Whether a field tracks presence: proto3 `optional` fields, fields of a
/// oneof, and singular message fields or proto2 fields.
pub open spec fn spec_supports_presence(
    field: crate::types::FieldDescriptorProto,
    cardinality: crate::kind::Cardinality,
    kind: KindIndex,
    syntax: crate::kind::Syntax,
) -> bool {
    crate::types::opt_bool(field.proto3_optional) || field.oneof_index is Some || (cardinality
        != crate::kind::Cardinality::Repeated && (kind.spec_is_message() || syntax
        == crate::kind::Syntax::Proto2))
}

/// Whether a field number is outside the valid range `1..=536870911`, or in
/// the range `19000..=19999` reserved for the protobuf implementation.
pub open spec fn invalid_field_number(n: i32) -> bool {
    n < 1 || n > 536870911 || (19000 <= n && n <= 19999)
}

} // verus!

verus! {

/// Whether `f` is the field built for the field `field` visited at `path`
/// in file `file` under the full name `full`, with kind `kind`.
pub open spec fn field_built(
    f: crate::pool::FieldDescriptorInner,
    file: int,
    path: Seq<i32>,
    full: Seq<char>,
    field: crate::types::FieldDescriptorProto,
    kind: KindIndex,
    syntax: crate::kind::Syntax,
) -> bool {
    let cardinality = spec_cardinality(field.label);
    &&& f.id.file == file
    &&& f.id.path@ == path
    &&& f.id.full_name@ == full
    &&& f.id.name@ == opt_str(field.name)
    &&& f.number == crate::types::opt_i32(field.number) as u32
    &&& f.json_name@ == spec_json_name(field)
    &&& f.kind == kind
    &&& f.cardinality == cardinality
    &&& f.is_packed == spec_is_packed(cardinality, kind, field.options, syntax)
    &&& f.supports_presence == spec_supports_presence(field, cardinality, kind, syntax)
}

/// The JSON name of a field.
fn json_name(field: &crate::types::FieldDescriptorProto) -> (r: String)
    ensures
        r@ == spec_json_name(*field),
{
    match &field.json_name {
        Some(j) => crate::text::to_owned_string(j.as_str()),
        None => crate::names::to_json_name(field.name()),
    }
}

/// Builds a field of kind `kind`; its oneof is set apart.
fn build_field(
    file: u32,
    path: &Vec<i32>,
    full: &Vec<char>,
    field: &crate::types::FieldDescriptorProto,
    kind: KindIndex,
    syntax: crate::kind::Syntax,
) -> (r: crate::pool::FieldDescriptorInner)
    ensures
        field_built(r, file as int, path@, full@, *field, kind, syntax),
        r.oneof is None,
{
    let cardinality = cardinality_of(field.label);
    let is_packed = cardinality == crate::kind::Cardinality::Repeated && kind.is_packable() && match &field.options {
        Some(o) => match o.packed {
            Some(b) => b,
            None => false,
        },
        None => syntax == crate::kind::Syntax::Proto3,
    };
    let supports_presence = field.proto3_optional() || field.oneof_index.is_some() || (cardinality
        != crate::kind::Cardinality::Repeated && (kind.is_message() || syntax == crate::kind::Syntax::Proto2));
    crate::pool::FieldDescriptorInner {
        id: crate::pool::Identity::new(
            file,
            crate::visit::clone_path(path),
            crate::text::string_from_chars(full),
            crate::text::to_owned_string(field.name()),
        ),
        number: field.number() as u32,
        json_name: json_name(field),
        kind,
        oneof: None,
        is_packed,
        supports_presence,
        cardinality,
    }
}

/// The scope a definition named `name` with full name `full` is in.
fn enclosing_scope_exec(full: &Vec<char>, name: &str) -> (r: Vec<char>)
    ensures
        r@ == crate::collect::enclosing_scope(full@, name@),
{
    let n = crate::text::chars_of(name);
    if full.len() > n.len() {
        let mut r: Vec<char> = Vec::new();
        let m = full.len() - n.len() - 1;
        let mut i: usize = 0;
        while i < m
            invariant
                i <= m < full@.len(),
                r@ == full@.take(i as int),
            decreases m - i,
        {
            r.push(full[i]);
            proof {
                assert(full@.take(i + 1) =~= full@.take(i as int).push(full@[i as int]));
            }
            i += 1;
        }
        r
    } else {
        Vec::new()
    }
}

/// Reports a field number outside the valid range.
fn check_field_number(
    files: &Vec<FileDescriptorInner>,
    file: u32,
    path: &Vec<i32>,
    number: i32,
    errors: &mut Vec<DescriptorErrorKind>,
)
    requires
        file < files@.len(),
    ensures
        final(errors)@.len() >= old(errors)@.len(),
        final(errors)@.take(old(errors)@.len() as int) == old(errors)@,
        (final(errors)@.len() > old(errors)@.len()) == invalid_field_number(number),
{
    let ghost e0 = errors@;
    if number < 1 || number > 536870911 || (19000 <= number && number <= 19999) {
        let found = Label::new(files, file, crate::collect::path_with1(path, tag::FIELD_NUMBER));
        errors.push(DescriptorErrorKind::InvalidFieldNumber { number, found });
    }
    proof {
        assert(errors@.take(e0.len() as int) =~= e0);
    }
}

/// Adds a built field to a message: records its number, reporting a number
/// used twice, and its oneof, reporting an index that names no oneof.
fn add_field_to_message(
    msg: &mut crate::pool::MessageDescriptorInner,
    built: crate::pool::FieldDescriptorInner,
    oneof_index: Option<i32>,
    files: &Vec<FileDescriptorInner>,
    file: u32,
    path: &Vec<i32>,
    errors: &mut Vec<DescriptorErrorKind>,
    bound: Ghost<crate::visit::Counts>,
)
    requires
        file < files@.len(),
        numbers_sorted(old(msg).field_numbers@),
        numbers_name_fields(*old(msg)),
        crate::wf::message_ok(*old(msg), bound@),
        crate::wf::kind_index_below(built.kind, bound@),
    ensures
        final(errors)@.len() >= old(errors)@.len(),
        final(errors)@.take(old(errors)@.len() as int) == old(errors)@,
        numbers_sorted(final(msg).field_numbers@),
        numbers_name_fields(*final(msg)),
        crate::wf::message_ok(*final(msg), bound@),
        final(msg).id == old(msg).id,
        final(msg).parent == old(msg).parent,
        final(msg).extensions == old(msg).extensions,
        final(msg).fields@.len() == old(msg).fields@.len() + 1,
        final(msg).fields@.drop_last() == old(msg).fields@,
        final(msg).fields@.last().id == built.id,
        final(msg).fields@.last().number == built.number,
        final(msg).fields@.last().json_name == built.json_name,
        final(msg).fields@.last().kind == built.kind,
        final(msg).fields@.last().cardinality == built.cardinality,
        final(msg).fields@.last().is_packed == built.is_packed,
        final(msg).fields@.last().supports_presence == built.supports_presence,
{
    let ghost e0 = errors@;
    let ghost m0 = *msg;
    let mut built = built;
    let position = msg.fields.len() as u32;
    built.oneof = None;
    match oneof_index {
        Some(o) => {
            if o >= 0 && (o as usize) < msg.oneofs.len() {
                msg.oneofs[o as usize].fields.push(position);
                built.oneof = Some(o as u32);
            } else {
                errors.push(DescriptorErrorKind::InvalidOneofIndex);
            }
        },
        None => {},
    }
    let number = built.number;
    let ghost before_numbers = msg.field_numbers@;
    // A message cannot hold more fields than `u32` counts; past that, a
    // number could not name its field.
    let registered = if msg.fields.len() < u32::MAX as usize {
        insert_number(&mut msg.field_numbers, number, position)
    } else {
        None
    };
    match registered {
        Some(pos) => {
            let first_index = msg.field_numbers[pos].1;
            let second = Label::new(files, file, crate::collect::path_with1(path, tag::FIELD_NUMBER));
            let first = if (first_index as usize) < msg.fields.len() {
                let first_id = &msg.fields[first_index as usize].id;
                if first_id.file < files.len() as u32 {
                    Label::new(files, first_id.file, crate::collect::path_with1(&first_id.path, tag::FIELD_NUMBER))
                } else {
                    Label::new(files, file, crate::collect::path_with1(path, tag::FIELD_NUMBER))
                }
            } else {
                Label::new(files, file, crate::collect::path_with1(path, tag::FIELD_NUMBER))
            };
            errors.push(DescriptorErrorKind::DuplicateFieldNumber { number, first, second });
        },
        None => {},
    }
    let ghost before_fields = msg.fields@;
    msg.fields.push(built);
    proof {
        assert(errors@.take(e0.len() as int) =~= e0) by {
            if errors@.len() > e0.len() {
                assert(errors@.take(e0.len() as int) =~= errors@.drop_last().take(e0.len() as int));
            }
        }
        assert(position as int <= before_fields.len());
        assert(msg.fields@.drop_last() =~= before_fields);
        assert forall|k: int| 0 <= k < msg.field_numbers@.len() implies (#[trigger] msg.field_numbers@[k]).1 < msg.fields@.len()
            && msg.fields@[msg.field_numbers@[k].1 as int].number == msg.field_numbers@[k].0 by {
            let e = msg.field_numbers@[k];
            assert(msg.field_numbers@.contains(e));
            if before_numbers.contains(e) {
                let w = choose|w: int| 0 <= w < before_numbers.len() && before_numbers[w] == e;
                assert(m0.field_numbers@[w] == e);
                assert(msg.fields@[e.1 as int] == before_fields[e.1 as int]);
            } else {
                assert(e == (number, position));
                assert(position as int == before_fields.len());
                assert(msg.fields@[position as int] == built);
            }
        }
        assert forall|k1: int, k2: int| 0 <= k1 < k2 < msg.field_numbers@.len() implies (
        #[trigger] msg.field_numbers@[k1]).1 != (#[trigger] msg.field_numbers@[k2]).1 by {
            let e1 = msg.field_numbers@[k1];
            let e2 = msg.field_numbers@[k2];
            assert(e1.0 < e2.0);
            assert(msg.field_numbers@.contains(e1));
            assert(msg.field_numbers@.contains(e2));
            if before_numbers.contains(e1) && before_numbers.contains(e2) {
                let w1 = choose|w: int| 0 <= w < before_numbers.len() && before_numbers[w] == e1;
                let w2 = choose|w: int| 0 <= w < before_numbers.len() && before_numbers[w] == e2;
                assert(m0.field_numbers@[w1] == e1);
                assert(m0.field_numbers@[w2] == e2);
                if w1 < w2 {
                    assert(m0.field_numbers@[w1].1 != m0.field_numbers@[w2].1);
                } else {
                    assert(m0.field_numbers@[w2].1 != m0.field_numbers@[w1].1);
                }
            } else if before_numbers.contains(e1) {
                let w1 = choose|w: int| 0 <= w < before_numbers.len() && before_numbers[w] == e1;
                assert(m0.field_numbers@[w1] == e1);
                assert(e2 == (number, position));
                assert(position as int == before_fields.len());
            } else {
                assert(e1 == (number, position));
                assert(position as int == before_fields.len());
                let w2 = choose|w: int| 0 <= w < before_numbers.len() && before_numbers[w] == e2;
                assert(m0.field_numbers@[w2] == e2);
            }
        }
        assert forall|k: int| 0 <= k < msg.fields@.len() implies crate::wf::kind_index_below(#[trigger] msg.fields@[k].kind, bound@)
            && (msg.fields@[k].oneof matches Some(o) ==> o < msg.oneofs@.len()) by {
            if k < before_fields.len() {
                assert(msg.fields@[k] == m0.fields@[k]);
            }
        }
        assert forall|o: int, k: int| 0 <= o < msg.oneofs@.len() && 0 <= k < msg.oneofs@[o].fields@.len() implies #[trigger] msg.oneofs@[o].fields@[k]
            < msg.fields@.len() by {
            if k < m0.oneofs@[o].fields@.len() {
                if let Some(x) = oneof_index {
                    if x >= 0 && x < m0.oneofs@.len() && o == x {
                        assert(msg.oneofs@[o].fields@[k] == m0.oneofs@[o].fields@[k]);
                    } else {
                        assert(msg.oneofs@[o] == m0.oneofs@[o]);
                    }
                } else {
                    assert(msg.oneofs@[o] == m0.oneofs@[o]);
                }
            }
        }
    }
}

/// Resolves and checks a field of message `message` visited at `path` in
/// file `file` under the full name `full`, and adds it to its message.
pub(crate) fn link_field(
    names: &Vec<NameEntry>,
    files: &Vec<FileDescriptorInner>,
    messages: &mut Vec<crate::pool::MessageDescriptorInner>,
    errors: &mut Vec<DescriptorErrorKind>,
    file: u32,
    path: &Vec<i32>,
    full: &Vec<char>,
    message: u32,
    index: u32,
    field: &crate::types::FieldDescriptorProto,
    bound: Ghost<crate::visit::Counts>,
)
    requires
        file < files@.len(),
        crate::collect::defs_in_files(names@, files@.len() as int),
        crate::wf::names_ok(names@, bound@),
        message < old(messages)@.len() ==> numbers_sorted(old(messages)@[message as int].field_numbers@),
        message < old(messages)@.len() ==> numbers_name_fields(old(messages)@[message as int]),
        message < old(messages)@.len() ==> crate::wf::message_ok(old(messages)@[message as int], bound@),
    ensures
        final(errors)@.len() >= old(errors)@.len(),
        final(errors)@.take(old(errors)@.len() as int) == old(errors)@,
        spec_field_kind(
            files@[file as int].transitive_dependencies@,
            names@,
            crate::collect::enclosing_scope(full@, opt_str(field.name)),
            *field,
        ) is None ==> final(errors)@.len() > old(errors)@.len(),
        invalid_field_number(crate::types::opt_i32(field.number)) ==> final(errors)@.len() > old(errors)@.len(),
        final(messages)@.len() == old(messages)@.len(),
        forall|j: int| 0 <= j < old(messages)@.len() && j != message ==> #[trigger] final(messages)@[j] == old(messages)@[j],
        message < old(messages)@.len() ==> numbers_sorted(final(messages)@[message as int].field_numbers@),
        message < old(messages)@.len() ==> numbers_name_fields(final(messages)@[message as int]),
        message < old(messages)@.len() ==> crate::wf::message_ok(final(messages)@[message as int], bound@),
        message < old(messages)@.len() ==> final(messages)@[message as int].id == old(messages)@[message as int].id,
        message < old(messages)@.len() ==> fields_extend(old(messages)@[message as int], final(messages)@[message as int]),
        message < old(messages)@.len() ==> (match spec_field_kind(
            files@[file as int].transitive_dependencies@,
            names@,
            crate::collect::enclosing_scope(full@, opt_str(field.name)),
            *field,
        ) {
            Some(k) => final(messages)@[message as int].fields@.len() == old(messages)@[message as int].fields@.len() + 1
                && field_built(final(messages)@[message as int].fields@.last(), file as int, path@, full@, *field, k, files@[file as int].syntax),
            None => final(messages)@[message as int] == old(messages)@[message as int],
        }),
{
    let ghost e0 = errors@;
    let scope = enclosing_scope_exec(full, field.name());
    let kind = field_kind(&files[file as usize].transitive_dependencies, names, files, &scope, field, file, path, errors);
    proof {
        lemma_field_kind_below(files@[file as int].transitive_dependencies@, names@, scope@, *field, bound@);
    }
    let ghost e1 = errors@;
    check_field_number(files, file, path, field.number(), errors);
    proof {
        assert(errors@.take(e0.len() as int) =~= errors@.take(e1.len() as int).take(e0.len() as int));
    }
    if (message as usize) < messages.len() {
        match kind {
            Some(k) => {
                let built = build_field(file, path, full, field, k, files[file as usize].syntax);
                let ghost e2 = errors@;
                let ghost fo = messages@[message as int].fields@;
                add_field_to_message(&mut messages[message as usize], built, field.oneof_index, files, file, path, errors, bound);
                proof {
                    assert(errors@.take(e0.len() as int) =~= errors@.take(e2.len() as int).take(e0.len() as int));
                    assert(messages@[message as int].fields@.take(fo.len() as int) =~= messages@[message as int].fields@.drop_last());
                }
            },
            None => {
                proof {
                    let fs = messages@[message as int].fields@;
                    assert(fs.take(fs.len() as int) =~= fs);
                }
            },
        }
    }
}

} // verus!

verus! {

/// The message a name used in `scope` resolves to, if it resolves to a message.
pub open spec fn spec_message_ref(
    deps: Seq<u32>,
    names: Seq<NameEntry>,
    scope: Seq<char>,
    name: Seq<char>,
) -> Option<u32> {
    match crate::resolve::resolve(deps, names, scope, name, crate::resolve::ResolveNameFilter::Message) {
        crate::resolve::Resolution::Found { index, .. } => match names[index].def.kind {
            DefinitionKind::Message(m) => Some(m),
            _ => None,
        },
        _ => None,
    }
}

/// Resolves a reference to a message type at `path1` + `path2` in file
/// `file`, reporting it if it does not resolve to a message.
pub fn message_ref(
    deps: &Vec<u32>,
    names: &Vec<NameEntry>,
    files: &Vec<FileDescriptorInner>,
    scope: &Vec<char>,
    name: &str,
    file: u32,
    path1: &Vec<i32>,
    path2: &Vec<i32>,
    errors: &mut Vec<DescriptorErrorKind>,
) -> (r: Option<u32>)
    requires
        file < files@.len(),
        crate::collect::defs_in_files(names@, files@.len() as int),
    ensures
        r == spec_message_ref(deps@, names@, scope@, name@),
        final(errors)@.len() >= old(errors)@.len(),
        final(errors)@.take(old(errors)@.len() as int) == old(errors)@,
        r is None ==> final(errors)@.len() > old(errors)@.len(),
        r is Some ==> final(errors)@ == old(errors)@,
{
    let ghost e0 = errors@;
    proof {
        assert(e0.take(e0.len() as int) =~= e0);
    }
    let chars = crate::text::chars_of(name);
    let res = crate::resolve::resolve_name(deps, names, scope, &chars, crate::resolve::ResolveNameFilter::Message);
    proof {
        crate::resolve::lemma_resolution_sound(deps@, names@, scope@, chars@, crate::resolve::ResolveNameFilter::Message);
    }
    match res.into_result(&chars, files, names, file, path1, path2) {
        Ok((_, index)) => match names[index].def.kind {
            DefinitionKind::Message(m) => Some(m),
            _ => {
                proof {
                    assert(false);
                }
                None
            },
        },
        Err(e) => {
            errors.push(e);
            proof {
                assert(errors@.take(e0.len() as int) =~= e0);
            }
            None
        },
    }
}

/// `[full]`, the JSON name of an extension.
fn bracketed(full: &Vec<char>) -> (r: String)
    ensures
        r@ == seq!['['] + full@ + seq![']'],
{
    let mut s = String::new();
    crate::text::push_char(&mut s, '[');
    crate::text::push_chars(&mut s, full);
    crate::text::push_char(&mut s, ']');
    proof {
        assert(s@ =~= seq!['['] + full@ + seq![']']);
    }
    s
}

/// Whether `e` is the extension built for the extension `field` visited at
/// `path` in file `file` under the full name `full`.
pub open spec fn extension_built(
    e: crate::pool::ExtensionDescriptorInner,
    file: int,
    path: Seq<i32>,
    full: Seq<char>,
    parent: Option<u32>,
    field: crate::types::FieldDescriptorProto,
    kind: KindIndex,
    extendee: u32,
    syntax: crate::kind::Syntax,
) -> bool {
    let cardinality = spec_cardinality(field.label);
    &&& e.id.file == file
    &&& e.id.path@ == path
    &&& e.id.full_name@ == full
    &&& e.id.name@ == opt_str(field.name)
    &&& e.parent == parent
    &&& e.number == crate::types::opt_i32(field.number) as u32
    &&& e.json_name@ == seq!['['] + full + seq![']']
    &&& e.extendee == extendee
    &&& e.kind == kind
    &&& e.cardinality == cardinality
    &&& e.is_packed == spec_is_packed(cardinality, kind, field.options, syntax)
}

/// Resolves and checks an extension visited at `path` in file `file` under
/// the full name `full`; adds it to the pool and to its extendee's extensions.
pub(crate) fn link_extension(
    names: &Vec<NameEntry>,
    files: &Vec<FileDescriptorInner>,
    messages: &mut Vec<crate::pool::MessageDescriptorInner>,
    extensions: &mut Vec<crate::pool::ExtensionDescriptorInner>,
    errors: &mut Vec<DescriptorErrorKind>,
    file: u32,
    path: &Vec<i32>,
    full: &Vec<char>,
    parent: Option<u32>,
    index: u32,
    field: &crate::types::FieldDescriptorProto,
    bound: Ghost<crate::visit::Counts>,
)
    requires
        file < files@.len(),
        crate::collect::defs_in_files(names@, files@.len() as int),
        crate::wf::names_ok(names@, bound@),
        file < bound@.file,
        crate::wf::parent_below(parent, bound@),
        index < bound@.extension,
        forall|j: int| 0 <= j < old(messages)@.len() ==> crate::wf::message_ok(#[trigger] old(messages)@[j], bound@),
        forall|j: int| 0 <= j < old(extensions)@.len() ==> crate::wf::extension_ok(#[trigger] old(extensions)@[j], bound@),
    ensures
        forall|j: int| 0 <= j < final(messages)@.len() ==> crate::wf::message_ok(#[trigger] final(messages)@[j], bound@),
        forall|j: int| 0 <= j < final(extensions)@.len() ==> crate::wf::extension_ok(#[trigger] final(extensions)@[j], bound@),
        final(errors)@.len() >= old(errors)@.len(),
        final(errors)@.take(old(errors)@.len() as int) == old(errors)@,
        ({
            let deps = files@[file as int].transitive_dependencies@;
            let scope = crate::collect::enclosing_scope(full@, opt_str(field.name));
            match (spec_field_kind(deps, names@, scope, *field), spec_message_ref(deps, names@, scope, opt_str(field.extendee))) {
                (Some(k), Some(m)) => final(extensions)@.len() == old(extensions)@.len() + 1
                    && final(extensions)@.drop_last() == old(extensions)@
                    && extension_built(final(extensions)@.last(), file as int, path@, full@, parent, *field, k, m, files@[file as int].syntax),
                _ => final(errors)@.len() > old(errors)@.len() && final(extensions)@ == old(extensions)@,
            }
        }),
        invalid_field_number(crate::types::opt_i32(field.number)) ==> final(errors)@.len() > old(errors)@.len(),
        final(messages)@.len() == old(messages)@.len(),
        forall|j: int| 0 <= j < old(messages)@.len() ==> (#[trigger] final(messages)@[j]).fields == old(messages)@[j].fields
            && final(messages)@[j].field_numbers == old(messages)@[j].field_numbers
            && final(messages)@[j].oneofs == old(messages)@[j].oneofs
            && final(messages)@[j].id == old(messages)@[j].id
            && final(messages)@[j].parent == old(messages)@[j].parent
            && (final(messages)@[j].extensions@ == old(messages)@[j].extensions@
                || final(messages)@[j].extensions@ == old(messages)@[j].extensions@.push(index)),
        final(extensions)@.len() >= old(extensions)@.len(),
        final(extensions)@.take(old(extensions)@.len() as int) == old(extensions)@,
{
    let ghost e0 = errors@;
    let scope = enclosing_scope_exec(full, field.name());
    let deps = &files[file as usize].transitive_dependencies;
    let kind = field_kind(deps, names, files, &scope, field, file, path, errors);
    let ghost e1 = errors@;
    let extendee_path = crate::collect::single_path(tag::FIELD_EXTENDEE);
    let extendee = message_ref(deps, names, files, &scope, field.extendee(), file, path, &extendee_path, errors);
    proof {
        lemma_field_kind_below(files@[file as int].transitive_dependencies@, names@, scope@, *field, bound@);
        lemma_message_ref_below(files@[file as int].transitive_dependencies@, names@, scope@, opt_str(field.extendee), bound@);
    }
    let ghost e2 = errors@;
    check_field_number(files, file, path, field.number(), errors);
    proof {
        assert(e2.take(e0.len() as int) =~= e2.take(e1.len() as int).take(e0.len() as int));
        assert(errors@.take(e0.len() as int) =~= errors@.take(e2.len() as int).take(e0.len() as int));
    }
    match (kind, extendee) {
        (Some(k), Some(m)) => {
            let built = build_field(file, path, full, field, k, files[file as usize].syntax);
            let ext = crate::pool::ExtensionDescriptorInner {
                id: built.id,
                parent,
                number: built.number,
                json_name: bracketed(full),
                extendee: m,
                kind: k,
                is_packed: built.is_packed,
                cardinality: built.cardinality,
            };
            let ghost before = extensions@;
            extensions.push(ext);
            if (m as usize) < messages.len() {
                messages[m as usize].extensions.push(index);
            }
            proof {
                assert(extensions@.drop_last() =~= before);
                assert(extensions@.take(before.len() as int) =~= before);
                assert forall|j: int| 0 <= j < extensions@.len() implies crate::wf::extension_ok(#[trigger] extensions@[j], bound@) by {
                    if j < before.len() {
                        assert(extensions@[j] == before[j]);
                    }
                }
                assert forall|j: int| 0 <= j < messages@.len() implies crate::wf::message_ok(#[trigger] messages@[j], bound@) by {
                    let m0 = old(messages)@[j];
                    let m1 = messages@[j];
                    assert(crate::wf::message_ok(m0, bound@));
                    assert forall|k: int| 0 <= k < m1.extensions@.len() implies #[trigger] m1.extensions@[k] < bound@.extension by {
                        if k < m0.extensions@.len() {
                            assert(m1.extensions@[k] == m0.extensions@[k]);
                        }
                    }
                }
            }
        },
        _ => {
            proof {
                assert(extensions@.take(extensions@.len() as int) =~= extensions@);
            }
        },
    }
}

/// Whether `s` is the service built for a service visited at `path` in file
/// `file` under the full name `full`.
pub open spec fn service_built(
    s: crate::pool::ServiceDescriptorInner,
    file: int,
    path: Seq<i32>,
    full: Seq<char>,
    service: crate::types::ServiceDescriptorProto,
) -> bool {
    &&& s.id.file == file
    &&& s.id.path@ == path
    &&& s.id.full_name@ == full
    &&& s.id.name@ == opt_str(service.name)
    &&& s.methods@.len() == 0
}

/// Builds a service, without its methods yet.
pub fn build_service(
    file: u32,
    path: &Vec<i32>,
    full: &Vec<char>,
    service: &crate::types::ServiceDescriptorProto,
) -> (r: crate::pool::ServiceDescriptorInner)
    ensures
        service_built(r, file as int, path@, full@, *service),
        r.id.file == file,
{
    crate::pool::ServiceDescriptorInner {
        id: crate::pool::Identity::new(
            file,
            crate::visit::clone_path(path),
            crate::text::string_from_chars(full),
            crate::text::to_owned_string(service.name()),
        ),
        methods: Vec::new(),
    }
}

/// Whether `m` is the method built for a method visited at `path` in file
/// `file` under the full name `full`, with the given input and output.
pub open spec fn method_built(
    m: crate::pool::MethodDescriptorInner,
    file: int,
    path: Seq<i32>,
    full: Seq<char>,
    method: crate::types::MethodDescriptorProto,
    input: u32,
    output: u32,
) -> bool {
    &&& m.id.file == file
    &&& m.id.path@ == path
    &&& m.id.full_name@ == full
    &&& m.id.name@ == opt_str(method.name)
    &&& m.input == input
    &&& m.output == output
}

/// Resolves the input and output types of a method of service `service`
/// visited at `path` in file `file`, and adds it to its service.
pub(crate) fn link_method(
    names: &Vec<NameEntry>,
    files: &Vec<FileDescriptorInner>,
    services: &mut Vec<crate::pool::ServiceDescriptorInner>,
    errors: &mut Vec<DescriptorErrorKind>,
    file: u32,
    path: &Vec<i32>,
    full: &Vec<char>,
    service: u32,
    method: &crate::types::MethodDescriptorProto,
    bound: Ghost<crate::visit::Counts>,
)
    requires
        file < files@.len(),
        crate::collect::defs_in_files(names@, files@.len() as int),
        crate::wf::names_ok(names@, bound@),
        forall|j: int| 0 <= j < old(services)@.len() ==> crate::wf::service_ok(#[trigger] old(services)@[j], bound@),
    ensures
        forall|j: int| 0 <= j < final(services)@.len() ==> crate::wf::service_ok(#[trigger] final(services)@[j], bound@),
        final(errors)@.len() >= old(errors)@.len(),
        final(errors)@.take(old(errors)@.len() as int) == old(errors)@,
        final(services)@.len() == old(services)@.len(),
        forall|j: int| 0 <= j < old(services)@.len() && j != service ==> #[trigger] final(services)@[j] == old(services)@[j],
        service < old(services)@.len() ==> final(services)@[service as int].id == old(services)@[service as int].id,
        ({
            let deps = files@[file as int].transitive_dependencies@;
            let scope = crate::collect::enclosing_scope(full@, opt_str(method.name));
            match (spec_message_ref(deps, names@, scope, opt_str(method.input_type)), spec_message_ref(deps, names@, scope, opt_str(method.output_type))) {
                (Some(i), Some(o)) => service < old(services)@.len() ==> final(services)@[service as int].methods@.len()
                    == old(services)@[service as int].methods@.len() + 1 && method_built(
                    final(services)@[service as int].methods@.last(), file as int, path@, full@, *method, i, o),
                _ => final(errors)@.len() > old(errors)@.len() && final(services)@ == old(services)@,
            }
        }),
{
    let ghost e0 = errors@;
    let scope = enclosing_scope_exec(full, method.name());
    let deps = &files[file as usize].transitive_dependencies;
    let input_path = crate::collect::single_path(tag::METHOD_INPUT_TYPE);
    let input = message_ref(deps, names, files, &scope, method.input_type(), file, path, &input_path, errors);
    let ghost e1 = errors@;
    let output_path = crate::collect::single_path(tag::METHOD_OUTPUT_TYPE);
    let output = message_ref(deps, names, files, &scope, method.output_type(), file, path, &output_path, errors);
    proof {
        lemma_message_ref_below(files@[file as int].transitive_dependencies@, names@, scope@, opt_str(method.input_type), bound@);
        lemma_message_ref_below(files@[file as int].transitive_dependencies@, names@, scope@, opt_str(method.output_type), bound@);
        assert(errors@.take(e0.len() as int) =~= errors@.take(e1.len() as int).take(e0.len() as int));
    }
    match (input, output) {
        (Some(i), Some(o)) => {
            if (service as usize) < services.len() {
                let m = crate::pool::MethodDescriptorInner {
                    id: crate::pool::Identity::new(
                        file,
                        crate::visit::clone_path(path),
                        crate::text::string_from_chars(full),
                        crate::text::to_owned_string(method.name()),
                    ),
                    input: i,
                    output: o,
                };
                let ghost s0 = services@;
                services[service as usize].methods.push(m);
                proof {
                    assert forall|j: int| 0 <= j < services@.len() implies crate::wf::service_ok(#[trigger] services@[j], bound@) by {
                        if j != service {
                            assert(services@[j] == s0[j]);
                        } else {
                            let a = s0[j];
                            let b = services@[j];
                            assert(crate::wf::service_ok(a, bound@));
                            assert forall|k: int| 0 <= k < b.methods@.len() implies (#[trigger] b.methods@[k]).input < bound@.message
                                && b.methods@[k].output < bound@.message by {
                                if k < a.methods@.len() {
                                    assert(b.methods@[k] == a.methods@[k]);
                                }
                            }
                        }
                    }
                }
            }
        },
        _ => {},
    }
}

} // verus!

verus! {

/// Whether number–index pairs are ordered by number.
pub open spec fn values_sorted(v: Seq<(i32, u32)>) -> bool {
    forall|i: int, j: int| 0 <= i < j < v.len() ==> v[i].0 <= v[j].0
}

/// Whether each pair of an enum's number table names a value of the enum
/// that has that number.
pub open spec fn numbers_name_values(e: crate::pool::EnumDescriptorInner) -> bool {
    forall|k: int| 0 <= k < e.value_numbers@.len() ==> {
        let p = #[trigger] e.value_numbers@[k];
        p.1 < e.values@.len() && e.values@[p.1 as int].number == p.0
    }
}

/// Inserts `(number, index)` after the pairs with a lower or equal number;
/// without `allow_alias`, a number already there is not inserted again, and
/// the position of the pair that has it is returned.
pub fn insert_value_number(v: &mut Vec<(i32, u32)>, number: i32, index: u32, allow_alias: bool) -> (r: Option<usize>)
    requires
        values_sorted(old(v)@),
    ensures
        values_sorted(final(v)@),
        r matches Some(k) ==> !allow_alias && k < old(v)@.len() && old(v)@[k as int].0 == number && final(v)@ == old(v)@,
        r is None ==> (allow_alias || forall|k: int| 0 <= k < old(v)@.len() ==> old(v)@[k].0 != number)
            && final(v)@.len() == old(v)@.len() + 1 && final(v)@.contains((number, index))
            && forall|e: (i32, u32)| #[trigger] final(v)@.contains(e) <==> (e == (number, index) || old(v)@.contains(e)),
{
    let mut pos: usize = 0;
    while pos < v.len() && v[pos].0 <= number
        invariant
            pos <= v@.len(),
            values_sorted(v@),
            forall|k: int| 0 <= k < pos ==> v@[k].0 <= number,
        decreases v@.len() - pos,
    {
        pos += 1;
    }
    if pos > 0 && v[pos - 1].0 == number && !allow_alias {
        return Some(pos - 1);
    }
    let ghost before = v@;
    v.insert(pos, (number, index));
    proof {
        assert(v@ == before.insert(pos as int, (number, index)));
        if !allow_alias {
            assert forall|k: int| 0 <= k < before.len() implies before[k].0 != number by {
                if k >= pos {
                    assert(before[pos as int].0 > number);
                } else if k < pos - 1 {
                    assert(before[k].0 <= before[pos - 1].0);
                }
            }
        }
        assert forall|i: int, j: int| 0 <= i < j < v@.len() implies v@[i].0 <= v@[j].0 by {
            if j < pos {
            } else if i < pos && j == pos {
            } else if i < pos {
                assert(v@[j] == before[j - 1]);
                assert(before[pos as int].0 > number);
                if j - 1 > pos {
                    assert(before[pos as int].0 <= before[j - 1].0);
                }
            } else if i == pos {
                assert(v@[j] == before[j - 1]);
                assert(before[pos as int].0 > number);
                if j - 1 > pos {
                    assert(before[pos as int].0 <= before[j - 1].0);
                }
            } else {
                assert(v@[i] == before[i - 1]);
                assert(v@[j] == before[j - 1]);
            }
        }
        assert(v@[pos as int] == (number, index));
        assert forall|e: (i32, u32)| #[trigger] v@.contains(e) <==> (e == (number, index) || before.contains(e)) by {
            if v@.contains(e) {
                let k = choose|k: int| 0 <= k < v@.len() && v@[k] == e;
                if k < pos {
                    assert(before[k] == e);
                } else if k > pos {
                    assert(before[k - 1] == e);
                }
            }
            if before.contains(e) {
                let k = choose|k: int| 0 <= k < before.len() && before[k] == e;
                if k < pos {
                    assert(v@[k] == e);
                } else {
                    assert(v@[k + 1] == e);
                }
            }
        }
    }
    None
}

/// Records the number of value `index` of enum `enum_`, visited at `path` in
/// file `file`; a number used twice is reported unless the enum allows aliases.
pub(crate) fn link_enum_value(
    files: &Vec<FileDescriptorInner>,
    enums: &mut Vec<crate::pool::EnumDescriptorInner>,
    errors: &mut Vec<DescriptorErrorKind>,
    file: u32,
    path: &Vec<i32>,
    enum_: u32,
    index: u32,
    bound: Ghost<crate::visit::Counts>,
)
    requires
        file < files@.len(),
        enum_ < old(enums)@.len() ==> values_sorted(old(enums)@[enum_ as int].value_numbers@),
        enum_ < old(enums)@.len() ==> numbers_name_values(old(enums)@[enum_ as int]),
        enum_ < old(enums)@.len() ==> crate::wf::enum_ok(old(enums)@[enum_ as int], bound@),
    ensures
        enum_ < old(enums)@.len() ==> crate::wf::enum_ok(final(enums)@[enum_ as int], bound@),
        final(errors)@.len() >= old(errors)@.len(),
        final(errors)@.take(old(errors)@.len() as int) == old(errors)@,
        final(enums)@.len() == old(enums)@.len(),
        forall|j: int| 0 <= j < old(enums)@.len() && j != enum_ ==> #[trigger] final(enums)@[j] == old(enums)@[j],
        enum_ < old(enums)@.len() ==> {
            let e0 = old(enums)@[enum_ as int];
            let e1 = final(enums)@[enum_ as int];
            &&& values_sorted(e1.value_numbers@)
            &&& numbers_name_values(e1)
            &&& e1.id == e0.id && e1.values == e0.values && e1.allow_alias == e0.allow_alias && e1.parent == e0.parent
            &&& index < e0.values@.len() && (e0.allow_alias || forall|k: int| 0 <= k < e0.value_numbers@.len() ==> e0.value_numbers@[k].0
                != e0.values@[index as int].number) ==> e1.value_numbers@.contains((e0.values@[index as int].number, index))
                && final(errors)@ == old(errors)@
            &&& index < e0.values@.len() && !(e0.allow_alias || forall|k: int| 0 <= k < e0.value_numbers@.len() ==> e0.value_numbers@[k].0
                != e0.values@[index as int].number) ==> final(errors)@.len() > old(errors)@.len()
        },
{
    let ghost e0 = errors@;
    proof {
        assert(e0.take(e0.len() as int) =~= e0);
    }
    if (enum_ as usize) < enums.len() && (index as usize) < enums[enum_ as usize].values.len() {
        let number = enums[enum_ as usize].values[index as usize].number;
        let allow_alias = enums[enum_ as usize].allow_alias;
        match insert_value_number(&mut enums[enum_ as usize].value_numbers, number, index, allow_alias) {
            Some(pos) => {
                let first_index = enums[enum_ as usize].value_numbers[pos].1;
                let second = Label::new(files, file, crate::collect::path_with1(path, tag::ENUM_VALUE_NUMBER));
                let first = if (first_index as usize) < enums[enum_ as usize].values.len() {
                    let first_id = &enums[enum_ as usize].values[first_index as usize].id;
                    if first_id.file < files.len() as u32 {
                        Label::new(files, first_id.file, crate::collect::path_with1(&first_id.path, tag::ENUM_VALUE_NUMBER))
                    } else {
                        Label::new(files, file, crate::collect::path_with1(path, tag::ENUM_VALUE_NUMBER))
                    }
                } else {
                    Label::new(files, file, crate::collect::path_with1(path, tag::ENUM_VALUE_NUMBER))
                };
                errors.push(DescriptorErrorKind::DuplicateEnumNumber { number, first, second });
                proof {
                    assert(errors@.take(e0.len() as int) =~= e0);
                }
            },
            None => {
                proof {
                    let a = old(enums)@[enum_ as int];
                    let b = enums@[enum_ as int];
                    assert forall|k: int| 0 <= k < b.value_numbers@.len() implies (#[trigger] b.value_numbers@[k]).1 < b.values@.len()
                        && b.values@[b.value_numbers@[k].1 as int].number == b.value_numbers@[k].0 by {
                        let e = b.value_numbers@[k];
                        assert(b.value_numbers@.contains(e));
                        if a.value_numbers@.contains(e) {
                            let w = choose|w: int| 0 <= w < a.value_numbers@.len() && a.value_numbers@[w] == e;
                            assert(a.value_numbers@[w] == e);
                        }
                    }
                }
            },
        }
    }
}

} // verus!

verus! {

/// Whether the fields of `b` are those of `a`, perhaps followed by more.
pub open spec fn fields_extend(a: crate::pool::MessageDescriptorInner, b: crate::pool::MessageDescriptorInner) -> bool {
    &&& a.fields@.len() <= b.fields@.len()
    &&& b.fields@.take(a.fields@.len() as int) == a.fields@
}

/// Whether every field among the visits is a field of its message, built
/// from its descriptor with the syntax of its file and some resolved kind.
pub open spec fn fields_linked(
    messages: Seq<crate::pool::MessageDescriptorInner>,
    visits: Seq<crate::visit::Visit>,
    files: Seq<FileDescriptorInner>,
) -> bool {
    forall|j: int| 0 <= j < visits.len() ==> match (#[trigger] visits[j]).what {
        crate::visit::Visited::Field { message, field } => 0 <= message < messages.len() && exists|i: int, k: KindIndex|
            0 <= i < messages[message].fields@.len() && #[trigger] field_built(
                messages[message].fields@[i],
                visits[j].file,
                visits[j].path,
                visits[j].full_name,
                field,
                k,
                files[visits[j].file].syntax,
            ),
        _ => true,
    }
}

/// Whether the extension `e` is built from the visit `v` of an extension,
/// with the syntax of its file and some resolved kind and extendee.
pub open spec fn extension_from_visit(
    e: crate::pool::ExtensionDescriptorInner,
    v: crate::visit::Visit,
    files: Seq<FileDescriptorInner>,
) -> bool {
    match v.what {
        crate::visit::Visited::Extension { parent, extension } => {
            &&& crate::visit::opt_int(e.parent) == parent
            &&& exists|k: KindIndex, m: u32| #[trigger] extension_built(
                e,
                v.file,
                v.path,
                v.full_name,
                e.parent,
                extension,
                k,
                m,
                files[v.file].syntax,
            )
        },
        _ => false,
    }
}

/// Whether each extension visited is at its index in the table, built from
/// its visit.
pub open spec fn extensions_at_index(
    extensions: Seq<crate::pool::ExtensionDescriptorInner>,
    visits: Seq<crate::visit::Visit>,
    files: Seq<FileDescriptorInner>,
) -> bool {
    forall|j: int| 0 <= j < visits.len() && (#[trigger] visits[j]).what is Extension ==> 0 <= visits[j].index
        < extensions.len() && extension_from_visit(extensions[visits[j].index], visits[j], files)
}

/// Whether the service `s` has the identity of the visit `v` of a service.
pub open spec fn service_identity(s: crate::pool::ServiceDescriptorInner, v: crate::visit::Visit) -> bool {
    match v.what {
        crate::visit::Visited::Service(sp) => {
            &&& s.id.file == v.file
            &&& s.id.path@ == v.path
            &&& s.id.full_name@ == v.full_name
            &&& s.id.name@ == opt_str(sp.name)
        },
        _ => false,
    }
}

/// Whether each service visited is at its index in the table, with the
/// identity of its visit.
pub open spec fn services_at_index(services: Seq<crate::pool::ServiceDescriptorInner>, visits: Seq<crate::visit::Visit>) -> bool {
    forall|j: int| 0 <= j < visits.len() && (#[trigger] visits[j]).what is Service ==> 0 <= visits[j].index
        < services.len() && service_identity(services[visits[j].index], visits[j])
}

/// Whether `b` is the enum `a` with perhaps more value numbers recorded.
pub open spec fn enum_kept(a: crate::pool::EnumDescriptorInner, b: crate::pool::EnumDescriptorInner) -> bool {
    &&& b.id == a.id
    &&& b.values == a.values
    &&& b.allow_alias == a.allow_alias
    &&& b.parent == a.parent
}

/// Whether `b` is `a` followed by indices from `lo` on.
pub open spec fn extended_from(a: Seq<u32>, b: Seq<u32>, lo: int) -> bool {
    &&& b.len() >= a.len()
    &&& b.take(a.len() as int) == a
    &&& forall|k: int| a.len() <= k < b.len() ==> b[k] >= lo
}

/// Whether the definitions numbered below the counters `c` are kept: their
/// messages keep everything but may list more extensions, from `c.extension`
/// on; enums and services stay as they were; extensions are only added.
pub open spec fn old_kept(
    m0: Seq<crate::pool::MessageDescriptorInner>,
    m1: Seq<crate::pool::MessageDescriptorInner>,
    e0: Seq<crate::pool::EnumDescriptorInner>,
    e1: Seq<crate::pool::EnumDescriptorInner>,
    s0: Seq<crate::pool::ServiceDescriptorInner>,
    s1: Seq<crate::pool::ServiceDescriptorInner>,
    x0: Seq<crate::pool::ExtensionDescriptorInner>,
    x1: Seq<crate::pool::ExtensionDescriptorInner>,
    c: crate::visit::Counts,
) -> bool {
    &&& m1.len() == m0.len()
    &&& forall|j: int| 0 <= j < c.message && j < m0.len() ==> {
        let a = #[trigger] m0[j];
        let b = m1[j];
        &&& b.id == a.id && b.parent == a.parent && b.fields == a.fields
        &&& b.field_numbers == a.field_numbers && b.oneofs == a.oneofs
        &&& extended_from(a.extensions@, b.extensions@, c.extension)
    }
    &&& e1.len() == e0.len()
    &&& forall|j: int| 0 <= j < c.enum_ && j < e0.len() ==> #[trigger] e1[j] == e0[j]
    &&& s1.len() >= s0.len()
    &&& forall|j: int| 0 <= j < c.service && j < s0.len() ==> #[trigger] s1[j] == s0[j]
    &&& x1.len() >= x0.len()
    &&& x1.take(x0.len() as int) == x0
}

/// Keeping is transitive.
pub proof fn lemma_old_kept_trans(
    m0: Seq<crate::pool::MessageDescriptorInner>,
    m1: Seq<crate::pool::MessageDescriptorInner>,
    m2: Seq<crate::pool::MessageDescriptorInner>,
    e0: Seq<crate::pool::EnumDescriptorInner>,
    e1: Seq<crate::pool::EnumDescriptorInner>,
    e2: Seq<crate::pool::EnumDescriptorInner>,
    s0: Seq<crate::pool::ServiceDescriptorInner>,
    s1: Seq<crate::pool::ServiceDescriptorInner>,
    s2: Seq<crate::pool::ServiceDescriptorInner>,
    x0: Seq<crate::pool::ExtensionDescriptorInner>,
    x1: Seq<crate::pool::ExtensionDescriptorInner>,
    x2: Seq<crate::pool::ExtensionDescriptorInner>,
    c: crate::visit::Counts,
)
    requires
        old_kept(m0, m1, e0, e1, s0, s1, x0, x1, c),
        old_kept(m1, m2, e1, e2, s1, s2, x1, x2, c),
    ensures
        old_kept(m0, m2, e0, e2, s0, s2, x0, x2, c),
{
    assert forall|j: int| 0 <= j < c.message && j < m0.len() implies {
        let a = #[trigger] m0[j];
        let b = m2[j];
        &&& b.id == a.id && b.parent == a.parent && b.fields == a.fields
        &&& b.field_numbers == a.field_numbers && b.oneofs == a.oneofs
        &&& extended_from(a.extensions@, b.extensions@, c.extension)
    } by {
        let a = m0[j].extensions@;
        let b = m1[j].extensions@;
        let d = m2[j].extensions@;
        assert(d.take(a.len() as int) =~= d.take(b.len() as int).take(a.len() as int));
        assert forall|k: int| a.len() <= k < d.len() implies d[k] >= c.extension by {
            if k < b.len() {
                assert(d.take(b.len() as int)[k] == d[k]);
                assert(b[k] == d[k]);
            }
        }
    }
    assert(x2.take(x0.len() as int) =~= x2.take(x1.len() as int).take(x0.len() as int));
}

/// Keeping holds of unchanged tables.
pub proof fn lemma_old_kept_refl(
    m0: Seq<crate::pool::MessageDescriptorInner>,
    e0: Seq<crate::pool::EnumDescriptorInner>,
    s0: Seq<crate::pool::ServiceDescriptorInner>,
    x0: Seq<crate::pool::ExtensionDescriptorInner>,
    c: crate::visit::Counts,
)
    ensures
        old_kept(m0, m0, e0, e0, s0, s0, x0, x0, c),
{
    assert(x0.take(x0.len() as int) =~= x0);
    assert forall|j: int| 0 <= j < c.message && j < m0.len() implies extended_from(
        (#[trigger] m0[j]).extensions@,
        m0[j].extensions@,
        c.extension,
    ) by {
        assert(m0[j].extensions@.take(m0[j].extensions@.len() as int) =~= m0[j].extensions@);
    }
}

/// Whether the tables that linking fills refer only to definitions below `c`.
pub open spec fn link_state_ok(
    names: Seq<NameEntry>,
    messages: Seq<crate::pool::MessageDescriptorInner>,
    enums: Seq<crate::pool::EnumDescriptorInner>,
    services: Seq<crate::pool::ServiceDescriptorInner>,
    extensions: Seq<crate::pool::ExtensionDescriptorInner>,
    c: crate::visit::Counts,
) -> bool {
    &&& crate::wf::names_ok(names, c)
    &&& forall|j: int| 0 <= j < messages.len() ==> crate::wf::message_ok(#[trigger] messages[j], c)
    &&& forall|j: int| 0 <= j < enums.len() ==> crate::wf::enum_ok(#[trigger] enums[j], c)
    &&& forall|j: int| 0 <= j < services.len() ==> crate::wf::service_ok(#[trigger] services[j], c)
    &&& forall|j: int| 0 <= j < extensions.len() ==> crate::wf::extension_ok(#[trigger] extensions[j], c)
}

/// Whether the number tables of the messages and enums are in order.
pub open spec fn numbers_in_order(
    messages: Seq<crate::pool::MessageDescriptorInner>,
    enums: Seq<crate::pool::EnumDescriptorInner>,
) -> bool {
    &&& forall|j: int| 0 <= j < messages.len() ==> numbers_sorted(#[trigger] messages[j].field_numbers@)
    &&& forall|j: int| 0 <= j < messages.len() ==> numbers_name_fields(#[trigger] messages[j])
    &&& forall|j: int| 0 <= j < enums.len() ==> values_sorted(#[trigger] enums[j].value_numbers@)
    &&& forall|j: int| 0 <= j < enums.len() ==> numbers_name_values(#[trigger] enums[j])
}

/// Resolves what a visit refers to and adds the fields, extensions,
/// services, methods and enum values it defines to the pool.
pub(crate) fn link_event<'a>(
    names: &Vec<NameEntry>,
    files: &Vec<FileDescriptorInner>,
    messages: &mut Vec<crate::pool::MessageDescriptorInner>,
    enums: &mut Vec<crate::pool::EnumDescriptorInner>,
    services: &mut Vec<crate::pool::ServiceDescriptorInner>,
    extensions: &mut Vec<crate::pool::ExtensionDescriptorInner>,
    errors: &mut Vec<DescriptorErrorKind>,
    ev: &crate::visit::VisitEvent<'a>,
    c0: Ghost<crate::visit::Counts>,
    bound: Ghost<crate::visit::Counts>,
)
    requires
        ev.file < files@.len(),
        crate::collect::defs_in_files(names@, files@.len() as int),
        numbers_in_order(old(messages)@, old(enums)@),
        crate::visit::visit_above(ev@, c0@),
        crate::visit::visit_below(ev@, bound@),
        link_state_ok(names@, old(messages)@, old(enums)@, old(services)@, old(extensions)@, bound@),
    ensures
        link_state_ok(names@, final(messages)@, final(enums)@, final(services)@, final(extensions)@, bound@),
        forall|j: int| 0 <= j < old(messages)@.len() ==> (#[trigger] final(messages)@[j]).id == old(messages)@[j].id,
        forall|j: int| 0 <= j < old(enums)@.len() ==> enum_kept(old(enums)@[j], #[trigger] final(enums)@[j]),
        final(services)@.len() == old(services)@.len() + if ev.what is Service { 1int } else { 0int },
        !(ev.what is Extension) ==> final(extensions)@.len() == old(extensions)@.len(),
        ev.what is Extension && final(errors)@.len() == old(errors)@.len() ==> final(extensions)@.len() == old(extensions)@.len() + 1,
        final(errors)@.len() >= old(errors)@.len(),
        final(errors)@.take(old(errors)@.len() as int) == old(errors)@,
        final(messages)@.len() == old(messages)@.len(),
        final(enums)@.len() == old(enums)@.len(),
        numbers_in_order(final(messages)@, final(enums)@),
        old_kept(old(messages)@, final(messages)@, old(enums)@, final(enums)@, old(services)@, final(services)@, old(extensions)@, final(extensions)@, c0@),
        ev.what is File || ev.what is Message || ev.what is Service ==> final(errors)@ == old(errors)@,
        forall|j: int| 0 <= j < old(messages)@.len() ==> fields_extend(old(messages)@[j], #[trigger] final(messages)@[j]),
        !(ev.what is Extension) ==> final(extensions)@ == old(extensions)@,
        ev.what is Extension && final(errors)@.len() == old(errors)@.len() ==> final(extensions)@.drop_last() == old(
            extensions,
        )@ && extension_from_visit(final(extensions)@.last(), ev@, files@),
        match ev.what {
            crate::visit::VisitedRef::Field { message, field } => final(errors)@.len() == old(errors)@.len() && message
                < old(messages)@.len() ==> final(messages)@[message as int].fields@.len() > 0 && exists|k: KindIndex|
                #[trigger] field_built(
                    final(messages)@[message as int].fields@.last(),
                    ev.file as int,
                    ev.path@,
                    ev.full_name@,
                    *field,
                    k,
                    files@[ev.file as int].syntax,
                ),
            _ => true,
        },
        forall|j: int| 0 <= j < old(services)@.len() ==> (#[trigger] final(services)@[j]).id == old(services)@[j].id,
        ev.what matches crate::visit::VisitedRef::Service(s) ==> service_built(
            final(services)@.last(),
            ev.file as int,
            ev.path@,
            ev.full_name@,
            *s,
        ),
{
    let ghost e0 = errors@;
    let ghost m0 = messages@;
    let ghost en0 = enums@;
    let ghost s0 = services@;
    let ghost x0 = extensions@;
    proof {
        assert(e0.take(e0.len() as int) =~= e0);
        lemma_old_kept_refl(m0, en0, s0, x0, c0@);
    }
    match &ev.what {
        crate::visit::VisitedRef::Field { message, field } => {
            link_field(names, files, messages, errors, ev.file, &ev.path, &ev.full_name, *message, ev.index, field, bound);
            proof {
                assert forall|j: int| 0 <= j < messages@.len() implies crate::wf::message_ok(#[trigger] messages@[j], bound@) by {
                    if j != *message {
                        assert(messages@[j] == m0[j]);
                    }
                }
                assert forall|j: int| 0 <= j < messages@.len() implies numbers_sorted(#[trigger] messages@[j].field_numbers@) by {
                    if j != *message {
                        assert(messages@[j] == m0[j]);
                    }
                }
                assert forall|j: int| 0 <= j < messages@.len() implies numbers_name_fields(#[trigger] messages@[j]) by {
                    if j != *message {
                        assert(messages@[j] == m0[j]);
                    }
                }
                assert forall|j: int| 0 <= j < c0@.message && j < m0.len() implies #[trigger] messages@[j] == m0[j] by {}
                lemma_old_kept_refl(m0, en0, s0, x0, c0@);
            }
        },
        crate::visit::VisitedRef::Extension { parent, extension } => {
            link_extension(names, files, messages, extensions, errors, ev.file, &ev.path, &ev.full_name, *parent, ev.index, extension, bound);
            proof {
                if errors@.len() == e0.len() {
                    let deps = files@[ev.file as int].transitive_dependencies@;
                    let scope = crate::collect::enclosing_scope(ev.full_name@, opt_str(extension.name));
                    let k = spec_field_kind(deps, names@, scope, **extension)->0;
                    let m = spec_message_ref(deps, names@, scope, opt_str(extension.extendee))->0;
                    assert(extension_built(
                        extensions@.last(),
                        ev.file as int,
                        ev.path@,
                        ev.full_name@,
                        extensions@.last().parent,
                        **extension,
                        k,
                        m,
                        files@[ev.file as int].syntax,
                    ));
                    assert(extensions@.drop_last() == x0);
                    assert(ev@.what == crate::visit::Visited::Extension { parent: crate::visit::opt_int(*parent), extension: **extension });
                    assert(extensions@.last().parent == *parent);
                    assert(ev@.file == ev.file as int && ev@.path == ev.path@ && ev@.full_name == ev.full_name@);
                    assert(extension_from_visit(extensions@.last(), ev@, files@));
                }
                assert forall|j: int| 0 <= j < messages@.len() implies numbers_sorted(#[trigger] messages@[j].field_numbers@) by {
                    assert(messages@[j].field_numbers == m0[j].field_numbers);
                }
                assert forall|j: int| 0 <= j < messages@.len() implies numbers_name_fields(#[trigger] messages@[j]) by {
                    assert(messages@[j].field_numbers == m0[j].field_numbers);
                    assert(messages@[j].fields == m0[j].fields);
                    assert(numbers_name_fields(m0[j]));
                }
                assert forall|j: int| 0 <= j < c0@.message && j < m0.len() implies extended_from(
                    (#[trigger] m0[j]).extensions@,
                    messages@[j].extensions@,
                    c0@.extension,
                ) by {
                    let a = m0[j].extensions@;
                    if messages@[j].extensions@ == a {
                        assert(a.take(a.len() as int) =~= a);
                    } else {
                        assert(messages@[j].extensions@.take(a.len() as int) =~= a);
                    }
                }
            }
        },
        crate::visit::VisitedRef::Service(s) => {
            let built = build_service(ev.file, &ev.path, &ev.full_name, s);
            services.push(built);
            proof {
                assert forall|j: int| 0 <= j < services@.len() implies crate::wf::service_ok(#[trigger] services@[j], bound@) by {
                    if j < s0.len() {
                        assert(services@[j] == s0[j]);
                    }
                }
                assert forall|j: int| 0 <= j < c0@.service && j < s0.len() implies #[trigger] services@[j] == s0[j] by {}
                assert(extensions@.take(x0.len() as int) =~= x0);
            }
        },
        crate::visit::VisitedRef::Method { service, method } => {
            link_method(names, files, services, errors, ev.file, &ev.path, &ev.full_name, *service, method, bound);
        },
        crate::visit::VisitedRef::EnumValue { enum_, .. } => {
            link_enum_value(files, enums, errors, ev.file, &ev.path, *enum_, ev.index, bound);
            proof {
                assert forall|j: int| 0 <= j < enums@.len() implies crate::wf::enum_ok(#[trigger] enums@[j], bound@) by {
                    if j != *enum_ {
                        assert(enums@[j] == en0[j]);
                    }
                }
                assert forall|j: int| 0 <= j < enums@.len() implies values_sorted(#[trigger] enums@[j].value_numbers@) by {
                    if j != *enum_ {
                        assert(enums@[j] == en0[j]);
                    }
                }
                assert forall|j: int| 0 <= j < enums@.len() implies numbers_name_values(#[trigger] enums@[j]) by {
                    if j != *enum_ {
                        assert(enums@[j] == en0[j]);
                    }
                }
            }
        },
        _ => {},
    }
    proof {
        assert forall|j: int| 0 <= j < m0.len() implies fields_extend(m0[j], #[trigger] messages@[j]) by {
            if messages@[j].fields == m0[j].fields {
                assert(messages@[j].fields@.take(m0[j].fields@.len() as int) =~= m0[j].fields@);
            }
        }
    }
}

/// Which file has a name depends only on the file descriptors.
pub proof fn lemma_file_named_same_raws(a: Seq<FileDescriptorInner>, b: Seq<FileDescriptorInner>, n: Seq<char>)
    requires
        a.len() == b.len(),
        forall|k: int| 0 <= k < a.len() ==> (#[trigger] a[k]).raw == b[k].raw,
    ensures
        file_named(a, n) == file_named(b, n),
    decreases a.len(),
{
    if a.len() > 0 {
        lemma_file_named_same_raws(a.drop_last(), b.drop_last(), n);
    }
}

/// Closure under public imports depends only on the file descriptors.
pub proof fn lemma_closed_same_raws(a: Seq<FileDescriptorInner>, b: Seq<FileDescriptorInner>, s: Seq<u32>)
    requires
        a.len() == b.len(),
        forall|k: int| 0 <= k < a.len() ==> (#[trigger] a[k]).raw == b[k].raw,
        forall|i: int| 0 <= i < s.len() ==> s[i] < a.len(),
        closed_under_public(b, s),
    ensures
        closed_under_public(a, s),
{
    assert forall|i: int, x: u32| 0 <= i < s.len() && #[trigger] public_imports(a, s[i] as int).contains(x) implies s.contains(x) by {
        let t = s[i] as int;
        let p = choose|p: int| 0 <= p < a[t].raw.public_dependency@.len() && #[trigger] public_dep_target(a, t, p) == Some(x as int);
        let d = a[t].raw.public_dependency@[p];
        if 0 <= d < a[t].raw.dependency@.len() {
            lemma_file_named_same_raws(a, b, a[t].raw.dependency@[d as int]@);
        }
        assert(public_dep_target(b, t, p) == Some(x as int));
        assert(public_imports(b, t).contains(x));
    }
}

/// Links every file from index `offsets.file` on: finds its imports, then
/// resolves and adds what its definitions refer to. Returns what was
/// reported and the counters after the files.
#[verifier::rlimit(60)]
#[verifier::spinoff_prover]
pub fn link_names(
    names: &Vec<NameEntry>,
    files: &mut Vec<FileDescriptorInner>,
    messages: &mut Vec<crate::pool::MessageDescriptorInner>,
    enums: &mut Vec<crate::pool::EnumDescriptorInner>,
    services: &mut Vec<crate::pool::ServiceDescriptorInner>,
    extensions: &mut Vec<crate::pool::ExtensionDescriptorInner>,
    offsets: crate::visit::DescriptorPoolOffsets,
) -> (r: (Vec<DescriptorErrorKind>, crate::visit::DescriptorPoolOffsets))
    requires
        offsets.file <= old(files)@.len() <= u32::MAX,
        crate::collect::defs_in_files(names@, old(files)@.len() as int),
        numbers_in_order(old(messages)@, old(enums)@),
        crate::visit::files_fit(crate::collect::raws_from(old(files)@, offsets.file as int)),
        crate::visit::counts_fit(
            crate::visit::files_visits(crate::collect::raws_from(old(files)@, offsets.file as int), 0, offsets.counts()).1,
        ),
        offsets.service == old(services)@.len(),
        offsets.extension == old(extensions)@.len(),
        link_state_ok(names@, old(messages)@, old(enums)@, old(services)@, old(extensions)@,
            crate::visit::files_visits(crate::collect::raws_from(old(files)@, offsets.file as int), 0, offsets.counts()).1),
        old(messages)@.len() == crate::visit::files_visits(
            crate::collect::raws_from(old(files)@, offsets.file as int),
            0,
            offsets.counts(),
        ).1.message,
    ensures
        link_state_ok(names@, final(messages)@, final(enums)@, final(services)@, final(extensions)@, r.1.counts()),
        final(services)@.len() == r.1.service,
        r.0@.len() == 0 ==> final(extensions)@.len() == r.1.extension,
        forall|j: int| 0 <= j < old(messages)@.len() ==> (#[trigger] final(messages)@[j]).id == old(messages)@[j].id,
        forall|j: int| 0 <= j < old(enums)@.len() ==> enum_kept(old(enums)@[j], #[trigger] final(enums)@[j]),
        forall|k: int| offsets.file <= k < old(files)@.len() ==> crate::wf::file_ok(#[trigger] final(files)@[k], r.1.counts()),
        final(files)@.len() == old(files)@.len(),
        forall|k: int| 0 <= k < old(files)@.len() ==> (#[trigger] final(files)@[k]).raw == old(files)@[k].raw
            && final(files)@[k].syntax == old(files)@[k].syntax,
        forall|k: int| 0 <= k < offsets.file ==> #[trigger] final(files)@[k] == old(files)@[k],
        forall|k: int| offsets.file <= k < old(files)@.len() ==> (#[trigger] final(files)@[k]).transitive_dependencies@.contains(k as u32)
            && closed_under_public(final(files)@, final(files)@[k].transitive_dependencies@),
        forall|k: int| offsets.file <= k < old(files)@.len() ==> seen_from(
            final(files)@,
            k as u32,
            (#[trigger] final(files)@[k]).dependencies@,
            final(files)@[k].transitive_dependencies@,
        ),
        final(messages)@.len() == old(messages)@.len(),
        final(enums)@.len() == old(enums)@.len(),
        numbers_in_order(final(messages)@, final(enums)@),
        old_kept(old(messages)@, final(messages)@, old(enums)@, final(enums)@, old(services)@, final(services)@, old(extensions)@, final(extensions)@, offsets.counts()),
        r.1.counts() == crate::visit::files_visits(crate::collect::raws_from(old(files)@, offsets.file as int), 0, offsets.counts()).1,
        simple_linkable_from(
            old(files)@,
            offsets.file as int,
            crate::visit::files_visits(crate::collect::raws_from(old(files)@, offsets.file as int), 0, offsets.counts()).0,
        ) ==> r.0@.len() == 0,
        (forall|j: int| 0 <= j < crate::visit::files_visits(crate::collect::raws_from(old(files)@, offsets.file as int), 0, offsets.counts()).0.len()
            ==> crate::collect::simple_visit(#[trigger] crate::visit::files_visits(crate::collect::raws_from(old(files)@, offsets.file as int), 0, offsets.counts()).0[j]))
            ==> import_errors_from(r.0@, 0),
        (exists|k: int| offsets.file <= k < old(files)@.len() && !imports_valid(old(files)@, #[trigger] old(files)@[k].raw))
            ==> r.0@.len() > 0,
        services_at_index(
            final(services)@,
            crate::visit::files_visits(crate::collect::raws_from(old(files)@, offsets.file as int), 0, offsets.counts()).0,
        ),
        r.0@.len() == 0 ==> fields_linked(
            final(messages)@,
            crate::visit::files_visits(crate::collect::raws_from(old(files)@, offsets.file as int), 0, offsets.counts()).0,
            old(files)@,
        ),
        r.0@.len() == 0 ==> extensions_at_index(
            final(extensions)@,
            crate::visit::files_visits(crate::collect::raws_from(old(files)@, offsets.file as int), 0, offsets.counts()).0,
            old(files)@,
        ),
{
    let ghost raws = crate::collect::raws_from(files@, offsets.file as int);
    let ghost all = crate::visit::files_visits(raws, 0, offsets.counts());
    let ghost f0 = files@;
    proof {
        crate::visit::lemma_files_counts(raws, 0, offsets.counts());
        crate::visit::lemma_files_below(raws, 0, offsets.counts(), all.1);
        crate::visit::lemma_files_numbering(raws, 0, offsets.counts());
        crate::visit::lemma_files_file_count(raws, 0, offsets.counts());
    }
    let ghost mut processed: Seq<crate::visit::Visit> = Seq::empty();
    let ghost m_start = messages@;
    let ghost en_start = enums@;
    let ghost s_start = services@;
    let ghost x_start = extensions@;
    let mut errors: Vec<DescriptorErrorKind> = Vec::new();
    let mut counters = offsets;
    let mut fi: usize = offsets.file as usize;
    proof {
        lemma_old_kept_refl(m_start, en_start, s_start, x_start, offsets.counts());
    }
    while fi < files.len()
        invariant
            offsets.file <= fi <= files@.len() <= u32::MAX,
            files@.len() == f0.len(),
            forall|k: int| 0 <= k < f0.len() ==> (#[trigger] files@[k]).raw == f0[k].raw && files@[k].syntax == f0[k].syntax,
            forall|k: int| 0 <= k < offsets.file ==> #[trigger] files@[k] == f0[k],
            forall|k: int| offsets.file <= k < fi ==> (#[trigger] files@[k]).transitive_dependencies@.contains(k as u32)
                && closed_under_public(files@, files@[k].transitive_dependencies@)
                && forall|i: int| 0 <= i < files@[k].transitive_dependencies@.len() ==> files@[k].transitive_dependencies@[i] < files@.len(),
            forall|k: int| offsets.file <= k < fi ==> seen_from(
                files@,
                k as u32,
                (#[trigger] files@[k]).dependencies@,
                files@[k].transitive_dependencies@,
            ),
            raws == crate::collect::raws_from(f0, offsets.file as int),
            all == crate::visit::files_visits(raws, 0, offsets.counts()),
            crate::visit::files_fit(raws),
            crate::visit::counts_fit(all.1),
            counters.file == fi,
            crate::visit::files_visits(raws, fi - offsets.file, counters.counts()).1 == all.1,
            crate::collect::defs_in_files(names@, files@.len() as int),
            numbers_in_order(messages@, enums@),
            messages@.len() == old(messages)@.len(),
            enums@.len() == old(enums)@.len(),
            crate::visit::counts_grow(offsets.counts(), counters.counts()),
            old_kept(m_start, messages@, en_start, enums@, s_start, services@, x_start, extensions@, offsets.counts()),
            m_start == old(messages)@ && en_start == old(enums)@ && s_start == old(services)@ && x_start == old(extensions)@,
            link_state_ok(names@, messages@, enums@, services@, extensions@, all.1),
            crate::visit::visits_below(all.0, all.1),
            crate::visit::numbering(all.0, offsets.counts(), all.1),
            f0.len() == all.1.file,
            processed + crate::visit::files_visits(raws, fi - offsets.file, counters.counts()).0 == all.0,
            services@.len() == s_start.len() + crate::visit::count_kind(processed, 2),
            errors@.len() == 0 ==> extensions@.len() == x_start.len() + crate::visit::count_kind(processed, 3),
            offsets.service == s_start.len(),
            offsets.extension == x_start.len(),
            forall|k: int| offsets.file <= k < fi ==> crate::wf::file_ok(#[trigger] files@[k], all.1),
            simple_linkable_from(f0, offsets.file as int, all.0) ==> errors@.len() == 0,
            (forall|j: int| 0 <= j < all.0.len() ==> crate::collect::simple_visit(#[trigger] all.0[j])) ==> import_errors_from(errors@, 0),
            (exists|k: int| offsets.file <= k < fi && !imports_valid(f0, #[trigger] f0[k].raw)) ==> errors@.len() > 0,
            forall|j: int| 0 <= j < m_start.len() ==> (#[trigger] messages@[j]).id == m_start[j].id,
            forall|j: int| 0 <= j < en_start.len() ==> enum_kept(en_start[j], #[trigger] enums@[j]),
            services_at_index(services@, processed),
            errors@.len() == 0 ==> fields_linked(messages@, processed, f0),
            errors@.len() == 0 ==> extensions_at_index(extensions@, processed, f0),
            messages@.len() == all.1.message,
        decreases files@.len() - fi,
    {
        let k: Ghost<int> = Ghost(fi - offsets.file);
        let ghost cur = counters.counts();
        let ghost fv = crate::visit::file_visits(raws[k@], cur);
        proof {
            assert(raws[k@] == files@[fi as int].raw);
            crate::visit::lemma_file_counts(raws[k@], cur);
            crate::visit::lemma_files_counts(raws, k@ + 1, fv.1);
            crate::visit::lemma_file_visits_shape(raws[k@], cur);
            crate::visit::lemma_file_above(raws[k@], offsets.counts(), cur);
            assert(crate::visit::file_fits(raws[k@]));
        }
        let ghost errors_pre = errors@;
        let (deps, transitive) = resolve_dependencies(files, fi as u32, &mut errors);
        proof {
            let raw = f0[fi as int].raw;
            assert forall|i: int| 0 <= i < raw.dependency@.len() implies file_named(files@, #[trigger] raw.dependency@[i]@)
                == file_named(f0, raw.dependency@[i]@) by {
                lemma_file_named_same_raws(files@, f0, raw.dependency@[i]@);
            }
            assert(imports_valid(files@, files@[fi as int].raw) == imports_valid(f0, f0[fi as int].raw));
            if forall|j: int| 0 <= j < all.0.len() ==> crate::collect::simple_visit(#[trigger] all.0[j]) {
                assert forall|j: int| 0 <= j < errors@.len() implies is_import_error(#[trigger] errors@[j]) by {
                    if j < errors_pre.len() {
                        assert(errors@.take(errors_pre.len() as int)[j] == errors@[j]);
                    }
                }
            }
            if exists|k: int| offsets.file <= k <= fi && !imports_valid(f0, #[trigger] f0[k].raw) {
                let k = choose|k: int| offsets.file <= k <= fi && !imports_valid(f0, #[trigger] f0[k].raw);
                if k < fi {
                    assert(errors_pre.len() > 0);
                }
            }
            if simple_linkable_from(f0, offsets.file as int, all.0) {
                let raw = f0[fi as int].raw;
                assert(imports_valid(f0, f0[fi as int].raw));
                assert forall|i: int| 0 <= i < raw.dependency@.len() implies (#[trigger] file_named(files@, raw.dependency@[i]@)) is Some by {
                    lemma_file_named_same_raws(files@, f0, raw.dependency@[i]@);
                }
                assert(imports_valid(files@, files@[fi as int].raw));
            }
        }
        let ghost fbefore = files@;
        files[fi].dependencies = deps;
        files[fi].transitive_dependencies = transitive;
        proof {
            assert forall|j: int| offsets.file <= j < fi + 1 implies (#[trigger] files@[j]).transitive_dependencies@.contains(j as u32)
                && closed_under_public(files@, files@[j].transitive_dependencies@)
                && forall|i: int| 0 <= i < files@[j].transitive_dependencies@.len() ==> files@[j].transitive_dependencies@[i] < files@.len() by {
                lemma_closed_same_raws(files@, fbefore, files@[j].transitive_dependencies@);
            }
            assert forall|j: int| offsets.file <= j < fi + 1 implies seen_from(
                files@,
                j as u32,
                (#[trigger] files@[j]).dependencies@,
                files@[j].transitive_dependencies@,
            ) by {
                if j < fi {
                    assert(files@[j] == fbefore[j]);
                }
                lemma_seen_from_same_raws(files@, fbefore, j as u32, files@[j].dependencies@, files@[j].transitive_dependencies@);
            }
            assert forall|j: int| offsets.file <= j < fi + 1 implies crate::wf::file_ok(#[trigger] files@[j], all.1) by {
                if j < fi {
                    assert(files@[j] == fbefore[j]);
                }
            }
        }
        let ghost p0 = processed;
        let ghost rest = crate::visit::files_visits(raws, k@ + 1, fv.1).0;
        proof {
            assert(crate::visit::files_visits(raws, k@, cur).0 == fv.0 + rest);
        }
        let (events, next) = crate::visit::visit_file_events(counters, &files[fi].raw);
        let mut j: usize = 0;
        while j < events.len()
            invariant
                j <= events@.len(),
                fi < files@.len(),
                crate::visit::events_view(events@) == fv.0,
                fv == crate::visit::file_visits(f0[fi as int].raw, cur),
                offsets.file <= fi,
                fi < f0.len(),
                simple_linkable_from(f0, offsets.file as int, all.0) ==> errors@.len() == 0,
                (forall|j: int| 0 <= j < all.0.len() ==> crate::collect::simple_visit(#[trigger] all.0[j])) ==> import_errors_from(errors@, 0),
                (exists|k: int| offsets.file <= k <= fi && !imports_valid(f0, #[trigger] f0[k].raw)) ==> errors@.len() > 0,
                services_at_index(services@, processed),
                errors@.len() == 0 ==> fields_linked(messages@, processed, f0),
                errors@.len() == 0 ==> extensions_at_index(extensions@, processed, f0),
                offsets.extension == x_start.len(),
                messages@.len() == all.1.message,
                files@.len() == f0.len(),
                forall|k: int| 0 <= k < f0.len() ==> (#[trigger] files@[k]).syntax == f0[k].syntax,
                crate::visit::numbering(all.0, offsets.counts(), all.1),
                offsets.service == s_start.len(),
                fv.0[0].file == fi as int,
                crate::visit::inner_visits(fv.0.drop_first(), fi as int),
                crate::visit::visits_above(fv.0, offsets.counts()),
                crate::collect::defs_in_files(names@, files@.len() as int),
                numbers_in_order(messages@, enums@),
                messages@.len() == old(messages)@.len(),
                enums@.len() == old(enums)@.len(),
                old_kept(m_start, messages@, en_start, enums@, s_start, services@, x_start, extensions@, offsets.counts()),
                link_state_ok(names@, messages@, enums@, services@, extensions@, all.1),
                crate::visit::visits_below(all.0, all.1),
                processed == p0 + fv.0.take(j as int),
                p0 + fv.0 + rest == all.0,
                services@.len() == s_start.len() + crate::visit::count_kind(processed, 2),
                errors@.len() == 0 ==> extensions@.len() == x_start.len() + crate::visit::count_kind(processed, 3),
                forall|j: int| 0 <= j < m_start.len() ==> (#[trigger] messages@[j]).id == m_start[j].id,
                forall|j: int| 0 <= j < en_start.len() ==> enum_kept(en_start[j], #[trigger] enums@[j]),
            decreases events@.len() - j,
        {
            proof {
                assert(crate::visit::events_view(events@)[j as int] == events@[j as int]@);
                if j > 0 {
                    assert(fv.0.drop_first()[j - 1] == fv.0[j as int]);
                }
            }
            let ghost mb = messages@;
            let ghost enb = enums@;
            let ghost sb = services@;
            let ghost xb = extensions@;
            proof {
                assert(crate::visit::visit_above(fv.0[j as int], offsets.counts()));
            }
            let ghost pos = p0.len() + j;
            let ghost eb = errors@;
            proof {
                assert(all.0[pos] == fv.0[j as int]) by {
                    assert((p0 + fv.0 + rest)[pos] == fv.0[j as int]);
                }
                assert(crate::visit::visit_below(all.0[pos], all.1));
            }
            link_event(names, files, messages, enums, services, extensions, &mut errors, &events[j], Ghost(offsets.counts()), Ghost(all.1));
            proof {
                lemma_old_kept_trans(m_start, mb, messages@, en_start, enb, enums@, s_start, sb, services@, x_start, xb, extensions@, offsets.counts());
                assert forall|a: int| 0 <= a < m_start.len() implies (#[trigger] messages@[a]).id == m_start[a].id by {
                    assert(messages@[a].id == mb[a].id);
                }
                assert forall|a: int| 0 <= a < en_start.len() implies (#[trigger] enums@[a]).id == en_start[a].id by {
                    assert(enums@[a].id == enb[a].id);
                }
                let v = fv.0[j as int];
                if simple_linkable_from(f0, offsets.file as int, all.0) {
                    assert(crate::collect::simple_visit(all.0[pos]));
                    assert(errors@ == eb);
                }
                if forall|j: int| 0 <= j < all.0.len() ==> crate::collect::simple_visit(#[trigger] all.0[j]) {
                    assert(crate::collect::simple_visit(all.0[pos]));
                    assert(errors@ == eb);
                }
                let p2 = p0 + fv.0.take(j + 1);
                assert(p2 =~= processed.push(v));
                assert(p2.drop_last() =~= processed);
                assert(all.0.take(pos) =~= processed) by {
                    assert(processed =~= p0 + fv.0.take(j as int));
                }
                if v.what is Service {
                    assert(crate::visit::numbered(all.0, 2, crate::visit::counter(offsets.counts(), 2)));
                    assert(crate::visit::is_kind(all.0[pos], 2));
                    assert(v.index == sb.len());
                }
                if errors@.len() == 0 {
                    assert(eb.len() == 0);
                    assert forall|a: int| 0 <= a < p2.len() implies match (#[trigger] p2[a]).what {
                        crate::visit::Visited::Field { message, field } => 0 <= message < messages@.len() && exists|
                            i: int,
                            k: KindIndex,
                        |
                            0 <= i < messages@[message].fields@.len() && #[trigger] field_built(
                                messages@[message].fields@[i],
                                p2[a].file,
                                p2[a].path,
                                p2[a].full_name,
                                field,
                                k,
                                f0[p2[a].file].syntax,
                            ),
                        _ => true,
                    } by {
                        if a < processed.len() {
                            assert(p2[a] == processed[a]);
                            if let crate::visit::Visited::Field { message, field } = processed[a].what {
                                let (i, k) = choose|i: int, k: KindIndex|
                                    0 <= i < mb[message].fields@.len() && #[trigger] field_built(
                                        mb[message].fields@[i],
                                        processed[a].file,
                                        processed[a].path,
                                        processed[a].full_name,
                                        field,
                                        k,
                                        f0[processed[a].file].syntax,
                                    );
                                assert(fields_extend(mb[message], messages@[message]));
                                assert(messages@[message].fields@.take(mb[message].fields@.len() as int)[i]
                                    == messages@[message].fields@[i]);
                                assert(field_built(
                                    messages@[message].fields@[i],
                                    processed[a].file,
                                    processed[a].path,
                                    processed[a].full_name,
                                    field,
                                    k,
                                    f0[processed[a].file].syntax,
                                ));
                            }
                        } else {
                            assert(p2[a] == v);
                            assert(events@[j as int]@ == v);
                            if let crate::visit::Visited::Field { message, field } = v.what {
                                assert(crate::visit::visit_below(all.0[pos], all.1));
                                let i = messages@[message].fields@.len() - 1;
                                let k = choose|k: KindIndex| #[trigger] field_built(
                                    messages@[message].fields@.last(),
                                    v.file,
                                    v.path,
                                    v.full_name,
                                    field,
                                    k,
                                    files@[v.file].syntax,
                                );
                                assert(field_built(
                                    messages@[message].fields@[i],
                                    v.file,
                                    v.path,
                                    v.full_name,
                                    field,
                                    k,
                                    f0[v.file].syntax,
                                ));
                            }
                        }
                    }
                }
                if errors@.len() == 0 {
                    if v.what is Extension {
                        assert(crate::visit::numbered(all.0, 3, crate::visit::counter(offsets.counts(), 3)));
                        assert(crate::visit::is_kind(all.0[pos], 3));
                        assert(v.index == xb.len());
                    }
                    assert forall|a: int| 0 <= a < p2.len() && (#[trigger] p2[a]).what is Extension implies 0 <= p2[a].index
                        < extensions@.len() && extension_from_visit(extensions@[p2[a].index], p2[a], f0) by {
                        if a < processed.len() {
                            assert(p2[a] == processed[a]);
                            if v.what is Extension {
                                assert(extensions@.drop_last()[p2[a].index] == xb[p2[a].index]);
                            }
                        } else {
                            assert(p2[a] == v);
                            assert(events@[j as int]@ == v);
                            assert(files@[v.file].syntax == f0[v.file].syntax);
                        }
                    }
                }
                assert forall|a: int| 0 <= a < p2.len() && (#[trigger] p2[a]).what is Service implies 0 <= p2[a].index
                    < services@.len() && service_identity(services@[p2[a].index], p2[a]) by {
                    if a < processed.len() {
                        assert(p2[a] == processed[a]);
                        assert(services@[p2[a].index].id == sb[p2[a].index].id);
                    } else {
                        assert(p2[a] == v);
                        assert(events@[j as int]@ == v);
                    }
                }
                processed = p2;
            }
            j += 1;
        }
        proof {
            crate::visit::lemma_file_counts(raws[k@], cur);
            assert(fv.0.take(j as int) =~= fv.0);
            assert(processed + crate::visit::files_visits(raws, k@ + 1, next.counts()).0 =~= all.0);
        }
        counters = next;
        fi += 1;
    }
    proof {
        assert(processed =~= all.0);
        assert(crate::visit::counter(offsets.counts(), 2) == offsets.service);
        assert(crate::visit::counter(all.1, 2) == all.1.service);
        assert(crate::visit::counter(offsets.counts(), 3) == offsets.extension);
        assert(crate::visit::counter(all.1, 3) == all.1.extension);
    }
    (errors, counters)
}

} // verus!

verus! {

/// A resolved field type refers to a definition that the name table refers to.
pub proof fn lemma_field_kind_below(
    deps: Seq<u32>,
    names: Seq<NameEntry>,
    scope: Seq<char>,
    field: crate::types::FieldDescriptorProto,
    c: crate::visit::Counts,
)
    requires
        crate::wf::names_ok(names, c),
    ensures
        spec_field_kind(deps, names, scope, field) matches Some(k) ==> crate::wf::kind_index_below(k, c),
{
    match field.named_type {
        Some(t) => {
            crate::resolve::lemma_resolution_sound(deps, names, scope, t@, crate::resolve::ResolveNameFilter::FieldType);
            match crate::resolve::resolve(deps, names, scope, t@, crate::resolve::ResolveNameFilter::FieldType) {
                crate::resolve::Resolution::Found { index, .. } => {
                    assert(crate::collect::kind_below(names[index].def.kind, c));
                },
                _ => {},
            }
        },
        None => {},
    }
}

/// A resolved message reference refers to a message the name table refers to.
pub proof fn lemma_message_ref_below(
    deps: Seq<u32>,
    names: Seq<NameEntry>,
    scope: Seq<char>,
    name: Seq<char>,
    c: crate::visit::Counts,
)
    requires
        crate::wf::names_ok(names, c),
    ensures
        spec_message_ref(deps, names, scope, name) matches Some(m) ==> m < c.message,
{
    crate::resolve::lemma_resolution_sound(deps, names, scope, name, crate::resolve::ResolveNameFilter::Message);
    match crate::resolve::resolve(deps, names, scope, name, crate::resolve::ResolveNameFilter::Message) {
        crate::resolve::Resolution::Found { index, .. } => {
            assert(crate::collect::kind_below(names[index].def.kind, c));
        },
        _ => {},
    }
}

} // verus!

verus! {

/// Only a repeated field of a packable kind is packed: no field or extension
/// of type string, bytes, message or group uses the packed encoding, whatever
/// its options and the syntax of its file.
pub proof fn lemma_packed_fields_are_packable(
    cardinality: crate::kind::Cardinality,
    kind: KindIndex,
    options: Option<crate::types::Options>,
    syntax: crate::kind::Syntax,
)
    ensures
        spec_is_packed(cardinality, kind, options, syntax) ==> cardinality == crate::kind::Cardinality::Repeated
            && !(kind is String || kind is Bytes || kind is Message || kind is Group),
        forall|f: crate::pool::FieldDescriptorInner, file: int, path: Seq<i32>, full: Seq<char>, field: crate::types::FieldDescriptorProto|
            #[trigger] field_built(f, file, path, full, field, kind, syntax) && f.is_packed ==> f.cardinality
                == crate::kind::Cardinality::Repeated && !(f.kind is String || f.kind is Bytes || f.kind is Message
                || f.kind is Group),
        forall|e: crate::pool::ExtensionDescriptorInner, file: int, path: Seq<i32>, full: Seq<char>, parent: Option<u32>,
            field: crate::types::FieldDescriptorProto, extendee: u32|
            #[trigger] extension_built(e, file, path, full, parent, field, kind, extendee, syntax) && e.is_packed
                ==> e.cardinality == crate::kind::Cardinality::Repeated && !(e.kind is String || e.kind is Bytes
                || e.kind is Message || e.kind is Group),
{
}

} // verus!
