//! Collecting the names of a batch of files into a pool: every definition is
//! registered under its full name, files, messages and enums are added, and
//! clashing names and invalid enums are reported.
use vstd::prelude::*;
use crate::definition::{find_name, lookup, Definition, DefinitionKind, NameEntry};
use crate::error::{DescriptorErrorKind, Label};
use crate::names::{join_path, package_names};
use crate::pool::FileDescriptorInner;
use crate::tag;
use crate::text::{opt_str, string_from_chars};
use crate::visit::{Visit, Visited};

verus! {

/// A name a definition introduces, with the definition it names.
pub struct NameDef {
    pub name: Seq<char>,
    pub file: int,
    pub path: Seq<i32>,
    pub kind: DefinitionKind,
}

/// The package names a file at index `file` introduces, each one defined at
/// the file's `package` field.
pub open spec fn package_defs(package: Seq<char>, file: int) -> Seq<NameDef> {
    if package.len() == 0 {
        Seq::empty()
    } else {
        package_names(package).map_values(
            |p: Seq<char>| NameDef { name: p, file, path: seq![tag::FILE_PACKAGE], kind: DefinitionKind::Package },
        )
    }
}

/// The definition a visit introduces under its full name, at the given tag
/// within its path.
pub open spec fn own_def(v: Visit, name_tag: i32, kind: DefinitionKind) -> Seq<NameDef> {
    seq![NameDef { name: v.full_name, file: v.file, path: v.path.push(name_tag), kind }]
}

/// The names a visit introduces, in order.
pub open spec fn defs_of(v: Visit) -> Seq<NameDef> {
    match v.what {
        Visited::File(f) => package_defs(opt_str(f.package), v.index),
        Visited::Message { .. } => own_def(v, tag::MESSAGE_NAME, DefinitionKind::Message(v.index as u32)),
        Visited::Field { message, .. } => own_def(v, tag::FIELD_NAME, DefinitionKind::Field(message as u32)),
        Visited::Oneof { message, .. } => own_def(v, tag::ONEOF_NAME, DefinitionKind::Oneof(message as u32)),
        Visited::Service(_) => own_def(v, tag::SERVICE_NAME, DefinitionKind::Service(v.index as u32)),
        Visited::Method { service, .. } => own_def(v, tag::SERVICE_NAME, DefinitionKind::Method(service as u32)),
        Visited::Enum { .. } => own_def(v, tag::ENUM_NAME, DefinitionKind::Enum(v.index as u32)),
        Visited::EnumValue { enum_, .. } => own_def(v, tag::ENUM_VALUE_NAME, DefinitionKind::EnumValue(enum_ as u32)),
        Visited::Extension { .. } => own_def(v, tag::FIELD_NAME, DefinitionKind::Extension(v.index as u32)),
    }
}

/// Whether a table entry records exactly the definition `d`.
pub open spec fn entry_is(e: NameEntry, d: NameDef) -> bool {
    &&& e.name@ == d.name
    &&& e.def.file == d.file
    &&& e.def.path@ == d.path
    &&& e.def.kind == d.kind
}

/// Whether every entry of the table is defined in one of the first `n` files.
pub open spec fn defs_in_files(names: Seq<NameEntry>, n: int) -> bool {
    forall|i: int| 0 <= i < names.len() ==> #[trigger] names[i].def.file < n
}

/// Whether an error reports that `d` clashes with the earlier entry `first`.
pub open spec fn is_duplicate_name(err: DescriptorErrorKind, d: NameDef, first: NameEntry) -> bool {
    match err {
        DescriptorErrorKind::DuplicateName { name, first: l1, second: l2 } => {
            &&& name@ == d.name
            &&& l1.path@ == first.def.path@
            &&& l2.path@ == d.path
        },
        _ => false,
    }
}

/// Whether `err` reports `name` defined twice: first in file `f1` at `p1`,
/// then in file `f2` at `p2`.
pub open spec fn duplicate_labels(
    err: DescriptorErrorKind,
    files: Seq<FileDescriptorInner>,
    f1: int,
    p1: Seq<i32>,
    f2: int,
    p2: Seq<i32>,
) -> bool {
    match err {
        DescriptorErrorKind::DuplicateName { first, second, .. } => crate::error::label_at(first, files[f1].raw, p1)
            && crate::error::label_at(second, files[f2].raw, p2),
        _ => false,
    }
}

/// Whether the checks of an enum found in file `raw` of syntax `syntax` at
/// `path` add to `errors` exactly what they report: one empty-enum error at
/// the enum, or else, outside proto2, one error at the number of a first
/// value that is not 0, or else nothing.
pub open spec fn enum_checked(
    errors: Seq<DescriptorErrorKind>,
    errors2: Seq<DescriptorErrorKind>,
    enum_: crate::types::EnumDescriptorProto,
    syntax: crate::kind::Syntax,
    raw: crate::types::FileDescriptorProto,
    path: Seq<i32>,
) -> bool {
    if enum_.value@.len() == 0 {
        &&& errors2.len() == errors.len() + 1
        &&& errors2.drop_last() == errors
        &&& errors2.last() matches DescriptorErrorKind::EmptyEnum { found } && crate::error::label_at(found, raw, path)
    } else if syntax != crate::kind::Syntax::Proto2 && crate::types::opt_i32(enum_.value@[0].number) != 0 {
        &&& errors2.len() == errors.len() + 1
        &&& errors2.drop_last() == errors
        &&& errors2.last() matches DescriptorErrorKind::InvalidProto3EnumDefault { found } && crate::error::label_at(
            found,
            raw,
            path + seq![tag::ENUM_VALUE, 0, tag::ENUM_VALUE_NUMBER],
        )
    } else {
        errors2 == errors
    }
}

/// What registering `d` does: a new name is added at the end of the table; a
/// name taken before is reported, unless both are packages.
pub open spec fn name_added(
    names: Seq<NameEntry>,
    names2: Seq<NameEntry>,
    errors: Seq<DescriptorErrorKind>,
    errors2: Seq<DescriptorErrorKind>,
    d: NameDef,
) -> bool {
    match lookup(names, d.name) {
        None => {
            &&& names2.len() == names.len() + 1
            &&& names2.drop_last() == names
            &&& entry_is(names2.last(), d)
            &&& errors2 == errors
        },
        Some(k) => {
            &&& names2 == names
            &&& if names[k].def.kind == DefinitionKind::Package && d.kind == DefinitionKind::Package {
                errors2 == errors
            } else {
                &&& errors2.len() == errors.len() + 1
                &&& errors2.drop_last() == errors
                &&& is_duplicate_name(errors2.last(), d, names[k])
            }
        },
    }
}

/// Registers `name` for a definition of kind `kind` at `path` in file `file`.
pub fn add_name(
    names: &mut Vec<NameEntry>,
    files: &Vec<FileDescriptorInner>,
    errors: &mut Vec<DescriptorErrorKind>,
    file: u32,
    name: &Vec<char>,
    path: Vec<i32>,
    kind: DefinitionKind,
)
    requires
        file < files@.len(),
        defs_in_files(old(names)@, files@.len() as int),
    ensures
        name_added(
            old(names)@,
            final(names)@,
            old(errors)@,
            final(errors)@,
            NameDef { name: name@, file: file as int, path: path@, kind },
        ),
        defs_in_files(final(names)@, files@.len() as int),
        forall|i: int| old(names)@.len() <= i < final(names)@.len() ==> (#[trigger] final(names)@[i]).def.kind == kind,
        match lookup(old(names)@, name@) {
            Some(k) => final(errors)@.len() > old(errors)@.len() ==> duplicate_labels(
                final(errors)@.last(),
                files@,
                old(names)@[k].def.file as int,
                old(names)@[k].def.path@,
                file as int,
                path@,
            ),
            None => true,
        },
{
    match find_name(names, name) {
        None => {
            let ghost before = names@;
            names.push(NameEntry { name: name.clone(), def: Definition { file, path, kind } });
            proof {
                assert(names@.drop_last() =~= before);
                assert(names@.last().name@ =~= name@);
            }
        },
        Some(k) => {
            let entry = &names[k];
            let both_packages = match (kind, entry.def.kind) {
                (DefinitionKind::Package, DefinitionKind::Package) => true,
                _ => false,
            };
            if !both_packages {
                let first = Label::new(files, entry.def.file, crate::visit::clone_path(&entry.def.path));
                let second = Label::new(files, file, path);
                let ghost before = errors@;
                errors.push(DescriptorErrorKind::DuplicateName {
                    name: string_from_chars(name),
                    first,
                    second,
                });
                proof {
                    assert(errors@.drop_last() =~= before);
                }
            }
        },
    }
}

} // verus!

verus! {

/// Whether `names2` keeps every entry of `names` and `errors2` every error of `errors`.
pub open spec fn grows(
    names: Seq<NameEntry>,
    names2: Seq<NameEntry>,
    errors: Seq<DescriptorErrorKind>,
    errors2: Seq<DescriptorErrorKind>,
) -> bool {
    &&& names.len() <= names2.len()
    &&& names2.take(names.len() as int) == names
    &&& errors.len() <= errors2.len()
    &&& errors2.take(errors.len() as int) == errors
}

/// Whether `d` is registered in `names`: its name is taken, and, unless an
/// error was reported since `errors0`, by `d` itself (or by a package, if
/// `d` is a package).
pub open spec fn registered(names: Seq<NameEntry>, d: NameDef, no_new_errors: bool) -> bool {
    match lookup(names, d.name) {
        Some(k) => no_new_errors ==> (entry_is(names[k], d) || (names[k].def.kind == DefinitionKind::Package
            && d.kind == DefinitionKind::Package)),
        None => false,
    }
}

/// A name table that only grew keeps what it registered.
pub proof fn lemma_registered_grows(names: Seq<NameEntry>, names2: Seq<NameEntry>, d: NameDef, b: bool, b2: bool)
    requires
        registered(names, d, b),
        names.len() <= names2.len(),
        names2.take(names.len() as int) == names,
        b2 ==> b,
    ensures
        registered(names2, d, b2),
{
    crate::definition::lemma_prefix_lookup(names2, names.len() as int, d.name);
    crate::definition::lemma_lookup(names, d.name);
}

/// Registering a name registers it.
pub proof fn lemma_name_added_registers(
    names: Seq<NameEntry>,
    names2: Seq<NameEntry>,
    errors: Seq<DescriptorErrorKind>,
    errors2: Seq<DescriptorErrorKind>,
    d: NameDef,
)
    requires
        name_added(names, names2, errors, errors2, d),
    ensures
        registered(names2, d, errors2.len() == errors.len()),
        grows(names, names2, errors, errors2),
{
    crate::definition::lemma_lookup(names, d.name);
    match lookup(names, d.name) {
        None => {
            assert(names2 =~= names.push(names2.last()));
            crate::definition::lemma_lookup_push(names, names2.last(), d.name);
            assert(names2.take(names.len() as int) =~= names);
        },
        Some(k) => {
            assert(names2.take(names.len() as int) =~= names);
            if errors2.len() != errors.len() {
                assert(errors2.take(errors.len() as int) =~= errors2.drop_last());
            } else {
                assert(errors2.take(errors.len() as int) =~= errors);
            }
        },
    }
    if errors2.len() == errors.len() {
        assert(errors2.take(errors.len() as int) =~= errors2);
    }
}

/// Whether `n` is the package `package` or the part of it before one of its dots.
pub open spec fn package_part(package: Seq<char>, n: Seq<char>) -> bool {
    n == package || (n.len() < package.len() && package[n.len() as int] == '.' && package.take(n.len() as int) == n)
}

/// Whether the package `package` can be registered in `names` without a
/// clash: it is empty, or no entry other than a package takes the package
/// or a part of it before one of its dots.
pub open spec fn package_free(names: Seq<NameEntry>, package: Seq<char>) -> bool {
    package.len() == 0 || forall|i: int|
        0 <= i < names.len() && names[i].def.kind != DefinitionKind::Package ==> !package_part(package, #[trigger] names[i].name@)
}

/// Registering a part of a package that no other kind of entry takes reports
/// nothing.
proof fn lemma_package_step(
    n0: Seq<NameEntry>,
    names: Seq<NameEntry>,
    names2: Seq<NameEntry>,
    errors: Seq<DescriptorErrorKind>,
    errors2: Seq<DescriptorErrorKind>,
    package: Seq<char>,
    d: NameDef,
)
    requires
        name_added(names, names2, errors, errors2, d),
        d.kind == DefinitionKind::Package,
        package_part(package, d.name),
        package.len() > 0,
        package_free(n0, package),
        n0.len() <= names.len(),
        names.take(n0.len() as int) == n0,
        forall|i: int| n0.len() <= i < names.len() ==> (#[trigger] names[i]).def.kind == DefinitionKind::Package,
    ensures
        errors2 == errors,
{
    crate::definition::lemma_lookup(names, d.name);
    match lookup(names, d.name) {
        Some(k) => {
            if k < n0.len() {
                assert(names.take(n0.len() as int)[k] == names[k]);
                assert(n0[k].name@ == d.name);
            }
        },
        None => {},
    }
}

/// Registers the package names of the file at index `file`.
fn add_package_names(
    names: &mut Vec<NameEntry>,
    files: &Vec<FileDescriptorInner>,
    errors: &mut Vec<DescriptorErrorKind>,
    file: u32,
    package: &Vec<char>,
)
    requires
        file < files@.len(),
        defs_in_files(old(names)@, files@.len() as int),
    ensures
        grows(old(names)@, final(names)@, old(errors)@, final(errors)@),
        defs_in_files(final(names)@, files@.len() as int),
        forall|i: int| old(names)@.len() <= i < final(names)@.len() ==> (#[trigger] final(names)@[i]).def.kind == DefinitionKind::Package,
        forall|t: int| 0 <= t < package_defs(package@, file as int).len() ==> registered(
            final(names)@,
            #[trigger] package_defs(package@, file as int)[t],
            final(errors)@.len() == old(errors)@.len(),
        ),
        package@.len() == 0 ==> final(errors)@ == old(errors)@,
        package_free(old(names)@, package@) ==> final(errors)@ == old(errors)@,
        forall|i: int| old(names)@.len() <= i < final(names)@.len() ==> package@.len() > 0 && package_part(
            package@,
            (#[trigger] final(names)@[i]).name@,
        ),
{
    if package.len() == 0 {
        assert(grows(names@, names@, errors@, errors@)) by {
            assert(names@.take(names@.len() as int) =~= names@);
            assert(errors@.take(errors@.len() as int) =~= errors@);
        }
        return;
    }
    let ghost n0 = names@;
    let ghost e0 = errors@;
    let ghost all = package_defs(package@, file as int);
    let mut j: usize = 0;
    proof {
        assert(n0.take(n0.len() as int) =~= n0);
        assert(e0.take(e0.len() as int) =~= e0);
        assert(crate::names::prefixes_before_dots(package@, 0).reverse() =~= Seq::<Seq<char>>::empty());
    }
    while j < package.len()
        invariant
            j <= package@.len(),
            package@.len() > 0,
            file < files@.len(),
            defs_in_files(names@, files@.len() as int),
            grows(n0, names@, e0, errors@),
            forall|i: int| n0.len() <= i < names@.len() ==> (#[trigger] names@[i]).def.kind == DefinitionKind::Package,
            all == package_defs(package@, file as int),
            package_free(n0, package@) ==> errors@ == e0,
            forall|i: int| n0.len() <= i < names@.len() ==> package_part(package@, (#[trigger] names@[i]).name@),
            forall|t: int| 0 <= t < crate::names::prefixes_before_dots(package@, j as int).len() ==> registered(
                names@,
                NameDef { name: #[trigger] crate::names::prefixes_before_dots(package@, j as int).reverse()[t], file: file as int, path: seq![tag::FILE_PACKAGE], kind: DefinitionKind::Package },
                errors@.len() == e0.len(),
            ),
        decreases package@.len() - j,
    {
        let ghost pre = crate::names::prefixes_before_dots(package@, j as int).reverse();
        let ghost pre2 = crate::names::prefixes_before_dots(package@, j + 1).reverse();
        if package[j] == '.' {
            proof {
                assert(pre2 =~= pre.push(package@.take(j as int)));
            }
            let prefix = prefix_of(package, j);
            let ghost names_before = names@;
            let ghost errors_before = errors@;
            add_name(names, files, errors, file, &prefix, single_path(tag::FILE_PACKAGE), DefinitionKind::Package);
            proof {
                let d = NameDef { name: prefix@, file: file as int, path: seq![tag::FILE_PACKAGE], kind: DefinitionKind::Package };
                if package_free(n0, package@) {
                    lemma_package_step(n0, names_before, names@, errors_before, errors@, package@, d);
                }
                lemma_name_added_registers(names_before, names@, errors_before, errors@, d);
                assert forall|t: int| 0 <= t < pre2.len() implies registered(
                    names@,
                    NameDef { name: #[trigger] pre2[t], file: file as int, path: seq![tag::FILE_PACKAGE], kind: DefinitionKind::Package },
                    errors@.len() == e0.len(),
                ) by {
                    if t < pre.len() {
                        assert(pre2[t] == pre[t]);
                        lemma_registered_grows(names_before, names@,
                            NameDef { name: pre[t], file: file as int, path: seq![tag::FILE_PACKAGE], kind: DefinitionKind::Package },
                            errors_before.len() == e0.len(), errors@.len() == e0.len());
                    } else {
                        assert(pre2[t] == prefix@);
                        assert(names@.take(names@.len() as int) =~= names@);
                        lemma_registered_grows(names@, names@, d, errors@.len() == errors_before.len(), errors@.len() == e0.len());
                    }
                }
                assert(names@.take(n0.len() as int) =~= names_before.take(n0.len() as int));
                assert(errors@.take(e0.len() as int) =~= errors_before.take(e0.len() as int));
                assert forall|i: int| n0.len() <= i < names@.len() implies (#[trigger] names@[i]).def.kind == DefinitionKind::Package by {
                    if i < names_before.len() {
                        assert(names@.take(names_before.len() as int)[i] == names@[i]);
                    }
                }
                assert forall|i: int| n0.len() <= i < names@.len() implies package_part(package@, (#[trigger] names@[i]).name@) by {
                    if i < names_before.len() {
                        assert(names@.take(names_before.len() as int)[i] == names@[i]);
                    } else {
                        crate::definition::lemma_lookup(names_before, d.name);
                    }
                }
            }
        } else {
            proof {
                assert(pre2 =~= pre);
            }
        }
        j += 1;
    }
    let ghost names_before = names@;
    let ghost errors_before = errors@;
    let ghost pre = crate::names::prefixes_before_dots(package@, package@.len() as int).reverse();
    add_name(names, files, errors, file, package, single_path(tag::FILE_PACKAGE), DefinitionKind::Package);
    proof {
        let d = NameDef { name: package@, file: file as int, path: seq![tag::FILE_PACKAGE], kind: DefinitionKind::Package };
        if package_free(n0, package@) {
            lemma_package_step(n0, names_before, names@, errors_before, errors@, package@, d);
        }
        lemma_name_added_registers(names_before, names@, errors_before, errors@, d);
        assert(package_names(package@) == pre.push(package@));
        assert forall|t: int| 0 <= t < all.len() implies registered(names@, #[trigger] all[t], errors@.len() == e0.len()) by {
            if t < pre.len() {
                lemma_registered_grows(names_before, names@,
                    NameDef { name: pre[t], file: file as int, path: seq![tag::FILE_PACKAGE], kind: DefinitionKind::Package },
                    errors_before.len() == e0.len(), errors@.len() == e0.len());
            } else {
                assert(names@.take(names@.len() as int) =~= names@);
                        lemma_registered_grows(names@, names@, d, errors@.len() == errors_before.len(), errors@.len() == e0.len());
            }
        }
        assert(names@.take(n0.len() as int) =~= names_before.take(n0.len() as int));
        assert(errors@.take(e0.len() as int) =~= errors_before.take(e0.len() as int));
        assert forall|i: int| n0.len() <= i < names@.len() implies (#[trigger] names@[i]).def.kind == DefinitionKind::Package by {
            if i < names_before.len() {
                assert(names@.take(names_before.len() as int)[i] == names@[i]);
            }
        }
        assert forall|i: int| n0.len() <= i < names@.len() implies package@.len() > 0 && package_part(
            package@,
            (#[trigger] names@[i]).name@,
        ) by {
            if i < names_before.len() {
                assert(names@.take(names_before.len() as int)[i] == names@[i]);
            } else {
                crate::definition::lemma_lookup(names_before, d.name);
            }
        }
    }
}

/// The first `n` characters of `s`.
fn prefix_of(s: &Vec<char>, n: usize) -> (r: Vec<char>)
    requires
        n <= s@.len(),
    ensures
        r@ == s@.take(n as int),
{
    let mut r: Vec<char> = Vec::new();
    let mut i: usize = 0;
    while i < n
        invariant
            i <= n <= s@.len(),
            r@ == s@.take(i as int),
        decreases n - i,
    {
        r.push(s[i]);
        proof {
            assert(s@.take(i + 1) =~= s@.take(i as int).push(s@[i as int]));
        }
        i += 1;
    }
    r
}

/// A path of one element.
pub(crate) fn single_path(t: i32) -> (r: Vec<i32>)
    ensures
        r@ == seq![t],
{
    let mut r: Vec<i32> = Vec::new();
    r.push(t);
    proof {
        assert(r@ =~= seq![t]);
    }
    r
}

} // verus!

verus! {

/// The camel-case key of a field: its name without underscores, lower-cased.
pub open spec fn camel_key(f: crate::types::FieldDescriptorProto) -> Seq<char> {
    crate::names::lower_without_underscores(opt_str(f.name))
}

/// The index of the first of the first `n` fields whose key is `key`.
pub open spec fn first_with_key(fields: Seq<crate::types::FieldDescriptorProto>, key: Seq<char>, n: int) -> Option<int>
    decreases n,
{
    if n <= 0 {
        None
    } else {
        match first_with_key(fields, key, n - 1) {
            Some(j) => Some(j),
            None => if camel_key(fields[n - 1]) == key {
                Some(n - 1)
            } else {
                None
            },
        }
    }
}

/// The clashes among the first `n` fields: for each field whose key an
/// earlier field has, the pair of the first such field and the field.
pub open spec fn camel_conflicts(fields: Seq<crate::types::FieldDescriptorProto>, n: int) -> Seq<(int, int)>
    decreases n,
{
    if n <= 0 {
        Seq::empty()
    } else {
        let i = n - 1;
        camel_conflicts(fields, n - 1) + match first_with_key(fields, camel_key(fields[i]), i) {
            Some(j) => seq![(j, i)],
            None => Seq::empty(),
        }
    }
}

/// Whether an error reports the clash `c` between fields of the message at `path`.
pub open spec fn is_camel_case_error(
    err: DescriptorErrorKind,
    fields: Seq<crate::types::FieldDescriptorProto>,
    path: Seq<i32>,
    c: (int, int),
) -> bool {
    match err {
        DescriptorErrorKind::DuplicateFieldCamelCaseName { first_name, second_name, first, second } => {
            &&& first_name@ == opt_str(fields[c.0].name)
            &&& second_name@ == opt_str(fields[c.1].name)
            &&& first.path@ == path + seq![tag::MESSAGE_FIELD, c.0 as i32, tag::FIELD_NAME]
            &&& second.path@ == path + seq![tag::MESSAGE_FIELD, c.1 as i32, tag::FIELD_NAME]
        },
        _ => false,
    }
}

/// `path` followed by the three elements `a`, `b`, `c`.
pub(crate) fn path_with3(path: &Vec<i32>, a: i32, b: i32, c: i32) -> (r: Vec<i32>)
    ensures
        r@ == path@ + seq![a, b, c],
{
    let mut r = crate::visit::clone_path(path);
    r.push(a);
    r.push(b);
    r.push(c);
    proof {
        assert(r@ =~= path@ + seq![a, b, c]);
    }
    r
}

/// Reports the fields of a message whose names clash in camel case.
fn check_message_field_camel_case_names(
    files: &Vec<FileDescriptorInner>,
    errors: &mut Vec<DescriptorErrorKind>,
    file: u32,
    path: &Vec<i32>,
    message: &crate::types::DescriptorProto,
)
    requires
        file < files@.len(),
    ensures
        final(errors)@.len() == old(errors)@.len() + camel_conflicts(message.field@, message.field@.len() as int).len(),
        final(errors)@.take(old(errors)@.len() as int) == old(errors)@,
        forall|t: int| 0 <= t < camel_conflicts(message.field@, message.field@.len() as int).len() ==> is_camel_case_error(
            final(errors)@[old(errors)@.len() + t],
            message.field@,
            path@,
            #[trigger] camel_conflicts(message.field@, message.field@.len() as int)[t],
        ),
{
    let fields = &message.field;
    let ghost e0 = errors@;
    let mut i: usize = 0;
    proof {
        assert(e0.take(e0.len() as int) =~= e0);
    }
    while i < fields.len()
        invariant
            i <= fields@.len(),
            file < files@.len(),
            fields == &message.field,
            errors@.len() == e0.len() + camel_conflicts(fields@, i as int).len(),
            errors@.take(e0.len() as int) == e0,
            forall|t: int| 0 <= t < camel_conflicts(fields@, i as int).len() ==> is_camel_case_error(
                errors@[e0.len() + t],
                fields@,
                path@,
                #[trigger] camel_conflicts(fields@, i as int)[t],
            ),
        decreases fields@.len() - i,
    {
        let key = crate::names::to_lower_without_underscores(&crate::text::chars_of(fields[i].name()));
        let mut j: usize = 0;
        let mut found: Option<usize> = None;
        while j < i
            invariant
                j <= i < fields@.len(),
                key@ == camel_key(fields@[i as int]),
                found is None ==> first_with_key(fields@, key@, j as int) is None,
                found matches Some(f) ==> first_with_key(fields@, key@, i as int) == Some(f as int) && f < i,
            decreases i - j,
        {
            if found.is_none() {
                let other = crate::names::to_lower_without_underscores(&crate::text::chars_of(fields[j].name()));
                if crate::text::chars_eq(&other, &key) {
                    proof {
                        lemma_first_with_key_stable(fields@, key@, j as int + 1, i as int);
                    }
                    found = Some(j);
                }
            }
            j += 1;
        }
        let ghost before = errors@;
        let ghost conflicts = camel_conflicts(fields@, i as int);
        match found {
            Some(f) => {
                let first = Label::new(files, file, path_with3(path, tag::MESSAGE_FIELD, f as i32, tag::FIELD_NAME));
                let second = Label::new(files, file, path_with3(path, tag::MESSAGE_FIELD, i as i32, tag::FIELD_NAME));
                errors.push(DescriptorErrorKind::DuplicateFieldCamelCaseName {
                    first_name: crate::text::to_owned_string(fields[f].name()),
                    second_name: crate::text::to_owned_string(fields[i].name()),
                    first,
                    second,
                });
                proof {
                    assert(camel_conflicts(fields@, i + 1) == conflicts.push((f as int, i as int)));
                    assert(errors@.take(e0.len() as int) =~= before.take(e0.len() as int));
                    assert forall|t: int| 0 <= t < camel_conflicts(fields@, i + 1).len() implies is_camel_case_error(
                        errors@[e0.len() + t],
                        fields@,
                        path@,
                        #[trigger] camel_conflicts(fields@, i + 1)[t],
                    ) by {
                        if t < conflicts.len() {
                            assert(errors@[e0.len() + t] == before[e0.len() + t]);
                            assert(camel_conflicts(fields@, i + 1)[t] == conflicts[t]);
                        }
                    }
                }
            },
            None => {
                proof {
                    assert(camel_conflicts(fields@, i + 1) =~= conflicts);
                }
            },
        }
        i += 1;
    }
}

/// A first match among the first `n` fields stays the first match among more.
proof fn lemma_first_with_key_stable(fields: Seq<crate::types::FieldDescriptorProto>, key: Seq<char>, n: int, m: int)
    requires
        0 <= n <= m,
        first_with_key(fields, key, n) is Some,
    ensures
        first_with_key(fields, key, m) == first_with_key(fields, key, n),
    decreases m - n,
{
    if n < m {
        lemma_first_with_key_stable(fields, key, n, m - 1);
    }
}

} // verus!

verus! {

/// `path` followed by the two elements `a` and `b`.
pub(crate) fn path_with2(path: &Vec<i32>, a: i32, b: i32) -> (r: Vec<i32>)
    ensures
        r@ == path@ + seq![a, b],
{
    let mut r = crate::visit::clone_path(path);
    r.push(a);
    r.push(b);
    proof {
        assert(r@ =~= path@ + seq![a, b]);
    }
    r
}

/// The path of two elements `a` and `b`.
pub(crate) fn path_with_two(a: i32, b: i32) -> (r: Vec<i32>)
    ensures
        r@ == seq![a, b],
{
    let mut r: Vec<i32> = Vec::new();
    r.push(a);
    r.push(b);
    proof {
        assert(r@ =~= seq![a, b]);
    }
    r
}

/// `path` followed by the element `a`.
pub(crate) fn path_with1(path: &Vec<i32>, a: i32) -> (r: Vec<i32>)
    ensures
        r@ == path@.push(a),
{
    let mut r = crate::visit::clone_path(path);
    r.push(a);
    r
}

/// Whether `o` is the oneof built for declaration `i` of a message named
/// `full` at `path` in file `file`.
pub open spec fn oneof_built(
    o: crate::pool::OneofDescriptorInner,
    file: int,
    path: Seq<i32>,
    full: Seq<char>,
    decl: crate::types::OneofDescriptorProto,
    i: int,
) -> bool {
    &&& o.id.file == file
    &&& o.id.path@ == path + seq![tag::MESSAGE_ONEOF_DECL, i as i32]
    &&& o.id.full_name@ == crate::names::joined_name(full, opt_str(decl.name))
    &&& o.id.name@ == opt_str(decl.name)
    &&& o.fields@.len() == 0
}

/// Whether `m` is the message built for a message visited at `path` in file
/// `file` under the full name `full`.
pub open spec fn message_built(
    m: crate::pool::MessageDescriptorInner,
    file: int,
    path: Seq<i32>,
    full: Seq<char>,
    parent: Option<u32>,
    message: crate::types::DescriptorProto,
) -> bool {
    &&& m.id.file == file
    &&& m.id.path@ == path
    &&& m.id.full_name@ == full
    &&& m.id.name@ == opt_str(message.name)
    &&& m.parent == parent
    &&& m.extensions@.len() == 0
    &&& m.fields@.len() == 0
    &&& m.field_numbers@.len() == 0
    &&& m.oneofs@.len() == message.oneof_decl@.len()
    &&& forall|i: int| 0 <= i < m.oneofs@.len() ==> #[trigger] oneof_built(
        m.oneofs@[i],
        file,
        path,
        full,
        message.oneof_decl@[i],
        i,
    )
}

/// Builds a message with its oneofs, and no fields yet.
fn build_message(
    file: u32,
    path: &Vec<i32>,
    full: &Vec<char>,
    parent: Option<u32>,
    message: &crate::types::DescriptorProto,
) -> (r: crate::pool::MessageDescriptorInner)
    ensures
        message_built(r, file as int, path@, full@, parent, *message),
{
    let mut oneofs: Vec<crate::pool::OneofDescriptorInner> = Vec::new();
    let mut i: usize = 0;
    while i < message.oneof_decl.len()
        invariant
            i <= message.oneof_decl@.len(),
            oneofs@.len() == i,
            forall|k: int| 0 <= k < i ==> #[trigger] oneof_built(
                oneofs@[k],
                file as int,
                path@,
                full@,
                message.oneof_decl@[k],
                k,
            ),
        decreases message.oneof_decl@.len() - i,
    {
        let decl = &message.oneof_decl[i];
        let name = crate::text::chars_of(decl.name());
        let oneof_full = crate::names::join_name(full, &name);
        let id = crate::pool::Identity::new(
            file,
            path_with2(path, tag::MESSAGE_ONEOF_DECL, i as i32),
            string_from_chars(&oneof_full),
            crate::text::to_owned_string(decl.name()),
        );
        oneofs.push(crate::pool::OneofDescriptorInner { id, fields: Vec::new() });
        i += 1;
    }
    let id = crate::pool::Identity::new(
        file,
        crate::visit::clone_path(path),
        string_from_chars(full),
        crate::text::to_owned_string(message.name()),
    );
    crate::pool::MessageDescriptorInner {
        id,
        parent,
        extensions: Vec::new(),
        fields: Vec::new(),
        field_numbers: Vec::new(),
        oneofs,
    }
}

/// The scope enclosing a definition named `name` whose full name is `full`.
pub open spec fn enclosing_scope(full: Seq<char>, name: Seq<char>) -> Seq<char> {
    if full.len() > name.len() {
        full.take(full.len() - name.len() - 1)
    } else {
        Seq::empty()
    }
}

/// Whether `v` is the value built for value `i` of an enum at `path` in file
/// `file`, named in the scope `scope`.
pub open spec fn value_built(
    v: crate::pool::EnumValueDescriptorInner,
    file: int,
    path: Seq<i32>,
    scope: Seq<char>,
    value: crate::types::EnumValueDescriptorProto,
    i: int,
) -> bool {
    &&& v.id.file == file
    &&& v.id.path@ == path + seq![tag::ENUM_VALUE, i as i32]
    &&& v.id.full_name@ == crate::names::joined_name(scope, opt_str(value.name))
    &&& v.id.name@ == opt_str(value.name)
    &&& v.number == crate::types::opt_i32(value.number)
}

/// Whether `e` is the enum built for an enum visited at `path` in file `file`
/// under the full name `full`.
pub open spec fn enum_built(
    e: crate::pool::EnumDescriptorInner,
    file: int,
    path: Seq<i32>,
    full: Seq<char>,
    parent: Option<u32>,
    enum_: crate::types::EnumDescriptorProto,
) -> bool {
    &&& e.id.file == file
    &&& e.id.path@ == path
    &&& e.id.full_name@ == full
    &&& e.id.name@ == opt_str(enum_.name)
    &&& e.parent == parent
    &&& e.value_numbers@.len() == 0
    &&& e.allow_alias == crate::options::spec_allow_alias(enum_.options)
    &&& e.values@.len() == enum_.value@.len()
    &&& forall|i: int| 0 <= i < e.values@.len() ==> #[trigger] value_built(
        e.values@[i],
        file,
        path,
        enclosing_scope(full, opt_str(enum_.name)),
        enum_.value@[i],
        i,
    )
}

/// Builds an enum with its values.
fn build_enum(
    file: u32,
    path: &Vec<i32>,
    full: &Vec<char>,
    parent: Option<u32>,
    enum_: &crate::types::EnumDescriptorProto,
) -> (r: crate::pool::EnumDescriptorInner)
    ensures
        enum_built(r, file as int, path@, full@, parent, *enum_),
{
    let name = crate::text::chars_of(enum_.name());
    let scope = if full.len() > name.len() {
        prefix_of(full, full.len() - name.len() - 1)
    } else {
        Vec::new()
    };
    proof {
        assert(scope@ =~= enclosing_scope(full@, name@));
    }
    let mut values: Vec<crate::pool::EnumValueDescriptorInner> = Vec::new();
    let mut i: usize = 0;
    while i < enum_.value.len()
        invariant
            i <= enum_.value@.len(),
            values@.len() == i,
            scope@ == enclosing_scope(full@, opt_str(enum_.name)),
            forall|k: int| 0 <= k < i ==> #[trigger] value_built(
                values@[k],
                file as int,
                path@,
                scope@,
                enum_.value@[k],
                k,
            ),
        decreases enum_.value@.len() - i,
    {
        let value = &enum_.value[i];
        let vname = crate::text::chars_of(value.name());
        let value_full = crate::names::join_name(&scope, &vname);
        let id = crate::pool::Identity::new(
            file,
            path_with2(path, tag::ENUM_VALUE, i as i32),
            string_from_chars(&value_full),
            crate::text::to_owned_string(value.name()),
        );
        values.push(crate::pool::EnumValueDescriptorInner { id, number: value.number() });
        i += 1;
    }
    let id = crate::pool::Identity::new(
        file,
        crate::visit::clone_path(path),
        string_from_chars(full),
        crate::text::to_owned_string(enum_.name()),
    );
    crate::pool::EnumDescriptorInner {
        id,
        parent,
        values,
        value_numbers: Vec::new(),
        allow_alias: crate::options::allow_alias(&enum_.options),
    }
}

} // verus!

verus! {

/// Whether the index a definition kind carries is below the counters `c`.
pub open spec fn kind_below(k: DefinitionKind, c: crate::visit::Counts) -> bool {
    match k {
        DefinitionKind::Package => true,
        DefinitionKind::Message(m) => m < c.message,
        DefinitionKind::Field(m) => m < c.message,
        DefinitionKind::Oneof(m) => m < c.message,
        DefinitionKind::Service(s) => s < c.service,
        DefinitionKind::Method(s) => s < c.service,
        DefinitionKind::Enum(e) => e < c.enum_,
        DefinitionKind::EnumValue(e) => e < c.enum_,
        DefinitionKind::Extension(x) => x < c.extension,
    }
}

/// Whether an earlier file than `index` has the same name as it.
pub open spec fn file_name_taken(files: Seq<FileDescriptorInner>, index: int) -> bool {
    exists|j: int| 0 <= j < index && #[trigger] opt_str(files[j].raw.name) == opt_str(files[index].raw.name)
}

/// Whether an enum is invalid: it has no values, or, outside proto2, its
/// first value is not zero.
pub open spec fn enum_invalid(enum_: crate::types::EnumDescriptorProto, syntax: crate::kind::Syntax) -> bool {
    enum_.value@.len() == 0 || (syntax != crate::kind::Syntax::Proto2 && crate::types::opt_i32(
        enum_.value@[0].number,
    ) != 0)
}

/// Whether some error among `errors` reports a name defined twice.
pub open spec fn has_duplicate_name(errors: Seq<DescriptorErrorKind>) -> bool {
    exists|i: int| 0 <= i < errors.len() && (#[trigger] errors[i]) is DuplicateName
}

/// Whether some name the visits introduce, other than a package, is
/// introduced again under a name an earlier visit introduced.
pub open spec fn later_clash(vs: Seq<Visit>) -> bool {
    exists|j1: int, t1: int, j2: int, t2: int|
        0 <= j1 < j2 < vs.len() && 0 <= t1 < defs_of(vs[j1]).len() && 0 <= t2 < defs_of(vs[j2]).len() && (
        #[trigger] defs_of(vs[j1])[t1]).name == (#[trigger] defs_of(vs[j2])[t2]).name && defs_of(vs[j2])[t2].kind
            != DefinitionKind::Package
}

/// Whether some error among `errors` reports an empty enum or a proto3 enum
/// whose first value is not 0.
pub open spec fn has_enum_error(errors: Seq<DescriptorErrorKind>) -> bool {
    exists|i: int|
        0 <= i < errors.len() && ((#[trigger] errors[i]) is EmptyEnum || errors[i] is InvalidProto3EnumDefault)
}

/// Whether the name entry `e` registers a package or one of the names the
/// visits introduce.
pub open spec fn entry_from(e: NameEntry, vs: Seq<Visit>) -> bool {
    e.def.kind == DefinitionKind::Package || exists|j: int, t: int|
        0 <= j < vs.len() && 0 <= t < defs_of(vs[j]).len() && #[trigger] entry_is(e, defs_of(vs[j])[t])
}

/// Whether `e` reports that a file named `name` is already in the pool.
pub open spec fn is_duplicate_file(e: DescriptorErrorKind, name: Seq<char>) -> bool {
    match e {
        DescriptorErrorKind::DuplicateFileName { name: n } => n@ == name,
        _ => false,
    }
}

/// Whether a visit is of a file, of a message without fields, or of a
/// service.
pub open spec fn simple_visit(v: Visit) -> bool {
    match v.what {
        Visited::File(_) => true,
        Visited::Message { message, .. } => message.field@.len() == 0,
        Visited::Service(_) => true,
        _ => false,
    }
}

/// Whether the visits introduce their names without a clash: the package of
/// every visited file clashes with no entry of `names` but a package, and the
/// full name of every other visit is taken neither by an entry of `names`,
/// nor by another visit, nor by the package of a visited file or a part of it.
pub open spec fn names_clean(names: Seq<NameEntry>, vs: Seq<Visit>) -> bool {
    &&& forall|j: int| 0 <= j < vs.len() ==> match (#[trigger] vs[j]).what {
        Visited::File(f) => package_free(names, opt_str(f.package)),
        _ => lookup(names, vs[j].full_name) is None,
    }
    &&& forall|j1: int, j2: int|
        #![trigger vs[j1], vs[j2]]
        0 <= j1 < vs.len() && 0 <= j2 < vs.len() && j1 != j2 && !(vs[j1].what is File) ==> match vs[j2].what {
            Visited::File(f) => opt_str(f.package).len() == 0 || !package_part(opt_str(f.package), vs[j1].full_name),
            _ => vs[j2].full_name != vs[j1].full_name,
        }
}

/// Whether the name of the entry `e` is the package of one of the visited
/// files, or a part of it.
pub open spec fn packages_from(e: NameEntry, vs: Seq<Visit>) -> bool {
    exists|j: int|
        0 <= j < vs.len() && match (#[trigger] vs[j]).what {
            Visited::File(f) => opt_str(f.package).len() > 0 && package_part(opt_str(f.package), e.name@),
            _ => false,
        }
}

/// Whether the files from index `off` on are each named unlike every file
/// before them, and their visits `vs` are simple and introduce their names
/// into `names` without a clash.
pub open spec fn simple_files_from(files: Seq<FileDescriptorInner>, off: int, names: Seq<NameEntry>, vs: Seq<Visit>) -> bool {
    &&& forall|k: int| off <= k < files.len() ==> !file_name_taken(files, k)
    &&& forall|j: int| 0 <= j < vs.len() ==> simple_visit(#[trigger] vs[j])
    &&& names_clean(names, vs)
}

/// In a table that holds `n0` and then only names of the visits before `pos`,
/// the visit at `pos` of visits that introduce their names without a clash
/// finds its name free.
proof fn lemma_clean_step(n0: Seq<NameEntry>, names: Seq<NameEntry>, vs: Seq<Visit>, pos: int)
    requires
        names_clean(n0, vs),
        0 <= pos < vs.len(),
        n0.len() <= names.len(),
        names.take(n0.len() as int) == n0,
        forall|i: int| n0.len() <= i < names.len() ==> entry_from(#[trigger] names[i], vs.take(pos)),
        forall|i: int| n0.len() <= i < names.len() && names[i].def.kind == DefinitionKind::Package ==> packages_from(
            #[trigger] names[i],
            vs.take(pos),
        ),
    ensures
        vs[pos].what matches Visited::File(f) ==> package_free(names, opt_str(f.package)),
        !(vs[pos].what is File) ==> lookup(names, vs[pos].full_name) is None,
{
    let v = vs[pos];
    assert(match v.what {
        Visited::File(f) => package_free(n0, opt_str(f.package)),
        _ => lookup(n0, v.full_name) is None,
    });
    if let Visited::File(f) = v.what {
        let pkg = opt_str(f.package);
        if pkg.len() > 0 {
            assert forall|i: int| 0 <= i < names.len() && names[i].def.kind != DefinitionKind::Package implies !package_part(
                pkg,
                #[trigger] names[i].name@,
            ) by {
                if i < n0.len() {
                    assert(names.take(n0.len() as int)[i] == names[i]);
                } else {
                    assert(entry_from(names[i], vs.take(pos)));
                    let (j, t) = choose|j: int, t: int|
                        0 <= j < vs.take(pos).len() && 0 <= t < defs_of(vs.take(pos)[j]).len() && #[trigger] entry_is(
                            names[i],
                            defs_of(vs.take(pos)[j])[t],
                        );
                    assert(vs.take(pos)[j] == vs[j]);
                    if vs[j].what is File {
                        assert(defs_of(vs[j])[t].kind == DefinitionKind::Package);
                    }
                    assert(defs_of(vs[j])[t].name == vs[j].full_name);
                    assert(!(vs[j].what is File) && j != pos);
                }
            }
        }
    } else {
        crate::definition::lemma_lookup(names, v.full_name);
        crate::definition::lemma_lookup(n0, v.full_name);
        if lookup(names, v.full_name) is Some {
            let k = lookup(names, v.full_name)->0;
            if k < n0.len() {
                assert(names.take(n0.len() as int)[k] == names[k]);
            } else if names[k].def.kind == DefinitionKind::Package {
                assert(packages_from(names[k], vs.take(pos)));
                let j = choose|j: int|
                    0 <= j < vs.take(pos).len() && match (#[trigger] vs.take(pos)[j]).what {
                        Visited::File(f) => opt_str(f.package).len() > 0 && package_part(opt_str(f.package), names[k].name@),
                        _ => false,
                    };
                assert(vs.take(pos)[j] == vs[j]);
                assert(j != pos);
            } else {
                assert(entry_from(names[k], vs.take(pos)));
                let (j, t) = choose|j: int, t: int|
                    0 <= j < vs.take(pos).len() && 0 <= t < defs_of(vs.take(pos)[j]).len() && #[trigger] entry_is(
                        names[k],
                        defs_of(vs.take(pos)[j])[t],
                    );
                assert(vs.take(pos)[j] == vs[j]);
                if vs[j].what is File {
                    assert(defs_of(vs[j])[t].kind == DefinitionKind::Package);
                }
                assert(defs_of(vs[j])[t].name == vs[j].full_name);
                assert(j != pos);
            }
        }
    }
}

/// Whether no enum among the visits is invalid in the syntax of its file.
pub open spec fn no_invalid_enum(vs: Seq<Visit>, files: Seq<FileDescriptorInner>) -> bool {
    forall|j: int| 0 <= j < vs.len() ==> match (#[trigger] vs[j]).what {
        Visited::Enum { enum_, .. } => !enum_invalid(enum_, files[vs[j].file].syntax),
        _ => true,
    }
}

/// Whether the first `index` files have a file named `name`.
pub(crate) fn has_file_named(files: &Vec<FileDescriptorInner>, index: usize, name: &str) -> (r: bool)
    requires
        index <= files@.len(),
    ensures
        r == exists|j: int| 0 <= j < index && #[trigger] opt_str(files@[j].raw.name) == name@,
{
    let mut j: usize = 0;
    while j < index
        invariant
            j <= index <= files@.len(),
            forall|k: int| 0 <= k < j ==> #[trigger] opt_str(files@[k].raw.name) != name@,
        decreases index - j,
    {
        if crate::text::str_eq(files[j].raw.name(), name) {
            return true;
        }
        j += 1;
    }
    false
}

/// Registers the names a visit introduces and adds what it defines to the pool.
pub(crate) fn collect_event<'a>(
    names: &mut Vec<NameEntry>,
    messages: &mut Vec<crate::pool::MessageDescriptorInner>,
    enums: &mut Vec<crate::pool::EnumDescriptorInner>,
    files: &Vec<FileDescriptorInner>,
    errors: &mut Vec<DescriptorErrorKind>,
    ev: &crate::visit::VisitEvent<'a>,
    bound: Ghost<crate::visit::Counts>,
)
    requires
        ev.file < files@.len(),
        defs_in_files(old(names)@, files@.len() as int),
        ev.what matches crate::visit::VisitedRef::File(f) ==> ev.index == ev.file && files@[ev.index as int].raw == *f,
        crate::visit::visit_below(ev@, bound@),
        crate::visit::counts_fit(bound@),
    ensures
        grows(old(names)@, final(names)@, old(errors)@, final(errors)@),
        defs_in_files(final(names)@, files@.len() as int),
        forall|i: int| old(names)@.len() <= i < final(names)@.len() ==> kind_below((#[trigger] final(names)@[i]).def.kind, bound@),
        forall|t: int| 0 <= t < defs_of(ev@).len() ==> registered(
            final(names)@,
            #[trigger] defs_of(ev@)[t],
            final(errors)@.len() == old(errors)@.len(),
        ),
        ev.what matches crate::visit::VisitedRef::File(f) && file_name_taken(files@, ev.index as int)
            ==> final(errors)@.len() > old(errors)@.len(),
        match ev.what {
            crate::visit::VisitedRef::File(f) => file_name_taken(files@, ev.index as int) ==> is_duplicate_file(
                final(errors)@[old(errors)@.len() as int],
                opt_str(f.name),
            ),
            _ => true,
        },
        ev.what matches crate::visit::VisitedRef::File(f) ==> forall|i: int| old(names)@.len() <= i < final(names)@.len()
            ==> opt_str(f.package).len() > 0 && package_part(opt_str(f.package), (#[trigger] final(names)@[i]).name@),
        ev.what is Service || (ev.what matches crate::visit::VisitedRef::Message { message, .. } && message.field@.len()
            == 0) ==> name_added(old(names)@, final(names)@, old(errors)@, final(errors)@, defs_of(ev@)[0]),
        ev.what matches crate::visit::VisitedRef::File(f) && !file_name_taken(files@, ev.index as int) && package_free(
            old(names)@,
            opt_str(f.package),
        ) ==> final(errors)@ == old(errors)@,
        ev.what matches crate::visit::VisitedRef::Message { parent, message } ==> final(messages)@.len()
            == old(messages)@.len() + 1 && final(messages)@.drop_last() == old(messages)@ && message_built(
            final(messages)@.last(),
            ev.file as int,
            ev.path@,
            ev.full_name@,
            parent,
            *message,
        ),
        !(ev.what is Message) ==> final(messages)@ == old(messages)@,
        ev.what matches crate::visit::VisitedRef::Enum { parent, enum_ } ==> final(enums)@.len() == old(
            enums,
        )@.len() + 1 && final(enums)@.drop_last() == old(enums)@ && enum_built(
            final(enums)@.last(),
            ev.file as int,
            ev.path@,
            ev.full_name@,
            parent,
            *enum_,
        ) && (enum_invalid(*enum_, files@[ev.file as int].syntax) ==> final(errors)@.len() > old(
            errors,
        )@.len()),
        ev.what matches crate::visit::VisitedRef::Enum { enum_, .. } ==> exists|mid: Seq<DescriptorErrorKind>|
            name_added(old(names)@, final(names)@, old(errors)@, mid, #[trigger] defs_of(ev@)[0]) && enum_checked(
                mid,
                final(errors)@,
                *enum_,
                files@[ev.file as int].syntax,
                files@[ev.file as int].raw,
                ev.path@,
            ),
        !(ev.what is Enum) ==> final(enums)@ == old(enums)@,
        forall|i: int| old(names)@.len() <= i < final(names)@.len() ==> (#[trigger] final(names)@[i]).def.kind
            == DefinitionKind::Package || (defs_of(ev@).len() > 0 && entry_is(final(names)@[i], defs_of(ev@)[0])),
        !(ev.what is File) ==> exists|mid: Seq<DescriptorErrorKind>|
            name_added(old(names)@, final(names)@, old(errors)@, mid, #[trigger] defs_of(ev@)[0]) && mid.len()
                <= final(errors)@.len() && final(errors)@.take(mid.len() as int) == mid,
{
    let ghost n0 = names@;
    let ghost e0 = errors@;
    let file = ev.file;
    match &ev.what {
        crate::visit::VisitedRef::File(f) => {
            let taken = has_file_named(files, ev.index as usize, f.name());
            if taken {
                errors.push(DescriptorErrorKind::DuplicateFileName {
                    name: crate::text::to_owned_string(f.name()),
                });
            }
            let ghost n1 = names@;
            let ghost e1 = errors@;
            let package = crate::text::chars_of(f.package());
            add_package_names(names, files, errors, ev.index, &package);
            proof {
                if taken {
                    assert(errors@.take(e1.len() as int)[e0.len() as int] == e1[e0.len() as int]);
                }
                assert(e1.take(e0.len() as int) =~= e0);
                assert(errors@.take(e0.len() as int) =~= errors@.take(e1.len() as int).take(e0.len() as int));
                assert(names@.take(n0.len() as int) =~= names@.take(n1.len() as int).take(n0.len() as int));
                assert(defs_of(ev@) == package_defs(package@, ev.index as int));
                if taken {
                    assert(file_name_taken(files@, ev.index as int));
                } else {
                    assert(!file_name_taken(files@, ev.index as int));
                }
                assert(grows(n0, names@, e0, errors@));
            }
        },
        crate::visit::VisitedRef::Message { parent, message } => {
            let path = path_with1(&ev.path, tag::MESSAGE_NAME);
            add_name(names, files, errors, file, &ev.full_name, path, crate::definition::DefinitionKind::Message(ev.index));
            let m = build_message(file, &ev.path, &ev.full_name, *parent, message);
            messages.push(m);
            let ghost e1 = errors@;
            if files[file as usize].syntax != crate::kind::Syntax::Proto2 {
                check_message_field_camel_case_names(files, errors, file, &ev.path, message);
            }
            proof {
                let d = defs_of(ev@)[0];
                if message.field@.len() == 0 {
                    assert(camel_conflicts(message.field@, message.field@.len() as int) =~= Seq::<(int, int)>::empty());
                    assert(errors@ =~= e1);
                }
                lemma_name_added_registers(n0, names@, e0, e1, d);
                assert(names@.take(names@.len() as int) =~= names@);
                lemma_registered_grows(names@, names@, d, e1.len() == e0.len(), errors@.len() == e0.len());
                assert(errors@.take(e0.len() as int) =~= errors@.take(e1.len() as int).take(e0.len() as int));
                assert(name_added(n0, names@, e0, e1, d) && e1.len() <= errors@.len() && errors@.take(e1.len() as int) == e1);
                assert(grows(n0, names@, e0, errors@));
            }
        },
        crate::visit::VisitedRef::Enum { parent, enum_ } => {
            let path = path_with1(&ev.path, tag::ENUM_NAME);
            add_name(names, files, errors, file, &ev.full_name, path, crate::definition::DefinitionKind::Enum(ev.index));
            let ghost e1 = errors@;
            if enum_.value.len() == 0 {
                let found = Label::new(files, file, crate::visit::clone_path(&ev.path));
                errors.push(DescriptorErrorKind::EmptyEnum { found });
            } else if files[file as usize].syntax != crate::kind::Syntax::Proto2 && enum_.value[0].number() != 0 {
                let found = Label::new(files, file, path_with3(&ev.path, tag::ENUM_VALUE, 0, tag::ENUM_VALUE_NUMBER));
                errors.push(DescriptorErrorKind::InvalidProto3EnumDefault { found });
            }
            let e = build_enum(file, &ev.path, &ev.full_name, *parent, enum_);
            enums.push(e);
            proof {
                let d = defs_of(ev@)[0];
                if errors@.len() > e1.len() {
                    assert(errors@.drop_last() =~= e1);
                }
                assert(enum_checked(e1, errors@, **enum_, files@[file as int].syntax, files@[file as int].raw, ev.path@));
                lemma_name_added_registers(n0, names@, e0, e1, d);
                assert(names@.take(names@.len() as int) =~= names@);
                lemma_registered_grows(names@, names@, d, e1.len() == e0.len(), errors@.len() == e0.len());
                assert(errors@.take(e1.len() as int) =~= e1);
                assert(errors@.take(e0.len() as int) =~= errors@.take(e1.len() as int).take(e0.len() as int));
                assert(grows(n0, names@, e0, errors@));
            }
        },
        _ => {
            let (name_tag, kind): (i32, crate::definition::DefinitionKind) = match &ev.what {
                crate::visit::VisitedRef::Field { message, .. } => (tag::FIELD_NAME, crate::definition::DefinitionKind::Field(*message)),
                crate::visit::VisitedRef::Oneof { message, .. } => (tag::ONEOF_NAME, crate::definition::DefinitionKind::Oneof(*message)),
                crate::visit::VisitedRef::Service(_) => (tag::SERVICE_NAME, crate::definition::DefinitionKind::Service(ev.index)),
                crate::visit::VisitedRef::Method { service, .. } => (tag::SERVICE_NAME, crate::definition::DefinitionKind::Method(*service)),
                crate::visit::VisitedRef::EnumValue { enum_, .. } => (tag::ENUM_VALUE_NAME, crate::definition::DefinitionKind::EnumValue(*enum_)),
                _ => (tag::FIELD_NAME, crate::definition::DefinitionKind::Extension(ev.index)),
            };
            let path = path_with1(&ev.path, name_tag);
            add_name(names, files, errors, file, &ev.full_name, path, kind);
            proof {
                let d = defs_of(ev@)[0];
                lemma_name_added_registers(n0, names@, e0, errors@, d);
                assert(errors@.take(errors@.len() as int) =~= errors@);
            }
        },
    }
}

} // verus!

verus! {

/// Whether `m` is the message built for the visit `v` of a message.
pub open spec fn message_of_visit(m: crate::pool::MessageDescriptorInner, v: Visit) -> bool {
    match v.what {
        Visited::Message { parent, message } => {
            &&& message_built(m, v.file, v.path, v.full_name, m.parent, message)
            &&& crate::visit::opt_int(m.parent) == parent
        },
        _ => false,
    }
}

/// Whether `e` is the enum built for the visit `v` of an enum.
pub open spec fn enum_of_visit(e: crate::pool::EnumDescriptorInner, v: Visit) -> bool {
    match v.what {
        Visited::Enum { parent, enum_ } => {
            &&& enum_built(e, v.file, v.path, v.full_name, e.parent, enum_)
            &&& crate::visit::opt_int(e.parent) == parent
        },
        _ => false,
    }
}

/// Whether each message and enum visited is at its index in the tables.
pub open spec fn built_at_index(
    messages: Seq<crate::pool::MessageDescriptorInner>,
    enums: Seq<crate::pool::EnumDescriptorInner>,
    visits: Seq<Visit>,
) -> bool {
    &&& forall|j: int| 0 <= j < visits.len() && (#[trigger] visits[j]).what is Message ==> 0 <= visits[j].index
        < messages.len() && message_of_visit(messages[visits[j].index], visits[j])
    &&& forall|j: int| 0 <= j < visits.len() && (#[trigger] visits[j]).what is Enum ==> 0 <= visits[j].index
        < enums.len() && enum_of_visit(enums[visits[j].index], visits[j])
}

/// The file descriptors of the files from index `off` on.
pub open spec fn raws_from(files: Seq<FileDescriptorInner>, off: int) -> Seq<crate::types::FileDescriptorProto> {
    Seq::new((files.len() - off) as nat, |k: int| files[off + k].raw)
}

/// Whether every name each of the visits introduces is registered.
pub open spec fn all_registered(names: Seq<NameEntry>, visits: Seq<Visit>, no_new_errors: bool) -> bool {
    forall|j: int, t: int|
        0 <= j < visits.len() && 0 <= t < defs_of(visits[j]).len() ==> registered(
            names,
            #[trigger] defs_of(visits[j])[t],
            no_new_errors,
        )
}

/// What stays registered when the table only grows.
pub proof fn lemma_all_registered_grows(
    names: Seq<NameEntry>,
    names2: Seq<NameEntry>,
    visits: Seq<Visit>,
    b: bool,
    b2: bool,
)
    requires
        all_registered(names, visits, b),
        names.len() <= names2.len(),
        names2.take(names.len() as int) == names,
        b2 ==> b,
    ensures
        all_registered(names2, visits, b2),
{
    assert forall|j: int, t: int|
        0 <= j < visits.len() && 0 <= t < defs_of(visits[j]).len() implies registered(
            names2,
            #[trigger] defs_of(visits[j])[t],
            b2,
        ) by {
        lemma_registered_grows(names, names2, defs_of(visits[j])[t], b, b2);
    }
}

/// A visit that introduces a name an earlier visit introduced, and is not a
/// package, leaves a duplicate-name error among the errors.
proof fn lemma_clash_step(
    processed: Seq<Visit>,
    v: Visit,
    names_before: Seq<NameEntry>,
    names2: Seq<NameEntry>,
    errors_before: Seq<DescriptorErrorKind>,
    errors2: Seq<DescriptorErrorKind>,
    b: bool,
)
    requires
        later_clash(processed) ==> has_duplicate_name(errors_before),
        errors_before.len() <= errors2.len(),
        errors2.take(errors_before.len() as int) == errors_before,
        all_registered(names_before, processed, b),
        !(v.what is File) ==> exists|mid: Seq<DescriptorErrorKind>|
            name_added(names_before, names2, errors_before, mid, #[trigger] defs_of(v)[0]) && mid.len()
                <= errors2.len() && errors2.take(mid.len() as int) == mid,
    ensures
        later_clash(processed.push(v)) ==> has_duplicate_name(errors2),
{
    let p2 = processed.push(v);
    if later_clash(p2) {
        let (j1, t1, j2, t2) = choose|j1: int, t1: int, j2: int, t2: int|
            0 <= j1 < j2 < p2.len() && 0 <= t1 < defs_of(p2[j1]).len() && 0 <= t2 < defs_of(p2[j2]).len()
                && (#[trigger] defs_of(p2[j1])[t1]).name == (#[trigger] defs_of(p2[j2])[t2]).name
                && defs_of(p2[j2])[t2].kind != DefinitionKind::Package;
        if j2 < processed.len() {
            assert(p2[j1] == processed[j1]);
            assert(p2[j2] == processed[j2]);
            assert(later_clash(processed));
            let i0 = choose|i: int| 0 <= i < errors_before.len() && (#[trigger] errors_before[i]) is DuplicateName;
            assert(errors2.take(errors_before.len() as int)[i0] == errors2[i0]);
        } else {
            assert(p2[j2] == v);
            assert(p2[j1] == processed[j1]);
            let d1 = defs_of(processed[j1])[t1];
            assert(registered(names_before, d1, b));
            assert(!(v.what is File));
            assert(t2 == 0);
            let d2 = defs_of(v)[0];
            let mid = choose|mid: Seq<DescriptorErrorKind>|
                name_added(names_before, names2, errors_before, mid, #[trigger] defs_of(v)[0]) && mid.len()
                    <= errors2.len() && errors2.take(mid.len() as int) == mid;
            assert(lookup(names_before, d2.name) is Some);
            assert(mid.len() == errors_before.len() + 1);
            assert(mid.last() is DuplicateName);
            assert(errors2.take(mid.len() as int)[mid.len() - 1] == errors2[mid.len() - 1]);
        }
    }
}

/// An invalid enum leaves an enum error among the errors.
proof fn lemma_enum_error_step(
    processed: Seq<Visit>,
    v: Visit,
    files: Seq<FileDescriptorInner>,
    names_before: Seq<NameEntry>,
    names2: Seq<NameEntry>,
    errors_before: Seq<DescriptorErrorKind>,
    errors2: Seq<DescriptorErrorKind>,
)
    requires
        !no_invalid_enum(processed, files) ==> has_enum_error(errors_before),
        errors_before.len() <= errors2.len(),
        errors2.take(errors_before.len() as int) == errors_before,
        match v.what {
            Visited::Enum { enum_, .. } => exists|mid: Seq<DescriptorErrorKind>|
                name_added(names_before, names2, errors_before, mid, #[trigger] defs_of(v)[0]) && enum_checked(
                    mid,
                    errors2,
                    enum_,
                    files[v.file].syntax,
                    files[v.file].raw,
                    v.path,
                ),
            _ => true,
        },
    ensures
        !no_invalid_enum(processed.push(v), files) ==> has_enum_error(errors2),
{
    let p2 = processed.push(v);
    if !no_invalid_enum(p2, files) {
        if !no_invalid_enum(processed, files) {
            let i0 = choose|i: int|
                0 <= i < errors_before.len() && ((#[trigger] errors_before[i]) is EmptyEnum
                    || errors_before[i] is InvalidProto3EnumDefault);
            assert(errors2.take(errors_before.len() as int)[i0] == errors2[i0]);
        } else {
            let a = choose|a: int| 0 <= a < p2.len() && !match (#[trigger] p2[a]).what {
                Visited::Enum { enum_, .. } => !enum_invalid(enum_, files[p2[a].file].syntax),
                _ => true,
            };
            if a < processed.len() {
                assert(p2[a] == processed[a]);
                assert(false);
            }
            assert(p2[a] == v);
            if let Visited::Enum { enum_, .. } = v.what {
                let mid = choose|mid: Seq<DescriptorErrorKind>|
                    name_added(names_before, names2, errors_before, mid, #[trigger] defs_of(v)[0]) && enum_checked(
                        mid,
                        errors2,
                        enum_,
                        files[v.file].syntax,
                        files[v.file].raw,
                        v.path,
                    );
                assert(errors2[errors2.len() - 1] == errors2.last());
            }
        }
    }
}

/// Registers the names of every file from index `offsets.file` on, adding
/// their messages and enums; `Ok` when nothing was reported, in which case
/// every name the files introduce is registered for its own definition.
#[verifier::rlimit(60)]
#[verifier::spinoff_prover]
pub fn collect_names(
    names: &mut Vec<NameEntry>,
    messages: &mut Vec<crate::pool::MessageDescriptorInner>,
    enums: &mut Vec<crate::pool::EnumDescriptorInner>,
    files: &Vec<FileDescriptorInner>,
    offsets: crate::visit::DescriptorPoolOffsets,
) -> (r: (Vec<DescriptorErrorKind>, crate::visit::DescriptorPoolOffsets))
    requires
        offsets.file <= files@.len(),
        defs_in_files(old(names)@, files@.len() as int),
        crate::visit::files_fit(raws_from(files@, offsets.file as int)),
        crate::visit::counts_fit(
            crate::visit::files_visits(raws_from(files@, offsets.file as int), 0, offsets.counts()).1,
        ),
        offsets.message == old(messages)@.len(),
        offsets.enum_ == old(enums)@.len(),
    ensures
        final(names)@.len() >= old(names)@.len(),
        forall|i: int| old(names)@.len() <= i < final(names)@.len() ==> kind_below((#[trigger] final(names)@[i]).def.kind, r.1.counts()),
        final(messages)@.len() == r.1.message,
        final(enums)@.len() == r.1.enum_,
        forall|j: int| old(messages)@.len() <= j < final(messages)@.len() ==> crate::wf::message_ok(#[trigger] final(messages)@[j], r.1.counts()),
        forall|j: int| old(enums)@.len() <= j < final(enums)@.len() ==> crate::wf::enum_ok(#[trigger] final(enums)@[j], r.1.counts()),
        built_at_index(final(messages)@, final(enums)@, crate::visit::files_visits(raws_from(files@, offsets.file as int), 0, offsets.counts()).0),
        final(names)@.take(old(names)@.len() as int) == old(names)@,
        defs_in_files(final(names)@, files@.len() as int),
        final(messages)@.len() >= old(messages)@.len(),
        final(messages)@.take(old(messages)@.len() as int) == old(messages)@,
        final(enums)@.len() >= old(enums)@.len(),
        final(enums)@.take(old(enums)@.len() as int) == old(enums)@,
        forall|j: int| old(messages)@.len() <= j < final(messages)@.len() ==> (#[trigger] final(messages)@[j]).field_numbers@.len() == 0,
        forall|j: int| old(enums)@.len() <= j < final(enums)@.len() ==> (#[trigger] final(enums)@[j]).value_numbers@.len() == 0,
        r.1.counts() == crate::visit::files_visits(raws_from(files@, offsets.file as int), 0, offsets.counts()).1,
        all_registered(
            final(names)@,
            crate::visit::files_visits(raws_from(files@, offsets.file as int), 0, offsets.counts()).0,
            r.0@.len() == 0,
        ),
        r.0@.len() == 0 ==> no_invalid_enum(
            crate::visit::files_visits(raws_from(files@, offsets.file as int), 0, offsets.counts()).0,
            files@,
        ),
        simple_files_from(
            files@,
            offsets.file as int,
            old(names)@,
            crate::visit::files_visits(raws_from(files@, offsets.file as int), 0, offsets.counts()).0,
        ) ==> r.0@.len() == 0,
        !no_invalid_enum(
            crate::visit::files_visits(raws_from(files@, offsets.file as int), 0, offsets.counts()).0,
            files@,
        ) ==> has_enum_error(r.0@),
        later_clash(crate::visit::files_visits(raws_from(files@, offsets.file as int), 0, offsets.counts()).0)
            ==> has_duplicate_name(r.0@),
        forall|i: int| old(names)@.len() <= i < final(names)@.len() ==> entry_from(
            #[trigger] final(names)@[i],
            crate::visit::files_visits(raws_from(files@, offsets.file as int), 0, offsets.counts()).0,
        ),
{
    let ghost raws = raws_from(files@, offsets.file as int);
    let ghost all = crate::visit::files_visits(raws, 0, offsets.counts());
    proof {
        crate::visit::lemma_files_counts(raws, 0, offsets.counts());
        crate::visit::lemma_files_below(raws, 0, offsets.counts(), all.1);
        crate::visit::lemma_files_numbering(raws, 0, offsets.counts());
    }
    let ghost n0 = names@;
    let ghost m0 = messages@;
    let ghost en0 = enums@;
    let mut errors: Vec<DescriptorErrorKind> = Vec::new();
    let mut counters = offsets;
    let mut fi: usize = offsets.file as usize;
    let ghost mut processed: Seq<Visit> = Seq::empty();
    proof {
        assert(n0.take(n0.len() as int) =~= n0);
        assert(m0.take(m0.len() as int) =~= m0);
        assert(en0.take(en0.len() as int) =~= en0);
    }
    while fi < files.len()
        invariant
            offsets.file <= fi <= files@.len(),
            raws == raws_from(files@, offsets.file as int),
            all == crate::visit::files_visits(raws, 0, offsets.counts()),
            crate::visit::files_fit(raws),
            crate::visit::counts_fit(all.1),
            counters.file == fi,
            crate::visit::files_visits(raws, fi - offsets.file, counters.counts()).1 == all.1,
            processed + crate::visit::files_visits(raws, fi - offsets.file, counters.counts()).0 == all.0,
            defs_in_files(names@, files@.len() as int),
            names@.len() >= n0.len(),
            names@.take(n0.len() as int) == n0,
            messages@.len() >= m0.len(),
            messages@.take(m0.len() as int) == m0,
            enums@.len() >= en0.len(),
            enums@.take(en0.len() as int) == en0,
            forall|j: int| m0.len() <= j < messages@.len() ==> (#[trigger] messages@[j]).field_numbers@.len() == 0,
            forall|j: int| en0.len() <= j < enums@.len() ==> (#[trigger] enums@[j]).value_numbers@.len() == 0,
            all_registered(names@, processed, errors@.len() == 0),
            errors@.len() == 0 ==> no_invalid_enum(processed, files@),
            simple_files_from(files@, offsets.file as int, n0, all.0) ==> errors@.len() == 0,
            names_clean(n0, all.0) ==> forall|i: int| n0.len() <= i < names@.len() && names@[i].def.kind == DefinitionKind::Package
                ==> packages_from(#[trigger] names@[i], processed),
            forall|i: int| n0.len() <= i < names@.len() ==> entry_from(#[trigger] names@[i], processed),
            !no_invalid_enum(processed, files@) ==> has_enum_error(errors@),
            later_clash(processed) ==> has_duplicate_name(errors@),
            crate::visit::visits_below(all.0, all.1),
            crate::visit::numbering(all.0, offsets.counts(), all.1),
            offsets.message == m0.len(),
            offsets.enum_ == en0.len(),
            forall|i: int| n0.len() <= i < names@.len() ==> kind_below((#[trigger] names@[i]).def.kind, all.1),
            messages@.len() == m0.len() + crate::visit::count_kind(processed, 0),
            enums@.len() == en0.len() + crate::visit::count_kind(processed, 1),
            built_at_index(messages@, enums@, processed),
            forall|j: int| m0.len() <= j < messages@.len() ==> crate::wf::message_ok(#[trigger] messages@[j], all.1),
            forall|j: int| en0.len() <= j < enums@.len() ==> crate::wf::enum_ok(#[trigger] enums@[j], all.1),
        decreases files@.len() - fi,
    {
        let k: Ghost<int> = Ghost(fi - offsets.file);
        let ghost cur = counters.counts();
        let ghost fv = crate::visit::file_visits(raws[k@], cur);
        proof {
            assert(raws[k@] == files@[fi as int].raw);
            crate::visit::lemma_file_counts(raws[k@], cur);
            crate::visit::lemma_files_counts(raws, k@ + 1, fv.1);
            crate::visit::lemma_file_visits_shape(raws[k@], cur);
            assert(crate::visit::file_fits(raws[k@]));
        }
        let (events, next) = crate::visit::visit_file_events(counters, &files[fi].raw);
        let mut j: usize = 0;
        let ghost p0 = processed;
        let ghost rest = crate::visit::files_visits(raws, k@ + 1, fv.1).0;
        proof {
            assert(crate::visit::files_visits(raws, k@, cur).0 == fv.0 + rest);
        }
        while j < events.len()
            invariant
                j <= events@.len(),
                fi < files@.len(),
                crate::visit::events_view(events@) == fv.0,
                fv.0[0] == (Visit {
                    path: Seq::empty(),
                    full_name: opt_str(files@[fi as int].raw.package),
                    file: fi as int,
                    index: fi as int,
                    what: Visited::File(files@[fi as int].raw),
                }),
                crate::visit::inner_visits(fv.0.drop_first(), fi as int),
                processed == p0 + fv.0.take(j as int),
                defs_in_files(names@, files@.len() as int),
                names@.len() >= n0.len(),
                names@.take(n0.len() as int) == n0,
                messages@.len() >= m0.len(),
                messages@.take(m0.len() as int) == m0,
                enums@.len() >= en0.len(),
                enums@.take(en0.len() as int) == en0,
                forall|j: int| m0.len() <= j < messages@.len() ==> (#[trigger] messages@[j]).field_numbers@.len() == 0,
                forall|j: int| en0.len() <= j < enums@.len() ==> (#[trigger] enums@[j]).value_numbers@.len() == 0,
                all_registered(names@, processed, errors@.len() == 0),
                errors@.len() == 0 ==> no_invalid_enum(processed, files@),
                simple_files_from(files@, offsets.file as int, n0, all.0) ==> errors@.len() == 0,
                names_clean(n0, all.0) ==> forall|i: int| n0.len() <= i < names@.len() && names@[i].def.kind == DefinitionKind::Package
                    ==> packages_from(#[trigger] names@[i], processed),
                forall|i: int| n0.len() <= i < names@.len() ==> entry_from(#[trigger] names@[i], processed),
                !no_invalid_enum(processed, files@) ==> has_enum_error(errors@),
                later_clash(processed) ==> has_duplicate_name(errors@),
                offsets.file <= fi,
                fv == crate::visit::file_visits(files@[fi as int].raw, cur),
                crate::visit::visits_below(all.0, all.1),
                crate::visit::numbering(all.0, offsets.counts(), all.1),
                crate::visit::counts_fit(all.1),
                offsets.message == m0.len(),
                offsets.enum_ == en0.len(),
                forall|i: int| n0.len() <= i < names@.len() ==> kind_below((#[trigger] names@[i]).def.kind, all.1),
                messages@.len() == m0.len() + crate::visit::count_kind(processed, 0),
                enums@.len() == en0.len() + crate::visit::count_kind(processed, 1),
                built_at_index(messages@, enums@, processed),
                p0 + fv.0 + rest == all.0,
                forall|j: int| m0.len() <= j < messages@.len() ==> crate::wf::message_ok(#[trigger] messages@[j], all.1),
                forall|j: int| en0.len() <= j < enums@.len() ==> crate::wf::enum_ok(#[trigger] enums@[j], all.1),
            decreases events@.len() - j,
        {
            let ev = &events[j];
            proof {
                assert(crate::visit::events_view(events@)[j as int] == ev@);
                if j > 0 {
                    assert(fv.0.drop_first()[j - 1] == fv.0[j as int]);
                }
                if let crate::visit::VisitedRef::File(f) = ev.what {
                    if j > 0 {
                        assert(!(fv.0.drop_first()[j - 1].what is File));
                    }
                }
            }
            let ghost names_before = names@;
            let ghost errors_before = errors@;
            let ghost msgs_before = messages@;
            let ghost enums_before = enums@;
            let ghost pos = p0.len() + j;
            proof {
                assert(all.0[pos] == fv.0[j as int]) by {
                    assert((p0 + fv.0 + rest)[pos] == fv.0[j as int]);
                }
                assert(all.0.take(pos) =~= processed) by {
                    assert(processed =~= p0 + fv.0.take(j as int));
                }
                assert(crate::visit::visit_below(all.0[pos], all.1));
            }
            collect_event(names, messages, enums, files, &mut errors, ev, Ghost(all.1));
            proof {
                lemma_all_registered_grows(names_before, names@, processed, errors_before.len() == 0, errors@.len() == 0);
                let v = fv.0[j as int];
                assert(v == ev@);
                assert forall|t: int| 0 <= t < defs_of(v).len() implies registered(
                    names@,
                    #[trigger] defs_of(v)[t],
                    errors@.len() == 0,
                ) by {
                    assert(names@.take(names@.len() as int) =~= names@);
                    lemma_registered_grows(names@, names@, defs_of(v)[t], errors@.len() == errors_before.len(), errors@.len() == 0);
                }
                let p2 = p0 + fv.0.take(j + 1);
                assert(p2 =~= processed.push(v));
                assert forall|a: int, t: int|
                    0 <= a < p2.len() && 0 <= t < defs_of(p2[a]).len() implies registered(
                        names@,
                        #[trigger] defs_of(p2[a])[t],
                        errors@.len() == 0,
                    ) by {
                    if a < processed.len() {
                        assert(p2[a] == processed[a]);
                    } else {
                        assert(p2[a] == v);
                    }
                }
                assert(crate::visit::count_kind(p2, 0) == crate::visit::count_kind(processed, 0) + if crate::visit::is_kind(v, 0) { 1int } else { 0int }) by {
                    assert(p2.drop_last() =~= processed);
                }
                assert(crate::visit::count_kind(p2, 1) == crate::visit::count_kind(processed, 1) + if crate::visit::is_kind(v, 1) { 1int } else { 0int }) by {
                    assert(p2.drop_last() =~= processed);
                }
                assert forall|i: int| n0.len() <= i < names@.len() implies kind_below((#[trigger] names@[i]).def.kind, all.1) by {
                    if i < names_before.len() {
                        assert(names@.take(names_before.len() as int)[i] == names@[i]);
                    }
                }
                assert forall|a: int| m0.len() <= a < messages@.len() implies crate::wf::message_ok(#[trigger] messages@[a], all.1) by {
                    if a < msgs_before.len() {
                        assert(messages@[a] == msgs_before[a]);
                    } else {
                        let m = messages@[a];
                        assert(m == messages@.last());
                        if let crate::visit::VisitedRef::Message { parent, message } = ev.what {
                            assert forall|o: int, k: int| 0 <= o < m.oneofs@.len() && 0 <= k < m.oneofs@[o].fields@.len() implies #[trigger] m.oneofs@[o].fields@[k]
                                < m.fields@.len() by {
                                assert(oneof_built(m.oneofs@[o], ev.file as int, ev.path@, ev.full_name@, message.oneof_decl@[o], o));
                            }
                        }
                    }
                }
                assert forall|a: int| en0.len() <= a < enums@.len() implies crate::wf::enum_ok(#[trigger] enums@[a], all.1) by {
                    if a < enums_before.len() {
                        assert(enums@[a] == enums_before[a]);
                    }
                }
                if v.what is Message {
                    assert(crate::visit::numbered(all.0, 0, crate::visit::counter(offsets.counts(), 0)));
                    assert(crate::visit::is_kind(all.0[pos], 0));
                    assert(v.index == msgs_before.len());
                }
                if v.what is Enum {
                    assert(crate::visit::numbered(all.0, 1, crate::visit::counter(offsets.counts(), 1)));
                    assert(crate::visit::is_kind(all.0[pos], 1));
                    assert(v.index == enums_before.len());
                }
                assert forall|a: int| 0 <= a < p2.len() && (#[trigger] p2[a]).what is Message implies 0 <= p2[a].index
                    < messages@.len() && message_of_visit(messages@[p2[a].index], p2[a]) by {
                    if a < processed.len() {
                        assert(p2[a] == processed[a]);
                        if v.what is Message {
                            assert(messages@[p2[a].index] == msgs_before[p2[a].index]);
                        }
                    }
                }
                assert forall|a: int| 0 <= a < p2.len() && (#[trigger] p2[a]).what is Enum implies 0 <= p2[a].index
                    < enums@.len() && enum_of_visit(enums@[p2[a].index], p2[a]) by {
                    if a < processed.len() {
                        assert(p2[a] == processed[a]);
                        if v.what is Enum {
                            assert(enums@[p2[a].index] == enums_before[p2[a].index]);
                        }
                    }
                }
                assert(errors@.take(errors_before.len() as int) == errors_before);
                lemma_clash_step(processed, v, names_before, names@, errors_before, errors@, errors_before.len() == 0);
                if let crate::visit::VisitedRef::Enum { enum_, .. } = ev.what {
                    let mid = choose|mid: Seq<DescriptorErrorKind>|
                        name_added(names_before, names@, errors_before, mid, #[trigger] defs_of(ev@)[0]) && enum_checked(
                            mid,
                            errors@,
                            *enum_,
                            files@[ev.file as int].syntax,
                            files@[ev.file as int].raw,
                            ev.path@,
                        );
                    assert(name_added(names_before, names@, errors_before, mid, defs_of(v)[0]) && enum_checked(
                        mid,
                        errors@,
                        *enum_,
                        files@[v.file].syntax,
                        files@[v.file].raw,
                        v.path,
                    ));
                }
                lemma_enum_error_step(processed, v, files@, names_before, names@, errors_before, errors@);
                assert forall|i: int| n0.len() <= i < names@.len() implies entry_from(#[trigger] names@[i], p2) by {
                    if i < names_before.len() {
                        assert(names@.take(names_before.len() as int)[i] == names@[i]);
                        assert(entry_from(names_before[i], processed));
                        if names@[i].def.kind != DefinitionKind::Package {
                            let (j0, t0) = choose|j0: int, t0: int|
                                0 <= j0 < processed.len() && 0 <= t0 < defs_of(processed[j0]).len() && #[trigger] entry_is(
                                    names_before[i],
                                    defs_of(processed[j0])[t0],
                                );
                            assert(p2[j0] == processed[j0]);
                            assert(entry_is(names@[i], defs_of(p2[j0])[t0]));
                        }
                    } else {
                        if names@[i].def.kind != DefinitionKind::Package {
                            assert(p2[processed.len() as int] == v);
                            assert(entry_is(names@[i], defs_of(p2[processed.len() as int])[0]));
                        }
                    }
                }
                if names_clean(n0, all.0) {
                    assert forall|i: int| n0.len() <= i < names@.len() && names@[i].def.kind == DefinitionKind::Package
                        implies packages_from(#[trigger] names@[i], p2) by {
                        if i < names_before.len() {
                            assert(names@.take(names_before.len() as int)[i] == names@[i]);
                            assert(packages_from(names_before[i], processed));
                            let j0 = choose|j0: int|
                                0 <= j0 < processed.len() && match (#[trigger] processed[j0]).what {
                                    Visited::File(f) => opt_str(f.package).len() > 0 && package_part(opt_str(f.package), names_before[i].name@),
                                    _ => false,
                                };
                            assert(p2[j0] == processed[j0]);
                        } else {
                            assert(p2[processed.len() as int] == v);
                            if !(v.what is File) {
                                assert(entry_is(names@[i], defs_of(v)[0]));
                            }
                        }
                    }
                }
                if simple_files_from(files@, offsets.file as int, n0, all.0) {
                    assert(simple_visit(all.0[pos]));
                    lemma_clean_step(n0, names_before, all.0, pos);
                    assert(fv.0[0].index == fi);
                    if v.what is File {
                        assert(j == 0);
                        assert(!file_name_taken(files@, fi as int));
                    } else {
                        assert(defs_of(v)[0].name == v.full_name);
                    }
                    assert(errors@ == errors_before);
                }
                if errors@.len() == 0 {
                    assert(errors_before.len() == 0);
                    assert forall|a: int| 0 <= a < p2.len() implies match (#[trigger] p2[a]).what {
                        Visited::Enum { enum_, .. } => !enum_invalid(enum_, files@[p2[a].file].syntax),
                        _ => true,
                    } by {
                        if a < processed.len() {
                            assert(p2[a] == processed[a]);
                        } else {
                            assert(p2[a] == v);
                        }
                    }
                }
                processed = p2;
                assert(names@.take(n0.len() as int) =~= names@.take(names_before.len() as int).take(n0.len() as int));
                if ev.what is Message {
                    assert(messages@.take(m0.len() as int) =~= messages@.drop_last().take(m0.len() as int));
                    assert forall|k: int| m0.len() <= k < messages@.len() implies (#[trigger] messages@[k]).field_numbers@.len() == 0 by {
                        if k < messages@.len() - 1 {
                            assert(messages@[k] == msgs_before[k]);
                        }
                    }
                }
                if ev.what is Enum {
                    assert(enums@.take(en0.len() as int) =~= enums@.drop_last().take(en0.len() as int));
                    assert forall|k: int| en0.len() <= k < enums@.len() implies (#[trigger] enums@[k]).value_numbers@.len() == 0 by {
                        if k < enums@.len() - 1 {
                            assert(enums@[k] == enums_before[k]);
                        }
                    }
                }
            }
            j += 1;
        }
        proof {
            assert(fv.0.take(j as int) =~= fv.0);
            assert(processed + crate::visit::files_visits(raws, k@ + 1, next.counts()).0 =~= p0
                + crate::visit::files_visits(raws, k@, cur).0);
        }
        counters = next;
        fi += 1;
    }
    proof {
        assert(processed =~= all.0);
        assert(crate::visit::counter(offsets.counts(), 0) == offsets.message);
        assert(crate::visit::counter(all.1, 0) == all.1.message);
        assert(crate::visit::counter(offsets.counts(), 1) == offsets.enum_);
        assert(crate::visit::counter(all.1, 1) == all.1.enum_);
    }
    (errors, counters)
}

} // verus!
