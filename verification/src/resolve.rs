//! Resolution of type names the way protoc resolves them: relative names are
//! looked up from the innermost enclosing scope outwards.
use vstd::prelude::*;
use crate::definition::{find_name, lemma_lookup, lookup, DefinitionKind, NameEntry};
use crate::names::{
    candidate_parents, first_component, join_name, joined_name, resolve_relative_candidate_parents,
};

verus! {

/// The kind of definition a name is expected to resolve to.
#[derive(Copy, Clone, PartialEq, Eq, Structural, Debug)]
pub enum ResolveNameFilter {
    /// A message type.
    Message,
    /// An extension field.
    Extension,
    /// A message or an enum type.
    FieldType,
}

impl ResolveNameFilter {
    /// Whether a definition of kind `def` is acceptable.
    pub open spec fn spec_is_match(self, def: DefinitionKind) -> bool {
        match (self, def) {
            (ResolveNameFilter::Message, DefinitionKind::Message(_)) => true,
            (ResolveNameFilter::Extension, DefinitionKind::Extension(_)) => true,
            (ResolveNameFilter::FieldType, DefinitionKind::Message(_)) => true,
            (ResolveNameFilter::FieldType, DefinitionKind::Enum(_)) => true,
            _ => false,
        }
    }

    /// Whether a definition of kind `def` is acceptable.
    pub fn is_match(&self, def: &DefinitionKind) -> (r: bool)
        ensures
            r == self.spec_is_match(*def),
    {
        match (self, def) {
            (ResolveNameFilter::Message, DefinitionKind::Message(_)) => true,
            (ResolveNameFilter::Extension, DefinitionKind::Extension(_)) => true,
            (ResolveNameFilter::FieldType, DefinitionKind::Message(_)) => true,
            (ResolveNameFilter::FieldType, DefinitionKind::Enum(_)) => true,
            _ => false,
        }
    }

    /// The phrase used for this filter in error messages.
    pub open spec fn spec_description(self) -> Seq<char> {
        match self {
            ResolveNameFilter::Message => "a message type"@,
            ResolveNameFilter::Extension => "an extension"@,
            ResolveNameFilter::FieldType => "a message or enum type"@,
        }
    }
}

/// The outcome of resolving a name, over views.
pub enum Resolution {
    Found { name: Seq<char>, index: int },
    InvalidType { name: Seq<char>, index: int, filter: ResolveNameFilter },
    NotImported { name: Seq<char>, file: u32 },
    Shadowed { name: Seq<char>, shadowed_name: Seq<char> },
    NotFound,
}

/// The outcome of resolving a name. Definitions are given by their index in the name table.
pub enum ResolveNameResult {
    /// The name refers to an acceptable definition in a visible file.
    Found { name: Vec<char>, index: usize },
    /// The name refers to a definition of the wrong kind.
    InvalidType { name: Vec<char>, index: usize, filter: ResolveNameFilter },
    /// The name refers to a definition in a file that is not imported.
    NotImported { name: Vec<char>, file: u32 },
    /// The first component of a qualified name resolved to a scope that does
    /// not contain the rest of the name.
    Shadowed { name: Vec<char>, shadowed_name: Vec<char> },
    /// No definition has the name.
    NotFound,
}

impl ResolveNameResult {
    /// The outcome over views.
    pub open spec fn view(&self) -> Resolution {
        match self {
            ResolveNameResult::Found { name, index } => Resolution::Found {
                name: name@,
                index: *index as int,
            },
            ResolveNameResult::InvalidType { name, index, filter } => Resolution::InvalidType {
                name: name@,
                index: *index as int,
                filter: *filter,
            },
            ResolveNameResult::NotImported { name, file } => Resolution::NotImported {
                name: name@,
                file: *file,
            },
            ResolveNameResult::Shadowed { name, shadowed_name } => Resolution::Shadowed {
                name: name@,
                shadowed_name: shadowed_name@,
            },
            ResolveNameResult::NotFound => Resolution::NotFound,
        }
    }

    /// Whether the name was found.
    pub fn is_found(&self) -> (r: bool)
        ensures
            r == (self.view() is Found),
    {
        match self {
            ResolveNameResult::Found { .. } => true,
            _ => false,
        }
    }

    /// Whether nothing was found at all.
    pub fn is_not_found(&self) -> (r: bool)
        ensures
            r == (self.view() is NotFound),
    {
        match self {
            ResolveNameResult::NotFound => true,
            _ => false,
        }
    }

    /// The result with its names owned; the names here are always owned.
    pub fn into_owned(self) -> (r: Self)
        ensures
            r.view() == self.view(),
    {
        self
    }

    /// Looks up `name` as a full name.
    pub fn new(
        dependencies: &Vec<u32>,
        names: &Vec<NameEntry>,
        name: Vec<char>,
        filter: ResolveNameFilter,
    ) -> (r: Self)
        ensures
            r.view() == resolve_full_name(dependencies@, names@, name@, filter),
    {
        match find_name(names, &name) {
            Some(i) => {
                let file = names[i].def.file;
                if !contains_u32(dependencies, file) {
                    ResolveNameResult::NotImported { name, file }
                } else if !filter.is_match(&names[i].def.kind) {
                    ResolveNameResult::InvalidType { name, index: i, filter }
                } else {
                    ResolveNameResult::Found { name, index: i }
                }
            },
            None => ResolveNameResult::NotFound,
        }
    }
}

/// Whether `v` holds `x`.
pub fn contains_u32(v: &Vec<u32>, x: u32) -> (r: bool)
    ensures
        r == v@.contains(x),
{
    let mut i: usize = 0;
    while i < v.len()
        invariant
            i <= v@.len(),
            forall|j: int| 0 <= j < i ==> v@[j] != x,
        decreases v@.len() - i,
    {
        if v[i] == x {
            return true;
        }
        i += 1;
    }
    false
}

/// The outcome of looking up `name` as a full name from a file that sees the
/// definitions of the files in `deps`.
pub open spec fn resolve_full_name(
    deps: Seq<u32>,
    names: Seq<NameEntry>,
    name: Seq<char>,
    filter: ResolveNameFilter,
) -> Resolution {
    match lookup(names, name) {
        Some(i) => {
            let def = names[i].def;
            if !deps.contains(def.file) {
                Resolution::NotImported { name, file: def.file }
            } else if !filter.spec_is_match(def.kind) {
                Resolution::InvalidType { name, index: i, filter }
            } else {
                Resolution::Found { name, index: i }
            }
        },
        None => Resolution::NotFound,
    }
}

/// Resolution of a simple name (no `.`) from the candidate scopes at index `i`
/// and after: the first scope in which it is found wins; otherwise the first
/// other failure (`err`, or the first one met from `i` on), or `NotFound`.
pub open spec fn resolve_simple_from(
    deps: Seq<u32>,
    names: Seq<NameEntry>,
    candidates: Seq<Seq<char>>,
    i: int,
    name: Seq<char>,
    filter: ResolveNameFilter,
    err: Resolution,
) -> Resolution
    decreases candidates.len() - i,
{
    if i < 0 || i >= candidates.len() {
        err
    } else {
        let res = resolve_full_name(deps, names, joined_name(candidates[i], name), filter);
        if res is Found {
            res
        } else {
            resolve_simple_from(
                deps,
                names,
                candidates,
                i + 1,
                name,
                filter,
                if err is NotFound {
                    res
                } else {
                    err
                },
            )
        }
    }
}

/// Resolution of a qualified name from the candidate scopes at index `i` and
/// after: the first scope in which its first component names a package,
/// message, enum or service decides; the rest must be found inside it.
pub open spec fn resolve_qualified_from(
    deps: Seq<u32>,
    names: Seq<NameEntry>,
    candidates: Seq<Seq<char>>,
    i: int,
    name: Seq<char>,
    filter: ResolveNameFilter,
) -> Resolution
    decreases candidates.len() - i,
{
    if i < 0 || i >= candidates.len() {
        Resolution::NotFound
    } else {
        let first = joined_name(candidates[i], first_component(name));
        match lookup(names, first) {
            Some(j) if names[j].def.kind.spec_is_parent() => {
                let full = joined_name(candidates[i], name);
                let res = resolve_full_name(deps, names, full, filter);
                if res is NotFound {
                    Resolution::Shadowed { name, shadowed_name: full }
                } else {
                    res
                }
            },
            _ => resolve_qualified_from(deps, names, candidates, i + 1, name, filter),
        }
    }
}

/// The outcome of resolving the relative name `name` used in the non-empty scope `scope`.
pub open spec fn resolve_relative(
    deps: Seq<u32>,
    names: Seq<NameEntry>,
    scope: Seq<char>,
    name: Seq<char>,
    filter: ResolveNameFilter,
) -> Resolution {
    if first_component(name).len() == name.len() {
        resolve_simple_from(
            deps,
            names,
            candidate_parents(scope),
            0,
            name,
            filter,
            Resolution::NotFound,
        )
    } else {
        resolve_qualified_from(deps, names, candidate_parents(scope), 0, name, filter)
    }
}

/// The outcome of resolving `name` used in `scope`: a leading `.` makes it a
/// full name, as does the empty scope; otherwise it is relative.
pub open spec fn resolve(
    deps: Seq<u32>,
    names: Seq<NameEntry>,
    scope: Seq<char>,
    name: Seq<char>,
    filter: ResolveNameFilter,
) -> Resolution {
    if name.len() > 0 && name[0] == '.' {
        resolve_full_name(deps, names, name.drop_first(), filter)
    } else if scope.len() == 0 {
        resolve_full_name(deps, names, name, filter)
    } else {
        resolve_relative(deps, names, scope, name, filter)
    }
}

/// The first component of a dotted name.
fn first_component_exec(name: &Vec<char>) -> (r: Vec<char>)
    ensures
        r@ == first_component(name@),
{
    let mut r: Vec<char> = Vec::new();
    let mut i: usize = 0;
    assert(name@.skip(0) =~= name@);
    while i < name.len() && name[i] != '.'
        invariant
            i <= name@.len(),
            forall|j: int| 0 <= j < i ==> name@[j] != '.',
            first_component(name@) == r@ + first_component(name@.skip(i as int)),
        decreases name@.len() - i,
    {
        proof {
            assert(name@.skip(i as int).drop_first() =~= name@.skip(i + 1));
        }
        r.push(name[i]);
        proof {
            assert(r@ + first_component(name@.skip(i + 1)) =~= r@.drop_last() + (seq![name@[i as int]]
                + first_component(name@.skip(i + 1))));
        }
        i += 1;
    }
    proof {
        if i < name@.len() {
            assert(name@.skip(i as int)[0] == '.');
        } else {
            assert(name@.skip(i as int).len() == 0);
        }
        assert(r@ + first_component(name@.skip(i as int)) =~= r@);
    }
    r
}

/// Resolves `name`, used in `scope`, among `names` as seen from a file that
/// imports the files in `dependencies`.
pub fn resolve_name(
    dependencies: &Vec<u32>,
    names: &Vec<NameEntry>,
    scope: &Vec<char>,
    name: &Vec<char>,
    filter: ResolveNameFilter,
) -> (r: ResolveNameResult)
    ensures
        r.view() == resolve(dependencies@, names@, scope@, name@, filter),
{
    if name.len() > 0 && name[0] == '.' {
        let mut full: Vec<char> = Vec::new();
        let mut i: usize = 1;
        while i < name.len()
            invariant
                1 <= i <= name@.len(),
                full@ == name@.subrange(1, i as int),
            decreases name@.len() - i,
        {
            full.push(name[i]);
            proof {
                assert(name@.subrange(1, i + 1) =~= name@.subrange(1, i as int).push(name@[i as int]));
            }
            i += 1;
        }
        proof {
            assert(full@ =~= name@.drop_first());
        }
        ResolveNameResult::new(dependencies, names, full, filter)
    } else if scope.len() == 0 {
        ResolveNameResult::new(dependencies, names, name.clone(), filter)
    } else {
        resolve_relative_name(dependencies, names, scope, name, filter)
    }
}

/// Resolves the relative name `relative_name` used in the non-empty scope `scope`.
pub fn resolve_relative_name(
    dependencies: &Vec<u32>,
    names: &Vec<NameEntry>,
    scope: &Vec<char>,
    relative_name: &Vec<char>,
    filter: ResolveNameFilter,
) -> (r: ResolveNameResult)
    ensures
        r.view() == resolve_relative(dependencies@, names@, scope@, relative_name@, filter),
{
    let ghost deps = dependencies@;
    let ghost entries = names@;
    let mut err = ResolveNameResult::NotFound;
    let relative_first_part = first_component_exec(relative_name);
    let candidates = resolve_relative_candidate_parents(scope);
    let ghost cands = candidates@.map_values(|x: Vec<char>| x@);
    let simple = relative_first_part.len() == relative_name.len();
    let mut i: usize = 0;
    while i < candidates.len()
        invariant
            cands == candidates@.map_values(|x: Vec<char>| x@),
            cands == candidate_parents(scope@),
            relative_first_part@ == first_component(relative_name@),
            simple == (first_component(relative_name@).len() == relative_name@.len()),
            i <= candidates@.len(),
            simple ==> resolve_relative(deps, entries, scope@, relative_name@, filter)
                == resolve_simple_from(deps, entries, cands, i as int, relative_name@, filter, err.view()),
            !simple ==> resolve_relative(deps, entries, scope@, relative_name@, filter)
                == resolve_qualified_from(deps, entries, cands, i as int, relative_name@, filter),
            !simple ==> err.view() is NotFound,
            deps == dependencies@,
            entries == names@,
        decreases candidates@.len() - i,
    {
        let candidate = join_name(&candidates[i], &relative_first_part);
        assert(cands[i as int] == candidates@[i as int]@);
        if simple {
            proof {
                assert(relative_first_part@ =~= relative_name@) by {
                    lemma_first_component_prefix(relative_name@);
                }
            }
            let res = ResolveNameResult::new(dependencies, names, candidate, filter);
            if res.is_found() {
                return res.into_owned();
            } else if err.is_not_found() {
                err = res;
            }
        } else {
            match find_name(names, &candidate) {
                Some(j) => {
                    if names[j].def.kind.is_parent() {
                        let candidate_full = join_name(&candidates[i], relative_name);
                        let res = ResolveNameResult::new(
                            dependencies,
                            names,
                            clone_chars(&candidate_full),
                            filter,
                        );
                        if res.is_not_found() {
                            return ResolveNameResult::Shadowed {
                                name: clone_chars(relative_name),
                                shadowed_name: candidate_full,
                            };
                        } else {
                            return res;
                        }
                    }
                },
                None => {},
            }
        }
        i += 1;
    }
    err.into_owned()
}

/// A copy of a character vector.
pub fn clone_chars(v: &Vec<char>) -> (r: Vec<char>)
    ensures
        r@ == v@,
{
    let r = v.clone();
    assert(r@ =~= v@);
    r
}

/// The first component of a name is a prefix of it.
pub proof fn lemma_first_component_prefix(name: Seq<char>)
    ensures
        first_component(name).len() <= name.len(),
        first_component(name) =~= name.take(first_component(name).len() as int),
    decreases name.len(),
{
    if name.len() > 0 && name[0] != '.' {
        lemma_first_component_prefix(name.drop_first());
        assert(first_component(name) =~= seq![name[0]] + first_component(name.drop_first()));
    }
}

} // verus!

verus! {

/// What a resolution that found a definition says of it.
pub open spec fn sound_resolution(
    deps: Seq<u32>,
    names: Seq<NameEntry>,
    filter: ResolveNameFilter,
    r: Resolution,
) -> bool {
    match r {
        Resolution::Found { name, index } => 0 <= index < names.len() && names[index].name@ == name
            && lookup(names, name) == Some(index) && filter.spec_is_match(names[index].def.kind)
            && deps.contains(names[index].def.file),
        Resolution::InvalidType { name, index, filter: f } => 0 <= index < names.len()
            && names[index].name@ == name && f == filter && !filter.spec_is_match(
            names[index].def.kind,
        ) && deps.contains(names[index].def.file),
        Resolution::NotImported { name, file } => lookup(names, name) matches Some(i) && 0 <= i
            < names.len() && names[i].def.file == file && !deps.contains(file),
        _ => true,
    }
}

proof fn lemma_full_name_sound(
    deps: Seq<u32>,
    names: Seq<NameEntry>,
    name: Seq<char>,
    filter: ResolveNameFilter,
)
    ensures
        sound_resolution(deps, names, filter, resolve_full_name(deps, names, name, filter)),
{
    lemma_lookup(names, name);
}

proof fn lemma_simple_sound(
    deps: Seq<u32>,
    names: Seq<NameEntry>,
    candidates: Seq<Seq<char>>,
    i: int,
    name: Seq<char>,
    filter: ResolveNameFilter,
    err: Resolution,
)
    requires
        sound_resolution(deps, names, filter, err),
    ensures
        sound_resolution(
            deps,
            names,
            filter,
            resolve_simple_from(deps, names, candidates, i, name, filter, err),
        ),
    decreases candidates.len() - i,
{
    if 0 <= i < candidates.len() {
        let res = resolve_full_name(deps, names, joined_name(candidates[i], name), filter);
        lemma_full_name_sound(deps, names, joined_name(candidates[i], name), filter);
        if !(res is Found) {
            let next = if err is NotFound {
                res
            } else {
                err
            };
            lemma_simple_sound(deps, names, candidates, i + 1, name, filter, next);
        }
    }
}

proof fn lemma_qualified_sound(
    deps: Seq<u32>,
    names: Seq<NameEntry>,
    candidates: Seq<Seq<char>>,
    i: int,
    name: Seq<char>,
    filter: ResolveNameFilter,
)
    ensures
        sound_resolution(
            deps,
            names,
            filter,
            resolve_qualified_from(deps, names, candidates, i, name, filter),
        ),
    decreases candidates.len() - i,
{
    if 0 <= i < candidates.len() {
        let full = joined_name(candidates[i], name);
        lemma_full_name_sound(deps, names, full, filter);
        lemma_qualified_sound(deps, names, candidates, i + 1, name, filter);
    }
}

/// A resolved name always denotes the definition the name table holds under
/// that full name; that definition has the expected kind and lies in a file the
/// resolving file can see. A name of the wrong kind is reported as such only
/// when the definition is visible, and a definition is reported as not imported
/// only when it exists outside the visible files.
pub proof fn lemma_resolution_sound(
    deps: Seq<u32>,
    names: Seq<NameEntry>,
    scope: Seq<char>,
    name: Seq<char>,
    filter: ResolveNameFilter,
)
    ensures
        sound_resolution(deps, names, filter, resolve(deps, names, scope, name, filter)),
{
    if name.len() > 0 && name[0] == '.' {
        lemma_full_name_sound(deps, names, name.drop_first(), filter);
    } else if scope.len() == 0 {
        lemma_full_name_sound(deps, names, name, filter);
    } else if first_component(name).len() == name.len() {
        lemma_simple_sound(
            deps,
            names,
            candidate_parents(scope),
            0,
            name,
            filter,
            Resolution::NotFound,
        );
    } else {
        lemma_qualified_sound(deps, names, candidate_parents(scope), 0, name, filter);
    }
}

/// A name written with a leading `.` is resolved as the full name that follows
/// the dot, whatever the scope it is used in.
pub proof fn lemma_absolute_name_ignores_scope(
    deps: Seq<u32>,
    names: Seq<NameEntry>,
    scope1: Seq<char>,
    scope2: Seq<char>,
    name: Seq<char>,
    filter: ResolveNameFilter,
)
    requires
        name.len() > 0,
        name[0] == '.',
    ensures
        resolve(deps, names, scope1, name, filter) == resolve(deps, names, scope2, name, filter),
        resolve(deps, names, scope1, name, filter) == resolve_full_name(
            deps,
            names,
            name.drop_first(),
            filter,
        ),
{
}

/// A relative name without a `.` used in a scope is first looked up in that
/// scope itself: when `scope.name` is defined in a visible file with a kind
/// the filter accepts, that definition is the resolution, whatever the
/// enclosing scopes or the root define under the same simple name.
pub proof fn lemma_innermost_scope_wins(
    deps: Seq<u32>,
    names: Seq<NameEntry>,
    scope: Seq<char>,
    name: Seq<char>,
    filter: ResolveNameFilter,
)
    requires
        scope.len() > 0,
        forall|i: int| 0 <= i < name.len() ==> name[i] != '.',
        resolve_full_name(deps, names, scope + seq!['.'] + name, filter) is Found,
    ensures
        resolve(deps, names, scope, name, filter) == resolve_full_name(deps, names, scope + seq!['.'] + name, filter),
        resolve(deps, names, scope, name, filter) matches Resolution::Found { name: found, index } && found
            == scope + seq!['.'] + name && 0 <= index < names.len() && names[index].name@ == found,
{
    crate::names::lemma_first_component_whole(name);
    crate::names::lemma_candidate_parents_innermost_first(scope);
    assert(candidate_parents(scope)[0] == scope);
    assert(joined_name(scope, name) == scope + seq!['.'] + name);
    lemma_lookup(names, scope + seq!['.'] + name);
}

} // verus!

verus! {

/// Whether two paths are equal.
pub fn paths_eq(a: &Vec<i32>, b: &Vec<i32>) -> (r: bool)
    ensures
        r == (a@ == b@),
{
    if a.len() != b.len() {
        return false;
    }
    let mut i: usize = 0;
    while i < a.len()
        invariant
            a@.len() == b@.len(),
            i <= a@.len(),
            forall|j: int| 0 <= j < i ==> a@[j] == b@[j],
        decreases a@.len() - i,
    {
        if a[i] != b[i] {
            return false;
        }
        i += 1;
    }
    assert(a@ =~= b@);
    true
}

} // verus!

verus! {

/// The help given when a name is defined in a file that is not imported.
pub open spec fn not_imported_help(name: Seq<char>, dep: Seq<char>, root: Seq<char>) -> Seq<char> {
    "'"@ + name + "' is defined in '"@ + dep + "', which is not imported by '"@ + root + "'"@
}

/// The help given when the first part of a qualified name shadows the scope
/// the name was meant to be found in.
pub open spec fn shadowed_help(name: Seq<char>) -> Seq<char> {
    "The innermost scope is searched first in name resolution. Consider using a leading '.'(i.e., '."@
        + name + "') to start from the outermost scope."@
}

/// The phrase used for a filter in error messages.
pub fn filter_description(filter: ResolveNameFilter) -> (r: String)
    ensures
        r@ == filter.spec_description(),
{
    let s = match filter {
        ResolveNameFilter::Message => "a message type",
        ResolveNameFilter::Extension => "an extension",
        ResolveNameFilter::FieldType => "a message or enum type",
    };
    crate::text::to_owned_string(s)
}

impl ResolveNameResult {
    /// The definition found, or the error to report for a reference to
    /// `orig_name` at `found_path1` + `found_path2` in file `found_file`.
    pub fn into_result(
        self,
        orig_name: &Vec<char>,
        files: &Vec<crate::pool::FileDescriptorInner>,
        names: &Vec<NameEntry>,
        found_file: u32,
        found_path1: &Vec<i32>,
        found_path2: &Vec<i32>,
    ) -> (r: Result<(Vec<char>, usize), crate::error::DescriptorErrorKind>)
        requires
            found_file < files@.len(),
            self.view() matches Resolution::InvalidType { index, .. } ==> 0 <= index < names@.len()
                && names@[index].def.file < files@.len(),
            self.view() matches Resolution::NotImported { file, .. } ==> file < files@.len(),
        ensures
            self.view() matches Resolution::Found { name, index } ==> (r matches Ok((n, i)) && n@
                == name && i == index),
            self.view() matches Resolution::InvalidType { name, index, filter } ==> (r matches Err(
                crate::error::DescriptorErrorKind::InvalidType { name: n, expected, found, defined },
            ) && n@ == name && expected@ == filter.spec_description() && found.path@ == found_path1@
                + found_path2@ && defined.path@ == names@[index].def.path@),
            self.view() matches Resolution::NotImported { name, file } ==> (r matches Err(
                crate::error::DescriptorErrorKind::NameNotFound { name: n, found, help: Some(h) },
            ) && n@ == name && found.path@ == found_path1@ + found_path2@ && h@ == not_imported_help(
                name,
                crate::text::opt_str(files@[file as int].raw.name),
                crate::text::opt_str(files@[found_file as int].raw.name),
            )),
            self.view() is NotFound ==> (r matches Err(
                crate::error::DescriptorErrorKind::NameNotFound { name: n, found, help: None },
            ) && n@ == orig_name@ && found.path@ == found_path1@ + found_path2@),
            self.view() matches Resolution::Shadowed { name, shadowed_name } ==> (r matches Err(
                crate::error::DescriptorErrorKind::NameShadowed { name: n, shadowed_name: s, found, help: Some(h) },
            ) && n@ == name && s@ == shadowed_name && found.path@ == found_path1@ + found_path2@
                && h@ == shadowed_help(name)),
    {
        match self {
            ResolveNameResult::Found { name, index } => Ok((name, index)),
            ResolveNameResult::InvalidType { name, index, filter } => {
                let found = crate::error::Label::new(
                    files,
                    found_file,
                    crate::names::join_path(found_path1.as_slice(), found_path2.as_slice()),
                );
                let def = &names[index].def;
                let defined = crate::error::Label::new(files, def.file, crate::visit::clone_path(&def.path));
                Err(crate::error::DescriptorErrorKind::InvalidType {
                    name: crate::text::string_from_chars(&name),
                    expected: filter_description(filter),
                    found,
                    defined,
                })
            },
            ResolveNameResult::NotImported { name, file } => {
                let root_name = files[found_file as usize].raw.name();
                let dep_name = files[file as usize].raw.name();
                let found = crate::error::Label::new(
                    files,
                    found_file,
                    crate::names::join_path(found_path1.as_slice(), found_path2.as_slice()),
                );
                let mut help = String::new();
                crate::text::push_str(&mut help, "'");
                crate::text::push_chars(&mut help, &name);
                crate::text::push_str(&mut help, "' is defined in '");
                crate::text::push_str(&mut help, dep_name);
                crate::text::push_str(&mut help, "', which is not imported by '");
                crate::text::push_str(&mut help, root_name);
                crate::text::push_str(&mut help, "'");
                proof {
                    reveal_strlit("'");
                    reveal_strlit("' is defined in '");
                    reveal_strlit("', which is not imported by '");
                    assert(help@ =~= not_imported_help(name@, dep_name@, root_name@));
                }
                Err(crate::error::DescriptorErrorKind::NameNotFound {
                    name: crate::text::string_from_chars(&name),
                    found,
                    help: Some(help),
                })
            },
            ResolveNameResult::NotFound => {
                let found = crate::error::Label::new(
                    files,
                    found_file,
                    crate::names::join_path(found_path1.as_slice(), found_path2.as_slice()),
                );
                Err(crate::error::DescriptorErrorKind::NameNotFound {
                    name: crate::text::string_from_chars(orig_name),
                    found,
                    help: None,
                })
            },
            ResolveNameResult::Shadowed { name, shadowed_name } => {
                let found = crate::error::Label::new(
                    files,
                    found_file,
                    crate::names::join_path(found_path1.as_slice(), found_path2.as_slice()),
                );
                let mut help = String::new();
                crate::text::push_str(
                    &mut help,
                    "The innermost scope is searched first in name resolution. Consider using a leading '.'(i.e., '.",
                );
                crate::text::push_chars(&mut help, &name);
                crate::text::push_str(&mut help, "') to start from the outermost scope.");
                proof {
                    assert(help@ =~= shadowed_help(name@));
                }
                Err(crate::error::DescriptorErrorKind::NameShadowed {
                    name: crate::text::string_from_chars(&name),
                    shadowed_name: crate::text::string_from_chars(&shadowed_name),
                    found,
                    help: Some(help),
                })
            },
        }
    }
}

} // verus!
