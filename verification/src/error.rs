//! Errors found while building a descriptor pool.
use vstd::prelude::*;
use crate::pool::FileDescriptorInner;
use crate::types::{FileDescriptorProto, Location};
use crate::text::{i64_to_text, int_text, opt_str, push_str};

verus! {

/// A source span: start line, start column, end line, end column (all 0-based).
#[derive(Copy, Clone, PartialEq, Eq, Structural, Debug)]
pub struct Span {
    pub start_line: i32,
    pub start_column: i32,
    pub end_line: i32,
    pub end_column: i32,
}

/// A place in a file that an error refers to.
#[derive(Debug)]
pub struct Label {
    /// The name of the file.
    pub file: String,
    /// The path of the definition within the file.
    pub path: Vec<i32>,
    /// Where the definition is in the source, when the file says.
    pub span: Option<Span>,
}

/// The index of the first location whose path is `path`.
pub open spec fn find_location(locations: Seq<Location>, path: Seq<i32>) -> Option<int>
    decreases locations.len(),
{
    if locations.len() == 0 {
        None
    } else {
        match find_location(locations.drop_last(), path) {
            Some(i) => Some(i),
            None => if locations.last().path@ == path {
                Some(locations.len() - 1)
            } else {
                None
            },
        }
    }
}

/// The span a location gives: three numbers are a span within one line, four
/// a span over several lines; anything else gives none.
pub open spec fn span_of(span: Seq<i32>) -> Option<Span> {
    if span.len() == 3 {
        Some(Span { start_line: span[0], start_column: span[1], end_line: span[0], end_column: span[2] })
    } else if span.len() == 4 {
        Some(Span { start_line: span[0], start_column: span[1], end_line: span[2], end_column: span[3] })
    } else {
        None
    }
}

/// Whether `l` labels the definition at `path` in the file `raw`.
pub open spec fn label_at(l: Label, raw: FileDescriptorProto, path: Seq<i32>) -> bool {
    &&& l.file@ == opt_str(raw.name)
    &&& l.path@ == path
    &&& l.span == span_in_file(raw, path)
}

/// The span of the definition at `path` in `file`, if the file records one.
pub open spec fn span_in_file(file: FileDescriptorProto, path: Seq<i32>) -> Option<Span> {
    match file.source_code_info {
        Some(info) => match find_location(info.location@, path) {
            Some(i) => span_of(info.location@[i].span@),
            None => None,
        },
        None => None,
    }
}

impl Label {
    /// A label for the definition at `path` in the file at index `file`.
    pub fn new(files: &Vec<FileDescriptorInner>, file: u32, path: Vec<i32>) -> (r: Label)
        requires
            file < files@.len(),
        ensures
            r.file@ == opt_str(files@[file as int].raw.name),
            r.path@ == path@,
            r.span == span_in_file(files@[file as int].raw, path@),
    {
        Label::in_file(&files[file as usize].raw, path)
    }

    /// A label for the definition at `path` in the file `raw`.
    pub fn in_file(raw: &crate::types::FileDescriptorProto, path: Vec<i32>) -> (r: Label)
        ensures
            r.file@ == opt_str(raw.name),
            r.path@ == path@,
            r.span == span_in_file(*raw, path@),
    {
        let span = match &raw.source_code_info {
            Some(info) => {
                let mut found: Option<usize> = None;
                let mut i: usize = 0;
                while i < info.location.len()
                    invariant
                        i <= info.location@.len(),
                        found is None ==> find_location(info.location@.take(i as int), path@) is None,
                        found matches Some(k) ==> find_location(info.location@, path@) == Some(k as int)
                            && k < info.location@.len(),
                    decreases info.location@.len() - i,
                {
                    proof {
                        assert(info.location@.take(i + 1).drop_last() =~= info.location@.take(i as int));
                    }
                    if found.is_none() && crate::resolve::paths_eq(&info.location[i].path, &path) {
                        proof {
                            lemma_find_location_prefix(info.location@, i + 1, path@);
                        }
                        found = Some(i);
                    }
                    i += 1;
                }
                proof {
                    assert(info.location@.take(info.location@.len() as int) =~= info.location@);
                }
                match found {
                    Some(k) => {
                        let s = &info.location[k].span;
                        if s.len() == 3 {
                            Some(Span { start_line: s[0], start_column: s[1], end_line: s[0], end_column: s[2] })
                        } else if s.len() == 4 {
                            Some(Span { start_line: s[0], start_column: s[1], end_line: s[2], end_column: s[3] })
                        } else {
                            None
                        }
                    },
                    None => None,
                }
            },
            None => None,
        };
        Label { file: crate::text::to_owned_string(raw.name()), path, span }
    }
}

/// A first match in a prefix is the first match overall.
pub proof fn lemma_find_location_prefix(locations: Seq<Location>, n: int, path: Seq<i32>)
    requires
        0 <= n <= locations.len(),
        find_location(locations.take(n), path) is Some,
    ensures
        find_location(locations, path) == find_location(locations.take(n), path),
    decreases locations.len() - n,
{
    if n < locations.len() {
        assert(locations.take(n + 1).drop_last() =~= locations.take(n));
        lemma_find_location_prefix(locations, n + 1, path);
    } else {
        assert(locations.take(n) =~= locations);
    }
}

} // verus!

verus! {

/// One problem found in a set of file descriptors.
#[derive(Debug)]
pub enum DescriptorErrorKind {
    MissingRequiredField { label: Label },
    UnknownSyntax { syntax: String, found: Label },
    DuplicateFileName { name: String },
    FileNotFound { name: String, found: Label },
    InvalidImportIndex,
    InvalidOneofIndex,
    DuplicateName { name: String, first: Label, second: Label },
    DuplicateFieldNumber { number: u32, first: Label, second: Label },
    DuplicateFieldJsonName { name: String, first: Label, second: Label },
    DuplicateFieldCamelCaseName {
        first_name: String,
        second_name: String,
        first: Label,
        second: Label,
    },
    InvalidFieldNumber { number: i32, found: Label },
    FieldNumberInReservedRange {
        number: i32,
        range_start: i32,
        range_end: i32,
        defined: Label,
        found: Label,
    },
    FieldNumberInExtensionRange {
        number: i32,
        range_start: i32,
        range_end: i32,
        defined: Label,
        found: Label,
    },
    ExtensionNumberOutOfRange { number: i32, message: String, found: Label },
    NameNotFound { name: String, found: Label, help: Option<String> },
    NameShadowed { name: String, shadowed_name: String, found: Label, help: Option<String> },
    InvalidType { name: String, expected: String, found: Label, defined: Label },
    InvalidFieldDefault { value: String, kind: String, found: Label },
    EmptyEnum { found: Label },
    InvalidProto3EnumDefault { found: Label },
    DuplicateEnumNumber { number: i32, first: Label, second: Label },
    EnumNumberInReservedRange {
        number: i32,
        range_start: i32,
        range_end: i32,
        defined: Label,
        found: Label,
    },
    OptionNotFound { name: String, found: Label },
    InvalidOptionType { name: String, ty: String, value: String, is_last: bool, found: Label },
    DuplicateOption { name: String, found: Label },
    DecodeFileDescriptorSet { message: String },
    /// A type name looked up in a type table that it does not hold.
    TypeNotFound { name: String },
}

/// An error that may occur while creating a descriptor pool: every problem
/// found, the first one being the primary error.
#[derive(Debug)]
pub struct DescriptorError {
    errors: Vec<DescriptorErrorKind>,
}

impl DescriptorError {
    /// An error holds at least one problem.
    #[verifier::type_invariant]
    spec fn holds_one(self) -> bool {
        self.errors@.len() > 0
    }

    /// Every problem this error holds, the primary one first.
    pub closed spec fn kinds(self) -> Seq<DescriptorErrorKind> {
        self.errors@
    }

    /// An error holding the problems found, the first one being the primary.
    pub fn new(errors: Vec<DescriptorErrorKind>) -> (r: DescriptorError)
        requires
            errors@.len() > 0,
        ensures
            r.kinds() == errors@,
    {
        DescriptorError { errors }
    }

    /// Every problem this error holds, the primary one first.
    pub fn errors(&self) -> (r: &Vec<DescriptorErrorKind>)
        ensures
            r@ == self.kinds(),
            r@.len() > 0,
    {
        proof {
            use_type_invariant(self);
        }
        &self.errors
    }

    /// The primary problem.
    pub fn first(&self) -> (r: &DescriptorErrorKind)
        ensures
            self.kinds().len() > 0,
            *r == self.kinds()[0],
    {
        proof {
            use_type_invariant(self);
        }
        &self.errors[0]
    }

    /// The error for a type name that was looked up and not found.
    pub fn type_not_found(name: &str) -> (r: DescriptorError)
        ensures
            r.kinds().len() == 1,
            r.kinds()[0] matches DescriptorErrorKind::TypeNotFound { name: n } && n@ == name@,
    {
        let n = crate::text::to_owned_string(name);
        let mut errors: Vec<DescriptorErrorKind> = Vec::new();
        errors.push(DescriptorErrorKind::TypeNotFound { name: n });
        DescriptorError::new(errors)
    }
}

} // verus!

verus! {

/// The items of a list of numbers, separated by `, `.
pub open spec fn items_text(p: Seq<i32>) -> Seq<char>
    decreases p.len(),
{
    if p.len() == 0 {
        Seq::empty()
    } else if p.len() == 1 {
        int_text(p[0] as int)
    } else {
        items_text(p.drop_last()) + ", "@ + int_text(p.last() as int)
    }
}

/// A list of numbers as debug output writes it, e.g. `[4, 0, 2]`.
pub open spec fn list_text(p: Seq<i32>) -> Seq<char> {
    "["@ + items_text(p) + "]"@
}

/// Writes a list of numbers as debug output does, e.g. `[4, 0, 2]`.
pub fn list_to_text(p: &Vec<i32>) -> (s: String)
    ensures
        s@ == list_text(p@),
{
    let mut s = String::new();
    push_str(&mut s, "[");
    let mut i: usize = 0;
    proof {
        assert(p@.take(0) =~= Seq::<i32>::empty());
        assert(s@ =~= "["@ + items_text(p@.take(0)));
    }
    while i < p.len()
        invariant
            i <= p@.len(),
            s@ == "["@ + items_text(p@.take(i as int)),
        decreases p@.len() - i,
    {
        let ghost before = s@;
        if i > 0 {
            push_str(&mut s, ", ");
        }
        let t = i64_to_text(p[i] as i64);
        push_str(&mut s, t.as_str());
        proof {
            let q = p@.take(i + 1);
            assert(q.drop_last() =~= p@.take(i as int));
            assert(q.last() == p@[i as int]);
            if i == 0 {
                assert(q.len() == 1);
                assert(s@ =~= "["@ + items_text(q));
            } else {
                assert(s@ =~= "["@ + items_text(q));
            }
        }
        i += 1;
    }
    push_str(&mut s, "]");
    proof {
        assert(p@.take(p@.len() as int) =~= p@);
    }
    s
}

/// Joins three pieces of text.
fn cat3(a: &str, b: &str, c: &str) -> (r: String)
    ensures
        r@ == a@ + b@ + c@,
{
    let mut r = String::new();
    push_str(&mut r, a);
    push_str(&mut r, b);
    push_str(&mut r, c);
    proof {
        assert(r@ =~= a@ + b@ + c@);
    }
    r
}

/// Joins five pieces of text.
fn cat5(a: &str, b: &str, c: &str, d: &str, e: &str) -> (r: String)
    ensures
        r@ == a@ + b@ + c@ + d@ + e@,
{
    let mut r = cat3(a, b, c);
    push_str(&mut r, d);
    push_str(&mut r, e);
    proof {
        assert(r@ =~= a@ + b@ + c@ + d@ + e@);
    }
    r
}

/// Joins seven pieces of text.
fn cat7(a: &str, b: &str, c: &str, d: &str, e: &str, f: &str, g: &str) -> (r: String)
    ensures
        r@ == a@ + b@ + c@ + d@ + e@ + f@ + g@,
{
    let mut r = cat5(a, b, c, d, e);
    push_str(&mut r, f);
    push_str(&mut r, g);
    proof {
        assert(r@ =~= a@ + b@ + c@ + d@ + e@ + f@ + g@);
    }
    r
}

/// The message of an error.
pub open spec fn spec_message(k: DescriptorErrorKind) -> Seq<char> {
    match k {
        DescriptorErrorKind::MissingRequiredField { label } => "missing required field at "@ + list_text(label.path@),
        DescriptorErrorKind::UnknownSyntax { syntax, .. } => "unknown syntax '"@ + syntax@ + "'"@,
        DescriptorErrorKind::DuplicateFileName { name } => "a different file named '"@ + name@
            + "' has already been added"@,
        DescriptorErrorKind::FileNotFound { name, .. } => "imported file '"@ + name@ + "' has not been added"@,
        DescriptorErrorKind::InvalidImportIndex => "invalid import index"@,
        DescriptorErrorKind::InvalidOneofIndex => "invalid oneof index"@,
        DescriptorErrorKind::DuplicateName { name, first, second } => if first.file@ == second.file@ {
            "name '"@ + name@ + "' is defined twice"@
        } else {
            "name '"@ + name@ + "' is already defined in file '"@ + first.file@ + "'"@
        },
        DescriptorErrorKind::DuplicateFieldNumber { number, .. } => "field number '"@ + int_text(number as int)
            + "' is already used"@,
        DescriptorErrorKind::DuplicateFieldJsonName { name, .. } => "a field with JSON name '"@ + name@
            + "' is already defined"@,
        DescriptorErrorKind::DuplicateFieldCamelCaseName { first_name, second_name, .. } =>
            "camel-case name of field '"@ + first_name@ + "' conflicts with field '"@ + second_name@ + "'"@,
        DescriptorErrorKind::InvalidFieldNumber { number, .. } => "invalid field number '"@ + int_text(number as int)
            + "'"@,
        DescriptorErrorKind::FieldNumberInReservedRange { number, range_start, range_end, .. } =>
            "field number '"@ + int_text(number as int) + "' conflicts with reserved range '"@
            + int_text(range_start as int) + " to "@ + int_text(range_end - 1) + "'"@,
        DescriptorErrorKind::FieldNumberInExtensionRange { number, range_start, range_end, .. } =>
            "field number '"@ + int_text(number as int) + "' conflicts with extension range '"@
            + int_text(range_start as int) + " to "@ + int_text(range_end - 1) + "'"@,
        DescriptorErrorKind::ExtensionNumberOutOfRange { number, message, .. } => "message '"@ + message@
            + "' does not define '"@ + int_text(number as int) + "' as an extension number"@,
        DescriptorErrorKind::NameNotFound { name, .. } => "name '"@ + name@ + "' is not defined"@,
        DescriptorErrorKind::NameShadowed { name, shadowed_name, .. } => "'"@ + name@ + "' resolves to '"@
            + shadowed_name@ + "', which is not defined"@,
        DescriptorErrorKind::InvalidType { name, expected, .. } => "'"@ + name@ + "' is not "@ + expected@,
        DescriptorErrorKind::InvalidFieldDefault { value, kind, .. } => "invalid default value '"@ + value@
            + "' for type '"@ + kind@ + "'"@,
        DescriptorErrorKind::EmptyEnum { .. } => "enums must have at least one value"@,
        DescriptorErrorKind::InvalidProto3EnumDefault { .. } => "the first value for proto3 enums must be 0"@,
        DescriptorErrorKind::DuplicateEnumNumber { number, .. } => "enum number '"@ + int_text(number as int)
            + "' has already been used"@,
        DescriptorErrorKind::EnumNumberInReservedRange { number, range_start, range_end, .. } =>
            "enum number '"@ + int_text(number as int) + "' conflicts with reserved range '"@
            + int_text(range_start as int) + " to "@ + int_text(range_end as int) + "'"@,
        DescriptorErrorKind::OptionNotFound { name, .. } => "option field '"@ + name@ + "' is not defined"@,
        DescriptorErrorKind::InvalidOptionType { name, ty, value, is_last, .. } => if is_last {
            "expected a value of type '"@ + ty@ + "' for option '"@ + name@ + "', but found '"@ + value@ + "'"@
        } else {
            "cannot set field for option '"@ + name@ + "' value of type '"@ + ty@ + "'"@
        },
        DescriptorErrorKind::DuplicateOption { name, .. } => "option field '"@ + name@ + "' has already been set"@,
        DescriptorErrorKind::DecodeFileDescriptorSet { .. } => "failed to decode file descriptor set"@,
        DescriptorErrorKind::TypeNotFound { name } => "the message or enum type '"@ + name@ + "' was not found"@,
    }
}

/// The hint an error gives on how to fix it, if any.
pub open spec fn spec_help(k: DescriptorErrorKind) -> Option<Seq<char>> {
    match k {
        DescriptorErrorKind::UnknownSyntax { .. } => Some("valid values are 'proto2' and 'proto3'"@),
        DescriptorErrorKind::InvalidFieldNumber { number, .. } => if number < 1 || number > 536870911 {
            Some("message numbers must be between 1 and 536870911"@)
        } else if 19000 <= number && number <= 19999 {
            Some("message numbers 19000 to 19999 are reserved"@)
        } else {
            None
        },
        DescriptorErrorKind::DuplicateEnumNumber { .. } => Some(
            "set the 'allow_alias' option allow re-using enum numbers"@,
        ),
        DescriptorErrorKind::NameNotFound { help, .. } => match help {
            Some(h) => Some(h@),
            None => None,
        },
        DescriptorErrorKind::NameShadowed { help, .. } => match help {
            Some(h) => Some(h@),
            None => None,
        },
        _ => None,
    }
}

/// The label an error points at first, if it points at a definition.
pub open spec fn spec_label(k: DescriptorErrorKind) -> Option<Label> {
    match k {
        DescriptorErrorKind::MissingRequiredField { label } => Some(label),
        DescriptorErrorKind::UnknownSyntax { found, .. } => Some(found),
        DescriptorErrorKind::DuplicateFileName { .. } => None,
        DescriptorErrorKind::FileNotFound { found, .. } => Some(found),
        DescriptorErrorKind::InvalidImportIndex => None,
        DescriptorErrorKind::InvalidOneofIndex => None,
        DescriptorErrorKind::DuplicateName { second, .. } => Some(second),
        DescriptorErrorKind::DuplicateFieldNumber { second, .. } => Some(second),
        DescriptorErrorKind::DuplicateFieldJsonName { second, .. } => Some(second),
        DescriptorErrorKind::DuplicateFieldCamelCaseName { second, .. } => Some(second),
        DescriptorErrorKind::InvalidFieldNumber { found, .. } => Some(found),
        DescriptorErrorKind::FieldNumberInReservedRange { found, .. } => Some(found),
        DescriptorErrorKind::FieldNumberInExtensionRange { found, .. } => Some(found),
        DescriptorErrorKind::ExtensionNumberOutOfRange { found, .. } => Some(found),
        DescriptorErrorKind::NameNotFound { found, .. } => Some(found),
        DescriptorErrorKind::NameShadowed { found, .. } => Some(found),
        DescriptorErrorKind::InvalidType { found, .. } => Some(found),
        DescriptorErrorKind::InvalidFieldDefault { found, .. } => Some(found),
        DescriptorErrorKind::EmptyEnum { found } => Some(found),
        DescriptorErrorKind::InvalidProto3EnumDefault { found } => Some(found),
        DescriptorErrorKind::DuplicateEnumNumber { second, .. } => Some(second),
        DescriptorErrorKind::EnumNumberInReservedRange { found, .. } => Some(found),
        DescriptorErrorKind::OptionNotFound { found, .. } => Some(found),
        DescriptorErrorKind::InvalidOptionType { found, .. } => Some(found),
        DescriptorErrorKind::DuplicateOption { found, .. } => Some(found),
        DescriptorErrorKind::DecodeFileDescriptorSet { .. } => None,
        DescriptorErrorKind::TypeNotFound { .. } => None,
    }
}

} // verus!

verus! {

impl DescriptorErrorKind {
    /// The message of this error, e.g. `name 'Foo' is not defined`.
    pub fn message(&self) -> (r: String)
        ensures
            r@ == spec_message(*self),
    {
        match self {
            DescriptorErrorKind::MissingRequiredField { label } => {
                let mut r = String::new();
                push_str(&mut r, "missing required field at ");
                let t = list_to_text(&label.path);
                push_str(&mut r, t.as_str());
                proof {
                    assert(r@ =~= spec_message(*self));
                }
                r
            },
            DescriptorErrorKind::UnknownSyntax { syntax, .. } => cat3("unknown syntax '", syntax.as_str(), "'"),
            DescriptorErrorKind::DuplicateFileName { name } => cat3(
                "a different file named '",
                name.as_str(),
                "' has already been added",
            ),
            DescriptorErrorKind::FileNotFound { name, .. } => cat3(
                "imported file '",
                name.as_str(),
                "' has not been added",
            ),
            DescriptorErrorKind::InvalidImportIndex => crate::text::to_owned_string("invalid import index"),
            DescriptorErrorKind::InvalidOneofIndex => crate::text::to_owned_string("invalid oneof index"),
            DescriptorErrorKind::DuplicateName { name, first, second } => {
                if crate::text::str_eq(first.file.as_str(), second.file.as_str()) {
                    cat3("name '", name.as_str(), "' is defined twice")
                } else {
                    cat5("name '", name.as_str(), "' is already defined in file '", first.file.as_str(), "'")
                }
            },
            DescriptorErrorKind::DuplicateFieldNumber { number, .. } => {
                let n = i64_to_text(*number as i64);
                cat3("field number '", n.as_str(), "' is already used")
            },
            DescriptorErrorKind::DuplicateFieldJsonName { name, .. } => cat3(
                "a field with JSON name '",
                name.as_str(),
                "' is already defined",
            ),
            DescriptorErrorKind::DuplicateFieldCamelCaseName { first_name, second_name, .. } => cat5(
                "camel-case name of field '",
                first_name.as_str(),
                "' conflicts with field '",
                second_name.as_str(),
                "'",
            ),
            DescriptorErrorKind::InvalidFieldNumber { number, .. } => {
                let n = i64_to_text(*number as i64);
                cat3("invalid field number '", n.as_str(), "'")
            },
            DescriptorErrorKind::FieldNumberInReservedRange { number, range_start, range_end, .. } => {
                let n = i64_to_text(*number as i64);
                let a = i64_to_text(*range_start as i64);
                let b = i64_to_text(*range_end as i64 - 1);
                cat7(
                    "field number '",
                    n.as_str(),
                    "' conflicts with reserved range '",
                    a.as_str(),
                    " to ",
                    b.as_str(),
                    "'",
                )
            },
            DescriptorErrorKind::FieldNumberInExtensionRange { number, range_start, range_end, .. } => {
                let n = i64_to_text(*number as i64);
                let a = i64_to_text(*range_start as i64);
                let b = i64_to_text(*range_end as i64 - 1);
                cat7(
                    "field number '",
                    n.as_str(),
                    "' conflicts with extension range '",
                    a.as_str(),
                    " to ",
                    b.as_str(),
                    "'",
                )
            },
            DescriptorErrorKind::ExtensionNumberOutOfRange { number, message, .. } => {
                let n = i64_to_text(*number as i64);
                cat5(
                    "message '",
                    message.as_str(),
                    "' does not define '",
                    n.as_str(),
                    "' as an extension number",
                )
            },
            DescriptorErrorKind::NameNotFound { name, .. } => cat3("name '", name.as_str(), "' is not defined"),
            DescriptorErrorKind::NameShadowed { name, shadowed_name, .. } => cat5(
                "'",
                name.as_str(),
                "' resolves to '",
                shadowed_name.as_str(),
                "', which is not defined",
            ),
            DescriptorErrorKind::InvalidType { name, expected, .. } => {
                let mut r = cat3("'", name.as_str(), "' is not ");
                push_str(&mut r, expected.as_str());
                r
            },
            DescriptorErrorKind::InvalidFieldDefault { value, kind, .. } => cat5(
                "invalid default value '",
                value.as_str(),
                "' for type '",
                kind.as_str(),
                "'",
            ),
            DescriptorErrorKind::EmptyEnum { .. } => crate::text::to_owned_string("enums must have at least one value"),
            DescriptorErrorKind::InvalidProto3EnumDefault { .. } => crate::text::to_owned_string(
                "the first value for proto3 enums must be 0",
            ),
            DescriptorErrorKind::DuplicateEnumNumber { number, .. } => {
                let n = i64_to_text(*number as i64);
                cat3("enum number '", n.as_str(), "' has already been used")
            },
            DescriptorErrorKind::EnumNumberInReservedRange { number, range_start, range_end, .. } => {
                let n = i64_to_text(*number as i64);
                let a = i64_to_text(*range_start as i64);
                let b = i64_to_text(*range_end as i64);
                cat7(
                    "enum number '",
                    n.as_str(),
                    "' conflicts with reserved range '",
                    a.as_str(),
                    " to ",
                    b.as_str(),
                    "'",
                )
            },
            DescriptorErrorKind::OptionNotFound { name, .. } => cat3("option field '", name.as_str(), "' is not defined"),
            DescriptorErrorKind::InvalidOptionType { name, ty, value, is_last, .. } => {
                if *is_last {
                    cat7(
                        "expected a value of type '",
                        ty.as_str(),
                        "' for option '",
                        name.as_str(),
                        "', but found '",
                        value.as_str(),
                        "'",
                    )
                } else {
                    cat5("cannot set field for option '", name.as_str(), "' value of type '", ty.as_str(), "'")
                }
            },
            DescriptorErrorKind::DuplicateOption { name, .. } => cat3(
                "option field '",
                name.as_str(),
                "' has already been set",
            ),
            DescriptorErrorKind::DecodeFileDescriptorSet { .. } => crate::text::to_owned_string(
                "failed to decode file descriptor set",
            ),
            DescriptorErrorKind::TypeNotFound { name } => cat3(
                "the message or enum type '",
                name.as_str(),
                "' was not found",
            ),
        }
    }

    /// The hint this error gives on how to fix it, if any.
    pub fn help(&self) -> (r: Option<String>)
        ensures
            match r {
                Some(h) => spec_help(*self) == Some(h@),
                None => spec_help(*self) is None,
            },
    {
        match self {
            DescriptorErrorKind::UnknownSyntax { .. } => Some(
                crate::text::to_owned_string("valid values are 'proto2' and 'proto3'"),
            ),
            DescriptorErrorKind::InvalidFieldNumber { number, .. } => {
                if *number < 1 || *number > 536870911 {
                    Some(crate::text::to_owned_string("message numbers must be between 1 and 536870911"))
                } else if 19000 <= *number && *number <= 19999 {
                    Some(crate::text::to_owned_string("message numbers 19000 to 19999 are reserved"))
                } else {
                    None
                }
            },
            DescriptorErrorKind::DuplicateEnumNumber { .. } => Some(
                crate::text::to_owned_string("set the 'allow_alias' option allow re-using enum numbers"),
            ),
            DescriptorErrorKind::NameNotFound { help, .. } => match help {
                Some(h) => Some(crate::text::to_owned_string(h.as_str())),
                None => None,
            },
            DescriptorErrorKind::NameShadowed { help, .. } => match help {
                Some(h) => Some(crate::text::to_owned_string(h.as_str())),
                None => None,
            },
            _ => None,
        }
    }

    /// The label this error points at first, if it points at a definition.
    pub fn label(&self) -> (r: Option<&Label>)
        ensures
            match r {
                Some(l) => spec_label(*self) == Some(*l),
                None => spec_label(*self) is None,
            },
    {
        match self {
            DescriptorErrorKind::MissingRequiredField { label } => Some(label),
            DescriptorErrorKind::UnknownSyntax { found, .. } => Some(found),
            DescriptorErrorKind::DuplicateFileName { .. } => None,
            DescriptorErrorKind::FileNotFound { found, .. } => Some(found),
            DescriptorErrorKind::InvalidImportIndex => None,
            DescriptorErrorKind::InvalidOneofIndex => None,
            DescriptorErrorKind::DuplicateName { second, .. } => Some(second),
            DescriptorErrorKind::DuplicateFieldNumber { second, .. } => Some(second),
            DescriptorErrorKind::DuplicateFieldJsonName { second, .. } => Some(second),
            DescriptorErrorKind::DuplicateFieldCamelCaseName { second, .. } => Some(second),
            DescriptorErrorKind::InvalidFieldNumber { found, .. } => Some(found),
            DescriptorErrorKind::FieldNumberInReservedRange { found, .. } => Some(found),
            DescriptorErrorKind::FieldNumberInExtensionRange { found, .. } => Some(found),
            DescriptorErrorKind::ExtensionNumberOutOfRange { found, .. } => Some(found),
            DescriptorErrorKind::NameNotFound { found, .. } => Some(found),
            DescriptorErrorKind::NameShadowed { found, .. } => Some(found),
            DescriptorErrorKind::InvalidType { found, .. } => Some(found),
            DescriptorErrorKind::InvalidFieldDefault { found, .. } => Some(found),
            DescriptorErrorKind::EmptyEnum { found } => Some(found),
            DescriptorErrorKind::InvalidProto3EnumDefault { found } => Some(found),
            DescriptorErrorKind::DuplicateEnumNumber { second, .. } => Some(second),
            DescriptorErrorKind::EnumNumberInReservedRange { found, .. } => Some(found),
            DescriptorErrorKind::OptionNotFound { found, .. } => Some(found),
            DescriptorErrorKind::InvalidOptionType { found, .. } => Some(found),
            DescriptorErrorKind::DuplicateOption { found, .. } => Some(found),
            DescriptorErrorKind::DecodeFileDescriptorSet { .. } => None,
            DescriptorErrorKind::TypeNotFound { .. } => None,
        }
    }
}

} // verus!

verus! {

/// A 0-based position in a file as the 1-based number people count it by;
/// a negative position gives none.
pub open spec fn one_based(n: i32) -> Option<int> {
    if n >= 0 {
        Some(n + 1)
    } else {
        None
    }
}

impl DescriptorError {
    /// The text of the primary problem, e.g. `name 'Foo' is not defined`.
    pub fn to_string(&self) -> (r: String)
        ensures
            self.kinds().len() > 0,
            r@ == spec_message(self.kinds()[0]),
    {
        self.first().message()
    }

    /// The hint the primary problem gives on how to fix it, if any.
    pub fn help(&self) -> (r: Option<String>)
        ensures
            self.kinds().len() > 0,
            match r {
                Some(h) => spec_help(self.kinds()[0]) == Some(h@),
                None => spec_help(self.kinds()[0]) is None,
            },
    {
        self.first().help()
    }

    /// The file in which the primary problem occurred, if it points at one.
    pub fn file(&self) -> (r: Option<&str>)
        ensures
            self.kinds().len() > 0,
            match spec_label(self.kinds()[0]) {
                Some(l) => r matches Some(f) && f@ == l.file@,
                None => r is None,
            },
    {
        match self.first().label() {
            Some(l) => Some(l.file.as_str()),
            None => None,
        }
    }

    /// The 1-based line on which the primary problem occurred, when the file
    /// records where its definitions are.
    pub fn line(&self) -> (r: Option<usize>)
        ensures
            self.kinds().len() > 0,
            match spec_label(self.kinds()[0]) {
                Some(l) => match l.span {
                    Some(s) => match one_based(s.start_line) {
                        Some(n) => r == Some(n as usize),
                        None => r is None,
                    },
                    None => r is None,
                },
                None => r is None,
            },
    {
        match self.first().label() {
            Some(l) => match l.span {
                Some(s) => if s.start_line >= 0 {
                    Some(s.start_line as usize + 1)
                } else {
                    None
                },
                None => None,
            },
            None => None,
        }
    }

    /// The 1-based column at which the primary problem occurred, when the
    /// file records where its definitions are.
    pub fn column(&self) -> (r: Option<usize>)
        ensures
            self.kinds().len() > 0,
            match spec_label(self.kinds()[0]) {
                Some(l) => match l.span {
                    Some(s) => match one_based(s.start_column) {
                        Some(n) => r == Some(n as usize),
                        None => r is None,
                    },
                    None => r is None,
                },
                None => r is None,
            },
    {
        match self.first().label() {
            Some(l) => match l.span {
                Some(s) => if s.start_column >= 0 {
                    Some(s.start_column as usize + 1)
                } else {
                    None
                },
                None => None,
            },
            None => None,
        }
    }

    /// The path in the file descriptor of the definition the primary problem
    /// points at, if any.
    pub fn path(&self) -> (r: Option<&[i32]>)
        ensures
            self.kinds().len() > 0,
            match spec_label(self.kinds()[0]) {
                Some(l) => r matches Some(p) && p@ == l.path@,
                None => r is None,
            },
    {
        match self.first().label() {
            Some(l) => Some(l.path.as_slice()),
            None => None,
        }
    }
}

} // verus!

verus! {

/// The labels an error points at, in the order a report shows them.
pub open spec fn spec_labels(k: DescriptorErrorKind) -> Seq<Label> {
    match k {
        DescriptorErrorKind::MissingRequiredField { label } => seq![label],
        DescriptorErrorKind::UnknownSyntax { found, .. } => seq![found],
        DescriptorErrorKind::DuplicateFileName { .. } => Seq::empty(),
        DescriptorErrorKind::FileNotFound { found, .. } => seq![found],
        DescriptorErrorKind::InvalidImportIndex => Seq::empty(),
        DescriptorErrorKind::InvalidOneofIndex => Seq::empty(),
        DescriptorErrorKind::DuplicateName { first, second, .. } => seq![first, second],
        DescriptorErrorKind::DuplicateFieldNumber { first, second, .. } => seq![first, second],
        DescriptorErrorKind::DuplicateFieldJsonName { first, second, .. } => seq![first, second],
        DescriptorErrorKind::DuplicateFieldCamelCaseName { first, second, .. } => seq![first, second],
        DescriptorErrorKind::InvalidFieldNumber { found, .. } => seq![found],
        DescriptorErrorKind::FieldNumberInReservedRange { defined, found, .. } => seq![defined, found],
        DescriptorErrorKind::FieldNumberInExtensionRange { defined, found, .. } => seq![defined, found],
        DescriptorErrorKind::ExtensionNumberOutOfRange { found, .. } => seq![found],
        DescriptorErrorKind::NameNotFound { found, .. } => seq![found],
        DescriptorErrorKind::NameShadowed { found, .. } => seq![found],
        DescriptorErrorKind::InvalidType { found, defined, .. } => seq![found, defined],
        DescriptorErrorKind::InvalidFieldDefault { found, .. } => seq![found],
        DescriptorErrorKind::EmptyEnum { found } => seq![found],
        DescriptorErrorKind::InvalidProto3EnumDefault { found } => seq![found],
        DescriptorErrorKind::DuplicateEnumNumber { first, second, .. } => seq![first, second],
        DescriptorErrorKind::EnumNumberInReservedRange { defined, found, .. } => seq![found, defined],
        DescriptorErrorKind::OptionNotFound { found, .. } => seq![found],
        DescriptorErrorKind::InvalidOptionType { found, .. } => seq![found],
        DescriptorErrorKind::DuplicateOption { found, .. } => seq![found],
        DescriptorErrorKind::DecodeFileDescriptorSet { .. } => Seq::empty(),
        DescriptorErrorKind::TypeNotFound { .. } => Seq::empty(),
    }
}

/// The labels of a list of references.
pub open spec fn labels_view(v: Seq<&Label>) -> Seq<Label> {
    Seq::new(v.len(), |i: int| *v[i])
}

impl DescriptorErrorKind {
    /// The labels this error points at, in the order a report shows them.
    pub fn labels(&self) -> (r: Vec<&Label>)
        ensures
            labels_view(r@) == spec_labels(*self),
    {
        let mut r: Vec<&Label> = Vec::new();
        match self {
            DescriptorErrorKind::MissingRequiredField { label } => r.push(label),
            DescriptorErrorKind::UnknownSyntax { found, .. } => r.push(found),
            DescriptorErrorKind::DuplicateFileName { .. } => {},
            DescriptorErrorKind::FileNotFound { found, .. } => r.push(found),
            DescriptorErrorKind::InvalidImportIndex => {},
            DescriptorErrorKind::InvalidOneofIndex => {},
            DescriptorErrorKind::DuplicateName { first, second, .. } => {
                r.push(first);
                r.push(second);
            },
            DescriptorErrorKind::DuplicateFieldNumber { first, second, .. } => {
                r.push(first);
                r.push(second);
            },
            DescriptorErrorKind::DuplicateFieldJsonName { first, second, .. } => {
                r.push(first);
                r.push(second);
            },
            DescriptorErrorKind::DuplicateFieldCamelCaseName { first, second, .. } => {
                r.push(first);
                r.push(second);
            },
            DescriptorErrorKind::InvalidFieldNumber { found, .. } => r.push(found),
            DescriptorErrorKind::FieldNumberInReservedRange { defined, found, .. } => {
                r.push(defined);
                r.push(found);
            },
            DescriptorErrorKind::FieldNumberInExtensionRange { defined, found, .. } => {
                r.push(defined);
                r.push(found);
            },
            DescriptorErrorKind::ExtensionNumberOutOfRange { found, .. } => r.push(found),
            DescriptorErrorKind::NameNotFound { found, .. } => r.push(found),
            DescriptorErrorKind::NameShadowed { found, .. } => r.push(found),
            DescriptorErrorKind::InvalidType { found, defined, .. } => {
                r.push(found);
                r.push(defined);
            },
            DescriptorErrorKind::InvalidFieldDefault { found, .. } => r.push(found),
            DescriptorErrorKind::EmptyEnum { found } => r.push(found),
            DescriptorErrorKind::InvalidProto3EnumDefault { found } => r.push(found),
            DescriptorErrorKind::DuplicateEnumNumber { first, second, .. } => {
                r.push(first);
                r.push(second);
            },
            DescriptorErrorKind::EnumNumberInReservedRange { defined, found, .. } => {
                r.push(found);
                r.push(defined);
            },
            DescriptorErrorKind::OptionNotFound { found, .. } => r.push(found),
            DescriptorErrorKind::InvalidOptionType { found, .. } => r.push(found),
            DescriptorErrorKind::DuplicateOption { found, .. } => r.push(found),
            DescriptorErrorKind::DecodeFileDescriptorSet { .. } => {},
            DescriptorErrorKind::TypeNotFound { .. } => {},
        }
        proof {
            assert(labels_view(r@) =~= spec_labels(*self));
        }
        r
    }
}

} // verus!
