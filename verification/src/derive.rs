//! The arguments of the `#[prost_reflect(...)]` attribute of a type deriving
//! reflection, read from the attribute as plain values.
use vstd::prelude::*;

verus! {

/// A literal written as an argument value.
pub enum Lit {
    /// A string literal, with its value.
    Str(String),
    /// Any other literal, as written.
    Other(String),
}

/// One item inside `#[prost_reflect(...)]`.
pub enum MetaItem {
    /// `name = literal`.
    NameValue { path: String, lit: Lit },
    /// Anything else.
    Other,
}

/// An attribute of the type: whether it is `#[prost_reflect ...]`, and
/// whether it is written as a list.
pub struct DeriveAttr {
    pub is_prost_reflect: bool,
    /// The items of the list, when the attribute is one.
    pub list: Option<Vec<MetaItem>>,
}

/// The arguments found: the last value given to each.
pub struct Args {
    pub message_name: Option<Lit>,
    pub descriptor_pool: Option<Lit>,
    pub file_descriptor_set_bytes: Option<Lit>,
}

/// What the arguments name: for each, whether it was given, and the literal
/// last given to it, as a string literal (`true`) or another one.
pub struct ArgsView {
    pub message_name: Option<(bool, Seq<char>)>,
    pub descriptor_pool: Option<(bool, Seq<char>)>,
    pub file_descriptor_set_bytes: Option<(bool, Seq<char>)>,
}

/// A literal as a flag for string literals and its text.
pub open spec fn lit_view(l: Lit) -> (bool, Seq<char>) {
    match l {
        Lit::Str(s) => (true, s@),
        Lit::Other(s) => (false, s@),
    }
}

/// An optional literal as a view.
pub open spec fn opt_lit_view(l: Option<Lit>) -> Option<(bool, Seq<char>)> {
    match l {
        Some(x) => Some(lit_view(x)),
        None => None,
    }
}

impl Args {
    /// What the arguments name.
    pub open spec fn view(&self) -> ArgsView {
        ArgsView {
            message_name: opt_lit_view(self.message_name),
            descriptor_pool: opt_lit_view(self.descriptor_pool),
            file_descriptor_set_bytes: opt_lit_view(self.file_descriptor_set_bytes),
        }
    }
}

/// The error for a type without the attribute.
pub open spec fn missing_attribute() -> Seq<char> {
    "missing #[prost_reflect] attribute"@
}

/// The error for an attribute not written as a list.
pub open spec fn expected_list() -> Seq<char> {
    "expected list of attributes"@
}

/// The error for an argument of an unknown name.
pub open spec fn unknown_argument() -> Seq<char> {
    "unknown argument (expected 'descriptor_pool' or 'message_name')"@
}

/// The error for an item that is not `name = literal`.
pub open spec fn unexpected_attribute() -> Seq<char> {
    "unexpected attribute"@
}

/// Reads items into the arguments found so far: the first item that is not
/// a known `name = literal` is an error.
pub open spec fn scan_items(items: Seq<MetaItem>, acc: ArgsView) -> Result<ArgsView, Seq<char>>
    decreases items.len(),
{
    if items.len() == 0 {
        Ok(acc)
    } else {
        match items[0] {
            MetaItem::NameValue { path, lit } => if path@ == "descriptor_pool"@ {
                scan_items(items.drop_first(), ArgsView { descriptor_pool: Some(lit_view(lit)), ..acc })
            } else if path@ == "message_name"@ {
                scan_items(items.drop_first(), ArgsView { message_name: Some(lit_view(lit)), ..acc })
            } else if path@ == "file_descriptor_set_bytes"@ {
                scan_items(items.drop_first(), ArgsView { file_descriptor_set_bytes: Some(lit_view(lit)), ..acc })
            } else {
                Err(unknown_argument())
            },
            MetaItem::Other => Err(unexpected_attribute()),
        }
    }
}

/// The items of the `prost_reflect` attributes from index `i` on, in order.
pub open spec fn flat_items(attrs: Seq<DeriveAttr>, i: int) -> Seq<MetaItem>
    decreases attrs.len() - i,
{
    if i < 0 || i >= attrs.len() {
        Seq::empty()
    } else if attrs[i].is_prost_reflect && attrs[i].list is Some {
        attrs[i].list->0@ + flat_items(attrs, i + 1)
    } else {
        flat_items(attrs, i + 1)
    }
}

/// The arguments the attributes of a type give, or the error to report: a
/// missing attribute, then an attribute not written as a list, then the
/// first bad item.
pub open spec fn spec_parse_args(attrs: Seq<DeriveAttr>) -> Result<ArgsView, Seq<char>> {
    if forall|i: int| 0 <= i < attrs.len() ==> !(#[trigger] attrs[i]).is_prost_reflect {
        Err(missing_attribute())
    } else if exists|i: int| 0 <= i < attrs.len() && (#[trigger] attrs[i]).is_prost_reflect && attrs[i].list is None {
        Err(expected_list())
    } else {
        scan_items(flat_items(attrs, 0), ArgsView { message_name: None, descriptor_pool: None, file_descriptor_set_bytes: None })
    }
}

/// A copy of a literal.
fn copy_lit(l: &Lit) -> (r: Lit)
    ensures
        lit_view(r) == lit_view(*l),
{
    match l {
        Lit::Str(s) => Lit::Str(crate::text::to_owned_string(s.as_str())),
        Lit::Other(s) => Lit::Other(crate::text::to_owned_string(s.as_str())),
    }
}

impl Args {
    /// Reads the arguments of the `prost_reflect` attributes of a type: the
    /// items of all of them in order, the last value of each argument kept.
    pub fn parse(attrs: &Vec<DeriveAttr>) -> (r: Result<Args, String>)
        ensures
            match spec_parse_args(attrs@) {
                Ok(v) => r matches Ok(a) && a.view() == v,
                Err(e) => r matches Err(m) && m@ == e,
            },
    {
        let mut any = false;
        let mut i: usize = 0;
        while i < attrs.len()
            invariant
                i <= attrs@.len(),
                any == exists|j: int| 0 <= j < i && (#[trigger] attrs@[j]).is_prost_reflect,
                forall|j: int| 0 <= j < i && (#[trigger] attrs@[j]).is_prost_reflect ==> attrs@[j].list is Some,
            decreases attrs@.len() - i,
        {
            if attrs[i].is_prost_reflect {
                if attrs[i].list.is_none() {
                    let ghost w = i as int;
                    proof {
                        assert(attrs@[w].is_prost_reflect && attrs@[w].list is None);
                        assert(!(forall|j: int| 0 <= j < attrs@.len() ==> !(#[trigger] attrs@[j]).is_prost_reflect));
                    }
                    return Err(crate::text::to_owned_string("expected list of attributes"));
                }
                any = true;
            }
            i += 1;
        }
        if !any {
            return Err(crate::text::to_owned_string("missing #[prost_reflect] attribute"));
        }
        proof {
            assert(!exists|j: int| 0 <= j < attrs@.len() && (#[trigger] attrs@[j]).is_prost_reflect && attrs@[j].list is None);
        }
        let ghost init = ArgsView { message_name: None, descriptor_pool: None, file_descriptor_set_bytes: None };
        let mut args = Args { message_name: None, descriptor_pool: None, file_descriptor_set_bytes: None };
        let mut i: usize = 0;
        while i < attrs.len()
            invariant
                i <= attrs@.len(),
                init == (ArgsView { message_name: None, descriptor_pool: None, file_descriptor_set_bytes: None }),
                exists|j: int| 0 <= j < attrs@.len() && (#[trigger] attrs@[j]).is_prost_reflect,
                forall|j: int| 0 <= j < attrs@.len() && (#[trigger] attrs@[j]).is_prost_reflect ==> attrs@[j].list is Some,
                scan_items(flat_items(attrs@, 0), init) == scan_items(flat_items(attrs@, i as int), args.view()),
            decreases attrs@.len() - i,
        {
            let a = &attrs[i];
            if a.is_prost_reflect {
                match &a.list {
                    Some(items) => {
                        let ghost rest = flat_items(attrs@, i + 1);
                        let mut k: usize = 0;
                        proof {
                            assert(items@.skip(0) =~= items@);
                        }
                        while k < items.len()
                            invariant
                                k <= items@.len(),
                                rest == flat_items(attrs@, i + 1),
                                init == (ArgsView { message_name: None, descriptor_pool: None, file_descriptor_set_bytes: None }),
                                exists|j: int| 0 <= j < attrs@.len() && (#[trigger] attrs@[j]).is_prost_reflect,
                                forall|j: int| 0 <= j < attrs@.len() && (#[trigger] attrs@[j]).is_prost_reflect ==> attrs@[j].list is Some,
                                scan_items(flat_items(attrs@, 0), init) == scan_items(items@.skip(k as int) + rest, args.view()),
                            decreases items@.len() - k,
                        {
                            proof {
                                assert((items@.skip(k as int) + rest)[0] == items@[k as int]);
                                assert((items@.skip(k as int) + rest).drop_first() =~= items@.skip(k + 1) + rest);
                            }
                            match &items[k] {
                                MetaItem::NameValue { path, lit } => {
                                    if crate::text::str_eq(path.as_str(), "descriptor_pool") {
                                        args.descriptor_pool = Some(copy_lit(lit));
                                    } else if crate::text::str_eq(path.as_str(), "message_name") {
                                        args.message_name = Some(copy_lit(lit));
                                    } else if crate::text::str_eq(path.as_str(), "file_descriptor_set_bytes") {
                                        args.file_descriptor_set_bytes = Some(copy_lit(lit));
                                    } else {
                                        return Err(crate::text::to_owned_string(
                                            "unknown argument (expected 'descriptor_pool' or 'message_name')",
                                        ));
                                    }
                                },
                                MetaItem::Other => {
                                    return Err(crate::text::to_owned_string("unexpected attribute"));
                                },
                            }
                            k += 1;
                        }
                        proof {
                            assert(items@.skip(items@.len() as int) + rest =~= rest);
                        }
                    },
                    None => {},
                }
            }
            i += 1;
        }
        Ok(args)
    }
}

} // verus!

verus! {

/// The expression for the descriptor pool, or the error to report.
pub open spec fn spec_descriptor_pool(a: ArgsView) -> Result<Seq<char>, Seq<char>> {
    match a.descriptor_pool {
        Some((is_str, s)) => if is_str {
            Ok(s)
        } else {
            Err("'file_descriptor_set' must be a string literal"@)
        },
        None => Err("missing required argument 'descriptor_pool'"@),
    }
}

/// Where the implementation gets its descriptors from: the text of an
/// expression giving a descriptor pool, or of one giving the bytes of an
/// encoded file descriptor set.
pub enum DescriptorSource {
    Pool(String),
    FileDescriptorSetBytes(String),
}

/// A source as a flag for pools and the text of its expression.
pub open spec fn source_view(s: DescriptorSource) -> (bool, Seq<char>) {
    match s {
        DescriptorSource::Pool(e) => (true, e@),
        DescriptorSource::FileDescriptorSetBytes(e) => (false, e@),
    }
}

/// Where the descriptors come from, or the error to report: the
/// `descriptor_pool` argument when it is given, else the
/// `file_descriptor_set_bytes` one.
pub open spec fn spec_descriptor_source(a: ArgsView) -> Result<(bool, Seq<char>), Seq<char>> {
    match a.descriptor_pool {
        Some(_) => match spec_descriptor_pool(a) {
            Ok(s) => Ok((true, s)),
            Err(e) => Err(e),
        },
        None => match a.file_descriptor_set_bytes {
            Some((is_str, s)) => if is_str {
                Ok((false, s))
            } else {
                Err("'file_descriptor_set_bytes' must be a string literal"@)
            },
            None => Err("missing required argument 'descriptor_pool'"@),
        },
    }
}

/// The message name literal, or the error to report.
pub open spec fn spec_message_name(a: ArgsView) -> Result<(bool, Seq<char>), Seq<char>> {
    match a.message_name {
        Some(l) => Ok(l),
        None => Err("missing required argument 'message_name'"@),
    }
}

/// What kind of item derives reflection.
pub enum ItemKind {
    Struct,
    Enum,
    Union,
}

impl Args {
    /// The text of the expression giving the descriptor pool: the value of
    /// the `descriptor_pool` string literal.
    pub fn descriptor_pool(&self) -> (r: Result<String, String>)
        ensures
            match spec_descriptor_pool(self.view()) {
                Ok(s) => r matches Ok(t) && t@ == s,
                Err(e) => r matches Err(m) && m@ == e,
            },
    {
        match &self.descriptor_pool {
            Some(Lit::Str(s)) => Ok(crate::text::to_owned_string(s.as_str())),
            Some(Lit::Other(_)) => Err(crate::text::to_owned_string("'file_descriptor_set' must be a string literal")),
            None => Err(crate::text::to_owned_string("missing required argument 'descriptor_pool'")),
        }
    }

    /// Where the implementation gets its descriptors from.
    pub fn descriptor_source(&self) -> (r: Result<DescriptorSource, String>)
        ensures
            match spec_descriptor_source(self.view()) {
                Ok(s) => r matches Ok(x) && source_view(x) == s,
                Err(e) => r matches Err(m) && m@ == e,
            },
    {
        if self.descriptor_pool.is_some() {
            match self.descriptor_pool() {
                Ok(p) => Ok(DescriptorSource::Pool(p)),
                Err(e) => Err(e),
            }
        } else {
            match &self.file_descriptor_set_bytes {
                Some(Lit::Str(s)) => Ok(DescriptorSource::FileDescriptorSetBytes(crate::text::to_owned_string(s.as_str()))),
                Some(Lit::Other(_)) => Err(
                    crate::text::to_owned_string("'file_descriptor_set_bytes' must be a string literal"),
                ),
                None => Err(crate::text::to_owned_string("missing required argument 'descriptor_pool'")),
            }
        }
    }

    /// The literal given as the message name.
    pub fn message_name(&self) -> (r: Result<Lit, String>)
        ensures
            match spec_message_name(self.view()) {
                Ok(l) => r matches Ok(x) && lit_view(x) == l,
                Err(e) => r matches Err(m) && m@ == e,
            },
    {
        match &self.message_name {
            Some(l) => Ok(copy_lit(l)),
            None => Err(crate::text::to_owned_string("missing required argument 'message_name'")),
        }
    }
}

/// What deriving reflection for an item produces: nothing for enums and
/// unions; for a struct, where its descriptors come from and the literal
/// naming the message type, or the first error among reading the
/// attributes, the descriptor source and the name.
pub fn reflect_message_impl(kind: ItemKind, attrs: &Vec<DeriveAttr>) -> (r: Result<Option<(DescriptorSource, Lit)>, String>)
    ensures
        !(kind is Struct) ==> r matches Ok(None),
        kind is Struct ==> match spec_parse_args(attrs@) {
            Err(e) => r matches Err(m) && m@ == e,
            Ok(a) => match spec_descriptor_source(a) {
                Err(e) => r matches Err(m) && m@ == e,
                Ok(p) => match spec_message_name(a) {
                    Err(e) => r matches Err(m) && m@ == e,
                    Ok(n) => r matches Ok(Some((q, l))) && source_view(q) == p && lit_view(l) == n,
                },
            },
        },
{
    match kind {
        ItemKind::Struct => {},
        _ => return Ok(None),
    }
    let args = match Args::parse(attrs) {
        Ok(a) => a,
        Err(e) => return Err(e),
    };
    let pool = match args.descriptor_source() {
        Ok(p) => p,
        Err(e) => return Err(e),
    };
    let name = match args.message_name() {
        Ok(n) => n,
        Err(e) => return Err(e),
    };
    Ok(Some((pool, name)))
}

} // verus!
