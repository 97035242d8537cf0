//! Configuration for generating code that gives each message type access to
//! its descriptor.
use vstd::prelude::*;
use crate::api::DescriptorPool;
use crate::text::push_str;

verus! {

/// The name of the file the encoded file descriptor set is written to.
pub open spec fn set_file_name() -> Seq<char> {
    "file_descriptor_set.bin"@
}

/// A file name placed in a directory: the directory, a `/` unless it is empty
/// or already ends with one, then the name.
pub open spec fn join_file(dir: Seq<char>, name: Seq<char>) -> Seq<char> {
    if dir.len() == 0 {
        name
    } else if dir.last() == '/' {
        dir + name
    } else {
        dir + "/"@ + name
    }
}

/// Where the encoded file descriptor set goes by default: in the output
/// directory if one is given, else in the current one.
pub open spec fn default_set_path(out_dir: Option<Seq<char>>) -> Seq<char> {
    join_file(
        match out_dir {
            Some(d) => d,
            None => "."@,
        },
        set_file_name(),
    )
}

/// The attribute that gives generated code access to the descriptors, if an
/// expression for them was set: the pool expression first, else the bytes one.
pub open spec fn spec_pool_attribute(pool_expr: Option<Seq<char>>, bytes_expr: Option<Seq<char>>) -> Option<Seq<char>> {
    match pool_expr {
        Some(p) => Some("#[prost_reflect(descriptor_pool = \""@ + p + "\")]"@),
        None => match bytes_expr {
            Some(b) => Some("#[prost_reflect(file_descriptor_set_bytes = \""@ + b + "\")]"@),
            None => None,
        },
    }
}

/// The attribute that derives reflection for a message type.
pub open spec fn derive_attribute() -> Seq<char> {
    "#[derive(::prost_reflect::ReflectMessage)]"@
}

/// The attribute that names the message type a generated type stands for.
pub open spec fn name_attribute(full_name: Seq<char>) -> Seq<char> {
    "#[prost_reflect(message_name = \""@ + full_name + "\")]"@
}

/// The error given when no expression gives access to the descriptors.
pub open spec fn missing_expr_message() -> Seq<char> {
    "either 'descriptor_pool' or 'file_descriptor_set_bytes' must be set"@
}

/// Configuration for code generation that derives reflection for every
/// message type of a set of proto files.
pub struct Builder {
    file_descriptor_set_path: String,
    descriptor_pool_expr: Option<String>,
    file_descriptor_set_bytes_expr: Option<String>,
}

/// The text of an optional string.
pub open spec fn opt_view(s: Option<String>) -> Option<Seq<char>> {
    match s {
        Some(v) => Some(v@),
        None => None,
    }
}

impl Builder {
    /// Where the encoded file descriptor set is written.
    pub closed spec fn path_view(self) -> Seq<char> {
        self.file_descriptor_set_path@
    }

    /// The expression giving the descriptor pool, if set.
    pub closed spec fn pool_expr_view(self) -> Option<Seq<char>> {
        opt_view(self.descriptor_pool_expr)
    }

    /// The expression giving the encoded file descriptor set, if set.
    pub closed spec fn bytes_expr_view(self) -> Option<Seq<char>> {
        opt_view(self.file_descriptor_set_bytes_expr)
    }

    /// A builder with the defaults: the file descriptor set is written to
    /// `file_descriptor_set.bin` in `out_dir` (the current directory when
    /// none is given), and no expression is set.
    pub fn new(out_dir: Option<&str>) -> (r: Builder)
        ensures
            r.path_view() == default_set_path(
                match out_dir {
                    Some(d) => Some(d@),
                    None => None,
                },
            ),
            r.pool_expr_view() is None,
            r.bytes_expr_view() is None,
    {
        let dir: &str = match out_dir {
            Some(d) => d,
            None => ".",
        };
        let mut path = String::new();
        push_str(&mut path, dir);
        let chars = crate::text::chars_of(dir);
        proof {
            reveal_strlit(".");
            reveal_strlit("/");
        }
        if chars.len() > 0 && chars[chars.len() - 1] != '/' {
            push_str(&mut path, "/");
        }
        push_str(&mut path, "file_descriptor_set.bin");
        proof {
            let d = dir@;
            if d.len() == 0 {
                assert(path@ =~= set_file_name());
            } else if d.last() == '/' {
                assert(path@ =~= d + set_file_name());
            } else {
                assert(path@ =~= d + "/"@ + set_file_name());
            }
        }
        Builder { file_descriptor_set_path: path, descriptor_pool_expr: None, file_descriptor_set_bytes_expr: None }
    }

    /// Sets where the encoded file descriptor set is written.
    pub fn file_descriptor_set_path(&mut self, path: String) -> (r: &mut Builder)
        ensures
            r.path_view() == path@,
            r.pool_expr_view() == old(self).pool_expr_view(),
            r.bytes_expr_view() == old(self).bytes_expr_view(),
            *final(self) == *final(r),
    {
        self.file_descriptor_set_path = path;
        self
    }

    /// Sets the expression giving the descriptor pool, e.g. `crate::DESCRIPTOR_POOL`.
    pub fn descriptor_pool(&mut self, expr: String) -> (r: &mut Builder)
        ensures
            r.pool_expr_view() == Some(expr@),
            r.path_view() == old(self).path_view(),
            r.bytes_expr_view() == old(self).bytes_expr_view(),
            *final(self) == *final(r),
    {
        self.descriptor_pool_expr = Some(expr);
        self
    }

    /// Sets the expression giving the encoded file descriptor set, e.g.
    /// `crate::FILE_DESCRIPTOR_SET_BYTES`.
    pub fn file_descriptor_set_bytes(&mut self, expr: String) -> (r: &mut Builder)
        ensures
            r.bytes_expr_view() == Some(expr@),
            r.path_view() == old(self).path_view(),
            r.pool_expr_view() == old(self).pool_expr_view(),
            *final(self) == *final(r),
    {
        self.file_descriptor_set_bytes_expr = Some(expr);
        self
    }

    /// Where the encoded file descriptor set is written.
    pub fn get_file_descriptor_set_path(&self) -> (r: &str)
        ensures
            r@ == self.path_view(),
    {
        self.file_descriptor_set_path.as_str()
    }
}

} // verus!

verus! {

/// The attributes given to the generated type of each message type, in order:
/// for each message type of the pool, its full name with the derive, the name
/// and the pool attribute.
pub open spec fn attributes_for(names: Seq<Seq<char>>, pool_attribute: Seq<char>) -> Seq<(Seq<char>, Seq<char>)>
    decreases names.len(),
{
    if names.len() == 0 {
        Seq::empty()
    } else {
        let n = names.last();
        attributes_for(names.drop_last(), pool_attribute) + seq![
            (n, derive_attribute()),
            (n, name_attribute(n)),
            (n, pool_attribute),
        ]
    }
}

/// The full names of the message types of a pool, in order.
pub open spec fn message_names(pool: crate::pool::DescriptorPoolInner) -> Seq<Seq<char>> {
    Seq::new(pool.messages@.len(), |k: int| pool.messages@[k].id.full_name@)
}

/// The text of a list of pairs of strings.
pub open spec fn pairs_view(v: Seq<(String, String)>) -> Seq<(Seq<char>, Seq<char>)> {
    Seq::new(v.len(), |k: int| (v[k].0@, v[k].1@))
}

impl Builder {
    /// The attribute that gives generated code access to the descriptors:
    /// from the pool expression if set, else from the bytes expression; an
    /// error when neither is set.
    pub fn pool_attribute(&self) -> (r: Result<String, String>)
        ensures
            match spec_pool_attribute(self.pool_expr_view(), self.bytes_expr_view()) {
                Some(a) => r matches Ok(s) && s@ == a,
                None => r matches Err(m) && m@ == missing_expr_message(),
            },
    {
        match &self.descriptor_pool_expr {
            Some(p) => {
                let mut s = String::new();
                push_str(&mut s, "#[prost_reflect(descriptor_pool = \"");
                push_str(&mut s, p.as_str());
                push_str(&mut s, "\")]");
                proof {
                    assert(s@ =~= "#[prost_reflect(descriptor_pool = \""@ + p@ + "\")]"@);
                }
                Ok(s)
            },
            None => match &self.file_descriptor_set_bytes_expr {
                Some(b) => {
                    let mut s = String::new();
                    push_str(&mut s, "#[prost_reflect(file_descriptor_set_bytes = \"");
                    push_str(&mut s, b.as_str());
                    push_str(&mut s, "\")]");
                    proof {
                        assert(s@ =~= "#[prost_reflect(file_descriptor_set_bytes = \""@ + b@ + "\")]"@);
                    }
                    Ok(s)
                },
                None => Err(crate::text::to_owned_string(
                    "either 'descriptor_pool' or 'file_descriptor_set_bytes' must be set",
                )),
            },
        }
    }

    /// The type attributes to give the generated code so that every message
    /// type of `pool` derives reflection: for each message type, in order,
    /// its full name with the derive, the name and the pool attribute. An
    /// error when no expression gives access to the descriptors.
    pub fn message_attributes(&self, pool: &DescriptorPool) -> (r: Result<Vec<(String, String)>, String>)
        ensures
            match spec_pool_attribute(self.pool_expr_view(), self.bytes_expr_view()) {
                Some(a) => r matches Ok(v) && pairs_view(v@) == attributes_for(message_names(pool@), a),
                None => r matches Err(m) && m@ == missing_expr_message(),
            },
    {
        let attr = match self.pool_attribute() {
            Ok(a) => a,
            Err(m) => return Err(m),
        };
        let inner = pool.inner();
        let ghost names = message_names(pool@);
        let mut out: Vec<(String, String)> = Vec::new();
        let mut k: usize = 0;
        proof {
            assert(names.take(0) =~= Seq::<Seq<char>>::empty());
            assert(pairs_view(out@) =~= attributes_for(names.take(0), attr@));
        }
        while k < inner.messages.len()
            invariant
                k <= inner.messages@.len(),
                *inner == pool@,
                names == message_names(pool@),
                pairs_view(out@) == attributes_for(names.take(k as int), attr@),
            decreases inner.messages@.len() - k,
        {
            let full = inner.messages[k].id.full_name();
            let mut name_attr = String::new();
            push_str(&mut name_attr, "#[prost_reflect(message_name = \"");
            push_str(&mut name_attr, full);
            push_str(&mut name_attr, "\")]");
            let ghost before = out@;
            out.push((crate::text::to_owned_string(full), crate::text::to_owned_string("#[derive(::prost_reflect::ReflectMessage)]")));
            out.push((crate::text::to_owned_string(full), name_attr));
            out.push((crate::text::to_owned_string(full), crate::text::to_owned_string(attr.as_str())));
            proof {
                let n = names[k as int];
                assert(n == full@);
                assert(name_attr@ =~= name_attribute(n));
                assert(names.take(k + 1).drop_last() =~= names.take(k as int));
                assert(names.take(k + 1).last() == n);
                assert(pairs_view(out@) =~= pairs_view(before) + seq![
                    (n, derive_attribute()),
                    (n, name_attribute(n)),
                    (n, attr@),
                ]);
            }
            k += 1;
        }
        proof {
            assert(names.take(names.len() as int) =~= names);
        }
        Ok(out)
    }
}

} // verus!
