//! Reading the values of uninterpreted options.
use vstd::prelude::*;
use crate::text::{chars_of, opt_str};
use crate::types::{NamePart, Options, UninterpretedOption};

verus! {

/// The value of a boolean option: the identifiers `true` and `false`.
pub open spec fn spec_option_to_bool(option: UninterpretedOption) -> Option<bool> {
    match option.identifier_value {
        Some(v) => if v@ == "true"@ {
            Some(true)
        } else if v@ == "false"@ {
            Some(false)
        } else {
            None
        },
        None => None,
    }
}

/// Whether `s` is exactly the characters `word`.
fn is_word(s: &str, word: &str) -> (r: bool)
    ensures
        r == (s@ == word@),
{
    crate::text::str_eq(s, word)
}

/// The value of a boolean option, or `Err` if it is not `true` or `false`.
pub fn option_to_bool(option: &UninterpretedOption) -> (r: Result<bool, ()>)
    ensures
        r matches Ok(b) ==> spec_option_to_bool(*option) == Some(b),
        r is Err <==> spec_option_to_bool(*option) is None,
{
    match &option.identifier_value {
        Some(v) => {
            if is_word(v.as_str(), "true") {
                Ok(true)
            } else if is_word(v.as_str(), "false") {
                Ok(false)
            } else {
                Err(())
            }
        },
        None => Err(()),
    }
}

/// The integer types an integer option can be read as.
#[derive(Copy, Clone, PartialEq, Eq, Structural, Debug)]
pub enum IntegerKind {
    I32,
    I64,
    U32,
    U64,
}

/// The least value of an integer type.
pub open spec fn integer_min(kind: IntegerKind) -> int {
    match kind {
        IntegerKind::I32 => i32::MIN as int,
        IntegerKind::I64 => i64::MIN as int,
        IntegerKind::U32 => 0,
        IntegerKind::U64 => 0,
    }
}

/// The greatest value of an integer type.
pub open spec fn integer_max(kind: IntegerKind) -> int {
    match kind {
        IntegerKind::I32 => i32::MAX as int,
        IntegerKind::I64 => i64::MAX as int,
        IntegerKind::U32 => u32::MAX as int,
        IntegerKind::U64 => u64::MAX as int,
    }
}

/// The integer an option holds, if it holds one: the positive value if it has
/// one, else the negative value.
pub open spec fn option_integer(option: UninterpretedOption) -> Option<int> {
    match option.positive_int_value {
        Some(p) => Some(p as int),
        None => match option.negative_int_value {
            Some(n) => Some(n as int),
            None => None,
        },
    }
}

/// The value of an integer option read as `kind`, or `Err` if it holds no
/// integer or one out of the range of `kind`. The value is returned widened
/// to `i128`.
pub fn option_to_int(option: &UninterpretedOption, kind: IntegerKind) -> (r: Result<i128, ()>)
    ensures
        r matches Ok(v) ==> option_integer(*option) == Some(v as int),
        r is Ok <==> (option_integer(*option) matches Some(v) && integer_min(kind) <= v
            && v <= integer_max(kind)),
{
    let value: i128 = if let Some(p) = option.positive_int_value {
        p as i128
    } else if let Some(n) = option.negative_int_value {
        n as i128
    } else {
        return Err(());
    };
    let (min, max): (i128, i128) = match kind {
        IntegerKind::I32 => (i32::MIN as i128, i32::MAX as i128),
        IntegerKind::I64 => (i64::MIN as i128, i64::MAX as i128),
        IntegerKind::U32 => (0, u32::MAX as i128),
        IntegerKind::U64 => (0, u64::MAX as i128),
    };
    if min <= value && value <= max {
        Ok(value)
    } else {
        Err(())
    }
}

/// Whether an option is the plain option `allow_alias` set to `true`.
pub open spec fn is_allow_alias_true(u: UninterpretedOption) -> bool {
    &&& u.name@.len() == 1
    &&& u.name@[0].name_part@ == "allow_alias"@
    &&& !u.name@[0].is_extension
    &&& spec_option_to_bool(u) == Some(true)
}

/// Whether enum options allow aliases, either as an interpreted option or as
/// an uninterpreted `allow_alias = true`.
pub open spec fn spec_allow_alias(options: Option<Options>) -> bool {
    match options {
        Some(o) => crate::types::opt_bool(o.allow_alias) || exists|i: int|
            0 <= i < o.uninterpreted_option@.len() && #[trigger] is_allow_alias_true(
                o.uninterpreted_option@[i],
            ),
        None => false,
    }
}

/// Whether enum options allow aliases.
pub fn allow_alias(options: &Option<Options>) -> (r: bool)
    ensures
        r == spec_allow_alias(*options),
{
    match options {
        Some(o) => {
            if let Some(true) = o.allow_alias {
                return true;
            }
            let mut i: usize = 0;
            while i < o.uninterpreted_option.len()
                invariant
                    *options == Some(*o),
                    i <= o.uninterpreted_option@.len(),
                    forall|j: int| 0 <= j < i ==> !is_allow_alias_true(#[trigger] o.uninterpreted_option@[j]),
                decreases o.uninterpreted_option@.len() - i,
            {
                let u = &o.uninterpreted_option[i];
                if u.name.len() == 1 && is_word(u.name[0].name_part.as_str(), "allow_alias")
                    && !u.name[0].is_extension
                {
                    if let Ok(true) = option_to_bool(u) {
                        proof {
                            assert(is_allow_alias_true(o.uninterpreted_option@[i as int]));
                        }
                        return true;
                    }
                }
                i += 1;
            }
            false
        },
        None => false,
    }
}

} // verus!

verus! {

/// The text of one part of an option name: an extension name in brackets.
pub open spec fn name_part_text(p: NamePart) -> Seq<char> {
    if p.is_extension {
        "("@ + p.name_part@ + ")"@
    } else {
        p.name_part@
    }
}

/// The name of an option as written in a proto file, e.g. `(my.ext).field`:
/// the parts joined by `.`, where a `.` only follows non-empty text.
pub open spec fn option_name_text(parts: Seq<NamePart>) -> Seq<char>
    decreases parts.len(),
{
    if parts.len() == 0 {
        Seq::empty()
    } else {
        let prev = option_name_text(parts.drop_last());
        if prev.len() == 0 {
            name_part_text(parts.last())
        } else {
            prev + "."@ + name_part_text(parts.last())
        }
    }
}

/// Writes the name of an option as a proto file does, e.g. `(my.ext).field`.
pub fn fmt_option_name(parts: &[NamePart]) -> (r: String)
    ensures
        r@ == option_name_text(parts@),
{
    let mut result = String::new();
    let mut i: usize = 0;
    proof {
        assert(parts@.take(0) =~= Seq::<NamePart>::empty());
    }
    while i < parts.len()
        invariant
            i <= parts@.len(),
            result@ == option_name_text(parts@.take(i as int)),
        decreases parts@.len() - i,
    {
        let ghost prev = result@;
        let non_empty = result.as_str().unicode_len() > 0;
        if non_empty {
            crate::text::push_char(&mut result, '.');
        }
        let part = &parts[i];
        if part.is_extension {
            crate::text::push_char(&mut result, '(');
            crate::text::push_str(&mut result, part.name_part.as_str());
            crate::text::push_char(&mut result, ')');
        } else {
            crate::text::push_str(&mut result, part.name_part.as_str());
        }
        proof {
            reveal_strlit("(");
            reveal_strlit(")");
            reveal_strlit(".");
            let q = parts@.take(i + 1);
            assert(q.drop_last() =~= parts@.take(i as int));
            assert(q.last() == parts@[i as int]);
            if prev.len() == 0 {
                assert(result@ =~= name_part_text(parts@[i as int]));
            } else {
                assert(result@ =~= prev + "."@ + name_part_text(parts@[i as int]));
            }
        }
        i += 1;
    }
    proof {
        assert(parts@.take(parts@.len() as int) =~= parts@);
    }
    result
}

/// The bytes of a string or bytes option, or `Err` if it gives none.
pub fn option_to_bytes(option: &UninterpretedOption) -> (r: Result<Vec<u8>, ()>)
    ensures
        match option.string_value {
            Some(b) => r matches Ok(v) && v@ == b@,
            None => r is Err,
        },
{
    match &option.string_value {
        Some(b) => {
            let mut v: Vec<u8> = Vec::new();
            let mut i: usize = 0;
            while i < b.len()
                invariant
                    i <= b@.len(),
                    v@ == b@.take(i as int),
                decreases b@.len() - i,
            {
                v.push(b[i]);
                proof {
                    assert(b@.take(i + 1) =~= b@.take(i as int).push(b@[i as int]));
                }
                i += 1;
            }
            proof {
                assert(b@.take(b@.len() as int) =~= b@);
            }
            Ok(v)
        },
        None => Err(()),
    }
}

/// The number of the value of `desc` an enum option names, or `Err` if it
/// names none.
pub fn option_to_enum(option: &UninterpretedOption, desc: &crate::descriptor::EnumDescriptor) -> (r: Result<i32, ()>)
    ensures
        match option.identifier_value {
            Some(ident) => match r {
                Ok(n) => exists|k: int|
                    0 <= k < desc.data().values@.len() && #[trigger] desc.data().values@[k].id.name@ == ident@
                        && desc.data().values@[k].number == n && forall|j: int|
                        0 <= j < k ==> #[trigger] desc.data().values@[j].id.name@ != ident@,
                Err(_) => forall|k: int|
                    0 <= k < desc.data().values@.len() ==> #[trigger] desc.data().values@[k].id.name@ != ident@,
            },
            None => r is Err,
        },
{
    match &option.identifier_value {
        Some(ident) => match desc.get_value_by_name(ident.as_str()) {
            Some(v) => Ok(v.number()),
            None => Err(()),
        },
        None => Err(()),
    }
}

/// A path with the prefix `from` replaced by `to`; other paths are kept.
pub open spec fn relocated(path: Seq<i32>, from: Seq<i32>, to: Seq<i32>) -> Seq<i32> {
    if from.len() <= path.len() && path.take(from.len() as int) == from {
        to + path.skip(from.len() as int)
    } else {
        path
    }
}

/// Moves the locations recorded under the path `from` to the path `to`, as
/// when an option written in the source is stored under its resolved path.
pub fn relocate_locations(info: &mut crate::types::SourceCodeInfo, from: &Vec<i32>, to: &Vec<i32>)
    ensures
        final(info).location@.len() == old(info).location@.len(),
        forall|k: int| 0 <= k < final(info).location@.len() ==> (#[trigger] final(info).location@[k]).path@
            == relocated(old(info).location@[k].path@, from@, to@) && final(info).location@[k].span@
            == old(info).location@[k].span@,
{
    let mut moved: Vec<crate::types::Location> = Vec::new();
    let mut k: usize = 0;
    while k < info.location.len()
        invariant
            k <= info.location@.len(),
            info.location@ == old(info).location@,
            moved@.len() == k,
            forall|j: int| 0 <= j < k ==> (#[trigger] moved@[j]).path@ == relocated(old(info).location@[j].path@, from@, to@)
                && moved@[j].span@ == old(info).location@[j].span@,
        decreases info.location@.len() - k,
    {
        let loc = &info.location[k];
        let starts = from.len() <= loc.path.len() && crate::resolve::paths_eq(
            from,
            &crate::visit::clone_path(&prefix_of(&loc.path, from.len())),
        );
        let path = if starts {
            let mut p = crate::visit::clone_path(to);
            let mut i: usize = from.len();
            while i < loc.path.len()
                invariant
                    from@.len() <= i <= loc.path@.len(),
                    p@ == to@ + loc.path@.subrange(from@.len() as int, i as int),
                decreases loc.path@.len() - i,
            {
                p.push(loc.path[i]);
                proof {
                    assert(loc.path@.subrange(from@.len() as int, i + 1) =~= loc.path@.subrange(
                        from@.len() as int,
                        i as int,
                    ).push(loc.path@[i as int]));
                }
                i += 1;
            }
            proof {
                assert(loc.path@.subrange(from@.len() as int, loc.path@.len() as int) =~= loc.path@.skip(
                    from@.len() as int,
                ));
            }
            p
        } else {
            crate::visit::clone_path(&loc.path)
        };
        moved.push(crate::types::Location { path, span: crate::visit::clone_path(&loc.span) });
        k += 1;
    }
    info.location = moved;
}

/// The first `n` elements of `v`.
fn prefix_of(v: &Vec<i32>, n: usize) -> (r: Vec<i32>)
    requires
        n <= v@.len(),
    ensures
        r@ == v@.take(n as int),
{
    let mut r: Vec<i32> = Vec::new();
    let mut i: usize = 0;
    while i < n
        invariant
            i <= n <= v@.len(),
            r@ == v@.take(i as int),
        decreases n - i,
    {
        r.push(v[i]);
        proof {
            assert(v@.take(i + 1) =~= v@.take(i as int).push(v@[i as int]));
        }
        i += 1;
    }
    r
}

} // verus!

verus! {

/// The text that UTF-8 bytes encode, if they are valid UTF-8.
pub uninterp spec fn utf8_decode(bytes: Seq<u8>) -> Option<Seq<char>>;

/// Decodes bytes as UTF-8 with `String::from_utf8`. Trusted to give the text
/// the bytes encode, or `None` when they are not valid UTF-8; what that text
/// is stays named, not stated.
#[verifier::external_body]
fn decode_utf8(bytes: Vec<u8>) -> (r: Option<String>)
    ensures
        match r {
            Some(s) => utf8_decode(bytes@) == Some(s@),
            None => utf8_decode(bytes@) is None,
        },
{
    String::from_utf8(bytes).ok()
}

/// The text of a string option, or `Err` if it gives no bytes or they are
/// not valid UTF-8.
pub fn option_to_string(option: &UninterpretedOption) -> (r: Result<String, ()>)
    ensures
        match option.string_value {
            Some(b) => match utf8_decode(b@) {
                Some(t) => r matches Ok(s) && s@ == t,
                None => r is Err,
            },
            None => r is Err,
        },
{
    match option_to_bytes(option) {
        Ok(bytes) => match decode_utf8(bytes) {
            Some(s) => Ok(s),
            None => Err(()),
        },
        Err(()) => Err(()),
    }
}

} // verus!
