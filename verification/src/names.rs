//! Pure functions on protobuf names: JSON names, scopes and qualified names.
use vstd::prelude::*;
use crate::text::{ascii_lower, ascii_upper, chars_of, push_char, to_ascii_lower, to_ascii_upper};

verus! {

/// The JSON name protoc derives from a field name: underscores are dropped and
/// the character after an underscore is upper-cased.
pub open spec fn json_name_of(s: Seq<char>) -> Seq<char>
    decreases s.len(),
{
    if s.len() == 0 {
        Seq::empty()
    } else {
        let prev = json_name_of(s.drop_last());
        let c = s.last();
        if c == '_' {
            prev
        } else if s.len() >= 2 && s[s.len() - 2] == '_' {
            prev.push(ascii_upper(c))
        } else {
            prev.push(c)
        }
    }
}

/// A field name with underscores dropped and ASCII letters lower-cased; two
/// fields whose names agree under this map have clashing camel-case names.
pub open spec fn lower_without_underscores(s: Seq<char>) -> Seq<char>
    decreases s.len(),
{
    if s.len() == 0 {
        Seq::empty()
    } else {
        let prev = lower_without_underscores(s.drop_last());
        let c = s.last();
        if c == '_' {
            prev
        } else {
            prev.push(ascii_lower(c))
        }
    }
}

/// `namespace.name`, or just `name` in the empty namespace.
pub open spec fn joined_name(namespace: Seq<char>, name: Seq<char>) -> Seq<char> {
    if namespace.len() == 0 {
        name
    } else {
        namespace + seq!['.'] + name
    }
}

/// The prefixes of `s` that end just before a `.` among its first `n`
/// characters, the longest first.
pub open spec fn prefixes_before_dots(s: Seq<char>, n: int) -> Seq<Seq<char>>
    decreases n,
{
    if n <= 0 {
        Seq::empty()
    } else if s[n - 1] == '.' {
        seq![s.take(n - 1)] + prefixes_before_dots(s, n - 1)
    } else {
        prefixes_before_dots(s, n - 1)
    }
}

/// The scopes searched for a relative name used in `scope`: the scope
/// itself, each enclosing scope from the innermost out, then the root scope.
pub open spec fn candidate_parents(scope: Seq<char>) -> Seq<Seq<char>> {
    seq![scope] + prefixes_before_dots(scope, scope.len() as int) + seq![Seq::<char>::empty()]
}

/// The package names a package declaration introduces: each dotted prefix,
/// the shortest first, then the package itself.
pub open spec fn package_names(package: Seq<char>) -> Seq<Seq<char>> {
    prefixes_before_dots(package, package.len() as int).reverse().push(package)
}

/// A name without its leading `.`, if it has one.
pub open spec fn without_leading_dot(s: Seq<char>) -> Seq<char> {
    if s.len() > 0 && s[0] == '.' {
        s.drop_first()
    } else {
        s
    }
}

/// The part of the first component of a dotted name: everything before the first `.`.
pub open spec fn first_component(s: Seq<char>) -> Seq<char>
    decreases s.len(),
{
    if s.len() == 0 {
        Seq::empty()
    } else if s[0] == '.' {
        Seq::empty()
    } else {
        seq![s[0]] + first_component(s.drop_first())
    }
}

/// Computes the JSON name of a field name.
pub fn to_json_name(name: &str) -> (r: String)
    ensures
        r@ == json_name_of(name@),
{
    let chars = chars_of(name);
    let mut result = String::new();
    let mut uppercase_next = false;
    let mut i: usize = 0;
    while i < chars.len()
        invariant
            chars@ == name@,
            i <= chars@.len(),
            result@ == json_name_of(chars@.take(i as int)),
            uppercase_next == (i > 0 && chars@[i - 1] == '_'),
        decreases chars@.len() - i,
    {
        let ch = chars[i];
        proof {
            assert(chars@.take(i + 1).drop_last() =~= chars@.take(i as int));
        }
        if ch == '_' {
            uppercase_next = true;
        } else if uppercase_next {
            push_char(&mut result, to_ascii_upper(ch));
            uppercase_next = false;
        } else {
            push_char(&mut result, ch);
        }
        i += 1;
    }
    proof {
        assert(chars@.take(chars@.len() as int) =~= chars@);
    }
    result
}

/// Lower-cases a field name and drops its underscores.
pub fn to_lower_without_underscores(name: &Vec<char>) -> (r: Vec<char>)
    ensures
        r@ == lower_without_underscores(name@),
{
    let mut result: Vec<char> = Vec::new();
    let mut i: usize = 0;
    while i < name.len()
        invariant
            i <= name@.len(),
            result@ == lower_without_underscores(name@.take(i as int)),
        decreases name@.len() - i,
    {
        let ch = name[i];
        proof {
            assert(name@.take(i + 1).drop_last() =~= name@.take(i as int));
        }
        if ch != '_' {
            result.push(to_ascii_lower(ch));
        }
        i += 1;
    }
    proof {
        assert(name@.take(name@.len() as int) =~= name@);
    }
    result
}

/// Joins a namespace and a name with a `.`, unless the namespace is empty.
pub fn join_name(namespace: &Vec<char>, name: &Vec<char>) -> (r: Vec<char>)
    ensures
        r@ == joined_name(namespace@, name@),
{
    if namespace.len() == 0 {
        return name.clone();
    }
    let mut r = namespace.clone();
    r.push('.');
    let mut i: usize = 0;
    while i < name.len()
        invariant
            i <= name@.len(),
            r@ == namespace@ + seq!['.'] + name@.take(i as int),
        decreases name@.len() - i,
    {
        r.push(name[i]);
        proof {
            assert(name@.take(i + 1) =~= name@.take(i as int).push(name@[i as int]));
        }
        i += 1;
    }
    proof {
        assert(name@.take(name@.len() as int) =~= name@);
    }
    r
}

/// Concatenates two paths.
pub fn join_path(path1: &[i32], path2: &[i32]) -> (r: Vec<i32>)
    ensures
        r@ == path1@ + path2@,
{
    let mut r: Vec<i32> = Vec::new();
    let mut i: usize = 0;
    while i < path1.len()
        invariant
            i <= path1@.len(),
            r@ == path1@.take(i as int),
        decreases path1@.len() - i,
    {
        r.push(path1[i]);
        proof {
            assert(path1@.take(i + 1) =~= path1@.take(i as int).push(path1@[i as int]));
        }
        i += 1;
    }
    let mut j: usize = 0;
    while j < path2.len()
        invariant
            i == path1@.len(),
            j <= path2@.len(),
            r@ == path1@ + path2@.take(j as int),
        decreases path2@.len() - j,
    {
        r.push(path2[j]);
        proof {
            assert(path1@.take(i as int) =~= path1@);
            assert(path2@.take(j + 1) =~= path2@.take(j as int).push(path2@[j as int]));
        }
        j += 1;
    }
    proof {
        assert(path1@.take(path1@.len() as int) =~= path1@);
        assert(path2@.take(path2@.len() as int) =~= path2@);
    }
    r
}

/// The dotted prefixes of `s` among its first `n` characters, the longest first.
fn prefixes_before_dots_exec(s: &Vec<char>) -> (r: Vec<Vec<char>>)
    ensures
        r@.map_values(|x: Vec<char>| x@) == prefixes_before_dots(s@, s@.len() as int),
{
    let mut r: Vec<Vec<char>> = Vec::new();
    let mut j: usize = 0;
    while j < s.len()
        invariant
            j <= s@.len(),
            r@.map_values(|x: Vec<char>| x@) == prefixes_before_dots(s@, j as int),
        decreases s@.len() - j,
    {
        if s[j] == '.' {
            let mut p: Vec<char> = Vec::new();
            let mut k: usize = 0;
            while k < j
                invariant
                    k <= j < s@.len(),
                    p@ == s@.take(k as int),
                decreases j - k,
            {
                p.push(s[k]);
                proof {
                    assert(s@.take(k + 1) =~= s@.take(k as int).push(s@[k as int]));
                }
                k += 1;
            }
            let ghost before = r@;
            r.insert(0, p);
            proof {
                assert(r@.map_values(|x: Vec<char>| x@) =~= seq![s@.take(j as int)]
                    + before.map_values(|x: Vec<char>| x@));
            }
        } else {
        }
        j += 1;
    }
    r
}

/// The scopes in which a relative name used in `scope` is looked up, the innermost first.
pub fn resolve_relative_candidate_parents(scope: &Vec<char>) -> (r: Vec<Vec<char>>)
    ensures
        r@.map_values(|x: Vec<char>| x@) == candidate_parents(scope@),
{
    let inner = prefixes_before_dots_exec(scope);
    let mut r: Vec<Vec<char>> = Vec::new();
    r.push(scope.clone());
    let mut i: usize = 0;
    while i < inner.len()
        invariant
            i <= inner@.len(),
            r@.map_values(|x: Vec<char>| x@) == seq![scope@]
                + inner@.map_values(|x: Vec<char>| x@).take(i as int),
        decreases inner@.len() - i,
    {
        let c = inner[i].clone();
        proof {
            assert(c@ =~= inner@[i as int]@);
        }
        let ghost old_r = r@;
        r.push(c);
        proof {
            assert(r@.map_values(|x: Vec<char>| x@) =~= old_r.map_values(|x: Vec<char>| x@).push(c@));
            assert(inner@.map_values(|x: Vec<char>| x@).take(i + 1) =~= inner@.map_values(
                |x: Vec<char>| x@,
            ).take(i as int).push(inner@[i as int]@));
            assert(r@.map_values(|x: Vec<char>| x@) =~= seq![scope@]
                + inner@.map_values(|x: Vec<char>| x@).take(i + 1));
        }
        i += 1;
    }
    r.push(Vec::new());
    proof {
        assert(inner@.map_values(|x: Vec<char>| x@).take(inner@.len() as int) =~= inner@.map_values(
            |x: Vec<char>| x@,
        ));
        assert(r@.map_values(|x: Vec<char>| x@) =~= candidate_parents(scope@));
    }
    r
}

} // verus!

verus! {

/// The prefixes of `s` before a `.` among its first `n` characters: each is
/// a part of `s` that a `.` follows, each is shorter than the one before, and
/// every part of `s` before a `.` among them is there.
pub proof fn lemma_prefixes_before_dots(s: Seq<char>, n: int)
    requires
        0 <= n <= s.len(),
    ensures
        forall|i: int| 0 <= i < prefixes_before_dots(s, n).len() ==> {
            let c = #[trigger] prefixes_before_dots(s, n)[i];
            c.len() < n && s[c.len() as int] == '.' && s.take(c.len() as int) == c
        },
        forall|i: int, j: int|
            0 <= i < j < prefixes_before_dots(s, n).len() ==> #[trigger] prefixes_before_dots(s, n)[i].len()
                > #[trigger] prefixes_before_dots(s, n)[j].len(),
        forall|k: int| 0 <= k < n && s[k] == '.' ==> exists|i: int|
            0 <= i < prefixes_before_dots(s, n).len() && #[trigger] prefixes_before_dots(s, n)[i] == s.take(k),
    decreases n,
{
    if n > 0 {
        lemma_prefixes_before_dots(s, n - 1);
        let p = prefixes_before_dots(s, n);
        let q = prefixes_before_dots(s, n - 1);
        if s[n - 1] == '.' {
            assert(p == seq![s.take(n - 1)] + q);
            assert forall|i: int| 0 <= i < p.len() implies {
                let c = #[trigger] p[i];
                c.len() < n && s[c.len() as int] == '.' && s.take(c.len() as int) == c
            } by {
                if i > 0 {
                    assert(p[i] == q[i - 1]);
                }
            }
            assert forall|i: int, j: int| 0 <= i < j < p.len() implies #[trigger] p[i].len() > #[trigger] p[j].len() by {
                assert(p[j] == q[j - 1]);
                if i > 0 {
                    assert(p[i] == q[i - 1]);
                }
            }
            assert forall|k: int| 0 <= k < n && s[k] == '.' implies exists|i: int|
                0 <= i < p.len() && #[trigger] p[i] == s.take(k) by {
                if k == n - 1 {
                    assert(p[0] == s.take(k));
                } else {
                    let i = choose|i: int| 0 <= i < q.len() && #[trigger] q[i] == s.take(k);
                    assert(p[i + 1] == q[i]);
                }
            }
        } else {
            assert(p == q);
        }
    }
}

/// The scopes searched for a relative name used in `scope` begin with
/// `scope` itself and end with the root scope; between them come exactly the
/// scopes enclosing `scope` (its parts before a `.`), each shorter than the
/// one before, so that the innermost scope is searched first.
pub proof fn lemma_candidate_parents_innermost_first(scope: Seq<char>)
    ensures
        candidate_parents(scope).len() >= 2,
        candidate_parents(scope)[0] == scope,
        candidate_parents(scope).last() == Seq::<char>::empty(),
        forall|i: int| 0 < i < candidate_parents(scope).len() - 1 ==> {
            let c = #[trigger] candidate_parents(scope)[i];
            c.len() < scope.len() && scope[c.len() as int] == '.' && scope.take(c.len() as int) == c
        },
        forall|i: int, j: int|
            0 <= i < j < candidate_parents(scope).len() - 1 ==> #[trigger] candidate_parents(scope)[i].len()
                > #[trigger] candidate_parents(scope)[j].len(),
        forall|k: int| 0 <= k < scope.len() && scope[k] == '.' ==> exists|i: int|
            0 < i < candidate_parents(scope).len() - 1 && #[trigger] candidate_parents(scope)[i] == scope.take(k),
{
    let n = scope.len() as int;
    lemma_prefixes_before_dots(scope, n);
    let q = prefixes_before_dots(scope, n);
    let c = candidate_parents(scope);
    assert(c.len() == q.len() + 2);
    assert forall|i: int| 0 < i < c.len() - 1 implies c[i] == q[i - 1] by {}
    assert forall|i: int, j: int| 0 <= i < j < c.len() - 1 implies #[trigger] c[i].len() > #[trigger] c[j].len() by {
        assert(c[j] == q[j - 1]);
        if i > 0 {
            assert(c[i] == q[i - 1]);
        }
    }
    assert forall|k: int| 0 <= k < n && scope[k] == '.' implies exists|i: int|
        0 < i < c.len() - 1 && #[trigger] c[i] == scope.take(k) by {
        let i = choose|i: int| 0 <= i < q.len() && #[trigger] q[i] == scope.take(k);
        assert(c[i + 1] == q[i]);
    }
}

/// A name without a `.` is its own first component.
pub proof fn lemma_first_component_whole(s: Seq<char>)
    requires
        forall|i: int| 0 <= i < s.len() ==> s[i] != '.',
    ensures
        first_component(s) == s,
    decreases s.len(),
{
    if s.len() > 0 {
        lemma_first_component_whole(s.drop_first());
        assert(seq![s[0]] + s.drop_first() =~= s);
    }
}

/// A field name without underscores is its own JSON name: every character
/// is kept as it is.
pub proof fn lemma_json_name_without_underscores(s: Seq<char>)
    requires
        forall|i: int| 0 <= i < s.len() ==> s[i] != '_',
    ensures
        json_name_of(s) == s,
    decreases s.len(),
{
    if s.len() > 0 {
        lemma_json_name_without_underscores(s.drop_last());
        assert(s.drop_last().push(s.last()) =~= s);
    }
}

/// The JSON name of a name cut where no underscore meets the cut is the JSON
/// names of its two parts joined: the first character of the second part is
/// kept as it is.
pub proof fn lemma_json_name_concat(s: Seq<char>, t: Seq<char>)
    requires
        s.len() == 0 || s.last() != '_',
        t.len() == 0 || t[0] != '_',
    ensures
        json_name_of(s + t) == json_name_of(s) + json_name_of(t),
    decreases t.len(),
{
    if t.len() == 0 {
        assert(s + t =~= s);
        assert(json_name_of(s) + json_name_of(t) =~= json_name_of(s));
    } else {
        let u = t.drop_last();
        lemma_json_name_concat(s, u);
        assert((s + t).drop_last() =~= s + u);
        assert((s + t).last() == t.last());
        if t.len() >= 2 {
            assert((s + t)[(s + t).len() - 2] == t[t.len() - 2]);
        } else {
            assert(u.len() == 0);
            assert(json_name_of(u) =~= Seq::<char>::empty());
            if s.len() > 0 {
                assert((s + t)[(s + t).len() - 2] == s.last());
            }
        }
        assert((json_name_of(s) + json_name_of(u)).push(t.last()) =~= json_name_of(s) + json_name_of(u).push(t.last()));
        assert((json_name_of(s) + json_name_of(u)).push(crate::text::ascii_upper(t.last())) =~= json_name_of(s)
            + json_name_of(u).push(crate::text::ascii_upper(t.last())));
    }
}

/// A character that follows an underscore is upper-cased, and the
/// underscore dropped.
pub proof fn lemma_json_name_after_underscore(s: Seq<char>, c: char)
    requires
        c != '_',
    ensures
        json_name_of(s.push('_').push(c)) == json_name_of(s).push(ascii_upper(c)),
{
    let t = s.push('_').push(c);
    assert(t.drop_last() =~= s.push('_'));
    assert(t.drop_last().drop_last() =~= s);
    assert(t[t.len() - 2] == '_');
    assert(t.last() == c);
    assert(json_name_of(t) == json_name_of(t.drop_last()).push(ascii_upper(c)));
    let u = s.push('_');
    assert(u.last() == '_');
    assert(u.drop_last() =~= s);
    assert(json_name_of(u) == json_name_of(s));
}

/// A JSON name holds no underscore, and holds one character for each
/// character of the field name that is not an underscore.
pub proof fn lemma_json_name_drops_underscores(s: Seq<char>)
    ensures
        forall|i: int| 0 <= i < json_name_of(s).len() ==> #[trigger] json_name_of(s)[i] != '_',
        json_name_of(s).len() == s.filter(|c: char| c != '_').len(),
    decreases s.len(),
{
    reveal(Seq::filter);
    if s.len() > 0 {
        lemma_json_name_drops_underscores(s.drop_last());
        let c = s.last();
        if c != '_' && 'a' <= c && c <= 'z' {
            assert(ascii_upper(c) != '_');
        }
    }
}

} // verus!

