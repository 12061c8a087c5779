//! The structural extractor: turns one Java source file's text into a raw
//! declaration model (`Class`) using pattern queries over a parse tree.

use vstd::prelude::*;
use crate::parsetree::{RawCapture, RawMatch, spec_cap_at, cap_at, parse_source, run_query,
    query_hits};
use crate::strutil::{is_lower_char, str_eq, starts_with_str, ends_with_str, last_index_of,
    first_index_from, remove_char, last_ix, first_ix, without_char, first_char_is_lower};

verus! {

/// A reference to a type: the owning package (absent for builtins and
/// primitives), the class name, and whether the package is a platform one.
#[derive(Clone, Debug, PartialEq, Default)]
pub struct Type {
    pub package: Option<String>,
    pub class: String,
    pub stdlib: bool,
}

/// One field of a parsed class.
#[derive(Clone, Debug, PartialEq, Default)]
pub struct Field {
    pub name: String,
    pub xml_name: Option<String>,
    pub package: String,
    pub type_ref: Type,
    pub generic_type: Option<String>,
    pub builtin: bool,
    pub nullable: bool,
}

/// One import declaration, split at the last dot.
#[derive(Clone, Debug, PartialEq)]
pub struct Import {
    pub package: String,
    pub class: String,
}

/// One method of a parsed interface.
#[derive(Clone, Debug, PartialEq, Default)]
pub struct Function {
    pub name: String,
    pub arguments: Vec<Argument>,
    pub return_type: String,
}

/// One parameter of an interface method.
#[derive(Clone, Debug, PartialEq, Default)]
pub struct Argument {
    pub name: String,
    pub arg_type: String,
    pub nullable: bool,
}

/// A class named by the known-subclasses marker annotation.
#[derive(Clone, Debug, PartialEq, Default)]
pub struct Subclass {
    pub name: String,
    pub package: Option<String>,
}

/// A resolved superclass: the merged, oldest-ancestor-first view of the
/// whole chain above one class.
#[derive(Clone, Debug, PartialEq, Default)]
pub struct Superclass {
    pub name: String,
    pub package: String,
    pub imports: Vec<Import>,
    pub fields: Vec<Field>,
    pub is_abstract: bool,
}

/// A nested class, one level deep.
#[derive(Clone, Debug, PartialEq, Default)]
pub struct InnerClass {
    pub name: String,
    pub fields: Vec<Field>,
}

/// One parsed top-level declaration: class, enum or interface.
#[derive(Clone, Debug, PartialEq, Default)]
pub struct Class {
    pub package: String,
    pub imports: Vec<Import>,
    pub name: String,
    pub fields: Vec<Field>,
    pub is_abstract: bool,
    pub superclass: Option<Superclass>,
    pub subclasses: Vec<Subclass>,
    pub enum_constants: Vec<String>,
    pub functions: Vec<Function>,
    pub inner_classes: Vec<InnerClass>,
    pub skip: bool,
}

/// Exactly one payload may be populated: fields, enum constants or
/// functions (a class with no fields counts as the fields payload).
pub open spec fn payload_exclusive(c: Class) -> bool {
    &&& (c.fields@.len() > 0 ==> c.enum_constants@.len() == 0 && c.functions@.len() == 0)
    &&& (c.enum_constants@.len() > 0 ==> c.fields@.len() == 0 && c.functions@.len() == 0)
    &&& (c.functions@.len() > 0 ==> c.fields@.len() == 0 && c.enum_constants@.len() == 0)
}

/// The closed set of builtin type names: the language's primitive-adjacent
/// wrapper types, never package-resolved.
pub open spec fn is_builtin_name(s: Seq<char>) -> bool {
    ||| s == "Long"@
    ||| s == "long"@
    ||| s == "Double"@
    ||| s == "double"@
    ||| s == "Float"@
    ||| s == "float"@
    ||| s == "String"@
    ||| s == "Integer"@
    ||| s == "int"@
    ||| s == "Short"@
    ||| s == "short"@
    ||| s == "Boolean"@
    ||| s == "boolean"@
    ||| s == "byte[]"@
    ||| s == "Object"@
}

/// A type name is a true language primitive iff its first character is
/// lowercase.
pub open spec fn is_primitive_name(s: Seq<char>) -> bool {
    s.len() > 0 && is_lower_char(s[0])
}

/// Decides membership in the fixed builtin-type set.
pub fn builtin_name(s: &str) -> (r: bool)
    ensures
        r == is_builtin_name(s@),
{
    str_eq(s, "Long") || str_eq(s, "long") || str_eq(s, "Double") || str_eq(s, "double")
        || str_eq(s, "Float") || str_eq(s, "float") || str_eq(s, "String")
        || str_eq(s, "Integer") || str_eq(s, "int") || str_eq(s, "Short") || str_eq(s, "short")
        || str_eq(s, "Boolean") || str_eq(s, "boolean") || str_eq(s, "byte[]")
        || str_eq(s, "Object")
}

/// The package of the first import whose class name is `name`, if any.
pub open spec fn spec_package_import(name: Seq<char>, imports: Seq<Import>) -> Option<Seq<char>>
    decreases imports.len(),
{
    if imports.len() == 0 {
        None
    } else if imports[0].class@ == name {
        Some(imports[0].package@)
    } else {
        spec_package_import(name, imports.skip(1))
    }
}

/// Resolves a bare class name against an import list.
pub fn package_import(class_name: &str, imports: &Vec<Import>) -> (r: Option<String>)
    ensures
        match r {
            Some(p) => spec_package_import(class_name@, imports@) == Some(p@),
            None => spec_package_import(class_name@, imports@) is None,
        },
{
    let n = imports.len();
    proof {
        assert(imports@.skip(0) =~= imports@);
    }
    let mut i: usize = 0;
    while i < n
        invariant
            i <= n,
            n == imports@.len(),
            spec_package_import(class_name@, imports@) == spec_package_import(
                class_name@,
                imports@.skip(i as int),
            ),
        decreases n - i,
    {
        proof {
            assert(imports@.skip(i as int)[0] == imports@[i as int]);
            assert(imports@.skip(i as int).skip(1) =~= imports@.skip(i as int + 1));
        }
        if str_eq(imports[i].class.as_str(), class_name) {
            return Some(imports[i].package.clone());
        }
        i = i + 1;
    }
    proof {
        assert(imports@.skip(n as int) =~= Seq::<Import>::empty());
    }
    None
}

/// Import declarations under these standard-library package prefixes carry
/// no information for the target model and are dropped.
pub open spec fn import_kept(s: Seq<char>) -> bool {
    &&& !"import javax.xml.ws"@.is_prefix_of(s)
    &&& !"import java.util"@.is_prefix_of(s)
    &&& !"import javax.xml.bind"@.is_prefix_of(s)
    &&& !"import javax.jws"@.is_prefix_of(s)
}

/// `s` with every trailing occurrence of `c` removed.
pub open spec fn strip_trailing_chars(s: Seq<char>, c: char) -> Seq<char>
    decreases s.len(),
{
    if s.len() > 0 && s.last() == c {
        strip_trailing_chars(s.drop_last(), c)
    } else {
        s
    }
}

/// `s` with every leading occurrence of the `import ` keyword removed.
pub open spec fn strip_import_kw(s: Seq<char>) -> Seq<char>
    decreases s.len(),
{
    if "import "@.len() > 0 && "import "@.is_prefix_of(s) {
        strip_import_kw(s.skip("import "@.len() as int))
    } else {
        s
    }
}

/// An import declaration's text reduced to the dotted name it imports.
pub open spec fn clean_import(s: Seq<char>) -> Seq<char> {
    strip_import_kw(strip_trailing_chars(s, ';'))
}

/// What one import declaration contributes: `None` for block-listed or
/// dotless entries, otherwise the (package, class) pair split at the last
/// dot of the cleaned name.
pub open spec fn import_entry(s: Seq<char>) -> Option<(Seq<char>, Seq<char>)> {
    if !import_kept(s) {
        None
    } else {
        let t = clean_import(s);
        let d = last_ix(t, '.');
        if d < 0 {
            None
        } else {
            Some((t.take(d), t.skip(d + 1)))
        }
    }
}

/// What one query match contributes to the import list.
pub open spec fn match_import(m: RawMatch) -> Option<(Seq<char>, Seq<char>)> {
    match spec_cap_at(m.caps@, 0) {
        None => None,
        Some(c) => import_entry(c.text@),
    }
}

/// The (package, class) pairs of all import declarations, in match order.
pub open spec fn imports_of(hits: Seq<RawMatch>) -> Seq<(Seq<char>, Seq<char>)>
    decreases hits.len(),
{
    if hits.len() == 0 {
        Seq::empty()
    } else {
        imports_of(hits.drop_last()) + match match_import(hits.last()) {
            Some(pc) => seq![pc],
            None => Seq::empty(),
        }
    }
}

/// The (package, class) views of an import list.
pub open spec fn import_views(r: Seq<Import>) -> Seq<(Seq<char>, Seq<char>)> {
    r.map_values(|i: Import| (i.package@, i.class@))
}

/// Removes every trailing occurrence of `c`.
pub fn strip_trailing(s: &str, c: char) -> (r: &str)
    ensures
        r@ == strip_trailing_chars(s@, c),
{
    let len = s.unicode_len();
    proof {
        assert(s@.take(len as int) =~= s@);
    }
    let mut end: usize = len;
    while end > 0 && s.get_char(end - 1) == c
        invariant
            end <= len,
            len == s@.len(),
            strip_trailing_chars(s@, c) == strip_trailing_chars(s@.take(end as int), c),
        decreases end,
    {
        proof {
            assert(s@.take(end as int).last() == s@[end - 1]);
            assert(s@.take(end as int).drop_last() =~= s@.take(end as int - 1));
        }
        end = end - 1;
    }
    s.substring_char(0, end)
}

/// Removes every leading occurrence of the `import ` keyword.
pub fn strip_import_prefix(s: &str) -> (r: String)
    ensures
        r@ == strip_import_kw(s@),
    decreases s@.len(),
{
    proof {
        reveal_strlit("import ");
    }
    if starts_with_str(s, "import ") {
        let len = s.unicode_len();
        let rest = s.substring_char(7, len);
        proof {
            assert(rest@ =~= s@.skip(7));
        }
        strip_import_prefix(rest)
    } else {
        s.to_owned()
    }
}

/// Parses one import declaration's text, or rejects it.
pub fn import_of_text(s: &str) -> (r: Option<Import>)
    ensures
        match r {
            Some(imp) => import_entry(s@) == Some((imp.package@, imp.class@)),
            None => import_entry(s@) is None,
        },
{
    if starts_with_str(s, "import javax.xml.ws") || starts_with_str(s, "import java.util")
        || starts_with_str(s, "import javax.xml.bind") || starts_with_str(s, "import javax.jws") {
        return None;
    }
    let t0 = strip_trailing(s, ';');
    let t = strip_import_prefix(t0);
    match last_index_of(t.as_str(), '.') {
        None => None,
        Some(d) => {
            let len = t.as_str().unicode_len();
            let pkg = t.as_str().substring_char(0, d).to_owned();
            let cls = t.as_str().substring_char(d + 1, len).to_owned();
            proof {
                assert(pkg@ =~= clean_import(s@).take(d as int));
                assert(cls@ =~= clean_import(s@).skip(d as int + 1));
            }
            Some(Import { package: pkg, class: cls })
        },
    }
}

/// Collects the import list from the import-declaration query's matches.
pub fn get_imports(hits: &Vec<RawMatch>) -> (r: Vec<Import>)
    ensures
        import_views(r@) == imports_of(hits@),
{
    let n = hits.len();
    let mut r: Vec<Import> = Vec::new();
    proof {
        assert(import_views(r@) =~= imports_of(hits@.take(0)));
    }
    let mut i: usize = 0;
    while i < n
        invariant
            i <= n,
            n == hits@.len(),
            import_views(r@) == imports_of(hits@.take(i as int)),
        decreases n - i,
    {
        proof {
            assert(hits@.take(i as int + 1).drop_last() =~= hits@.take(i as int));
            assert(hits@.take(i as int + 1).last() == hits@[i as int]);
        }
        let ghost prev = r@;
        match cap_at(&hits[i], 0) {
            Some(c) => {
                match import_of_text(c.text.as_str()) {
                    Some(imp) => {
                        r.push(imp);
                        proof {
                            assert(import_views(r@) =~= imports_of(hits@.take(i as int + 1)));
                        }
                    },
                    None => {
                        proof {
                            assert(import_views(r@) =~= imports_of(hits@.take(i as int + 1)));
                        }
                    },
                }
            },
            None => {
                proof {
                    assert(import_views(r@) =~= imports_of(hits@.take(i as int + 1)));
                }
            },
        }
        i = i + 1;
    }
    proof {
        assert(hits@.take(n as int) =~= hits@);
    }
    r
}

/// The package a field's type resolves to: builtins have none; other types
/// resolve through the imports, falling back to the declaring class's own
/// package.
pub open spec fn spec_type_package(
    builtin: bool,
    class_package: Seq<char>,
    inner_type: Seq<char>,
    imports: Seq<Import>,
) -> Option<Seq<char>> {
    if builtin {
        None
    } else {
        match spec_package_import(inner_type, imports) {
            Some(p) => Some(p),
            None => Some(class_package),
        }
    }
}

/// Resolves the owning package of a field type.
pub fn type_package(
    builtin: bool,
    class_package: &str,
    inner_type: &str,
    imports: &Vec<Import>,
) -> (r: Option<String>)
    ensures
        match r {
            Some(p) => spec_type_package(builtin, class_package@, inner_type@, imports@) == Some(
                p@,
            ),
            None => spec_type_package(builtin, class_package@, inner_type@, imports@) is None,
        },
{
    if builtin {
        None
    } else {
        match package_import(inner_type, imports) {
            Some(p) => Some(p),
            None => Some(class_package.to_owned()),
        }
    }
}

/// The view of an optional string.
pub open spec fn opt_str_view(o: Option<String>) -> Option<Seq<char>> {
    match o {
        Some(s) => Some(s@),
        None => None,
    }
}

/// Whether a match of the field-annotation query is an annotation of the
/// field spanning bytes `lo..hi`, named `XmlElement` (or, when `allow_ref`
/// holds, `XmlElementRef`). Both captures must be present: the name at
/// pattern position 0, the argument list at position 1.
pub open spec fn binding_anno_in(m: RawMatch, lo: int, hi: int, allow_ref: bool) -> bool {
    &&& spec_cap_at(m.caps@, 0) matches Some(c0) && lo <= c0.start && (c0.text@ == "XmlElement"@
        || (allow_ref && c0.text@ == "XmlElementRef"@))
    &&& spec_cap_at(m.caps@, 1) matches Some(c1) && c1.end <= hi
}

/// The argument-list byte range of the first binding annotation of the
/// field spanning `lo..hi`, if one is present.
pub open spec fn spec_binding_args(ms: Seq<RawMatch>, lo: int, hi: int, allow_ref: bool) -> Option<
    (int, int),
>
    decreases ms.len(),
{
    if ms.len() == 0 {
        None
    } else if binding_anno_in(ms[0], lo, hi, allow_ref) {
        let c1 = spec_cap_at(ms[0].caps@, 1)->Some_0;
        Some((c1.start as int, c1.end as int))
    } else {
        spec_binding_args(ms.skip(1), lo, hi, allow_ref)
    }
}

/// Whether a match of the key-value-pair query lies in bytes `lo..hi` and
/// binds `key` to `value` literally.
pub open spec fn pair_is(m: RawMatch, lo: int, hi: int, key: Seq<char>, value: Seq<char>) -> bool {
    &&& spec_cap_at(m.caps@, 0) matches Some(c0) && lo <= c0.start && c0.text@ == key
    &&& spec_cap_at(m.caps@, 1) matches Some(c1) && c1.end <= hi && c1.text@ == value
}

/// Whether some key-value pair in bytes `lo..hi` binds `key` to `value`.
pub open spec fn spec_pair_present(
    ms: Seq<RawMatch>,
    lo: int,
    hi: int,
    key: Seq<char>,
    value: Seq<char>,
) -> bool
    decreases ms.len(),
{
    if ms.len() == 0 {
        false
    } else {
        pair_is(ms[0], lo, hi, key, value) || spec_pair_present(ms.skip(1), lo, hi, key, value)
    }
}

/// The raw value text of the first key-value pair in bytes `lo..hi` whose
/// key is `key`, if any.
pub open spec fn spec_pair_value(ms: Seq<RawMatch>, lo: int, hi: int, key: Seq<char>) -> Option<
    Seq<char>,
>
    decreases ms.len(),
{
    if ms.len() == 0 {
        None
    } else if pair_key_in(ms[0], lo, hi, key) {
        Some(spec_cap_at(ms[0].caps@, 1)->Some_0.text@)
    } else {
        spec_pair_value(ms.skip(1), lo, hi, key)
    }
}

/// Whether a match of the key-value-pair query lies in bytes `lo..hi` and
/// has `key` as its key.
pub open spec fn pair_key_in(m: RawMatch, lo: int, hi: int, key: Seq<char>) -> bool {
    &&& spec_cap_at(m.caps@, 0) matches Some(c0) && lo <= c0.start && c0.text@ == key
    &&& spec_cap_at(m.caps@, 1) matches Some(c1) && c1.end <= hi
}

/// The default-optional rule: a field is nullable unless its binding
/// annotation is present and carries `required` bound to literal `true`.
pub open spec fn spec_field_nullable(
    annos: Seq<RawMatch>,
    pairs: Seq<RawMatch>,
    lo: int,
    hi: int,
) -> bool {
    match spec_binding_args(annos, lo, hi, false) {
        None => true,
        Some((alo, ahi)) => !spec_pair_present(pairs, alo, ahi, "required"@, "true"@),
    }
}

/// The binding-name override: the quote-stripped `name` argument of the
/// first binding annotation (either accepted name), if both are present.
pub open spec fn spec_xml_name(
    annos: Seq<RawMatch>,
    pairs: Seq<RawMatch>,
    lo: int,
    hi: int,
) -> Option<Seq<char>> {
    match spec_binding_args(annos, lo, hi, true) {
        None => None,
        Some((alo, ahi)) => match spec_pair_value(pairs, alo, ahi, "name"@) {
            None => None,
            Some(v) => Some(without_char(v, '"')),
        },
    }
}

/// Finds the argument-list range of a field's first binding annotation.
pub fn binding_args(annos: &Vec<RawMatch>, lo: usize, hi: usize, allow_ref: bool) -> (r: Option<
    (usize, usize),
>)
    ensures
        match r {
            Some(p) => spec_binding_args(annos@, lo as int, hi as int, allow_ref) == Some(
                (p.0 as int, p.1 as int),
            ),
            None => spec_binding_args(annos@, lo as int, hi as int, allow_ref) is None,
        },
{
    let n = annos.len();
    proof {
        assert(annos@.skip(0) =~= annos@);
    }
    let mut i: usize = 0;
    while i < n
        invariant
            i <= n,
            n == annos@.len(),
            spec_binding_args(annos@, lo as int, hi as int, allow_ref) == spec_binding_args(
                annos@.skip(i as int),
                lo as int,
                hi as int,
                allow_ref,
            ),
        decreases n - i,
    {
        proof {
            assert(annos@.skip(i as int)[0] == annos@[i as int]);
            assert(annos@.skip(i as int).skip(1) =~= annos@.skip(i as int + 1));
        }
        let m = &annos[i];
        let name_ok = match cap_at(m, 0) {
            Some(c0) => lo <= c0.start && (str_eq(c0.text.as_str(), "XmlElement") || (allow_ref
                && str_eq(c0.text.as_str(), "XmlElementRef"))),
            None => false,
        };
        if name_ok {
            match cap_at(m, 1) {
                Some(c1) => {
                    if c1.end <= hi {
                        return Some((c1.start, c1.end));
                    }
                },
                None => {},
            }
        }
        i = i + 1;
    }
    proof {
        assert(annos@.skip(n as int) =~= Seq::<RawMatch>::empty());
    }
    None
}

/// Decides whether some pair in `lo..hi` binds `key` to `value`.
pub fn pair_present(ms: &Vec<RawMatch>, lo: usize, hi: usize, key: &str, value: &str) -> (r: bool)
    ensures
        r == spec_pair_present(ms@, lo as int, hi as int, key@, value@),
{
    let n = ms.len();
    proof {
        assert(ms@.skip(0) =~= ms@);
    }
    let mut i: usize = 0;
    while i < n
        invariant
            i <= n,
            n == ms@.len(),
            spec_pair_present(ms@, lo as int, hi as int, key@, value@) == spec_pair_present(
                ms@.skip(i as int),
                lo as int,
                hi as int,
                key@,
                value@,
            ),
        decreases n - i,
    {
        proof {
            assert(ms@.skip(i as int)[0] == ms@[i as int]);
            assert(ms@.skip(i as int).skip(1) =~= ms@.skip(i as int + 1));
        }
        let m = &ms[i];
        let key_ok = match cap_at(m, 0) {
            Some(c0) => lo <= c0.start && str_eq(c0.text.as_str(), key),
            None => false,
        };
        if key_ok {
            match cap_at(m, 1) {
                Some(c1) => {
                    if c1.end <= hi && str_eq(c1.text.as_str(), value) {
                        return true;
                    }
                },
                None => {},
            }
        }
        i = i + 1;
    }
    proof {
        assert(ms@.skip(n as int) =~= Seq::<RawMatch>::empty());
    }
    false
}

/// The raw value of the first pair in `lo..hi` whose key is `key`.
pub fn pair_value(ms: &Vec<RawMatch>, lo: usize, hi: usize, key: &str) -> (r: Option<String>)
    ensures
        match r {
            Some(v) => spec_pair_value(ms@, lo as int, hi as int, key@) == Some(v@),
            None => spec_pair_value(ms@, lo as int, hi as int, key@) is None,
        },
{
    let n = ms.len();
    proof {
        assert(ms@.skip(0) =~= ms@);
    }
    let mut i: usize = 0;
    while i < n
        invariant
            i <= n,
            n == ms@.len(),
            spec_pair_value(ms@, lo as int, hi as int, key@) == spec_pair_value(
                ms@.skip(i as int),
                lo as int,
                hi as int,
                key@,
            ),
        decreases n - i,
    {
        proof {
            assert(ms@.skip(i as int)[0] == ms@[i as int]);
            assert(ms@.skip(i as int).skip(1) =~= ms@.skip(i as int + 1));
        }
        let m = &ms[i];
        let key_ok = match cap_at(m, 0) {
            Some(c0) => lo <= c0.start && str_eq(c0.text.as_str(), key),
            None => false,
        };
        if key_ok {
            match cap_at(m, 1) {
                Some(c1) => {
                    if c1.end <= hi {
                        return Some(c1.text.clone());
                    }
                },
                None => {},
            }
        }
        i = i + 1;
    }
    proof {
        assert(ms@.skip(n as int) =~= Seq::<RawMatch>::empty());
    }
    None
}

/// Computes a field's nullability from its annotations: absent binding
/// annotation means default-optional; a present one makes the field
/// non-nullable exactly when it carries `required=true`.
pub fn field_nullable(annos: &Vec<RawMatch>, pairs: &Vec<RawMatch>, lo: usize, hi: usize) -> (r:
    bool)
    ensures
        r == spec_field_nullable(annos@, pairs@, lo as int, hi as int),
{
    match binding_args(annos, lo, hi, false) {
        None => true,
        Some((alo, ahi)) => !pair_present(pairs, alo, ahi, "required", "true"),
    }
}

/// Computes a field's binding-name override from its annotations.
pub fn xml_name(annos: &Vec<RawMatch>, pairs: &Vec<RawMatch>, lo: usize, hi: usize) -> (r: Option<
    String,
>)
    ensures
        match r {
            Some(x) => spec_xml_name(annos@, pairs@, lo as int, hi as int) == Some(x@),
            None => spec_xml_name(annos@, pairs@, lo as int, hi as int) is None,
        },
{
    match binding_args(annos, lo, hi, true) {
        None => None,
        Some((alo, ahi)) => match pair_value(pairs, alo, ahi, "name") {
            None => None,
            Some(v) => Some(remove_char(v.as_str(), '"')),
        },
    }
}

/// Splits a captured type node into (generic wrapper, inner type). A
/// `generic_type` node `Wrapper<Inner>` is split at its angle brackets;
/// every other node's whole text is the inner type.
pub open spec fn spec_split_type(text: Seq<char>, kind: Seq<char>) -> (Option<Seq<char>>, Seq<
    char,
>) {
    if kind == "generic_type"@ {
        let j = first_ix(text, '<');
        if j < text.len() {
            if text.len() > 0 && text.last() == '>' {
                (Some(text.take(j)), text.subrange(j + 1, text.len() - 1))
            } else {
                (Some(text.take(j)), text.subrange(j + 1, text.len() as int))
            }
        } else {
            (None, text)
        }
    } else {
        (None, text)
    }
}

/// Whether a match of the type/declarator query belongs to the field
/// spanning bytes `lo..hi`: the type capture at position 0 and the name
/// capture at position 1, both inside the range.
pub open spec fn tdec_in(m: RawMatch, lo: int, hi: int) -> bool {
    &&& spec_cap_at(m.caps@, 0) matches Some(c0) && lo <= c0.start
    &&& spec_cap_at(m.caps@, 1) matches Some(c1) && c1.end <= hi
}

/// The type and name captures of the first type/declarator match inside
/// bytes `lo..hi`, if any.
pub open spec fn spec_field_tdec(ms: Seq<RawMatch>, lo: int, hi: int) -> Option<(
    RawCapture,
    RawCapture,
)>
    decreases ms.len(),
{
    if ms.len() == 0 {
        None
    } else if tdec_in(ms[0], lo, hi) {
        Some((spec_cap_at(ms[0].caps@, 0)->Some_0, spec_cap_at(ms[0].caps@, 1)->Some_0))
    } else {
        spec_field_tdec(ms.skip(1), lo, hi)
    }
}

/// A type with no package is builtin or primitive and counts as standard;
/// otherwise the package decides by its `java` prefix.
pub open spec fn spec_stdlib_flag(p: Option<Seq<char>>) -> bool {
    match p {
        None => true,
        Some(pk) => "java"@.is_prefix_of(pk),
    }
}

/// How one parsed field relates to its captures: the name is the
/// declarator's text; the type splits into wrapper and inner name; the
/// builtin flag is the fixed set; the package resolves through the imports;
/// a primitive inner type forces `nullable = false`, every other type takes
/// the annotation rule; the binding name comes from the annotation block.
pub open spec fn field_from_parts(
    f: Field,
    ttext: Seq<char>,
    tkind: Seq<char>,
    fname: Seq<char>,
    lo: int,
    hi: int,
    pkg: Seq<char>,
    imports: Seq<Import>,
    annos: Seq<RawMatch>,
    pairs: Seq<RawMatch>,
) -> bool {
    let gi = spec_split_type(ttext, tkind);
    let inner = gi.1;
    &&& f.name@ == fname
    &&& opt_str_view(f.generic_type) == gi.0
    &&& f.type_ref.class@ == inner
    &&& f.builtin == is_builtin_name(inner)
    &&& opt_str_view(f.type_ref.package) == spec_type_package(
        is_builtin_name(inner),
        pkg,
        inner,
        imports,
    )
    &&& f.type_ref.stdlib == spec_stdlib_flag(
        spec_type_package(is_builtin_name(inner), pkg, inner, imports),
    )
    &&& f.package@ == pkg
    &&& f.nullable == (!is_primitive_name(inner) && spec_field_nullable(annos, pairs, lo, hi))
    &&& opt_str_view(f.xml_name) == spec_xml_name(annos, pairs, lo, hi)
}

/// Whether a match of the field-declaration query is kept: its field node
/// captured, inside the scope, with a type/declarator match of its own.
pub open spec fn field_hit_kept(m: RawMatch, lo: int, hi: int, tds: Seq<RawMatch>) -> bool {
    &&& spec_cap_at(m.caps@, 0) matches Some(c) && lo <= c.start && c.end <= hi
        && spec_field_tdec(tds, c.start as int, c.end as int) is Some
}

/// The byte ranges of the kept field declarations, in match order.
pub open spec fn kept_field_ranges(
    fh: Seq<RawMatch>,
    lo: int,
    hi: int,
    tds: Seq<RawMatch>,
) -> Seq<(int, int)>
    decreases fh.len(),
{
    if fh.len() == 0 {
        Seq::empty()
    } else {
        kept_field_ranges(fh.drop_last(), lo, hi, tds) + if field_hit_kept(fh.last(), lo, hi, tds) {
            let c = spec_cap_at(fh.last().caps@, 0)->Some_0;
            seq![(c.start as int, c.end as int)]
        } else {
            Seq::empty()
        }
    }
}

/// How the field at one kept range relates to the query data.
pub open spec fn field_at_ok(
    f: Field,
    range: (int, int),
    tds: Seq<RawMatch>,
    annos: Seq<RawMatch>,
    pairs: Seq<RawMatch>,
    pkg: Seq<char>,
    imports: Seq<Import>,
) -> bool {
    &&& spec_field_tdec(tds, range.0, range.1) matches Some(cc) && field_from_parts(
        f,
        cc.0.text@,
        cc.0.kind@,
        cc.1.text@,
        range.0,
        range.1,
        pkg,
        imports,
        annos,
        pairs,
    )
}

/// How a whole field list relates to the query data for the class body
/// spanning bytes `lo..hi`: one field per kept match, each built as
/// `field_from_parts` says.
pub open spec fn fields_ok(
    fs: Seq<Field>,
    fh: Seq<RawMatch>,
    lo: int,
    hi: int,
    tds: Seq<RawMatch>,
    annos: Seq<RawMatch>,
    pairs: Seq<RawMatch>,
    pkg: Seq<char>,
    imports: Seq<Import>,
) -> bool {
    &&& fs.len() == kept_field_ranges(fh, lo, hi, tds).len()
    &&& forall|k: int|
        0 <= k < fs.len() ==> field_at_ok(
            fs[k],
            kept_field_ranges(fh, lo, hi, tds)[k],
            tds,
            annos,
            pairs,
            pkg,
            imports,
        )
}

/// Finds the type and declarator captures of the field spanning `lo..hi`.
pub fn find_tdec<'a>(tds: &'a Vec<RawMatch>, lo: usize, hi: usize) -> (r: Option<(
    &'a RawCapture,
    &'a RawCapture,
)>)
    ensures
        match r {
            Some(p) => spec_field_tdec(tds@, lo as int, hi as int) == Some((*p.0, *p.1)),
            None => spec_field_tdec(tds@, lo as int, hi as int) is None,
        },
{
    let n = tds.len();
    proof {
        assert(tds@.skip(0) =~= tds@);
    }
    let mut i: usize = 0;
    while i < n
        invariant
            i <= n,
            n == tds@.len(),
            spec_field_tdec(tds@, lo as int, hi as int) == spec_field_tdec(
                tds@.skip(i as int),
                lo as int,
                hi as int,
            ),
        decreases n - i,
    {
        proof {
            assert(tds@.skip(i as int)[0] == tds@[i as int]);
            assert(tds@.skip(i as int).skip(1) =~= tds@.skip(i as int + 1));
        }
        let m = &tds[i];
        match cap_at(m, 0) {
            Some(c0) => {
                if lo <= c0.start {
                    match cap_at(m, 1) {
                        Some(c1) => {
                            if c1.end <= hi {
                                return Some((c0, c1));
                            }
                        },
                        None => {},
                    }
                }
            },
            None => {},
        }
        i = i + 1;
    }
    proof {
        assert(tds@.skip(n as int) =~= Seq::<RawMatch>::empty());
    }
    None
}

/// Splits a captured type node into its generic wrapper and inner type.
pub fn split_type(text: &str, kind: &str) -> (r: (Option<String>, String))
    ensures
        (opt_str_view(r.0), r.1@) == spec_split_type(text@, kind@),
{
    let len = text.unicode_len();
    if str_eq(kind, "generic_type") {
        proof {
            assert(text@.skip(0) =~= text@);
        }
        let j = first_index_from(text, 0, '<');
        if j < len {
            proof {
                crate::strutil::lemma_first_ix(text@, '<');
            }
            let g = text.substring_char(0, j).to_owned();
            let last_gt = text.get_char(len - 1) == '>';
            let inner = if last_gt {
                text.substring_char(j + 1, len - 1).to_owned()
            } else {
                text.substring_char(j + 1, len).to_owned()
            };
            (Some(g), inner)
        } else {
            (None, text.to_owned())
        }
    } else {
        (None, text.to_owned())
    }
}

/// Builds one field of the declaration model from its captures, resolving
/// its type through the imports and its nullability and binding name
/// through the annotation matches. A field of a language-primitive type is
/// never nullable, whatever its annotations say; for every other type the
/// annotation rule alone decides: non-nullable exactly when the binding
/// annotation is present with `required` bound to literal `true`.
pub fn build_field(
    ttext: &str,
    tkind: &str,
    fname: &str,
    lo: usize,
    hi: usize,
    class_package: &str,
    imports: &Vec<Import>,
    annos: &Vec<RawMatch>,
    pairs: &Vec<RawMatch>,
) -> (r: Field)
    ensures
        field_from_parts(
            r,
            ttext@,
            tkind@,
            fname@,
            lo as int,
            hi as int,
            class_package@,
            imports@,
            annos@,
            pairs@,
        ),
        is_primitive_name(spec_split_type(ttext@, tkind@).1) ==> r.nullable == false,
        !is_primitive_name(spec_split_type(ttext@, tkind@).1) ==> r.nullable == spec_field_nullable(
            annos@,
            pairs@,
            lo as int,
            hi as int,
        ),
{
    let (generic_type, inner) = split_type(ttext, tkind);
    let builtin = builtin_name(inner.as_str());
    let primitive = inner.as_str().unicode_len() > 0 && first_char_is_lower(inner.as_str());
    let package = type_package(builtin, class_package, inner.as_str(), imports);
    let stdlib = match &package {
        None => true,
        Some(p) => starts_with_str(p.as_str(), "java"),
    };
    let nullable = !primitive && field_nullable(annos, pairs, lo, hi);
    let xml = xml_name(annos, pairs, lo, hi);
    Field {
        name: fname.to_owned(),
        xml_name: xml,
        package: class_package.to_owned(),
        type_ref: Type { package, class: inner, stdlib },
        generic_type,
        builtin,
        nullable,
    }
}

/// Collects the fields declared directly inside the class body spanning
/// bytes `lo..hi`, one per kept field-declaration match, in match order.
pub fn get_fields(
    fh: &Vec<RawMatch>,
    lo: usize,
    hi: usize,
    tds: &Vec<RawMatch>,
    annos: &Vec<RawMatch>,
    pairs: &Vec<RawMatch>,
    class_package: &str,
    imports: &Vec<Import>,
) -> (r: Vec<Field>)
    ensures
        fields_ok(
            r@,
            fh@,
            lo as int,
            hi as int,
            tds@,
            annos@,
            pairs@,
            class_package@,
            imports@,
        ),
{
    let n = fh.len();
    let mut r: Vec<Field> = Vec::new();
    proof {
        assert(fh@.take(0) =~= Seq::<RawMatch>::empty());
    }
    let mut i: usize = 0;
    while i < n
        invariant
            i <= n,
            n == fh@.len(),
            r@.len() == kept_field_ranges(fh@.take(i as int), lo as int, hi as int, tds@).len(),
            forall|k: int|
                0 <= k < r@.len() ==> field_at_ok(
                    r@[k],
                    kept_field_ranges(fh@.take(i as int), lo as int, hi as int, tds@)[k],
                    tds@,
                    annos@,
                    pairs@,
                    class_package@,
                    imports@,
                ),
        decreases n - i,
    {
        proof {
            assert(fh@.take(i as int + 1).drop_last() =~= fh@.take(i as int));
            assert(fh@.take(i as int + 1).last() == fh@[i as int]);
        }
        let m = &fh[i];
        match cap_at(m, 0) {
            Some(c) => {
                if lo <= c.start && c.end <= hi {
                    let fs = c.start;
                    let fe = c.end;
                    match find_tdec(tds, fs, fe) {
                        Some((c0, c1)) => {
                            let f = build_field(
                                c0.text.as_str(),
                                c0.kind.as_str(),
                                c1.text.as_str(),
                                fs,
                                fe,
                                class_package,
                                imports,
                                annos,
                                pairs,
                            );
                            r.push(f);
                        },
                        None => {},
                    }
                }
            },
            None => {},
        }
        i = i + 1;
    }
    proof {
        assert(fh@.take(n as int) =~= fh@);
    }
    r
}

/// The text of the first capture at pattern position 0, over all matches
/// that have one.
pub open spec fn spec_first_cap_text(hits: Seq<RawMatch>) -> Option<Seq<char>>
    decreases hits.len(),
{
    if hits.len() == 0 {
        None
    } else {
        match spec_cap_at(hits[0].caps@, 0) {
            Some(c) => Some(c.text@),
            None => spec_first_cap_text(hits.skip(1)),
        }
    }
}

/// Like `spec_first_cap_text`, restricted to captures inside bytes `lo..hi`.
pub open spec fn spec_first_cap_text_in(hits: Seq<RawMatch>, lo: int, hi: int) -> Option<Seq<char>>
    decreases hits.len(),
{
    if hits.len() == 0 {
        None
    } else if spec_cap_at(hits[0].caps@, 0) matches Some(c) && lo <= c.start && c.end <= hi {
        Some(spec_cap_at(hits[0].caps@, 0)->Some_0.text@)
    } else {
        spec_first_cap_text_in(hits.skip(1), lo, hi)
    }
}

/// Takes the first captured text of a query's matches.
pub fn first_cap_text(hits: &Vec<RawMatch>) -> (r: Option<String>)
    ensures
        match r {
            Some(t) => spec_first_cap_text(hits@) == Some(t@),
            None => spec_first_cap_text(hits@) is None,
        },
{
    let n = hits.len();
    proof {
        assert(hits@.skip(0) =~= hits@);
    }
    let mut i: usize = 0;
    while i < n
        invariant
            i <= n,
            n == hits@.len(),
            spec_first_cap_text(hits@) == spec_first_cap_text(hits@.skip(i as int)),
        decreases n - i,
    {
        proof {
            assert(hits@.skip(i as int)[0] == hits@[i as int]);
            assert(hits@.skip(i as int).skip(1) =~= hits@.skip(i as int + 1));
        }
        match cap_at(&hits[i], 0) {
            Some(c) => {
                return Some(c.text.clone());
            },
            None => {},
        }
        i = i + 1;
    }
    proof {
        assert(hits@.skip(n as int) =~= Seq::<RawMatch>::empty());
    }
    None
}

/// Takes the first captured text inside bytes `lo..hi`.
pub fn first_cap_text_in(hits: &Vec<RawMatch>, lo: usize, hi: usize) -> (r: Option<String>)
    ensures
        match r {
            Some(t) => spec_first_cap_text_in(hits@, lo as int, hi as int) == Some(t@),
            None => spec_first_cap_text_in(hits@, lo as int, hi as int) is None,
        },
{
    let n = hits.len();
    proof {
        assert(hits@.skip(0) =~= hits@);
    }
    let mut i: usize = 0;
    while i < n
        invariant
            i <= n,
            n == hits@.len(),
            spec_first_cap_text_in(hits@, lo as int, hi as int) == spec_first_cap_text_in(
                hits@.skip(i as int),
                lo as int,
                hi as int,
            ),
        decreases n - i,
    {
        proof {
            assert(hits@.skip(i as int)[0] == hits@[i as int]);
            assert(hits@.skip(i as int).skip(1) =~= hits@.skip(i as int + 1));
        }
        match cap_at(&hits[i], 0) {
            Some(c) => {
                if lo <= c.start && c.end <= hi {
                    return Some(c.text.clone());
                }
            },
            None => {},
        }
        i = i + 1;
    }
    proof {
        assert(hits@.skip(n as int) =~= Seq::<RawMatch>::empty());
    }
    None
}

/// Whether some captured modifiers text ends in `public abstract`.
pub open spec fn spec_is_abstract(hits: Seq<RawMatch>) -> bool
    decreases hits.len(),
{
    if hits.len() == 0 {
        false
    } else {
        (spec_cap_at(hits[0].caps@, 0) matches Some(c) && "public abstract"@.is_suffix_of(c.text@))
            || spec_is_abstract(hits.skip(1))
    }
}

/// Decides the abstract flag from the modifiers query's matches.
pub fn is_abstract(hits: &Vec<RawMatch>) -> (r: bool)
    ensures
        r == spec_is_abstract(hits@),
{
    let n = hits.len();
    proof {
        assert(hits@.skip(0) =~= hits@);
    }
    let mut i: usize = 0;
    while i < n
        invariant
            i <= n,
            n == hits@.len(),
            spec_is_abstract(hits@) == spec_is_abstract(hits@.skip(i as int)),
        decreases n - i,
    {
        proof {
            assert(hits@.skip(i as int)[0] == hits@[i as int]);
            assert(hits@.skip(i as int).skip(1) =~= hits@.skip(i as int + 1));
        }
        match cap_at(&hits[i], 0) {
            Some(c) => {
                if ends_with_str(c.text.as_str(), "public abstract") {
                    return true;
                }
            },
            None => {},
        }
        i = i + 1;
    }
    proof {
        assert(hits@.skip(n as int) =~= Seq::<RawMatch>::empty());
    }
    false
}

/// The first captured texts of all matches that have one, in match order.
pub open spec fn cap_texts(hits: Seq<RawMatch>) -> Seq<Seq<char>>
    decreases hits.len(),
{
    if hits.len() == 0 {
        Seq::empty()
    } else {
        cap_texts(hits.drop_last()) + match spec_cap_at(hits.last().caps@, 0) {
            Some(c) => seq![c.text@],
            None => Seq::empty(),
        }
    }
}

/// The views of a list of strings.
pub open spec fn str_views(r: Seq<String>) -> Seq<Seq<char>> {
    r.map_values(|s: String| s@)
}

/// Collects the enum constants, in declaration order.
pub fn get_enum_constants(hits: &Vec<RawMatch>) -> (r: Vec<String>)
    ensures
        str_views(r@) == cap_texts(hits@),
{
    let n = hits.len();
    let mut r: Vec<String> = Vec::new();
    proof {
        assert(str_views(r@) =~= cap_texts(hits@.take(0)));
    }
    let mut i: usize = 0;
    while i < n
        invariant
            i <= n,
            n == hits@.len(),
            str_views(r@) == cap_texts(hits@.take(i as int)),
        decreases n - i,
    {
        proof {
            assert(hits@.take(i as int + 1).drop_last() =~= hits@.take(i as int));
            assert(hits@.take(i as int + 1).last() == hits@[i as int]);
        }
        match cap_at(&hits[i], 0) {
            Some(c) => {
                r.push(c.text.clone());
                proof {
                    assert(str_views(r@) =~= cap_texts(hits@.take(i as int + 1)));
                }
            },
            None => {
                proof {
                    assert(str_views(r@) =~= cap_texts(hits@.take(i as int + 1)));
                }
            },
        }
        i = i + 1;
    }
    proof {
        assert(hits@.take(n as int) =~= hits@);
    }
    r
}

/// Whether a match of the class-annotation query is the known-subclasses
/// marker: name captured as `XmlSeeAlso`, argument list captured too.
pub open spec fn see_also_anno(m: RawMatch) -> bool {
    &&& spec_cap_at(m.caps@, 0) matches Some(c0) && c0.text@ == "XmlSeeAlso"@
    &&& spec_cap_at(m.caps@, 1) is Some
}

/// The argument-list byte range of the first known-subclasses marker.
pub open spec fn spec_see_also_args(hits: Seq<RawMatch>) -> Option<(int, int)>
    decreases hits.len(),
{
    if hits.len() == 0 {
        None
    } else if see_also_anno(hits[0]) {
        let c1 = spec_cap_at(hits[0].caps@, 1)->Some_0;
        Some((c1.start as int, c1.end as int))
    } else {
        spec_see_also_args(hits.skip(1))
    }
}

/// Finds the argument-list range of the known-subclasses marker.
pub fn see_also_args(hits: &Vec<RawMatch>) -> (r: Option<(usize, usize)>)
    ensures
        match r {
            Some(p) => spec_see_also_args(hits@) == Some((p.0 as int, p.1 as int)),
            None => spec_see_also_args(hits@) is None,
        },
{
    let n = hits.len();
    proof {
        assert(hits@.skip(0) =~= hits@);
    }
    let mut i: usize = 0;
    while i < n
        invariant
            i <= n,
            n == hits@.len(),
            spec_see_also_args(hits@) == spec_see_also_args(hits@.skip(i as int)),
        decreases n - i,
    {
        proof {
            assert(hits@.skip(i as int)[0] == hits@[i as int]);
            assert(hits@.skip(i as int).skip(1) =~= hits@.skip(i as int + 1));
        }
        let m = &hits[i];
        let named = match cap_at(m, 0) {
            Some(c0) => str_eq(c0.text.as_str(), "XmlSeeAlso"),
            None => false,
        };
        if named {
            match cap_at(m, 1) {
                Some(c1) => {
                    return Some((c1.start, c1.end));
                },
                None => {},
            }
        }
        i = i + 1;
    }
    proof {
        assert(hits@.skip(n as int) =~= Seq::<RawMatch>::empty());
    }
    None
}

/// What one array element of the marker contributes: after stripping a
/// trailing `.class`, a dotted reference keeps only its last two path
/// segments joined (`Outer.Inner`), with no package; a bare name resolves
/// its package through the imports.
pub open spec fn spec_subclass_entry(text: Seq<char>, imports: Seq<Import>) -> (
    Seq<char>,
    Option<Seq<char>>,
) {
    let t = if ".class"@.is_suffix_of(text) {
        text.take(text.len() - ".class"@.len())
    } else {
        text
    };
    let d = last_ix(t, '.');
    if d >= 0 {
        (t.skip(last_ix(t.take(d), '.') + 1), None)
    } else {
        (t, spec_package_import(t, imports))
    }
}

/// The (name, package) pairs contributed by the element matches inside
/// bytes `lo..hi`, in match order.
pub open spec fn spec_subclasses_from(
    elems: Seq<RawMatch>,
    lo: int,
    hi: int,
    imports: Seq<Import>,
) -> Seq<(Seq<char>, Option<Seq<char>>)>
    decreases elems.len(),
{
    if elems.len() == 0 {
        Seq::empty()
    } else {
        spec_subclasses_from(elems.drop_last(), lo, hi, imports) + match spec_cap_at(
            elems.last().caps@,
            0,
        ) {
            Some(c) => if lo <= c.start && c.end <= hi {
                seq![spec_subclass_entry(c.text@, imports)]
            } else {
                Seq::empty()
            },
            None => Seq::empty(),
        }
    }
}

/// The (name, package) views of a subclass list.
pub open spec fn subclass_views(r: Seq<Subclass>) -> Seq<(Seq<char>, Option<Seq<char>>)> {
    r.map_values(|s: Subclass| (s.name@, opt_str_view(s.package)))
}

/// Parses one element of the marker's array literal.
pub fn subclass_of_text(text: &str, imports: &Vec<Import>) -> (r: Subclass)
    ensures
        (r.name@, opt_str_view(r.package)) == spec_subclass_entry(text@, imports@),
{
    proof {
        reveal_strlit(".class");
    }
    let t: String = if ends_with_str(text, ".class") {
        let len = text.unicode_len();
        text.substring_char(0, len - 6).to_owned()
    } else {
        text.to_owned()
    };
    match last_index_of(t.as_str(), '.') {
        Some(d) => {
            let tlen = t.as_str().unicode_len();
            let head = t.as_str().substring_char(0, d);
            proof {
                assert(head@ =~= t@.take(d as int));
            }
            let name = match last_index_of(head, '.') {
                Some(d2) => t.as_str().substring_char(d2 + 1, tlen).to_owned(),
                None => t,
            };
            proof {
                assert(name@ =~= spec_subclass_entry(text@, imports@).0);
            }
            Subclass { name, package: None }
        },
        None => {
            let package = package_import(t.as_str(), imports);
            Subclass { name: t, package }
        },
    }
}

/// Collects the subclasses named by element matches inside bytes `lo..hi`.
pub fn subclasses_from(
    elems: &Vec<RawMatch>,
    lo: usize,
    hi: usize,
    imports: &Vec<Import>,
) -> (r: Vec<Subclass>)
    ensures
        subclass_views(r@) == spec_subclasses_from(elems@, lo as int, hi as int, imports@),
{
    let n = elems.len();
    let mut r: Vec<Subclass> = Vec::new();
    proof {
        assert(subclass_views(r@) =~= spec_subclasses_from(
            elems@.take(0),
            lo as int,
            hi as int,
            imports@,
        ));
    }
    let mut i: usize = 0;
    while i < n
        invariant
            i <= n,
            n == elems@.len(),
            subclass_views(r@) == spec_subclasses_from(
                elems@.take(i as int),
                lo as int,
                hi as int,
                imports@,
            ),
        decreases n - i,
    {
        proof {
            assert(elems@.take(i as int + 1).drop_last() =~= elems@.take(i as int));
            assert(elems@.take(i as int + 1).last() == elems@[i as int]);
        }
        match cap_at(&elems[i], 0) {
            Some(c) => {
                if lo <= c.start && c.end <= hi {
                    let s = subclass_of_text(c.text.as_str(), imports);
                    r.push(s);
                    proof {
                        assert(subclass_views(r@) =~= spec_subclasses_from(
                            elems@.take(i as int + 1),
                            lo as int,
                            hi as int,
                            imports@,
                        ));
                    }
                } else {
                    proof {
                        assert(subclass_views(r@) =~= spec_subclasses_from(
                            elems@.take(i as int + 1),
                            lo as int,
                            hi as int,
                            imports@,
                        ));
                    }
                }
            },
            None => {
                proof {
                    assert(subclass_views(r@) =~= spec_subclasses_from(
                        elems@.take(i as int + 1),
                        lo as int,
                        hi as int,
                        imports@,
                    ));
                }
            },
        }
        i = i + 1;
    }
    proof {
        assert(elems@.take(n as int) =~= elems@);
    }
    r
}

/// The subclass list a file declares: empty without the marker annotation;
/// with it, the primary element pattern's contributions, or the fallback
/// pattern's when the primary yields none.
pub open spec fn spec_subclasses(
    cah: Seq<RawMatch>,
    prim: Seq<RawMatch>,
    fallb: Seq<RawMatch>,
    imports: Seq<Import>,
) -> Seq<(Seq<char>, Option<Seq<char>>)> {
    match spec_see_also_args(cah) {
        None => Seq::empty(),
        Some((lo, hi)) => {
            let p = spec_subclasses_from(prim, lo, hi, imports);
            if p.len() > 0 {
                p
            } else {
                spec_subclasses_from(fallb, lo, hi, imports)
            }
        },
    }
}

/// Extracts the known-subclass set of a declaration.
pub fn get_subclasses(
    cah: &Vec<RawMatch>,
    prim: &Vec<RawMatch>,
    fallb: &Vec<RawMatch>,
    imports: &Vec<Import>,
) -> (r: Vec<Subclass>)
    ensures
        subclass_views(r@) == spec_subclasses(cah@, prim@, fallb@, imports@),
{
    match see_also_args(cah) {
        None => {
            let r: Vec<Subclass> = Vec::new();
            proof {
                assert(subclass_views(r@) =~= spec_subclasses(cah@, prim@, fallb@, imports@));
            }
            r
        },
        Some((lo, hi)) => {
            let first = subclasses_from(prim, lo, hi, imports);
            if first.len() > 0 {
                first
            } else {
                subclasses_from(fallb, lo, hi, imports)
            }
        },
    }
}

/// The (return type, name, parameter-list range) of every method match
/// whose three captures are present, in match order.
pub open spec fn method_triples(ms: Seq<RawMatch>) -> Seq<(Seq<char>, Seq<char>, (int, int))>
    decreases ms.len(),
{
    if ms.len() == 0 {
        Seq::empty()
    } else {
        method_triples(ms.drop_last()) + if method_caps_ok(ms.last()) {
            let c0 = spec_cap_at(ms.last().caps@, 0)->Some_0;
            let c1 = spec_cap_at(ms.last().caps@, 1)->Some_0;
            let c2 = spec_cap_at(ms.last().caps@, 2)->Some_0;
            seq![(c0.text@, c1.text@, (c2.start as int, c2.end as int))]
        } else {
            Seq::empty()
        }
    }
}

/// Whether a method match carries all three captures: return type, name,
/// parameter list.
pub open spec fn method_caps_ok(m: RawMatch) -> bool {
    &&& spec_cap_at(m.caps@, 0) is Some
    &&& spec_cap_at(m.caps@, 1) is Some
    &&& spec_cap_at(m.caps@, 2) is Some
}

/// What one parameter match contributes inside the parameter list spanning
/// `lo..hi`: its type and name, and whether its annotations mark it as a
/// header (which always makes it nullable).
pub open spec fn spec_arguments(
    params: Seq<RawMatch>,
    lo: int,
    hi: int,
    pairs: Seq<RawMatch>,
) -> Seq<(Seq<char>, Seq<char>, bool)>
    decreases params.len(),
{
    if params.len() == 0 {
        Seq::empty()
    } else {
        spec_arguments(params.drop_last(), lo, hi, pairs) + if param_caps_in(
            params.last(),
            lo,
            hi,
        ) {
            let c0v = spec_cap_at(params.last().caps@, 0)->Some_0;
            let c1 = spec_cap_at(params.last().caps@, 1)->Some_0;
            let c2v = spec_cap_at(params.last().caps@, 2)->Some_0;
            seq![
                (
                    c1.text@,
                    c2v.text@,
                    spec_pair_present(
                        pairs,
                        c0v.start as int,
                        c0v.end as int,
                        "header"@,
                        "true"@,
                    ),
                ),
            ]
        } else {
            Seq::empty()
        }
    }
}

/// Whether a parameter match carries its three captures (annotations,
/// type, name) inside the parameter list spanning `lo..hi`.
pub open spec fn param_caps_in(m: RawMatch, lo: int, hi: int) -> bool {
    &&& spec_cap_at(m.caps@, 0) matches Some(c0) && lo <= c0.start
    &&& spec_cap_at(m.caps@, 1) is Some
    &&& spec_cap_at(m.caps@, 2) matches Some(c2) && c2.end <= hi
}

/// The (type, name, nullable) views of an argument list.
pub open spec fn argument_views(args: Seq<Argument>) -> Seq<(Seq<char>, Seq<char>, bool)> {
    args.map_values(|a: Argument| (a.arg_type@, a.name@, a.nullable))
}

/// How a function list relates to the query data: one function per kept
/// method match, with its arguments drawn from the parameter matches
/// inside its parameter list.
pub open spec fn functions_ok(
    fns: Seq<Function>,
    ms: Seq<RawMatch>,
    params: Seq<RawMatch>,
    pairs: Seq<RawMatch>,
) -> bool {
    &&& fns.len() == method_triples(ms).len()
    &&& forall|k: int|
        0 <= k < fns.len() ==> function_at_ok(
            #[trigger] fns[k],
            method_triples(ms)[k],
            params,
            pairs,
        )
}

/// How one function relates to its method triple.
pub open spec fn function_at_ok(
    f: Function,
    t: (Seq<char>, Seq<char>, (int, int)),
    params: Seq<RawMatch>,
    pairs: Seq<RawMatch>,
) -> bool {
    &&& f.return_type@ == t.0
    &&& f.name@ == t.1
    &&& argument_views(f.arguments@) == spec_arguments(params, t.2.0, t.2.1, pairs)
}

/// Collects the annotated parameters inside the parameter list spanning
/// bytes `lo..hi`.
pub fn get_arguments(params: &Vec<RawMatch>, lo: usize, hi: usize, pairs: &Vec<RawMatch>) -> (r:
    Vec<Argument>)
    ensures
        argument_views(r@) == spec_arguments(params@, lo as int, hi as int, pairs@),
{
    let n = params.len();
    let mut r: Vec<Argument> = Vec::new();
    proof {
        assert(argument_views(r@) =~= spec_arguments(
            params@.take(0),
            lo as int,
            hi as int,
            pairs@,
        ));
    }
    let mut i: usize = 0;
    while i < n
        invariant
            i <= n,
            n == params@.len(),
            argument_views(r@) == spec_arguments(params@.take(i as int), lo as int, hi as int, pairs@),
        decreases n - i,
    {
        proof {
            assert(params@.take(i as int + 1).drop_last() =~= params@.take(i as int));
            assert(params@.take(i as int + 1).last() == params@[i as int]);
        }
        let m = &params[i];
        let mut pushed = false;
        match cap_at(m, 0) {
            Some(c0) => {
                if lo <= c0.start {
                    match cap_at(m, 1) {
                        Some(c1) => {
                            match cap_at(m, 2) {
                                Some(c2) => {
                                    if c2.end <= hi {
                                        let nullable = pair_present(
                                            pairs,
                                            c0.start,
                                            c0.end,
                                            "header",
                                            "true",
                                        );
                                        r.push(
                                            Argument {
                                                name: c2.text.clone(),
                                                arg_type: c1.text.clone(),
                                                nullable,
                                            },
                                        );
                                        pushed = true;
                                    }
                                },
                                None => {},
                            }
                        },
                        None => {},
                    }
                }
            },
            None => {},
        }
        proof {
            assert(argument_views(r@) =~= spec_arguments(
                params@.take(i as int + 1),
                lo as int,
                hi as int,
                pairs@,
            ));
        }
        i = i + 1;
    }
    proof {
        assert(params@.take(n as int) =~= params@);
    }
    r
}

/// Collects the methods of an interface, with their parameter lists.
pub fn get_functions(ms: &Vec<RawMatch>, params: &Vec<RawMatch>, pairs: &Vec<RawMatch>) -> (r: Vec<
    Function,
>)
    ensures
        functions_ok(r@, ms@, params@, pairs@),
{
    let n = ms.len();
    let mut r: Vec<Function> = Vec::new();
    proof {
        assert(method_triples(ms@.take(0)) =~= Seq::<(Seq<char>, Seq<char>, (int, int))>::empty());
    }
    let mut i: usize = 0;
    while i < n
        invariant
            i <= n,
            n == ms@.len(),
            r@.len() == method_triples(ms@.take(i as int)).len(),
            forall|k: int|
                0 <= k < r@.len() ==> function_at_ok(
                    #[trigger] r@[k],
                    method_triples(ms@.take(i as int))[k],
                    params@,
                    pairs@,
                ),
        decreases n - i,
    {
        proof {
            assert(ms@.take(i as int + 1).drop_last() =~= ms@.take(i as int));
            assert(ms@.take(i as int + 1).last() == ms@[i as int]);
        }
        let m = &ms[i];
        match cap_at(m, 0) {
            Some(c0) => {
                match cap_at(m, 1) {
                    Some(c1) => {
                        match cap_at(m, 2) {
                            Some(c2) => {
                                let arguments = get_arguments(params, c2.start, c2.end, pairs);
                                r.push(
                                    Function {
                                        name: c1.text.clone(),
                                        arguments,
                                        return_type: c0.text.clone(),
                                    },
                                );
                            },
                            None => {},
                        }
                    },
                    None => {},
                }
            },
            None => {},
        }
        i = i + 1;
    }
    proof {
        assert(ms@.take(n as int) =~= ms@);
    }
    r
}

/// The byte ranges of the kept inner-class matches: those whose node is
/// captured and whose body yields a class name.
pub open spec fn kept_inner_ranges(ih: Seq<RawMatch>, cls: Seq<RawMatch>) -> Seq<(int, int)>
    decreases ih.len(),
{
    if ih.len() == 0 {
        Seq::empty()
    } else {
        kept_inner_ranges(ih.drop_last(), cls) + match spec_cap_at(ih.last().caps@, 0) {
            Some(c) => if spec_first_cap_text_in(cls, c.start as int, c.end as int) is Some {
                seq![(c.start as int, c.end as int)]
            } else {
                Seq::empty()
            },
            None => Seq::empty(),
        }
    }
}

/// How one nested declaration relates to the query data for its range.
pub open spec fn inner_at_ok(
    ic: InnerClass,
    range: (int, int),
    cls: Seq<RawMatch>,
    fh: Seq<RawMatch>,
    tds: Seq<RawMatch>,
    annos: Seq<RawMatch>,
    pairs: Seq<RawMatch>,
    pkg: Seq<char>,
    imports: Seq<Import>,
) -> bool {
    &&& spec_first_cap_text_in(cls, range.0, range.1) == Some(ic.name@)
    &&& fields_ok(ic.fields@, fh, range.0, range.1, tds, annos, pairs, pkg, imports)
}

/// How the nested-declaration list relates to the query data.
pub open spec fn inners_ok(
    ics: Seq<InnerClass>,
    ih: Seq<RawMatch>,
    cls: Seq<RawMatch>,
    fh: Seq<RawMatch>,
    tds: Seq<RawMatch>,
    annos: Seq<RawMatch>,
    pairs: Seq<RawMatch>,
    pkg: Seq<char>,
    imports: Seq<Import>,
) -> bool {
    &&& ics.len() == kept_inner_ranges(ih, cls).len()
    &&& forall|k: int|
        0 <= k < ics.len() ==> inner_at_ok(
            ics[k],
            kept_inner_ranges(ih, cls)[k],
            cls,
            fh,
            tds,
            annos,
            pairs,
            pkg,
            imports,
        )
}

/// Collects the nested declarations, one level deep, each with its own
/// name and fields.
pub fn get_inner_classes(
    ih: &Vec<RawMatch>,
    cls: &Vec<RawMatch>,
    fh: &Vec<RawMatch>,
    tds: &Vec<RawMatch>,
    annos: &Vec<RawMatch>,
    pairs: &Vec<RawMatch>,
    class_package: &str,
    imports: &Vec<Import>,
) -> (r: Vec<InnerClass>)
    ensures
        inners_ok(r@, ih@, cls@, fh@, tds@, annos@, pairs@, class_package@, imports@),
{
    let n = ih.len();
    let mut r: Vec<InnerClass> = Vec::new();
    proof {
        assert(kept_inner_ranges(ih@.take(0), cls@) =~= Seq::<(int, int)>::empty());
    }
    let mut i: usize = 0;
    while i < n
        invariant
            i <= n,
            n == ih@.len(),
            r@.len() == kept_inner_ranges(ih@.take(i as int), cls@).len(),
            forall|k: int|
                0 <= k < r@.len() ==> inner_at_ok(
                    r@[k],
                    kept_inner_ranges(ih@.take(i as int), cls@)[k],
                    cls@,
                    fh@,
                    tds@,
                    annos@,
                    pairs@,
                    class_package@,
                    imports@,
                ),
        decreases n - i,
    {
        proof {
            assert(ih@.take(i as int + 1).drop_last() =~= ih@.take(i as int));
            assert(ih@.take(i as int + 1).last() == ih@[i as int]);
        }
        match cap_at(&ih[i], 0) {
            Some(c) => {
                match first_cap_text_in(cls, c.start, c.end) {
                    Some(name) => {
                        let fields = get_fields(
                            fh,
                            c.start,
                            c.end,
                            tds,
                            annos,
                            pairs,
                            class_package,
                            imports,
                        );
                        r.push(InnerClass { name, fields });
                    },
                    None => {},
                }
            },
            None => {},
        }
        i = i + 1;
    }
    proof {
        assert(ih@.take(n as int) =~= ih@);
    }
    r
}

/// Why a source file could not be turned into a declaration model.
#[derive(Clone, Copy, Debug, PartialEq, Eq)]
pub enum ParseError {
    /// No supported declaration pattern matched, or the parse substrate
    /// rejected the file or a query pattern.
    SourceShape,
}

/// An unresolved superclass reference: only the bare name is known.
pub open spec fn bare_superclass(sc: Superclass) -> bool {
    &&& sc.package@.len() == 0
    &&& sc.imports@.len() == 0
    &&& sc.fields@.len() == 0
    &&& sc.is_abstract == false
}

/// How a parsed declaration relates to the pattern queries over its file's
/// text. The class pattern is tried first, then the enum pattern, then the
/// interface pattern; the first that yields a name decides the kind.
pub open spec fn extraction_ok(c: Class, text: Seq<char>) -> bool {
    &&& spec_first_cap_text(query_hits(text, "((package_declaration (scoped_identifier) @package))"@))
        == Some(c.package@)
    &&& import_views(c.imports@) == imports_of(query_hits(text, "((import_declaration) @import)"@))
    &&& c.skip == false
    &&& match spec_first_cap_text(query_hits(text, "((class_declaration name: (_) @class))"@)) {
        Some(n) => class_branch_ok(c, text, n),
        None => match spec_first_cap_text(
            query_hits(text, "((enum_declaration name: (_) @enum))"@),
        ) {
            Some(n) => enum_branch_ok(c, text, n),
            None => match spec_first_cap_text(
                query_hits(text, "((interface_declaration name: (_) @interface))"@),
            ) {
                Some(n) => interface_branch_ok(c, text, n),
                None => false,
            },
        },
    }
}

/// The class branch: fields, nested declarations, subclass set, abstract
/// flag and a bare superclass reference; no enum constants or functions.
pub open spec fn class_branch_ok(c: Class, text: Seq<char>, n: Seq<char>) -> bool {
    &&& c.name@ == n
    &&& subclass_views(c.subclasses@) == spec_subclasses(
        query_hits(
            text,
            "((class_declaration (modifiers (annotation name: (identifier) @name arguments: (annotation_argument_list) @args))))"@,
        ),
        query_hits(text, "((element_value_array_initializer (field_access) @subclass))"@),
        query_hits(text, "((element_value_array_initializer (class_literal) @subclass))"@),
        c.imports@,
    )
    &&& fields_ok(
        c.fields@,
        query_hits(
            text,
            "(program (class_declaration body: (class_body (field_declaration) @field)))"@,
        ),
        0,
        usize::MAX as int,
        query_hits(
            text,
            "((field_declaration type: (_) @imp declarator: (variable_declarator name: (_) @dec)))"@,
        ),
        query_hits(
            text,
            "((field_declaration (modifiers (annotation name: (_) @ann arguments: (_) @arg))))"@,
        ),
        query_hits(text, "((element_value_pair key: (_) @key value: (_) @value))"@),
        c.package@,
        c.imports@,
    )
    &&& inners_ok(
        c.inner_classes@,
        query_hits(
            text,
            "(program (class_declaration body: (class_body (class_declaration) @inner_class)))"@,
        ),
        query_hits(text, "((class_declaration name: (_) @class))"@),
        query_hits(text, "((class_declaration body: (class_body (field_declaration) @field)))"@),
        query_hits(
            text,
            "((field_declaration type: (_) @imp declarator: (variable_declarator name: (_) @dec)))"@,
        ),
        query_hits(
            text,
            "((field_declaration (modifiers (annotation name: (_) @ann arguments: (_) @arg))))"@,
        ),
        query_hits(text, "((element_value_pair key: (_) @key value: (_) @value))"@),
        c.package@,
        c.imports@,
    )
    &&& c.is_abstract == spec_is_abstract(
        query_hits(text, "((class_declaration (modifiers) @modifiers))"@),
    )
    &&& match c.superclass {
        Some(sc) => spec_first_cap_text(
            query_hits(
                text,
                "((class_declaration superclass: (superclass (type_identifier) @type)))"@,
            ),
        ) == Some(sc.name@) && bare_superclass(sc),
        None => spec_first_cap_text(
            query_hits(
                text,
                "((class_declaration superclass: (superclass (type_identifier) @type)))"@,
            ),
        ) is None,
    }
    &&& c.enum_constants@.len() == 0
    &&& c.functions@.len() == 0
}

/// The enum branch: only the constants, in declaration order.
pub open spec fn enum_branch_ok(c: Class, text: Seq<char>, n: Seq<char>) -> bool {
    &&& c.name@ == n
    &&& str_views(c.enum_constants@) == cap_texts(
        query_hits(text, "((enum_constant name: (_) @const))"@),
    )
    &&& c.fields@.len() == 0
    &&& c.functions@.len() == 0
    &&& c.inner_classes@.len() == 0
    &&& c.subclasses@.len() == 0
    &&& c.superclass is None
    &&& c.is_abstract == false
}

/// The interface branch: only the methods, with their parameters.
pub open spec fn interface_branch_ok(c: Class, text: Seq<char>, n: Seq<char>) -> bool {
    &&& c.name@ == n
    &&& functions_ok(
        c.functions@,
        query_hits(
            text,
            "((method_declaration type: (_) @type name: (_) @name parameters: (_) @pars))"@,
        ),
        query_hits(
            text,
            "((formal_parameter (modifiers) @anno type: (_) @type name: (_) @name))"@,
        ),
        query_hits(text, "((element_value_pair key: (_) @key value: (_) @value))"@),
    )
    &&& c.fields@.len() == 0
    &&& c.enum_constants@.len() == 0
    &&& c.inner_classes@.len() == 0
    &&& c.subclasses@.len() == 0
    &&& c.superclass is None
    &&& c.is_abstract == false
}

/// Whether a file's text yields a package name: the subset the binding
/// generator emits always carries a dotted package declaration.
pub open spec fn spec_has_package(text: Seq<char>) -> bool {
    spec_first_cap_text(
        query_hits(text, "((package_declaration (scoped_identifier) @package))"@),
    ) is Some
}

/// Whether some supported declaration pattern matches the file's text: a
/// class, an enum or an interface name is captured.
pub open spec fn spec_has_declaration(text: Seq<char>) -> bool {
    ||| spec_first_cap_text(query_hits(text, "((class_declaration name: (_) @class))"@)) is Some
    ||| spec_first_cap_text(query_hits(text, "((enum_declaration name: (_) @enum))"@)) is Some
    ||| spec_first_cap_text(
        query_hits(text, "((interface_declaration name: (_) @interface))"@),
    ) is Some
}

/// Turns one source file's text into a declaration model: the class
/// pattern is tried first, then the enum pattern, then the interface
/// pattern. It succeeds exactly when the text yields a package and one of
/// the three declaration patterns matches; the returned declaration
/// carries exactly one payload, is not skipped, and its superclass, if
/// any, is still the bare name.
pub fn parse_class(text: &str) -> (r: Result<Class, ParseError>)
    ensures
        (r is Ok) == (spec_has_package(text@) && spec_has_declaration(text@)),
        r matches Ok(c) ==> extraction_ok(c, text@),
        r matches Ok(c) ==> payload_exclusive(c),
        r matches Ok(c) ==> c.skip == false,
        r matches Ok(c) ==> (c.superclass matches Some(sc) ==> bare_superclass(sc)),
{
    let tree = parse_source(text);
    let pkg_hits = run_query(&tree, "((package_declaration (scoped_identifier) @package))");
    let package = match first_cap_text(&pkg_hits) {
        Some(p) => p,
        None => {
            return Err(ParseError::SourceShape);
        },
    };
    let import_hits = run_query(&tree, "((import_declaration) @import)");
    let imports = get_imports(&import_hits);
    let class_hits = run_query(&tree, "((class_declaration name: (_) @class))");
    match first_cap_text(&class_hits) {
        Some(name) => {
            let cah = run_query(
                &tree,
                "((class_declaration (modifiers (annotation name: (identifier) @name arguments: (annotation_argument_list) @args))))",
            );
            let prim = run_query(
                &tree,
                "((element_value_array_initializer (field_access) @subclass))",
            );
            let fallb = run_query(
                &tree,
                "((element_value_array_initializer (class_literal) @subclass))",
            );
            let subclasses = get_subclasses(&cah, &prim, &fallb, &imports);
            let fh = run_query(
                &tree,
                "(program (class_declaration body: (class_body (field_declaration) @field)))",
            );
            let tds = run_query(
                &tree,
                "((field_declaration type: (_) @imp declarator: (variable_declarator name: (_) @dec)))",
            );
            let annos = run_query(
                &tree,
                "((field_declaration (modifiers (annotation name: (_) @ann arguments: (_) @arg))))",
            );
            let pairs = run_query(
                &tree,
                "((element_value_pair key: (_) @key value: (_) @value))",
            );
            let fields = get_fields(
                &fh,
                0,
                usize::MAX,
                &tds,
                &annos,
                &pairs,
                package.as_str(),
                &imports,
            );
            let ih = run_query(
                &tree,
                "(program (class_declaration body: (class_body (class_declaration) @inner_class)))",
            );
            let afh = run_query(
                &tree,
                "((class_declaration body: (class_body (field_declaration) @field)))",
            );
            let inner_classes = get_inner_classes(
                &ih,
                &class_hits,
                &afh,
                &tds,
                &annos,
                &pairs,
                package.as_str(),
                &imports,
            );
            let mods = run_query(&tree, "((class_declaration (modifiers) @modifiers))");
            let abstract_flag = is_abstract(&mods);
            let sup = run_query(
                &tree,
                "((class_declaration superclass: (superclass (type_identifier) @type)))",
            );
            let superclass = match first_cap_text(&sup) {
                Some(n) => Some(
                    Superclass {
                        name: n,
                        package: String::new(),
                        imports: Vec::new(),
                        fields: Vec::new(),
                        is_abstract: false,
                    },
                ),
                None => None,
            };
            Ok(
                Class {
                    package,
                    imports,
                    name,
                    fields,
                    is_abstract: abstract_flag,
                    superclass,
                    subclasses,
                    enum_constants: Vec::new(),
                    functions: Vec::new(),
                    inner_classes,
                    skip: false,
                },
            )
        },
        None => {
            let enum_hits = run_query(&tree, "((enum_declaration name: (_) @enum))");
            match first_cap_text(&enum_hits) {
                Some(name) => {
                    let ec_hits = run_query(&tree, "((enum_constant name: (_) @const))");
                    let enum_constants = get_enum_constants(&ec_hits);
                    Ok(
                        Class {
                            package,
                            imports,
                            name,
                            fields: Vec::new(),
                            is_abstract: false,
                            superclass: None,
                            subclasses: Vec::new(),
                            enum_constants,
                            functions: Vec::new(),
                            inner_classes: Vec::new(),
                            skip: false,
                        },
                    )
                },
                None => {
                    let iface_hits = run_query(
                        &tree,
                        "((interface_declaration name: (_) @interface))",
                    );
                    match first_cap_text(&iface_hits) {
                        Some(name) => {
                            let methods = run_query(
                                &tree,
                                "((method_declaration type: (_) @type name: (_) @name parameters: (_) @pars))",
                            );
                            let params = run_query(
                                &tree,
                                "((formal_parameter (modifiers) @anno type: (_) @type name: (_) @name))",
                            );
                            let pairs = run_query(
                                &tree,
                                "((element_value_pair key: (_) @key value: (_) @value))",
                            );
                            let functions = get_functions(&methods, &params, &pairs);
                            Ok(
                                Class {
                                    package,
                                    imports,
                                    name,
                                    fields: Vec::new(),
                                    is_abstract: false,
                                    superclass: None,
                                    subclasses: Vec::new(),
                                    enum_constants: Vec::new(),
                                    functions,
                                    inner_classes: Vec::new(),
                                    skip: false,
                                },
                            )
                        },
                        None => Err(ParseError::SourceShape),
                    }
                },
            }
        },
    }
}

} // verus!
