//! The target model mapper: type renaming, conversion flags, factory
//! naming, import consolidation and field-count chunking, mapping a fully
//! resolved declaration into the generation model.

use vstd::prelude::*;
use crate::javaparser::{Class, Field as JavaField, Import as JavaImport, Superclass as JavaSuperclass,
    opt_str_view, spec_package_import, package_import};
use crate::kotlinprinter::{KotlinClass, Field as KotlinField, Import as KotlinImport,
    InnerClass as KotlinInnerClass, Function as KotlinFunction, Arg as KotlinArgument,
    Superclass as KotlinSuperclass, Part};
use crate::strutil::{is_upper_char, upper_of, uppercase_char, str_eq, starts_with_str, last_ix,
    last_index_of};

verus! {

/// `s` with its first character uppercased.
pub open spec fn spec_title(s: Seq<char>) -> Seq<char> {
    if s.len() == 0 {
        Seq::empty()
    } else {
        upper_of(s[0]) + s.skip(1)
    }
}

/// Uppercases the first character of a string, by the Unicode mapping
/// (which may yield more than one character).
pub fn title(s: &str) -> (r: String)
    ensures
        r@ == spec_title(s@),
{
    let len = s.unicode_len();
    if len == 0 {
        return String::new();
    }
    let c = s.get_char(0);
    let mut out = uppercase_char(c);
    let rest = s.substring_char(1, len);
    out.append(rest);
    proof {
        assert(rest@ =~= s@.skip(1));
        assert(out@ =~= spec_title(s@));
    }
    out
}

/// The renaming of a dotted type name, scanned left to right. Outside a
/// run, an uppercase character starts one; inside a run, a dot ends it and
/// the suffix `Kt` is written before the dot; a run still open at the end
/// is closed the same way. Lowercase package segments are left untouched.
pub open spec fn rename_from(s: Seq<char>, in_run: bool) -> Seq<char>
    decreases s.len(),
{
    if s.len() == 0 {
        if in_run {
            "Kt"@
        } else {
            Seq::empty()
        }
    } else if in_run {
        if s[0] == '.' {
            "Kt"@ + seq!['.'] + rename_from(s.skip(1), false)
        } else {
            seq![s[0]] + rename_from(s.skip(1), true)
        }
    } else {
        if is_upper_char(s[0]) {
            seq![s[0]] + rename_from(s.skip(1), true)
        } else {
            seq![s[0]] + rename_from(s.skip(1), false)
        }
    }
}

/// The target name of a type: every maximal uppercase-led run up to the
/// next dot gets the fixed suffix appended.
pub open spec fn spec_kotlin_name(s: Seq<char>) -> Seq<char> {
    rename_from(s, false)
}

/// Renames a possibly dotted class name into its target form.
pub fn kotlin_class_name(java_class_name: String) -> (r: String)
    ensures
        r@ == spec_kotlin_name(java_class_name@),
{
    let s = java_class_name.as_str();
    let len = s.unicode_len();
    let mut out = String::new();
    let mut in_run = false;
    proof {
        reveal_strlit("Kt");
        reveal_strlit(".");
        assert(s@.skip(0) =~= s@);
    }
    let mut i: usize = 0;
    while i < len
        invariant
            i <= len,
            len == s@.len(),
            rename_from(s@, false) == out@ + rename_from(s@.skip(i as int), in_run),
            "Kt"@.len() == 2,
            "."@ =~= seq!['.'],
        decreases len - i,
    {
        let c = s.get_char(i);
        proof {
            assert(s@.skip(i as int)[0] == s@[i as int]);
            assert(s@.skip(i as int).skip(1) =~= s@.skip(i as int + 1));
        }
        let piece = s.substring_char(i, i + 1);
        proof {
            assert(piece@ =~= seq![s@[i as int]]);
        }
        if in_run && c == '.' {
            out.append("Kt");
            out.append(".");
            in_run = false;
        } else if in_run {
            out.append(piece);
        } else if c >= 'A' && c <= 'Z' {
            out.append(piece);
            in_run = true;
        } else {
            out.append(piece);
        }
        i = i + 1;
    }
    proof {
        assert(s@.skip(len as int) =~= Seq::<char>::empty());
    }
    if in_run {
        out.append("Kt");
    }
    proof {
        assert(out@ =~= rename_from(s@, false));
    }
    out
}

/// The fixed renaming table for builtin scalar types; a name outside the
/// table is kept as it is.
pub open spec fn spec_builtin_kotlin(s: Seq<char>) -> Seq<char> {
    if s == "String"@ {
        "String"@
    } else if s == "Integer"@ {
        "Int"@
    } else if s == "int"@ {
        "Int"@
    } else if s == "Double"@ {
        "Double"@
    } else if s == "double"@ {
        "Double"@
    } else if s == "Float"@ {
        "Float"@
    } else if s == "float"@ {
        "Float"@
    } else if s == "Short"@ {
        "Short"@
    } else if s == "short"@ {
        "Short"@
    } else if s == "Boolean"@ {
        "Boolean"@
    } else if s == "boolean"@ {
        "Boolean"@
    } else if s == "Long"@ {
        "Long"@
    } else if s == "long"@ {
        "Long"@
    } else if s == "byte[]"@ {
        "ByteArray"@
    } else if s == "Object"@ {
        "Any"@
    } else {
        s
    }
}

/// Maps a builtin type name through the fixed table.
pub fn builtin_kotlin(s: &str) -> (r: String)
    ensures
        r@ == spec_builtin_kotlin(s@),
{
    if str_eq(s, "String") {
        "String".to_owned()
    } else if str_eq(s, "Integer") {
        "Int".to_owned()
    } else if str_eq(s, "int") {
        "Int".to_owned()
    } else if str_eq(s, "Double") {
        "Double".to_owned()
    } else if str_eq(s, "double") {
        "Double".to_owned()
    } else if str_eq(s, "Float") {
        "Float".to_owned()
    } else if str_eq(s, "float") {
        "Float".to_owned()
    } else if str_eq(s, "Short") {
        "Short".to_owned()
    } else if str_eq(s, "short") {
        "Short".to_owned()
    } else if str_eq(s, "Boolean") {
        "Boolean".to_owned()
    } else if str_eq(s, "boolean") {
        "Boolean".to_owned()
    } else if str_eq(s, "Long") {
        "Long".to_owned()
    } else if str_eq(s, "long") {
        "Long".to_owned()
    } else if str_eq(s, "byte[]") {
        "ByteArray".to_owned()
    } else if str_eq(s, "Object") {
        "Any".to_owned()
    } else {
        s.to_owned()
    }
}

/// `s` with one leading occurrence of `p` removed, if it is there.
pub open spec fn spec_strip_prefix_once(s: Seq<char>, p: Seq<char>) -> Seq<char> {
    if p.is_prefix_of(s) {
        s.skip(p.len() as int)
    } else {
        s
    }
}

/// Whether a field converts between the two representations: builtins
/// never do; a resolved standard-package type is already compatible; every
/// other type converts.
pub open spec fn spec_kfield_convert(f: JavaField) -> bool {
    if f.builtin {
        false
    } else if f.type_ref.package is Some {
        !f.type_ref.stdlib
    } else {
        true
    }
}

/// The target type name of a field: builtins map through the fixed table;
/// a resolved standard type keeps its name; a resolved local type drops a
/// leading `OwnerName.` and is renamed; an unresolved type keeps its name.
pub open spec fn spec_kfield_type(f: JavaField, cls_name: Seq<char>) -> Seq<char> {
    if f.builtin {
        spec_builtin_kotlin(f.type_ref.class@)
    } else if f.type_ref.package is Some {
        if f.type_ref.stdlib {
            f.type_ref.class@
        } else {
            spec_kotlin_name(spec_strip_prefix_once(f.type_ref.class@, cls_name + "."@))
        }
    } else {
        f.type_ref.class@
    }
}

/// Whether a field's boxed-element wrapper asks for a synthesized factory.
pub open spec fn spec_is_boxed(f: JavaField) -> bool {
    opt_str_view(f.generic_type) == Some("JAXBElement"@)
}

/// How one converted field relates to its source field: type renamed,
/// conversion flag computed, a factory synthesized for boxed elements, and
/// getter-style access for inherited fields owned by another package.
pub open spec fn kfield_from(
    kf: KotlinField,
    f: JavaField,
    cls_name: Seq<char>,
    cls_pkg: Seq<char>,
    sub_pkg: Option<Seq<char>>,
) -> bool {
    &&& kf.name@ == f.name@
    &&& kf.kotlin_type@ == spec_kfield_type(f, cls_name)
    &&& kf.generic_type@ == match f.generic_type {
        Some(g) => g@,
        None => Seq::<char>::empty(),
    }
    &&& kf.convert == spec_kfield_convert(f)
    &&& kf.nullable == f.nullable
    &&& kf.use_getter == match sub_pkg {
        Some(sp) => f.package@ != sp,
        None => false,
    }
    &&& if spec_is_boxed(f) {
        kf.factory_func@ == "create"@ + cls_name + spec_title(
            match f.xml_name {
                Some(x) => x@,
                None => f.name@,
            },
        ) && kf.object_factory_class@ == spec_kotlin_name(cls_name)
            && kf.object_factory_package@ == cls_pkg
    } else {
        kf.factory_func@.len() == 0 && kf.object_factory_class@.len() == 0
            && kf.object_factory_package@.len() == 0
    }
}

/// Converts one field of a declaration into its generation form.
pub fn convert_field(
    java_class_name: &str,
    java_class_package: &str,
    java_field: &JavaField,
    subclass_package: Option<&str>,
) -> (r: KotlinField)
    ensures
        kfield_from(
            r,
            *java_field,
            java_class_name@,
            java_class_package@,
            match subclass_package {
                Some(sp) => Some(sp@),
                None => None,
            },
        ),
{
    let mut convert = false;
    let mut kotlin_type: String;

    if java_field.builtin {
        kotlin_type = builtin_kotlin(java_field.type_ref.class.as_str());
    } else {
        kotlin_type = java_field.type_ref.class.clone();
        if java_field.type_ref.package.is_some() {
            if java_field.type_ref.stdlib {
                convert = false;
            } else {
                let mut own_prefix = java_class_name.to_owned();
                own_prefix.append(".");
                proof {
                    reveal_strlit(".");
                }
                if starts_with_str(kotlin_type.as_str(), own_prefix.as_str()) {
                    let klen = kotlin_type.as_str().unicode_len();
                    let plen = own_prefix.as_str().unicode_len();
                    kotlin_type = kotlin_type.as_str().substring_char(plen, klen).to_owned();
                    proof {
                        assert(kotlin_type@ =~= spec_strip_prefix_once(
                            java_field.type_ref.class@,
                            java_class_name@ + "."@,
                        ));
                    }
                }
                kotlin_type = kotlin_class_name(kotlin_type);
                convert = true;
            }
        } else {
            convert = true;
        }
    }
    let mut factory_func = String::new();
    let mut object_factory_class = String::new();
    let mut object_factory_package = String::new();

    let boxed = match &java_field.generic_type {
        Some(g) => str_eq(g.as_str(), "JAXBElement"),
        None => false,
    };
    if boxed {
        let xml_or_name: &String = match &java_field.xml_name {
            Some(x) => x,
            None => &java_field.name,
        };
        let mut ff = "create".to_owned();
        ff.append(java_class_name);
        let titled = title(xml_or_name.as_str());
        ff.append(titled.as_str());
        proof {
            reveal_strlit("create");
        }
        factory_func = ff;
        object_factory_class = kotlin_class_name(java_class_name.to_owned());
        object_factory_package = java_class_package.to_owned();
    }

    let generic_type: String = match &java_field.generic_type {
        Some(g) => g.clone(),
        None => String::new(),
    };
    let nullable = java_field.nullable;
    let use_getter = match subclass_package {
        Some(sp) => !str_eq(java_field.package.as_str(), sp),
        None => false,
    };
    proof {
        assert(factory_func@ =~= (if spec_is_boxed(*java_field) {
            "create"@ + java_class_name@ + spec_title(
                match java_field.xml_name {
                    Some(x) => x@,
                    None => java_field.name@,
                },
            )
        } else {
            Seq::<char>::empty()
        }));
    }
    KotlinField {
        name: java_field.name.clone(),
        kotlin_type,
        generic_type,
        factory_func,
        object_factory_class,
        object_factory_package,
        convert,
        nullable,
        use_getter,
    }
}

/// How a converted field list relates to its source list, pointwise.
pub open spec fn kfields_from(
    kfs: Seq<KotlinField>,
    fs: Seq<JavaField>,
    cls_name: Seq<char>,
    cls_pkg: Seq<char>,
    sub_pkg: Option<Seq<char>>,
) -> bool {
    &&& kfs.len() == fs.len()
    &&& forall|k: int|
        0 <= k < kfs.len() ==> kfield_from(#[trigger] kfs[k], fs[k], cls_name, cls_pkg, sub_pkg)
}

/// Converts a declaration's field list, in order.
pub fn convert_fields(
    java_class_name: &str,
    java_class_package: &str,
    java_class_fields: &Vec<JavaField>,
    subclass_package: Option<&str>,
) -> (r: Vec<KotlinField>)
    ensures
        kfields_from(
            r@,
            java_class_fields@,
            java_class_name@,
            java_class_package@,
            match subclass_package {
                Some(sp) => Some(sp@),
                None => None,
            },
        ),
{
    let n = java_class_fields.len();
    let mut r: Vec<KotlinField> = Vec::new();
    let mut i: usize = 0;
    while i < n
        invariant
            i <= n,
            n == java_class_fields@.len(),
            r@.len() == i,
            forall|k: int|
                0 <= k < i ==> kfield_from(
                    #[trigger] r@[k],
                    java_class_fields@[k],
                    java_class_name@,
                    java_class_package@,
                    match subclass_package {
                        Some(sp) => Some(sp@),
                        None => None,
                    },
                ),
        decreases n - i,
    {
        let kf = convert_field(
            java_class_name,
            java_class_package,
            &java_class_fields[i],
            subclass_package,
        );
        r.push(kf);
        i = i + 1;
    }
    r
}

/// Lexicographic order on character sequences: a proper prefix comes
/// first, and the first differing character decides.
pub open spec fn str_le(a: Seq<char>, b: Seq<char>) -> bool
    decreases a.len(),
{
    if a.len() == 0 {
        true
    } else if b.len() == 0 {
        false
    } else if a[0] != b[0] {
        a[0] < b[0]
    } else {
        str_le(a.skip(1), b.skip(1))
    }
}

/// Strict lexicographic order.
pub open spec fn str_lt(a: Seq<char>, b: Seq<char>) -> bool {
    str_le(a, b) && a != b
}

/// `str_le` is total.
pub proof fn lemma_str_le_total(a: Seq<char>, b: Seq<char>)
    ensures
        str_le(a, b) || str_le(b, a),
    decreases a.len(),
{
    if a.len() == 0 || b.len() == 0 {
    } else if a[0] != b[0] {
    } else {
        lemma_str_le_total(a.skip(1), b.skip(1));
    }
}

/// `str_le` is antisymmetric.
pub proof fn lemma_str_le_antisym(a: Seq<char>, b: Seq<char>)
    requires
        str_le(a, b),
        str_le(b, a),
    ensures
        a == b,
    decreases a.len(),
{
    if a.len() == 0 {
        assert(b.len() == 0);
        assert(a =~= b);
    } else {
        assert(b.len() != 0);
        assert(a[0] == b[0]);
        lemma_str_le_antisym(a.skip(1), b.skip(1));
        assert(a =~= seq![a[0]] + a.skip(1));
        assert(b =~= seq![b[0]] + b.skip(1));
    }
}

/// `str_le` is transitive.
pub proof fn lemma_str_le_trans(a: Seq<char>, b: Seq<char>, c: Seq<char>)
    requires
        str_le(a, b),
        str_le(b, c),
    ensures
        str_le(a, c),
    decreases a.len(),
{
    if a.len() == 0 {
    } else {
        assert(b.len() != 0);
        assert(c.len() != 0);
        if a[0] == b[0] && b[0] == c[0] {
            lemma_str_le_trans(a.skip(1), b.skip(1), c.skip(1));
        }
    }
}

/// The order imports are consolidated by: the (package, class) pair,
/// package first.
pub open spec fn pair_lt(p: (Seq<char>, Seq<char>), q: (Seq<char>, Seq<char>)) -> bool {
    str_lt(p.0, q.0) || (p.0 == q.0 && str_lt(p.1, q.1))
}

/// Two distinct pairs are ordered one way or the other.
pub proof fn lemma_pair_lt_connex(p: (Seq<char>, Seq<char>), q: (Seq<char>, Seq<char>))
    ensures
        pair_lt(p, q) || pair_lt(q, p) || p == q,
{
    lemma_str_le_total(p.0, q.0);
    lemma_str_le_total(p.1, q.1);
    if !pair_lt(p, q) && !pair_lt(q, p) {
        lemma_str_le_antisym(p.0, q.0);
        lemma_str_le_antisym(p.1, q.1);
        assert(p =~= q);
    }
}

/// The pair order is asymmetric.
pub proof fn lemma_pair_lt_asym(p: (Seq<char>, Seq<char>), q: (Seq<char>, Seq<char>))
    requires
        pair_lt(p, q),
    ensures
        !pair_lt(q, p),
{
    if str_lt(p.0, q.0) && str_lt(q.0, p.0) {
        lemma_str_le_antisym(p.0, q.0);
    }
    if p.0 == q.0 && str_lt(p.1, q.1) && str_lt(q.1, p.1) {
        lemma_str_le_antisym(p.1, q.1);
    }
}

/// The pair order is transitive.
pub proof fn lemma_pair_lt_trans(
    p: (Seq<char>, Seq<char>),
    q: (Seq<char>, Seq<char>),
    r: (Seq<char>, Seq<char>),
)
    requires
        pair_lt(p, q),
        pair_lt(q, r),
    ensures
        pair_lt(p, r),
{
    if str_lt(p.0, q.0) {
        if str_lt(q.0, r.0) {
            lemma_str_le_trans(p.0, q.0, r.0);
            if p.0 == r.0 {
                lemma_str_le_antisym(p.0, q.0);
            }
        }
    } else {
        if q.0 == r.0 {
            lemma_str_le_trans(p.1, q.1, r.1);
            if p.1 == r.1 {
                lemma_str_le_antisym(p.1, q.1);
            }
        }
    }
}

/// A view list is consolidated when it is strictly increasing in the pair
/// order: sorted, with no duplicate.
pub open spec fn sorted_views(vs: Seq<(Seq<char>, Seq<char>)>) -> bool {
    forall|i: int, j: int| 0 <= i < j < vs.len() ==> pair_lt(vs[i], vs[j])
}

/// A consolidated list is determined by its set of entries: two sorted,
/// duplicate-free lists with the same entries are identical. Consolidation
/// is therefore idempotent: re-running it on its own output, whose entry
/// set it keeps, yields an identical list.
pub proof fn lemma_consolidated_unique(a: Seq<(Seq<char>, Seq<char>)>, b: Seq<(Seq<char>, Seq<char>)>)
    requires
        sorted_views(a),
        sorted_views(b),
        a.to_set() == b.to_set(),
    ensures
        a == b,
    decreases a.len(),
{
    if a.len() == 0 && b.len() == 0 {
        assert(a =~= b);
    } else if a.len() == 0 {
        assert(b.contains(b[0]));
        assert(b.to_set().contains(b[0]));
        assert(a.to_set().contains(b[0]));
        assert(false);
    } else if b.len() == 0 {
        assert(a.contains(a[0]));
        assert(a.to_set().contains(a[0]));
        assert(b.to_set().contains(a[0]));
        assert(false);
    } else {
        assert(a.contains(a[0]));
        assert(b.to_set().contains(a[0]));
        let j = choose|j: int| 0 <= j < b.len() && b[j] == a[0];
        assert(a.to_set().contains(b[0]));
        let i = choose|i: int| 0 <= i < a.len() && a[i] == b[0];
        if i > 0 && j > 0 {
            assert(pair_lt(a[0], a[i]));
            assert(pair_lt(b[0], b[j]));
            lemma_pair_lt_asym(a[0], b[0]);
        }
        assert(a[0] == b[0]);
        let at = a.skip(1);
        let bt = b.skip(1);
        assert forall|p: (Seq<char>, Seq<char>)| at.to_set().contains(p) implies bt.to_set().contains(
            p,
        ) by {
            assert(at.contains(p));
            let k = choose|k: int| 0 <= k < at.len() && at[k] == p;
            assert(a[k + 1] == p);
            assert(pair_lt(a[0], p));
            assert(a.contains(p));
            assert(b.to_set().contains(p));
            let m = choose|m: int| 0 <= m < b.len() && b[m] == p;
            if m == 0 {
                lemma_pair_lt_asym(a[0], p);
            }
            assert(bt[m - 1] == p);
            assert(bt.contains(p));
        }
        assert forall|p: (Seq<char>, Seq<char>)| bt.to_set().contains(p) implies at.to_set().contains(
            p,
        ) by {
            assert(bt.contains(p));
            let k = choose|k: int| 0 <= k < bt.len() && bt[k] == p;
            assert(b[k + 1] == p);
            assert(pair_lt(b[0], p));
            assert(b.contains(p));
            assert(a.to_set().contains(p));
            let m = choose|m: int| 0 <= m < a.len() && a[m] == p;
            if m == 0 {
                lemma_pair_lt_asym(b[0], p);
            }
            assert(at[m - 1] == p);
            assert(at.contains(p));
        }
        assert(at.to_set() =~= bt.to_set());
        assert forall|i2: int, j2: int| 0 <= i2 < j2 < at.len() implies pair_lt(at[i2], at[j2]) by {
            assert(pair_lt(a[i2 + 1], a[j2 + 1]));
        }
        assert forall|i2: int, j2: int| 0 <= i2 < j2 < bt.len() implies pair_lt(bt[i2], bt[j2]) by {
            assert(pair_lt(b[i2 + 1], b[j2 + 1]));
        }
        lemma_consolidated_unique(at, bt);
        assert(a =~= seq![a[0]] + at);
        assert(b =~= seq![b[0]] + bt);
    }
}

/// Compares two strings in lexicographic order.
pub fn str_le_exec(a: &str, b: &str) -> (r: bool)
    ensures
        r == str_le(a@, b@),
{
    let alen = a.unicode_len();
    let blen = b.unicode_len();
    proof {
        assert(a@.skip(0) =~= a@);
        assert(b@.skip(0) =~= b@);
    }
    let mut i: usize = 0;
    while i < alen && i < blen
        invariant
            i <= alen,
            i <= blen,
            alen == a@.len(),
            blen == b@.len(),
            str_le(a@, b@) == str_le(a@.skip(i as int), b@.skip(i as int)),
        decreases alen - i,
    {
        let ca = a.get_char(i);
        let cb = b.get_char(i);
        proof {
            assert(a@.skip(i as int)[0] == a@[i as int]);
            assert(b@.skip(i as int)[0] == b@[i as int]);
            assert(a@.skip(i as int).skip(1) =~= a@.skip(i as int + 1));
            assert(b@.skip(i as int).skip(1) =~= b@.skip(i as int + 1));
        }
        if ca != cb {
            return ca < cb;
        }
        i = i + 1;
    }
    proof {
        if i >= alen {
            assert(a@.skip(i as int) =~= Seq::<char>::empty());
        } else {
            assert(b@.skip(i as int) =~= Seq::<char>::empty());
            assert(a@.skip(i as int).len() != 0);
        }
    }
    alen <= blen
}

/// The (package, class) view of one import.
pub open spec fn iview(i: KotlinImport) -> (Seq<char>, Seq<char>) {
    (i.package@, i.class@)
}

/// The (package, class) views of an import list.
pub open spec fn kimport_views(s: Seq<KotlinImport>) -> Seq<(Seq<char>, Seq<char>)> {
    s.map_values(|i: KotlinImport| (i.package@, i.class@))
}

/// Decides the strict pair order on two imports.
pub fn import_lt_exec(a: &KotlinImport, b: &KotlinImport) -> (r: bool)
    ensures
        r == pair_lt(iview(*a), iview(*b)),
{
    if str_eq(a.package.as_str(), b.package.as_str()) {
        str_le_exec(a.class.as_str(), b.class.as_str()) && !str_eq(a.class.as_str(), b.class.as_str())
    } else {
        str_le_exec(a.package.as_str(), b.package.as_str())
    }
}

/// Inserts one import into a consolidated list, keeping it sorted and
/// duplicate-free.
pub fn insert_import(v: &mut Vec<KotlinImport>, x: KotlinImport)
    requires
        sorted_views(kimport_views(old(v)@)),
    ensures
        sorted_views(kimport_views(final(v)@)),
        kimport_views(final(v)@).to_set() == kimport_views(old(v)@).to_set().insert(iview(x)),
{
    let n = v.len();
    let ghost vs = kimport_views(v@);
    let mut i: usize = 0;
    while i < n && import_lt_exec(&v[i], &x)
        invariant
            i <= n,
            n == v@.len(),
            vs == kimport_views(v@),
            sorted_views(vs),
            forall|k: int| 0 <= k < i ==> pair_lt(vs[k], iview(x)),
        decreases n - i,
    {
        i = i + 1;
    }
    if i < n && str_eq(v[i].package.as_str(), x.package.as_str()) && str_eq(
        v[i].class.as_str(),
        x.class.as_str(),
    ) {
        proof {
            assert(vs[i as int] == iview(x));
            assert(kimport_views(v@).contains(iview(x)));
            assert(kimport_views(v@).to_set() =~= kimport_views(v@).to_set().insert(iview(x)));
        }
        return;
    }
    proof {
        if i < n {
            lemma_pair_lt_connex(vs[i as int], iview(x));
            assert(pair_lt(iview(x), vs[i as int]));
        }
    }
    v.insert(i, x);
    proof {
        let nvs = kimport_views(v@);
        assert(nvs =~= vs.take(i as int) + seq![iview(x)] + vs.skip(i as int));
        assert forall|p: int, q: int| 0 <= p < q < nvs.len() implies pair_lt(nvs[p], nvs[q]) by {
            if p < i && q == i {
                assert(nvs[p] == vs[p]);
                assert(nvs[q] == iview(x));
            } else if p == i && q > i {
                assert(nvs[q] == vs[q - 1]);
                if q - 1 > i {
                    assert(pair_lt(vs[i as int], vs[q - 1]));
                    lemma_pair_lt_trans(iview(x), vs[i as int], vs[q - 1]);
                }
            } else if p < i && q > i {
                assert(nvs[p] == vs[p]);
                assert(nvs[q] == vs[q - 1]);
                if p == q - 1 {
                    lemma_pair_lt_trans(vs[p], iview(x), vs[q - 1]);
                }
            } else if p < i && q < i {
                assert(nvs[p] == vs[p]);
                assert(nvs[q] == vs[q]);
            } else {
                assert(nvs[p] == vs[p - 1]);
                assert(nvs[q] == vs[q - 1]);
            }
        }
        assert forall|p: (Seq<char>, Seq<char>)| nvs.to_set().contains(p) implies vs.to_set().insert(
            iview(x),
        ).contains(p) by {
            let k = choose|k: int| 0 <= k < nvs.len() && nvs[k] == p;
            if k < i {
                assert(vs[k] == p);
                assert(vs.contains(p));
            } else if k == i {
            } else {
                assert(vs[k - 1] == p);
                assert(vs.contains(p));
            }
        }
        assert forall|p: (Seq<char>, Seq<char>)| vs.to_set().insert(iview(x)).contains(p) implies nvs
            .to_set().contains(p) by {
            if p == iview(x) {
                assert(nvs[i as int] == p);
                assert(nvs.contains(p));
            } else {
                assert(vs.to_set().contains(p));
                let k = choose|k: int| 0 <= k < vs.len() && vs[k] == p;
                if k < i {
                    assert(nvs[k] == p);
                } else {
                    assert(nvs[k + 1] == p);
                }
                assert(nvs.contains(p));
            }
        }
        assert(nvs.to_set() =~= vs.to_set().insert(iview(x)));
    }
}

/// Consolidates an import list: the union of its entries, sorted by
/// (package, class) and duplicate-free.
pub fn consolidate_imports(v: Vec<KotlinImport>) -> (r: Vec<KotlinImport>)
    ensures
        sorted_views(kimport_views(r@)),
        kimport_views(r@).to_set() == kimport_views(v@).to_set(),
{
    let n = v.len();
    let mut r: Vec<KotlinImport> = Vec::new();
    proof {
        assert(kimport_views(r@).to_set() =~= kimport_views(v@.take(0)).to_set());
    }
    let mut i: usize = 0;
    while i < n
        invariant
            i <= n,
            n == v@.len(),
            sorted_views(kimport_views(r@)),
            kimport_views(r@).to_set() == kimport_views(v@.take(i as int)).to_set(),
        decreases n - i,
    {
        let x = KotlinImport { package: v[i].package.clone(), class: v[i].class.clone() };
        proof {
            assert(iview(x) == iview(v@[i as int]));
        }
        insert_import(&mut r, x);
        proof {
            let pv = kimport_views(v@.take(i as int));
            let nv = kimport_views(v@.take(i as int + 1));
            assert(nv =~= pv + seq![iview(v@[i as int])]);
            assert forall|p: (Seq<char>, Seq<char>)| nv.to_set().contains(p) implies pv.to_set().insert(
                iview(v@[i as int]),
            ).contains(p) by {
                let k = choose|k: int| 0 <= k < nv.len() && nv[k] == p;
                if k < pv.len() {
                    assert(pv[k] == p);
                    assert(pv.contains(p));
                }
            }
            assert forall|p: (Seq<char>, Seq<char>)| pv.to_set().insert(iview(v@[i as int])).contains(
                p,
            ) implies nv.to_set().contains(p) by {
                if p == iview(v@[i as int]) {
                    assert(nv[nv.len() - 1] == p);
                    assert(nv.contains(p));
                } else {
                    let k = choose|k: int| 0 <= k < pv.len() && pv[k] == p;
                    assert(nv[k] == p);
                    assert(nv.contains(p));
                }
            }
            assert(nv.to_set() =~= pv.to_set().insert(iview(v@[i as int])));
        }
        i = i + 1;
    }
    proof {
        assert(v@.take(n as int) =~= v@);
    }
    r
}

/// The chunking threshold: a class with more own fields than this has its
/// field list split into fixed-size parts.
pub const FIELDS_CHUNKING_LIMIT: usize = 50;

/// The concatenation of all parts' field lists, in order.
pub open spec fn flatten_parts(parts: Seq<Part>) -> Seq<KotlinField>
    decreases parts.len(),
{
    if parts.len() == 0 {
        Seq::empty()
    } else {
        flatten_parts(parts.drop_last()) + parts.last().fields@
    }
}

/// Every part but the last holds exactly `limit` fields; the last holds
/// between one and `limit`.
pub open spec fn parts_sized(parts: Seq<Part>, limit: int) -> bool {
    &&& forall|k: int| 0 <= k < parts.len() - 1 ==> (#[trigger] parts[k].fields@.len()) == limit
    &&& parts.len() > 0 ==> 0 < parts.last().fields@.len() <= limit
}

/// Splits a field list into parts of `limit` fields; concatenating the
/// parts in order restores the list exactly.
pub fn chunk_fields(fields: Vec<KotlinField>, limit: usize) -> (r: Vec<Part>)
    requires
        limit > 0,
    ensures
        flatten_parts(r@) == fields@,
        parts_sized(r@, limit as int),
        (r@.len() == 0) == (fields@.len() == 0),
{
    let mut parts: Vec<Part> = Vec::new();
    let mut rest = fields;
    proof {
        assert(flatten_parts(parts@) + rest@ =~= rest@);
    }
    while rest.len() > limit
        invariant
            limit > 0,
            flatten_parts(parts@) + rest@ == fields@,
            forall|k: int| 0 <= k < parts@.len() ==> (#[trigger] parts@[k].fields@.len()) == limit as int,
            parts@.len() > 0 ==> rest@.len() > 0,
        decreases rest@.len(),
    {
        let tail = rest.split_off(limit);
        let ghost old_parts = parts@;
        parts.push(Part { fields: rest });
        proof {
            assert(parts@.drop_last() =~= old_parts);
            assert(flatten_parts(parts@) + tail@ =~= fields@);
        }
        rest = tail;
    }
    if rest.len() > 0 {
        let ghost old_parts = parts@;
        parts.push(Part { fields: rest });
        proof {
            assert(parts@.drop_last() =~= old_parts);
            assert(flatten_parts(parts@) =~= fields@);
        }
    } else {
        proof {
            assert(flatten_parts(parts@) =~= fields@);
        }
    }
    parts
}

/// The import a field contributes, when its type has a resolved package:
/// standard types keep their name, local types are renamed.
pub open spec fn field_import(f: JavaField) -> Option<(Seq<char>, Seq<char>)> {
    match f.type_ref.package {
        Some(p) => Some(
            (
                p@,
                if f.type_ref.stdlib {
                    f.type_ref.class@
                } else {
                    spec_kotlin_name(f.type_ref.class@)
                },
            ),
        ),
        None => None,
    }
}

/// The imports a field list contributes, in order.
pub open spec fn field_imports(fs: Seq<JavaField>) -> Seq<(Seq<char>, Seq<char>)>
    decreases fs.len(),
{
    if fs.len() == 0 {
        Seq::empty()
    } else {
        field_imports(fs.drop_last()) + match field_import(fs.last()) {
            Some(e) => seq![e],
            None => Seq::empty(),
        }
    }
}

/// The imports a class's own fields contribute: as `field_imports`, but a
/// type resolved to the class's own package needs no import.
pub open spec fn own_field_imports(fs: Seq<JavaField>, cls_pkg: Seq<char>) -> Seq<(
    Seq<char>,
    Seq<char>,
)>
    decreases fs.len(),
{
    if fs.len() == 0 {
        Seq::empty()
    } else {
        own_field_imports(fs.drop_last(), cls_pkg) + if opt_str_view(fs.last().type_ref.package)
            == Some(cls_pkg) {
            Seq::empty()
        } else {
            match field_import(fs.last()) {
                Some(e) => seq![e],
                None => Seq::empty(),
            }
        }
    }
}

/// The imports the subclass references contribute, in their original form.
pub open spec fn subclass_imports(ss: Seq<crate::javaparser::Subclass>) -> Seq<(
    Seq<char>,
    Seq<char>,
)>
    decreases ss.len(),
{
    if ss.len() == 0 {
        Seq::empty()
    } else {
        subclass_imports(ss.drop_last()) + match ss.last().package {
            Some(p) => seq![(p@, ss.last().name@)],
            None => Seq::empty(),
        }
    }
}

/// The imports the subclass references contribute, in renamed form.
pub open spec fn subclass_imports_kt(ss: Seq<crate::javaparser::Subclass>) -> Seq<(
    Seq<char>,
    Seq<char>,
)>
    decreases ss.len(),
{
    if ss.len() == 0 {
        Seq::empty()
    } else {
        subclass_imports_kt(ss.drop_last()) + match ss.last().package {
            Some(p) => seq![(p@, spec_kotlin_name(ss.last().name@))],
            None => Seq::empty(),
        }
    }
}

/// The import for the superclass itself, when it lives in another package.
pub open spec fn superclass_import(c: Class) -> Seq<(Seq<char>, Seq<char>)> {
    match c.superclass {
        Some(sc) => if sc.package@ != c.package@ {
            seq![(sc.package@, spec_kotlin_name(sc.name@))]
        } else {
            Seq::empty()
        },
        None => Seq::empty(),
    }
}

/// The imports the nested declarations' fields contribute.
pub open spec fn inner_field_imports(ics: Seq<crate::javaparser::InnerClass>) -> Seq<(
    Seq<char>,
    Seq<char>,
)>
    decreases ics.len(),
{
    if ics.len() == 0 {
        Seq::empty()
    } else {
        inner_field_imports(ics.drop_last()) + field_imports(ics.last().fields@)
    }
}

/// Every import entry a declaration needs: inherited fields, the
/// superclass itself, subclass references in both forms, own fields and
/// nested declarations' fields.
pub open spec fn all_import_entries(c: Class) -> Seq<(Seq<char>, Seq<char>)> {
    (match c.superclass {
        Some(sc) => field_imports(sc.fields@),
        None => Seq::empty(),
    }) + superclass_import(c) + subclass_imports(c.subclasses@) + subclass_imports_kt(c.subclasses@)
        + own_field_imports(c.fields@, c.package@) + inner_field_imports(c.inner_classes@)
}

/// How one converted service method relates to its source: the return and
/// parameter types are renamed, names and nullability are kept.
pub open spec fn kfunction_from(kf: KotlinFunction, f: crate::javaparser::Function) -> bool {
    &&& kf.name@ == f.name@
    &&& kf.return_type@ == spec_kotlin_name(f.return_type@)
    &&& kf.arguments@.len() == f.arguments@.len()
    &&& forall|m: int|
        0 <= m < kf.arguments@.len() ==> {
            &&& (#[trigger] kf.arguments@[m]).name@ == f.arguments@[m].name@
            &&& kf.arguments@[m].t@ == spec_kotlin_name(f.arguments@[m].arg_type@)
            &&& kf.arguments@[m].nullable == f.arguments@[m].nullable
        }
}

/// Appends the imports of a field list to a candidate list.
fn push_field_imports(dst: &mut Vec<KotlinImport>, fs: &Vec<JavaField>)
    ensures
        kimport_views(final(dst)@) == kimport_views(old(dst)@) + field_imports(fs@),
{
    let n = fs.len();
    proof {
        assert(kimport_views(dst@) =~= kimport_views(dst@) + field_imports(fs@.take(0)));
    }
    let mut i: usize = 0;
    while i < n
        invariant
            i <= n,
            n == fs@.len(),
            kimport_views(dst@) == kimport_views(old(dst)@) + field_imports(fs@.take(i as int)),
        decreases n - i,
    {
        proof {
            assert(fs@.take(i as int + 1).drop_last() =~= fs@.take(i as int));
            assert(fs@.take(i as int + 1).last() == fs@[i as int]);
        }
        let f = &fs[i];
        match &f.type_ref.package {
            Some(p) => {
                let class_name = if f.type_ref.stdlib {
                    f.type_ref.class.clone()
                } else {
                    kotlin_class_name(f.type_ref.class.clone())
                };
                let imp = KotlinImport { package: p.clone(), class: class_name };
                let ghost gimp = imp;
                let ghost prev = dst@;
                dst.push(imp);
                proof {
                    assert(dst@ == prev.push(gimp));
                    assert(kimport_views(dst@) =~= kimport_views(prev) + seq![
                        (gimp.package@, gimp.class@),
                    ]);
                    assert(field_import(fs@[i as int]) == Some((gimp.package@, gimp.class@)));
                    assert(kimport_views(dst@) =~= kimport_views(old(dst)@) + field_imports(
                        fs@.take(i as int + 1),
                    ));
                }
            },
            None => {
                proof {
                    assert(kimport_views(dst@) =~= kimport_views(old(dst)@) + field_imports(
                        fs@.take(i as int + 1),
                    ));
                }
            },
        }
        i = i + 1;
    }
    proof {
        assert(fs@.take(n as int) =~= fs@);
    }
}

/// Appends the imports of a class's own fields to a candidate list,
/// leaving out types of the class's own package.
fn push_own_field_imports(dst: &mut Vec<KotlinImport>, fs: &Vec<JavaField>, cls_pkg: &str)
    ensures
        kimport_views(final(dst)@) == kimport_views(old(dst)@) + own_field_imports(fs@, cls_pkg@),
{
    let n = fs.len();
    proof {
        assert(kimport_views(dst@) =~= kimport_views(dst@) + own_field_imports(fs@.take(0), cls_pkg@));
    }
    let mut i: usize = 0;
    while i < n
        invariant
            i <= n,
            n == fs@.len(),
            kimport_views(dst@) == kimport_views(old(dst)@) + own_field_imports(
                fs@.take(i as int),
                cls_pkg@,
            ),
        decreases n - i,
    {
        proof {
            assert(fs@.take(i as int + 1).drop_last() =~= fs@.take(i as int));
            assert(fs@.take(i as int + 1).last() == fs@[i as int]);
        }
        let f = &fs[i];
        let own_pkg = match &f.type_ref.package {
            Some(p) => str_eq(p.as_str(), cls_pkg),
            None => false,
        };
        if !own_pkg {
            match &f.type_ref.package {
                Some(p) => {
                    let class_name = if f.type_ref.stdlib {
                        f.type_ref.class.clone()
                    } else {
                        kotlin_class_name(f.type_ref.class.clone())
                    };
                    let imp = KotlinImport { package: p.clone(), class: class_name };
                    let ghost gimp = imp;
                    let ghost prev = dst@;
                    dst.push(imp);
                    proof {
                        assert(dst@ == prev.push(gimp));
                        assert(kimport_views(dst@) =~= kimport_views(prev) + seq![
                            (gimp.package@, gimp.class@),
                        ]);
                        assert(field_import(fs@[i as int]) == Some((gimp.package@, gimp.class@)));
                        assert(kimport_views(dst@) =~= kimport_views(old(dst)@) + own_field_imports(
                            fs@.take(i as int + 1),
                            cls_pkg@,
                        ));
                    }
                },
                None => {
                    proof {
                        assert(kimport_views(dst@) =~= kimport_views(old(dst)@) + own_field_imports(
                            fs@.take(i as int + 1),
                            cls_pkg@,
                        ));
                    }
                },
            }
        } else {
            proof {
                assert(kimport_views(dst@) =~= kimport_views(old(dst)@) + own_field_imports(
                    fs@.take(i as int + 1),
                    cls_pkg@,
                ));
            }
        }
        i = i + 1;
    }
    proof {
        assert(fs@.take(n as int) =~= fs@);
    }
}

/// Appends the subclass-reference imports, in original or renamed form.
fn push_subclass_imports(
    dst: &mut Vec<KotlinImport>,
    ss: &Vec<crate::javaparser::Subclass>,
    renamed: bool,
)
    ensures
        kimport_views(final(dst)@) == kimport_views(old(dst)@) + if renamed {
            subclass_imports_kt(ss@)
        } else {
            subclass_imports(ss@)
        },
{
    let n = ss.len();
    proof {
        assert(kimport_views(dst@) =~= kimport_views(dst@) + subclass_imports(ss@.take(0)));
        assert(kimport_views(dst@) =~= kimport_views(dst@) + subclass_imports_kt(ss@.take(0)));
    }
    let mut i: usize = 0;
    while i < n
        invariant
            i <= n,
            n == ss@.len(),
            kimport_views(dst@) == kimport_views(old(dst)@) + if renamed {
                subclass_imports_kt(ss@.take(i as int))
            } else {
                subclass_imports(ss@.take(i as int))
            },
        decreases n - i,
    {
        proof {
            assert(ss@.take(i as int + 1).drop_last() =~= ss@.take(i as int));
            assert(ss@.take(i as int + 1).last() == ss@[i as int]);
        }
        match &ss[i].package {
            Some(p) => {
                let class_name = if renamed {
                    kotlin_class_name(ss[i].name.clone())
                } else {
                    ss[i].name.clone()
                };
                let imp = KotlinImport { package: p.clone(), class: class_name };
                let ghost gimp = imp;
                let ghost prev = dst@;
                dst.push(imp);
                proof {
                    assert(dst@ == prev.push(gimp));
                    assert(kimport_views(dst@) =~= kimport_views(prev) + seq![
                        (gimp.package@, gimp.class@),
                    ]);
                    if renamed {
                        assert(gimp.class@ == spec_kotlin_name(ss@[i as int].name@));
                        assert(kimport_views(dst@) =~= kimport_views(old(dst)@) + subclass_imports_kt(
                            ss@.take(i as int + 1),
                        ));
                    } else {
                        assert(gimp.class@ == ss@[i as int].name@);
                        assert(kimport_views(dst@) =~= kimport_views(old(dst)@) + subclass_imports(
                            ss@.take(i as int + 1),
                        ));
                    }
                }
            },
            None => {
                proof {
                    if renamed {
                        assert(kimport_views(dst@) =~= kimport_views(old(dst)@) + subclass_imports_kt(
                            ss@.take(i as int + 1),
                        ));
                    } else {
                        assert(kimport_views(dst@) =~= kimport_views(old(dst)@) + subclass_imports(
                            ss@.take(i as int + 1),
                        ));
                    }
                }
            },
        }
        i = i + 1;
    }
    proof {
        assert(ss@.take(n as int) =~= ss@);
    }
}

/// Chunking applies only to the plain leaf data-holder shape: more own
/// fields than the threshold on a declaration that is not abstract and has
/// no subclasses, no superclass, no enum constants and no functions.
pub open spec fn chunking_applies(c: Class) -> bool {
    &&& c.fields@.len() > FIELDS_CHUNKING_LIMIT as int
    &&& !c.is_abstract
    &&& c.subclasses@.len() == 0
    &&& c.superclass is None
    &&& c.enum_constants@.len() == 0
    &&& c.functions@.len() == 0
}

/// Maps a fully resolved declaration into the generation model: names
/// renamed, fields converted, service methods mapped, imports consolidated
/// and, for a plain data holder, an overlong own-field list chunked into
/// parts.
pub fn convert(java_class: Class) -> (r: KotlinClass)
    ensures
        r.kotlin_name@ == spec_kotlin_name(java_class.name@),
        r.java_name@ == java_class.name@,
        r.package@ == java_class.package@,
        r.is_abstract == java_class.is_abstract,
        crate::javaparser::str_views(r.enum_constants@) == crate::javaparser::str_views(
            java_class.enum_constants@,
        ),
        crate::javaparser::str_views(r.subclasses@) == java_class.subclasses@.map_values(
            |s: crate::javaparser::Subclass| s.name@,
        ),
        r.functions@.len() == java_class.functions@.len(),
        forall|k: int|
            0 <= k < r.functions@.len() ==> kfunction_from(
                #[trigger] r.functions@[k],
                java_class.functions@[k],
            ),
        r.inner_classes@.len() == java_class.inner_classes@.len(),
        forall|k: int|
            0 <= k < r.inner_classes@.len() ==> {
                &&& (#[trigger] r.inner_classes@[k]).name@ == java_class.inner_classes@[k].name@
                &&& kfields_from(
                    r.inner_classes@[k].fields@,
                    java_class.inner_classes@[k].fields@,
                    java_class.inner_classes@[k].name@,
                    java_class.package@,
                    None,
                )
            },
        match java_class.superclass {
            Some(sc) => r.java_superclass matches Some(ks) && ks.name@ == spec_kotlin_name(sc.name@)
                && kfields_from(ks.fields@, sc.fields@, sc.name@, sc.package@, Some(java_class.package@)),
            None => r.java_superclass is None,
        },
        chunking_applies(java_class) ==> {
            &&& r.fields@.len() == 0
            &&& kfields_from(
                flatten_parts(r.parts@),
                java_class.fields@,
                java_class.name@,
                java_class.package@,
                None,
            )
            &&& parts_sized(r.parts@, FIELDS_CHUNKING_LIMIT as int)
            &&& r.parts@.len() > 0
        },
        !chunking_applies(java_class) ==> {
            &&& kfields_from(
                r.fields@,
                java_class.fields@,
                java_class.name@,
                java_class.package@,
                None,
            )
            &&& r.parts@.len() == 0
        },
        sorted_views(kimport_views(r.imports@)),
        kimport_views(r.imports@).to_set() == all_import_entries(java_class).to_set(),
{
    let ghost c0 = java_class;
    let java_class_name = java_class.name;
    let java_class_package = java_class.package;

    let own_fields = convert_fields(
        java_class_name.as_str(),
        java_class_package.as_str(),
        &java_class.fields,
        None,
    );

    let mut inner_classes: Vec<KotlinInnerClass> = Vec::new();
    let n_inner = java_class.inner_classes.len();
    let mut i: usize = 0;
    while i < n_inner
        invariant
            i <= n_inner,
            n_inner == c0.inner_classes@.len(),
            java_class.inner_classes@ == c0.inner_classes@,
            java_class_package@ == c0.package@,
            inner_classes@.len() == i,
            forall|k: int|
                0 <= k < i ==> {
                    &&& (#[trigger] inner_classes@[k]).name@ == c0.inner_classes@[k].name@
                    &&& kfields_from(
                        inner_classes@[k].fields@,
                        c0.inner_classes@[k].fields@,
                        c0.inner_classes@[k].name@,
                        c0.package@,
                        None,
                    )
                },
        decreases n_inner - i,
    {
        let ic = &java_class.inner_classes[i];
        let fields = convert_fields(ic.name.as_str(), java_class_package.as_str(), &ic.fields, None);
        inner_classes.push(KotlinInnerClass { name: ic.name.clone(), fields });
        i = i + 1;
    }

    let mut candidates: Vec<KotlinImport> = Vec::new();
    match &java_class.superclass {
        Some(sc) => {
            push_field_imports(&mut candidates, &sc.fields);
        },
        None => {},
    }
    let ghost after_inherited = kimport_views(candidates@);
    match &java_class.superclass {
        Some(sc) => {
            if !str_eq(sc.package.as_str(), java_class_package.as_str()) {
                let class_name = kotlin_class_name(sc.name.clone());
                candidates.push(KotlinImport { package: sc.package.clone(), class: class_name });
            }
        },
        None => {},
    }
    proof {
        assert(kimport_views(candidates@) =~= (match c0.superclass {
            Some(sc) => field_imports(sc.fields@),
            None => Seq::empty(),
        }) + superclass_import(c0));
    }
    push_subclass_imports(&mut candidates, &java_class.subclasses, false);
    push_subclass_imports(&mut candidates, &java_class.subclasses, true);
    push_own_field_imports(&mut candidates, &java_class.fields, java_class_package.as_str());
    let n_ic = java_class.inner_classes.len();
    let ghost before_inner = kimport_views(candidates@);
    let mut j: usize = 0;
    while j < n_ic
        invariant
            j <= n_ic,
            n_ic == c0.inner_classes@.len(),
            java_class.inner_classes@ == c0.inner_classes@,
            kimport_views(candidates@) == before_inner + inner_field_imports(
                c0.inner_classes@.take(j as int),
            ),
        decreases n_ic - j,
    {
        proof {
            assert(c0.inner_classes@.take(j as int + 1).drop_last() =~= c0.inner_classes@.take(
                j as int,
            ));
            assert(c0.inner_classes@.take(j as int + 1).last() == c0.inner_classes@[j as int]);
        }
        push_field_imports(&mut candidates, &java_class.inner_classes[j].fields);
        proof {
            assert(kimport_views(candidates@) =~= before_inner + inner_field_imports(
                c0.inner_classes@.take(j as int + 1),
            ));
        }
        j = j + 1;
    }
    proof {
        assert(c0.inner_classes@.take(n_ic as int) =~= c0.inner_classes@);
        assert(kimport_views(candidates@) =~= all_import_entries(c0));
    }
    let imports = consolidate_imports(candidates);

    let mut functions: Vec<KotlinFunction> = Vec::new();
    let n_fn = java_class.functions.len();
    let mut k: usize = 0;
    while k < n_fn
        invariant
            k <= n_fn,
            n_fn == c0.functions@.len(),
            java_class.functions@ == c0.functions@,
            functions@.len() == k,
            forall|m: int|
                0 <= m < k ==> kfunction_from(#[trigger] functions@[m], c0.functions@[m]),
        decreases n_fn - k,
    {
        let func = &java_class.functions[k];
        let mut arguments: Vec<KotlinArgument> = Vec::new();
        let n_arg = func.arguments.len();
        let mut m: usize = 0;
        while m < n_arg
            invariant
                m <= n_arg,
                n_arg == func.arguments@.len(),
                arguments@.len() == m,
                forall|q: int|
                    0 <= q < m ==> {
                        &&& (#[trigger] arguments@[q]).name@ == func.arguments@[q].name@
                        &&& arguments@[q].t@ == spec_kotlin_name(func.arguments@[q].arg_type@)
                        &&& arguments@[q].nullable == func.arguments@[q].nullable
                    },
            decreases n_arg - m,
        {
            let arg = &func.arguments[m];
            arguments.push(
                KotlinArgument {
                    name: arg.name.clone(),
                    t: kotlin_class_name(arg.arg_type.clone()),
                    nullable: arg.nullable,
                },
            );
            m = m + 1;
        }
        functions.push(
            KotlinFunction {
                name: func.name.clone(),
                arguments,
                return_type: kotlin_class_name(func.return_type.clone()),
            },
        );
        k = k + 1;
    }

    let mut subclass_names: Vec<String> = Vec::new();
    let n_sub = java_class.subclasses.len();
    let mut s: usize = 0;
    while s < n_sub
        invariant
            s <= n_sub,
            n_sub == c0.subclasses@.len(),
            java_class.subclasses@ == c0.subclasses@,
            subclass_names@.len() == s,
            forall|q: int| 0 <= q < s ==> (#[trigger] subclass_names@[q])@ == c0.subclasses@[q].name@,
        decreases n_sub - s,
    {
        subclass_names.push(java_class.subclasses[s].name.clone());
        s = s + 1;
    }
    proof {
        assert(crate::javaparser::str_views(subclass_names@) =~= c0.subclasses@.map_values(
            |sc: crate::javaparser::Subclass| sc.name@,
        ));
    }

    let java_superclass: Option<KotlinSuperclass> = match &java_class.superclass {
        Some(sc) => {
            let fields = convert_fields(
                sc.name.as_str(),
                sc.package.as_str(),
                &sc.fields,
                Some(java_class_package.as_str()),
            );
            Some(KotlinSuperclass { name: kotlin_class_name(sc.name.clone()), fields })
        },
        None => None,
    };

    let do_chunk = own_fields.len() > FIELDS_CHUNKING_LIMIT && !java_class.is_abstract
        && java_class.subclasses.len() == 0 && java_class.superclass.is_none()
        && java_class.enum_constants.len() == 0 && java_class.functions.len() == 0;
    let (fields, parts) = if do_chunk {
        let parts = chunk_fields(own_fields, FIELDS_CHUNKING_LIMIT);
        (Vec::new(), parts)
    } else {
        (own_fields, Vec::new())
    };

    KotlinClass {
        kotlin_name: kotlin_class_name(java_class_name.clone()),
        java_name: java_class_name,
        package: java_class_package,
        fields,
        parts,
        java_superclass,
        functions,
        is_abstract: java_class.is_abstract,
        subclasses: subclass_names,
        imports,
        enum_constants: java_class.enum_constants,
        inner_classes,
    }
}

/// The fixed set of "infrastructure, no data" sentinel base names: a class
/// extending one of these produces no output.
pub open spec fn is_sentinel_name(s: Seq<char>) -> bool {
    s == "Exception"@ || s == "Service"@
}

/// Decides whether a superclass name is one of the sentinel bases.
pub fn is_sentinel(name: &str) -> (r: bool)
    ensures
        r == is_sentinel_name(name@),
{
    str_eq(name, "Exception") || str_eq(name, "Service")
}

/// Marks a declaration as producing no output, leaving everything else
/// unchanged.
pub fn mark_skip(java_class: Class) -> (r: Class)
    ensures
        r == (Class { skip: true, ..java_class }),
{
    Class { skip: true, ..java_class }
}

/// What the resolver must do next for a declaration: nothing, when there
/// is no superclass; mark it skipped, when the superclass is a sentinel
/// base, and do not recurse; otherwise fetch and resolve the ancestor
/// file named by the returned bare superclass name.
pub fn resolve_step(java_class: Class) -> (r: (Class, Option<String>))
    ensures
        match java_class.superclass {
            None => r.0 == java_class && r.1 is None,
            Some(sc) => if is_sentinel_name(sc.name@) {
                r.0 == (Class { skip: true, ..java_class }) && r.1 is None
            } else {
                r.0 == java_class && (r.1 matches Some(n) && n@ == sc.name@)
            },
        },
{
    let name: Option<String> = match &java_class.superclass {
        Some(sc) => Some(sc.name.clone()),
        None => None,
    };
    match name {
        None => (java_class, None),
        Some(n) => {
            if is_sentinel(n.as_str()) {
                (mark_skip(java_class), None)
            } else {
                (java_class, Some(n))
            }
        },
    }
}

/// How a merged superclass view relates to the parsed ancestor it came
/// from: the ancestor's own identity, with the whole chain's fields and
/// imports flattened oldest-first — the ancestor's ancestors first, its
/// own contributions last, each item exactly once. The ancestor's own
/// import list is the one its file declares; the imports of its further
/// ancestors come only through its resolved superclass view.
pub open spec fn merged_from(r: JavaSuperclass, ancestor: Class) -> bool {
    &&& r.name@ == ancestor.name@
    &&& r.package@ == ancestor.package@
    &&& r.is_abstract == ancestor.is_abstract
    &&& match ancestor.superclass {
        Some(ss) => r.fields@ == ss.fields@ + ancestor.fields@ && r.imports@ == ss.imports@
            + ancestor.imports@,
        None => r.fields@ == ancestor.fields@ && r.imports@ == ancestor.imports@,
    }
}

/// Flattens a parsed (and itself already resolved) ancestor into the
/// merged superclass view seen by its subclass.
pub fn fields_from_superclass(superclass: Class) -> (r: JavaSuperclass)
    ensures
        merged_from(r, superclass),
{
    let Class { package, imports, name, fields, is_abstract, superclass: sup, .. } = superclass;
    match sup {
        Some(ss) => {
            let JavaSuperclass { imports: mut merged_imports, fields: mut merged_fields, .. } = ss;
            let mut own_fields = fields;
            let mut own_imports = imports;
            merged_fields.append(&mut own_fields);
            merged_imports.append(&mut own_imports);
            JavaSuperclass { name, package, imports: merged_imports, fields: merged_fields, is_abstract }
        },
        None => JavaSuperclass { name, package, imports, fields, is_abstract },
    }
}

/// Over a three-level chain, the bottom class's resolved superclass holds
/// the grandparent's fields first and the parent's after them, each
/// exactly once, also when the grandparent has no further ancestor.
pub proof fn lemma_three_level_chain(g: Class, sg: JavaSuperclass, p: Class, sp: JavaSuperclass)
    requires
        g.superclass is None,
        merged_from(sg, g),
        p.superclass == Some(sg),
        merged_from(sp, p),
    ensures
        sp.fields@ == g.fields@ + p.fields@,
        sp.imports@ == g.imports@ + p.imports@,
{
}

/// Replaces a declaration's bare superclass reference with its resolved
/// view. The declaration's own import list stays the one its file
/// declares; the chain's merged imports live in the resolved view, so
/// that a further merge one level down carries each ancestor's imports
/// exactly once.
pub fn apply_superclass(java_class: Class, resolved: JavaSuperclass) -> (r: Class)
    ensures
        r == (Class { superclass: Some(resolved), ..java_class }),
{
    Class { superclass: Some(resolved), ..java_class }
}

/// A dotted package name as a path: dots become separators.
pub open spec fn dots_to_slashes(s: Seq<char>) -> Seq<char> {
    s.map_values(
        |c: char|
            if c == '.' {
                '/'
            } else {
                c
            },
    )
}

/// Turns an import's package into a relative path.
pub fn to_path(import: &JavaImport) -> (r: String)
    ensures
        r@ == dots_to_slashes(import.package@),
{
    let s = import.package.as_str();
    let len = s.unicode_len();
    let mut out = String::new();
    proof {
        assert(out@ =~= dots_to_slashes(s@.take(0)));
        reveal_strlit("/");
    }
    let mut i: usize = 0;
    while i < len
        invariant
            i <= len,
            len == s@.len(),
            out@ == dots_to_slashes(s@.take(i as int)),
            "/"@ =~= seq!['/'],
        decreases len - i,
    {
        let c = s.get_char(i);
        if c == '.' {
            out.append("/");
        } else {
            let piece = s.substring_char(i, i + 1);
            proof {
                assert(piece@ =~= seq![s@[i as int]]);
            }
            out.append(piece);
        }
        proof {
            assert(out@ =~= dots_to_slashes(s@.take(i as int + 1)));
        }
        i = i + 1;
    }
    proof {
        assert(s@.take(len as int) =~= s@);
    }
    out
}

/// The part of a path before its last separator; empty when there is none.
pub open spec fn parent_of(p: Seq<char>) -> Seq<char> {
    if last_ix(p, '/') >= 0 {
        p.take(last_ix(p, '/'))
    } else {
        Seq::empty()
    }
}

/// The extension of a path's file name: what follows its last dot.
pub open spec fn ext_of(p: Seq<char>) -> Option<Seq<char>> {
    let n = crate::files::file_name_of(p);
    if last_ix(n, '.') >= 0 {
        Some(n.skip(last_ix(n, '.') + 1))
    } else {
        None
    }
}

/// The stem of a path's file name: what precedes its last dot.
pub open spec fn stem_of(p: Seq<char>) -> Seq<char> {
    let n = crate::files::file_name_of(p);
    if last_ix(n, '.') >= 0 {
        n.take(last_ix(n, '.'))
    } else {
        n
    }
}

/// Where a superclass's source file is expected: under the imported
/// package's directory when the name is imported, else beside the
/// referring file; the class name with the referring file's extension.
pub open spec fn spec_superclass_path(
    file: Seq<char>,
    name: Seq<char>,
    imports: Seq<JavaImport>,
) -> Seq<char> {
    let base = match spec_package_import(name, imports) {
        Some(pkg) => dots_to_slashes(pkg),
        None => parent_of(file),
    };
    let with_name = if base.len() > 0 {
        base + seq!['/'] + name
    } else {
        name
    };
    match ext_of(file) {
        Some(e) => with_name + seq!['.'] + e,
        None => with_name,
    }
}

/// Computes the relative path of a superclass's source file.
pub fn superclass_path(file_path: &str, name: &str, imports: &Vec<JavaImport>) -> (r: String)
    ensures
        r@ == spec_superclass_path(file_path@, name@, imports@),
{
    let len = file_path.unicode_len();
    let mut base: String = match package_import(name, imports) {
        Some(pkg) => {
            let imp = JavaImport { package: pkg, class: String::new() };
            to_path(&imp)
        },
        None => {
            match last_index_of(file_path, '/') {
                Some(ix) => file_path.substring_char(0, ix).to_owned(),
                None => String::new(),
            }
        },
    };
    proof {
        reveal_strlit("/");
        reveal_strlit(".");
        assert(base@ == (match spec_package_import(name@, imports@) {
            Some(pkg) => dots_to_slashes(pkg),
            None => parent_of(file_path@),
        }));
    }
    let mut out: String = if base.as_str().unicode_len() > 0 {
        base.append("/");
        base.append(name);
        base
    } else {
        name.to_owned()
    };
    let fstart: usize = match last_index_of(file_path, '/') {
        Some(ix) => ix + 1,
        None => 0,
    };
    let fname = file_path.substring_char(fstart, len);
    proof {
        assert(fname@ =~= crate::files::file_name_of(file_path@));
    }
    match last_index_of(fname, '.') {
        Some(dix) => {
            let flen = fname.unicode_len();
            let ext = fname.substring_char(dix + 1, flen);
            out.append(".");
            out.append(ext);
            proof {
                assert(out@ =~= spec_superclass_path(file_path@, name@, imports@));
            }
            out
        },
        None => {
            proof {
                assert(out@ =~= spec_superclass_path(file_path@, name@, imports@));
            }
            out
        },
    }
}

/// The directory prefix of a path, kept up to and including its last
/// separator; empty when there is none.
pub open spec fn dir_prefix_of(p: Seq<char>) -> Seq<char> {
    if last_ix(p, '/') >= 0 {
        p.take(last_ix(p, '/') + 1)
    } else {
        Seq::empty()
    }
}

/// Where the generated file of a source file goes: beside it, named by the
/// renamed stem with the target extension.
pub open spec fn spec_kotlin_file_path(file: Seq<char>) -> Seq<char> {
    dir_prefix_of(file) + spec_kotlin_name(stem_of(file)) + ".kt"@
}

/// Computes the relative path of the generated file for a source file.
pub fn kotlin_file_path(file_path: &str) -> (r: String)
    ensures
        r@ == spec_kotlin_file_path(file_path@),
{
    let len = file_path.unicode_len();
    let fstart: usize = match last_index_of(file_path, '/') {
        Some(ix) => ix + 1,
        None => 0,
    };
    let fname = file_path.substring_char(fstart, len);
    proof {
        assert(fname@ =~= crate::files::file_name_of(file_path@));
        reveal_strlit(".kt");
    }
    let stem = match last_index_of(fname, '.') {
        Some(dix) => fname.substring_char(0, dix),
        None => fname,
    };
    proof {
        assert(stem@ == stem_of(file_path@));
    }
    let renamed = kotlin_class_name(stem.to_owned());
    let mut out = file_path.substring_char(0, fstart).to_owned();
    proof {
        assert(out@ == dir_prefix_of(file_path@));
    }
    out.append(renamed.as_str());
    out.append(".kt");
    proof {
        assert(out@ =~= spec_kotlin_file_path(file_path@));
    }
    out
}

} // verus!
