//! The generation model: a declaration mapped into target-idiomatic form,
//! plus the per-field accessor and conversion snippets that the emitter
//! interpolates into its templates.

use vstd::prelude::*;
use crate::strutil::{str_eq, upper_char, upper_str_of};

verus! {

/// One generation-ready declaration.
#[derive(Clone, Debug, PartialEq, Default)]
pub struct KotlinClass {
    pub kotlin_name: String,
    pub java_name: String,
    pub package: String,
    pub fields: Vec<Field>,
    pub parts: Vec<Part>,
    pub java_superclass: Option<Superclass>,
    pub functions: Vec<Function>,
    pub is_abstract: bool,
    pub subclasses: Vec<String>,
    pub imports: Vec<Import>,
    pub enum_constants: Vec<String>,
    pub inner_classes: Vec<InnerClass>,
}

/// One fixed-size group of fields, used when a class's own field count
/// exceeds the chunking threshold.
#[derive(Clone, Debug, PartialEq, Default)]
pub struct Part {
    pub fields: Vec<Field>,
}

/// A nested declaration of the generation model.
#[derive(Clone, Debug, PartialEq, Default)]
pub struct InnerClass {
    pub name: String,
    pub fields: Vec<Field>,
}

/// One import of the generated unit; unique by the (package, class) pair.
#[derive(Clone, Debug, PartialEq, Eq, PartialOrd, Ord, Default)]
pub struct Import {
    pub package: String,
    pub class: String,
}

/// One generated service method.
#[derive(Clone, Debug, PartialEq, Default)]
pub struct Function {
    pub name: String,
    pub arguments: Vec<Arg>,
    pub return_type: String,
}

/// One parameter of a generated service method.
#[derive(Clone, Debug, PartialEq, Default)]
pub struct Arg {
    pub name: String,
    pub t: String,
    pub nullable: bool,
}

/// The resolved superclass of a generated declaration.
#[derive(Clone, Debug, PartialEq, Default)]
pub struct Superclass {
    pub name: String,
    pub fields: Vec<Field>,
}

/// One generated field with its conversion flags.
#[derive(Clone, Debug, PartialEq, Default)]
pub struct Field {
    pub name: String,
    pub kotlin_type: String,
    pub generic_type: String,
    pub factory_func: String,
    pub object_factory_class: String,
    pub object_factory_package: String,
    pub convert: bool,
    pub nullable: bool,
    pub use_getter: bool,
}

impl Field {
    /// Builds a field from its parts.
    pub fn new(
        name: &str,
        kotlin_type: String,
        generic_type: &str,
        factory_func: String,
        object_factory_class: &str,
        object_factory_package: &str,
        convert: bool,
        nullable: bool,
        use_getter: bool,
    ) -> (r: Field)
        ensures
            r.name@ == name@,
            r.kotlin_type == kotlin_type,
            r.generic_type@ == generic_type@,
            r.factory_func == factory_func,
            r.object_factory_class@ == object_factory_class@,
            r.object_factory_package@ == object_factory_package@,
            r.convert == convert,
            r.nullable == nullable,
            r.use_getter == use_getter,
    {
        Field {
            name: name.to_owned(),
            kotlin_type,
            generic_type: generic_type.to_owned(),
            factory_func,
            object_factory_class: object_factory_class.to_owned(),
            object_factory_package: object_factory_package.to_owned(),
            convert,
            nullable,
            use_getter,
        }
    }
}

/// The name of the generated boolean getter for a field: `is` and the
/// field's name with its first character uppercased.
pub open spec fn spec_boolean_getter(name: Seq<char>) -> Seq<char> {
    if name.len() == 0 {
        "is"@
    } else {
        "is"@ + seq![upper_char(name[0])] + name.skip(1)
    }
}

/// Builds the boolean getter name for a field.
pub fn boolean_getter(variable_name: &str) -> (r: String)
    ensures
        r@ == spec_boolean_getter(variable_name@),
{
    let len = variable_name.unicode_len();
    if len == 0 {
        proof {
            reveal_strlit("is");
        }
        return "is".to_owned();
    }
    let c = variable_name.get_char(0);
    let mut s = "is".to_owned();
    match upper_str_of(c) {
        Some(u) => {
            s.append(u);
        },
        None => {
            let first = variable_name.substring_char(0, 1);
            proof {
                assert(first@ =~= seq![variable_name@[0]]);
            }
            s.append(first);
        },
    }
    let rest = variable_name.substring_char(1, len);
    s.append(rest);
    proof {
        assert(rest@ =~= variable_name@.skip(1));
        assert(s@ =~= spec_boolean_getter(variable_name@));
    }
    s
}

/// The type expression of a field: nullable scalars and boxed elements get
/// a `?`, wrapped types are written as applications of their wrapper.
pub open spec fn spec_get_type(f: Field) -> Seq<char> {
    if f.generic_type@ == "JAXBElement"@ || (f.nullable && f.generic_type@.len() == 0) {
        f.kotlin_type@ + "?"@
    } else if f.generic_type@.len() != 0 {
        f.generic_type@ + "<"@ + f.kotlin_type@ + ">"@
    } else {
        f.kotlin_type@
    }
}

/// Builds a field's type expression.
pub fn get_type(f: &Field) -> (r: String)
    ensures
        r@ == spec_get_type(*f),
{
    if str_eq(f.generic_type.as_str(), "JAXBElement") || (f.nullable
        && f.generic_type.as_str().unicode_len() == 0) {
        let mut s = f.kotlin_type.clone();
        s.append("?");
        proof {
            assert(s@ =~= spec_get_type(*f));
        }
        s
    } else if f.generic_type.as_str().unicode_len() != 0 {
        let mut s = f.generic_type.clone();
        s.append("<");
        s.append(f.kotlin_type.as_str());
        s.append(">");
        proof {
            assert(s@ =~= spec_get_type(*f));
        }
        s
    } else {
        f.kotlin_type.clone()
    }
}

/// The type expression of a field in a constructor, with its default:
/// nullable scalars and boxed elements default to `null`, wrapped types to
/// an empty wrapper.
pub open spec fn spec_get_type_with_default(f: Field) -> Seq<char> {
    if f.generic_type@ == "JAXBElement"@ || (f.nullable && f.generic_type@.len() == 0) {
        f.kotlin_type@ + "? = null"@
    } else if f.generic_type@.len() != 0 {
        f.generic_type@ + "<"@ + f.kotlin_type@ + "> = empty"@ + f.generic_type@ + "()"@
    } else {
        f.kotlin_type@
    }
}

/// Builds a field's defaulted type expression.
pub fn get_type_with_default(f: &Field) -> (r: String)
    ensures
        r@ == spec_get_type_with_default(*f),
{
    if str_eq(f.generic_type.as_str(), "JAXBElement") || (f.nullable
        && f.generic_type.as_str().unicode_len() == 0) {
        let mut s = f.kotlin_type.clone();
        s.append("? = null");
        proof {
            assert(s@ =~= spec_get_type_with_default(*f));
        }
        s
    } else if f.generic_type.as_str().unicode_len() != 0 {
        let mut s = f.generic_type.clone();
        s.append("<");
        s.append(f.kotlin_type.as_str());
        s.append("> = empty");
        s.append(f.generic_type.as_str());
        s.append("()");
        proof {
            assert(s@ =~= spec_get_type_with_default(*f));
        }
        s
    } else {
        f.kotlin_type.clone()
    }
}

/// The assignment that copies a field into the original representation:
/// boxed elements go through their factory, converting fields map or call
/// into their wrappers, inherited collections and boolean getters use the
/// original accessors.
pub open spec fn spec_to_java(f: Field) -> Seq<char> {
    if f.generic_type@ == "JAXBElement"@ {
        if f.convert {
            f.name@ + " = "@ + f.name@ + "?.let { elem -> "@ + f.object_factory_class@
                + ".factory."@ + f.factory_func@ + "(elem.toJava()) }"@
        } else {
            f.name@ + " = "@ + f.object_factory_class@ + ".factory."@ + f.factory_func@ + "("@
                + f.name@ + ")"@
        }
    } else if f.convert {
        if f.generic_type@.len() != 0 {
            if f.use_getter {
                f.name@ + ".addAll("@ + f.name@ + ".map { elem -> elem.toJava() })"@
            } else {
                f.name@ + " = "@ + f.name@ + ".map { elem -> elem.toJava() }"@
            }
        } else {
            if f.nullable {
                f.name@ + " = "@ + f.name@ + "?.toJava()"@
            } else {
                f.name@ + " = "@ + f.name@ + ".toJava()"@
            }
        }
    } else {
        if f.use_getter && f.generic_type@.len() != 0 {
            f.name@ + ".addAll("@ + f.name@ + ")"@
        } else if f.use_getter && f.generic_type@.len() == 0 && f.kotlin_type@ == "Boolean"@ {
            spec_boolean_getter(f.name@) + " = "@ + f.name@
        } else {
            f.name@ + " = "@ + f.name@
        }
    }
}

/// Builds the to-original assignment snippet for a field.
pub fn to_java(f: &Field) -> (r: String)
    ensures
        r@ == spec_to_java(*f),
{
    if str_eq(f.generic_type.as_str(), "JAXBElement") {
        if f.convert {
            let mut s = f.name.clone();
            s.append(" = ");
            s.append(f.name.as_str());
            s.append("?.let { elem -> ");
            s.append(f.object_factory_class.as_str());
            s.append(".factory.");
            s.append(f.factory_func.as_str());
            s.append("(elem.toJava()) }");
            proof {
                assert(s@ =~= spec_to_java(*f));
            }
            s
        } else {
            let mut s = f.name.clone();
            s.append(" = ");
            s.append(f.object_factory_class.as_str());
            s.append(".factory.");
            s.append(f.factory_func.as_str());
            s.append("(");
            s.append(f.name.as_str());
            s.append(")");
            proof {
                assert(s@ =~= spec_to_java(*f));
            }
            s
        }
    } else if f.convert {
        if f.generic_type.as_str().unicode_len() != 0 {
            if f.use_getter {
                let mut s = f.name.clone();
                s.append(".addAll(");
                s.append(f.name.as_str());
                s.append(".map { elem -> elem.toJava() })");
                proof {
                    assert(s@ =~= spec_to_java(*f));
                }
                s
            } else {
                let mut s = f.name.clone();
                s.append(" = ");
                s.append(f.name.as_str());
                s.append(".map { elem -> elem.toJava() }");
                proof {
                    assert(s@ =~= spec_to_java(*f));
                }
                s
            }
        } else {
            if f.nullable {
                let mut s = f.name.clone();
                s.append(" = ");
                s.append(f.name.as_str());
                s.append("?.toJava()");
                proof {
                    assert(s@ =~= spec_to_java(*f));
                }
                s
            } else {
                let mut s = f.name.clone();
                s.append(" = ");
                s.append(f.name.as_str());
                s.append(".toJava()");
                proof {
                    assert(s@ =~= spec_to_java(*f));
                }
                s
            }
        }
    } else {
        if f.use_getter && f.generic_type.as_str().unicode_len() != 0 {
            let mut s = f.name.clone();
            s.append(".addAll(");
            s.append(f.name.as_str());
            s.append(")");
            proof {
                assert(s@ =~= spec_to_java(*f));
            }
            s
        } else if f.use_getter && f.generic_type.as_str().unicode_len() == 0 && str_eq(
            f.kotlin_type.as_str(),
            "Boolean",
        ) {
            let mut s = boolean_getter(f.name.as_str());
            s.append(" = ");
            s.append(f.name.as_str());
            proof {
                assert(s@ =~= spec_to_java(*f));
            }
            s
        } else {
            let mut s = f.name.clone();
            s.append(" = ");
            s.append(f.name.as_str());
            proof {
                assert(s@ =~= spec_to_java(*f));
            }
            s
        }
    }
}

/// The expression that reads a field out of the original representation:
/// boxed elements unwrap their value, converting fields map or call their
/// `fromJava`, absent collections fall back to an empty wrapper, boolean
/// getters use the original accessor.
pub open spec fn spec_from_java(f: Field) -> Seq<char> {
    if f.generic_type@ == "JAXBElement"@ {
        if f.convert {
            f.name@ + "?.value?.let { "@ + f.kotlin_type@ + ".fromJava(it) as "@ + f.kotlin_type@
                + " }"@
        } else {
            f.name@ + "?.value"@
        }
    } else if f.convert {
        if f.generic_type@.len() != 0 {
            f.name@ + "?.map { "@ + f.kotlin_type@ + ".fromJava(it) as "@ + f.kotlin_type@
                + " } ?: empty"@ + f.generic_type@ + "()"@
        } else {
            if f.nullable {
                f.name@ + "?.let { "@ + f.kotlin_type@ + ".fromJava(it) as "@ + f.kotlin_type@ + " }"@
            } else {
                f.name@ + ".let { "@ + f.kotlin_type@ + ".fromJava(it) as "@ + f.kotlin_type@ + " }"@
            }
        }
    } else {
        if f.generic_type@.len() != 0 && f.nullable && !f.use_getter {
            f.name@ + " ?: empty"@ + f.generic_type@ + "()"@
        } else if f.use_getter && f.generic_type@.len() == 0 && f.kotlin_type@ == "Boolean"@ {
            spec_boolean_getter(f.name@)
        } else {
            f.name@
        }
    }
}

/// Builds the from-original expression snippet for a field.
pub fn from_java(f: &Field) -> (r: String)
    ensures
        r@ == spec_from_java(*f),
{
    if str_eq(f.generic_type.as_str(), "JAXBElement") {
        if f.convert {
            let mut s = f.name.clone();
            s.append("?.value?.let { ");
            s.append(f.kotlin_type.as_str());
            s.append(".fromJava(it) as ");
            s.append(f.kotlin_type.as_str());
            s.append(" }");
            proof {
                assert(s@ =~= spec_from_java(*f));
            }
            s
        } else {
            let mut s = f.name.clone();
            s.append("?.value");
            proof {
                assert(s@ =~= spec_from_java(*f));
            }
            s
        }
    } else if f.convert {
        if f.generic_type.as_str().unicode_len() != 0 {
            let mut s = f.name.clone();
            s.append("?.map { ");
            s.append(f.kotlin_type.as_str());
            s.append(".fromJava(it) as ");
            s.append(f.kotlin_type.as_str());
            s.append(" } ?: empty");
            s.append(f.generic_type.as_str());
            s.append("()");
            proof {
                assert(s@ =~= spec_from_java(*f));
            }
            s
        } else {
            if f.nullable {
                let mut s = f.name.clone();
                s.append("?.let { ");
                s.append(f.kotlin_type.as_str());
                s.append(".fromJava(it) as ");
                s.append(f.kotlin_type.as_str());
                s.append(" }");
                proof {
                    assert(s@ =~= spec_from_java(*f));
                }
                s
            } else {
                let mut s = f.name.clone();
                s.append(".let { ");
                s.append(f.kotlin_type.as_str());
                s.append(".fromJava(it) as ");
                s.append(f.kotlin_type.as_str());
                s.append(" }");
                proof {
                    assert(s@ =~= spec_from_java(*f));
                }
                s
            }
        }
    } else {
        if f.generic_type.as_str().unicode_len() != 0 && f.nullable && !f.use_getter {
            let mut s = f.name.clone();
            s.append(" ?: empty");
            s.append(f.generic_type.as_str());
            s.append("()");
            proof {
                assert(s@ =~= spec_from_java(*f));
            }
            s
        } else if f.use_getter && f.generic_type.as_str().unicode_len() == 0 && str_eq(
            f.kotlin_type.as_str(),
            "Boolean",
        ) {
            boolean_getter(f.name.as_str())
        } else {
            f.name.clone()
        }
    }
}

/// The seven mutually exclusive generation strategies.
#[derive(Clone, Copy, Debug, PartialEq, Eq)]
pub enum Shape {
    AbstractClass,
    OpenSuperclass,
    SubclassOf,
    EnumClass,
    InterfaceClass,
    LargeDataClass,
    DataClass,
}

/// The shape a declaration is emitted with, decided in priority order:
/// abstract, open superclass, subclass, enum, interface, chunked data
/// class, plain data class.
pub open spec fn spec_shape(c: KotlinClass) -> Shape {
    if c.is_abstract {
        Shape::AbstractClass
    } else if c.subclasses@.len() != 0 {
        Shape::OpenSuperclass
    } else if c.java_superclass is Some {
        Shape::SubclassOf
    } else if c.enum_constants@.len() != 0 {
        Shape::EnumClass
    } else if c.functions@.len() != 0 {
        Shape::InterfaceClass
    } else if c.parts@.len() != 0 {
        Shape::LargeDataClass
    } else {
        Shape::DataClass
    }
}

/// Classifies a declaration into its generation strategy.
pub fn shape(c: &KotlinClass) -> (r: Shape)
    ensures
        r == spec_shape(*c),
{
    if c.is_abstract {
        Shape::AbstractClass
    } else if c.subclasses.len() != 0 {
        Shape::OpenSuperclass
    } else if c.java_superclass.is_some() {
        Shape::SubclassOf
    } else if c.enum_constants.len() != 0 {
        Shape::EnumClass
    } else if c.functions.len() != 0 {
        Shape::InterfaceClass
    } else if c.parts.len() != 0 {
        Shape::LargeDataClass
    } else {
        Shape::DataClass
    }
}

} // verus!
