use kotlingen::convert::{convert, convert_fields, kotlin_class_name, title, chunk_fields,
    consolidate_imports, to_path, FIELDS_CHUNKING_LIMIT};
use kotlingen::javaparser::{parse_class, Class as JavaClass, Field as JavaField, Type as JavaType};
use kotlingen::kotlinprinter::{boolean_getter, get_type, get_type_with_default, to_java, from_java,
    shape, Shape, Field as KotlinField, Import as KotlinImport, KotlinClass,
    Superclass as KotlinSuperclass};

#[test]
fn renames_class_names() {
    assert_eq!(kotlin_class_name("CarBrand".to_string()), "CarBrandKt");
    assert_eq!(kotlin_class_name("misc.b.Car".to_string()), "misc.b.CarKt");
    assert_eq!(
        kotlin_class_name("TheClass.InnerClass".to_string()),
        "TheClassKt.InnerClassKt"
    );
    assert_eq!(kotlin_class_name("somepackage".to_string()), "somepackage");
    assert_eq!(kotlin_class_name("".to_string()), "");
}

#[test]
fn titles_names() {
    assert_eq!(title("integer"), "Integer");
    assert_eq!(title("Already"), "Already");
    assert_eq!(title(""), "");
}

#[test]
fn boolean_getter_name() {
    assert_eq!(boolean_getter("bbbbb"), "isBbbbb");
    assert_eq!(boolean_getter("value"), "isValue");
}

#[test]
fn field_snippets() {
    let plain = KotlinField::new(
        "a",
        "Int".to_string(),
        "",
        "".to_string(),
        "",
        "",
        false,
        false,
        false,
    );
    assert_eq!(get_type(&plain), "Int");
    assert_eq!(get_type_with_default(&plain), "Int");
    assert_eq!(to_java(&plain), "a = a");
    assert_eq!(from_java(&plain), "a");

    let boxed = KotlinField::new(
        "aa",
        "WindowKt".to_string(),
        "JAXBElement",
        "createAa".to_string(),
        "ALevelKt",
        "",
        true,
        false,
        false,
    );
    assert_eq!(get_type(&boxed), "WindowKt?");
    assert_eq!(get_type_with_default(&boxed), "WindowKt? = null");
    assert_eq!(
        to_java(&boxed),
        "aa = aa?.let { elem -> ALevelKt.factory.createAa(elem.toJava()) }"
    );
    assert_eq!(
        from_java(&boxed),
        "aa?.value?.let { WindowKt.fromJava(it) as WindowKt }"
    );

    let listed = KotlinField::new(
        "bbbb",
        "String".to_string(),
        "List",
        "".to_string(),
        "",
        "",
        false,
        true,
        false,
    );
    assert_eq!(get_type(&listed), "List<String>");
    assert_eq!(get_type_with_default(&listed), "List<String> = emptyList()");
    assert_eq!(from_java(&listed), "bbbb ?: emptyList()");

    let converting = KotlinField::new(
        "bbb",
        "DoorKt".to_string(),
        "",
        "".to_string(),
        "",
        "",
        true,
        false,
        false,
    );
    assert_eq!(to_java(&converting), "bbb = bbb.toJava()");
    assert_eq!(from_java(&converting), "bbb.let { DoorKt.fromJava(it) as DoorKt }");

    let getter_bool = KotlinField::new(
        "bbbbb",
        "Boolean".to_string(),
        "",
        "".to_string(),
        "",
        "",
        false,
        false,
        true,
    );
    assert_eq!(to_java(&getter_bool), "isBbbbb = bbbbb");
    assert_eq!(from_java(&getter_bool), "isBbbbb");

    let getter_list = KotlinField::new(
        "cars",
        "CarKt".to_string(),
        "List",
        "".to_string(),
        "",
        "",
        true,
        false,
        true,
    );
    assert_eq!(to_java(&getter_list), "cars.addAll(cars.map { elem -> elem.toJava() })");
}

#[test]
fn shape_dispatch_priority() {
    let mut c = KotlinClass::default();
    assert_eq!(shape(&c), Shape::DataClass);
    c.parts = vec![kotlingen::kotlinprinter::Part { fields: vec![] }];
    assert_eq!(shape(&c), Shape::LargeDataClass);
    c.functions = vec![Default::default()];
    assert_eq!(shape(&c), Shape::InterfaceClass);
    c.enum_constants = vec!["A".to_string()];
    assert_eq!(shape(&c), Shape::EnumClass);
    c.java_superclass = Some(KotlinSuperclass::default());
    assert_eq!(shape(&c), Shape::SubclassOf);
    c.subclasses = vec!["B".to_string()];
    assert_eq!(shape(&c), Shape::OpenSuperclass);
    c.is_abstract = true;
    assert_eq!(shape(&c), Shape::AbstractClass);
}

#[test]
fn consolidation_sorts_dedups_and_is_idempotent() {
    let imports = vec![
        KotlinImport { package: "javax.xml.datatype".to_string(), class: "XMLGregorianCalendar".to_string() },
        KotlinImport { package: "dataclasses".to_string(), class: "DoorKt".to_string() },
        KotlinImport { package: "dataclasses".to_string(), class: "DoorKt".to_string() },
        KotlinImport { package: "dataclasses".to_string(), class: "CarKt".to_string() },
    ];
    let once = consolidate_imports(imports);
    assert_eq!(
        once,
        vec![
            KotlinImport { package: "dataclasses".to_string(), class: "CarKt".to_string() },
            KotlinImport { package: "dataclasses".to_string(), class: "DoorKt".to_string() },
            KotlinImport { package: "javax.xml.datatype".to_string(), class: "XMLGregorianCalendar".to_string() },
        ]
    );
    let twice = consolidate_imports(once.clone());
    assert_eq!(once, twice);
}

fn int_field(name: &str) -> JavaField {
    JavaField {
        name: name.to_string(),
        type_ref: JavaType { package: None, class: "Integer".to_string(), stdlib: true },
        builtin: true,
        nullable: true,
        ..Default::default()
    }
}

#[test]
fn chunking_hundred_and_one_fields() {
    let mut java_fields: Vec<JavaField> = Vec::new();
    for i in 0..101 {
        java_fields.push(int_field(&format!("f{}", i)));
    }
    let fields = convert_fields("Big", "pkg", &java_fields, None);
    let parts = chunk_fields(fields, FIELDS_CHUNKING_LIMIT);
    assert_eq!(parts.len(), 3);
    assert_eq!(parts[0].fields.len(), 50);
    assert_eq!(parts[1].fields.len(), 50);
    assert_eq!(parts[2].fields.len(), 1);
    let mut names: Vec<String> = Vec::new();
    for p in &parts {
        for f in &p.fields {
            names.push(f.name.clone());
        }
    }
    let expected: Vec<String> = (0..101).map(|i| format!("f{}", i)).collect();
    assert_eq!(names, expected);

    let big_class = JavaClass {
        package: "pkg".to_string(),
        name: "Big".to_string(),
        fields: java_fields,
        ..Default::default()
    };
    let converted = convert(big_class);
    assert!(converted.fields.is_empty());
    assert_eq!(converted.parts.len(), 3);
    assert_eq!(shape(&converted), Shape::LargeDataClass);
}

#[test]
fn only_plain_data_holders_are_chunked() {
    let java_fields: Vec<JavaField> = (0..101).map(|i| int_field(&format!("f{}", i))).collect();
    let abstract_class = JavaClass {
        package: "pkg".to_string(),
        name: "Big".to_string(),
        fields: java_fields.clone(),
        is_abstract: true,
        ..Default::default()
    };
    let converted = convert(abstract_class);
    assert_eq!(converted.fields.len(), 101);
    assert!(converted.parts.is_empty());
    assert_eq!(shape(&converted), Shape::AbstractClass);

    let with_subclasses = JavaClass {
        package: "pkg".to_string(),
        name: "Big".to_string(),
        fields: java_fields,
        subclasses: vec![kotlingen::javaparser::Subclass {
            name: "Sub".to_string(),
            package: None,
        }],
        ..Default::default()
    };
    let converted = convert(with_subclasses);
    assert_eq!(converted.fields.len(), 101);
    assert!(converted.parts.is_empty());
    assert_eq!(shape(&converted), Shape::OpenSuperclass);
}

#[test]
fn small_class_is_not_chunked() {
    let java_fields: Vec<JavaField> = (0..50).map(|i| int_field(&format!("f{}", i))).collect();
    let converted = convert(JavaClass {
        package: "pkg".to_string(),
        name: "Small".to_string(),
        fields: java_fields,
        ..Default::default()
    });
    assert_eq!(converted.fields.len(), 50);
    assert!(converted.parts.is_empty());
    assert_eq!(shape(&converted), Shape::DataClass);
}

#[test]
fn integer_field_end_to_end() {
    let source = "package misc.a;\n\
\n\
import javax.xml.bind.annotation.XmlElement;\n\
\n\
public class Types {\n\
\n\
    @XmlElement(name = \"Integer\")\n\
    protected Integer integer;\n\
}\n";
    let parsed = parse_class(source).unwrap();
    assert!(parsed.fields[0].builtin);
    let converted = convert(parsed);
    let field = &converted.fields[0];
    assert_eq!(field.name, "integer");
    assert_eq!(field.kotlin_type, "Int");
    assert!(field.nullable);
    assert!(!field.convert);
}

#[test]
fn boxed_field_gets_factory() {
    let java_field = JavaField {
        name: "stringJAXBElement".to_string(),
        xml_name: Some("StringJAXBElement".to_string()),
        package: "dataclasses".to_string(),
        type_ref: JavaType { package: None, class: "String".to_string(), stdlib: true },
        generic_type: Some("JAXBElement".to_string()),
        builtin: true,
        nullable: true,
    };
    let converted = convert_fields("Car", "dataclasses", &vec![java_field], None);
    assert_eq!(converted[0].factory_func, "createCarStringJAXBElement");
    assert_eq!(converted[0].object_factory_class, "CarKt");
    assert_eq!(converted[0].object_factory_package, "dataclasses");
}

#[test]
fn to_path_splits_packages() {
    let imp = kotlingen::javaparser::Import {
        package: "inheritance.openclasses".to_string(),
        class: "BLevel".to_string(),
    };
    assert_eq!(to_path(&imp), "inheritance/openclasses");
}
