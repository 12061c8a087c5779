use kotlingen::javaparser::Class as JavaClass;
use kotlingen::javaparser::Field as JavaField;
use kotlingen::javaparser::Import as JavaImport;
use kotlingen::javaparser::InnerClass as JavaInnerClass;
use kotlingen::javaparser::Superclass as JavaSuperclass;
use kotlingen::javaparser::Type as JavaType;

use kotlingen::kotlinprinter::Field as KotlinField;
use kotlingen::kotlinprinter::Import as KotlinImport;
use kotlingen::kotlinprinter::InnerClass as KotlinInnerClass;
use kotlingen::kotlinprinter::KotlinClass;
use kotlingen::kotlinprinter::Superclass as KotlinSuperclass;

use kotlingen::convert::convert;

#[test]
fn test_convert() {
    let java_class = JavaClass {
        package: "somepackage".to_string(),
        name: "TheClass".to_string(),
        imports: vec![
            JavaImport {
                package: "java.math".to_string(),
                class: "BigDecimal".to_string(),
            },
            JavaImport {
                package: "dataclasses".to_string(),
                class: "Door".to_string(),
            },
        ],
        fields: vec![
            JavaField {
                name: "value".to_string(),
                type_ref: JavaType {
                    package: None,
                    class: "Object".to_string(),
                    stdlib: true,
                },
                builtin: true,
                nullable: true,
                ..Default::default()
            },
            JavaField {
                package: "somepackage".to_string(),
                name: "entry".to_string(),
                xml_name: None,
                type_ref: JavaType {
                    package: Some("somepackage".to_string()),
                    class: "TheClass.InnerClass".to_string(),
                    stdlib: false,
                },
                generic_type: Some("List".to_string()),
                builtin: false,
                nullable: true,
            },
        ],
        superclass: Some(JavaSuperclass {
            name: "BLevel".to_string(),
            package: "inheritance.openclasses".to_string(),
            is_abstract: false,
            ..Default::default()
        }),
        inner_classes: vec![JavaInnerClass {
            name: "InnerClass".to_string(),
            fields: vec![
                JavaField {
                    name: "innerclassfield".to_string(),
                    ..Default::default()
                },
                JavaField {
                    type_ref: JavaType {
                        package: Some("javax.xml.datatype".to_string()),
                        class: "XMLGregorianCalendar".to_string(),
                        stdlib: true,
                    },
                    name: "date".to_string(),
                    ..Default::default()
                },
            ],
        }],
        ..Default::default()
    };

    let converted = convert(java_class);

    let expected = KotlinClass {
        package: "somepackage".to_string(),
        imports: vec![
            KotlinImport {
                package: "inheritance.openclasses".to_string(),
                class: "BLevelKt".to_string(),
            },
            KotlinImport {
                package: "javax.xml.datatype".to_string(),
                class: "XMLGregorianCalendar".to_string(),
            },
        ],
        java_name: "TheClass".to_string(),
        kotlin_name: "TheClassKt".to_string(),
        fields: vec![
            KotlinField::new(
                "value",
                "Any".to_string(),
                "",
                "".to_string(),
                "",
                "",
                false,
                true,
                false,
            ),
            KotlinField::new(
                "entry",
                "InnerClassKt".to_string(),
                "List",
                "".to_string(),
                "",
                "",
                true,
                true,
                false,
            ),
        ],
        java_superclass: Some(KotlinSuperclass {
            name: "BLevelKt".to_string(),
            fields: vec![],
        }),
        inner_classes: vec![KotlinInnerClass {
            name: "InnerClass".to_string(),
            fields: vec![
                KotlinField::new(
                    "innerclassfield",
                    "".to_string(),
                    "",
                    "".to_string(),
                    "",
                    "",
                    true,
                    false,
                    false,
                ),
                KotlinField::new(
                    "date",
                    "XMLGregorianCalendar".to_string(),
                    "",
                    "".to_string(),
                    "",
                    "",
                    false,
                    false,
                    false,
                ),
            ],
        }],
        ..Default::default()
    };

    assert_eq!(expected, converted)
}
