use kotlingen::javaparser::{parse_class, Class, Field, Type, Import, Subclass, Function, Argument,
    InnerClass, Superclass, ParseError};

#[test]
fn parse_simple_types() {
    let source = "package misc.a;\n\
\n\
import javax.xml.bind.annotation.XmlElement;\n\
import misc.b.Car;\n\
\n\
public class Types {\n\
\n\
    @XmlElement(name = \"Integer\")\n\
    protected Integer integer;\n\
\n\
    @XmlElement(name = \"Req\", required = true)\n\
    protected Car req;\n\
\n\
    protected int primInt;\n\
\n\
    @XmlElement(name = \"Cars\")\n\
    protected List<Car> cars;\n\
}\n";
    let parsed = parse_class(source).unwrap();
    let expected = Class {
        package: "misc.a".to_string(),
        imports: vec![Import { package: "misc.b".to_string(), class: "Car".to_string() }],
        name: "Types".to_string(),
        fields: vec![
            Field {
                name: "integer".to_string(),
                xml_name: Some("Integer".to_string()),
                package: "misc.a".to_string(),
                type_ref: Type { package: None, class: "Integer".to_string(), stdlib: true },
                generic_type: None,
                builtin: true,
                nullable: true,
            },
            Field {
                name: "req".to_string(),
                xml_name: Some("Req".to_string()),
                package: "misc.a".to_string(),
                type_ref: Type {
                    package: Some("misc.b".to_string()),
                    class: "Car".to_string(),
                    stdlib: false,
                },
                generic_type: None,
                builtin: false,
                nullable: false,
            },
            Field {
                name: "primInt".to_string(),
                xml_name: None,
                package: "misc.a".to_string(),
                type_ref: Type { package: None, class: "int".to_string(), stdlib: true },
                generic_type: None,
                builtin: true,
                nullable: false,
            },
            Field {
                name: "cars".to_string(),
                xml_name: Some("Cars".to_string()),
                package: "misc.a".to_string(),
                type_ref: Type {
                    package: Some("misc.b".to_string()),
                    class: "Car".to_string(),
                    stdlib: false,
                },
                generic_type: Some("List".to_string()),
                builtin: false,
                nullable: true,
            },
        ],
        ..Default::default()
    };
    assert_eq!(parsed, expected);
}

#[test]
fn primitives_and_wrappers() {
    let source = "package misc.a;\n\
\n\
public class Prims {\n\
    protected long primLong;\n\
    protected Long boxedLong;\n\
    protected double primDouble;\n\
    protected Double boxedDouble;\n\
    protected float primFloat;\n\
    protected Float boxedFloat;\n\
    protected short primShort;\n\
    protected Short boxedShort;\n\
    protected boolean primBool;\n\
    protected Boolean boxedBool;\n\
    protected byte[] primByteArray;\n\
    protected Object value;\n\
    protected String text;\n\
}\n";
    let parsed = parse_class(source).unwrap();
    assert_eq!(parsed.fields.len(), 13);
    for f in &parsed.fields {
        assert!(f.builtin, "{} should be builtin", f.name);
        assert_eq!(f.type_ref.package, None);
        assert!(f.type_ref.stdlib);
    }
    let nullables: Vec<bool> = parsed.fields.iter().map(|f| f.nullable).collect();
    assert_eq!(
        nullables,
        vec![
            false, true, false, true, false, true, false, true, false, true, false, true, true,
        ]
    );
}

#[test]
fn required_false_or_other_values_stay_nullable() {
    let source = "package misc.a;\n\
\n\
public class Opts {\n\
\n\
    @XmlElement(name = \"A\", required = false)\n\
    protected Integer a;\n\
\n\
    @XmlElement(name = \"B\", required = maybe)\n\
    protected Integer b;\n\
\n\
    @XmlElement(name = \"C\", required = true)\n\
    protected Integer c;\n\
}\n";
    let parsed = parse_class(source).unwrap();
    assert!(parsed.fields[0].nullable);
    assert!(parsed.fields[1].nullable);
    assert!(!parsed.fields[2].nullable);
}

#[test]
fn binding_name_from_element_ref() {
    let source = "package misc.a;\n\
\n\
public class Refs {\n\
\n\
    @XmlElementRef(name = \"Boxed\")\n\
    protected JAXBElement<String> boxed;\n\
}\n";
    let parsed = parse_class(source).unwrap();
    assert_eq!(parsed.fields[0].xml_name, Some("Boxed".to_string()));
    assert_eq!(parsed.fields[0].generic_type, Some("JAXBElement".to_string()));
    assert_eq!(parsed.fields[0].type_ref.class, "String");
    assert!(parsed.fields[0].nullable);
}

#[test]
fn unparsable_source_is_rejected() {
    assert_eq!(parse_class(""), Err(ParseError::SourceShape));
    assert_eq!(parse_class("package misc.a;\n"), Err(ParseError::SourceShape));
}

#[test]
fn parse_enum() {
    let source = "package misc.a;\n\
\n\
public enum CarBrand {\n\
    VW,\n\
    BMW;\n\
}\n";
    let parsed = parse_class(source).unwrap();
    assert_eq!(parsed.name, "CarBrand");
    assert_eq!(parsed.enum_constants, vec!["VW".to_string(), "BMW".to_string()]);
    assert!(parsed.fields.is_empty());
    assert!(parsed.functions.is_empty());
}

#[test]
fn parse_interface() {
    let source = "package misc.a;\n\
\n\
public interface CarsService {\n\
    public GetCarsResponse getCars(\n\
        @WebParam(name = \"SoapHeader\", header = true) misc.b.HeaderType soapHeader,\n\
        @WebParam(name = \"GetCars\") GetCars getCars);\n\
}\n";
    let parsed = parse_class(source).unwrap();
    assert_eq!(parsed.name, "CarsService");
    assert_eq!(
        parsed.functions,
        vec![Function {
            name: "getCars".to_string(),
            arguments: vec![
                Argument {
                    name: "soapHeader".to_string(),
                    arg_type: "misc.b.HeaderType".to_string(),
                    nullable: true,
                },
                Argument {
                    name: "getCars".to_string(),
                    arg_type: "GetCars".to_string(),
                    nullable: false,
                },
            ],
            return_type: "GetCarsResponse".to_string(),
        }]
    );
}

#[test]
fn parse_subclass_marker() {
    let source = "package misc.a;\n\
\n\
import p1.Car;\n\
\n\
@XmlSeeAlso({Car.class, Bus.class})\n\
public abstract class VehicleType {\n\
    protected int doors;\n\
}\n";
    let parsed = parse_class(source).unwrap();
    assert!(parsed.is_abstract);
    assert_eq!(
        parsed.subclasses,
        vec![
            Subclass { name: "Car".to_string(), package: Some("p1".to_string()) },
            Subclass { name: "Bus".to_string(), package: None },
        ]
    );
}

#[test]
fn qualified_subclass_references_keep_last_two_segments() {
    let source = "package misc.a;\n\
\n\
@XmlSeeAlso({misc.b.Subclass.class, misc.c.Subclass.class, Outer.Inner.class})\n\
public class SuperclassWithSubclassesWithSameName {\n\
}\n";
    let parsed = parse_class(source).unwrap();
    assert_eq!(
        parsed.subclasses,
        vec![
            Subclass { name: "b.Subclass".to_string(), package: None },
            Subclass { name: "c.Subclass".to_string(), package: None },
            Subclass { name: "Outer.Inner".to_string(), package: None },
        ]
    );
}

#[test]
fn parse_superclass_and_inner() {
    let source = "package misc.a;\n\
\n\
public class CLevel extends BLevel {\n\
    protected ALevelWithInner.Inner outer;\n\
\n\
    public static class Inner {\n\
        protected String ia;\n\
    }\n\
}\n";
    let parsed = parse_class(source).unwrap();
    assert_eq!(
        parsed.superclass,
        Some(Superclass { name: "BLevel".to_string(), ..Default::default() })
    );
    assert_eq!(
        parsed.inner_classes,
        vec![InnerClass {
            name: "Inner".to_string(),
            fields: vec![Field {
                name: "ia".to_string(),
                xml_name: None,
                package: "misc.a".to_string(),
                type_ref: Type { package: None, class: "String".to_string(), stdlib: true },
                generic_type: None,
                builtin: true,
                nullable: true,
            }],
        }]
    );
}
