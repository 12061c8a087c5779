use kotlingen::convert::{resolve_step, fields_from_superclass, apply_superclass, superclass_path,
    kotlin_file_path};
use kotlingen::files::{is_class, find_classes};
use kotlingen::javaparser::{parse_class, Class, Field, Import, Superclass, Type};

fn named_field(name: &str) -> Field {
    Field {
        name: name.to_string(),
        type_ref: Type { package: None, class: "int".to_string(), stdlib: true },
        builtin: true,
        nullable: false,
        ..Default::default()
    }
}

#[test]
fn three_level_chain_merges_oldest_first() {
    let g_import = Import { package: "ext.g".to_string(), class: "GBase".to_string() };
    let p_import = Import { package: "ext.p".to_string(), class: "PBase".to_string() };

    let grandparent = Class {
        package: "p".to_string(),
        name: "Grandparent".to_string(),
        imports: vec![g_import.clone()],
        fields: vec![named_field("g1"), named_field("g2")],
        superclass: None,
        ..Default::default()
    };
    let merged_grandparent = fields_from_superclass(grandparent);
    assert_eq!(merged_grandparent.name, "Grandparent");
    assert_eq!(merged_grandparent.imports, vec![g_import.clone()]);

    let parent = Class {
        package: "p".to_string(),
        name: "Parent".to_string(),
        imports: vec![p_import.clone()],
        fields: vec![named_field("p1")],
        ..Default::default()
    };
    let parent = apply_superclass(parent, merged_grandparent);
    assert_eq!(parent.imports, vec![p_import.clone()]);
    let merged_parent = fields_from_superclass(parent);
    assert_eq!(merged_parent.name, "Parent");
    let names: Vec<&str> = merged_parent.fields.iter().map(|f| f.name.as_str()).collect();
    assert_eq!(names, vec!["g1", "g2", "p1"]);
    assert_eq!(merged_parent.imports, vec![g_import, p_import]);

    let child = Class {
        package: "p".to_string(),
        name: "Child".to_string(),
        superclass: Some(Superclass { name: "Parent".to_string(), ..Default::default() }),
        ..Default::default()
    };
    let resolved = apply_superclass(child, merged_parent);
    let sup = resolved.superclass.unwrap();
    let names: Vec<&str> = sup.fields.iter().map(|f| f.name.as_str()).collect();
    assert_eq!(names, vec!["g1", "g2", "p1"]);
}

#[test]
fn sentinel_superclass_is_skipped() {
    let source = "package misc.a;\n\
\n\
public class MyFault extends Exception {\n\
    protected String message;\n\
}\n";
    let parsed = parse_class(source).unwrap();
    assert!(!parsed.skip);
    let (resolved, need) = resolve_step(parsed);
    assert!(resolved.skip);
    assert!(need.is_none());

    let service = Class {
        package: "p".to_string(),
        name: "CarsPort".to_string(),
        superclass: Some(Superclass { name: "Service".to_string(), ..Default::default() }),
        ..Default::default()
    };
    let (resolved, need) = resolve_step(service);
    assert!(resolved.skip);
    assert!(need.is_none());
}

#[test]
fn ordinary_superclass_is_resolved() {
    let c = Class {
        package: "p".to_string(),
        name: "CLevel".to_string(),
        superclass: Some(Superclass { name: "BLevel".to_string(), ..Default::default() }),
        ..Default::default()
    };
    let (unchanged, need) = resolve_step(c);
    assert!(!unchanged.skip);
    assert_eq!(need, Some("BLevel".to_string()));
}

#[test]
fn superclass_path_through_imports() {
    let imports = vec![Import {
        package: "misc.b".to_string(),
        class: "BLevel".to_string(),
    }];
    assert_eq!(
        superclass_path("misc/a/CLevel.java", "BLevel", &imports),
        "misc/b/BLevel.java"
    );
    let no_imports: Vec<Import> = vec![];
    assert_eq!(
        superclass_path("misc/a/CLevel.java", "BLevel", &no_imports),
        "misc/a/BLevel.java"
    );
}

#[test]
fn kotlin_file_path_renames_stem() {
    assert_eq!(kotlin_file_path("misc/a/Car.java"), "misc/a/CarKt.kt");
    assert_eq!(kotlin_file_path("Car.java"), "CarKt.kt");
}

#[test]
fn class_file_selection() {
    assert!(is_class("gen/misc/Car.java"));
    assert!(!is_class("gen/misc/package-info.java"));
    assert!(!is_class("gen/misc/ObjectFactory.java"));
    assert!(!is_class("gen/misc/Car.kt"));
    assert!(!is_class("gen/misc/.java"));

    let paths = vec![
        "gen/misc/Car.java".to_string(),
        "gen/misc/ObjectFactory.java".to_string(),
        "gen/misc/Bus.java".to_string(),
    ];
    assert_eq!(
        find_classes(&paths),
        vec!["gen/misc/Car.java".to_string(), "gen/misc/Bus.java".to_string()]
    );
}
