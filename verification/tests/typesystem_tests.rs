use rusty::ast::Dimension;
use rusty::typesystem::{
    get_bigger_type, get_builtin_types, get_lreal_type, get_rank, get_real_type,
    is_same_type_nature, new_string_information, DataType, DataTypeInformation,
    DEFAULT_STRING_LEN,
};

fn builtin(name: &str) -> DataTypeInformation {
    get_builtin_types()
        .into_iter()
        .find(|it| it.get_name() == name)
        .map(|it| it.clone_type_information())
        .unwrap()
}

fn integer(name: &str, signed: bool, size: u32) -> DataTypeInformation {
    DataTypeInformation::Integer { name: name.to_string(), signed, size }
}

fn float(name: &str, size: u32) -> DataTypeInformation {
    DataTypeInformation::Float { name: name.to_string(), size }
}

fn array() -> DataTypeInformation {
    DataTypeInformation::Array {
        name: "field".to_string(),
        inner_type_name: "INT".to_string(),
        dimensions: vec![Dimension { start_offset: 0, end_offset: 9 }],
    }
}

#[test]
fn the_catalog_holds_the_scalar_types_in_their_order() {
    let types = get_builtin_types();
    let names: Vec<&str> = types.iter().map(|it| it.get_name()).collect();
    assert_eq!(
        names,
        vec![
            "__VOID", "BOOL", "BYTE", "SINT", "USINT", "WORD", "INT", "UINT", "DWORD", "DINT",
            "UDINT", "LWORD", "LINT", "ULINT", "REAL", "LREAL", "STRING"
        ]
    );
    assert!(types.iter().all(|it| it.initial_value.is_none()));
    assert_eq!(builtin("__VOID"), DataTypeInformation::Void);
    assert_eq!(builtin("BOOL"), integer("BOOL", true, 1));
    assert_eq!(builtin("BYTE"), integer("BYTE", false, 8));
    assert_eq!(builtin("SINT"), integer("SINT", true, 8));
    assert_eq!(builtin("USINT"), integer("USINT", false, 8));
    assert_eq!(builtin("WORD"), integer("WORD", false, 16));
    assert_eq!(builtin("INT"), integer("INT", true, 16));
    assert_eq!(builtin("UINT"), integer("UINT", false, 16));
    assert_eq!(builtin("DWORD"), integer("DWORD", false, 32));
    assert_eq!(builtin("DINT"), integer("DINT", true, 32));
    assert_eq!(builtin("UDINT"), integer("UDINT", false, 32));
    assert_eq!(builtin("LWORD"), integer("LWORD", false, 64));
    assert_eq!(builtin("LINT"), integer("LINT", true, 64));
    assert_eq!(builtin("ULINT"), integer("ULINT", false, 64));
    assert_eq!(builtin("REAL"), float("REAL", 32));
    assert_eq!(builtin("LREAL"), float("LREAL", 64));
    assert_eq!(builtin("STRING"), DataTypeInformation::String { size: 81 });
}

#[test]
fn a_data_type_hands_out_what_it_holds() {
    let data_type = DataType {
        name: "MY_INT".to_string(),
        initial_value: None,
        information: integer("INT", true, 16),
    };
    assert_eq!(data_type.get_name(), "MY_INT");
    assert_eq!(data_type.get_type_information(), &integer("INT", true, 16));
    assert_eq!(data_type.clone_type_information(), integer("INT", true, 16));
}

#[test]
fn cloned_information_is_equal_for_every_kind() {
    let kinds = vec![
        DataTypeInformation::Struct {
            name: "point".to_string(),
            member_names: vec!["x".to_string(), "y".to_string()],
        },
        array(),
        integer("INT", true, 16),
        float("REAL", 32),
        DataTypeInformation::String { size: 81 },
        DataTypeInformation::Alias { name: "speed".to_string(), referenced_type: "INT".to_string() },
        DataTypeInformation::Void,
    ];
    for kind in kinds {
        assert_eq!(kind.clone(), kind);
    }
}

#[test]
fn the_name_of_a_string_and_of_void_is_fixed() {
    assert_eq!(builtin("STRING").get_name(), "String");
    assert_eq!(builtin("__VOID").get_name(), "Void");
    assert_eq!(builtin("INT").get_name(), "INT");
    assert_eq!(builtin("LREAL").get_name(), "LREAL");
    assert_eq!(array().get_name(), "field");
    let alias =
        DataTypeInformation::Alias { name: "speed".to_string(), referenced_type: "INT".to_string() };
    assert_eq!(alias.get_name(), "speed");
    let point = DataTypeInformation::Struct { name: "point".to_string(), member_names: vec![] };
    assert_eq!(point.get_name(), "point");
}

#[test]
fn the_predicates_tell_integers_and_floats_apart() {
    assert!(builtin("INT").is_int());
    assert!(!builtin("INT").is_float());
    assert!(builtin("INT").is_numerical());
    assert!(builtin("BOOL").is_int());
    assert!(builtin("REAL").is_float());
    assert!(!builtin("REAL").is_int());
    assert!(builtin("REAL").is_numerical());
    assert!(!builtin("STRING").is_int());
    assert!(!builtin("STRING").is_float());
    assert!(!builtin("STRING").is_numerical());
    assert!(!builtin("__VOID").is_numerical());
    assert!(!array().is_numerical());
}

#[test]
fn the_size_is_that_of_the_kind() {
    assert_eq!(builtin("BOOL").get_size(), 1);
    assert_eq!(builtin("INT").get_size(), 16);
    assert_eq!(builtin("ULINT").get_size(), 64);
    assert_eq!(builtin("REAL").get_size(), 32);
    assert_eq!(builtin("LREAL").get_size(), 64);
    assert_eq!(builtin("STRING").get_size(), 81);
    assert_eq!(builtin("__VOID").get_size(), 0);
    let point = DataTypeInformation::Struct { name: "point".to_string(), member_names: vec![] };
    assert_eq!(point.get_size(), 0);
}

#[test]
fn a_string_has_room_for_its_terminator() {
    assert_eq!(new_string_information(80), DataTypeInformation::String { size: 81 });
    assert_eq!(new_string_information(0), DataTypeInformation::String { size: 1 });
    assert_eq!(
        new_string_information(DEFAULT_STRING_LEN),
        builtin("STRING")
    );
    assert_eq!(
        new_string_information(u32::MAX - 1),
        DataTypeInformation::String { size: u32::MAX }
    );
}

#[test]
fn the_rank_is_the_size_with_one_for_the_sign_and_a_thousand_for_a_float() {
    assert_eq!(get_rank(&builtin("INT")), 17);
    assert_eq!(get_rank(&builtin("UINT")), 16);
    assert_eq!(get_rank(&builtin("BOOL")), 2);
    assert_eq!(get_rank(&builtin("ULINT")), 64);
    assert_eq!(get_rank(&builtin("REAL")), 1032);
    assert_eq!(get_rank(&builtin("LREAL")), 1064);
    assert_eq!(get_rank(&integer("huge", true, u32::MAX)), 4294967296);
    assert_eq!(get_rank(&float("huge", u32::MAX)), 4294968295);
}

#[test]
fn two_types_are_of_one_nature_when_both_are_integers_or_both_are_floats() {
    assert!(is_same_type_nature(&builtin("INT"), &builtin("DINT")));
    assert!(is_same_type_nature(&builtin("REAL"), &builtin("LREAL")));
    assert!(!is_same_type_nature(&builtin("INT"), &builtin("REAL")));
    assert!(!is_same_type_nature(&builtin("REAL"), &builtin("INT")));
    assert!(!is_same_type_nature(&builtin("STRING"), &builtin("STRING")));
    assert!(!is_same_type_nature(&builtin("INT"), &builtin("STRING")));
}

#[test]
fn the_two_floats_are_real_and_lreal() {
    assert_eq!(get_real_type(), float("REAL", 32));
    assert_eq!(get_lreal_type(), float("LREAL", 64));
}

#[test]
fn the_bigger_type_of_int_and_real_is_real() {
    assert_eq!(get_bigger_type(&builtin("INT"), &builtin("REAL")), builtin("REAL"));
    assert_eq!(get_bigger_type(&builtin("REAL"), &builtin("INT")), builtin("REAL"));
    assert_eq!(get_bigger_type(&builtin("DINT"), &builtin("REAL")), builtin("REAL"));
}

#[test]
fn the_bigger_type_of_lint_and_real_is_lreal() {
    assert_eq!(get_bigger_type(&builtin("LINT"), &builtin("REAL")), builtin("LREAL"));
    assert_eq!(get_bigger_type(&builtin("REAL"), &builtin("ULINT")), builtin("LREAL"));
    assert_eq!(get_bigger_type(&builtin("INT"), &builtin("LREAL")), builtin("LREAL"));
    assert_eq!(get_bigger_type(&builtin("STRING"), &builtin("INT")), builtin("LREAL"));
}

#[test]
fn the_bigger_type_of_int_and_dint_is_dint() {
    assert_eq!(get_bigger_type(&builtin("INT"), &builtin("DINT")), builtin("DINT"));
    assert_eq!(get_bigger_type(&builtin("DINT"), &builtin("INT")), builtin("DINT"));
    assert_eq!(get_bigger_type(&builtin("REAL"), &builtin("LREAL")), builtin("LREAL"));
    assert_eq!(get_bigger_type(&builtin("LREAL"), &builtin("REAL")), builtin("LREAL"));
}

#[test]
fn of_two_integers_of_one_size_the_signed_one_is_bigger() {
    assert_eq!(get_bigger_type(&builtin("UINT"), &builtin("INT")), builtin("INT"));
    assert_eq!(get_bigger_type(&builtin("INT"), &builtin("UINT")), builtin("INT"));
}

#[test]
fn of_two_types_of_one_rank_the_left_one_is_taken() {
    assert_eq!(get_bigger_type(&builtin("WORD"), &builtin("UINT")), builtin("WORD"));
    assert_eq!(get_bigger_type(&builtin("UINT"), &builtin("WORD")), builtin("UINT"));
    assert_eq!(get_bigger_type(&array(), &array()), builtin("REAL"));
}
