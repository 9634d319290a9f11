use yy_boss::object_events::{
    add_event, default_object_code, event_code_files, event_entries, event_of_key,
    files_to_remove, files_to_write, object_code_from_data, object_code_from_json, object_code_json,
    remove_event,
    select_object_code, ObjectCodeError, PathContents, SerializedData,
};
use yy_boss::StringMap;

fn s(text: &str) -> String {
    text.to_string()
}

fn events() -> Vec<String> {
    vec![s("Create_0"), s("Step_0")]
}

#[test]
fn event_keys_name_events() {
    assert_eq!(event_of_key("Create_0"), Some(s("Create_0")));
    assert_eq!(event_of_key("Alarm_3"), Some(s("Alarm_3")));
    assert_eq!(event_of_key("Draw_64"), Some(s("Draw_64")));
    assert_eq!(event_of_key("Other_10"), Some(s("Other_10")));
    // the number is read as a number
    assert_eq!(event_of_key("Create_00"), Some(s("Create_0")));
    assert_eq!(event_of_key("Alarm_+3"), Some(s("Alarm_3")));
    // a number that cannot be read counts as 0
    assert_eq!(event_of_key("Create_x"), Some(s("Create_0")));
    assert_eq!(event_of_key("Create_"), Some(s("Create_0")));
    // keys that name no event
    assert_eq!(event_of_key("Create"), None);
    assert_eq!(event_of_key("Create_0_1"), None);
    assert_eq!(event_of_key("Bogus_0"), None);
    assert_eq!(event_of_key("Alarm_12"), None);
    assert_eq!(event_of_key("Create_1"), None);
}

#[test]
fn object_code_from_a_json_map() {
    let text = r#"{"Step_0": "step", "Draw_0": "draw", "Create_0": "create"}"#;
    let code = object_code_from_json(&events(), text).unwrap().unwrap();
    assert_eq!(code.len(), 2);
    assert_eq!(code.get("Create_0"), Some(&s("create")));
    assert_eq!(code.get("Step_0"), Some(&s("step")));
    assert_eq!(code.get("Draw_0"), None);
}

#[test]
fn object_code_reports_the_first_missing_event() {
    let text = r#"{"Draw_0": "draw"}"#;
    assert!(matches!(
        object_code_from_json(&events(), text),
        Some(Err(ObjectCodeError::MissingEvent(name))) if name == "Create_0"
    ));
    let text = r#"{"Create_0": "create"}"#;
    assert!(matches!(
        object_code_from_json(&events(), text),
        Some(Err(ObjectCodeError::MissingEvent(name))) if name == "Step_0"
    ));
}

#[test]
fn object_code_refuses_bad_json() {
    assert!(matches!(
        object_code_from_json(&events(), "[1, 2]"),
        Some(Err(ObjectCodeError::BadJson(_)))
    ));
    assert!(matches!(
        object_code_from_json(&events(), r#"{"Create_0": 1}"#),
        Some(Err(ObjectCodeError::BadJson(_)))
    ));
}

#[test]
fn object_code_with_a_key_that_names_no_event() {
    assert!(object_code_from_json(&events(), r#"{"Nope_0": "x"}"#).is_none());
    let entries = vec![(s("Create_0"), s("a")), (s("Create"), s("b"))];
    assert_eq!(event_entries(&entries), None);
}

#[test]
fn later_entries_win() {
    let entries = vec![
        (s("Create_0"), s("first")),
        (s("Step_0"), s("step")),
        (s("Create_0"), s("second")),
    ];
    let code = select_object_code(&events(), &entries).unwrap();
    assert_eq!(code.get("Create_0"), Some(&s("second")));
}

#[test]
fn object_code_from_each_kind_of_data() {
    let value = SerializedData::Value { data: s(r#"{"Create_0": "a", "Step_0": "b"}"#) };
    let code = object_code_from_data(&events(), &value, None).unwrap().unwrap();
    assert_eq!(code.get("Step_0"), Some(&s("b")));

    let path = SerializedData::Filepath { data: s("code.json") };
    let file = PathContents::File(s(r#"{"Create_0": "a", "Step_0": "c"}"#));
    let code = object_code_from_data(&events(), &path, Some(file)).unwrap().unwrap();
    assert_eq!(code.get("Step_0"), Some(&s("c")));

    let folder = PathContents::Folder(vec![(s("Create_0"), s("x")), (s("Step_0"), s("y"))]);
    let code = object_code_from_data(&events(), &path, Some(folder)).unwrap().unwrap();
    assert_eq!(code.get("Create_0"), Some(&s("x")));

    let code = object_code_from_data(&events(), &SerializedData::DefaultValue, None)
        .unwrap()
        .unwrap();
    assert_eq!(code.len(), 2);
    assert_eq!(code.get("Create_0"), Some(&String::new()));
    assert_eq!(code.get("Step_0"), Some(&String::new()));
}

#[test]
fn default_code_has_one_empty_text_per_event() {
    let code = default_object_code(&vec![s("Create_0"), s("Create_0"), s("Alarm_1")]);
    assert_eq!(code.len(), 2);
    assert_eq!(code.get("Alarm_1"), Some(&String::new()));
}

#[test]
fn adding_and_removing_events() {
    let mut list = events();
    let mut code: StringMap<String> = StringMap::new();
    code.insert(s("Create_0"), s("c"));
    code.insert(s("Step_0"), s("s"));

    assert!(!add_event(&mut list, &mut code, s("Create_0")));
    assert_eq!(list, events());
    assert_eq!(code.get("Create_0"), Some(&s("c")));

    assert!(add_event(&mut list, &mut code, s("Alarm_0")));
    assert_eq!(list, vec![s("Create_0"), s("Step_0"), s("Alarm_0")]);
    assert_eq!(code.get("Alarm_0"), Some(&String::new()));

    assert!(remove_event(&mut list, &mut code, "Alarm_0"));
    assert_eq!(list, events());
    assert_eq!(code.get("Alarm_0"), None);
    assert_eq!(code.len(), 2);

    assert!(!remove_event(&mut list, &mut code, "Alarm_0"));
    assert_eq!(list, events());

    assert!(remove_event(&mut list, &mut code, "Create_0"));
    assert_eq!(list, vec![s("Step_0")]);
    assert_eq!(code.get("Create_0"), None);
}

#[test]
fn files_of_an_object_folder() {
    assert_eq!(
        event_code_files(&events()),
        vec![s("Create_0.gml"), s("Step_0.gml")]
    );

    let mut code: StringMap<String> = StringMap::new();
    code.insert(s("Step_0"), s("step"));
    assert_eq!(
        files_to_write(&events(), &code),
        vec![(s("Step_0.gml"), s("step"))]
    );

    let listing = vec![
        s("obj_player.yy"),
        s("Create_0.gml"),
        s("Step_0.gml"),
        s("Draw_0.gml"),
        s("notes.txt"),
    ];
    assert_eq!(
        files_to_remove("obj_player", &events(), &code, &listing),
        vec![s("Create_0.gml"), s("Draw_0.gml"), s("notes.txt")]
    );
}

#[test]
fn serialization() {
    let mut code: StringMap<String> = StringMap::new();
    code.insert(s("Create_0"), s("oh hello"));
    assert_eq!(object_code_json(&code), r#"{"Create_0":"oh hello"}"#);
}

#[test]
fn object_code_json_round_trip() {
    let mut code: StringMap<String> = StringMap::new();
    code.insert(s("Step_0"), s("x = \"1\";"));
    code.insert(s("Create_0"), s("a\nb"));
    let text = object_code_json(&code);
    assert_eq!(text, r#"{"Create_0":"a\nb","Step_0":"x = \"1\";"}"#);
    let back = object_code_from_json(&events(), &text).unwrap().unwrap();
    assert_eq!(back.get("Step_0"), Some(&s("x = \"1\";")));
    assert_eq!(back.get("Create_0"), Some(&s("a\nb")));
}
