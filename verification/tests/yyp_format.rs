use yy_boss::yyp_format::{
    decimal, json_trailing_comma, serialize_yyp, signed_decimal, JsonObject, RoomOrderId,
    TextureGroupJson, YypConfig, YypDocument, YypMetaData, YypSerialization,
};
use yy_boss::{FilesystemPath, YypResource};

#[test]
fn fsystem_path() {
    let fsystem_path = FilesystemPath {
        name: "Sprites".to_string(),
        path: "folders/Members/Sprites".to_string(),
    };

    assert_eq!(
        fsystem_path.yyp_serialization(0, "\r\n"),
        r#"{"name":"Sprites","path":"folders/Members/Sprites",}"#
    );
}

#[test]
fn yyp_resource() {
    let yyp_resource = YypResource {
        id: FilesystemPath {
            name: "Sprites".to_string(),
            path: "folders/Members/Sprites.yy".to_string(),
        },
        order: 1,
    };

    assert_eq!(
        yyp_resource.yyp_serialization(0, "\r\n"),
        r#"{"id":{"name":"Sprites","path":"folders/Members/Sprites.yy",},"order":1,}"#
    );
}

#[test]
fn numbers_are_written_in_decimal() {
    assert_eq!(decimal(0), "0");
    assert_eq!(decimal(7), "7");
    assert_eq!(decimal(1203), "1203");
    assert_eq!(decimal(usize::MAX), usize::MAX.to_string());
    assert_eq!(signed_decimal(-1), "-1");
    assert_eq!(signed_decimal(i32::MIN), i32::MIN.to_string());
    assert_eq!(signed_decimal(42), "42");
}

#[test]
fn lists_put_each_member_on_a_line() {
    let empty: Vec<String> = vec![];
    assert_eq!(empty.yyp_serialization(1, "\n"), "[]");
    let tags = vec!["a".to_string(), "b".to_string()];
    assert_eq!(tags.yyp_serialization(1, "\n"), "[\n    \"a\",\n    \"b\",\n  ]");
    assert_eq!(tags.yyp_serialization(0, "\r\n"), "[\r\n  \"a\",\r\n  \"b\",\r\n]");
}

#[test]
fn trailing_commas() {
    assert_eq!(json_trailing_comma(r#"{"a":1}"#), r#"{"a":1,}"#);
    assert_eq!(json_trailing_comma(r#"{"a":{},"b":{"c":2}}"#), r#"{"a":{},"b":{"c":2,},}"#);
    assert_eq!(json_trailing_comma("{}"), "{}");
    let group = TextureGroupJson { json: r#"{"x":{}}"#.to_string() };
    assert_eq!(group.yyp_serialization(1, "\n"), r#"{"x":{},}"#);
    let obj = JsonObject { json: r#"{"name":"audiogroup_default"}"#.to_string() };
    assert_eq!(obj.yyp_serialization(1, "\n"), r#"{"name":"audiogroup_default",}"#);
}

#[test]
fn room_order_and_metadata() {
    let room = RoomOrderId { room_id: FilesystemPath::new("rooms", "Room1") };
    assert_eq!(
        room.yyp_serialization(2, "\n"),
        r#"{"roomId":{"name":"Room1","path":"rooms/Room1/Room1.yy",},}"#
    );
    let meta = YypMetaData { ide_version: "2.3.0.529".to_string() };
    assert_eq!(
        meta.yyp_serialization(1, "\n"),
        "{\n    \"IDEVersion\": \"2.3.0.529\",\n  }"
    );
}

#[test]
fn configs_nest() {
    let plain = YypConfig { name: "Default".to_string(), children: vec![] };
    assert_eq!(
        plain.yyp_serialization(1, "\n"),
        "{\n    \"children\": [    \"name\": \"Default\",\n],\n  }"
    );
    let nested = YypConfig {
        name: "Default".to_string(),
        children: vec![YypConfig { name: "A".to_string(), children: vec![] }],
    };
    assert_eq!(
        nested.yyp_serialization(1, "\n"),
        "{\n    \"children\": [\n      {\"children\":[],\"name\":\"A\",},\n        \"name\": \"Default\",\n],\n  }"
    );
}

#[test]
fn whole_project_file() {
    let doc = YypDocument {
        resource_version: "\"1.5\"".to_string(),
        name: "proj".to_string(),
        audio_groups: vec![],
        configs: YypConfig { name: "Default".to_string(), children: vec![] },
        default_script_type: 1,
        folders: vec![],
        included_files: vec![],
        is_ecma: false,
        meta_data: YypMetaData { ide_version: "2.3.0.529".to_string() },
        resources: vec![],
        room_order_nodes: vec![],
        texture_groups: vec![],
    };
    let expected = [
        "{\n",
        "  \"resourceType\": \"GMProject\",\n",
        "  \"resourceVersion\": \"1.5\",\n",
        "  \"name\": \"proj\",\n",
        "  \"AudioGroups\": [],\n",
        "  \"configs\": {\n    \"children\": [    \"name\": \"Default\",\n],\n  },\n",
        "  \"defaultScriptType\": 1,\n",
        "  \"Folders\": [],\n",
        "  \"IncludedFiles\": [],\n",
        "  \"isEcma\": false,\n",
        "  \"LibraryEmitters\": [],\n",
        "  \"MetaData\": {\n    \"IDEVersion\": \"2.3.0.529\",\n  },\n",
        "  \"resources\": [],\n",
        "  \"RoomOrderNodes\": [],\n",
        "  \"TextureGroups\": [],\n",
        "}",
    ]
    .concat();
    assert_eq!(serialize_yyp(&doc, "\n"), expected);
}
