use yy_boss::sprite_printer::{SpritePrinter, SpritePrinterMode};

enum Json {
    Raw(&'static str),
    Str(&'static str),
    Arr(Vec<Json>),
    Obj(Vec<(&'static str, Json)>),
}

// Drives the printer in the order in which a JSON serializer calls it.
fn emit(p: &mut SpritePrinter, out: &mut String, value: &Json) {
    match value {
        Json::Raw(text) => out.push_str(text),
        Json::Str(text) => {
            out.push('"');
            p.write_string_fragment(out, text);
            out.push('"');
        }
        Json::Arr(items) => {
            p.begin_array(out);
            for item in items {
                p.begin_array_value(out);
                emit(p, out, item);
                p.end_array_value(out);
            }
            p.end_array(out);
        }
        Json::Obj(fields) => {
            p.begin_object(out);
            for (key, item) in fields {
                p.begin_object_key(out);
                out.push('"');
                p.write_string_fragment(out, key);
                out.push('"');
                p.end_object_key();
                p.begin_object_value(out);
                emit(p, out, item);
                p.end_object_value(out);
            }
            p.end_object(out);
        }
    }
}

fn print(value: &Json) -> (String, SpritePrinter) {
    let mut p = SpritePrinter::new();
    let mut out = String::new();
    emit(&mut p, &mut out, value);
    (out, p)
}

#[test]
fn sprite_layout() {
    let doc = Json::Obj(vec![
        ("name", Json::Str("spr_player")),
        (
            "frames",
            Json::Arr(vec![Json::Obj(vec![
                ("compositeImage", Json::Obj(vec![("name", Json::Str("a"))])),
                ("images", Json::Arr(vec![])),
            ])]),
        ),
        (
            "parent",
            Json::Obj(vec![
                ("name", Json::Str("Sprites")),
                ("path", Json::Str("folders/Sprites.yy")),
            ]),
        ),
        (
            "sequence",
            Json::Obj(vec![
                ("spriteId", Json::Obj(vec![("name", Json::Str("spr_player"))])),
                ("tracks", Json::Arr(vec![Json::Raw("1"), Json::Raw("2")])),
                ("parent", Json::Obj(vec![("name", Json::Str("spr_player"))])),
                ("length", Json::Raw("2")),
            ]),
        ),
        (
            "layers",
            Json::Arr(vec![Json::Obj(vec![("visible", Json::Raw("true"))])]),
        ),
        ("tags", Json::Arr(vec![])),
    ]);
    let (out, p) = print(&doc);
    let expected = "{\n  \"name\": \"spr_player\",\n  \"frames\": [\n    {\"compositeImage\":{\"name\":\"a\",},\"images\":[],},\n  ],\n  \"parent\": {\n    \"name\": \"Sprites\",\n    \"path\": \"folders/Sprites.yy\",\n  },\n  \"sequence\": {\n    \"spriteId\": {\"name\":\"spr_player\",},\n    \"tracks\": [\n      1,\n      2,\n    ],\n    \"parent\": {\"name\":\"spr_player\",},\n    \"length\": 2,\n  },\n  \"layers\": [\n    {\"visible\":true,},\n  ],\n  \"tags\": [],\n}";
    assert_eq!(out, expected);
    assert_eq!(p.current_indent, 0);
    assert_eq!(p.object_stack, 0);
    assert_eq!(p.mode, SpritePrinterMode::Normal);
}

#[test]
fn sprite_printer_empty_containers() {
    let (out, p) = print(&Json::Arr(vec![]));
    assert_eq!(out, "[]");
    assert_eq!(p, SpritePrinter::new());
    let (out, p) = print(&Json::Obj(vec![]));
    assert_eq!(out, "{}");
    assert_eq!(p, SpritePrinter::new());
}

#[test]
fn sprite_printer_keys_select_modes() {
    let mut p = SpritePrinter::new();
    let mut out = String::new();
    p.begin_object(&mut out);
    p.begin_object_key(&mut out);
    assert!(p.check_key);
    p.write_string_fragment(&mut out, "frames");
    assert_eq!(p.mode, SpritePrinterMode::Frames(0));
    p.end_object_key();
    assert!(!p.check_key);
    p.begin_object_value(&mut out);
    assert_eq!(out, "{\n  frames: ");
    p.begin_array(&mut out);
    assert_eq!(p.mode, SpritePrinterMode::Frames(1));
    p.end_array(&mut out);
    assert_eq!(p.mode, SpritePrinterMode::Normal);
    p.end_object_value(&mut out);

    // a parent at the top level keeps normal printing
    p.begin_object_key(&mut out);
    p.write_string_fragment(&mut out, "parent");
    assert_eq!(p.mode, SpritePrinterMode::Normal);
    p.end_object_key();

    // a string value is not a key and changes nothing
    p.write_string_fragment(&mut out, "layers");
    assert_eq!(p.mode, SpritePrinterMode::Normal);
}
