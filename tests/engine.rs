use base64::Engine as _;
use docx_template::engine::Engine;
use docx_template::handler::{DefaultValueHandler, ValueExt};
use docx_template::image::ImageManager;
use docx_template::rels::RelationshipManager;
use docx_template::template::{EngineError, XmlEvent, XmlTag};
use docx_template::value::{JsonValue, Record};


fn to_serde(v: &JsonValue) -> serde_json::Value {
    match v {
        JsonValue::Null => serde_json::Value::Null,
        JsonValue::Bool(b) => serde_json::Value::Bool(*b),
        JsonValue::Number { json, .. } => serde_json::from_str(json).unwrap(),
        JsonValue::Str(s) => serde_json::Value::String(s.clone()),
        JsonValue::Array(items, _) => serde_json::Value::Array(items.iter().map(to_serde).collect()),
        JsonValue::Object(fields, _) => serde_json::Value::Object(
            fields.iter().map(|(k, v)| (k.clone(), to_serde(v))).collect(),
        ),
    }
}

fn arr(items: Vec<JsonValue>) -> JsonValue {
    let text = serde_json::Value::Array(items.iter().map(to_serde).collect()).to_string();
    JsonValue::Array(items, text)
}

fn start(name: &str) -> XmlEvent {
    XmlEvent::Start(XmlTag { name: name.to_string(), content: name.to_string() })
}

fn end(name: &str) -> XmlEvent {
    XmlEvent::End(name.to_string())
}

fn text(t: &str) -> XmlEvent {
    XmlEvent::Text(t.to_string())
}

fn s(v: &str) -> JsonValue {
    JsonValue::Str(v.to_string())
}

fn obj(fields: Vec<(&str, JsonValue)>) -> JsonValue {
    let fields: Vec<(String, JsonValue)> = fields.into_iter().map(|(k, v)| (k.to_string(), v)).collect();
    let text = serde_json::Value::Object(fields.iter().map(|(k, v)| (k.clone(), to_serde(v))).collect()).to_string();
    JsonValue::Object(fields, text)
}

fn cell(t: &str) -> Vec<XmlEvent> {
    vec![start("w:tc"), start("w:p"), start("w:r"), start("w:t"), text(t), end("w:t"), end("w:r"), end("w:p"), end("w:tc")]
}

fn row(cells: &[&str]) -> Vec<XmlEvent> {
    let mut v = vec![start("w:tr")];
    for c in cells {
        v.extend(cell(c));
    }
    v.push(end("w:tr"));
    v
}

fn cell_markup(t: &str) -> String {
    format!("<w:tc><w:p><w:r><w:t>{}</w:t></w:r></w:p></w:tc>", t)
}

fn run(events: Vec<XmlEvent>, placeholders: Record) -> Result<String, EngineError> {
    let mut engine = Engine::new(DefaultValueHandler, placeholders);
    let mut images = ImageManager::new(96000);
    let mut rels = RelationshipManager::new();
    let mut out = String::new();
    for e in events {
        out.push_str(&engine.feed(e, &mut images, &mut rels)?);
    }
    out.push_str(&engine.finish()?);
    Ok(out)
}

fn table(rows: Vec<Vec<XmlEvent>>) -> Vec<XmlEvent> {
    let mut v = vec![start("w:tbl"), start("w:tblPr"), end("w:tblPr")];
    for r in rows {
        v.extend(r);
    }
    v.push(end("w:tbl"));
    v
}

#[test]
fn one_row_template_expands_to_three_rows() {
    let users = arr(vec![
        obj(vec![("name", s("Jim"))]),
        obj(vec![("name", s("Lisa"))]),
        obj(vec![("name", s("Sam"))]),
    ]);
    let placeholders: Record = vec![("users".to_string(), users)];
    let events = table(vec![row(&["Name"]), row(&["{{#users}}[name]"])]);
    let out = run(events, placeholders).unwrap();
    let expected = format!(
        "<w:tbl><w:tblPr></w:tblPr><w:tr>{}</w:tr><w:tr>{}</w:tr><w:tr>{}</w:tr><w:tr>{}</w:tr></w:tbl>",
        cell_markup("Name"),
        cell_markup("Jim"),
        cell_markup("Lisa"),
        cell_markup("Sam")
    );
    assert_eq!(out, expected);
    assert_eq!(out.matches("<w:tr>").count(), 4);
}

#[test]
fn equal_cells_merge_vertically() {
    let users = arr(vec![
        obj(vec![("name", s("A")), ("team", s("X"))]),
        obj(vec![("name", s("B")), ("team", s("X"))]),
    ]);
    let placeholders: Record = vec![("users".to_string(), users)];
    let events = table(vec![row(&["{{#users}}[team]", "[name]"])]);
    let out = run(events, placeholders).unwrap();
    let expected = format!(
        "<w:tbl><w:tblPr></w:tblPr><w:tr>{}{}</w:tr><w:tr>{}{}</w:tr></w:tbl>",
        "<w:tc><w:tcPr><w:vMerge w:val=\"restart\"/></w:tcPr><w:p><w:r><w:t>X</w:t></w:r></w:p></w:tc>",
        cell_markup("A"),
        "<w:tc><w:tcPr><w:vMerge w:val=\"continue\"/></w:tcPr><w:p><w:r><w:t></w:t></w:r></w:p></w:tc>",
        cell_markup("B")
    );
    assert_eq!(out, expected);
}

#[test]
fn table_without_array_is_written_once() {
    let placeholders: Record = vec![("{{title}}".to_string(), s("Report"))];
    let events = table(vec![row(&["{{title}}"]), row(&["{{#users}}[name]"])]);
    let out = run(events, placeholders).unwrap();
    let expected = format!(
        "<w:tbl><w:tblPr></w:tblPr><w:tr>{}</w:tr><w:tr>{}</w:tr></w:tbl>",
        cell_markup("Report"),
        cell_markup("[name]")
    );
    assert_eq!(out, expected);
}

#[test]
fn nested_table_is_an_error() {
    let mut events = vec![start("w:tbl"), start("w:tr"), start("w:tc")];
    events.push(start("w:tbl"));
    assert_eq!(run(events, Vec::new()), Err(EngineError::NestedTable));
}

#[test]
fn unclosed_table_is_an_error() {
    let events = vec![start("w:tbl"), start("w:tr")];
    assert_eq!(run(events, Vec::new()), Err(EngineError::UnclosedTable));
}

#[test]
fn text_placeholder_is_substituted() {
    let placeholders: Record = vec![("{{title}}".to_string(), s("New Title"))];
    let events = vec![start("w:p"), start("w:t"), text("{{title}}"), end("w:t"), text("{{title}}"), end("w:p")];
    let out = run(events, placeholders).unwrap();
    assert_eq!(out, "<w:p><w:t>New Title</w:t>{{title}}</w:p>");
}

#[test]
fn unresolved_placeholder_becomes_empty() {
    let events = vec![start("w:t"), text("{{missing}}"), end("w:t")];
    assert_eq!(run(events, Vec::new()).unwrap(), "<w:t></w:t>");
}

#[test]
fn other_events_pass_through() {
    let events = vec![
        XmlEvent::Other("<?xml version=\"1.0\"?>".to_string()),
        XmlEvent::Empty(XmlTag { name: "w:br".to_string(), content: "w:br w:type=\"page\"".to_string() }),
        start("w:body"),
        text("plain"),
        end("w:body"),
    ];
    assert_eq!(
        run(events, Vec::new()).unwrap(),
        "<?xml version=\"1.0\"?><w:br w:type=\"page\"/><w:body>plain</w:body>"
    );
}

fn png(width: u32, height: u32) -> Vec<u8> {
    let mut b = vec![0x89, b'P', b'N', b'G', 0x0D, 0x0A, 0x1A, 0x0A, 0, 0, 0, 13];
    b.extend_from_slice(b"IHDR");
    b.extend_from_slice(&width.to_be_bytes());
    b.extend_from_slice(&height.to_be_bytes());
    b.extend_from_slice(&[8, 6, 0, 0, 0]);
    b
}

#[test]
fn image_payload_becomes_drawing() {
    let payload = base64::engine::general_purpose::STANDARD.encode(png(96, 96));
    let placeholders: Record = vec![("{{logo}}".to_string(), s(&payload))];
    let events = vec![start("w:r"), start("w:t"), text("{{logo}}"), end("w:t"), end("w:r")];
    let mut engine = Engine::new(DefaultValueHandler, placeholders);
    let mut images = ImageManager::new(96000);
    let mut rels = RelationshipManager::new();
    let mut out = String::new();
    for e in events {
        out.push_str(&engine.feed(e, &mut images, &mut rels).unwrap());
    }
    assert!(out.starts_with("<w:r><w:r><w:drawing>"));
    assert!(out.contains("cx=\"914400\" cy=\"914400\""));
    assert!(out.ends_with("</w:drawing></w:r></w:r>"));
    assert!(!out.contains("<w:t>"));
    assert_eq!(images.get_images().len(), 1);
}

#[test]
fn handler_modifiers() {
    let h = DefaultValueHandler;
    let rec: Record = vec![
        ("name".to_string(), s("Peter")),
        ("age".to_string(), JsonValue::Number { json: "7".to_string(), shown: "7.00".to_string() }),
        ("sizes".to_string(), arr(vec![JsonValue::Number { json: "7".to_string(), shown: "7.00".to_string() }])),
        ("tags".to_string(), arr(vec![s("a\"b"), JsonValue::Null, JsonValue::Bool(true)])),
        ("pet".to_string(), obj(vec![("kind", s("dog"))])),
    ];
    assert_eq!(h.replace_in_table(3, "[name]", &rec), "Peter");
    assert_eq!(h.replace_in_table(3, "[^name]", &rec), "PETER");
    assert_eq!(h.replace_in_table(3, "[@name]", &rec), "Peter");
    assert_eq!(h.replace_in_table(3, "[$index]", &rec), "3");
    assert_eq!(h.replace_in_table(3, "[age]", &rec), "7.00");
    assert_eq!(h.replace_in_table(3, "[sizes]", &rec), "[7]");
    assert_eq!(h.replace_in_table(3, "[tags]", &rec), "[\"a\\\"b\",null,true]");
    assert_eq!(h.replace_in_table(3, "[pet]", &rec), "{\"kind\":\"dog\"}");
    assert_eq!(h.replace_in_table(3, "[nothing]", &rec), "");
    let flags: Record = vec![("on".to_string(), JsonValue::Bool(true))];
    assert_eq!(h.replace_in_table(0, "[on]", &flags), "true");
    assert_eq!(h.replace("plain text", &rec), "plain text");
    assert_eq!(h.replace("{{x}}", &rec), "");
}

#[test]
fn invalid_image_payload_aborts() {
    let placeholders: Record = vec![("{{logo}}".to_string(), s("iVBORw0KGgo%%%"))];
    let events = vec![start("w:r"), start("w:t"), text("{{logo}}"), end("w:t"), end("w:r")];
    assert_eq!(
        run(events, placeholders),
        Err(EngineError::Image(docx_template::image::ImageError::InvalidBase64))
    );
}

#[test]
fn pending_text_holder_is_flushed_at_end() {
    let events = vec![start("w:t")];
    assert_eq!(run(events, Vec::new()).unwrap(), "<w:t>");
}

#[test]
fn run_of_four_rows_gets_restart_continue_continue_none() {
    let teams = ["A", "A", "A", "B"];
    let users = arr(teams.iter().map(|t| obj(vec![("team", s(t))])).collect());
    let placeholders: Record = vec![("users".to_string(), users)];
    let events = table(vec![row(&["{{#users}}[team]"])]);
    let out = run(events, placeholders).unwrap();
    let restart = "<w:tc><w:tcPr><w:vMerge w:val=\"restart\"/></w:tcPr><w:p><w:r><w:t>A</w:t></w:r></w:p></w:tc>";
    let cont = "<w:tc><w:tcPr><w:vMerge w:val=\"continue\"/></w:tcPr><w:p><w:r><w:t></w:t></w:r></w:p></w:tc>";
    let expected = format!(
        "<w:tbl><w:tblPr></w:tblPr><w:tr>{}</w:tr><w:tr>{}</w:tr><w:tr>{}</w:tr><w:tr>{}</w:tr></w:tbl>",
        restart,
        cont,
        cont,
        cell_markup("B")
    );
    assert_eq!(out, expected);
}

#[test]
fn empty_run_gets_no_marker() {
    let users = arr(vec![
        obj(vec![("team", s(""))]),
        obj(vec![("team", s(""))]),
        obj(vec![("team", s("X"))]),
    ]);
    let placeholders: Record = vec![("users".to_string(), users)];
    let events = table(vec![row(&["{{#users}}[team]"])]);
    let out = run(events, placeholders).unwrap();
    assert!(!out.contains("vMerge"));
    assert_eq!(out.matches("<w:tr>").count(), 3);
}
