use treesheets_core::{
    decode_sheet, encode_sheet, validate_sheet_json, Cell, CellType, Color, DecodeError, GridLayout,
    JsonValue, Sheet, StyleBits,
};

fn s(text: &str) -> JsonValue {
    JsonValue::Str(text.to_string())
}

fn obj(members: Vec<(&str, JsonValue)>) -> JsonValue {
    JsonValue::Object(members.into_iter().map(|(k, v)| (k.to_string(), v)).collect())
}

fn member<'a>(j: &'a JsonValue, key: &str) -> Option<&'a JsonValue> {
    match j {
        JsonValue::Object(ms) => ms.iter().find(|(k, _)| k == key).map(|(_, v)| v),
        _ => None,
    }
}

fn minimal(title: &str, text: &str) -> JsonValue {
    obj(vec![("title", s(title)), ("root", obj(vec![("text", s(text))]))])
}

#[test]
fn sheet_round_trip_json() {
    let sheet = Sheet::sample();
    let encoded = encode_sheet(&sheet);
    let loaded = decode_sheet(&encoded).expect("deserialize");
    assert_eq!(sheet, loaded);
}

#[test]
fn json_validation_detects_missing_fields() {
    let invalid = obj(vec![("title", s("ok")), ("root", obj(vec![("text", JsonValue::Int(5))]))]);
    assert!(!validate_sheet_json(&invalid));

    let valid = encode_sheet(&Sheet::sample());
    assert!(validate_sheet_json(&valid));
}

#[test]
fn round_trip_keeps_every_field() {
    let mut style = StyleBits::new();
    style.set_italic(true);
    let mut root = Cell::with_style("root", style, Color::new(1, 2, 3, 4));
    root.rel_size = -7;
    root.folded = true;
    root.layout = GridLayout::Horizontal;
    root.cell_color = Color::rgb(9, 8, 7);
    root.border_color = Color::new(0, 0, 0, 0);
    root.image = Some("aGVsbG8=".to_string());
    root.add_child(Cell::with_type("x = 1", CellType::VarAssign));
    root.add_child(Cell::with_type("view", CellType::ViewVertical));
    let sheet = Sheet::new("All fields", root);
    let back = decode_sheet(&encode_sheet(&sheet)).unwrap();
    assert_eq!(back, sheet);
}

#[test]
fn minimal_document_takes_defaults() {
    let sheet = decode_sheet(&minimal("T", "only text")).unwrap();
    assert_eq!(sheet.title, "T");
    assert_eq!(sheet.root, Cell::new("only text"));
    assert!(sheet.root.children.is_empty());
    assert_eq!(sheet.root.cell_type, CellType::Data);
    assert_eq!(sheet.root.style, StyleBits(0));
    assert_eq!(sheet.root.rel_size, 0);
    assert_eq!(sheet.root.cell_color, Color::white());
    assert_eq!(sheet.root.text_color, Color::black());
    assert_eq!(sheet.root.border_color, Color::white());
    assert!(!sheet.root.folded);
    assert_eq!(sheet.root.layout, GridLayout::Vertical);
    assert_eq!(sheet.root.image, None);
}

#[test]
fn encoding_emits_every_field_but_absent_image() {
    let j = encode_sheet(&Sheet::new("t", Cell::new("r")));
    let root = member(&j, "root").unwrap();
    let keys: Vec<String> = match root {
        JsonValue::Object(ms) => ms.iter().map(|(k, _)| k.clone()).collect(),
        _ => Vec::new(),
    };
    assert_eq!(
        keys,
        vec![
            "text", "children", "cell_type", "style", "rel_size", "cell_color", "text_color", "folded",
            "layout", "border_color"
        ]
    );
    assert_eq!(member(root, "cell_type"), Some(&s("data")));
    assert_eq!(member(root, "layout"), Some(&s("vertical")));
    assert_eq!(member(root, "style"), Some(&JsonValue::Int(0)));
    let text_color = member(root, "text_color").unwrap();
    assert_eq!(member(text_color, "r"), Some(&JsonValue::Int(0)));
    assert_eq!(member(text_color, "a"), Some(&JsonValue::Int(255)));

    let mut with_image = Cell::new("r");
    with_image.image = Some("img".to_string());
    let j2 = encode_sheet(&Sheet::new("t", with_image));
    assert_eq!(member(member(&j2, "root").unwrap(), "image"), Some(&s("img")));
}

#[test]
fn validation_rejects_bad_shapes() {
    let no_title = obj(vec![("root", obj(vec![("text", s("r"))]))]);
    assert!(!validate_sheet_json(&no_title));
    let children_not_array = obj(vec![
        ("title", s("t")),
        ("root", obj(vec![("text", s("r")), ("children", s("nope"))])),
    ]);
    assert!(!validate_sheet_json(&children_not_array));
    let bad_grandchild = obj(vec![
        ("title", s("t")),
        (
            "root",
            obj(vec![
                ("text", s("r")),
                ("children", JsonValue::Array(vec![obj(vec![("text", s("a"))]), obj(vec![("nottext", s("b"))])])),
            ]),
        ),
    ]);
    assert!(!validate_sheet_json(&bad_grandchild));
    assert!(!validate_sheet_json(&JsonValue::Array(Vec::new())));
    assert!(!validate_sheet_json(&obj(vec![("title", JsonValue::Int(1)), ("root", obj(vec![("text", s("r"))]))])));
    assert!(!validate_sheet_json(&obj(vec![("title", s("t"))])));
}

#[test]
fn validation_ignores_extra_members_and_field_values() {
    let lenient = obj(vec![
        ("title", s("t")),
        ("extra", JsonValue::Null),
        ("root", obj(vec![("text", s("r")), ("cell_type", s("bogus")), ("style", s("x"))])),
    ]);
    assert!(validate_sheet_json(&lenient));
    assert_eq!(decode_sheet(&lenient), Err(DecodeError::InvalidCellType));
    assert!(validate_sheet_json(&minimal("a", "b")));
}

fn with_root_member(key: &str, value: JsonValue) -> JsonValue {
    obj(vec![("title", s("t")), ("root", obj(vec![("text", s("r")), (key, value)]))])
}

#[test]
fn decode_errors_name_the_broken_expectation() {
    assert_eq!(decode_sheet(&JsonValue::Null), Err(DecodeError::SheetNotObject));
    assert_eq!(decode_sheet(&obj(vec![("root", obj(vec![("text", s("r"))]))])), Err(DecodeError::MissingTitle));
    assert_eq!(
        decode_sheet(&obj(vec![("title", JsonValue::Bool(true)), ("root", obj(vec![("text", s("r"))]))])),
        Err(DecodeError::TitleNotString)
    );
    assert_eq!(decode_sheet(&obj(vec![("title", s("t"))])), Err(DecodeError::MissingRoot));
    assert_eq!(
        decode_sheet(&obj(vec![("title", s("t")), ("root", JsonValue::Int(1))])),
        Err(DecodeError::CellNotObject)
    );
    assert_eq!(
        decode_sheet(&obj(vec![("title", s("t")), ("root", obj(vec![]))])),
        Err(DecodeError::MissingText)
    );
    assert_eq!(
        decode_sheet(&obj(vec![("title", s("t")), ("root", obj(vec![("text", JsonValue::Int(5))]))])),
        Err(DecodeError::TextNotString)
    );
    assert_eq!(decode_sheet(&with_root_member("children", s("x"))), Err(DecodeError::ChildrenNotArray));
    assert_eq!(decode_sheet(&with_root_member("cell_type", s("formula"))), Err(DecodeError::InvalidCellType));
    assert_eq!(decode_sheet(&with_root_member("style", JsonValue::Int(-1))), Err(DecodeError::InvalidStyle));
    assert_eq!(
        decode_sheet(&with_root_member("style", JsonValue::Int(4294967296))),
        Err(DecodeError::InvalidStyle)
    );
    assert_eq!(
        decode_sheet(&with_root_member("rel_size", JsonValue::Int(2147483648))),
        Err(DecodeError::InvalidRelSize)
    );
    assert_eq!(decode_sheet(&with_root_member("rel_size", JsonValue::OtherNumber)), Err(DecodeError::InvalidRelSize));
    assert_eq!(
        decode_sheet(&with_root_member(
            "cell_color",
            obj(vec![("r", JsonValue::Int(1)), ("g", JsonValue::Int(2)), ("b", JsonValue::Int(256)), ("a", JsonValue::Int(0))])
        )),
        Err(DecodeError::InvalidColor)
    );
    assert_eq!(decode_sheet(&with_root_member("text_color", s("red"))), Err(DecodeError::InvalidColor));
    assert_eq!(decode_sheet(&with_root_member("folded", JsonValue::Int(0))), Err(DecodeError::InvalidFolded));
    assert_eq!(decode_sheet(&with_root_member("layout", s("diagonal"))), Err(DecodeError::InvalidLayout));
    assert_eq!(decode_sheet(&with_root_member("image", JsonValue::Int(3))), Err(DecodeError::InvalidImage));
}

#[test]
fn decode_reads_given_values() {
    let j = obj(vec![
        ("title", s("t")),
        (
            "root",
            obj(vec![
                ("text", s("r")),
                ("cell_type", s("viewhorizontal")),
                ("style", JsonValue::Int(17)),
                ("rel_size", JsonValue::Int(-3)),
                (
                    "border_color",
                    obj(vec![("a", JsonValue::Int(4)), ("b", JsonValue::Int(3)), ("g", JsonValue::Int(2)), ("r", JsonValue::Int(1))]),
                ),
                ("folded", JsonValue::Bool(true)),
                ("layout", s("horizontal")),
                ("image", JsonValue::Null),
                ("children", JsonValue::Array(vec![obj(vec![("text", s("c"))])])),
            ]),
        ),
    ]);
    let sheet = decode_sheet(&j).unwrap();
    assert_eq!(sheet.root.cell_type, CellType::ViewHorizontal);
    assert!(sheet.root.style.is_bold() && sheet.root.style.is_strikethru() && !sheet.root.style.is_italic());
    assert_eq!(sheet.root.rel_size, -3);
    assert_eq!(sheet.root.border_color, Color::new(1, 2, 3, 4));
    assert!(sheet.root.folded);
    assert_eq!(sheet.root.layout, GridLayout::Horizontal);
    assert_eq!(sheet.root.image, None);
    assert_eq!(sheet.root.children, vec![Cell::new("c")]);
}

#[test]
fn first_failing_child_decides_the_error() {
    let j = obj(vec![
        ("title", s("t")),
        (
            "root",
            obj(vec![
                ("text", s("r")),
                ("children", JsonValue::Array(vec![obj(vec![("text", JsonValue::Null)]), JsonValue::Null])),
                ("layout", s("bad")),
            ]),
        ),
    ]);
    assert_eq!(decode_sheet(&j), Err(DecodeError::TextNotString));
}
