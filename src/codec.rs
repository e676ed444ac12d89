use vstd::prelude::*;
use vstd::string::StringExecFns;

use crate::json::{find_field, find_key, member, lemma_find_key_absent, lemma_find_key_at, lemma_find_key_range, json_view, members_view, Json, JsonValue};
use crate::sheet::{black_color, leaf_view, opt_view, white_color, Cell, CellType, CellView, Color, GridLayout, Sheet, SheetView};
use crate::style::StyleBits;

verus! {

/// Why a JSON document is not a sheet: the structural expectation it breaks.
#[derive(Debug, Clone, Copy, PartialEq, Eq, Structural)]
pub enum DecodeError {
    /// The document is not an object.
    SheetNotObject,
    /// The document has no `title`.
    MissingTitle,
    /// The `title` is not a string.
    TitleNotString,
    /// The document has no `root`.
    MissingRoot,
    /// A cell is not an object.
    CellNotObject,
    /// A cell has no `text`.
    MissingText,
    /// A cell's `text` is not a string.
    TextNotString,
    /// A cell's `children` is not an array.
    ChildrenNotArray,
    /// A cell's `cell_type` is not one of the known tags.
    InvalidCellType,
    /// A cell's `style` is not an integer in the range of `u32`.
    InvalidStyle,
    /// A cell's `rel_size` is not an integer in the range of `i32`.
    InvalidRelSize,
    /// A color is not an object of four byte-sized integers `r`, `g`, `b`, `a`.
    InvalidColor,
    /// A cell's `folded` is not a boolean.
    InvalidFolded,
    /// A cell's `layout` is neither `horizontal` nor `vertical`.
    InvalidLayout,
    /// A cell's `image` is neither a string nor null.
    InvalidImage,
}

// ---- encoding ----

pub open spec fn cell_type_tag(t: CellType) -> Seq<char> {
    match t {
        CellType::Data => "data"@,
        CellType::Code => "code"@,
        CellType::VarAssign => "varassign"@,
        CellType::VarRead => "varread"@,
        CellType::ViewHorizontal => "viewhorizontal"@,
        CellType::ViewVertical => "viewvertical"@,
    }
}

pub open spec fn layout_tag(l: GridLayout) -> Seq<char> {
    match l {
        GridLayout::Horizontal => "horizontal"@,
        GridLayout::Vertical => "vertical"@,
    }
}

pub open spec fn encoded_color(c: Color) -> Json {
    Json::Object(
        seq![
            ("r"@, Json::Int(c.r as int)),
            ("g"@, Json::Int(c.g as int)),
            ("b"@, Json::Int(c.b as int)),
            ("a"@, Json::Int(c.a as int)),
        ],
    )
}

/// The members that every encoded cell has before `image`, in order.
pub open spec fn encoded_head(c: CellView, children: Seq<Json>) -> Seq<(Seq<char>, Json)> {
    seq![
        ("text"@, Json::Str(c.text)),
        ("children"@, Json::Array(children)),
        ("cell_type"@, Json::Str(cell_type_tag(c.cell_type))),
        ("style"@, Json::Int(c.style.0 as int)),
        ("rel_size"@, Json::Int(c.rel_size as int)),
        ("cell_color"@, encoded_color(c.cell_color)),
        ("text_color"@, encoded_color(c.text_color)),
        ("folded"@, Json::Bool(c.folded)),
        ("layout"@, Json::Str(layout_tag(c.layout))),
    ]
}

/// All members of an encoded cell: `image` only where there is one.
pub open spec fn encoded_members(c: CellView, children: Seq<Json>) -> Seq<(Seq<char>, Json)> {
    let head = encoded_head(c, children);
    let with_image = match c.image {
        Some(s) => head.push(("image"@, Json::Str(s))),
        None => head,
    };
    with_image.push(("border_color"@, encoded_color(c.border_color)))
}

/// The canonical JSON form of a cell.
pub open spec fn encoded_cell(c: CellView) -> Json
    decreases c,
{
    Json::Object(
        encoded_members(
            c,
            Seq::new(
                c.children.len(),
                |i: int|
                    if 0 <= i < c.children.len() {
                        encoded_cell(c.children[i])
                    } else {
                        Json::Null
                    },
            ),
        ),
    )
}

/// The canonical JSON form of a sheet.
pub open spec fn encoded_sheet(s: SheetView) -> Json {
    Json::Object(seq![("title"@, Json::Str(s.title)), ("root"@, encoded_cell(s.root))])
}

// ---- decoding ----

pub open spec fn cell_type_of_tag(t: Seq<char>) -> Option<CellType> {
    if t == "data"@ {
        Some(CellType::Data)
    } else if t == "code"@ {
        Some(CellType::Code)
    } else if t == "varassign"@ {
        Some(CellType::VarAssign)
    } else if t == "varread"@ {
        Some(CellType::VarRead)
    } else if t == "viewhorizontal"@ {
        Some(CellType::ViewHorizontal)
    } else if t == "viewvertical"@ {
        Some(CellType::ViewVertical)
    } else {
        None
    }
}

pub open spec fn layout_of_tag(t: Seq<char>) -> Option<GridLayout> {
    if t == "horizontal"@ {
        Some(GridLayout::Horizontal)
    } else if t == "vertical"@ {
        Some(GridLayout::Vertical)
    } else {
        None
    }
}

pub open spec fn byte_member(fs: Seq<(Seq<char>, Json)>, key: Seq<char>) -> Option<u8> {
    match member(fs, key) {
        Some(Json::Int(n)) => if 0 <= n <= 255 {
            Some(n as u8)
        } else {
            None
        },
        _ => None,
    }
}

pub open spec fn decoded_color(j: Json) -> Option<Color> {
    match j {
        Json::Object(fs) => match (
            byte_member(fs, "r"@),
            byte_member(fs, "g"@),
            byte_member(fs, "b"@),
            byte_member(fs, "a"@),
        ) {
            (Some(r), Some(g), Some(b), Some(a)) => Some(Color { r, g, b, a }),
            _ => None,
        },
        _ => None,
    }
}

pub open spec fn cell_type_field(fs: Seq<(Seq<char>, Json)>) -> Result<CellType, DecodeError> {
    match member(fs, "cell_type"@) {
        None => Ok(CellType::Data),
        Some(Json::Str(t)) => match cell_type_of_tag(t) {
            Some(ct) => Ok(ct),
            None => Err(DecodeError::InvalidCellType),
        },
        Some(_) => Err(DecodeError::InvalidCellType),
    }
}

pub open spec fn style_field(fs: Seq<(Seq<char>, Json)>) -> Result<StyleBits, DecodeError> {
    match member(fs, "style"@) {
        None => Ok(StyleBits(0)),
        Some(Json::Int(n)) => if 0 <= n <= u32::MAX {
            Ok(StyleBits(n as u32))
        } else {
            Err(DecodeError::InvalidStyle)
        },
        Some(_) => Err(DecodeError::InvalidStyle),
    }
}

pub open spec fn rel_size_field(fs: Seq<(Seq<char>, Json)>) -> Result<i32, DecodeError> {
    match member(fs, "rel_size"@) {
        None => Ok(0),
        Some(Json::Int(n)) => if i32::MIN <= n <= i32::MAX {
            Ok(n as i32)
        } else {
            Err(DecodeError::InvalidRelSize)
        },
        Some(_) => Err(DecodeError::InvalidRelSize),
    }
}

pub open spec fn color_field(fs: Seq<(Seq<char>, Json)>, key: Seq<char>, default: Color) -> Result<
    Color,
    DecodeError,
> {
    match member(fs, key) {
        None => Ok(default),
        Some(j) => match decoded_color(j) {
            Some(c) => Ok(c),
            None => Err(DecodeError::InvalidColor),
        },
    }
}

pub open spec fn folded_field(fs: Seq<(Seq<char>, Json)>) -> Result<bool, DecodeError> {
    match member(fs, "folded"@) {
        None => Ok(false),
        Some(Json::Bool(b)) => Ok(b),
        Some(_) => Err(DecodeError::InvalidFolded),
    }
}

pub open spec fn layout_field(fs: Seq<(Seq<char>, Json)>) -> Result<GridLayout, DecodeError> {
    match member(fs, "layout"@) {
        None => Ok(GridLayout::Vertical),
        Some(Json::Str(t)) => match layout_of_tag(t) {
            Some(l) => Ok(l),
            None => Err(DecodeError::InvalidLayout),
        },
        Some(_) => Err(DecodeError::InvalidLayout),
    }
}

pub open spec fn image_field(fs: Seq<(Seq<char>, Json)>) -> Result<Option<Seq<char>>, DecodeError> {
    match member(fs, "image"@) {
        None => Ok(None),
        Some(Json::Null) => Ok(None),
        Some(Json::Str(t)) => Ok(Some(t)),
        Some(_) => Err(DecodeError::InvalidImage),
    }
}

/// A cell from its decoded text and children and the remaining members of its
/// object: the first member that breaks its expectation, in the order of the
/// fields, fails the whole.
pub open spec fn assembled_cell(
    text: Seq<char>,
    children: Result<Seq<CellView>, DecodeError>,
    fs: Seq<(Seq<char>, Json)>,
) -> Result<CellView, DecodeError> {
    if children is Err {
        Err(children->Err_0)
    } else if cell_type_field(fs) is Err {
        Err(cell_type_field(fs)->Err_0)
    } else if style_field(fs) is Err {
        Err(style_field(fs)->Err_0)
    } else if rel_size_field(fs) is Err {
        Err(rel_size_field(fs)->Err_0)
    } else if color_field(fs, "cell_color"@, white_color()) is Err {
        Err(color_field(fs, "cell_color"@, white_color())->Err_0)
    } else if color_field(fs, "text_color"@, black_color()) is Err {
        Err(color_field(fs, "text_color"@, black_color())->Err_0)
    } else if folded_field(fs) is Err {
        Err(folded_field(fs)->Err_0)
    } else if layout_field(fs) is Err {
        Err(layout_field(fs)->Err_0)
    } else if image_field(fs) is Err {
        Err(image_field(fs)->Err_0)
    } else if color_field(fs, "border_color"@, white_color()) is Err {
        Err(color_field(fs, "border_color"@, white_color())->Err_0)
    } else {
        Ok(
            CellView {
                text,
                children: children->Ok_0,
                cell_type: cell_type_field(fs)->Ok_0,
                style: style_field(fs)->Ok_0,
                rel_size: rel_size_field(fs)->Ok_0,
                cell_color: color_field(fs, "cell_color"@, white_color())->Ok_0,
                text_color: color_field(fs, "text_color"@, black_color())->Ok_0,
                folded: folded_field(fs)->Ok_0,
                layout: layout_field(fs)->Ok_0,
                image: image_field(fs)->Ok_0,
                border_color: color_field(fs, "border_color"@, white_color())->Ok_0,
            },
        )
    }
}

/// The cell that a JSON value stands for, or the first expectation it breaks:
/// `text`, then `children` in order, then the other members in the order of
/// the fields; a missing optional member takes its default.
pub open spec fn decoded_cell(j: Json) -> Result<CellView, DecodeError>
    decreases j, 0int,
{
    match j {
        Json::Object(fs) => match member(fs, "text"@) {
            Some(Json::Str(text)) => {
                let children: Result<Seq<CellView>, DecodeError> = match find_key(fs, "children"@) {
                    None => Ok(Seq::empty()),
                    Some(idx) => if 0 <= idx < fs.len() {
                        match fs[idx].1 {
                            Json::Array(items) => decoded_children(items, items.len() as int),
                            _ => Err(DecodeError::ChildrenNotArray),
                        }
                    } else {
                        Err(DecodeError::ChildrenNotArray)
                    },
                };
                assembled_cell(text, children, fs)
            },
            Some(_) => Err(DecodeError::TextNotString),
            None => Err(DecodeError::MissingText),
        },
        _ => Err(DecodeError::CellNotObject),
    }
}

/// The first `n` of `items` decoded in order; the first failure, if any, is
/// the result.
pub open spec fn decoded_children(items: Seq<Json>, n: int) -> Result<Seq<CellView>, DecodeError>
    decreases items, n,
{
    if n <= 0 || n > items.len() {
        Ok(Seq::empty())
    } else {
        match decoded_children(items, n - 1) {
            Ok(prefix) => match decoded_cell(items[n - 1]) {
                Ok(c) => Ok(prefix.push(c)),
                Err(e) => Err(e),
            },
            Err(e) => Err(e),
        }
    }
}

/// The sheet that a JSON value stands for, or the first expectation it breaks.
pub open spec fn decoded_sheet(j: Json) -> Result<SheetView, DecodeError> {
    match j {
        Json::Object(fs) => match member(fs, "title"@) {
            Some(Json::Str(title)) => match member(fs, "root"@) {
                Some(r) => match decoded_cell(r) {
                    Ok(root) => Ok(SheetView { title, root }),
                    Err(e) => Err(e),
                },
                None => Err(DecodeError::MissingRoot),
            },
            Some(_) => Err(DecodeError::TitleNotString),
            None => Err(DecodeError::MissingTitle),
        },
        _ => Err(DecodeError::SheetNotObject),
    }
}

// ---- validation ----

/// The shape a cell needs: an object with a string `text` and, if it has
/// `children`, an array of values of this shape. Other members are ignored.
pub open spec fn cell_shape_ok(j: Json) -> bool
    decreases j, 0int,
{
    match j {
        Json::Object(fs) => match member(fs, "text"@) {
            Some(Json::Str(_)) => match find_key(fs, "children"@) {
                None => true,
                Some(idx) => 0 <= idx < fs.len() && match fs[idx].1 {
                    Json::Array(items) => all_cell_shapes_ok(items, items.len() as int),
                    _ => false,
                },
            },
            _ => false,
        },
        _ => false,
    }
}

/// Whether each of the first `n` of `items` has the shape of a cell.
pub open spec fn all_cell_shapes_ok(items: Seq<Json>, n: int) -> bool
    decreases items, n,
{
    if n <= 0 || n > items.len() {
        true
    } else {
        all_cell_shapes_ok(items, n - 1) && cell_shape_ok(items[n - 1])
    }
}

/// The shape a sheet needs: an object with a string `title` and a `root` of
/// the cell shape.
pub open spec fn sheet_shape_ok(j: Json) -> bool {
    match j {
        Json::Object(fs) => match (member(fs, "title"@), member(fs, "root"@)) {
            (Some(Json::Str(_)), Some(r)) => cell_shape_ok(r),
            _ => false,
        },
        _ => false,
    }
}

// ---- executable codec ----

fn cell_type_name(t: CellType) -> (r: &'static str)
    ensures
        r@ == cell_type_tag(t),
{
    match t {
        CellType::Data => "data",
        CellType::Code => "code",
        CellType::VarAssign => "varassign",
        CellType::VarRead => "varread",
        CellType::ViewHorizontal => "viewhorizontal",
        CellType::ViewVertical => "viewvertical",
    }
}

fn layout_name(l: GridLayout) -> (r: &'static str)
    ensures
        r@ == layout_tag(l),
{
    match l {
        GridLayout::Horizontal => "horizontal",
        GridLayout::Vertical => "vertical",
    }
}

fn encode_color(c: Color) -> (j: JsonValue)
    ensures
        j@ == encoded_color(c),
{
    let mut fields: Vec<(String, JsonValue)> = Vec::new();
    fields.push((String::from_str("r"), JsonValue::Int(c.r as i64)));
    fields.push((String::from_str("g"), JsonValue::Int(c.g as i64)));
    fields.push((String::from_str("b"), JsonValue::Int(c.b as i64)));
    fields.push((String::from_str("a"), JsonValue::Int(c.a as i64)));
    let j = JsonValue::Object(fields);
    proof {
        reveal_with_fuel(json_view, 2);
    }
    assert(j@->Object_0 =~= encoded_color(c)->Object_0);
    j
}

/// The canonical JSON form of a cell and everything under it.
pub fn encode_cell(c: &Cell) -> (j: JsonValue)
    ensures
        j@ == encoded_cell(c@),
    decreases c@,
{
    let ghost cv = c@;
    let ghost ch = Seq::new(
        cv.children.len(),
        |i: int|
            if 0 <= i < cv.children.len() {
                encoded_cell(cv.children[i])
            } else {
                Json::Null
            },
    );
    let mut items: Vec<JsonValue> = Vec::new();
    let mut i: usize = 0;
    while i < c.children.len()
        invariant
            i <= c.children@.len(),
            cv == c@,
            cv.children.len() == c.children@.len(),
            ch.len() == cv.children.len(),
            forall|k: int| 0 <= k < ch.len() ==> #[trigger] ch[k] == encoded_cell(cv.children[k]),
            items@.len() == i,
            forall|k: int| 0 <= k < i ==> #[trigger] items@[k]@ == ch[k],
        decreases c.children@.len() - i,
    {
        assert(cv.children[i as int] == c.children@[i as int]@);
        let e = encode_cell(&c.children[i]);
        items.push(e);
        assert(items@[i as int]@ == ch[i as int]);
        i = i + 1;
    }
    let ghost item_seq = items@;
    let array = JsonValue::Array(items);
    assert(array@->Array_0 =~= ch) by {
        assert forall|k: int| 0 <= k < ch.len() implies array@->Array_0[k] == ch[k] by {
            assert(item_seq[k]@ == ch[k]);
        }
    }
    let mut fields: Vec<(String, JsonValue)> = Vec::new();
    fields.push((String::from_str("text"), JsonValue::Str(c.text.clone())));
    fields.push((String::from_str("children"), array));
    fields.push((String::from_str("cell_type"), JsonValue::Str(String::from_str(cell_type_name(c.cell_type)))));
    fields.push((String::from_str("style"), JsonValue::Int(c.style.0 as i64)));
    fields.push((String::from_str("rel_size"), JsonValue::Int(c.rel_size as i64)));
    fields.push((String::from_str("cell_color"), encode_color(c.cell_color)));
    fields.push((String::from_str("text_color"), encode_color(c.text_color)));
    fields.push((String::from_str("folded"), JsonValue::Bool(c.folded)));
    fields.push((String::from_str("layout"), JsonValue::Str(String::from_str(layout_name(c.layout)))));
    match &c.image {
        Some(img) => {
            fields.push((String::from_str("image"), JsonValue::Str(img.clone())));
        },
        None => {},
    }
    fields.push((String::from_str("border_color"), encode_color(c.border_color)));
    let j = JsonValue::Object(fields);
    proof {
        reveal_with_fuel(json_view, 2);
    }
    assert(j@->Object_0 =~= encoded_members(cv, ch));
    let ghost enc = encoded_cell(cv)->Object_0;
    assert(enc[1].1->Array_0 =~= ch);
    assert(enc =~= encoded_members(cv, ch));
    j
}

/// The canonical JSON form of a sheet.
pub fn encode_sheet(s: &Sheet) -> (j: JsonValue)
    ensures
        j@ == encoded_sheet(s@),
{
    let mut fields: Vec<(String, JsonValue)> = Vec::new();
    fields.push((String::from_str("title"), JsonValue::Str(s.title.clone())));
    fields.push((String::from_str("root"), encode_cell(&s.root)));
    let j = JsonValue::Object(fields);
    proof {
        reveal_with_fuel(json_view, 2);
    }
    assert(j@->Object_0 =~= encoded_sheet(s@)->Object_0);
    j
}

fn has_text(s: &String, lit: &str) -> (r: bool)
    ensures
        r == (s@ == lit@),
{
    let k = String::from_str(lit);
    *s == k
}

fn cell_type_of_name(s: &String) -> (r: Option<CellType>)
    ensures
        r == cell_type_of_tag(s@),
{
    if has_text(s, "data") {
        Some(CellType::Data)
    } else if has_text(s, "code") {
        Some(CellType::Code)
    } else if has_text(s, "varassign") {
        Some(CellType::VarAssign)
    } else if has_text(s, "varread") {
        Some(CellType::VarRead)
    } else if has_text(s, "viewhorizontal") {
        Some(CellType::ViewHorizontal)
    } else if has_text(s, "viewvertical") {
        Some(CellType::ViewVertical)
    } else {
        None
    }
}

fn layout_of_name(s: &String) -> (r: Option<GridLayout>)
    ensures
        r == layout_of_tag(s@),
{
    if has_text(s, "horizontal") {
        Some(GridLayout::Horizontal)
    } else if has_text(s, "vertical") {
        Some(GridLayout::Vertical)
    } else {
        None
    }
}

fn decode_byte(fields: &Vec<(String, JsonValue)>, key: &str) -> (r: Option<u8>)
    ensures
        r == byte_member(members_view(*fields), key@),
{
    match find_field(fields, key) {
        Some(JsonValue::Int(n)) => if 0 <= *n && *n <= 255 {
            Some(*n as u8)
        } else {
            None
        },
        _ => None,
    }
}

/// The color that a JSON value stands for, if it is one.
pub fn decode_color(j: &JsonValue) -> (r: Option<Color>)
    ensures
        r == decoded_color(j@),
{
    match j {
        JsonValue::Object(fields) => {
            let r = decode_byte(fields, "r");
            let g = decode_byte(fields, "g");
            let b = decode_byte(fields, "b");
            let a = decode_byte(fields, "a");
            match (r, g, b, a) {
                (Some(r), Some(g), Some(b), Some(a)) => Some(Color { r, g, b, a }),
                _ => None,
            }
        },
        _ => None,
    }
}

fn decode_cell_type(fields: &Vec<(String, JsonValue)>) -> (r: Result<CellType, DecodeError>)
    ensures
        r == cell_type_field(members_view(*fields)),
{
    match find_field(fields, "cell_type") {
        None => Ok(CellType::Data),
        Some(JsonValue::Str(t)) => match cell_type_of_name(t) {
            Some(ct) => Ok(ct),
            None => Err(DecodeError::InvalidCellType),
        },
        Some(_) => Err(DecodeError::InvalidCellType),
    }
}

fn decode_style(fields: &Vec<(String, JsonValue)>) -> (r: Result<StyleBits, DecodeError>)
    ensures
        r == style_field(members_view(*fields)),
{
    match find_field(fields, "style") {
        None => Ok(StyleBits(0)),
        Some(JsonValue::Int(n)) => if 0 <= *n && *n <= 0xffff_ffff {
            Ok(StyleBits(*n as u32))
        } else {
            Err(DecodeError::InvalidStyle)
        },
        Some(_) => Err(DecodeError::InvalidStyle),
    }
}

fn decode_rel_size(fields: &Vec<(String, JsonValue)>) -> (r: Result<i32, DecodeError>)
    ensures
        r == rel_size_field(members_view(*fields)),
{
    match find_field(fields, "rel_size") {
        None => Ok(0),
        Some(JsonValue::Int(n)) => if -0x8000_0000 <= *n && *n <= 0x7fff_ffff {
            Ok(*n as i32)
        } else {
            Err(DecodeError::InvalidRelSize)
        },
        Some(_) => Err(DecodeError::InvalidRelSize),
    }
}

fn decode_color_member(fields: &Vec<(String, JsonValue)>, key: &str, default: Color) -> (r: Result<
    Color,
    DecodeError,
>)
    ensures
        r == color_field(members_view(*fields), key@, default),
{
    match find_field(fields, key) {
        None => Ok(default),
        Some(j) => match decode_color(j) {
            Some(c) => Ok(c),
            None => Err(DecodeError::InvalidColor),
        },
    }
}

fn decode_folded(fields: &Vec<(String, JsonValue)>) -> (r: Result<bool, DecodeError>)
    ensures
        r == folded_field(members_view(*fields)),
{
    match find_field(fields, "folded") {
        None => Ok(false),
        Some(JsonValue::Bool(b)) => Ok(*b),
        Some(_) => Err(DecodeError::InvalidFolded),
    }
}

fn decode_layout(fields: &Vec<(String, JsonValue)>) -> (r: Result<GridLayout, DecodeError>)
    ensures
        r == layout_field(members_view(*fields)),
{
    match find_field(fields, "layout") {
        None => Ok(GridLayout::Vertical),
        Some(JsonValue::Str(t)) => match layout_of_name(t) {
            Some(l) => Ok(l),
            None => Err(DecodeError::InvalidLayout),
        },
        Some(_) => Err(DecodeError::InvalidLayout),
    }
}

fn decode_image(fields: &Vec<(String, JsonValue)>) -> (r: Result<Option<String>, DecodeError>)
    ensures
        match r {
            Ok(img) => image_field(members_view(*fields)) == Ok::<Option<Seq<char>>, DecodeError>(opt_view(img)),
            Err(e) => image_field(members_view(*fields)) == Err::<Option<Seq<char>>, DecodeError>(e),
        },
{
    match find_field(fields, "image") {
        None => Ok(None),
        Some(JsonValue::Null) => Ok(None),
        Some(JsonValue::Str(t)) => Ok(Some(t.clone())),
        Some(_) => Err(DecodeError::InvalidImage),
    }
}

/// A decoded cell or error, seen as its mathematical value.
pub open spec fn cell_result_view(r: Result<Cell, DecodeError>) -> Result<CellView, DecodeError> {
    match r {
        Ok(c) => Ok(c@),
        Err(e) => Err(e),
    }
}

/// A decoded sheet or error, seen as its mathematical value.
pub open spec fn sheet_result_view(r: Result<Sheet, DecodeError>) -> Result<SheetView, DecodeError> {
    match r {
        Ok(s) => Ok(s@),
        Err(e) => Err(e),
    }
}

/// The cell that a JSON value stands for, with every missing optional member at
/// its default, or the first structural expectation that the value breaks.
pub fn decode_cell(j: &JsonValue) -> (r: Result<Cell, DecodeError>)
    ensures
        cell_result_view(r) == decoded_cell(j@),
    decreases j@,
{
    match j {
        JsonValue::Object(fields) => {
            let ghost fs = members_view(*fields);
            assert(j@ == Json::Object(fs));
            let text = match find_field(fields, "text") {
                Some(JsonValue::Str(t)) => t.clone(),
                Some(_) => {
                    return Err(DecodeError::TextNotString);
                },
                None => {
                    return Err(DecodeError::MissingText);
                },
            };
            let mut children: Vec<Cell> = Vec::new();
            let ghost decoded: Seq<CellView>;
            match find_field(fields, "children") {
                None => {
                    proof {
                        decoded = Seq::empty();
                    }
                },
                Some(JsonValue::Array(items)) => {
                    let ghost arr = json_view(JsonValue::Array(*items))->Array_0;
                    let mut i: usize = 0;
                    while i < items.len()
                        invariant
                            i <= items@.len(),
                            arr.len() == items@.len(),
                            forall|k: int| 0 <= k < items@.len() ==> #[trigger] arr[k] == items@[k]@,
                            member(fs, "children"@) == Some(Json::Array(arr)),
                            j@ == Json::Object(fs),
                            member(fs, "text"@) == Some(Json::Str(text@)),
                            children@.len() == i,
                            decoded_children(arr, i as int) matches Ok(p) && p.len() == i && forall|k: int|
                                0 <= k < i ==> #[trigger] p[k] == children@[k]@,
                        decreases items@.len() - i,
                    {
                        assert(arr[i as int] == items@[i as int]@);
                        let ghost prev = decoded_children(arr, i as int)->Ok_0;
                        match decode_cell(&items[i]) {
                            Ok(c) => {
                                children.push(c);
                                assert(decoded_children(arr, i + 1) == Ok::<Seq<CellView>, DecodeError>(
                                    prev.push(children@[i as int]@)));
                            },
                            Err(e) => {
                                assert(decoded_children(arr, i + 1) == Err::<Seq<CellView>, DecodeError>(e));
                                proof {
                                    lemma_children_error_stays(arr, i + 1, arr.len() as int);
                                }
                                return Err(e);
                            },
                        }
                        i = i + 1;
                    }
                    proof {
                        decoded = decoded_children(arr, arr.len() as int)->Ok_0;
                    }
                    assert(decoded.len() == children@.len());
                    assert(forall|k: int| 0 <= k < decoded.len() ==> decoded[k] == children@[k]@);
                },
                Some(_) => {
                    return Err(DecodeError::ChildrenNotArray);
                },
            }
            let cell_type = match decode_cell_type(fields) {
                Ok(x) => x,
                Err(e) => {
                    return Err(e);
                },
            };
            let style = match decode_style(fields) {
                Ok(x) => x,
                Err(e) => {
                    return Err(e);
                },
            };
            let rel_size = match decode_rel_size(fields) {
                Ok(x) => x,
                Err(e) => {
                    return Err(e);
                },
            };
            let cell_color = match decode_color_member(fields, "cell_color", Color::white()) {
                Ok(x) => x,
                Err(e) => {
                    return Err(e);
                },
            };
            let text_color = match decode_color_member(fields, "text_color", Color::black()) {
                Ok(x) => x,
                Err(e) => {
                    return Err(e);
                },
            };
            let folded = match decode_folded(fields) {
                Ok(x) => x,
                Err(e) => {
                    return Err(e);
                },
            };
            let layout = match decode_layout(fields) {
                Ok(x) => x,
                Err(e) => {
                    return Err(e);
                },
            };
            let image = match decode_image(fields) {
                Ok(x) => x,
                Err(e) => {
                    return Err(e);
                },
            };
            let border_color = match decode_color_member(fields, "border_color", Color::white()) {
                Ok(x) => x,
                Err(e) => {
                    return Err(e);
                },
            };
            let ghost child_views = children@;
            let c = Cell {
                text,
                children,
                cell_type,
                style,
                rel_size,
                cell_color,
                text_color,
                folded,
                layout,
                image,
                border_color,
            };
            assert(c@.children =~= decoded);
            Ok(c)
        },
        _ => Err(DecodeError::CellNotObject),
    }
}

/// The sheet that a JSON value stands for, or the first structural expectation
/// that the value breaks; on failure no part of a sheet is returned.
pub fn decode_sheet(j: &JsonValue) -> (r: Result<Sheet, DecodeError>)
    ensures
        sheet_result_view(r) == decoded_sheet(j@),
{
    match j {
        JsonValue::Object(fields) => {
            let title = match find_field(fields, "title") {
                Some(JsonValue::Str(t)) => t.clone(),
                Some(_) => {
                    return Err(DecodeError::TitleNotString);
                },
                None => {
                    return Err(DecodeError::MissingTitle);
                },
            };
            match find_field(fields, "root") {
                Some(rj) => match decode_cell(rj) {
                    Ok(root) => Ok(Sheet { title, root }),
                    Err(e) => Err(e),
                },
                None => Err(DecodeError::MissingRoot),
            }
        },
        _ => Err(DecodeError::SheetNotObject),
    }
}

/// Whether a JSON value has the shape of a cell: an object whose `text` is a
/// string and whose `children`, if present, is an array of such values.
pub fn validate_cell(j: &JsonValue) -> (r: bool)
    ensures
        r == cell_shape_ok(j@),
    decreases j@,
{
    match j {
        JsonValue::Object(fields) => {
            let ghost fs = members_view(*fields);
            assert(j@ == Json::Object(fs));
            match find_field(fields, "text") {
                Some(JsonValue::Str(_)) => {},
                _ => {
                    return false;
                },
            }
            match find_field(fields, "children") {
                None => true,
                Some(JsonValue::Array(items)) => {
                    let ghost arr = json_view(JsonValue::Array(*items))->Array_0;
                    let mut i: usize = 0;
                    while i < items.len()
                        invariant
                            i <= items@.len(),
                            arr.len() == items@.len(),
                            forall|k: int| 0 <= k < items@.len() ==> #[trigger] arr[k] == items@[k]@,
                            member(fs, "children"@) == Some(Json::Array(arr)),
                            j@ == Json::Object(fs),
                            member(fs, "text"@) matches Some(Json::Str(_)),
                            all_cell_shapes_ok(arr, i as int),
                        decreases items@.len() - i,
                    {
                        assert(arr[i as int] == items@[i as int]@);
                        proof {
                            let idx = find_key(fs, "children"@)->Some_0;
                            assert(0 <= idx < fs.len());
                            assert(fs[idx].1 == Json::Array(arr));
                            lemma_member_item_decreases(j@, "children"@, i as int);
                        }
                        if !validate_cell(&items[i]) {
                            assert(!all_cell_shapes_ok(arr, i + 1));
                            proof {
                                lemma_shapes_failure_stays(arr, i + 1, arr.len() as int);
                            }
                            return false;
                        }
                        i = i + 1;
                    }
                    true
                },
                Some(_) => false,
            }
        },
        _ => false,
    }
}

/// Whether a JSON value has the shape of a sheet: an object whose `title` is a
/// string and whose `root` has the shape of a cell. Other members, and the
/// values of the optional members of cells, are not looked at.
pub fn validate_sheet_json(j: &JsonValue) -> (r: bool)
    ensures
        r == sheet_shape_ok(j@),
{
    match j {
        JsonValue::Object(fields) => {
            match find_field(fields, "title") {
                Some(JsonValue::Str(_)) => {},
                _ => {
                    return false;
                },
            }
            match find_field(fields, "root") {
                Some(rj) => validate_cell(rj),
                None => false,
            }
        },
        _ => false,
    }
}

proof fn lemma_member_item_decreases(j: Json, key: Seq<char>, i: int)
    requires
        j is Object,
        member(j->Object_0, key) matches Some(Json::Array(items)) && 0 <= i < items.len(),
    ensures
        decreases_to!(j => member(j->Object_0, key)->Some_0->Array_0[i]),
{
    match j {
        Json::Object(fs) => {
            let idx = find_key(fs, key)->Some_0;
            match fs[idx].1 {
                Json::Array(items) => {
                    assert(decreases_to!(fs => fs[idx]));
                    assert(decreases_to!(items => items[i]));
                },
                _ => {},
            }
        },
        _ => {},
    }
}

proof fn lemma_shapes_failure_stays(items: Seq<Json>, i: int, n: int)
    requires
        0 < i <= n <= items.len(),
        !all_cell_shapes_ok(items, i),
    ensures
        !all_cell_shapes_ok(items, n),
    decreases n - i,
{
    if n > i {
        lemma_shapes_failure_stays(items, i, n - 1);
    }
}

proof fn lemma_children_error_stays(items: Seq<Json>, i: int, n: int)
    requires
        0 < i <= n <= items.len(),
        decoded_children(items, i) is Err,
    ensures
        decoded_children(items, n) == decoded_children(items, i),
    decreases n - i,
{
    if n > i {
        lemma_children_error_stays(items, i, n - 1);
    }
}

// ---- laws ----

proof fn lemma_key_literals()
    ensures
        "text"@.len() == 4,
        "children"@.len() == 8,
        "cell_type"@.len() == 9,
        "style"@.len() == 5,
        "rel_size"@.len() == 8,
        "cell_color"@.len() == 10,
        "text_color"@.len() == 10,
        "folded"@.len() == 6,
        "layout"@.len() == 6,
        "image"@.len() == 5,
        "border_color"@.len() == 12,
        "children"@ != "rel_size"@,
        "style"@ != "image"@,
        "cell_color"@ != "text_color"@,
        "folded"@ != "layout"@,
        "title"@ != "root"@,
        "r"@ != "g"@,
        "r"@ != "b"@,
        "r"@ != "a"@,
        "g"@ != "b"@,
        "g"@ != "a"@,
        "b"@ != "a"@,
{
    reveal_strlit("text");
    reveal_strlit("children");
    reveal_strlit("cell_type");
    reveal_strlit("style");
    reveal_strlit("rel_size");
    reveal_strlit("cell_color");
    reveal_strlit("text_color");
    reveal_strlit("folded");
    reveal_strlit("layout");
    reveal_strlit("image");
    reveal_strlit("border_color");
    reveal_strlit("title");
    reveal_strlit("root");
    reveal_strlit("r");
    reveal_strlit("g");
    reveal_strlit("b");
    reveal_strlit("a");
    assert("children"@[0] != "rel_size"@[0]);
    assert("style"@[0] != "image"@[0]);
    assert("cell_color"@[0] != "text_color"@[0]);
    assert("folded"@[0] != "layout"@[0]);
    assert("title"@[1] != "root"@[1]);
    assert("r"@[0] != "g"@[0]);
    assert("r"@[0] != "b"@[0]);
    assert("r"@[0] != "a"@[0]);
    assert("g"@[0] != "b"@[0]);
    assert("g"@[0] != "a"@[0]);
    assert("b"@[0] != "a"@[0]);
}

proof fn lemma_tags_round_trip(t: CellType, l: GridLayout)
    ensures
        cell_type_of_tag(cell_type_tag(t)) == Some(t),
        layout_of_tag(layout_tag(l)) == Some(l),
{
    reveal_strlit("data");
    reveal_strlit("code");
    reveal_strlit("varassign");
    reveal_strlit("varread");
    reveal_strlit("viewhorizontal");
    reveal_strlit("viewvertical");
    reveal_strlit("horizontal");
    reveal_strlit("vertical");
    assert("data"@[0] != "code"@[0]);
    assert("varassign"@[3] != "varread"@[3]);
    assert("viewhorizontal"@[4] != "viewvertical"@[4]);
    assert("horizontal"@.len() != "vertical"@.len());
}

proof fn lemma_color_round_trip(c: Color)
    ensures
        decoded_color(encoded_color(c)) == Some(c),
{
    lemma_key_literals();
    let fs = encoded_color(c)->Object_0;
    lemma_find_key_at(fs, "r"@, 0);
    lemma_find_key_at(fs, "g"@, 1);
    lemma_find_key_at(fs, "b"@, 2);
    lemma_find_key_at(fs, "a"@, 3);
}

proof fn lemma_members_lookup(c: CellView, ch: Seq<Json>)
    ensures
        ({
            let fs = encoded_members(c, ch);
            &&& member(fs, "text"@) == Some(Json::Str(c.text))
            &&& find_key(fs, "children"@) == Some(1int)
            &&& fs[1].1 == Json::Array(ch)
            &&& cell_type_field(fs) == Ok::<CellType, DecodeError>(c.cell_type)
            &&& style_field(fs) == Ok::<StyleBits, DecodeError>(c.style)
            &&& rel_size_field(fs) == Ok::<i32, DecodeError>(c.rel_size)
            &&& color_field(fs, "cell_color"@, white_color()) == Ok::<Color, DecodeError>(c.cell_color)
            &&& color_field(fs, "text_color"@, black_color()) == Ok::<Color, DecodeError>(c.text_color)
            &&& folded_field(fs) == Ok::<bool, DecodeError>(c.folded)
            &&& layout_field(fs) == Ok::<GridLayout, DecodeError>(c.layout)
            &&& image_field(fs) == Ok::<Option<Seq<char>>, DecodeError>(c.image)
            &&& assembled_cell(c.text, Ok(c.children), fs) == Ok::<CellView, DecodeError>(c)
        }),
{
    lemma_key_literals();
    lemma_tags_round_trip(c.cell_type, c.layout);
    lemma_color_round_trip(c.cell_color);
    lemma_color_round_trip(c.text_color);
    lemma_color_round_trip(c.border_color);
    let fs = encoded_members(c, ch);
    lemma_find_key_at(fs, "text"@, 0);
    lemma_find_key_at(fs, "children"@, 1);
    lemma_find_key_at(fs, "cell_type"@, 2);
    lemma_find_key_at(fs, "style"@, 3);
    lemma_find_key_at(fs, "rel_size"@, 4);
    lemma_find_key_at(fs, "cell_color"@, 5);
    lemma_find_key_at(fs, "text_color"@, 6);
    lemma_find_key_at(fs, "folded"@, 7);
    lemma_find_key_at(fs, "layout"@, 8);
    match c.image {
        Some(_) => {
            lemma_find_key_at(fs, "image"@, 9);
            lemma_find_key_at(fs, "border_color"@, 10);
        },
        None => {
            lemma_find_key_absent(fs, "image"@);
            lemma_find_key_at(fs, "border_color"@, 9);
        },
    }
}

/// Decoding the canonical form of a cell gives the cell back.
pub proof fn lemma_cell_round_trip(c: CellView)
    ensures
        decoded_cell(encoded_cell(c)) == Ok::<CellView, DecodeError>(c),
    decreases c, c.children.len() + 1,
{
    let ch = Seq::new(
        c.children.len(),
        |i: int|
            if 0 <= i < c.children.len() {
                encoded_cell(c.children[i])
            } else {
                Json::Null
            },
    );
    let fs = encoded_members(c, ch);
    let enc = encoded_cell(c)->Object_0;
    assert(enc[1].1->Array_0 =~= ch);
    assert(enc =~= fs);
    lemma_members_lookup(c, ch);
    lemma_children_round_trip(c, ch, ch.len() as int);
    assert(decoded_children(ch, ch.len() as int) == Ok::<Seq<CellView>, DecodeError>(c.children.take(ch.len() as int)));
    assert(c.children.take(ch.len() as int) =~= c.children);
}

proof fn lemma_children_round_trip(c: CellView, ch: Seq<Json>, n: int)
    requires
        ch.len() == c.children.len(),
        0 <= n <= ch.len(),
        forall|k: int| 0 <= k < ch.len() ==> #[trigger] ch[k] == encoded_cell(c.children[k]),
    ensures
        decoded_children(ch, n) == Ok::<Seq<CellView>, DecodeError>(c.children.take(n)),
    decreases c, n,
{
    if n > 0 {
        lemma_children_round_trip(c, ch, n - 1);
        lemma_cell_round_trip(c.children[n - 1]);
        assert(c.children.take(n - 1).push(c.children[n - 1]) =~= c.children.take(n));
    } else {
        assert(c.children.take(0) =~= Seq::<CellView>::empty());
    }
}

/// Decoding the canonical form of a sheet gives the sheet back.
pub proof fn lemma_sheet_round_trip(s: SheetView)
    ensures
        decoded_sheet(encoded_sheet(s)) == Ok::<SheetView, DecodeError>(s),
{
    lemma_key_literals();
    let fs = encoded_sheet(s)->Object_0;
    lemma_find_key_at(fs, "title"@, 0);
    lemma_find_key_at(fs, "root"@, 1);
    lemma_cell_round_trip(s.root);
}

/// The canonical form of every cell has the shape of a cell.
pub proof fn lemma_encoded_cell_valid(c: CellView)
    ensures
        cell_shape_ok(encoded_cell(c)),
    decreases c, c.children.len() + 1,
{
    let ch = Seq::new(
        c.children.len(),
        |i: int|
            if 0 <= i < c.children.len() {
                encoded_cell(c.children[i])
            } else {
                Json::Null
            },
    );
    let fs = encoded_members(c, ch);
    let enc = encoded_cell(c)->Object_0;
    assert(enc[1].1->Array_0 =~= ch);
    assert(enc =~= fs);
    lemma_members_lookup(c, ch);
    lemma_encoded_children_valid(c, ch, ch.len() as int);
    assert(encoded_cell(c) == Json::Object(fs));
}

proof fn lemma_encoded_children_valid(c: CellView, ch: Seq<Json>, n: int)
    requires
        ch.len() == c.children.len(),
        0 <= n <= ch.len(),
        forall|k: int| 0 <= k < ch.len() ==> #[trigger] ch[k] == encoded_cell(c.children[k]),
    ensures
        all_cell_shapes_ok(ch, n),
    decreases c, n,
{
    if n > 0 {
        lemma_encoded_children_valid(c, ch, n - 1);
        lemma_encoded_cell_valid(c.children[n - 1]);
    }
}

/// The canonical form of every sheet passes validation.
pub proof fn lemma_encoded_sheet_valid(s: SheetView)
    ensures
        sheet_shape_ok(encoded_sheet(s)),
{
    lemma_key_literals();
    let fs = encoded_sheet(s)->Object_0;
    lemma_find_key_at(fs, "title"@, 0);
    lemma_find_key_at(fs, "root"@, 1);
    lemma_encoded_cell_valid(s.root);
}

/// The smallest document: a title and a root that has only its text.
pub open spec fn minimal_document(title: Seq<char>, text: Seq<char>) -> Json {
    Json::Object(
        seq![
            ("title"@, Json::Str(title)),
            ("root"@, Json::Object(seq![("text"@, Json::Str(text))])),
        ],
    )
}

/// A document that gives only a title and the root's text decodes to a sheet
/// whose root has every optional field at its default.
pub proof fn lemma_minimal_document_defaults(title: Seq<char>, text: Seq<char>)
    ensures
        decoded_sheet(minimal_document(title, text)) == Ok::<SheetView, DecodeError>(
            SheetView { title, root: leaf_view(text) },
        ),
{
    lemma_key_literals();
    reveal_strlit("title");
    reveal_strlit("root");
    reveal_strlit("text");
    let fs = minimal_document(title, text)->Object_0;
    lemma_find_key_at(fs, "title"@, 0);
    lemma_find_key_at(fs, "root"@, 1);
    let cfs = seq![("text"@, Json::Str(text))];
    lemma_find_key_at(cfs, "text"@, 0);
    lemma_find_key_absent(cfs, "children"@);
    lemma_find_key_absent(cfs, "cell_type"@);
    lemma_find_key_absent(cfs, "style"@);
    lemma_find_key_absent(cfs, "rel_size"@);
    lemma_find_key_absent(cfs, "cell_color"@);
    lemma_find_key_absent(cfs, "text_color"@);
    lemma_find_key_absent(cfs, "folded"@);
    lemma_find_key_absent(cfs, "layout"@);
    lemma_find_key_absent(cfs, "image"@);
    lemma_find_key_absent(cfs, "border_color"@);
    assert(decoded_cell(Json::Object(cfs)) == Ok::<CellView, DecodeError>(leaf_view(text)));
}

/// Every cell that decodes has the shape that validation asks of a cell.
pub proof fn lemma_decodable_cell_valid(j: Json)
    requires
        decoded_cell(j) is Ok,
    ensures
        cell_shape_ok(j),
    decreases j, 0int,
{
    match j {
        Json::Object(fs) => {
            match find_key(fs, "children"@) {
                Some(idx) => {
                    if 0 <= idx < fs.len() {
                        match fs[idx].1 {
                            Json::Array(items) => {
                                lemma_decodable_children_valid(items, items.len() as int);
                            },
                            _ => {},
                        }
                    }
                },
                None => {},
            }
        },
        _ => {},
    }
}

proof fn lemma_decodable_children_valid(items: Seq<Json>, n: int)
    requires
        decoded_children(items, n) is Ok,
    ensures
        all_cell_shapes_ok(items, n),
    decreases items, n,
{
    if 0 < n <= items.len() {
        lemma_decodable_children_valid(items, n - 1);
        lemma_decodable_cell_valid(items[n - 1]);
    }
}

/// Every document that decodes to a sheet passes validation.
pub proof fn lemma_decodable_sheet_valid(j: Json)
    requires
        decoded_sheet(j) is Ok,
    ensures
        sheet_shape_ok(j),
{
    match j {
        Json::Object(fs) => {
            match member(fs, "root"@) {
                Some(r) => lemma_decodable_cell_valid(r),
                None => {},
            }
        },
        _ => {},
    }
}

} // verus!
