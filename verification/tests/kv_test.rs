use source_formats::kv::de::Deserializer;
use source_formats::kv::error::Error;
use source_formats::kv::from::{field, field_opt, field_or, field_vec, from_str, from_value, FromKv};
use source_formats::kv::ser::to_string;
use source_formats::kv::value::{Entry, Value};

#[derive(Debug, PartialEq)]
struct Simple {
    key: String,
    num: i32,
    flag: bool,
}

impl FromKv for Simple {
    fn from_kv(v: &Value) -> Result<Self, Error> {
        Ok(Simple {
            key: field(v, "key")?,
            num: field(v, "num")?,
            flag: field_or(v, "flag", false)?,
        })
    }
}

#[test]
fn test_from_value() {
    let input = r#"
        "key" "value"
        "num" "123"
        "flag" "1"
    "#;
    let mut de = Deserializer::from_str(input);
    let value: Value = de.parse_root().unwrap();

    let simple: Simple = from_value(value).unwrap();
    assert_eq!(simple.key, "value");
    assert_eq!(simple.num, 123);
    assert_eq!(simple.flag, true);
}

#[test]
fn test_simple_kv() {
    let input = r#"
        "key" "value"
        "num" "123"
        "flag" "1"
    "#;
    let simple: Simple = from_str(input).unwrap();
    assert_eq!(simple.key, "value");
    assert_eq!(simple.num, 123);
    assert_eq!(simple.flag, true);
}

#[derive(Debug, PartialEq)]
struct Child {
    id: i32,
}

impl FromKv for Child {
    fn from_kv(v: &Value) -> Result<Self, Error> {
        Ok(Child { id: field(v, "id")? })
    }
}

#[derive(Debug, PartialEq)]
struct Nested {
    name: String,
    children: Vec<Child>,
}

impl FromKv for Nested {
    fn from_kv(v: &Value) -> Result<Self, Error> {
        Ok(Nested { name: field(v, "name")?, children: field_vec(v, "child")? })
    }
}

fn str_value(s: &str) -> Value {
    Value::Str(s.to_string())
}

fn obj(entries: Vec<(&str, Vec<Value>)>) -> Value {
    Value::Obj(entries.into_iter().map(|(k, vs)| Entry { key: k.to_string(), values: vs }).collect())
}

#[test]
fn test_nested_vec() {
    let input = r#"
        "name" "parent"
        "child"
        {
            "id" "1"
        }
        "child"
        {
            "id" "2"
        }
    "#;

    let nested: Nested = from_str(input).unwrap();
    assert_eq!(nested.name, "parent");
    assert_eq!(nested.children.len(), 2);
    assert_eq!(nested.children[0].id, 1);
    assert_eq!(nested.children[1].id, 2);

    let value = obj(vec![
        ("name", vec![str_value(&nested.name)]),
        (
            "child",
            nested.children.iter().map(|c| obj(vec![("id", vec![str_value(&c.id.to_string())])])).collect(),
        ),
    ]);
    let output = to_string(&value).unwrap();
    assert!(output.contains("child"));
    assert!(output.contains("\"id\" \"1\""));
    assert!(output.contains("\"id\" \"2\""));
}

struct SimpleUnquoted {
    key: String,
    num: i32,
}

impl FromKv for SimpleUnquoted {
    fn from_kv(v: &Value) -> Result<Self, Error> {
        Ok(SimpleUnquoted { key: field(v, "key")?, num: field(v, "num")? })
    }
}

#[test]
fn test_unquoted_keys() {
    let input = r#"
        key "value"
        num "123"
    "#;
    let simple: SimpleUnquoted = from_str(input).unwrap();
    assert_eq!(simple.key, "value");
    assert_eq!(simple.num, 123);
}

#[test]
fn test_root_map() {
    let input = r#"
        "key" "value"
    "#;
    let map: Value = from_str(input).unwrap();
    assert_eq!(map.get_string("key").unwrap(), "value");
}

#[test]
fn test_backslash_keeps_utf8() {
    let input = "root { \"msg\" \"path C:\\dir\" \"quoted\" \"say \\\"hi\\\"\" }";
    let mut de = Deserializer::from_str(input);
    let root = de.parse_root().unwrap();
    let obj = root.get("root").unwrap();

    assert_eq!(obj.get_string("msg"), Some("path C:\\dir"));
    assert_eq!(obj.get_string("quoted"), Some("say \\\"hi\\\""));
}

#[test]
fn test_keys_keep_case_but_match_insensitively() {
    let input = "root { \"bSnapToGrid\" \"1\" }";
    let mut de = Deserializer::from_str(input);
    let root = de.parse_root().unwrap();
    let obj = root.get("root").unwrap();

    assert!(obj.as_obj().unwrap().iter().any(|e| e.key == "bSnapToGrid"));
    assert_eq!(obj.get_string("bsnaptogrid"), Some("1"));
    assert_eq!(obj.get_string("BSNAPTOGRID"), Some("1"));
}

#[derive(Debug, PartialEq)]
struct PbrParams {
    mrao: String,
    uv_scale: f32,
    metalness: f32,
}

fn float_field(v: &Value, name: &str, default: f32) -> Result<f32, Error> {
    let text: Option<String> = field_opt(v, name)?;
    Ok(match text {
        Some(t) => t.parse().unwrap_or(default),
        None => default,
    })
}

impl FromKv for PbrParams {
    fn from_kv(v: &Value) -> Result<Self, Error> {
        Ok(PbrParams {
            mrao: field_or(v, "$mraotexture", String::new())?,
            uv_scale: float_field(v, "$uv_scale", 1.0)?,
            metalness: float_field(v, "$metalnessscale", 1.0)?,
        })
    }
}

#[test]
fn struct_fields_match_keys_regardless_of_case() {
    let input = r#"
        "$MraoTexture" "pbr/concrete/concrete_floor_01_MRAO"
        $UV_Scale 4
        $MetalnessScale "0.67"
    "#;
    let p: PbrParams = from_str(input).unwrap();

    assert_eq!(p.mrao, "pbr/concrete/concrete_floor_01_MRAO", "value case must be preserved");
    assert_eq!(p.uv_scale, 4.0);
    assert!((p.metalness - 0.67).abs() < 1e-6);
}

#[test]
fn parsed_keys_keep_their_authored_case() {
    let mut de = Deserializer::from_str(r#""$MraoTexture" "x""#);
    let value: Value = de.parse_root().unwrap();

    let map = value.as_obj().unwrap();
    assert!(map.iter().any(|e| e.key == "$MraoTexture"), "stored key was rewritten");
    assert_eq!(value.get_string("$mraotexture"), Some("x"));
}

#[test]
fn serializer_writes_blocks_and_escapes_nothing_it_does_not_need_to() {
    let value = obj(vec![("root", vec![obj(vec![("k", vec![str_value("v")])])])]);
    let text = to_string(&value).unwrap();
    let mut de = Deserializer::from_str(&text);
    let back = de.parse_root().unwrap();
    assert_eq!(back.get("root").unwrap().get_string("k"), Some("v"));
}

#[test]
fn unterminated_block_is_an_error() {
    let mut de = Deserializer::from_str("root { \"k\" \"v\"");
    assert!(de.parse_root().is_err());
}

#[test]
fn written_document_reads_back_as_itself() {
    let value = obj(vec![
        ("name", vec![str_value("two words"), str_value("again")]),
        ("solid", vec![obj(vec![("id", vec![str_value("7")]), ("side", vec![obj(vec![]), obj(vec![("plane", vec![str_value("(0 0 0)")])])])])]),
        ("empty", vec![str_value("")]),
    ]);
    let text = to_string(&value).unwrap();
    let mut de = Deserializer::from_str(&text);
    let back = de.parse_root().unwrap();
    assert_eq!(back, value);
}

#[test]
fn backslashes_and_escaped_quotes_read_back_as_written() {
    let value = obj(vec![
        ("path", vec![str_value("C:\\maps\\x.vmf")]),
        ("say", vec![str_value("he said \\\"hi\\\"")]),
        ("tail", vec![str_value("two\\\\")]),
    ]);
    let text = to_string(&value).unwrap();
    let mut de = Deserializer::from_str(&text);
    let back = de.parse_root().unwrap();
    assert_eq!(back, value);
}
