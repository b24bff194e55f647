use source_formats::kv::value::{Entry, Value};
use source_formats::vmt::intern_key;
use source_formats::vmt::material::Vmt;

/// A number property, read as the editor reads it.
fn get_f32(vmt: &Vmt, key: &str) -> Option<f32> {
    vmt.get_string(key)?.trim().parse().ok()
}

/// A color property: `[r g b]` with numbers, or `{r g b}` with bytes.
fn get_color(vmt: &Vmt, key: &str) -> Option<[f32; 3]> {
    let val = vmt.get_string(key)?;
    let val = val.trim();
    if val.starts_with('[') && val.ends_with(']') {
        let parts: Vec<f32> = val[1..val.len() - 1].split_whitespace().filter_map(|s| s.parse().ok()).collect();
        if parts.len() >= 3 {
            return Some([parts[0], parts[1], parts[2]]);
        }
    } else if val.starts_with('{') && val.ends_with('}') {
        let parts: Vec<f32> = val[1..val.len() - 1]
            .split_whitespace()
            .filter_map(|s| s.parse::<u8>().ok().map(|v| v as f32 / 255.0))
            .collect();
        if parts.len() >= 3 {
            return Some([parts[0], parts[1], parts[2]]);
        }
    }
    None
}

#[test]
fn test_basic_parsing() {
    let input = r#"
        "LightmappedGeneric"
        {
            "$basetexture" "brick/brickwall001"
            "$surfaceprop" "brick"
        }
    "#;
    let vmt = Vmt::from_str(input).unwrap();
    assert_eq!(vmt.shader, "lightmappedgeneric");
    assert_eq!(vmt.get_string("basetexture").unwrap(), "brick/brickwall001");
    assert_eq!(vmt.get_string("$surfaceprop").unwrap(), "brick");
}

#[test]
fn test_key_normalization_and_prefixes() {
    let input = r#"
        "Shader"
        {
            "$basetexture" "path/1"
            "color"        "[1 1 1]"
            "%compilenodraw" "1"
        }
    "#;
    let vmt = Vmt::from_str(input).unwrap();
    assert_eq!(vmt.get_string("basetexture").unwrap(), "path/1");
    assert_eq!(vmt.get_string("$basetexture").unwrap(), "path/1");
    assert_eq!(vmt.get_string("color").unwrap(), "[1 1 1]");
    assert_eq!(vmt.get_string("$color").unwrap(), "[1 1 1]");
    assert_eq!(vmt.get_string("compilenodraw").unwrap(), "1");
    assert_eq!(vmt.get_string("%compilenodraw").unwrap(), "1");
    assert_eq!(vmt.get_string("BASETEXTURE").unwrap(), "path/1");
}

#[test]
fn test_ergonomic_getters_edge_cases() {
    let input = r#"
        "Shader"
        {
            "$f_valid"   "1.5"
            "$f_dot_pre" ".5"
            "$f_dot_suf" "1."
            "$f_scientific" "1e-1"

            "$b_1" "1"
            "$b_true" "true"
            "$b_yes" "1"
            "$b_0" "0"

            "$c_vec" "[1.0 0.5 0.1]"
            "$c_bytes" "{255 127 0}"
            "$c_bytes_overflow" "{300 0 0}"
        }
    "#;
    let vmt = Vmt::from_str(input).unwrap();

    assert_eq!(get_f32(&vmt, "f_valid"), Some(1.5));
    assert_eq!(get_f32(&vmt, "f_dot_pre"), Some(0.5));
    assert_eq!(get_f32(&vmt, "f_dot_suf"), Some(1.0));
    assert_eq!(get_f32(&vmt, "f_scientific"), Some(0.1));

    assert!(vmt.get_bool("b_1"));
    assert!(vmt.get_bool("b_true"));
    assert!(vmt.get_bool("b_yes"));
    assert!(!vmt.get_bool("b_0"));

    assert_eq!(get_color(&vmt, "c_vec"), Some([1.0, 0.5, 0.1]));
    assert_eq!(get_color(&vmt, "c_bytes"), Some([1.0, 127.0 / 255.0, 0.0]));
    assert_eq!(get_color(&vmt, "c_bytes_overflow"), None);
}

#[test]
fn test_broken_files() {
    assert!(Vmt::from_str("   ").is_err());
    assert!(Vmt::from_str("\"Shader\"").is_err());
    assert!(Vmt::from_str("\"Shader\" { ").is_err());
}

#[test]
fn test_proxies() {
    let input = r#"
        "UnlitGeneric"
        {
            "Proxies"
            {
                "TextureScroll"
                {
                    "texturescrollvar" "$basetexturetransform"
                    "texturescrollrate" "0.1"
                }
            }
        }
    "#;
    let vmt = Vmt::from_str(input).unwrap();
    let proxies = vmt.proxies();
    assert_eq!(proxies.len(), 1);
    assert_eq!(proxies[0].name, "TextureScroll");
    assert_eq!(proxies[0].params.get("texturescrollrate").unwrap(), "0.1");
}

#[test]
fn test_add_proxy() {
    let mut vmt = Vmt::new("VertexLitGeneric");
    vmt.add_proxy("Sine", &[("sineperiod", "2.0"), ("resultVar", "$alpha")]);

    let proxies = vmt.proxies();
    assert_eq!(proxies.len(), 1);
    assert_eq!(proxies[0].name, "sine");
    assert_eq!(proxies[0].get_param("resultVar").unwrap(), "$alpha");
}

#[test]
fn test_duplicate_proxy_names() {
    let input = r#"
        "Shader"
        {
            "Proxies"
            {
                "Sine" { "resultVar" "$v1" }
                "Sine" { "resultVar" "$v2" }
            }
        }
    "#;
    let vmt = Vmt::from_str(input).unwrap();
    let proxies = vmt.proxies();
    assert_eq!(proxies.len(), 2);
    assert_eq!(proxies[0].name, "Sine");
    assert_eq!(proxies[1].name, "Sine");
    assert_eq!(proxies[0].get_param("resultVar").unwrap(), "$v1");
    assert_eq!(proxies[1].get_param("resultVar").unwrap(), "$v2");
}

#[test]
fn test_empty_proxies() {
    let vmt = Vmt::from_str("\"Shader\" { \"Proxies\" {} }").unwrap();
    assert!(vmt.proxies().is_empty());

    let vmt_none = Vmt::from_str("\"Shader\" { }").unwrap();
    assert!(vmt_none.proxies().is_empty());
}

#[test]
fn test_add_proxy_multiple_times() {
    let mut vmt = Vmt::new("Shader");
    vmt.add_proxy("Sine", &[("var", "$a")]);
    vmt.add_proxy("Sine", &[("var", "$b")]);

    let p = vmt.proxies();
    assert_eq!(p.len(), 2);
    assert_eq!(p[0].get_param("VAR").unwrap(), "$a");
    assert_eq!(p[1].get_param("var").unwrap(), "$b");
}

fn block(key: &str, value: &str) -> Value {
    Value::Obj(vec![Entry { key: key.to_string(), values: vec![Value::Str(value.to_string())] }])
}

#[test]
fn test_deep_inheritance() {
    let mut base = Vmt::new("Base");
    base.set_string("$color", "red");

    let mut layer1 = Vmt::new("patch");
    layer1.properties.insert(intern_key("replace"), vec![block("color", "green")]);

    let mut layer2 = Vmt::new("patch");
    layer2.properties.insert(intern_key("insert"), vec![block("detail", "moss")]);

    base.apply_patch(&layer1);
    base.apply_patch(&layer2);

    assert_eq!(base.get_string("color").unwrap(), "green");
    assert_eq!(base.get_string("detail").unwrap(), "moss");
    assert!(base.get_raw("insert").is_none());
    assert!(base.get_raw("replace").is_none());
}

#[test]
fn set_then_get_reads_back() {
    let mut vmt = Vmt::new("Shader");
    vmt.set_string("$BaseTexture", "a/b");
    assert_eq!(vmt.get_string("basetexture").as_deref(), Some("a/b"));
    vmt.set_flag("$translucent", true);
    assert!(vmt.get_bool("translucent"));
    vmt.set_flag("$translucent", false);
    assert!(!vmt.get_bool("translucent"));
    vmt.remove("translucent");
    assert!(vmt.get_raw("translucent").is_none());
    assert_eq!(vmt.get_i32("basetexture"), None);
    vmt.set_string("$frame", "-3");
    assert_eq!(vmt.get_i32("frame"), Some(-3));
}

#[test]
fn patch_include_prefers_plain_key() {
    let mut p = Vmt::new("patch");
    assert_eq!(p.patch_include(), None);
    p.set_string("$include", "b.vmt");
    assert_eq!(p.patch_include().as_deref(), Some("b.vmt"));
}

#[test]
fn written_text_reads_back() {
    let mut vmt = Vmt::new("Shader");
    vmt.set_string("$basetexture", "x/y");
    let text = vmt.to_string().unwrap();
    let back = Vmt::from_str(&text).unwrap();
    assert_eq!(back.shader, "shader");
    assert_eq!(back.get_string("basetexture").as_deref(), Some("x/y"));
}

#[test]
fn flags_read_yes_as_set() {
    let vmt = Vmt::from_str("\"LightmappedGeneric\"\n{\n\t\"$a\" \"yes\"\n\t\"$b\" \"no\"\n\t\"$c\" \"YES\"\n}\n").unwrap();
    assert!(vmt.get_bool("a"));
    assert!(!vmt.get_bool("b"));
    assert!(!vmt.get_bool("c"));
}
