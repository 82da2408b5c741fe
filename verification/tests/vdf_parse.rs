use launchvault_core::vdf::{parse, VdfValue};

fn s(v: &VdfValue) -> &str {
    v.as_str().expect("string value")
}

#[test]
fn parses_appmanifest() {
    let text = "\"AppState\"\n{\n\t\"appid\"\t\t\"620\"\n\t\"name\"\t\t\"Portal 2\"\n\t\"installdir\"\t\t\"Portal 2\"\n\t\"SizeOnDisk\"\t\t\"12345\"\n}\n";
    let v = parse(text).expect("parses");
    let state = v.get("AppState").expect("AppState");
    assert_eq!(s(state.get("appid").unwrap()), "620");
    assert_eq!(s(state.get("name").unwrap()), "Portal 2");
    assert_eq!(s(state.get("SizeOnDisk").unwrap()), "12345");
    assert!(state.get("missing").is_none());
}

#[test]
fn parses_nested_sections() {
    let text = "\"libraryfolders\" { \"0\" { \"path\" \"/home/u/.steam\" \"apps\" { \"620\" \"1\" } } \"1\" { \"path\" \"/mnt/games\" } }";
    let v = parse(text).unwrap();
    let lf = v.get("libraryfolders").unwrap();
    assert_eq!(s(lf.get("0").unwrap().get("path").unwrap()), "/home/u/.steam");
    assert_eq!(s(lf.get("1").unwrap().get("path").unwrap()), "/mnt/games");
    assert_eq!(s(lf.get("0").unwrap().get("apps").unwrap().get("620").unwrap()), "1");
    match lf {
        VdfValue::Section(entries) => assert_eq!(entries.len(), 2),
        VdfValue::Str(_) => panic!("expected a section"),
    }
}

#[test]
fn lone_string_is_a_string() {
    let v = parse("  \"hello\"  ").unwrap();
    assert_eq!(s(&v), "hello");
    let v = parse("\"key\" \"value\"").unwrap();
    assert_eq!(s(&v), "key");
}

#[test]
fn escapes_quote_and_backslash_and_drops_other_backslashes() {
    let v = parse("\"k\" { \"a\" \"say \\\"hi\\\"\" \"b\" \"C:\\\\x\\n\" }").unwrap();
    let k = v.get("k").unwrap();
    assert_eq!(s(k.get("a").unwrap()), "say \"hi\"");
    // `\\` stands for one backslash; a backslash before `n` is dropped.
    assert_eq!(s(k.get("b").unwrap()), "C:\\xn");
}

#[test]
fn reads_windows_library_paths() {
    let text = r#""libraryfolders" { "1" { "path" "C:\\Steam\\steamapps" } }"#;
    let v = parse(text).unwrap();
    let p = v.get("libraryfolders").unwrap().get("1").unwrap().get("path").unwrap();
    assert_eq!(s(p), r"C:\Steam\steamapps");
}

#[test]
fn first_entry_wins() {
    let v = parse("\"k\" { \"a\" \"1\" \"a\" \"2\" }").unwrap();
    assert_eq!(s(v.get("k").unwrap().get("a").unwrap()), "1");
}

#[test]
fn rejects_broken_texts() {
    assert!(parse("").is_none());
    assert!(parse("   ").is_none());
    assert!(parse("key").is_none());
    assert!(parse("\"unterminated").is_none());
    assert!(parse("\"k\" { \"a\" \"1\"").is_none());
    assert!(parse("\"k\" { a \"1\" }").is_none());
    assert!(parse("\"k\" { \"a\" }").is_none());
    assert!(parse("\"k\\").is_none());
}

#[test]
fn ignores_trailing_text_and_unicode_whitespace() {
    let v = parse("\u{3000}\"k\"\u{a0}{\u{2028}\"a\"\t\"1\"\n}garbage").unwrap();
    assert_eq!(s(v.get("k").unwrap().get("a").unwrap()), "1");
}

#[test]
fn get_and_as_str_on_wrong_kinds() {
    let v = parse("\"k\" { }").unwrap();
    let k = v.get("k").unwrap();
    assert!(k.as_str().is_none());
    assert!(k.get("x").is_none());
    let st = parse("\"x\"").unwrap();
    assert!(st.get("x").is_none());
}

#[test]
fn reads_back_written_document() {
    // "key" followed by a section written one entry per line reads back.
    let text = "\"Root\"\n{\"name\" \"A \\\"B\\\"\"\n\"sub\" {\"x\" \"1\"\n}\n}";
    let v = parse(text).unwrap();
    let root = v.get("Root").unwrap();
    assert_eq!(s(root.get("name").unwrap()), "A \"B\"");
    assert_eq!(s(root.get("sub").unwrap().get("x").unwrap()), "1");
}

#[test]
fn whitespace_outside_quotes_does_not_matter() {
    let spaced = " \"k\"\n{\n\t\"a\"  \"x y\"\r\n \"b\" { \"c\" \"1\" }\u{3000}}\n";
    let tight = "\"k\"{\"a\"\"x y\"\"b\"{\"c\"\"1\"}}";
    assert_eq!(parse(spaced), parse(tight));
    assert!(parse(tight).is_some());
    // Whitespace inside a quoted string is kept.
    assert_ne!(parse("\"k\"{\"a\"\"x y\"}"), parse("\"k\"{\"a\"\"xy\"}"));
}

#[test]
fn cloned_value_equals_the_original() {
    let v = parse("\"k\"{\"a\"\"1\"\"b\"{\"c\"\"2\"}}").unwrap();
    let w = v.clone();
    assert_eq!(w, v);
    assert_eq!(w.get("k").unwrap().get("b").unwrap().get("c").unwrap().as_str(), Some("2"));
}
