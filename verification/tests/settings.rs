use celeste_autosplit::settings_xml::{xml_texts, xml_unescape};

#[test]
fn unescapes_predefined_entities() {
    assert_eq!(xml_unescape("a &amp; b"), "a & b");
    assert_eq!(xml_unescape("&lt;Split&gt;"), "<Split>");
    assert_eq!(xml_unescape("&quot;x&apos;"), "\"x'");
}

#[test]
fn unescape_replaces_once_and_keeps_unknown() {
    assert_eq!(xml_unescape("&amp;lt;"), "&lt;");
    assert_eq!(xml_unescape("&foo; &"), "&foo; &");
    assert_eq!(xml_unescape("&amp"), "&amp");
    assert_eq!(xml_unescape(""), "");
    assert_eq!(xml_unescape("héllo"), "héllo");
}

#[test]
fn texts_in_document_order() {
    let xml = "<Splits><Split>Prologue</Split> <Split>Chapter1</Split></Splits>";
    assert_eq!(xml_texts(xml, "Split"), vec!["Prologue".to_string(), "Chapter1".to_string()]);
    assert_eq!(xml_texts(xml, "Splits"), vec!["<Split>Prologue</Split> <Split>Chapter1</Split>".to_string()]);
}

#[test]
fn texts_stop_at_unclosed_element() {
    assert_eq!(xml_texts("<a>1</a><a>2", "a"), vec!["1".to_string()]);
    assert_eq!(xml_texts("no tags", "a"), Vec::<String>::new());
    assert_eq!(xml_texts("<a></a>", "a"), vec![String::new()]);
}

#[test]
fn text_without_ampersand_is_unchanged() {
    for s in ["", "Prologue", "AreaComplete,Core-CSide", "<Split>", "héllo wörld"] {
        assert_eq!(xml_unescape(s), s);
    }
}

#[test]
fn unescape_never_lengthens() {
    for s in ["&amp;&lt;&gt;&quot;&apos;", "&&&", "a&b;c", "&amp", "x&quot;"] {
        assert!(xml_unescape(s).chars().count() <= s.chars().count(), "{s}");
    }
    assert_eq!(xml_unescape("&amp;&lt;&gt;&quot;&apos;").chars().count(), 5);
}

#[test]
fn split_texts_trim_unicode_whitespace() {
    let xml = "<Splits><Split>\u{3000}Chapter1\u{85}</Split><Split>\u{2009}Prologue\t</Split></Splits>";
    let cfg = celeste_autosplit::splits::parse_config(xml);
    assert_eq!(cfg.splits.len(), 2);
    assert!(celeste_autosplit::splits::unknown_split_names(xml).is_empty());
}
