use verditum::model::template_from_nodes;
use verditum::xml::{XmlAttribute, XmlNode};
use verditum::model::{parse_template, Element, Template};

/// A minimal template: `text` is the shared character pool that `elements`
/// refers to by offset.
fn template(text: &str, elements: &str) -> String {
    format!("<template><content><![CDATA[{text}]]></content><elements>{elements}</elements></template>")
}

fn parsed(xml: &str) -> Template {
    match parse_template(xml) {
        Ok(t) => t,
        Err(e) => panic!("expected a template, got {e}"),
    }
}

fn failure(xml: &str) -> String {
    match parse_template(xml) {
        Err(message) => message,
        Ok(_) => panic!("expected a failure"),
    }
}

fn walk<'a>(e: &'a Element, out: &mut Vec<&'a Element>) {
    out.push(e);
    for c in &e.children {
        walk(c, out);
    }
}

#[test]
fn rejects_malformed_templates() {
    assert!(failure("<template>").contains("Invalid UDF XML"));
    assert!(failure("<other><content/></other>").contains("Expected a UDF template"));
    assert!(failure("<template><elements/></template>").contains("no content"));
    let elements = "<paragraph><content startOffset=\"0\" length=\"9\"/></paragraph>";
    assert!(failure(&template("A", elements)).contains("exceeds content"));
    let elements = "<paragraph><content startOffset=\"x\" length=\"1\"/></paragraph>";
    assert!(failure(&template("A", elements)).contains("Invalid UDF text offset"));
    let elements = "<paragraph><content startOffset=\"0\" length=\"y\"/></paragraph>";
    assert_eq!(failure(&template("A", elements)), "Invalid UDF text length.");
    let elements = "<paragraph><content startOffset=\"0\"/></paragraph>";
    assert_eq!(failure(&template("A", elements)), "Invalid UDF text length.");
    let huge = format!("<paragraph><content startOffset=\"{}\" length=\"1\"/></paragraph>", usize::MAX);
    assert_eq!(failure(&template("A", &huge)), "Invalid UDF text range.");
}

#[test]
fn the_xml_error_keeps_the_parser_message() {
    let message = failure("<template>");
    assert!(message.starts_with("Invalid UDF XML: "));
    assert!(message.len() > "Invalid UDF XML: ".len());
}

#[test]
fn rejects_cyclic_styles_and_deep_nesting() {
    let cyclic = "<template><content><![CDATA[a]]></content>\
                  <styles><style name=\"a\" resolver=\"b\"/>\
                  <style name=\"b\" resolver=\"a\"/></styles>\
                  <elements><paragraph resolver=\"a\"/></elements></template>";
    assert!(failure(cyclic).contains("Cyclic UDF style reference"));
    let selfish = "<template><content><![CDATA[a]]></content>\
                   <styles><style name=\"default\" resolver=\"default\"/></styles></template>";
    assert_eq!(failure(selfish), "Cyclic UDF style reference.");
    let deep = format!("{}{}", "<x>".repeat(102), "</x>".repeat(102));
    assert!(failure(&template("a", &deep)).contains("nesting exceeds 100"));
    let allowed = format!("{}{}", "<x>".repeat(100), "</x>".repeat(100));
    assert!(parse_template(&template("a", &allowed)).is_ok());
}

#[test]
fn rejects_templates_beyond_the_size_limit() {
    let padding = " ".repeat(32 * 1024 * 1024);
    let huge = format!("<template><!--{padding}--><content/></template>");
    assert!(failure(&huge).contains("32 MB"));
}

#[test]
fn resolves_inherited_named_styles() {
    let xml = "<template><content><![CDATA[ab]]></content>\
               <styles><style name=\"base\" size=\"30\"/>\
               <style name=\"child\" resolver=\"base\" bold=\"true\"/></styles>\
               <elements><paragraph resolver=\"child\">\
               <content startOffset=\"0\" length=\"2\"/></paragraph></elements></template>";
    let t = parsed(xml);
    assert_eq!(t.elements.len(), 1);
    let paragraph = &t.elements[0];
    assert_eq!(paragraph.tag, "paragraph");
    assert_eq!(paragraph.get("size"), "30");
    assert_eq!(paragraph.get("bold"), "true");
    assert_eq!(paragraph.get("family"), "Times New Roman");
    let content = &paragraph.children[0];
    assert_eq!(content.text, "ab");
    assert_eq!(content.get("size"), "30");
    assert_eq!(content.get("bold"), "true");
    // The style's name link is not inherited.
    assert_eq!(content.get("resolver"), "");
}

#[test]
fn own_attributes_win_over_styles_and_parents() {
    let xml = "<template><content><![CDATA[ab]]></content>\
               <styles><style name=\"default\" size=\"14\" family=\"Arial\"/>\
               <style name=\"big\" size=\"40\"/></styles>\
               <elements><paragraph resolver=\"big\" size=\"9\">\
               <content startOffset=\"0\" length=\"1\" italic=\"true\"/></paragraph></elements></template>";
    let t = parsed(xml);
    let paragraph = &t.elements[0];
    assert_eq!(paragraph.get("size"), "9");
    assert_eq!(paragraph.get("family"), "Arial");
    let content = &paragraph.children[0];
    assert_eq!(content.get("size"), "9");
    assert_eq!(content.get("italic"), "true");
    assert_eq!(content.get("startOffset"), "0");
    assert_eq!(content.text, "a");
}

#[test]
fn only_inheritable_attributes_pass_to_children() {
    let xml = template("ab", "<table border=\"borderNone\" Alignment=\"1\"><row><cell/></row></table>");
    let t = parsed(&xml);
    let table = &t.elements[0];
    let row = &table.children[0];
    assert_eq!(row.get("border"), "");
    assert_eq!(row.get("Alignment"), "1");
    assert_eq!(row.children[0].get("Alignment"), "1");
}

#[test]
fn lays_out_bare_content_as_a_paragraph() {
    let t = parsed("<template><content><![CDATA[Hello\nworld]]></content></template>");
    assert_eq!(t.elements.len(), 1);
    let paragraph = &t.elements[0];
    assert_eq!(paragraph.tag, "paragraph");
    assert_eq!(paragraph.text, "");
    assert_eq!(paragraph.children.len(), 1);
    assert_eq!(paragraph.children[0].tag, "content");
    assert_eq!(paragraph.children[0].text, "Hello\nworld");
    assert_eq!(paragraph.children[0].get("size"), "12");
    let empty = parsed("<template><content>x</content><elements>  </elements></template>");
    assert_eq!(empty.elements[0].children[0].text, "x");
}

#[test]
fn tabs_and_spaces_without_offsets_stand_for_themselves() {
    let elements = "<paragraph><content startOffset=\"0\" length=\"1\"/><tab/><space/><field/>\
                    <content startOffset=\"1\" length=\"1\"/></paragraph>";
    let t = parsed(&template("ab", elements));
    let texts: Vec<&str> = t.elements[0].children.iter().map(|c| c.text.as_str()).collect();
    assert_eq!(texts, vec!["a", "\t", " ", "", "b"]);
}

#[test]
fn every_element_has_a_font_family_and_size() {
    let elements = "<header><paragraph><content startOffset=\"0\" length=\"1\"/></paragraph></header>\
                    <table><row><cell><paragraph/></cell></row></table>";
    let t = parsed(&template("a", elements));
    let mut all = vec![];
    for e in &t.elements {
        walk(e, &mut all);
    }
    assert!(all.len() >= 6);
    for e in all {
        assert!(!e.get("family").is_empty());
        assert!(!e.get("size").is_empty());
    }
}

#[test]
fn keeps_the_page_format_attributes() {
    let letter = "<template><content><![CDATA[A]]></content>\
                  <properties><pageFormat mediaSizeName=\"5\" paperOrientation=\"0\" leftMargin=\"20\"/></properties></template>";
    let t = parsed(letter);
    assert_eq!(t.page_format.get("mediaSizeName").map(String::as_str), Some("5"));
    assert_eq!(t.page_format.get("paperOrientation").map(String::as_str), Some("0"));
    assert_eq!(t.page_format.get("leftMargin").map(String::as_str), Some("20"));
    assert!(t.page_format.get("topMargin").is_none());
    let plain = parsed("<template><content>A</content></template>");
    assert!(plain.page_format.get("mediaSizeName").is_none());
}

#[test]
fn text_comes_from_the_content_pool_by_character() {
    let elements = "<paragraph><content startOffset=\"1\" length=\"3\"/></paragraph>";
    let t = parsed(&template("çğüş", elements));
    assert_eq!(t.elements[0].children[0].text, "ğüş");
}

fn attrs(pairs: &[(&str, &str)]) -> verditum::attrs::Attrs {
    let mut a = verditum::attrs::Attrs::new();
    for (k, v) in pairs {
        a.insert(k.to_string(), v.to_string());
    }
    a
}

#[test]
fn resolves_a_named_style_through_its_chain() {
    let styles = vec![
        ("base".to_string(), attrs(&[("name", "base"), ("size", "30"), ("bold", "false")])),
        ("child".to_string(), attrs(&[("name", "child"), ("resolver", "base"), ("bold", "true")])),
    ];
    let mut seen = vec![];
    let resolved = verditum::model::named("child", &styles, &mut seen).unwrap();
    assert_eq!(resolved.get("size").map(String::as_str), Some("30"));
    assert_eq!(resolved.get("bold").map(String::as_str), Some("true"));
    assert_eq!(resolved.get("name").map(String::as_str), Some("child"));
    assert_eq!(seen, vec!["child".to_string(), "base".to_string()]);
    let mut seen = vec![];
    assert!(verditum::model::named("missing", &styles, &mut seen).unwrap().entries().is_empty());
    assert_eq!(seen, vec!["missing".to_string()]);
    let chain = vec![("c".to_string(), attrs(&[("resolver", "gone"), ("size", "8")]))];
    let mut seen = vec![];
    let resolved = verditum::model::named("c", &chain, &mut seen).unwrap();
    assert_eq!(resolved.get("size").map(String::as_str), Some("8"));
    assert_eq!(seen, vec!["c".to_string(), "gone".to_string()]);
    let ring = vec![
        ("a".to_string(), attrs(&[("resolver", "b")])),
        ("b".to_string(), attrs(&[("resolver", "a")])),
    ];
    let mut seen = vec![];
    assert_eq!(verditum::model::named("a", &ring, &mut seen).err().as_deref(), Some("Cyclic UDF style reference."));
    assert_eq!(seen, vec!["a".to_string(), "b".to_string()]);
}

#[test]
fn a_later_style_of_the_same_name_replaces_an_earlier_one() {
    let xml = "<template><content><![CDATA[a]]></content>\
               <styles><style name=\"s\" size=\"10\"/><style name=\"s\" size=\"20\"/><style size=\"99\"/></styles>\
               <elements><paragraph resolver=\"s\"/></elements></template>";
    assert_eq!(parsed(xml).elements[0].get("size"), "20");
}

#[test]
fn attribute_sets_keep_one_value_per_key() {
    let mut a = attrs(&[("x", "1"), ("y", "2")]);
    a.insert("x".into(), "3".into());
    assert_eq!(a.entries().len(), 2);
    assert_eq!(a.get("x").map(String::as_str), Some("3"));
    let b = attrs(&[("y", "4"), ("z", "5")]);
    a.extend(&b);
    assert_eq!(a.get("y").map(String::as_str), Some("4"));
    assert_eq!(a.get("z").map(String::as_str), Some("5"));
    assert_eq!(a.entries().len(), 3);
    assert!(a.get("w").is_none());
    let c = a.clone();
    assert_eq!(c.get("x").map(String::as_str), Some("3"));
}

#[test]
fn element_get_is_empty_for_missing_attributes() {
    let t = parsed(&template("ab", "<paragraph Alignment=\"2\"/>"));
    assert_eq!(t.elements[0].get("Alignment"), "2");
    assert_eq!(t.elements[0].get("nothing"), "");
    let copy = t.elements[0].clone();
    assert_eq!(copy.get("Alignment"), "2");
    assert_eq!(copy.tag, "paragraph");
}

#[test]
fn reads_a_template_from_its_nodes() {
    let node = |element: bool, name: &str, text: Option<&str>, parent: Option<usize>| XmlNode {
        element,
        name: name.into(),
        attributes: vec![],
        text: text.map(String::from),
        parent,
    };
    let mut nodes = vec![
        node(false, "", None, None),
        node(true, "template", None, Some(0)),
        node(true, "content", Some("Merhaba"), Some(1)),
        node(false, "", Some("Merhaba"), Some(2)),
        node(true, "properties", None, Some(1)),
        node(true, "pageFormat", None, Some(4)),
    ];
    nodes[5].attributes.push(XmlAttribute { namespaced: false, name: "mediaSizeName".into(), value: "5".into() });
    let t = template_from_nodes(&nodes).unwrap();
    assert_eq!(t.elements.len(), 1);
    assert_eq!(t.elements[0].children[0].text, "Merhaba");
    assert_eq!(t.page_format.get("mediaSizeName").map(String::as_str), Some("5"));
    assert_eq!(template_from_nodes(&vec![]).err().as_deref(), Some("Expected a UDF template."));
    nodes[1].name = "other".into();
    assert_eq!(template_from_nodes(&nodes).err().as_deref(), Some("Expected a UDF template."));
}
