use zipmod_catalog::zipmod::{sanitize_author, normalize, size_mb_string, ZipMod};
use zipmod_catalog::xml::find_xml_element;

#[test]
fn sanitize_strips_and_lowercases() {
    assert_eq!(sanitize_author("Foo/Bar.Baz*[Qux]"), "foo_barbazqux");
}

#[test]
fn sanitize_keeps_spaces() {
    assert_eq!(sanitize_author("Taro/ Yamada"), "taro_ yamada");
}

#[test]
fn sanitize_fullwidth_brackets_removed() {
    assert_eq!(sanitize_author("\u{3010}Neko\u{3011}Cat"), "nekocat");
}

#[test]
fn normalize_defaults() {
    let guid = String::from("com.x.y");
    let (author, name, version) = normalize(&None, &None, &None, &guid);
    assert_eq!(author, "unknown");
    assert_eq!(name, "com.x.y");
    assert_eq!(version, "1.0");
    let path = String::from("p");
    let size = String::from("0.00");
    let z = ZipMod::new(&path, &guid, &author, &name, &version, &size);
    assert_eq!(z.new_name, "[unknown] com.x.y v1.0.zipmod");
}

#[test]
fn normalize_present_values() {
    let guid = String::from("g");
    let (author, name, version) = normalize(
        &Some(String::from("Taro/ Yamada")),
        &Some(String::from("Cool Hair")),
        &Some(String::from("2.1")),
        &guid,
    );
    assert_eq!(author, "taro_ yamada");
    assert_eq!(name, "Cool Hair");
    assert_eq!(version, "2.1");
}

#[test]
fn canonical_name_pure_across_paths() {
    let author = String::from("a");
    let name = String::from("n");
    let version = String::from("1.2");
    let size = String::from("3.00");
    let p1 = String::from("/one/x.zipmod");
    let p2 = String::from("/two/y.zipmod");
    let g1 = String::from("g1");
    let g2 = String::from("g2");
    let z1 = ZipMod::new(&p1, &g1, &author, &name, &version, &size);
    let z2 = ZipMod::new(&p2, &g2, &author, &name, &version, &size);
    assert_eq!(z1.new_name, z2.new_name);
    assert_eq!(z1.new_name, "[a] n v1.2.zipmod");
}

#[test]
fn target_file_name_strips_separators_and_commas() {
    let path = String::from("p");
    let guid = String::from("g");
    let author = String::from("a");
    let name = String::from("Hats, v2 red/blue");
    let version = String::from("1.0");
    let size = String::from("0.10");
    let z = ZipMod::new(&path, &guid, &author, &name, &version, &size);
    assert_eq!(z.new_name, "[a] Hats, v2 red/blue v1.0.zipmod");
    assert_eq!(z.target_file_name(), "[a] Hats  v2 red_blue v1.0.zipmod");
}

#[test]
fn size_two_decimals() {
    assert_eq!(size_mb_string(0), "0.00");
    assert_eq!(size_mb_string(1048576), "1.00");
    assert_eq!(size_mb_string(1572864), "1.50");
    assert_eq!(size_mb_string(1048576 + 10485), "1.00");
    assert_eq!(size_mb_string(3 * 1048576 + 73400), "3.06");
}

#[test]
fn xml_simple_element() {
    let xml = "<manifest><guid>com.a.b</guid><author>Me</author></manifest>";
    assert_eq!(find_xml_element(xml, "guid"), Some(String::from("com.a.b")));
    assert_eq!(find_xml_element(xml, "author"), Some(String::from("Me")));
    assert_eq!(find_xml_element(xml, "version"), None);
}

#[test]
fn xml_empty_element_is_none() {
    let xml = "<manifest><guid></guid></manifest>";
    assert_eq!(find_xml_element(xml, "guid"), None);
}

#[test]
fn xml_self_closing_is_none() {
    let xml = "<manifest><guid/></manifest>";
    assert_eq!(find_xml_element(xml, "guid"), None);
}

#[test]
fn xml_namespace_prefix_matches_local_name() {
    let xml = "<m:manifest xmlns:m=\"u\"><m:guid>g7</m:guid></m:manifest>";
    assert_eq!(find_xml_element(xml, "guid"), Some(String::from("g7")));
}

#[test]
fn xml_attributes_ignored() {
    let xml = "<manifest><guid lang=\"en\">g8</guid></manifest>";
    assert_eq!(find_xml_element(xml, "guid"), Some(String::from("g8")));
}

#[test]
fn xml_content_concatenated_across_occurrences() {
    let xml = "<r><name>a</name><x/><name>b</name></r>";
    assert_eq!(find_xml_element(xml, "name"), Some(String::from("ab")));
}

#[test]
fn xml_declaration_ignored() {
    let xml = "<?xml version=\"1.0\" encoding=\"utf-8\"?>\n<manifest><guid>g</guid></manifest>";
    assert_eq!(find_xml_element(xml, "guid"), Some(String::from("g")));
}
