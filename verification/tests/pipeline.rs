use std::io::Write;
use zipmod_catalog::zipmod::ZipMod;
use zipmod_catalog::ledger::ZipModRecord;
use zipmod_catalog::engine::{plan_relocation, record_relocated, RelocationPlan};
use zipmod_catalog::catalog::{to_csv, read_csv, WriteMode};
use zipmod_catalog::error::Error;

fn make_zip(members: &[(&str, &str)]) -> Vec<u8> {
    let cursor = std::io::Cursor::new(Vec::new());
    let mut writer = zip::ZipWriter::new(cursor);
    let options = zip::write::SimpleFileOptions::default();
    for (name, content) in members {
        writer.start_file(*name, options).unwrap();
        writer.write_all(content.as_bytes()).unwrap();
    }
    writer.finish().unwrap().into_inner()
}

#[test]
fn read_file_extracts_first_manifest() {
    let xml = "<manifest><guid>g1</guid><author>Taro/ Yamada</author>\
               <name>Cool Hair</name><version>2.1</version></manifest>";
    let bytes = make_zip(&[("pic.png", "notxml"), ("manifest.xml", xml)]);
    let z = ZipMod::read_file("/src/a.zipmod", bytes).unwrap();
    assert_eq!(z.path, "/src/a.zipmod");
    assert_eq!(z.guid, "g1");
    assert_eq!(z.author, "taro_ yamada");
    assert_eq!(z.name, "Cool Hair");
    assert_eq!(z.version, "2.1");
    assert_eq!(z.new_name, "[taro_ yamada] Cool Hair v2.1.zipmod");
}

#[test]
fn read_file_defaults_missing_fields() {
    let bytes = make_zip(&[("manifest.xml", "<m><guid>com.x.y</guid></m>")]);
    let z = ZipMod::read_file("p", bytes).unwrap();
    assert_eq!(z.author, "unknown");
    assert_eq!(z.name, "com.x.y");
    assert_eq!(z.version, "1.0");
    assert_eq!(z.new_name, "[unknown] com.x.y v1.0.zipmod");
}

#[test]
fn read_file_no_guid_rejected() {
    let bytes = make_zip(&[
        ("a.xml", "<m><author>x</author></m>"),
        ("b.xml", "<m><guid></guid></m>"),
    ]);
    assert!(ZipMod::read_file("p", bytes).is_none());
}

#[test]
fn read_file_skips_memberless_guid_and_uses_next() {
    let bytes = make_zip(&[
        ("a.xml", "<m><name>no guid here</name></m>"),
        ("b.xml", "<m><guid>g2</guid></m>"),
    ]);
    let z = ZipMod::read_file("p", bytes).unwrap();
    assert_eq!(z.guid, "g2");
}

#[test]
fn read_file_rejects_non_archive() {
    let bytes = vec![1u8, 2, 3, 4, 5];
    assert!(ZipMod::read_file("p", bytes).is_none());
}

#[test]
fn read_file_size_from_bytes() {
    let xml = "<m><guid>g</guid></m>";
    let bytes = make_zip(&[("manifest.xml", xml)]);
    assert!(bytes.len() < 1048576);
    let z = ZipMod::read_file("p", bytes).unwrap();
    assert_eq!(z.size, "0.00");
}

#[test]
fn guid_only_reader_agrees() {
    let xml = "<m><guid>com.g.h</guid><author>A</author></m>";
    let bytes = make_zip(&[("manifest.xml", xml)]);
    assert_eq!(
        zipmod_catalog::archive::read_zipmod_guid("p", bytes),
        Some(String::from("com.g.h")),
    );
    let no_guid = make_zip(&[("manifest.xml", "<m><author>A</author></m>")]);
    assert_eq!(zipmod_catalog::archive::read_zipmod_guid("p", no_guid), None);
}

#[test]
fn destination_missing_is_fatal() {
    let records = ZipModRecord::new(String::from("history"), &None);
    let path = String::from("p");
    let guid = String::from("g");
    let author = String::from("a");
    let name = String::from("n");
    let version = String::from("1.0");
    let size = String::from("0.00");
    let z = ZipMod::new(&path, &guid, &author, &name, &version, &size);
    match plan_relocation(&records, &z, "/dest", false) {
        Err(Error::DestinationMissing) => {},
        _ => panic!("a missing destination must abort the batch"),
    }
}

#[test]
fn duplicate_guid_skipped_first_copied() {
    let mut records = ZipModRecord::new(String::from("history"), &None);
    let xml = "<m><guid>g1</guid><author>A</author></m>";
    let bytes1 = make_zip(&[("manifest.xml", xml)]);
    let bytes2 = make_zip(&[("manifest.xml", xml)]);
    let z1 = ZipMod::read_file("/src/one.zipmod", bytes1).unwrap();
    let z2 = ZipMod::read_file("/other/two.zipmod", bytes2).unwrap();
    let plan1 = plan_relocation(&records, &z1, "/dest", true).unwrap();
    match plan1 {
        RelocationPlan::Copy { ref target_path, .. } => {
            assert_eq!(target_path, "/dest/a/[a] g1 v1.0.zipmod");
            record_relocated(&mut records, &z1.guid);
        },
        RelocationPlan::AlreadyKnown => panic!("first sighting must copy"),
    }
    let plan2 = plan_relocation(&records, &z2, "/dest", true).unwrap();
    assert!(matches!(plan2, RelocationPlan::AlreadyKnown));
}

#[test]
fn second_run_copies_nothing() {
    let packages = vec![
        make_zip(&[("manifest.xml", "<m><guid>g1</guid></m>")]),
        make_zip(&[("manifest.xml", "<m><guid>g2</guid></m>")]),
        make_zip(&[("manifest.xml", "<m><guid>g1</guid></m>")]),
    ];
    let mut records = ZipModRecord::new(String::from("history"), &None);
    let mut first_run_copies = 0;
    for bytes in packages.iter() {
        let z = ZipMod::read_file("p", bytes.clone()).unwrap();
        match plan_relocation(&records, &z, "/dest", true).unwrap() {
            RelocationPlan::Copy { .. } => {
                first_run_copies += 1;
                record_relocated(&mut records, &z.guid);
            },
            RelocationPlan::AlreadyKnown => {},
        }
    }
    assert_eq!(first_run_copies, 2);
    let mut second_run_copies = 0;
    for bytes in packages.iter() {
        let z = ZipMod::read_file("p", bytes.clone()).unwrap();
        match plan_relocation(&records, &z, "/dest", true).unwrap() {
            RelocationPlan::Copy { .. } => {
                second_run_copies += 1;
                record_relocated(&mut records, &z.guid);
            },
            RelocationPlan::AlreadyKnown => {},
        }
    }
    assert_eq!(second_run_copies, 0);
    assert_eq!(records.guids.len(), 2);
}

#[test]
fn end_to_end_two_duplicates_one_row() {
    let xml = "<manifest><guid>g1</guid><author>Taro/ Yamada</author>\
               <name>Cool Hair</name><version>2.1</version></manifest>";
    let sources = vec![
        (String::from("/src/a/x.zipmod"), make_zip(&[("manifest.xml", xml)])),
        (String::from("/src/b/y.zipmod"), make_zip(&[("manifest.xml", xml)])),
    ];
    let mut records = ZipModRecord::new(String::from("history"), &None);
    let mut cataloged: Vec<ZipMod> = Vec::new();
    let mut copies: Vec<String> = Vec::new();
    for (path, bytes) in sources.into_iter() {
        let z = match ZipMod::read_file(&path, bytes) {
            Some(z) => z,
            None => continue,
        };
        match plan_relocation(&records, &z, "/dest", true).unwrap() {
            RelocationPlan::Copy { author_dir, target_path } => {
                assert_eq!(author_dir, "/dest/taro_ yamada");
                copies.push(target_path);
                record_relocated(&mut records, &z.guid);
                cataloged.push(z);
            },
            RelocationPlan::AlreadyKnown => {},
        }
    }
    assert_eq!(copies, vec![String::from(
        "/dest/taro_ yamada/[taro_ yamada] Cool Hair v2.1.zipmod",
    )]);
    let text = to_csv(&cataloged, WriteMode::Rebuild, true);
    let rows = read_csv(&text);
    assert_eq!(rows.len(), 1);
    assert_eq!(rows[0].guid, "g1");
}
