use zipmod_catalog::zipmod::ZipMod;
use zipmod_catalog::catalog::{to_csv, read_csv, load_catalog, WriteMode};
use zipmod_catalog::ledger::{ZipModRecord, split_lines};
use zipmod_catalog::files::{get_file_name, get_file_names, paths_with_suffix};
use zipmod_catalog::config::Config;
use zipmod_catalog::error::Error;

fn sample(path: &str, guid: &str, name: &str) -> ZipMod {
    let path = String::from(path);
    let guid = String::from(guid);
    let author = String::from("a");
    let name = String::from(name);
    let version = String::from("1.0");
    let size = String::from("0.50");
    ZipMod::new(&path, &guid, &author, &name, &version, &size)
}

#[test]
fn csv_round_trip_plain() {
    let records = vec![sample("/p/x.zipmod", "g1", "Plain"), sample("/p/y.zipmod", "g2", "Other")];
    let text = to_csv(&records, WriteMode::Rebuild, false);
    assert!(text.starts_with("path,guid,author,name,version,new_name,size\n"));
    let back = read_csv(&text);
    assert_eq!(back.len(), 2);
    assert_eq!(back[0].path, "/p/x.zipmod");
    assert_eq!(back[0].guid, "g1");
    assert_eq!(back[1].name, "Other");
    assert_eq!(back[1].size, "0.50");
}

#[test]
fn csv_round_trip_quoted_fields() {
    let records = vec![sample("/p/x.zipmod", "g1", "Hats, \"red\"\nblue")];
    let text = to_csv(&records, WriteMode::Rebuild, false);
    let back = read_csv(&text);
    assert_eq!(back.len(), 1);
    assert_eq!(back[0].name, "Hats, \"red\"\nblue");
    assert_eq!(back[0].new_name, "[a] Hats, \"red\"\nblue v1.0.zipmod");
}

#[test]
fn csv_append_without_header() {
    let first = vec![sample("/p/x.zipmod", "g1", "One")];
    let second = vec![sample("/p/y.zipmod", "g2", "Two")];
    let mut text = to_csv(&first, WriteMode::Rebuild, true);
    text.push_str(&to_csv(&second, WriteMode::Append, false));
    let back = read_csv(&text);
    assert_eq!(back.len(), 2);
    assert_eq!(back[1].guid, "g2");
}

#[test]
fn csv_append_to_empty_writes_header() {
    let rows = vec![sample("/p/x.zipmod", "g1", "One")];
    let text = to_csv(&rows, WriteMode::Append, true);
    assert!(text.starts_with("path,guid,author,name,version,new_name,size\n"));
    assert_eq!(read_csv(&text).len(), 1);
}

#[test]
fn csv_bad_rows_skipped() {
    let text = "path,guid,author,name,version,new_name,size\n\
                only,three,fields\n\
                /p,g9,a,n,1.0,[a] n v1.0.zipmod,0.10\n";
    let back = read_csv(text);
    assert_eq!(back.len(), 1);
    assert_eq!(back[0].guid, "g9");
}

#[test]
fn missing_catalog_distinct_from_empty() {
    match load_catalog(&None) {
        Err(Error::CatalogUnavailable) => {},
        _ => panic!("a missing catalog file must be CatalogUnavailable"),
    }
    let empty = load_catalog(&Some(String::new())).unwrap();
    assert_eq!(empty.len(), 0);
    let header_only = load_catalog(&Some(String::from(
        "path,guid,author,name,version,new_name,size\n",
    )))
    .unwrap();
    assert_eq!(header_only.len(), 0);
}

#[test]
fn ledger_from_history_text() {
    let records = ZipModRecord::new(
        String::from("h.txt"),
        &Some(String::from("g1\ng2\r\ng3")),
    );
    assert!(records.contains("g1"));
    assert!(records.contains("g2"));
    assert!(records.contains("g3"));
    assert!(!records.contains("g4"));
}

#[test]
fn ledger_append_and_rewrite() {
    let mut records = ZipModRecord::new(String::from("h.txt"), &None);
    assert!(!records.contains("g1"));
    records.append("g1");
    records.append("g2");
    assert!(records.contains("g1"));
    assert_eq!(records.history_text(), "g1\ng2");
    let reloaded = ZipModRecord::new(String::from("h.txt"), &Some(records.history_text()));
    assert_eq!(reloaded.guids, records.guids);
}

#[test]
fn split_lines_variants() {
    assert_eq!(split_lines(""), Vec::<String>::new());
    assert_eq!(split_lines("a\nb\n"), vec!["a", "b"]);
    assert_eq!(split_lines("a\n\nb"), vec!["a", "", "b"]);
    assert_eq!(split_lines("a\r\nb"), vec!["a", "b"]);
}

#[test]
fn file_names_from_paths() {
    assert_eq!(get_file_name("/mods/a/x.zipmod"), Some(String::from("x.zipmod")));
    assert_eq!(get_file_name("x.zipmod"), Some(String::from("x.zipmod")));
    assert_eq!(get_file_name("/mods/dir/"), Some(String::from("dir")));
    assert_eq!(get_file_name(""), None);
    assert_eq!(get_file_name("/"), None);
    assert_eq!(get_file_name("a/.."), None);
    let paths = vec![String::from("/a/one.zipmod"), String::from("/"), String::from("two.zipmod")];
    assert_eq!(get_file_names(&paths), vec!["one.zipmod", "two.zipmod"]);
}

#[test]
fn suffix_filter() {
    let paths = vec![
        String::from("/a/one.zipmod"),
        String::from("/a/readme.txt"),
        String::from("/b/two.zipmod"),
    ];
    let hits = paths_with_suffix(&paths, ".zipmod");
    assert_eq!(hits, vec!["/a/one.zipmod", "/b/two.zipmod"]);
}

#[test]
fn config_update_known_and_unknown_fields() {
    let base = Config {
        dir_root: String::from("/r"),
        dir_mods: String::from("/m"),
        dir_mymods: String::from("/my"),
        dir_mods_raw: String::from("/raw"),
        path_zipmod_info: String::from("/i.csv"),
        path_zipmod_info_raw: String::from("/ir.csv"),
    };
    let updated = base.updated("dir_root", String::from("/new"));
    assert_eq!(updated.dir_root, "/new");
    assert_eq!(updated.dir_mymods, "/my");
    let updated2 = updated.updated("dir_mymods", String::from("/mine"));
    assert_eq!(updated2.dir_mymods, "/mine");
    let same = updated2.updated("dir_mods", String::from("/x"));
    assert_eq!(same.dir_mods, "/m");
}

#[test]
fn error_messages() {
    assert_eq!(Error::Generic(String::from("boom")).message(), "Generic error: boom");
    assert_eq!(Error::Io(String::from("gone")).message(), "IO error: gone");
    assert_eq!(Error::DestinationMissing.message(), "to_dir not found");
}
