use vstd::prelude::*;
use crate::chars::{str_to_chars, chars_end_with, spec_ends_with};
use crate::xml::extract_element;
use crate::xml::find_xml_element;
use crate::zipmod::{
    ZipMod, spec_author, spec_display_name, spec_version, spec_new_name, spec_size_mb,
};

verus! {

#[verifier::external_type_specification]
#[verifier::external_body]
#[verifier::reject_recursive_types(T)]
pub struct ExCursor<T>(std::io::Cursor<T>);

#[verifier::external_type_specification]
#[verifier::external_body]
#[verifier::reject_recursive_types(R)]
pub struct ExZipArchive<R>(zip::ZipArchive<R>);

/// Whether `zip::ZipArchive::new` accepts these bytes as an archive.
pub uninterp spec fn zip_ok(b: Seq<u8>) -> bool;

/// The member names the archive built from these bytes exposes, by index:
/// `None` where looking the member up fails.
pub uninterp spec fn zip_names(b: Seq<u8>) -> Seq<Option<Seq<char>>>;

/// The member contents as text, by index: `None` where the member cannot be
/// looked up, decompressed or decoded as UTF-8.
pub uninterp spec fn zip_texts(b: Seq<u8>) -> Seq<Option<Seq<char>>>;

/// The member names an open archive exposes.
pub uninterp spec fn archive_names(a: zip::ZipArchive<std::io::Cursor<Vec<u8>>>) -> Seq<
    Option<Seq<char>>,
>;

/// The member texts an open archive exposes.
pub uninterp spec fn archive_texts(a: zip::ZipArchive<std::io::Cursor<Vec<u8>>>) -> Seq<
    Option<Seq<char>>,
>;

/// Relies on `zip::ZipArchive::new`: whether it succeeds, and what the
/// archive then holds, is a function of the bytes alone.
#[verifier::external_body]
pub fn open_archive(bytes: Vec<u8>) -> (r: Option<zip::ZipArchive<std::io::Cursor<Vec<u8>>>>)
    ensures
        r is Some <==> zip_ok(bytes@),
        r matches Some(a) ==> archive_names(a) == zip_names(bytes@) && archive_texts(a)
            == zip_texts(bytes@) && archive_names(a).len() == archive_texts(a).len(),
{
    zip::ZipArchive::new(std::io::Cursor::new(bytes)).ok()
}

/// Relies on `zip::ZipArchive::len`: the number of members.
#[verifier::external_body]
pub fn archive_len(a: &zip::ZipArchive<std::io::Cursor<Vec<u8>>>) -> (n: usize)
    ensures
        n == archive_names(*a).len(),
{
    a.len()
}

/// Relies on `zip::ZipArchive::by_index` and `zip::read::ZipFile::name`:
/// looking a member up and reading its name neither changes the archive's
/// contents nor depends on anything but them.
#[verifier::external_body]
pub fn member_name(a: &mut zip::ZipArchive<std::io::Cursor<Vec<u8>>>, i: usize) -> (r: Option<
    String,
>)
    requires
        i < archive_names(*old(a)).len(),
    ensures
        archive_names(*final(a)) == archive_names(*old(a)),
        archive_texts(*final(a)) == archive_texts(*old(a)),
        r matches Some(s) ==> archive_names(*old(a))[i as int] == Some(s@),
        r is None ==> archive_names(*old(a))[i as int] is None,
{
    match a.by_index(i) {
        Ok(f) => Some(f.name().to_string()),
        Err(_) => None,
    }
}

/// Relies on `zip::ZipArchive::by_index` and `std::io::Read::read_to_string`
/// on the member: decompressing a member and decoding it as UTF-8 is a
/// function of the archive bytes alone and leaves the contents as they were.
#[verifier::external_body]
pub fn member_text(a: &mut zip::ZipArchive<std::io::Cursor<Vec<u8>>>, i: usize) -> (r: Option<
    String,
>)
    requires
        i < archive_texts(*old(a)).len(),
    ensures
        archive_names(*final(a)) == archive_names(*old(a)),
        archive_texts(*final(a)) == archive_texts(*old(a)),
        r matches Some(s) ==> archive_texts(*old(a))[i as int] == Some(s@),
        r is None ==> archive_texts(*old(a))[i as int] is None,
{
    let mut f = match a.by_index(i) {
        Ok(f) => f,
        Err(_) => return None,
    };
    let mut text = String::new();
    match std::io::Read::read_to_string(&mut f, &mut text) {
        Ok(_) => Some(text),
        Err(_) => None,
    }
}

/// A non-empty extraction result, or nothing.
pub open spec fn opt_of(s: Seq<char>) -> Option<Seq<char>> {
    if s.len() == 0 {
        None
    } else {
        Some(s)
    }
}

/// The manifest the archive yields: the text of the first member from index
/// `i` on whose name ends in `.xml` and whose content names a non-empty
/// guid.  A member that cannot be listed or read aborts the whole package.
pub open spec fn spec_find_manifest(
    names: Seq<Option<Seq<char>>>,
    texts: Seq<Option<Seq<char>>>,
    i: int,
) -> Option<Seq<char>>
    decreases names.len() - i,
{
    if i < 0 || i >= names.len() || i >= texts.len() {
        None
    } else {
        match names[i] {
            None => None,
            Some(nm) => if !spec_ends_with(nm, ".xml"@) {
                spec_find_manifest(names, texts, i + 1)
            } else {
                match texts[i] {
                    None => None,
                    Some(xml) => if extract_element(xml, "guid"@).len() == 0 {
                        spec_find_manifest(names, texts, i + 1)
                    } else {
                        Some(xml)
                    },
                }
            },
        }
    }
}

/// How a catalog record relates to the manifest it was extracted from: the
/// guid as found, the author sanitized or defaulted, the name and version
/// defaulted, the canonical name derived, the size text computed from the
/// package's byte count.
pub open spec fn record_matches_manifest(
    z: ZipMod,
    xml: Seq<char>,
    path: Seq<char>,
    size_bytes: nat,
) -> bool {
    &&& z.path@ == path
    &&& z.guid@ == extract_element(xml, "guid"@)
    &&& z.guid@.len() > 0
    &&& z.author@ == spec_author(opt_of(extract_element(xml, "author"@)))
    &&& z.name@ == spec_display_name(opt_of(extract_element(xml, "name"@)), z.guid@)
    &&& z.version@ == spec_version(opt_of(extract_element(xml, "version"@)))
    &&& z.new_name@ == spec_new_name(z.author@, z.name@, z.version@)
    &&& z.size@ == spec_size_mb(size_bytes)
}

impl ZipMod {
    /// Reads a package's catalog record out of its bytes: opens them as an
    /// archive, walks the members for the first `.xml` one naming a
    /// non-empty guid, and normalizes the fields found there.  Returns
    /// `None` exactly where the bytes are no archive, a member cannot be
    /// read, or no member yields a guid.
    #[verifier::loop_isolation(false)]
    pub fn read_file(path: &str, bytes: Vec<u8>) -> (r: Option<ZipMod>)
        ensures
            !zip_ok(bytes@) ==> r is None,
            zip_ok(bytes@) ==> (r is Some <==> spec_find_manifest(
                zip_names(bytes@),
                zip_texts(bytes@),
                0,
            ) is Some),
            r matches Some(z) ==> (spec_find_manifest(zip_names(bytes@), zip_texts(bytes@), 0)
                matches Some(xml) && record_matches_manifest(z, xml, path@, bytes@.len())
                && z.wf()),
    {
        let size_bytes: u64 = bytes.len() as u64;
        let ghost b = bytes@;
        let mut a = match open_archive(bytes) {
            Some(a) => a,
            None => {
                return None;
            },
        };
        let n = archive_len(&a);
        let xml_suffix = str_to_chars(".xml");
        let mut i: usize = 0;
        while i < n
            invariant
                i <= n,
                zip_ok(b),
                n == archive_names(a).len(),
                archive_names(a) == zip_names(b),
                archive_texts(a) == zip_texts(b),
                archive_texts(a).len() == archive_names(a).len(),
                xml_suffix@ == ".xml"@,
                spec_find_manifest(zip_names(b), zip_texts(b), 0) == spec_find_manifest(
                    zip_names(b),
                    zip_texts(b),
                    i as int,
                ),
            decreases n - i,
        {
            let nm = match member_name(&mut a, i) {
                Some(nm) => nm,
                None => {
                    proof {
                        assert(zip_names(b)[i as int] is None);
                        assert(spec_find_manifest(zip_names(b), zip_texts(b), i as int) is None);
                    }
                    return None;
                },
            };
            let nm_chars = str_to_chars(nm.as_str());
            if chars_end_with(&nm_chars, &xml_suffix) {
                let text = match member_text(&mut a, i) {
                    Some(t) => t,
                    None => {
                        proof {
                            assert(zip_texts(b)[i as int] is None);
                            assert(spec_find_manifest(zip_names(b), zip_texts(b), i as int) is None);
                        }
                        return None;
                    },
                };
                match find_xml_element(text.as_str(), "guid") {
                    Some(guid) => {
                        let raw_author = find_xml_element(text.as_str(), "author");
                        let raw_name = find_xml_element(text.as_str(), "name");
                        let raw_version = find_xml_element(text.as_str(), "version");
                        let (author, name, version) = crate::zipmod::normalize(
                            &raw_author,
                            &raw_name,
                            &raw_version,
                            &guid,
                        );
                        let size = crate::zipmod::size_mb_string(size_bytes);
                        let path_string = path.to_owned();
                        let z = ZipMod::new(
                            &path_string,
                            &guid,
                            &author,
                            &name,
                            &version,
                            &size,
                        );
                        proof {
                            assert(spec_find_manifest(zip_names(b), zip_texts(b), i as int)
                                == Some(text@));
                        }
                        return Some(z);
                    },
                    None => {},
                }
            }
            i = i + 1;
        }
        None
    }
}

/// Reads only a package's guid: that of the first `.xml` member naming a
/// non-empty one, as `read_file` finds it.
pub fn read_zipmod_guid(zipmod_path: &str, bytes: Vec<u8>) -> (r: Option<String>)
    ensures
        match r {
            Some(g) => spec_find_manifest(zip_names(bytes@), zip_texts(bytes@), 0) matches Some(
                xml,
            ) && g@ == extract_element(xml, "guid"@) && g@.len() > 0,
            None => zip_ok(bytes@) ==> spec_find_manifest(
                zip_names(bytes@),
                zip_texts(bytes@),
                0,
            ) is None,
        },
{
    match ZipMod::read_file(zipmod_path, bytes) {
        Some(z) => Some(z.guid),
        None => None,
    }
}

/// Required-field rejection: when no listable, readable `.xml` member of the
/// archive names a non-empty guid, no manifest is found, so the package is
/// never cataloged.
pub proof fn lemma_no_guid_rejected(
    names: Seq<Option<Seq<char>>>,
    texts: Seq<Option<Seq<char>>>,
    i: int,
)
    requires
        forall|j: int|
            0 <= j < names.len() && j < texts.len() && (#[trigger] names[j]) is Some
                && spec_ends_with(names[j]->0, ".xml"@) && texts[j] is Some ==> extract_element(
                texts[j]->0,
                "guid"@,
            ).len() == 0,
    ensures
        spec_find_manifest(names, texts, i) is None,
    decreases names.len() - i,
{
    if 0 <= i < names.len() && i < texts.len() {
        lemma_no_guid_rejected(names, texts, i + 1);
    }
}

} // verus!

