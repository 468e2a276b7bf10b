use vstd::prelude::*;
use crate::chars::{str_to_chars, chars_to_string, chars_eq};

verus! {

/// Whether a character ends a tag name: whitespace or the slash that closes
/// a self-closing tag.
pub open spec fn is_name_delim(c: char) -> bool {
    c == ' ' || c == '\t' || c == '\n' || c == '\r' || c == '/'
}

/// The tag's name: its characters up to the first delimiter.
pub open spec fn name_part(s: Seq<char>) -> Seq<char>
    decreases s.len(),
{
    if s.len() == 0 || is_name_delim(s[0]) {
        Seq::<char>::empty()
    } else {
        seq![s[0]] + name_part(s.drop_first())
    }
}

pub open spec fn has_colon(s: Seq<char>) -> bool {
    exists|k: int| 0 <= k < s.len() && s[k] == ':'
}

pub open spec fn after_first_colon(s: Seq<char>) -> Seq<char>
    decreases s.len(),
{
    if s.len() == 0 {
        Seq::<char>::empty()
    } else if s[0] == ':' {
        s.drop_first()
    } else {
        after_first_colon(s.drop_first())
    }
}

/// The local part of a qualified tag name: what follows the first `:`, or
/// the whole name when it carries no namespace prefix.
pub open spec fn local_name(s: Seq<char>) -> Seq<char> {
    if has_colon(s) {
        after_first_colon(s)
    } else {
        s
    }
}

/// What a closed tag does to the "inside the target element" flag: a
/// matching end tag leaves the element; a matching start tag enters it
/// (unless self-closing); declarations, comments and other tags leave the
/// flag alone.
pub open spec fn apply_tag(tag: Seq<char>, target: Seq<char>, in_elem: bool) -> bool {
    if tag.len() == 0 {
        in_elem
    } else if tag[0] == '/' {
        if local_name(name_part(tag.drop_first())) == target {
            false
        } else {
            in_elem
        }
    } else if tag[0] == '?' || tag[0] == '!' {
        in_elem
    } else {
        if local_name(name_part(tag)) == target {
            !(tag.last() == '/')
        } else {
            in_elem
        }
    }
}

/// The character data collected for the target element from position `i`
/// on, given the scanner's state: whether it stands inside a tag, the tag
/// text read so far, and whether it stands inside the target element.
pub open spec fn scan_from(
    xml: Seq<char>,
    i: int,
    in_tag: bool,
    tag: Seq<char>,
    in_elem: bool,
    target: Seq<char>,
) -> Seq<char>
    decreases xml.len() - i,
{
    if i < 0 || i >= xml.len() {
        Seq::<char>::empty()
    } else {
        let c = xml[i];
        if in_tag {
            if c == '>' {
                scan_from(
                    xml,
                    i + 1,
                    false,
                    Seq::<char>::empty(),
                    apply_tag(tag, target, in_elem),
                    target,
                )
            } else {
                scan_from(xml, i + 1, true, tag.push(c), in_elem, target)
            }
        } else {
            if c == '<' {
                scan_from(xml, i + 1, true, Seq::<char>::empty(), in_elem, target)
            } else if in_elem {
                seq![c] + scan_from(xml, i + 1, false, tag, in_elem, target)
            } else {
                scan_from(xml, i + 1, false, tag, in_elem, target)
            }
        }
    }
}

/// The text content the scanner collects for `target` over the whole
/// document: character data inside every element whose local name is
/// `target`, concatenated.
pub open spec fn extract_element(xml: Seq<char>, target: Seq<char>) -> Seq<char> {
    scan_from(xml, 0, false, Seq::<char>::empty(), false, target)
}

proof fn lemma_after_colon_at(s: Seq<char>, j: int)
    requires
        0 <= j < s.len(),
        s[j] == ':',
        forall|k: int| 0 <= k < j ==> s[k] != ':',
    ensures
        after_first_colon(s) == s.skip(j + 1),
    decreases j,
{
    if j == 0 {
        assert(after_first_colon(s) == s.drop_first());
        assert(s.drop_first() =~= s.skip(1));
    } else {
        assert(s.drop_first()[j - 1] == s[j]);
        assert(forall|k: int| 0 <= k < j - 1 ==> s.drop_first()[k] == s[k + 1]);
        lemma_after_colon_at(s.drop_first(), j - 1);
        assert(s.drop_first().skip(j) =~= s.skip(j + 1));
    }
}

fn name_part_exec(tag: &Vec<char>, from: usize) -> (r: Vec<char>)
    requires
        from <= tag@.len(),
    ensures
        r@ == name_part(tag@.skip(from as int)),
{
    let n = tag.len();
    let mut out: Vec<char> = Vec::new();
    let mut i = from;
    proof {
        assert(tag@.skip(from as int) =~= tag@.skip(from as int));
    }
    while i < n
        invariant
            from <= i <= n,
            n == tag@.len(),
            name_part(tag@.skip(from as int)) == out@ + name_part(tag@.skip(i as int)),
        decreases n - i,
    {
        let ghost pre = out@;
        let c = tag[i];
        proof {
            assert(tag@.skip(i as int)[0] == c);
            assert(tag@.skip(i as int).drop_first() =~= tag@.skip(i as int + 1));
        }
        if c == ' ' || c == '\t' || c == '\n' || c == '\r' || c == '/' {
            proof {
                assert(name_part(tag@.skip(i as int)) =~= Seq::<char>::empty());
                assert(out@ =~= out@ + name_part(tag@.skip(i as int)));
            }
            return out;
        }
        out.push(c);
        i = i + 1;
        proof {
            assert(out@ =~= pre + seq![c]);
            assert(pre + (seq![c] + name_part(tag@.skip(i as int))) =~= (pre + seq![c])
                + name_part(tag@.skip(i as int)));
        }
    }
    proof {
        assert(tag@.skip(n as int).len() == 0);
        assert(name_part(tag@.skip(n as int)) =~= Seq::<char>::empty());
        assert(out@ =~= out@ + name_part(tag@.skip(n as int)));
    }
    out
}

fn local_of(nm: &Vec<char>) -> (r: Vec<char>)
    ensures
        r@ == local_name(nm@),
{
    let n = nm.len();
    let mut j: usize = 0;
    while j < n
        invariant
            j <= n,
            n == nm@.len(),
            forall|k: int| 0 <= k < j ==> nm@[k] != ':',
        decreases n - j,
    {
        if nm[j] == ':' {
            let mut out: Vec<char> = Vec::new();
            let mut i = j + 1;
            while i < n
                invariant
                    j + 1 <= i <= n,
                    n == nm@.len(),
                    out@ == nm@.subrange(j as int + 1, i as int),
                decreases n - i,
            {
                out.push(nm[i]);
                i = i + 1;
                proof {
                    assert(out@ =~= nm@.subrange(j as int + 1, i as int));
                }
            }
            proof {
                lemma_after_colon_at(nm@, j as int);
                assert(out@ =~= nm@.skip(j as int + 1));
            }
            return out;
        }
        j = j + 1;
    }
    proof {
        assert(!has_colon(nm@));
    }
    nm.clone()
}

fn apply_tag_exec(tag: &Vec<char>, target: &Vec<char>, in_elem: bool) -> (r: bool)
    ensures
        r == apply_tag(tag@, target@, in_elem),
{
    let n = tag.len();
    if n == 0 {
        return in_elem;
    }
    let first = tag[0];
    if first == '/' {
        proof {
            assert(tag@.skip(1) =~= tag@.drop_first());
        }
        let nm = name_part_exec(tag, 1);
        let local = local_of(&nm);
        if chars_eq(&local, target) {
            false
        } else {
            in_elem
        }
    } else if first == '?' || first == '!' {
        in_elem
    } else {
        proof {
            assert(tag@.skip(0) =~= tag@);
        }
        let nm = name_part_exec(tag, 0);
        let local = local_of(&nm);
        if chars_eq(&local, target) {
            !(tag[n - 1] == '/')
        } else {
            in_elem
        }
    }
}

/// Reads the text content of the named element out of an XML document: the
/// character data inside every element with that local name, concatenated.
/// Returns `None` when no such content exists.  The scan follows a simple
/// start-tag / end-tag / character-data model; declarations and comments are
/// treated as tags without a name and change nothing.
pub fn find_xml_element(xml_data: &str, element_name: &str) -> (r: Option<String>)
    ensures
        match r {
            Some(s) => s@ == extract_element(xml_data@, element_name@) && s@.len() > 0,
            None => extract_element(xml_data@, element_name@).len() == 0,
        },
{
    let xml = str_to_chars(xml_data);
    let target = str_to_chars(element_name);
    let n = xml.len();
    let mut i: usize = 0;
    let mut in_tag = false;
    let mut tag: Vec<char> = Vec::new();
    let mut in_elem = false;
    let mut acc: Vec<char> = Vec::new();
    while i < n
        invariant
            i <= n,
            n == xml@.len(),
            target@ == element_name@,
            extract_element(xml@, target@) == acc@ + scan_from(
                xml@,
                i as int,
                in_tag,
                tag@,
                in_elem,
                target@,
            ),
        decreases n - i,
    {
        let ghost pre = acc@;
        let c = xml[i];
        if in_tag {
            if c == '>' {
                in_elem = apply_tag_exec(&tag, &target, in_elem);
                tag = Vec::new();
                in_tag = false;
            } else {
                tag.push(c);
            }
        } else {
            if c == '<' {
                in_tag = true;
                tag = Vec::new();
            } else if in_elem {
                acc.push(c);
                proof {
                    assert(acc@ =~= pre + seq![c]);
                    assert(pre + (seq![c] + scan_from(
                        xml@,
                        i as int + 1,
                        in_tag,
                        tag@,
                        in_elem,
                        target@,
                    )) =~= (pre + seq![c]) + scan_from(
                        xml@,
                        i as int + 1,
                        in_tag,
                        tag@,
                        in_elem,
                        target@,
                    ));
                }
            }
        }
        i = i + 1;
    }
    proof {
        assert(scan_from(xml@, n as int, in_tag, tag@, in_elem, target@) =~= Seq::<char>::empty());
        assert(extract_element(xml@, target@) =~= acc@);
    }
    if acc.len() == 0 {
        None
    } else {
        Some(chars_to_string(&acc))
    }
}

} // verus!
