use vstd::prelude::*;
use crate::chars::{str_to_chars, chars_to_string, push_all, lowercase, lower_of};

verus! {

/// One character of an author value after sanitization: `/` becomes `_`;
/// `.`, `*`, `[`, `]` and the full-width brackets (`\u{3010}`, `\u{3011}`)
/// are dropped; everything else is kept.
pub open spec fn strip_author_chars(s: Seq<char>) -> Seq<char>
    decreases s.len(),
{
    if s.len() == 0 {
        Seq::<char>::empty()
    } else {
        let rest = strip_author_chars(s.drop_first());
        let c = s[0];
        if c == '/' {
            seq!['_'] + rest
        } else if c == '.' || c == '*' || c == '[' || c == ']' || c == '\u{3010}' || c
            == '\u{3011}' {
            rest
        } else {
            seq![c] + rest
        }
    }
}

/// A raw author value made filesystem-safe: path-hostile and bracket
/// characters replaced or removed, then the whole lower-cased.
pub open spec fn spec_sanitize_author(raw: Seq<char>) -> Seq<char> {
    lower_of(strip_author_chars(raw))
}

/// The author field: the sanitized raw value, or `unknown` when absent.
pub open spec fn spec_author(raw: Option<Seq<char>>) -> Seq<char> {
    match raw {
        Some(r) => spec_sanitize_author(r),
        None => "unknown"@,
    }
}

/// The display name: the raw value verbatim, or the guid when absent.
pub open spec fn spec_display_name(raw: Option<Seq<char>>, guid: Seq<char>) -> Seq<char> {
    match raw {
        Some(n) => n,
        None => guid,
    }
}

/// The version: the raw value verbatim, or `1.0` when absent.
pub open spec fn spec_version(raw: Option<Seq<char>>) -> Seq<char> {
    match raw {
        Some(v) => v,
        None => "1.0"@,
    }
}

/// The canonical name derived from the three normalized fields:
/// `[author] name vversion.zipmod`.
pub open spec fn spec_new_name(author: Seq<char>, name: Seq<char>, version: Seq<char>) -> Seq<
    char,
> {
    "["@ + author + "] "@ + name + " v"@ + version + ".zipmod"@
}

/// The canonical name made safe as a single file name: `/` becomes `_` and
/// `,` becomes a space.  Applied to the constructed name only, never to the
/// stored fields.
pub open spec fn spec_safe_file_name(s: Seq<char>) -> Seq<char>
    decreases s.len(),
{
    if s.len() == 0 {
        Seq::<char>::empty()
    } else {
        let rest = spec_safe_file_name(s.drop_first());
        let c = s[0];
        if c == '/' {
            seq!['_'] + rest
        } else if c == ',' {
            seq![' '] + rest
        } else {
            seq![c] + rest
        }
    }
}

/// The decimal digits of `n`, most significant first.
pub open spec fn spec_digits(n: nat) -> Seq<char>
    decreases n,
{
    if n < 10 {
        seq![spec_digit_char(n)]
    } else {
        spec_digits(n / 10).push(spec_digit_char(n % 10))
    }
}

pub open spec fn spec_digit_char(d: nat) -> char {
    ((d + 48) as u8) as char
}

/// The file size in mebibytes with two decimals, truncated: the whole part
/// in decimal, a point, then hundredths padded to two digits.
pub open spec fn spec_size_mb(bytes: nat) -> Seq<char> {
    let whole = bytes / 1048576;
    let frac = (bytes % 1048576) * 100 / 1048576;
    spec_digits(whole) + seq!['.'] + (if frac < 10 {
        seq!['0']
    } else {
        Seq::<char>::empty()
    }) + spec_digits(frac)
}

/// One catalog record: where the package sits, the manifest fields after
/// normalization, the canonical name derived from them, and the size text.
pub struct ZipMod {
    pub path: String,
    pub guid: String,
    pub author: String,
    pub name: String,
    pub version: String,
    pub new_name: String,
    pub size: String,
}

impl ZipMod {
    /// A record is well formed when its canonical name is the one its own
    /// fields derive.
    pub open spec fn wf(&self) -> bool {
        self.new_name@ == spec_new_name(self.author@, self.name@, self.version@)
    }

    /// Builds a record, deriving the canonical name from author, name and
    /// version.
    pub fn new(
        path: &String,
        guid: &String,
        author: &String,
        name: &String,
        version: &String,
        size: &String,
    ) -> (r: ZipMod)
        ensures
            r.path@ == path@,
            r.guid@ == guid@,
            r.author@ == author@,
            r.name@ == name@,
            r.version@ == version@,
            r.size@ == size@,
            r.new_name@ == spec_new_name(author@, name@, version@),
            r.wf(),
    {
        let mut v = str_to_chars("[");
        let author_chars = str_to_chars(author.as_str());
        push_all(&mut v, &author_chars);
        let mid = str_to_chars("] ");
        push_all(&mut v, &mid);
        let name_chars = str_to_chars(name.as_str());
        push_all(&mut v, &name_chars);
        let ver_mark = str_to_chars(" v");
        push_all(&mut v, &ver_mark);
        let version_chars = str_to_chars(version.as_str());
        push_all(&mut v, &version_chars);
        let ext = str_to_chars(".zipmod");
        push_all(&mut v, &ext);
        proof {
            assert(v@ =~= spec_new_name(author@, name@, version@));
        }
        ZipMod {
            path: path.clone(),
            guid: guid.clone(),
            author: author.clone(),
            name: name.clone(),
            version: version.clone(),
            new_name: chars_to_string(&v),
            size: size.clone(),
        }
    }

    /// The canonical name as a file name, separators and commas made safe.
    pub fn target_file_name(&self) -> (r: String)
        ensures
            r@ == spec_safe_file_name(self.new_name@),
    {
        let v = str_to_chars(self.new_name.as_str());
        let n = v.len();
        let mut out: Vec<char> = Vec::new();
        let mut i: usize = 0;
        proof {
            assert(v@.skip(0) =~= v@);
        }
        while i < n
            invariant
                i <= n,
                n == v@.len(),
                spec_safe_file_name(v@) == out@ + spec_safe_file_name(v@.skip(i as int)),
            decreases n - i,
        {
            let ghost pre = out@;
            let c = v[i];
            if c == '/' {
                out.push('_');
            } else if c == ',' {
                out.push(' ');
            } else {
                out.push(c);
            }
            i = i + 1;
            proof {
                assert(v@.skip(i - 1).drop_first() =~= v@.skip(i as int));
                assert(v@.skip(i - 1)[0] == v@[i - 1]);
                assert(out@ =~= pre + seq![out@.last()]);
                assert(pre + (seq![out@.last()] + spec_safe_file_name(v@.skip(i as int))) =~= (pre
                    + seq![out@.last()]) + spec_safe_file_name(v@.skip(i as int)));
            }
        }
        proof {
            assert(spec_safe_file_name(v@.skip(n as int)) =~= Seq::<char>::empty());
            assert(out@ =~= out@ + spec_safe_file_name(v@.skip(n as int)));
        }
        chars_to_string(&out)
    }
}

/// Canonical name purity: the canonical name is a function of author, name
/// and version alone — two well-formed records agreeing on those three agree
/// on it, whatever their paths, guids or sizes.
pub proof fn lemma_canonical_name_pure(z1: ZipMod, z2: ZipMod)
    requires
        z1.wf(),
        z2.wf(),
        z1.author@ == z2.author@,
        z1.name@ == z2.name@,
        z1.version@ == z2.version@,
    ensures
        z1.new_name@ == z2.new_name@,
{
}

/// Default substitution: a manifest without author, name or version yields
/// `unknown`, the guid, and `1.0`, and the canonical name is built from
/// exactly those.
pub proof fn lemma_default_substitution(guid: Seq<char>)
    ensures
        spec_author(None) == "unknown"@,
        spec_display_name(None, guid) == guid,
        spec_version(None) == "1.0"@,
        spec_new_name(spec_author(None), spec_display_name(None, guid), spec_version(None))
            == "["@ + "unknown"@ + "] "@ + guid + " v"@ + "1.0"@ + ".zipmod"@,
{
}

/// A raw author value sanitized: `/` to `_`, the bracket and dot characters
/// removed, the rest lower-cased.
pub fn sanitize_author(raw: &str) -> (r: String)
    ensures
        r@ == spec_sanitize_author(raw@),
{
    let v = str_to_chars(raw);
    let n = v.len();
    let mut out: Vec<char> = Vec::new();
    let mut i: usize = 0;
    proof {
        assert(v@.skip(0) =~= v@);
    }
    while i < n
        invariant
            i <= n,
            n == v@.len(),
            strip_author_chars(v@) == out@ + strip_author_chars(v@.skip(i as int)),
        decreases n - i,
    {
        let ghost pre = out@;
        let c = v[i];
        if c == '/' {
            out.push('_');
        } else if c == '.' || c == '*' || c == '[' || c == ']' || c == '\u{3010}' || c
            == '\u{3011}' {
            // dropped
        } else {
            out.push(c);
        }
        i = i + 1;
        proof {
            assert(v@.skip(i - 1).drop_first() =~= v@.skip(i as int));
            assert(v@.skip(i - 1)[0] == v@[i - 1]);
            if out@.len() > pre.len() {
                assert(out@ =~= pre + seq![out@.last()]);
                assert(pre + (seq![out@.last()] + strip_author_chars(v@.skip(i as int))) =~= (pre
                    + seq![out@.last()]) + strip_author_chars(v@.skip(i as int)));
            }
        }
    }
    proof {
        assert(strip_author_chars(v@.skip(n as int)) =~= Seq::<char>::empty());
        assert(out@ =~= out@ + strip_author_chars(v@.skip(n as int)));
    }
    let stripped = chars_to_string(&out);
    lowercase(stripped.as_str())
}

/// Normalizes the three optional manifest fields: a missing author becomes
/// `unknown`, a present one is sanitized; a missing name becomes the guid; a
/// missing version becomes `1.0`.
pub fn normalize(
    raw_author: &Option<String>,
    raw_name: &Option<String>,
    raw_version: &Option<String>,
    guid: &String,
) -> (r: (String, String, String))
    ensures
        r.0@ == spec_author(match raw_author {
            Some(a) => Some(a@),
            None => None,
        }),
        r.1@ == spec_display_name(
            match raw_name {
                Some(n) => Some(n@),
                None => None,
            },
            guid@,
        ),
        r.2@ == spec_version(match raw_version {
            Some(v) => Some(v@),
            None => None,
        }),
{
    let author = match raw_author {
        Some(a) => sanitize_author(a.as_str()),
        None => {
            let v = str_to_chars("unknown");
            chars_to_string(&v)
        },
    };
    let name = match raw_name {
        Some(n) => n.clone(),
        None => guid.clone(),
    };
    let version = match raw_version {
        Some(v) => v.clone(),
        None => {
            let v = str_to_chars("1.0");
            chars_to_string(&v)
        },
    };
    (author, name, version)
}

/// The decimal digits of `n`.
pub fn u64_digits(n: u64) -> (r: Vec<char>)
    ensures
        r@ == spec_digits(n as nat),
    decreases n,
{
    let d = n % 10;
    let c = (48 + d as u8) as char;
    if n < 10 {
        let mut r: Vec<char> = Vec::new();
        r.push(c);
        proof {
            assert(r@ =~= seq![spec_digit_char(n as nat)]);
        }
        r
    } else {
        let mut r = u64_digits(n / 10);
        r.push(c);
        r
    }
}

/// The size text for a byte count: mebibytes with two decimals, truncated.
pub fn size_mb_string(bytes: u64) -> (r: String)
    ensures
        r@ == spec_size_mb(bytes as nat),
{
    let whole = bytes / 1048576;
    let rem = bytes % 1048576;
    let frac = rem * 100 / 1048576;
    let mut v = u64_digits(whole);
    v.push('.');
    if frac < 10 {
        v.push('0');
    }
    let frac_digits = u64_digits(frac);
    push_all(&mut v, &frac_digits);
    proof {
        assert(v@ =~= spec_size_mb(bytes as nat));
    }
    chars_to_string(&v)
}

} // verus!
