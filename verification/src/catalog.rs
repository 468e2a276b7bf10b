use vstd::prelude::*;
use crate::chars::{str_to_chars, chars_to_string, push_all};
use crate::error::Error;
use crate::zipmod::ZipMod;

verus! {

/// Whether a field must be quoted in a row: it holds a quote, a comma or a
/// line break.
pub open spec fn needs_quote(s: Seq<char>) -> bool {
    exists|i: int|
        0 <= i < s.len() && (s[i] == '"' || s[i] == ',' || s[i] == '\n' || s[i] == '\r')
}

/// A field's characters with every quote doubled.
pub open spec fn escape_quotes(s: Seq<char>) -> Seq<char>
    decreases s.len(),
{
    if s.len() == 0 {
        Seq::<char>::empty()
    } else if s[0] == '"' {
        seq!['"', '"'] + escape_quotes(s.drop_first())
    } else {
        seq![s[0]] + escape_quotes(s.drop_first())
    }
}

/// A field as it stands in the file: quoted and escaped only where needed.
pub open spec fn spec_csv_field(s: Seq<char>) -> Seq<char> {
    if needs_quote(s) {
        seq!['"'] + escape_quotes(s) + seq!['"']
    } else {
        s
    }
}

/// The seven fields of a record, in column order.
pub open spec fn spec_fields_of(z: ZipMod) -> Seq<Seq<char>> {
    seq![z.path@, z.guid@, z.author@, z.name@, z.version@, z.new_name@, z.size@]
}

/// A row: the encoded fields joined with commas, ended by a newline.
pub open spec fn spec_csv_row(fields: Seq<Seq<char>>) -> Seq<char>
    decreases fields.len(),
{
    if fields.len() == 0 {
        seq!['\n']
    } else if fields.len() == 1 {
        spec_csv_field(fields[0]) + seq!['\n']
    } else {
        spec_csv_field(fields[0]) + seq![','] + spec_csv_row(fields.drop_first())
    }
}

/// The rows of all records, in order.
pub open spec fn spec_csv_rows(records: Seq<ZipMod>) -> Seq<char>
    decreases records.len(),
{
    if records.len() == 0 {
        Seq::<char>::empty()
    } else {
        spec_csv_row(spec_fields_of(records[0])) + spec_csv_rows(records.drop_first())
    }
}

/// The header row naming the seven columns.
pub open spec fn spec_csv_header() -> Seq<char> {
    "path,guid,author,name,version,new_name,size\n"@
}

/// How the catalog file is written: rebuilt from scratch, or appended to.
pub enum WriteMode {
    Rebuild,
    Append,
}

fn encode_field(s: &str, out: &mut Vec<char>)
    ensures
        final(out)@ == old(out)@ + spec_csv_field(s@),
{
    let v = str_to_chars(s);
    let n = v.len();
    let mut quote = false;
    let mut i: usize = 0;
    while i < n
        invariant
            i <= n,
            n == v@.len(),
            quote == exists|k: int|
                0 <= k < i && (v@[k] == '"' || v@[k] == ',' || v@[k] == '\n' || v@[k] == '\r'),
        decreases n - i,
    {
        let c = v[i];
        if c == '"' || c == ',' || c == '\n' || c == '\r' {
            quote = true;
        }
        i = i + 1;
    }
    proof {
        assert(quote == needs_quote(v@));
    }
    if !quote {
        push_all(out, &v);
        return ;
    }
    out.push('"');
    let ghost mid = out@;
    let mut j: usize = 0;
    proof {
        assert(v@.skip(0) =~= v@);
    }
    while j < n
        invariant
            j <= n,
            n == v@.len(),
            out@ == mid + escape_quotes(v@.take(j as int)),
            escape_quotes(v@) == escape_quotes(v@.take(j as int)) + escape_quotes(
                v@.skip(j as int),
            ),
        decreases n - j,
    {
        let ghost pre_take = v@.take(j as int);
        let c = v[j];
        if c == '"' {
            out.push('"');
            out.push('"');
        } else {
            out.push(c);
        }
        j = j + 1;
        proof {
            let now_take = v@.take(j as int);
            assert(now_take.drop_last() =~= pre_take);
            lemma_escape_snoc(now_take);
            assert(v@.skip(j - 1)[0] == c);
            assert(v@.skip(j - 1).drop_first() =~= v@.skip(j as int));
            lemma_escape_cons(v@.skip(j - 1));
            assert(escape_quotes(v@.take(j as int)) + escape_quotes(v@.skip(j as int))
                =~= escape_quotes(v@.take(j - 1)) + escape_quotes(v@.skip(j - 1)));
            assert(escape_quotes(v@) == escape_quotes(v@.take(j as int)) + escape_quotes(
                v@.skip(j as int),
            ));
        }
    }
    out.push('"');
    proof {
        assert(v@.take(n as int) =~= v@);
        assert(escape_quotes(v@.skip(n as int)) =~= Seq::<char>::empty());
        assert(out@ =~= old(out)@ + spec_csv_field(v@));
    }
}

proof fn lemma_escape_cons(s: Seq<char>)
    requires
        s.len() > 0,
    ensures
        escape_quotes(s) == (if s[0] == '"' {
            seq!['"', '"']
        } else {
            seq![s[0]]
        }) + escape_quotes(s.drop_first()),
{
}

proof fn lemma_escape_snoc(s: Seq<char>)
    requires
        s.len() > 0,
    ensures
        escape_quotes(s) == escape_quotes(s.drop_last()) + (if s.last() == '"' {
            seq!['"', '"']
        } else {
            seq![s.last()]
        }),
    decreases s.len(),
{
    if s.len() == 1 {
        assert(s.drop_last() =~= Seq::<char>::empty());
        assert(escape_quotes(s.drop_last()) =~= Seq::<char>::empty());
        assert(s.drop_first() =~= Seq::<char>::empty());
        assert(escape_quotes(s) =~= escape_quotes(s.drop_last()) + (if s.last() == '"' {
            seq!['"', '"']
        } else {
            seq![s.last()]
        }));
    } else {
        lemma_escape_snoc(s.drop_first());
        assert(s.drop_first().drop_last() =~= s.drop_last().drop_first());
        assert(s.drop_last()[0] == s[0]);
        assert(s.drop_first().last() == s.last());
        lemma_escape_cons(s.drop_last());
        assert(escape_quotes(s) =~= escape_quotes(s.drop_last()) + (if s.last() == '"' {
            seq!['"', '"']
        } else {
            seq![s.last()]
        }));
    }
}

fn encode_row(z: &ZipMod, out: &mut Vec<char>)
    ensures
        final(out)@ == old(out)@ + spec_csv_row(spec_fields_of(*z)),
{
    let ghost fields = spec_fields_of(*z);
    encode_field(z.path.as_str(), out);
    out.push(',');
    encode_field(z.guid.as_str(), out);
    out.push(',');
    encode_field(z.author.as_str(), out);
    out.push(',');
    encode_field(z.name.as_str(), out);
    out.push(',');
    encode_field(z.version.as_str(), out);
    out.push(',');
    encode_field(z.new_name.as_str(), out);
    out.push(',');
    encode_field(z.size.as_str(), out);
    out.push('\n');
    proof {
        let s7 = seq![z.size@];
        let s6 = seq![z.new_name@, z.size@];
        let s5 = seq![z.version@, z.new_name@, z.size@];
        let s4 = seq![z.name@, z.version@, z.new_name@, z.size@];
        let s3 = seq![z.author@, z.name@, z.version@, z.new_name@, z.size@];
        let s2 = seq![z.guid@, z.author@, z.name@, z.version@, z.new_name@, z.size@];
        assert(spec_csv_row(s7) == spec_csv_field(z.size@) + seq!['\n']);
        assert(s6.drop_first() =~= s7);
        assert(spec_csv_row(s6) == spec_csv_field(z.new_name@) + seq![','] + spec_csv_row(s7));
        assert(s5.drop_first() =~= s6);
        assert(spec_csv_row(s5) == spec_csv_field(z.version@) + seq![','] + spec_csv_row(s6));
        assert(s4.drop_first() =~= s5);
        assert(spec_csv_row(s4) == spec_csv_field(z.name@) + seq![','] + spec_csv_row(s5));
        assert(s3.drop_first() =~= s4);
        assert(spec_csv_row(s3) == spec_csv_field(z.author@) + seq![','] + spec_csv_row(s4));
        assert(s2.drop_first() =~= s3);
        assert(spec_csv_row(s2) == spec_csv_field(z.guid@) + seq![','] + spec_csv_row(s3));
        assert(fields.drop_first() =~= s2);
        assert(spec_csv_row(fields) == spec_csv_field(z.path@) + seq![','] + spec_csv_row(s2));
        assert(out@ =~= old(out)@ + spec_csv_row(fields));
    }
}

/// The text a catalog write produces.  A rebuild holds the header and one
/// row per record; an append holds the rows alone, with the header put back
/// only when the file it extends is still empty.
pub fn to_csv(records: &Vec<ZipMod>, mode: WriteMode, file_empty: bool) -> (r: String)
    ensures
        (mode is Rebuild || file_empty) ==> r@ == spec_csv_header() + spec_csv_rows(
            records@,
        ),
        (mode is Append && !file_empty) ==> r@ == spec_csv_rows(records@),
{
    let mut out: Vec<char> = Vec::new();
    let with_header = match mode {
        WriteMode::Rebuild => true,
        WriteMode::Append => file_empty,
    };
    if with_header {
        let header = str_to_chars("path,guid,author,name,version,new_name,size\n");
        push_all(&mut out, &header);
    }
    let n = records.len();
    let mut i: usize = 0;
    proof {
        assert(records@.skip(0) =~= records@);
        assert(spec_csv_rows(records@.skip(n as int)).len() == 0);
    }
    #[verifier::loop_isolation(false)]
    while i < n
        invariant
            i <= n,
            out@ == (if with_header {
                spec_csv_header()
            } else {
                Seq::<char>::empty()
            }) + spec_csv_rows(records@.take(i as int)),
        decreases n - i,
    {
        let ghost pre = out@;
        encode_row(&records[i], &mut out);
        i = i + 1;
        proof {
            lemma_rows_snoc(records@.take(i as int));
            assert(records@.take(i as int).drop_last() =~= records@.take(i - 1));
            assert(records@.take(i as int).last() == records@[i - 1]);
            assert(out@ =~= (if with_header {
                spec_csv_header()
            } else {
                Seq::<char>::empty()
            }) + spec_csv_rows(records@.take(i as int)));
        }
    }
    proof {
        assert(records@.take(n as int) =~= records@);
    }
    chars_to_string(&out)
}

/// The rows a catalog text parses into, from position `i` with the scanner's
/// state: quoted sections keep commas and line breaks, a doubled quote
/// inside one is a literal quote, and a last line without a newline still
/// counts.
pub open spec fn csv_scan(
    s: Seq<char>,
    i: int,
    inq: bool,
    field: Seq<char>,
    row: Seq<Seq<char>>,
) -> Seq<Seq<Seq<char>>>
    decreases s.len() - i,
{
    if i < 0 || i >= s.len() {
        if field.len() == 0 && row.len() == 0 {
            Seq::<Seq<Seq<char>>>::empty()
        } else {
            seq![row.push(field)]
        }
    } else {
        let c = s[i];
        if inq {
            if c == '"' {
                if i + 1 < s.len() && s[i + 1] == '"' {
                    csv_scan(s, i + 2, true, field.push('"'), row)
                } else {
                    csv_scan(s, i + 1, false, field, row)
                }
            } else {
                csv_scan(s, i + 1, true, field.push(c), row)
            }
        } else {
            if c == '"' {
                csv_scan(s, i + 1, true, field, row)
            } else if c == ',' {
                csv_scan(s, i + 1, false, Seq::<char>::empty(), row.push(field))
            } else if c == '\n' {
                seq![row.push(field)] + csv_scan(
                    s,
                    i + 1,
                    false,
                    Seq::<char>::empty(),
                    Seq::<Seq<char>>::empty(),
                )
            } else if c == '\r' {
                csv_scan(s, i + 1, false, field, row)
            } else {
                csv_scan(s, i + 1, false, field.push(c), row)
            }
        }
    }
}

/// All the rows of a catalog text.
pub open spec fn csv_rows_of(s: Seq<char>) -> Seq<Seq<Seq<char>>> {
    csv_scan(s, 0, false, Seq::<char>::empty(), Seq::<Seq<char>>::empty())
}

/// The rows that parse as records: those with exactly the seven columns.
pub open spec fn spec_valid_rows(rows: Seq<Seq<Seq<char>>>) -> Seq<Seq<Seq<char>>>
    decreases rows.len(),
{
    if rows.len() == 0 {
        Seq::<Seq<Seq<char>>>::empty()
    } else {
        let rest = spec_valid_rows(rows.drop_first());
        if rows[0].len() == 7 {
            seq![rows[0]] + rest
        } else {
            rest
        }
    }
}

/// What loading a catalog text yields: every row after the header that has
/// the seven columns, as record fields; rows that do not parse are skipped.
pub open spec fn spec_parse_catalog(text: Seq<char>) -> Seq<Seq<Seq<char>>> {
    let rows = csv_rows_of(text);
    if rows.len() == 0 {
        Seq::<Seq<Seq<char>>>::empty()
    } else {
        spec_valid_rows(rows.drop_first())
    }
}

/// Parses a catalog text: the header row is skipped, every following row
/// with the seven columns becomes a record, and any other row is skipped.
#[verifier::loop_isolation(false)]
pub fn read_csv(text: &str) -> (r: Vec<ZipMod>)
    ensures
        r@.map_values(|z: ZipMod| spec_fields_of(z)) == spec_parse_catalog(text@),
{
    let v = str_to_chars(text);
    let n = v.len();
    let mut rows: Vec<Vec<String>> = Vec::new();
    let mut row: Vec<String> = Vec::new();
    let mut field: Vec<char> = Vec::new();
    let mut inq = false;
    let mut i: usize = 0;
    proof {
        assert(rows@.map_values(|rw: Vec<String>| rw@.map_values(|s: String| s@))
            =~= Seq::<Seq<Seq<char>>>::empty());
        assert(row@.map_values(|s: String| s@) =~= Seq::<Seq<char>>::empty());
    }
    while i < n
        invariant
            i <= n,
            csv_rows_of(v@) == rows@.map_values(
                |rw: Vec<String>| rw@.map_values(|s: String| s@),
            ) + csv_scan(v@, i as int, inq, field@, row@.map_values(|s: String| s@)),
        decreases n - i,
    {
        let ghost done = rows@.map_values(|rw: Vec<String>| rw@.map_values(|s: String| s@));
        let ghost old_field = field@;
        let ghost row_view = row@.map_values(|s: String| s@);
        let c = v[i];
        if inq {
            if c == '"' {
                if i + 1 < n && v[i + 1] == '"' {
                    field.push('"');
                    i = i + 2;
                } else {
                    inq = false;
                    i = i + 1;
                }
            } else {
                field.push(c);
                i = i + 1;
            }
        } else {
            if c == '"' {
                inq = true;
                i = i + 1;
            } else if c == ',' {
                row.push(chars_to_string(&field));
                field = Vec::new();
                i = i + 1;
                proof {
                    assert(row@.map_values(|s: String| s@) =~= row_view.push(old_field));
                    assert(field@ =~= Seq::<char>::empty());
                }
            } else if c == '\n' {
                row.push(chars_to_string(&field));
                rows.push(row);
                row = Vec::new();
                field = Vec::new();
                inq = false;
                i = i + 1;
                proof {
                    let finished = row_view.push(old_field);
                    assert(rows@.last()@.map_values(|s: String| s@) =~= finished);
                    assert(rows@.map_values(|rw: Vec<String>| rw@.map_values(|s: String| s@))
                        =~= done.push(finished));
                    assert(row@.map_values(|s: String| s@) =~= Seq::<Seq<char>>::empty());
                    assert(field@ =~= Seq::<char>::empty());
                    let rest = csv_scan(
                        v@,
                        i as int,
                        false,
                        Seq::<char>::empty(),
                        Seq::<Seq<char>>::empty(),
                    );
                    assert(done.push(finished) =~= done + seq![finished]);
                    assert(done + (seq![finished] + rest) =~= (done + seq![finished]) + rest);
                }
            } else if c == '\r' {
                i = i + 1;
            } else {
                field.push(c);
                i = i + 1;
            }
        }
    }
    if field.len() > 0 || row.len() > 0 {
        let ghost done = rows@.map_values(|rw: Vec<String>| rw@.map_values(|s: String| s@));
        let ghost old_field = field@;
        let ghost row_view = row@.map_values(|s: String| s@);
        row.push(chars_to_string(&field));
        rows.push(row);
        proof {
            let finished = row_view.push(old_field);
            assert(rows@.last()@.map_values(|s: String| s@) =~= finished);
            assert(rows@.map_values(|rw: Vec<String>| rw@.map_values(|s: String| s@))
                =~= done.push(finished));
            assert(done.push(finished) =~= done + seq![finished]);
        }
    }
    let ghost all_rows = rows@.map_values(|rw: Vec<String>| rw@.map_values(|s: String| s@));
    proof {
        assert(all_rows =~~= csv_rows_of(v@));
    }
    let mut out: Vec<ZipMod> = Vec::new();
    let m = rows.len();
    if m == 0 {
        proof {
            assert(out@.map_values(|z: ZipMod| spec_fields_of(z)) =~= spec_parse_catalog(
                text@,
            ));
        }
        return out;
    }
    let mut k: usize = 1;
    proof {
        assert(all_rows.drop_first() =~= all_rows.skip(1));
    }
    while k < m
        invariant
            1 <= k <= m,
            m == rows@.len(),
            spec_valid_rows(all_rows.drop_first()) == out@.map_values(
                |z: ZipMod| spec_fields_of(z),
            ) + spec_valid_rows(all_rows.skip(k as int)),
        decreases m - k,
    {
        let ghost pre = out@.map_values(|z: ZipMod| spec_fields_of(z));
        if rows[k].len() == 7 {
            let z = ZipMod {
                path: rows[k][0].clone(),
                guid: rows[k][1].clone(),
                author: rows[k][2].clone(),
                name: rows[k][3].clone(),
                version: rows[k][4].clone(),
                new_name: rows[k][5].clone(),
                size: rows[k][6].clone(),
            };
            proof {
                assert(spec_fields_of(z) =~= all_rows[k as int]);
            }
            out.push(z);
        }
        k = k + 1;
        proof {
            assert(all_rows.skip(k - 1)[0] == all_rows[k - 1]);
            assert(all_rows.skip(k - 1).drop_first() =~= all_rows.skip(k as int));
            if all_rows[k - 1].len() == 7 {
                assert(out@.map_values(|z: ZipMod| spec_fields_of(z)) =~= pre + seq![all_rows[k
                    - 1]]);
                assert(pre + (seq![all_rows[k - 1]] + spec_valid_rows(all_rows.skip(k as int)))
                    =~= (pre + seq![all_rows[k - 1]]) + spec_valid_rows(
                    all_rows.skip(k as int),
                ));
            }
        }
    }
    proof {
        assert(all_rows.skip(m as int).len() == 0);
        assert(spec_valid_rows(all_rows.skip(m as int)).len() == 0);
        assert(out@.map_values(|z: ZipMod| spec_fields_of(z)) =~= spec_parse_catalog(text@));
    }
    out
}

proof fn lemma_scan_plain(s: Seq<char>, i: int, j: int, acc: Seq<char>, row: Seq<Seq<char>>)
    requires
        0 <= i <= j <= s.len(),
        forall|k: int| i <= k < j ==> s[k] != '"' && s[k] != ',' && s[k] != '\n' && s[k] != '\r',
    ensures
        csv_scan(s, i, false, acc, row) == csv_scan(s, j, false, acc + s.subrange(i, j), row),
    decreases j - i,
{
    if i == j {
        assert(acc + s.subrange(i, j) =~= acc);
    } else {
        lemma_scan_plain(s, i + 1, j, acc.push(s[i]), row);
        assert(acc.push(s[i]) + s.subrange(i + 1, j) =~= acc + s.subrange(i, j));
    }
}

proof fn lemma_scan_escaped(s: Seq<char>, i: int, f: Seq<char>, acc: Seq<char>, row: Seq<Seq<char>>)
    requires
        0 <= i,
        i + escape_quotes(f).len() < s.len(),
        s.subrange(i, i + escape_quotes(f).len()) == escape_quotes(f),
        s[i + escape_quotes(f).len()] == '"',
    ensures
        csv_scan(s, i, true, acc, row) == csv_scan(
            s,
            i + escape_quotes(f).len(),
            true,
            acc + f,
            row,
        ),
    decreases f.len(),
{
    if f.len() == 0 {
        assert(acc + f =~= acc);
    } else {
        let rest = f.drop_first();
        let esc = escape_quotes(f);
        if f[0] == '"' {
            assert(esc == seq!['"', '"'] + escape_quotes(rest));
            assert(esc.len() == 2 + escape_quotes(rest).len());
            assert(s.subrange(i, i + esc.len())[0] == s[i]);
            assert(s.subrange(i, i + esc.len())[1] == s[i + 1]);
            assert(s[i] == esc[0] && s[i + 1] == esc[1]);
            assert(s[i] == '"' && s[i + 1] == '"');
            assert(s.subrange(i + 2, i + 2 + escape_quotes(rest).len()) =~= escape_quotes(rest))
                by {
                assert(forall|k: int|
                    0 <= k < escape_quotes(rest).len() ==> (#[trigger] s.subrange(
                        i + 2,
                        i + 2 + escape_quotes(rest).len(),
                    )[k]) == s[i + 2 + k] && s[i + 2 + k] == esc[k + 2]);
            }
            lemma_scan_escaped(s, i + 2, rest, acc.push('"'), row);
            assert(acc.push('"') + rest =~= acc + f);
        } else {
            assert(esc == seq![f[0]] + escape_quotes(rest));
            assert(s.subrange(i, i + esc.len())[0] == s[i]);
            assert(s[i] == esc[0] && s[i] == f[0]);
            assert(s.subrange(i + 1, i + 1 + escape_quotes(rest).len()) =~= escape_quotes(rest))
                by {
                assert(forall|k: int|
                    0 <= k < escape_quotes(rest).len() ==> (#[trigger] s.subrange(
                        i + 1,
                        i + 1 + escape_quotes(rest).len(),
                    )[k]) == s[i + 1 + k] && s[i + 1 + k] == esc[k + 1]);
            }
            lemma_scan_escaped(s, i + 1, rest, acc.push(f[0]), row);
            assert(acc.push(f[0]) + rest =~= acc + f);
        }
    }
}

proof fn lemma_scan_field(s: Seq<char>, i: int, f: Seq<char>, row: Seq<Seq<char>>)
    requires
        0 <= i,
        i + spec_csv_field(f).len() <= s.len(),
        s.subrange(i, i + spec_csv_field(f).len()) == spec_csv_field(f),
        i + spec_csv_field(f).len() == s.len() || s[i + spec_csv_field(f).len()] != '"',
    ensures
        csv_scan(s, i, false, Seq::<char>::empty(), row) == csv_scan(
            s,
            i + spec_csv_field(f).len(),
            false,
            f,
            row,
        ),
{
    let enc = spec_csv_field(f);
    if needs_quote(f) {
        let esc = escape_quotes(f);
        assert(enc == seq!['"'] + esc + seq!['"']);
        assert(s.subrange(i, i + enc.len())[0] == s[i]);
        assert(s[i] == enc[0] && s[i] == '"');
        assert(s.subrange(i + 1, i + 1 + esc.len()) =~= esc) by {
            assert(forall|k: int|
                0 <= k < esc.len() ==> (#[trigger] s.subrange(i + 1, i + 1 + esc.len())[k]) == s[i
                    + 1 + k] && s[i + 1 + k] == enc[k + 1]);
        }
        assert(s.subrange(i, i + enc.len())[enc.len() - 1] == s[i + enc.len() - 1]);
        assert(s[i + 1 + esc.len()] == enc[enc.len() - 1]);
        assert((seq!['"'] + esc + seq!['"']).last() == '"');
        assert(s[i + 1 + esc.len()] == '"');
        lemma_scan_escaped(s, i + 1, f, Seq::<char>::empty(), row);
        assert(Seq::<char>::empty() + f =~= f);
        let close = i + 1 + esc.len();
        assert(csv_scan(s, close, true, f, row) == csv_scan(s, close + 1, false, f, row));
    } else {
        assert(forall|k: int| 0 <= k < f.len() ==> f[k] != '"' && f[k] != ',' && f[k] != '\n'
            && f[k] != '\r') by {
            assert forall|k: int| 0 <= k < f.len() implies f[k] != '"' && f[k] != ',' && f[k]
                != '\n' && f[k] != '\r' by {
                if f[k] == '"' || f[k] == ',' || f[k] == '\n' || f[k] == '\r' {
                    assert(needs_quote(f));
                }
            }
        }
        assert(forall|k: int| i <= k < i + f.len() ==> s[k] == f[k - i]);
        lemma_scan_plain(s, i, i + f.len(), Seq::<char>::empty(), row);
        assert(Seq::<char>::empty() + s.subrange(i, i + f.len()) =~= f);
    }
}

proof fn lemma_scan_row(s: Seq<char>, i: int, fields: Seq<Seq<char>>, row_acc: Seq<Seq<char>>)
    requires
        fields.len() >= 1,
        0 <= i,
        i + spec_csv_row(fields).len() <= s.len(),
        s.subrange(i, i + spec_csv_row(fields).len()) == spec_csv_row(fields),
    ensures
        csv_scan(s, i, false, Seq::<char>::empty(), row_acc) == seq![row_acc + fields] + csv_scan(
            s,
            i + spec_csv_row(fields).len(),
            false,
            Seq::<char>::empty(),
            Seq::<Seq<char>>::empty(),
        ),
    decreases fields.len(),
{
    let f0 = fields[0];
    let enc0 = spec_csv_field(f0);
    let rowtext = spec_csv_row(fields);
    if fields.len() == 1 {
        assert(rowtext == enc0 + seq!['\n']);
        assert(s.subrange(i, i + enc0.len()) =~= enc0) by {
            assert(forall|k: int|
                0 <= k < enc0.len() ==> (#[trigger] s.subrange(i, i + enc0.len())[k]) == s[i + k]
                    && s[i + k] == rowtext[k]);
        }
        assert(s.subrange(i, i + rowtext.len())[enc0.len() as int] == s[i + enc0.len()]);
        assert(s[i + enc0.len()] == rowtext[enc0.len() as int]);
        assert(rowtext[enc0.len() as int] == '\n');
        assert(s[i + enc0.len()] == '\n');
        lemma_scan_field(s, i, f0, row_acc);
        let j = i + enc0.len();
        assert(csv_scan(s, j, false, f0, row_acc) == seq![row_acc.push(f0)] + csv_scan(
            s,
            j + 1,
            false,
            Seq::<char>::empty(),
            Seq::<Seq<char>>::empty(),
        ));
        assert(row_acc.push(f0) =~= row_acc + fields);
    } else {
        let rest = fields.drop_first();
        assert(rowtext == enc0 + seq![','] + spec_csv_row(rest));
        assert(s.subrange(i, i + enc0.len()) =~= enc0) by {
            assert(forall|k: int|
                0 <= k < enc0.len() ==> (#[trigger] s.subrange(i, i + enc0.len())[k]) == s[i + k]
                    && s[i + k] == rowtext[k]);
        }
        assert(s.subrange(i, i + rowtext.len())[enc0.len() as int] == s[i + enc0.len()]);
        assert(s[i + enc0.len()] == rowtext[enc0.len() as int]);
        assert(rowtext[enc0.len() as int] == ',');
        assert(s[i + enc0.len()] == ',');
        lemma_scan_field(s, i, f0, row_acc);
        let j = i + enc0.len();
        assert(csv_scan(s, j, false, f0, row_acc) == csv_scan(
            s,
            j + 1,
            false,
            Seq::<char>::empty(),
            row_acc.push(f0),
        ));
        assert(s.subrange(j + 1, j + 1 + spec_csv_row(rest).len()) =~= spec_csv_row(rest)) by {
            assert(forall|k: int|
                0 <= k < spec_csv_row(rest).len() ==> (#[trigger] s.subrange(
                    j + 1,
                    j + 1 + spec_csv_row(rest).len(),
                )[k]) == s[j + 1 + k] && s[j + 1 + k] == rowtext[enc0.len() + 1 + k]);
        }
        lemma_scan_row(s, j + 1, rest, row_acc.push(f0));
        assert(row_acc.push(f0) + rest =~= row_acc + fields);
    }
}

proof fn lemma_scan_records(s: Seq<char>, i: int, records: Seq<ZipMod>)
    requires
        0 <= i <= s.len(),
        s.skip(i) == spec_csv_rows(records),
    ensures
        csv_scan(s, i, false, Seq::<char>::empty(), Seq::<Seq<char>>::empty())
            == records.map_values(|z: ZipMod| spec_fields_of(z)),
    decreases records.len(),
{
    if records.len() == 0 {
        assert(s.skip(i).len() == 0);
        assert(i == s.len());
        assert(records.map_values(|z: ZipMod| spec_fields_of(z)) =~= Seq::<
            Seq<Seq<char>>,
        >::empty());
    } else {
        let fields0 = spec_fields_of(records[0]);
        let row0 = spec_csv_row(fields0);
        let rest = records.drop_first();
        assert(spec_csv_rows(records) == row0 + spec_csv_rows(rest));
        assert(fields0.len() == 7);
        assert(s.subrange(i, i + row0.len()) =~= row0) by {
            assert(forall|k: int|
                0 <= k < row0.len() ==> (#[trigger] s.subrange(i, i + row0.len())[k]) == s[i + k]
                    && s[i + k] == s.skip(i)[k]);
        }
        lemma_scan_row(s, i, fields0, Seq::<Seq<char>>::empty());
        assert(s.skip(i + row0.len()) =~= spec_csv_rows(rest)) by {
            assert(forall|k: int|
                0 <= k < spec_csv_rows(rest).len() ==> (#[trigger] s.skip(i + row0.len())[k]) == s[
                    i + row0.len() + k] && s[i + row0.len() + k] == s.skip(i)[row0.len() + k]);
        }
        lemma_scan_records(s, i + row0.len(), rest);
        assert(Seq::<Seq<char>>::empty() + fields0 =~= fields0);
        assert(records.map_values(|z: ZipMod| spec_fields_of(z)) =~= seq![fields0]
            + rest.map_values(|z: ZipMod| spec_fields_of(z)));
    }
}

proof fn lemma_scan_skips_line(
    s: Seq<char>,
    i: int,
    j: int,
    acc: Seq<char>,
    row_acc: Seq<Seq<char>>,
)
    requires
        0 <= i <= j < s.len(),
        s[j] == '\n',
        forall|k: int| i <= k < j ==> s[k] != '"' && s[k] != '\n',
    ensures
        csv_scan(s, i, false, acc, row_acc).len() >= 1,
        csv_scan(s, i, false, acc, row_acc).drop_first() == csv_scan(
            s,
            j + 1,
            false,
            Seq::<char>::empty(),
            Seq::<Seq<char>>::empty(),
        ),
    decreases j - i,
{
    if i == j {
        assert((seq![row_acc.push(acc)] + csv_scan(
            s,
            j + 1,
            false,
            Seq::<char>::empty(),
            Seq::<Seq<char>>::empty(),
        )).drop_first() =~= csv_scan(
            s,
            j + 1,
            false,
            Seq::<char>::empty(),
            Seq::<Seq<char>>::empty(),
        ));
    } else {
        let c = s[i];
        if c == ',' {
            lemma_scan_skips_line(s, i + 1, j, Seq::<char>::empty(), row_acc.push(acc));
        } else if c == '\r' {
            lemma_scan_skips_line(s, i + 1, j, acc, row_acc);
        } else {
            lemma_scan_skips_line(s, i + 1, j, acc.push(c), row_acc);
        }
    }
}

proof fn lemma_valid_rows_all_records(rows: Seq<Seq<Seq<char>>>)
    requires
        forall|k: int| 0 <= k < rows.len() ==> (#[trigger] rows[k]).len() == 7,
    ensures
        spec_valid_rows(rows) == rows,
    decreases rows.len(),
{
    if rows.len() > 0 {
        assert(rows[0].len() == 7);
        assert(forall|k: int|
            0 <= k < rows.drop_first().len() ==> #[trigger] rows.drop_first()[k] == rows[k + 1]);
        lemma_valid_rows_all_records(rows.drop_first());
        assert(seq![rows[0]] + rows.drop_first() =~= rows);
    }
}

/// The catalog's persistence is faithful: parsing a rebuilt catalog text
/// yields back exactly the records that were written, field for field.
pub proof fn lemma_catalog_round_trip(records: Seq<ZipMod>)
    ensures
        spec_parse_catalog(spec_csv_header() + spec_csv_rows(records)) == records.map_values(
            |z: ZipMod| spec_fields_of(z),
        ),
{
    reveal_strlit("path,guid,author,name,version,new_name,size\n");
    let header = spec_csv_header();
    let s = header + spec_csv_rows(records);
    assert(header.len() == 44);
    assert(header[43] == '\n');
    assert(forall|k: int| 0 <= k < 43 ==> header[k] != '"' && header[k] != '\n');
    assert(forall|k: int| 0 <= k < 44 ==> s[k] == header[k]);
    lemma_scan_skips_line(s, 0, 43, Seq::<char>::empty(), Seq::<Seq<char>>::empty());
    assert(s.skip(44) =~= spec_csv_rows(records));
    lemma_scan_records(s, 44, records);
    let mapped = records.map_values(|z: ZipMod| spec_fields_of(z));
    assert(csv_rows_of(s).drop_first() == mapped);
    assert(csv_rows_of(s).len() >= 1);
    assert(forall|k: int| 0 <= k < mapped.len() ==> (#[trigger] mapped[k]).len() == 7) by {
        assert(forall|k: int|
            0 <= k < records.len() ==> (#[trigger] mapped[k]) == spec_fields_of(records[k]));
    }
    lemma_valid_rows_all_records(mapped);
}

/// Loads the catalog: a file that does not exist at all is
/// `CatalogUnavailable`, distinct from an existing, empty one, which is an
/// empty catalog.
pub fn load_catalog(text: &Option<String>) -> (r: Result<Vec<ZipMod>, Error>)
    ensures
        match text {
            None => r matches Err(e) && e is CatalogUnavailable,
            Some(t) => r matches Ok(v) && v@.map_values(|z: ZipMod| spec_fields_of(z))
                == spec_parse_catalog(t@),
        },
{
    match text {
        None => Err(Error::CatalogUnavailable),
        Some(t) => Ok(read_csv(t.as_str())),
    }
}

proof fn lemma_rows_snoc(records: Seq<ZipMod>)
    requires
        records.len() > 0,
    ensures
        spec_csv_rows(records) == spec_csv_rows(records.drop_last()) + spec_csv_row(
            spec_fields_of(records.last()),
        ),
    decreases records.len(),
{
    if records.len() == 1 {
        assert(records.drop_last() =~= Seq::<ZipMod>::empty());
        assert(records.drop_first() =~= Seq::<ZipMod>::empty());
        assert(spec_csv_rows(records.drop_first()).len() == 0);
        assert(spec_csv_rows(records) =~= spec_csv_rows(records.drop_last()) + spec_csv_row(
            spec_fields_of(records.last()),
        ));
    } else {
        lemma_rows_snoc(records.drop_first());
        assert(records.drop_first().drop_last() =~= records.drop_last().drop_first());
        assert(records.drop_last()[0] == records[0]);
        assert(records.drop_first().last() == records.last());
        assert(spec_csv_rows(records) =~= spec_csv_rows(records.drop_last()) + spec_csv_row(
            spec_fields_of(records.last()),
        ));
    }
}

} // verus!
