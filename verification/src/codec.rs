//! The schema document codec: a structured text form for schemas, one
//! table of key/value lines per field, and its parser. Field order
//! round-trips exactly; a missing comment defaults to empty text; a field
//! that does not parse fails the whole document.

use vstd::prelude::*;
use crate::field::{Field, FieldModel};
use crate::schema::{models, Schema};
use crate::text::{all_digits, chars_of_str, dec_chars_of, dec_digits, digit_char, digit_in_radix, string_from_chars, val_in_radix};
use crate::types::{DataType, Endianness};

verus! {

/// A document that does not describe a schema.
#[derive(Clone, Copy, Debug, PartialEq, Eq, Structural)]
pub enum ParseError {
    Malformed,
}

/// Characters a document can carry inside a quoted string: everything but
/// the control characters, except the three that have short escapes.
pub open spec fn ok_char(c: char) -> bool {
    c == '\n' || c == '\t' || c == '\r' || (0x20 <= c as u32 && c as u32 != 0x7f)
}

/// Whether a text can stand inside a quoted string of a document.
pub open spec fn serializable(s: Seq<char>) -> bool {
    forall|i: int| 0 <= i < s.len() ==> ok_char(#[trigger] s[i])
}

/// The escaped form of one character inside a quoted string.
pub open spec fn esc_char(c: char) -> Seq<char> {
    if c == '"' {
        seq!['\\', '"']
    } else if c == '\\' {
        seq!['\\', '\\']
    } else if c == '\n' {
        seq!['\\', 'n']
    } else if c == '\t' {
        seq!['\\', 't']
    } else if c == '\r' {
        seq!['\\', 'r']
    } else {
        seq![c]
    }
}

/// The escaped form of a text inside a quoted string.
pub open spec fn esc(s: Seq<char>) -> Seq<char>
    decreases s.len(),
{
    if s.len() == 0 {
        Seq::<char>::empty()
    } else {
        esc_char(s[0]) + esc(s.drop_first())
    }
}

/// Escaping commutes with appending one character at the end.
pub proof fn lemma_esc_push(s: Seq<char>, c: char)
    ensures
        esc(s.push(c)) == esc(s) + esc_char(c),
    decreases s.len(),
{
    if s.len() == 0 {
        assert(s.push(c)[0] == c);
        assert(s.push(c).drop_first() =~= Seq::<char>::empty());
        assert(esc(Seq::<char>::empty()) == Seq::<char>::empty());
        assert(esc(s.push(c)) == esc_char(c) + Seq::<char>::empty());
        assert(esc(s.push(c)) =~= esc(s) + esc_char(c));
    } else {
        assert(s.push(c).drop_first() =~= s.drop_first().push(c));
        lemma_esc_push(s.drop_first(), c);
        assert(s.push(c)[0] == s[0]);
        assert(esc(s.push(c)) == esc_char(s[0]) + esc(s.drop_first().push(c)));
        assert(esc_char(s[0]) + (esc(s.drop_first()) + esc_char(c)) =~= (esc_char(s[0]) + esc(
            s.drop_first(),
        )) + esc_char(c));
    }
}

/// The display name of a byte order.
pub open spec fn endianness_name(e: Endianness) -> Seq<char> {
    match e {
        Endianness::Little => "Little"@,
        Endianness::Big => "Big"@,
    }
}

/// Whether a field's texts can stand in a document.
pub open spec fn serializable_field(f: FieldModel) -> bool {
    serializable(f.name) && serializable(f.comment)
}

/// Whether every field of a schema can stand in a document.
pub open spec fn serializable_schema(fs: Seq<FieldModel>) -> bool {
    forall|i: int| 0 <= i < fs.len() ==> serializable_field(#[trigger] fs[i])
}

/// The document text of one field: a table header and one key/value line
/// per attribute.
pub open spec fn emit_field_model(f: FieldModel) -> Seq<char> {
    let name_line = "name = \""@ + esc(f.name) + "\"\n"@;
    let offset_line = "offset = "@ + dec_digits(f.offset as nat) + "\n"@;
    let type_line = "data_type = \""@ + f.data_type.name_seq() + "\"\n"@;
    let comment_line = "comment = \""@ + esc(f.comment) + "\"\n"@;
    let endianness_line = "endianness = \""@ + endianness_name(f.endianness) + "\"\n"@;
    "[[fields]]\n"@ + name_line + offset_line + type_line + comment_line + endianness_line
}

/// The document text of a whole schema: the fields' tables in order.
pub open spec fn emit_model(fs: Seq<FieldModel>) -> Seq<char>
    decreases fs.len(),
{
    if fs.len() == 0 {
        Seq::<char>::empty()
    } else {
        emit_field_model(fs[0]) + emit_model(fs.drop_first())
    }
}

/// Emitting one more field appends that field's table.
pub proof fn lemma_emit_snoc(fs: Seq<FieldModel>, f: FieldModel)
    ensures
        emit_model(fs.push(f)) == emit_model(fs) + emit_field_model(f),
    decreases fs.len(),
{
    if fs.len() == 0 {
        assert(fs.push(f)[0] == f);
        assert(fs.push(f).drop_first() =~= Seq::<FieldModel>::empty());
        assert(emit_model(Seq::<FieldModel>::empty()) == Seq::<char>::empty());
        assert(emit_model(fs.push(f)) == emit_field_model(f) + Seq::<char>::empty());
        assert(emit_model(fs.push(f)) =~= emit_model(fs) + emit_field_model(f));
    } else {
        assert(fs.push(f).drop_first() =~= fs.drop_first().push(f));
        lemma_emit_snoc(fs.drop_first(), f);
        assert(fs.push(f)[0] == fs[0]);
        assert(emit_field_model(fs[0]) + (emit_model(fs.drop_first()) + emit_field_model(f)) =~= (
        emit_field_model(fs[0]) + emit_model(fs.drop_first())) + emit_field_model(f));
    }
}

/// Escapes a text for a quoted string; fails exactly when the text holds a
/// character no document can carry.
fn esc_chars(src: &Vec<char>) -> (r: Option<Vec<char>>)
    ensures
        r is Some <==> serializable(src@),
        r is Some ==> r->0@ == esc(src@),
{
    let mut out: Vec<char> = Vec::new();
    let mut i: usize = 0;
    proof {
        assert(src@.subrange(0, 0) =~= Seq::<char>::empty());
    }
    while i < src.len()
        invariant
            i <= src@.len(),
            serializable(src@.subrange(0, i as int)),
            out@ == esc(src@.subrange(0, i as int)),
        decreases src@.len() - i,
    {
        let c = src[i];
        let ghost pre = src@.subrange(0, i as int);
        proof {
            assert(src@.subrange(0, i + 1) =~= pre.push(c));
            lemma_esc_push(pre, c);
        }
        if c == '"' {
            out.push('\\');
            out.push('"');
        } else if c == '\\' {
            out.push('\\');
            out.push('\\');
        } else if c == '\n' {
            out.push('\\');
            out.push('n');
        } else if c == '\t' {
            out.push('\\');
            out.push('t');
        } else if c == '\r' {
            out.push('\\');
            out.push('r');
        } else {
            let code = c as u32;
            if code < 0x20 || code == 0x7f {
                proof {
                    assert(!ok_char(src@[i as int]));
                }
                return None;
            }
            out.push(c);
        }
        proof {
            assert(out@ =~= esc(pre) + esc_char(c));
            assert(forall|j: int|
                0 <= j < i + 1 ==> ok_char(#[trigger] src@.subrange(0, i + 1)[j]));
        }
        i = i + 1;
    }
    proof {
        assert(src@.subrange(0, src@.len() as int) =~= src@);
    }
    Some(out)
}

/// The document text of one field; fails exactly when its name or comment
/// holds a character no document can carry.
#[verifier::rlimit(60)]
fn emit_field_chars(field: &Field) -> (r: Option<Vec<char>>)
    ensures
        r is Some <==> serializable_field(field@),
        r is Some ==> r->0@ == emit_field_model(field@),
{
    let name_src = chars_of_str(field.name.as_str());
    let name_esc = match esc_chars(&name_src) {
        Some(v) => v,
        None => {
            return None;
        },
    };
    let comment_src = chars_of_str(field.comment.as_str());
    let comment_esc = match esc_chars(&comment_src) {
        Some(v) => v,
        None => {
            return None;
        },
    };
    let ghost f = field@;
    let mut out = chars_of_str("[[fields]]\n");
    let mut piece = chars_of_str("name = \"");
    out.append(&mut piece);
    let mut name_esc = name_esc;
    out.append(&mut name_esc);
    let mut piece = chars_of_str("\"\n");
    out.append(&mut piece);
    let ghost name_line = "name = \""@ + esc(f.name) + "\"\n"@;
    proof {
        assert(out@ =~= "[[fields]]\n"@ + name_line);
    }
    let mut piece = chars_of_str("offset = ");
    out.append(&mut piece);
    let mut digits = dec_chars_of(field.offset as u64);
    out.append(&mut digits);
    let mut piece = chars_of_str("\n");
    out.append(&mut piece);
    let ghost offset_line = "offset = "@ + dec_digits(f.offset as nat) + "\n"@;
    proof {
        assert(out@ =~= "[[fields]]\n"@ + name_line + offset_line);
    }
    let mut piece = chars_of_str("data_type = \"");
    out.append(&mut piece);
    let mut tname = chars_of_str(field.data_type.name());
    out.append(&mut tname);
    let mut piece = chars_of_str("\"\n");
    out.append(&mut piece);
    let ghost type_line = "data_type = \""@ + f.data_type.name_seq() + "\"\n"@;
    proof {
        assert(out@ =~= "[[fields]]\n"@ + name_line + offset_line + type_line);
    }
    let mut piece = chars_of_str("comment = \"");
    out.append(&mut piece);
    let mut comment_esc = comment_esc;
    out.append(&mut comment_esc);
    let mut piece = chars_of_str("\"\n");
    out.append(&mut piece);
    let ghost comment_line = "comment = \""@ + esc(f.comment) + "\"\n"@;
    proof {
        assert(out@ =~= "[[fields]]\n"@ + name_line + offset_line + type_line + comment_line);
    }
    let mut piece = chars_of_str("endianness = \"");
    out.append(&mut piece);
    let mut ename = match field.endianness {
        Endianness::Little => chars_of_str("Little"),
        Endianness::Big => chars_of_str("Big"),
    };
    out.append(&mut ename);
    let mut piece = chars_of_str("\"\n");
    out.append(&mut piece);
    let ghost endianness_line = "endianness = \""@ + endianness_name(f.endianness) + "\"\n"@;
    proof {
        assert(out@ =~= "[[fields]]\n"@ + name_line + offset_line + type_line + comment_line
            + endianness_line);
        assert(out@ =~= emit_field_model(f));
    }
    Some(out)
}

impl Schema {
    /// Serializes this schema as a document; fails exactly when some name
    /// or comment holds a character no document can carry.
    #[verifier::loop_isolation(false)]
    pub fn to_text(&self) -> (r: Option<String>)
        ensures
            r is Some <==> serializable_schema(self@),
            r is Some ==> r->0@ == emit_model(self@),
    {
        let ghost fs = self@;
        let mut out: Vec<char> = Vec::new();
        let mut i: usize = 0;
        proof {
            assert(fs.subrange(0, 0) =~= Seq::<FieldModel>::empty());
        }
        while i < self.fields.len()
            invariant
                i <= fs.len(),
                serializable_schema(fs.subrange(0, i as int)),
                out@ == emit_model(fs.subrange(0, i as int)),
            decreases fs.len() - i,
        {
            let field = &self.fields[i];
            proof {
                assert(fs[i as int] == self.fields@[i as int]@);
            }
            let mut table = match emit_field_chars(field) {
                Some(v) => v,
                None => {
                    proof {
                        assert(!serializable_field(fs[i as int]));
                    }
                    return None;
                },
            };
            out.append(&mut table);
            proof {
                assert(fs.subrange(0, i + 1) =~= fs.subrange(0, i as int).push(fs[i as int]));
                lemma_emit_snoc(fs.subrange(0, i as int), fs[i as int]);
                assert(forall|j: int|
                    0 <= j < i + 1 ==> serializable_field(#[trigger] fs.subrange(0, i + 1)[j]));
            }
            i = i + 1;
        }
        proof {
            assert(fs.subrange(0, fs.len() as int) =~= fs);
        }
        Some(string_from_chars(&out))
    }
}


/// Advances past `pat` when the document carries it at position `i`.
pub open spec fn expect(s: Seq<char>, i: int, pat: Seq<char>) -> Option<int> {
    if 0 <= i && i + pat.len() <= s.len() && s.subrange(i, i + pat.len()) == pat {
        Some(i + pat.len())
    } else {
        None
    }
}

/// The character an escape sequence stands for.
pub open spec fn unesc_char(c: char) -> Option<char> {
    if c == '"' {
        Some('"')
    } else if c == '\\' {
        Some('\\')
    } else if c == 'n' {
        Some('\n')
    } else if c == 't' {
        Some('\t')
    } else if c == 'r' {
        Some('\r')
    } else {
        None
    }
}

/// Reads a quoted string's content from position `i` (just past the
/// opening quote) through its closing quote: escape sequences stand for
/// their characters, a line break ends the line and fails the string.
pub open spec fn parse_qstring(s: Seq<char>, i: int) -> Option<(Seq<char>, int)>
    decreases s.len() - i,
{
    if i < 0 || i >= s.len() {
        None
    } else if s[i] == '"' {
        Some((Seq::<char>::empty(), i + 1))
    } else if s[i] == '\\' {
        if i + 1 >= s.len() {
            None
        } else {
            match unesc_char(s[i + 1]) {
                Some(d) => match parse_qstring(s, i + 2) {
                    Some(r) => Some((seq![d] + r.0, r.1)),
                    None => None,
                },
                None => None,
            }
        }
    } else if s[i] != '\n' {
        match parse_qstring(s, i + 1) {
            Some(r) => Some((seq![s[i]] + r.0, r.1)),
            None => None,
        }
    } else {
        None
    }
}

/// Accumulates decimal digits from position `i` on, greedily, starting
/// from `acc`; stops at the first non-digit and returns the value and the
/// stop position.
pub open spec fn scan_digits(s: Seq<char>, i: int, acc: int) -> (int, int)
    decreases s.len() - i,
{
    if i < 0 || i >= s.len() {
        (acc, i)
    } else {
        match digit_in_radix(s[i], 10) {
            Some(d) => scan_digits(s, i + 1, acc * 10 + d),
            None => (acc, i),
        }
    }
}

/// One `key = "value"` line: the key text, a quoted string, a line break.
pub open spec fn parse_string_line(s: Seq<char>, i: int, key: Seq<char>) -> Option<
    (Seq<char>, int),
> {
    match expect(s, i, key) {
        Some(j) => match parse_qstring(s, j) {
            Some(r) => match expect(s, r.1, "\n"@) {
                Some(k) => Some((r.0, k)),
                None => None,
            },
            None => None,
        },
        None => None,
    }
}

/// The `offset = <decimal>` line; at least one digit, and a value that
/// fits the machine.
pub open spec fn parse_offset_line(s: Seq<char>, i: int) -> Option<(int, int)> {
    match expect(s, i, "offset = "@) {
        Some(j) => {
            let r = scan_digits(s, j, 0);
            if r.1 == j || r.0 > usize::MAX {
                None
            } else {
                match expect(s, r.1, "\n"@) {
                    Some(k) => Some((r.0, k)),
                    None => None,
                }
            }
        },
        None => None,
    }
}

/// The data type a stored name denotes.
pub open spec fn type_of_name(s: Seq<char>) -> Option<DataType> {
    if s == "u8"@ {
        Some(DataType::U8)
    } else if s == "u16"@ {
        Some(DataType::U16)
    } else if s == "u32"@ {
        Some(DataType::U32)
    } else if s == "u64"@ {
        Some(DataType::U64)
    } else if s == "i8"@ {
        Some(DataType::I8)
    } else if s == "i16"@ {
        Some(DataType::I16)
    } else if s == "i32"@ {
        Some(DataType::I32)
    } else if s == "i64"@ {
        Some(DataType::I64)
    } else if s == "f32"@ {
        Some(DataType::F32)
    } else if s == "f64"@ {
        Some(DataType::F64)
    } else {
        None
    }
}

/// The byte order a stored name denotes.
pub open spec fn endianness_of_name(s: Seq<char>) -> Option<Endianness> {
    if s == "Little"@ {
        Some(Endianness::Little)
    } else if s == "Big"@ {
        Some(Endianness::Big)
    } else {
        None
    }
}

/// The optional `comment = "..."` line: a missing line is an empty
/// comment, a present but malformed one fails the record.
pub open spec fn parse_comment_line(s: Seq<char>, i: int) -> Option<(Seq<char>, int)> {
    match expect(s, i, "comment = \""@) {
        Some(j) => match parse_qstring(s, j) {
            Some(r) => match expect(s, r.1, "\n"@) {
                Some(k) => Some((r.0, k)),
                None => None,
            },
            None => None,
        },
        None => Some((Seq::<char>::empty(), i)),
    }
}

/// One field's table: header line, name, offset, data type, optional
/// comment, endianness.
pub open spec fn parse_record(s: Seq<char>, i: int) -> Option<(FieldModel, int)> {
    match expect(s, i, "[[fields]]\n"@) {
        None => None,
        Some(i1) => match parse_string_line(s, i1, "name = \""@) {
            None => None,
            Some((name, i2)) => match parse_offset_line(s, i2) {
                None => None,
                Some((offset, i3)) => match parse_string_line(s, i3, "data_type = \""@) {
                    None => None,
                    Some((tname, i4)) => match type_of_name(tname) {
                        None => None,
                        Some(data_type) => match parse_comment_line(s, i4) {
                            None => None,
                            Some((comment, i5)) => match parse_string_line(
                                s,
                                i5,
                                "endianness = \""@,
                            ) {
                                None => None,
                                Some((ename, i6)) => match endianness_of_name(ename) {
                                    None => None,
                                    Some(endianness) => Some(
                                        (
                                            FieldModel {
                                                name,
                                                offset,
                                                data_type,
                                                comment,
                                                endianness,
                                            },
                                            i6,
                                        ),
                                    ),
                                },
                            },
                        },
                    },
                },
            },
        },
    }
}

/// Every field table from position `i` to the end of the document.
pub open spec fn parse_fields_from(s: Seq<char>, i: int) -> Option<Seq<FieldModel>>
    decreases s.len() - i,
{
    if i == s.len() {
        Some(Seq::<FieldModel>::empty())
    } else if i < 0 || i > s.len() {
        None
    } else {
        match parse_record(s, i) {
            Some((f, j)) => if i < j <= s.len() {
                match parse_fields_from(s, j) {
                    Some(rest) => Some(seq![f] + rest),
                    None => None,
                }
            } else {
                None
            },
            None => None,
        }
    }
}

/// The meaning of a whole document: the ordered fields it describes, or
/// nothing if any part of it is malformed.
pub open spec fn parse_model(s: Seq<char>) -> Option<Seq<FieldModel>> {
    parse_fields_from(s, 0)
}

/// Whether two character vectors hold the same text.
fn vec_eq(a: &Vec<char>, b: &Vec<char>) -> (r: bool)
    ensures
        r == (a@ == b@),
{
    if a.len() != b.len() {
        return false;
    }
    let mut k: usize = 0;
    while k < a.len()
        invariant
            k <= a@.len(),
            a@.len() == b@.len(),
            forall|j: int| 0 <= j < k ==> a@[j] == b@[j],
        decreases a@.len() - k,
    {
        if a[k] != b[k] {
            return false;
        }
        k = k + 1;
    }
    proof {
        assert(a@ =~= b@);
    }
    true
}

/// Advances past `pat` when the document carries it at position `i`.
fn match_at(doc: &Vec<char>, i: usize, pat: &Vec<char>) -> (r: Option<usize>)
    ensures
        match r {
            Some(j) => expect(doc@, i as int, pat@) == Some(j as int) && i <= j <= doc@.len(),
            None => expect(doc@, i as int, pat@) is None,
        },
{
    let dlen = doc.len();
    if i > dlen || pat.len() > dlen - i {
        return None;
    }
    let mut k: usize = 0;
    while k < pat.len()
        invariant
            k <= pat@.len(),
            i + pat@.len() <= doc@.len(),
            doc@.len() == dlen,
            forall|j: int| 0 <= j < k ==> doc@[i + j] == pat@[j],
        decreases pat@.len() - k,
    {
        if doc[i + k] != pat[k] {
            proof {
                assert(doc@.subrange(i as int, i + pat@.len())[k as int] != pat@[k as int]);
            }
            return None;
        }
        k = k + 1;
    }
    proof {
        assert(doc@.subrange(i as int, i + pat@.len()) =~= pat@);
    }
    Some(i + pat.len())
}

/// Reads a quoted string's content from position `start` through its
/// closing quote, undoing escapes.
#[verifier::loop_isolation(false)]
fn parse_qstring_at(doc: &Vec<char>, start: usize) -> (r: Option<(Vec<char>, usize)>)
    requires
        start <= doc@.len(),
    ensures
        match r {
            Some(p) => parse_qstring(doc@, start as int) == Some((p.0@, p.1 as int)) && start
                < p.1 <= doc@.len(),
            None => parse_qstring(doc@, start as int) is None,
        },
{
    let mut out: Vec<char> = Vec::new();
    let mut j: usize = start;
    loop
        invariant
            start <= j <= doc@.len(),
            parse_qstring(doc@, start as int) == (match parse_qstring(doc@, j as int) {
                Some(r) => Some((out@ + r.0, r.1)),
                None => None::<(Seq<char>, int)>,
            }),
        decreases doc@.len() - j,
    {
        if j == doc.len() {
            return None;
        }
        let c = doc[j];
        if c == '"' {
            proof {
                assert(parse_qstring(doc@, j as int) == Some((Seq::<char>::empty(), j + 1)));
                assert(out@ + Seq::<char>::empty() =~= out@);
            }
            return Some((out, j + 1));
        } else if c == '\\' {
            if j + 1 == doc.len() {
                return None;
            }
            let e = doc[j + 1];
            let d: char = if e == '"' {
                '"'
            } else if e == '\\' {
                '\\'
            } else if e == 'n' {
                '\n'
            } else if e == 't' {
                '\t'
            } else if e == 'r' {
                '\r'
            } else {
                proof {
                    assert(unesc_char(doc@[j + 1]) is None);
                }
                return None;
            };
            let ghost out0 = out@;
            out.push(d);
            proof {
                assert(unesc_char(doc@[j + 1]) == Some(d));
                match parse_qstring(doc@, j + 2) {
                    Some(r) => {
                        assert(parse_qstring(doc@, j as int) == Some((seq![d] + r.0, r.1)));
                        assert(out0 + (seq![d] + r.0) =~= out@ + r.0);
                    },
                    None => {
                        assert(parse_qstring(doc@, j as int) is None);
                    },
                }
            }
            j = j + 2;
        } else if c != '\n' {
            let ghost out0 = out@;
            out.push(c);
            proof {
                match parse_qstring(doc@, j + 1) {
                    Some(r) => {
                        assert(parse_qstring(doc@, j as int) == Some((seq![c] + r.0, r.1)));
                        assert(out0 + (seq![c] + r.0) =~= out@ + r.0);
                    },
                    None => {
                        assert(parse_qstring(doc@, j as int) is None);
                    },
                }
            }
            j = j + 1;
        } else {
            return None;
        }
    }
}

/// Accumulates decimal digits from `start` on; the second result is where
/// the digits end, the first is their value, or `None` when it does not
/// fit the machine.
#[verifier::loop_isolation(false)]
fn scan_digits_at(doc: &Vec<char>, start: usize) -> (r: (Option<usize>, usize))
    requires
        start <= doc@.len(),
    ensures
        ({
            let sr = scan_digits(doc@, start as int, 0);
            &&& r.1 == sr.1
            &&& start <= r.1 <= doc@.len()
            &&& match r.0 {
                Some(x) => x == sr.0,
                None => sr.0 > usize::MAX,
            }
        }),
{
    let mut j: usize = start;
    let mut acc: Option<usize> = Some(0);
    let ghost mut gacc: int = 0;
    loop
        invariant
            start <= j <= doc@.len(),
            gacc >= 0,
            scan_digits(doc@, start as int, 0) == scan_digits(doc@, j as int, gacc),
            match acc {
                Some(x) => x == gacc,
                None => gacc > usize::MAX,
            },
        decreases doc@.len() - j,
    {
        if j == doc.len() {
            return (acc, j);
        }
        let d = match crate::text::digit_value(doc[j], 10) {
            Some(d) => d,
            None => {
                return (acc, j);
            },
        };
        proof {
            assert(digit_in_radix(doc@[j as int], 10) == Some(d as int));
            assert(gacc * 10 >= gacc) by (nonlinear_arith)
                requires
                    gacc >= 0,
            ;
        }
        acc = match acc {
            Some(a) => match a.checked_mul(10) {
                Some(m) => m.checked_add(d),
                None => None,
            },
            None => None,
        };
        proof {
            gacc = gacc * 10 + d;
        }
        j = j + 1;
    }
}

/// The data type a stored name denotes.
fn type_from_chars(v: &Vec<char>) -> (r: Option<DataType>)
    ensures
        r == type_of_name(v@),
{
    let pat = chars_of_str("u8");
    if vec_eq(v, &pat) {
        return Some(DataType::U8);
    }
    let pat = chars_of_str("u16");
    if vec_eq(v, &pat) {
        return Some(DataType::U16);
    }
    let pat = chars_of_str("u32");
    if vec_eq(v, &pat) {
        return Some(DataType::U32);
    }
    let pat = chars_of_str("u64");
    if vec_eq(v, &pat) {
        return Some(DataType::U64);
    }
    let pat = chars_of_str("i8");
    if vec_eq(v, &pat) {
        return Some(DataType::I8);
    }
    let pat = chars_of_str("i16");
    if vec_eq(v, &pat) {
        return Some(DataType::I16);
    }
    let pat = chars_of_str("i32");
    if vec_eq(v, &pat) {
        return Some(DataType::I32);
    }
    let pat = chars_of_str("i64");
    if vec_eq(v, &pat) {
        return Some(DataType::I64);
    }
    let pat = chars_of_str("f32");
    if vec_eq(v, &pat) {
        return Some(DataType::F32);
    }
    let pat = chars_of_str("f64");
    if vec_eq(v, &pat) {
        return Some(DataType::F64);
    }
    None
}

/// The byte order a stored name denotes.
fn endianness_from_chars(v: &Vec<char>) -> (r: Option<Endianness>)
    ensures
        r == endianness_of_name(v@),
{
    let pat = chars_of_str("Little");
    if vec_eq(v, &pat) {
        return Some(Endianness::Little);
    }
    let pat = chars_of_str("Big");
    if vec_eq(v, &pat) {
        return Some(Endianness::Big);
    }
    None
}

/// One `key = "value"` line.
fn parse_string_line_at(doc: &Vec<char>, i: usize, key: &Vec<char>) -> (r: Option<(Vec<char>, usize)>)
    ensures
        match r {
            Some(p) => parse_string_line(doc@, i as int, key@) == Some((p.0@, p.1 as int)) && i
                < p.1 <= doc@.len(),
            None => parse_string_line(doc@, i as int, key@) is None,
        },
{
    let j = match match_at(doc, i, key) {
        Some(j) => j,
        None => {
            return None;
        },
    };
    let (value, k) = match parse_qstring_at(doc, j) {
        Some(p) => p,
        None => {
            return None;
        },
    };
    let nl = chars_of_str("\n");
    match match_at(doc, k, &nl) {
        Some(m) => Some((value, m)),
        None => None,
    }
}

/// One field's table, as executable code; on success the new position lies
/// strictly past `i`.
fn parse_record_at(doc: &Vec<char>, i: usize) -> (r: Option<(Field, usize)>)
    ensures
        match r {
            Some(p) => parse_record(doc@, i as int) == Some((p.0@, p.1 as int)) && i < p.1
                <= doc@.len(),
            None => parse_record(doc@, i as int) is None,
        },
{
    let header = chars_of_str("[[fields]]\n");
    let i1 = match match_at(doc, i, &header) {
        Some(j) => j,
        None => {
            return None;
        },
    };
    proof {
        reveal_strlit("[[fields]]\n");
        assert(i < i1);
    }
    let name_key = chars_of_str("name = \"");
    let (name_chars, i2) = match parse_string_line_at(doc, i1, &name_key) {
        Some(p) => p,
        None => {
            return None;
        },
    };
    let offset_key = chars_of_str("offset = ");
    let i3 = match match_at(doc, i2, &offset_key) {
        Some(j) => j,
        None => {
            return None;
        },
    };
    let (acc, i4) = scan_digits_at(doc, i3);
    if i4 == i3 {
        return None;
    }
    let offset = match acc {
        Some(v) => v,
        None => {
            return None;
        },
    };
    let nl = chars_of_str("\n");
    let i5 = match match_at(doc, i4, &nl) {
        Some(j) => j,
        None => {
            return None;
        },
    };
    let type_key = chars_of_str("data_type = \"");
    let (type_chars, i6) = match parse_string_line_at(doc, i5, &type_key) {
        Some(p) => p,
        None => {
            return None;
        },
    };
    let data_type = match type_from_chars(&type_chars) {
        Some(t) => t,
        None => {
            return None;
        },
    };
    let comment_key = chars_of_str("comment = \"");
    let (comment_chars, i7) = match parse_string_line_at(doc, i6, &comment_key) {
        Some(p) => p,
        None => {
            if match_at(doc, i6, &comment_key).is_some() {
                return None;
            }
            (Vec::new(), i6)
        },
    };
    let endianness_key = chars_of_str("endianness = \"");
    let (end_chars, i8) = match parse_string_line_at(doc, i7, &endianness_key) {
        Some(p) => p,
        None => {
            return None;
        },
    };
    let endianness = match endianness_from_chars(&end_chars) {
        Some(e) => e,
        None => {
            return None;
        },
    };
    let mut field = Field::new(string_from_chars(&name_chars), offset, data_type);
    field.comment = string_from_chars(&comment_chars);
    field.endianness = endianness;
    Some((field, i8))
}

impl Schema {
    /// Reads a whole document back into a schema. Fails, accepting no
    /// partial schema, exactly when any part of the document is malformed.
    #[verifier::loop_isolation(false)]
    pub fn from_text(text: &str) -> (r: Result<Schema, ParseError>)
        ensures
            r is Ok <==> parse_model(text@) is Some,
            r is Ok ==> parse_model(text@) == Some(r->Ok_0@),
            r is Err ==> r->Err_0 == ParseError::Malformed,
    {
        let doc = chars_of_str(text);
        let mut fields: Vec<Field> = Vec::new();
        let mut i: usize = 0;
        proof {
            assert(models(fields@) =~= Seq::<FieldModel>::empty());
        }
        loop
            invariant
                i <= doc@.len(),
                doc@ == text@,
                parse_fields_from(doc@, 0) == (match parse_fields_from(doc@, i as int) {
                    Some(rest) => Some(models(fields@) + rest),
                    None => None::<Seq<FieldModel>>,
                }),
            decreases doc@.len() - i,
        {
            if i == doc.len() {
                proof {
                    assert(parse_fields_from(doc@, i as int) == Some(Seq::<FieldModel>::empty()));
                    assert(models(fields@) + Seq::<FieldModel>::empty() =~= models(fields@));
                }
                return Ok(Schema { fields });
            }
            match parse_record_at(&doc, i) {
                Some((field, j)) => {
                    let ghost fields0 = fields@;
                    let ghost fm = field@;
                    fields.push(field);
                    proof {
                        assert(models(fields@) =~= models(fields0).push(fm));
                        match parse_fields_from(doc@, j as int) {
                            Some(rest) => {
                                assert(parse_fields_from(doc@, i as int) == Some(
                                    seq![fm] + rest,
                                ));
                                assert(models(fields0) + (seq![fm] + rest) =~= models(
                                    fields0,
                                ).push(fm) + rest);
                            },
                            None => {
                                assert(parse_fields_from(doc@, i as int) is None);
                            },
                        }
                    }
                    i = j;
                },
                None => {
                    return Err(ParseError::Malformed);
                },
            }
        }
    }
}

/// Powers of ten.
pub open spec fn pow10(k: nat) -> int
    decreases k,
{
    if k == 0 {
        1
    } else {
        10 * pow10((k - 1) as nat)
    }
}

/// A piece of a matched window matches the corresponding piece of the
/// pattern.
proof fn lemma_slice_piece(s: Seq<char>, i: int, t: Seq<char>, a: int, b: int)
    requires
        0 <= i,
        i + t.len() <= s.len(),
        s.subrange(i, i + t.len()) == t,
        0 <= a <= b <= t.len(),
    ensures
        s.subrange(i + a, i + b) == t.subrange(a, b),
{
    assert forall|k: int| 0 <= k < b - a implies s.subrange(i + a, i + b)[k] == t.subrange(a, b)[k] by {
        assert(s.subrange(i, i + t.len())[a + k] == t[a + k]);
    }
    assert(s.subrange(i + a, i + b) =~= t.subrange(a, b));
}

/// A pattern standing at position `i` is matched there.
proof fn lemma_expect_match(s: Seq<char>, i: int, pat: Seq<char>)
    requires
        0 <= i,
        i + pat.len() <= s.len(),
        s.subrange(i, i + pat.len()) == pat,
    ensures
        expect(s, i, pat) == Some(i + pat.len()),
{
}

/// Reading an escaped text followed by a closing quote yields the text
/// back.
proof fn lemma_qstring_esc(s: Seq<char>, i: int, t: Seq<char>)
    requires
        serializable(t),
        0 <= i,
        i + esc(t).len() + 1 <= s.len(),
        s.subrange(i, i + esc(t).len() + 1) == esc(t) + seq!['"'],
    ensures
        parse_qstring(s, i) == Some((t, i + esc(t).len() + 1)),
    decreases t.len(),
{
    let w = esc(t) + seq!['"'];
    if t.len() == 0 {
        assert(esc(t) == Seq::<char>::empty());
        assert(w.len() == 1);
        assert(s.subrange(i, i + 1)[0] == w[0]);
        assert(s[i] == '"');
    } else {
        let c = t[0];
        let rest = t.drop_first();
        assert(ok_char(t[0]));
        assert(serializable(rest)) by {
            assert(forall|k: int| 0 <= k < rest.len() ==> #[trigger] rest[k] == t[k + 1]);
        }
        assert(esc(t) == esc_char(c) + esc(rest));
        assert(t =~= seq![c] + rest);
        if c == '"' || c == '\\' || c == '\n' || c == '\t' || c == '\r' {
            assert(esc_char(c).len() == 2);
            assert(esc_char(c)[0] == '\\');
            assert(unesc_char(esc_char(c)[1]) == Some(c));
            assert(w[0] == esc_char(c)[0]);
            assert(w[1] == esc_char(c)[1]);
            assert(s.subrange(i, i + w.len())[0] == w[0]);
            assert(s.subrange(i, i + w.len())[1] == w[1]);
            assert(s[i] == '\\');
            assert(unesc_char(s[i + 1]) == Some(c));
            assert(w.subrange(2, w.len() as int) =~= esc(rest) + seq!['"']);
            lemma_slice_piece(s, i, w, 2, w.len() as int);
            lemma_qstring_esc(s, i + 2, rest);
            let r = parse_qstring(s, i + 2);
            assert(r == Some((rest, i + 2 + esc(rest).len() + 1)));
            assert(parse_qstring(s, i) == Some((seq![c] + rest, i + esc(t).len() + 1)));
        } else {
            assert(esc_char(c) == seq![c]);
            assert(w[0] == c);
            assert(s.subrange(i, i + w.len())[0] == w[0]);
            assert(s[i] == c);
            assert(c != '"' && c != '\\' && c != '\n');
            assert(w.subrange(1, w.len() as int) =~= esc(rest) + seq!['"']);
            lemma_slice_piece(s, i, w, 1, w.len() as int);
            lemma_qstring_esc(s, i + 1, rest);
            assert(parse_qstring(s, i) == Some((seq![c] + rest, i + esc(t).len() + 1)));
        }
    }
}

/// The value of a digit string read from the front.
proof fn lemma_val_cons(c: char, t: Seq<char>, d: int)
    requires
        digit_in_radix(c, 10) == Some(d),
        all_digits(t, 10),
    ensures
        val_in_radix(seq![c] + t, 10) == d * pow10(t.len()) + val_in_radix(t, 10),
    decreases t.len(),
{
    let u = seq![c] + t;
    if t.len() == 0 {
        assert(u =~= seq![c]);
        assert(u.drop_last() =~= Seq::<char>::empty());
        assert(val_in_radix(Seq::<char>::empty(), 10) == 0);
        assert(u.last() == c);
        assert(val_in_radix(u, 10) == d);
    } else {
        let t2 = t.drop_last();
        assert(all_digits(t2, 10)) by {
            assert(forall|k: int| 0 <= k < t2.len() ==> #[trigger] t2[k] == t[k]);
        }
        assert(u.drop_last() =~= seq![c] + t2);
        lemma_val_cons(c, t2, d);
        let dl = match digit_in_radix(u.last(), 10) {
            Some(x) => x,
            None => 0int,
        };
        assert(u.last() == t.last());
        assert(digit_in_radix(t.last(), 10) is Some);
        assert(val_in_radix(u, 10) == (d * pow10(t2.len()) + val_in_radix(t2, 10)) * 10 + dl);
        assert(val_in_radix(t, 10) == val_in_radix(t2, 10) * 10 + dl);
        assert(pow10(t.len()) == 10 * pow10(t2.len()));
        assert((d * pow10(t2.len()) + val_in_radix(t2, 10)) * 10 + dl == d * (10 * pow10(
            t2.len(),
        )) + (val_in_radix(t2, 10) * 10 + dl)) by (nonlinear_arith);
    }
}

/// Scanning a digit string that ends before a non-digit accumulates its
/// value.
proof fn lemma_scan_digits_match(s: Seq<char>, i: int, acc: int, d: Seq<char>)
    requires
        0 <= i,
        i + d.len() <= s.len(),
        s.subrange(i, i + d.len()) == d,
        all_digits(d, 10),
        i + d.len() == s.len() || digit_in_radix(s[i + d.len()], 10) is None,
    ensures
        scan_digits(s, i, acc) == (acc * pow10(d.len()) + val_in_radix(d, 10), i + d.len()),
    decreases d.len(),
{
    if d.len() == 0 {
        assert(val_in_radix(d, 10) == 0);
        assert(acc * 1 == acc) by (nonlinear_arith);
        if i < s.len() {
            assert(scan_digits(s, i, acc) == (acc, i));
        }
    } else {
        let c = d[0];
        let rest = d.drop_first();
        assert(all_digits(rest, 10)) by {
            assert(forall|k: int| 0 <= k < rest.len() ==> #[trigger] rest[k] == d[k + 1]);
        }
        assert(s.subrange(i, i + d.len())[0] == d[0]);
        assert(s[i] == c);
        let dc = digit_in_radix(c, 10)->0;
        assert(d =~= seq![c] + rest);
        assert(d.subrange(1, d.len() as int) =~= rest);
        lemma_slice_piece(s, i, d, 1, d.len() as int);
        lemma_scan_digits_match(s, i + 1, acc * 10 + dc, rest);
        lemma_val_cons(c, rest, dc);
        assert((acc * 10 + dc) * pow10(rest.len()) + val_in_radix(rest, 10) == acc * (10 * pow10(
            rest.len(),
        )) + (dc * pow10(rest.len()) + val_in_radix(rest, 10))) by (nonlinear_arith);
        assert(pow10(d.len()) == 10 * pow10(rest.len()));
    }
}

/// The characters of a decimal digit string are decimal digits and its
/// value is the number it was written from.
proof fn lemma_dec_digits_value(n: nat)
    ensures
        all_digits(dec_digits(n), 10),
        val_in_radix(dec_digits(n), 10) == n,
        dec_digits(n).len() >= 1,
    decreases n,
{
    if n < 10 {
        let d = dec_digits(n);
        assert(digit_in_radix(digit_char(n as int), 10) == Some(n as int));
        assert(d =~= seq![digit_char(n as int)]);
        assert(d.drop_last() =~= Seq::<char>::empty());
        assert(val_in_radix(Seq::<char>::empty(), 10) == 0);
        assert(d.last() == digit_char(n as int));
        assert(val_in_radix(d, 10) == n);
    } else {
        lemma_dec_digits_value(n / 10);
        let p = dec_digits(n / 10);
        let c = digit_char((n % 10) as int);
        let d = dec_digits(n);
        assert(d == p.push(c));
        assert(digit_in_radix(c, 10) == Some((n % 10) as int));
        assert(all_digits(d, 10)) by {
            assert(forall|k: int| 0 <= k < p.len() ==> #[trigger] d[k] == p[k]);
            assert(d[d.len() - 1] == c);
        }
        assert(d.drop_last() =~= p);
        assert(val_in_radix(d, 10) == val_in_radix(p, 10) * 10 + n % 10);
        assert((n / 10) * 10 + n % 10 == n) by (nonlinear_arith);
    }
}

/// Escaping a text with no quotes, backslashes, or control characters
/// leaves it unchanged.
proof fn lemma_esc_plain(s: Seq<char>)
    requires
        forall|k: int| 0 <= k < s.len() ==> esc_char(#[trigger] s[k]) == seq![s[k]],
    ensures
        esc(s) == s,
    decreases s.len(),
{
    if s.len() == 0 {
        assert(esc(s) =~= s);
    } else {
        let rest = s.drop_first();
        assert(forall|k: int| 0 <= k < rest.len() ==> #[trigger] rest[k] == s[k + 1]);
        lemma_esc_plain(rest);
        assert(esc(s) == seq![s[0]] + rest);
        assert(esc(s) =~= s);
    }
}

/// A stored type name is plain text, reads back unchanged, and denotes the
/// type it was written from.
proof fn lemma_type_name_roundtrip(t: DataType)
    ensures
        serializable(t.name_seq()),
        esc(t.name_seq()) == t.name_seq(),
        type_of_name(t.name_seq()) == Some(t),
{
    reveal_strlit("u8");
    reveal_strlit("u16");
    reveal_strlit("u32");
    reveal_strlit("u64");
    reveal_strlit("i8");
    reveal_strlit("i16");
    reveal_strlit("i32");
    reveal_strlit("i64");
    reveal_strlit("f32");
    reveal_strlit("f64");
    let s = t.name_seq();
    assert(forall|k: int| 0 <= k < s.len() ==> ok_char(#[trigger] s[k]));
    assert(forall|k: int| 0 <= k < s.len() ==> esc_char(#[trigger] s[k]) == seq![s[k]]);
    lemma_esc_plain(s);
    assert(("u8"@).len() == 2 && ("u8"@)[0] == 'u' && ("u8"@)[1] == '8');
    assert(("u16"@).len() == 3 && ("u16"@)[0] == 'u' && ("u16"@)[1] == '1');
    assert(("u32"@).len() == 3 && ("u32"@)[0] == 'u' && ("u32"@)[1] == '3');
    assert(("u64"@).len() == 3 && ("u64"@)[0] == 'u' && ("u64"@)[1] == '6');
    assert(("i8"@).len() == 2 && ("i8"@)[0] == 'i' && ("i8"@)[1] == '8');
    assert(("i16"@).len() == 3 && ("i16"@)[0] == 'i' && ("i16"@)[1] == '1');
    assert(("i32"@).len() == 3 && ("i32"@)[0] == 'i' && ("i32"@)[1] == '3');
    assert(("i64"@).len() == 3 && ("i64"@)[0] == 'i' && ("i64"@)[1] == '6');
    assert(("f32"@).len() == 3 && ("f32"@)[0] == 'f' && ("f32"@)[1] == '3');
    assert(("f64"@).len() == 3 && ("f64"@)[0] == 'f' && ("f64"@)[1] == '6');
    match t {
        DataType::U8 => {
            assert(type_of_name(s) == Some(DataType::U8));
        },
        DataType::U16 => {
            assert(s != "u8"@);
            assert(type_of_name(s) == Some(DataType::U16));
        },
        DataType::U32 => {
            assert(s != "u8"@ && s != "u16"@);
            assert(type_of_name(s) == Some(DataType::U32));
        },
        DataType::U64 => {
            assert(s != "u8"@ && s != "u16"@ && s != "u32"@);
            assert(type_of_name(s) == Some(DataType::U64));
        },
        DataType::I8 => {
            assert(s != "u8"@ && s != "u16"@ && s != "u32"@ && s != "u64"@);
            assert(type_of_name(s) == Some(DataType::I8));
        },
        DataType::I16 => {
            assert(s != "u8"@ && s != "u16"@ && s != "u32"@ && s != "u64"@ && s != "i8"@);
            assert(type_of_name(s) == Some(DataType::I16));
        },
        DataType::I32 => {
            assert(s != "u8"@ && s != "u16"@ && s != "u32"@ && s != "u64"@ && s != "i8"@ && s
                != "i16"@);
            assert(type_of_name(s) == Some(DataType::I32));
        },
        DataType::I64 => {
            assert(s != "u8"@ && s != "u16"@ && s != "u32"@ && s != "u64"@ && s != "i8"@ && s
                != "i16"@ && s != "i32"@);
            assert(type_of_name(s) == Some(DataType::I64));
        },
        DataType::F32 => {
            assert(s != "u8"@ && s != "u16"@ && s != "u32"@ && s != "u64"@ && s != "i8"@ && s
                != "i16"@ && s != "i32"@ && s != "i64"@);
            assert(type_of_name(s) == Some(DataType::F32));
        },
        DataType::F64 => {
            assert(s != "u8"@ && s != "u16"@ && s != "u32"@ && s != "u64"@ && s != "i8"@ && s
                != "i16"@ && s != "i32"@ && s != "i64"@ && s != "f32"@);
            assert(type_of_name(s) == Some(DataType::F64));
        },
    }
}

/// A stored byte-order name is plain text, reads back unchanged, and
/// denotes the byte order it was written from.
proof fn lemma_endianness_name_roundtrip(e: Endianness)
    ensures
        serializable(endianness_name(e)),
        esc(endianness_name(e)) == endianness_name(e),
        endianness_of_name(endianness_name(e)) == Some(e),
{
    reveal_strlit("Little");
    reveal_strlit("Big");
    let s = endianness_name(e);
    assert(forall|k: int| 0 <= k < s.len() ==> ok_char(#[trigger] s[k]));
    assert(forall|k: int| 0 <= k < s.len() ==> esc_char(#[trigger] s[k]) == seq![s[k]]);
    lemma_esc_plain(s);
}

/// Reading back one written `key = "value"` line yields the value.
proof fn lemma_string_line_roundtrip(s: Seq<char>, i: int, key: Seq<char>, t: Seq<char>)
    requires
        serializable(t),
        0 <= i,
        i + key.len() + esc(t).len() + 2 <= s.len(),
        s.subrange(i, i + key.len() + esc(t).len() + 2) == key + esc(t) + "\"\n"@,
    ensures
        parse_string_line(s, i, key) == Some((t, i + key.len() + esc(t).len() + 2)),
{
    reveal_strlit("\"\n");
    reveal_strlit("\n");
    let w = key + esc(t) + "\"\n"@;
    assert(("\"\n"@).len() == 2);
    assert(("\"\n"@)[0] == '"');
    assert(("\"\n"@)[1] == '\n');
    assert(("\n"@).len() == 1);
    assert(("\n"@)[0] == '\n');
    let kl = key.len() as int;
    let el = esc(t).len() as int;
    assert(w.subrange(0, kl) =~= key);
    lemma_slice_piece(s, i, w, 0, kl);
    lemma_expect_match(s, i, key);
    assert(w.subrange(kl, kl + el + 1) =~= esc(t) + seq!['"']);
    lemma_slice_piece(s, i, w, kl, kl + el + 1);
    lemma_qstring_esc(s, i + kl, t);
    assert(w.subrange(kl + el + 1, kl + el + 2) =~= "\n"@);
    lemma_slice_piece(s, i, w, kl + el + 1, kl + el + 2);
    lemma_expect_match(s, i + kl + el + 1, "\n"@);
}

/// Reading back a written `offset = <decimal>` line yields the offset.
proof fn lemma_offset_line_roundtrip(s: Seq<char>, i: int, n: nat)
    requires
        n <= usize::MAX,
        0 <= i,
        i + 9 + dec_digits(n).len() + 1 <= s.len(),
        s.subrange(i, i + 9 + dec_digits(n).len() + 1) == "offset = "@ + dec_digits(n) + "\n"@,
    ensures
        parse_offset_line(s, i) == Some((n as int, i + 9 + dec_digits(n).len() + 1)),
{
    reveal_strlit("offset = ");
    reveal_strlit("\n");
    let w = "offset = "@ + dec_digits(n) + "\n"@;
    let dl = dec_digits(n).len() as int;
    assert(("offset = "@).len() == 9);
    assert(("\n"@).len() == 1);
    assert(("\n"@)[0] == '\n');
    assert(w.subrange(0, 9) =~= "offset = "@);
    lemma_slice_piece(s, i, w, 0, 9);
    lemma_expect_match(s, i, "offset = "@);
    lemma_dec_digits_value(n);
    assert(w.subrange(9, 9 + dl) =~= dec_digits(n));
    lemma_slice_piece(s, i, w, 9, 9 + dl);
    assert(w.subrange(9 + dl, 9 + dl + 1) =~= "\n"@);
    lemma_slice_piece(s, i, w, 9 + dl, 9 + dl + 1);
    assert(s[i + 9 + dl] == '\n');
    assert(digit_in_radix('\n', 10) is None);
    lemma_scan_digits_match(s, i + 9, 0, dec_digits(n));
    assert(0 * pow10(dec_digits(n).len()) == 0) by (nonlinear_arith);
    assert(scan_digits(s, i + 9, 0) == (n as int, i + 9 + dl));
    lemma_expect_match(s, i + 9 + dl, "\n"@);
}

/// Reading back one written field table yields the field.
#[verifier::rlimit(100)]
proof fn lemma_record_roundtrip(s: Seq<char>, i: int, f: FieldModel)
    requires
        serializable_field(f),
        0 <= f.offset <= usize::MAX,
        0 <= i,
        i + emit_field_model(f).len() <= s.len(),
        s.subrange(i, i + emit_field_model(f).len()) == emit_field_model(f),
    ensures
        parse_record(s, i) == Some((f, i + emit_field_model(f).len())),
        emit_field_model(f).len() > 0,
{
    reveal_strlit("[[fields]]\n");
    reveal_strlit("name = \"");
    reveal_strlit("data_type = \"");
    reveal_strlit("comment = \"");
    reveal_strlit("endianness = \"");
    reveal_strlit("offset = ");
    reveal_strlit("\"\n");
    reveal_strlit("\n");
    let t = emit_field_model(f);
    let name_line = "name = \""@ + esc(f.name) + "\"\n"@;
    let offset_line = "offset = "@ + dec_digits(f.offset as nat) + "\n"@;
    let type_line = "data_type = \""@ + f.data_type.name_seq() + "\"\n"@;
    let comment_line = "comment = \""@ + esc(f.comment) + "\"\n"@;
    let endianness_line = "endianness = \""@ + endianness_name(f.endianness) + "\"\n"@;
    assert(("[[fields]]\n"@).len() == 11);
    let a1 = 11int;
    let a2 = a1 + name_line.len();
    let a3 = a2 + offset_line.len();
    let a4 = a3 + type_line.len();
    let a5 = a4 + comment_line.len();
    let a6 = a5 + endianness_line.len();
    assert(t.len() == a6);
    assert(t.subrange(0, a1) =~= "[[fields]]\n"@);
    lemma_slice_piece(s, i, t, 0, a1);
    lemma_expect_match(s, i, "[[fields]]\n"@);
    assert(t.subrange(a1, a2) =~= name_line);
    lemma_slice_piece(s, i, t, a1, a2);
    lemma_string_line_roundtrip(s, i + a1, "name = \""@, f.name);
    assert(t.subrange(a2, a3) =~= offset_line);
    lemma_slice_piece(s, i, t, a2, a3);
    lemma_offset_line_roundtrip(s, i + a2, f.offset as nat);
    lemma_type_name_roundtrip(f.data_type);
    assert(t.subrange(a3, a4) =~= type_line);
    lemma_slice_piece(s, i, t, a3, a4);
    lemma_string_line_roundtrip(s, i + a3, "data_type = \""@, f.data_type.name_seq());
    assert(t.subrange(a4, a5) =~= comment_line);
    lemma_slice_piece(s, i, t, a4, a5);
    lemma_string_line_roundtrip(s, i + a4, "comment = \""@, f.comment);
    lemma_endianness_name_roundtrip(f.endianness);
    assert(t.subrange(a5, a6) =~= endianness_line);
    lemma_slice_piece(s, i, t, a5, a6);
    lemma_string_line_roundtrip(s, i + a5, "endianness = \""@, endianness_name(f.endianness));
    assert(parse_comment_line(s, i + a4) == Some((f.comment, i + a5)));
    assert(parse_record(s, i) == Some((f, i + a6)));
}

/// Whether every field of a schema has an offset the machine can hold.
/// Every field built by this library does.
pub open spec fn offsets_representable(fs: Seq<FieldModel>) -> bool {
    forall|k: int| 0 <= k < fs.len() ==> 0 <= (#[trigger] fs[k]).offset <= usize::MAX
}

/// Reading back the written tables of a field sequence yields the fields.
proof fn lemma_fields_roundtrip(s: Seq<char>, i: int, fs: Seq<FieldModel>)
    requires
        serializable_schema(fs),
        offsets_representable(fs),
        0 <= i <= s.len(),
        s.subrange(i, s.len() as int) == emit_model(fs),
    ensures
        parse_fields_from(s, i) == Some(fs),
    decreases fs.len(),
{
    if fs.len() == 0 {
        assert(emit_model(fs).len() == 0);
        assert(i == s.len());
    } else {
        let f = fs[0];
        let rest = fs.drop_first();
        let t = emit_field_model(f);
        let w = s.subrange(i, s.len() as int);
        assert(w == t + emit_model(rest));
        assert(i + w.len() == s.len());
        assert(w.subrange(0, t.len() as int) =~= t);
        lemma_slice_piece(s, i, w, 0, t.len() as int);
        assert(serializable_field(f));
        assert(0 <= f.offset <= usize::MAX);
        lemma_record_roundtrip(s, i, f);
        let j = i + t.len();
        assert(forall|k: int| 0 <= k < rest.len() ==> #[trigger] rest[k] == fs[k + 1]);
        assert(s.subrange(j, s.len() as int) =~= w.subrange(t.len() as int, w.len() as int));
        assert(w.subrange(t.len() as int, w.len() as int) =~= emit_model(rest));
        lemma_fields_roundtrip(s, j, rest);
        assert(fs =~= seq![f] + rest);
    }
}

/// Law: a schema whose fields can all be serialized reads back from its
/// document as exactly the same ordered sequence of fields, every
/// attribute included.
pub proof fn lemma_schema_roundtrip(fs: Seq<FieldModel>)
    requires
        serializable_schema(fs),
        offsets_representable(fs),
    ensures
        parse_model(emit_model(fs)) == Some(fs),
{
    let s = emit_model(fs);
    assert(s.subrange(0, s.len() as int) =~= s);
    lemma_fields_roundtrip(s, 0, fs);
}

} // verus!
