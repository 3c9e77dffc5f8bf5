//! JSON codec for the manifest document.
//!
//! The document is a fixed-schema object: `skill_name`, `filesystem` (with
//! `read`, `write`, `delete` string arrays), and the four boolean flags, in
//! that declared order. Serialization is pretty-printed with two-space
//! indentation. The parser accepts arbitrary whitespace between tokens and
//! the five standard short escapes in strings; it expects the fields in the
//! declared order, and anything else is rejected as a malformed manifest —
//! never silently defaulted.

use vstd::prelude::*;
use crate::capability::CapabilityManifest;
use crate::capability::FSAccess;
use crate::capability::FsView;
use crate::capability::ManifestView;
use crate::chars::push_char;
use crate::chars::str_to_chars;
use crate::chars::chars_to_string;

verus! {

/// Why a manifest document was rejected.
#[derive(Debug, Clone, Copy, PartialEq, Eq, Structural)]
pub enum ParseError {
    /// The document does not parse as a manifest of the declared schema.
    MalformedManifest,
}

// ---------------------------------------------------------------------------
// Serialization
// ---------------------------------------------------------------------------
/// JSON escape of one character: quote, backslash, and the three common
/// control characters get a two-character escape; everything else stands for
/// itself.
pub open spec fn esc_char(c: char) -> Seq<char> {
    if c == '"' {
        seq!['\\', '"']
    } else if c == '\\' {
        seq!['\\', '\\']
    } else if c == '\n' {
        seq!['\\', 'n']
    } else if c == '\r' {
        seq!['\\', 'r']
    } else if c == '\t' {
        seq!['\\', 't']
    } else {
        seq![c]
    }
}

/// JSON escape of a character sequence.
pub open spec fn esc(s: Seq<char>) -> Seq<char>
    decreases s.len(),
{
    if s.len() == 0 {
        Seq::empty()
    } else {
        esc_char(s[0]) + esc(s.skip(1))
    }
}

/// A JSON string literal: the escaped content between double quotes.
pub open spec fn ser_string(s: Seq<char>) -> Seq<char> {
    "\""@ + esc(s) + "\""@
}

pub open spec fn ser_bool(b: bool) -> Seq<char> {
    if b {
        "true"@
    } else {
        "false"@
    }
}

/// The elements of a non-empty string array, each on its own indented line;
/// the last line carries the closing bracket's indentation instead of a
/// comma.
pub open spec fn ser_items(l: Seq<Seq<char>>) -> Seq<char>
    decreases l.len(),
{
    if l.len() == 0 {
        Seq::empty()
    } else if l.len() == 1 {
        "\n      "@ + ser_string(l[0]) + "\n    "@
    } else {
        "\n      "@ + ser_string(l[0]) + ","@ + ser_items(l.skip(1))
    }
}

/// A pretty-printed JSON string array.
pub open spec fn ser_list(l: Seq<Seq<char>>) -> Seq<char> {
    if l.len() == 0 {
        "[]"@
    } else {
        "["@ + ser_items(l) + "]"@
    }
}

/// The serialized `filesystem` member, from its leading comma through the
/// closing brace of the nested object.
pub open spec fn ser_fs(fs: FsView) -> Seq<char> {
    ","@ + "\n  "@ + "\"filesystem\""@ + ":"@ + " "@ + "{"@ + "\n    "@ + "\"read\""@ + ":"@ + " "@
        + ser_list(fs.read) + ","@ + "\n    "@ + "\"write\""@ + ":"@ + " "@ + ser_list(fs.write)
        + ","@ + "\n    "@ + "\"delete\""@ + ":"@ + " "@ + ser_list(fs.delete) + "\n  "@ + "}"@
}

/// One serialized boolean member, from its leading comma through its value.
pub open spec fn ser_flag(key: Seq<char>, b: bool) -> Seq<char> {
    ","@ + "\n  "@ + key + ":"@ + " "@ + ser_bool(b)
}

/// The whole pretty-printed manifest document, fields in declared order.
pub open spec fn ser_manifest(m: ManifestView) -> Seq<char> {
    "{"@ + "\n  "@ + "\"skill_name\""@ + ":"@ + " "@ + ser_string(m.skill_name) + ser_fs(
        m.filesystem,
    ) + ser_flag("\"network\""@, m.network) + ser_flag("\"gpu\""@, m.gpu) + ser_flag(
        "\"sensors\""@,
        m.sensors,
    ) + ser_flag("\"camera\""@, m.camera) + "\n"@ + "}"@
}

proof fn lemma_esc_snoc(s: Seq<char>, c: char)
    ensures
        esc(s.push(c)) == esc(s) + esc_char(c),
    decreases s.len(),
{
    if s.len() == 0 {
        assert(s.push(c)[0] == c);
        assert(s.push(c).skip(1) =~= Seq::<char>::empty());
        assert(esc(Seq::<char>::empty()) =~= Seq::<char>::empty());
        assert(esc(s.push(c)) =~= esc_char(c));
        assert(esc(s) + esc_char(c) =~= esc_char(c));
    } else {
        assert(s.push(c)[0] == s[0]);
        assert(s.push(c).skip(1) =~= s.skip(1).push(c));
        lemma_esc_snoc(s.skip(1), c);
        assert(esc(s.push(c)) == esc_char(s[0]) + (esc(s.skip(1)) + esc_char(c)));
        assert(esc_char(s[0]) + (esc(s.skip(1)) + esc_char(c)) =~= (esc_char(s[0]) + esc(
            s.skip(1),
        )) + esc_char(c));
    }
}

/// Appends the JSON escape of `s` to `out`.
fn append_escaped(out: &mut String, s: &Vec<char>)
    ensures
        final(out)@ == old(out)@ + esc(s@),
{
    let mut i: usize = 0;
    proof {
        assert(esc(s@.take(0)) =~= Seq::<char>::empty());
        assert(out@ =~= out@ + esc(s@.take(0)));
    }
    while i < s.len()
        invariant
            i <= s@.len(),
            out@ == old(out)@ + esc(s@.take(i as int)),
        decreases s@.len() - i,
    {
        let c = s[i];
        if c == '"' {
            push_char(out, '\\');
            push_char(out, '"');
        } else if c == '\\' {
            push_char(out, '\\');
            push_char(out, '\\');
        } else if c == '\n' {
            push_char(out, '\\');
            push_char(out, 'n');
        } else if c == '\r' {
            push_char(out, '\\');
            push_char(out, 'r');
        } else if c == '\t' {
            push_char(out, '\\');
            push_char(out, 't');
        } else {
            push_char(out, c);
        }
        proof {
            lemma_esc_snoc(s@.take(i as int), s@[i as int]);
            assert(s@.take(i + 1) =~= s@.take(i as int).push(s@[i as int]));
            assert(out@ =~= old(out)@ + esc(s@.take(i + 1)));
        }
        i = i + 1;
    }
    assert(s@.take(s@.len() as int) =~= s@);
}

/// Appends `ser_string(s@)` to `out`.
fn append_json_string(out: &mut String, s: &str)
    ensures
        final(out)@ == old(out)@ + ser_string(s@),
{
    out.append("\"");
    let chars = str_to_chars(s);
    append_escaped(out, &chars);
    out.append("\"");
    assert(out@ =~= old(out)@ + ser_string(s@));
}

/// Appends `ser_items` of the suffix of `l` starting at `start`.
fn append_items(out: &mut String, l: &Vec<String>, start: usize)
    requires
        start < l@.len(),
    ensures
        final(out)@ == old(out)@ + ser_items(l.deep_view().skip(start as int)),
    decreases l@.len() - start,
{
    let ghost tail = l.deep_view().skip(start as int);
    proof {
        assert(l.deep_view().len() == l@.len());
        assert(tail[0] == l.deep_view()[start as int]);
        assert(l.deep_view()[start as int] == l@[start as int]@);
    }
    out.append("\n      ");
    append_json_string(out, l[start].as_str());
    let n = l.len();
    if start + 1 == n {
        out.append("\n    ");
        assert(tail.len() == 1);
        assert(out@ =~= old(out)@ + ser_items(tail));
    } else {
        out.append(",");
        append_items(out, l, start + 1);
        proof {
            assert(tail.skip(1) =~= l.deep_view().skip(start + 1));
            assert(out@ =~= old(out)@ + ser_items(tail));
        }
    }
}

/// Appends `ser_list` of the view of `l` to `out`.
fn append_list(out: &mut String, l: &Vec<String>)
    ensures
        final(out)@ == old(out)@ + ser_list(l.deep_view()),
{
    if l.len() == 0 {
        out.append("[]");
        assert(l.deep_view().len() == l@.len());
    } else {
        out.append("[");
        assert(l.deep_view().len() == l@.len());
        proof {
            assert(l.deep_view().skip(0) =~= l.deep_view());
        }
        append_items(out, l, 0);
        out.append("]");
        assert(out@ =~= old(out)@ + ser_list(l.deep_view()));
    }
}

/// Appends `true` or `false`.
fn append_bool(out: &mut String, b: bool)
    ensures
        final(out)@ == old(out)@ + ser_bool(b),
{
    if b {
        out.append("true");
    } else {
        out.append("false");
    }
}

impl CapabilityManifest {
    /// Serializes the manifest as a pretty-printed JSON document with the
    /// fields in declared order.
    pub fn to_json(&self) -> (r: String)
        ensures
            r@ == ser_manifest(self@),
    {
        let mut out = String::new();
        append_header(&mut out, self.skill_name.as_str());
        append_fs(&mut out, &self.filesystem);
        append_flag(&mut out, "\"network\"", self.network);
        append_flag(&mut out, "\"gpu\"", self.gpu);
        append_flag(&mut out, "\"sensors\"", self.sensors);
        append_flag(&mut out, "\"camera\"", self.camera);
        out.append("\n");
        out.append("}");
        proof {
            broadcast use lemma_concat_assoc_chars;

            assert(out@ == ser_manifest(self@));
        }
        out
    }
}

/// Appends the document opening and the serialized `skill_name` member.
fn append_header(out: &mut String, name: &str)
    ensures
        final(out)@ == old(out)@ + ("{"@ + "\n  "@ + "\"skill_name\""@ + ":"@ + " "@ + ser_string(
            name@,
        )),
{
    out.append("{");
    out.append("\n  ");
    out.append("\"skill_name\"");
    out.append(":");
    out.append(" ");
    append_json_string(out, name);
    assert(out@ =~= old(out)@ + ("{"@ + "\n  "@ + "\"skill_name\""@ + ":"@ + " "@ + ser_string(
        name@,
    )));
}

/// Appends one allow-list member of the nested object: its indented key,
/// the colon, and the serialized array.
fn append_list_field(out: &mut String, key: &str, l: &Vec<String>)
    ensures
        final(out)@ == old(out)@ + ("\n    "@ + (key@ + (":"@ + (" "@ + ser_list(
            l.deep_view(),
        ))))),
{
    out.append("\n    ");
    out.append(key);
    out.append(":");
    out.append(" ");
    append_list(out, l);
    assert(out@ =~= old(out)@ + ("\n    "@ + (key@ + (":"@ + (" "@ + ser_list(l.deep_view()))))));
}

/// Appends the serialized `filesystem` member, `ser_fs(fs@)`.
#[verifier::rlimit(100)]
fn append_fs(out: &mut String, fs: &FSAccess)
    ensures
        final(out)@ == old(out)@ + ser_fs(fs@),
{
    out.append(",");
    out.append("\n  ");
    out.append("\"filesystem\"");
    out.append(":");
    out.append(" ");
    out.append("{");
    append_list_field(out, "\"read\"", &fs.read);
    out.append(",");
    append_list_field(out, "\"write\"", &fs.write);
    out.append(",");
    append_list_field(out, "\"delete\"", &fs.delete);
    out.append("\n  ");
    out.append("}");
    proof {
        broadcast use lemma_concat_assoc_chars;

        assert(out@ == old(out)@ + ser_fs(fs@));
    }
}

/// Appends one serialized boolean member, `ser_flag(key@, b)`.
fn append_flag(out: &mut String, key: &str, b: bool)
    ensures
        final(out)@ == old(out)@ + ser_flag(key@, b),
{
    out.append(",");
    out.append("\n  ");
    out.append(key);
    out.append(":");
    out.append(" ");
    append_bool(out, b);
    assert(out@ =~= old(out)@ + ser_flag(key@, b));
}

// ---------------------------------------------------------------------------
// Parsing
// ---------------------------------------------------------------------------
/// JSON insignificant whitespace.
pub open spec fn is_ws(c: char) -> bool {
    c == ' ' || c == '\n' || c == '\t' || c == '\r'
}

/// Drops leading whitespace.
pub open spec fn skip_ws(s: Seq<char>) -> Seq<char>
    decreases s.len(),
{
    if s.len() > 0 && is_ws(s[0]) {
        skip_ws(s.skip(1))
    } else {
        s
    }
}

/// Consumes leading whitespace and then the literal token `lit`, yielding
/// the rest of the input.
pub open spec fn tok(s: Seq<char>, lit: Seq<char>) -> Option<Seq<char>> {
    let t = skip_ws(s);
    if lit.len() <= t.len() && t.take(lit.len() as int) == lit {
        Some(t.skip(lit.len() as int))
    } else {
        None
    }
}

/// The character denoted by a short escape, if the escape is recognized.
pub open spec fn unesc_char(c: char) -> Option<char> {
    if c == '"' {
        Some('"')
    } else if c == '\\' {
        Some('\\')
    } else if c == 'n' {
        Some('\n')
    } else if c == 'r' {
        Some('\r')
    } else if c == 't' {
        Some('\t')
    } else {
        None
    }
}

/// Consumes a string body up to and including the closing quote, decoding
/// escapes; yields the content and the rest of the input.
pub open spec fn parse_str_body(s: Seq<char>) -> Option<(Seq<char>, Seq<char>)>
    decreases s.len(),
{
    if s.len() == 0 {
        None
    } else if s[0] == '"' {
        Some((Seq::empty(), s.skip(1)))
    } else if s[0] == '\\' {
        if s.len() >= 2 {
            match unesc_char(s[1]) {
                Some(c) => match parse_str_body(s.skip(2)) {
                    Some(r) => Some((seq![c] + r.0, r.1)),
                    None => None,
                },
                None => None,
            }
        } else {
            None
        }
    } else {
        match parse_str_body(s.skip(1)) {
            Some(r) => Some((seq![s[0]] + r.0, r.1)),
            None => None,
        }
    }
}

/// Consumes a JSON string literal, whitespace first.
pub open spec fn parse_string(s: Seq<char>) -> Option<(Seq<char>, Seq<char>)> {
    let t = skip_ws(s);
    if t.len() > 0 && t[0] == '"' {
        parse_str_body(t.skip(1))
    } else {
        None
    }
}

/// Consumes `true` or `false`, whitespace first.
pub open spec fn parse_bool(s: Seq<char>) -> Option<(bool, Seq<char>)> {
    match tok(s, "true"@) {
        Some(r) => Some((true, r)),
        None => match tok(s, "false"@) {
            Some(r) => Some((false, r)),
            None => None,
        },
    }
}

proof fn lemma_skip_ws_len(s: Seq<char>)
    ensures
        skip_ws(s).len() <= s.len(),
    decreases s.len(),
{
    if s.len() > 0 && is_ws(s[0]) {
        lemma_skip_ws_len(s.skip(1));
    }
}

proof fn lemma_parse_str_body_len(s: Seq<char>)
    ensures
        parse_str_body(s) matches Some(r) ==> r.1.len() < s.len(),
    decreases s.len(),
{
    if s.len() == 0 {
    } else if s[0] == '"' {
    } else if s[0] == '\\' {
        if s.len() >= 2 {
            lemma_parse_str_body_len(s.skip(2));
        }
    } else {
        lemma_parse_str_body_len(s.skip(1));
    }
}

proof fn lemma_parse_string_len(s: Seq<char>)
    ensures
        parse_string(s) matches Some(r) ==> r.1.len() < s.len(),
{
    lemma_skip_ws_len(s);
    let t = skip_ws(s);
    if t.len() > 0 && t[0] == '"' {
        lemma_parse_str_body_len(t.skip(1));
    }
}

proof fn lemma_tok_len(s: Seq<char>, lit: Seq<char>)
    ensures
        tok(s, lit) matches Some(r) ==> r.len() + lit.len() <= s.len(),
{
    lemma_skip_ws_len(s);
}

/// Consumes the elements of a non-empty string array, together with the
/// closing bracket.
pub open spec fn parse_items(s: Seq<char>) -> Option<(Seq<Seq<char>>, Seq<char>)>
    decreases s.len(),
    via parse_items_decreases
{
    match parse_string(s) {
        Some((v, r1)) => match tok(r1, ","@) {
            Some(r2) => match parse_items(r2) {
                Some((vs, r3)) => Some((seq![v] + vs, r3)),
                None => None,
            },
            None => match tok(r1, "]"@) {
                Some(r2) => Some((seq![v], r2)),
                None => None,
            },
        },
        None => None,
    }
}

#[via_fn]
proof fn parse_items_decreases(s: Seq<char>) {
    lemma_parse_string_len(s);
    match parse_string(s) {
        Some((v, r1)) => {
            lemma_tok_len(r1, ","@);
            reveal_strlit(",");
        },
        None => {},
    }
}

/// Consumes a JSON string array, whitespace first.
pub open spec fn parse_list(s: Seq<char>) -> Option<(Seq<Seq<char>>, Seq<char>)> {
    match tok(s, "["@) {
        Some(r1) => match tok(r1, "]"@) {
            Some(r2) => Some((Seq::empty(), r2)),
            None => parse_items(r1),
        },
        None => None,
    }
}

/// Consumes the literal `key` and then a colon.
pub open spec fn key_colon(s: Seq<char>, key: Seq<char>) -> Option<Seq<char>> {
    match tok(s, key) {
        Some(r) => tok(r, ":"@),
        None => None,
    }
}

/// Consumes the whole `filesystem` member: its leading comma, its key, and
/// the nested object with `read`, `write`, `delete` arrays in order.
pub open spec fn parse_fs_block(s: Seq<char>) -> Option<(FsView, Seq<char>)> {
    match tok(s, ","@) {
        Some(r) => match key_colon(r, "\"filesystem\""@) {
            Some(r) => match tok(r, "{"@) {
                Some(r) => match key_colon(r, "\"read\""@) {
                    Some(r) => match parse_list(r) {
                        Some((read, r)) => match tok(r, ","@) {
                            Some(r) => match key_colon(r, "\"write\""@) {
                                Some(r) => match parse_list(r) {
                                    Some((write, r)) => match tok(r, ","@) {
                                        Some(r) => match key_colon(r, "\"delete\""@) {
                                            Some(r) => match parse_list(r) {
                                                Some((delete, r)) => match tok(r, "}"@) {
                                                    Some(r) => Some(
                                                        (FsView { read, write, delete }, r),
                                                    ),
                                                    None => None,
                                                },
                                                None => None,
                                            },
                                            None => None,
                                        },
                                        None => None,
                                    },
                                    None => None,
                                },
                                None => None,
                            },
                            None => None,
                        },
                        None => None,
                    },
                    None => None,
                },
                None => None,
            },
            None => None,
        },
        None => None,
    }
}

/// Consumes one boolean member: its leading comma, its key, and its value.
pub open spec fn parse_flag(s: Seq<char>, key: Seq<char>) -> Option<(bool, Seq<char>)> {
    match tok(s, ","@) {
        Some(r) => match key_colon(r, key) {
            Some(r) => parse_bool(r),
            None => None,
        },
        None => None,
    }
}

/// Consumes everything after the `skill_name` value: the `filesystem`
/// member, the four boolean members in order, and the closing brace, with
/// nothing but whitespace allowed to follow.
pub open spec fn parse_members(s: Seq<char>, name: Seq<char>) -> Option<ManifestView> {
    match parse_fs_block(s) {
        Some((fs, r)) => match parse_flag(r, "\"network\""@) {
            Some((network, r)) => match parse_flag(r, "\"gpu\""@) {
                Some((gpu, r)) => match parse_flag(r, "\"sensors\""@) {
                    Some((sensors, r)) => match parse_flag(r, "\"camera\""@) {
                        Some((camera, r)) => match tok(r, "}"@) {
                            Some(r) => if skip_ws(r).len() == 0 {
                                Some(
                                    ManifestView {
                                        skill_name: name,
                                        filesystem: fs,
                                        network,
                                        gpu,
                                        sensors,
                                        camera,
                                    },
                                )
                            } else {
                                None
                            },
                            None => None,
                        },
                        None => None,
                    },
                    None => None,
                },
                None => None,
            },
            None => None,
        },
        None => None,
    }
}

/// Parses a whole manifest document; `None` is a malformed manifest. The
/// fields must arrive in the declared schema order; whitespace between
/// tokens is free, and nothing but whitespace may follow the closing brace.
pub open spec fn parse_manifest(s: Seq<char>) -> Option<ManifestView> {
    match tok(s, "{"@) {
        Some(r) => match key_colon(r, "\"skill_name\""@) {
            Some(r) => match parse_string(r) {
                Some((name, r)) => parse_members(r, name),
                None => None,
            },
            None => None,
        },
        None => None,
    }
}

/// Advances past insignificant whitespace.
fn skip_ws_exec(v: &Vec<char>, i: usize) -> (j: usize)
    requires
        i <= v@.len(),
    ensures
        i <= j <= v@.len(),
        v@.skip(j as int) == skip_ws(v@.skip(i as int)),
{
    let mut j = i;
    loop
        invariant
            i <= j <= v@.len(),
            skip_ws(v@.skip(i as int)) == skip_ws(v@.skip(j as int)),
        ensures
            i <= j <= v@.len(),
            v@.skip(j as int) == skip_ws(v@.skip(i as int)),
        decreases v@.len() - j,
    {
        if j == v.len() {
            assert(v@.skip(j as int) =~= Seq::<char>::empty());
            break ;
        }
        let c = v[j];
        if !(c == ' ' || c == '\n' || c == '\t' || c == '\r') {
            assert(!is_ws(v@.skip(j as int)[0]));
            break ;
        }
        assert(is_ws(v@.skip(j as int)[0]));
        assert(v@.skip(j as int).skip(1) =~= v@.skip(j + 1));
        j = j + 1;
    }
    j
}

/// Consumes whitespace and the literal `lit`; computes `tok`.
fn tok_exec(v: &Vec<char>, i: usize, lit: &Vec<char>) -> (r: Option<usize>)
    requires
        i <= v@.len(),
    ensures
        (match r {
            Some(j) => i <= j <= v@.len() && i + lit@.len() <= j && tok(v@.skip(i as int), lit@)
                == Some(v@.skip(j as int)),
            None => tok(v@.skip(i as int), lit@) is None,
        }),
{
    let j0 = skip_ws_exec(v, i);
    let ghost t = skip_ws(v@.skip(i as int));
    if lit.len() > v.len() - j0 {
        return None;
    }
    let mut k: usize = 0;
    while k < lit.len()
        invariant
            i <= j0 <= v@.len(),
            j0 + lit@.len() <= v@.len(),
            v@.len() <= usize::MAX,
            k <= lit@.len(),
            t == v@.skip(j0 as int),
            t == skip_ws(v@.skip(i as int)),
            forall|q: int| 0 <= q < k ==> v@[j0 + q] == lit@[q],
        decreases lit@.len() - k,
    {
        if v[j0 + k] != lit[k] {
            proof {
                assert(t[k as int] == v@[j0 + k]);
                assert(t.take(lit@.len() as int)[k as int] == t[k as int]);
                assert(t.take(lit@.len() as int) != lit@);
            }
            return None;
        }
        k = k + 1;
    }
    proof {
        assert(t.take(lit@.len() as int) =~= lit@);
        assert(t.skip(lit@.len() as int) =~= v@.skip(j0 + lit@.len()));
    }
    Some(j0 + lit.len())
}

/// Consumes a string body after its opening quote; computes
/// `parse_str_body`.
fn parse_str_body_exec(v: &Vec<char>, i: usize) -> (r: Option<(Vec<char>, usize)>)
    requires
        i <= v@.len(),
    ensures
        (match r {
            Some(p) => i < p.1 <= v@.len() && parse_str_body(v@.skip(i as int)) == Some(
                (p.0@, v@.skip(p.1 as int)),
            ),
            None => parse_str_body(v@.skip(i as int)) is None,
        }),
    decreases v@.len() - i,
{
    let ghost s = v@.skip(i as int);
    if i == v.len() {
        return None;
    }
    let c = v[i];
    assert(s[0] == c);
    if c == '"' {
        assert(s.skip(1) =~= v@.skip(i + 1));
        let empty: Vec<char> = Vec::new();
        assert(empty@ =~= Seq::<char>::empty());
        return Some((empty, i + 1));
    }
    if c == '\\' {
        if i + 1 == v.len() {
            assert(s.len() < 2);
            return None;
        }
        assert(s.len() >= 2 && s[1] == v@[i + 1]);
        let e = v[i + 1];
        let u: char;
        if e == '"' {
            u = '"';
        } else if e == '\\' {
            u = '\\';
        } else if e == 'n' {
            u = '\n';
        } else if e == 'r' {
            u = '\r';
        } else if e == 't' {
            u = '\t';
        } else {
            assert(unesc_char(s[1]) is None);
            return None;
        }
        assert(unesc_char(s[1]) == Some(u));
        assert(s.skip(2) =~= v@.skip(i + 2));
        match parse_str_body_exec(v, i + 2) {
            Some((mut rest, j)) => {
                rest.insert(0, u);
                assert(rest@ =~= seq![u] + rest@.skip(1));
                return Some((rest, j));
            },
            None => {
                return None;
            },
        }
    }
    assert(s.skip(1) =~= v@.skip(i + 1));
    match parse_str_body_exec(v, i + 1) {
        Some((mut rest, j)) => {
            rest.insert(0, c);
            assert(rest@ =~= seq![c] + rest@.skip(1));
            Some((rest, j))
        },
        None => None,
    }
}

/// Consumes a JSON string literal; computes `parse_string`.
fn parse_string_exec(v: &Vec<char>, i: usize) -> (r: Option<(Vec<char>, usize)>)
    requires
        i <= v@.len(),
    ensures
        (match r {
            Some(p) => i < p.1 <= v@.len() && parse_string(v@.skip(i as int)) == Some(
                (p.0@, v@.skip(p.1 as int)),
            ),
            None => parse_string(v@.skip(i as int)) is None,
        }),
{
    let j0 = skip_ws_exec(v, i);
    let ghost t = skip_ws(v@.skip(i as int));
    if j0 == v.len() {
        assert(t.len() == 0);
        return None;
    }
    if v[j0] != '"' {
        assert(t[0] != '"');
        return None;
    }
    assert(t.skip(1) =~= v@.skip(j0 + 1));
    parse_str_body_exec(v, j0 + 1)
}

/// Consumes `true` or `false`; computes `parse_bool`.
fn parse_bool_exec(v: &Vec<char>, i: usize) -> (r: Option<(bool, usize)>)
    requires
        i <= v@.len(),
    ensures
        (match r {
            Some(p) => i <= p.1 <= v@.len() && parse_bool(v@.skip(i as int)) == Some(
                (p.0, v@.skip(p.1 as int)),
            ),
            None => parse_bool(v@.skip(i as int)) is None,
        }),
{
    let lit_true = str_to_chars("true");
    match tok_exec(v, i, &lit_true) {
        Some(j) => Some((true, j)),
        None => {
            let lit_false = str_to_chars("false");
            match tok_exec(v, i, &lit_false) {
                Some(j) => Some((false, j)),
                None => None,
            }
        },
    }
}

/// Consumes the elements and closing bracket of a non-empty string array;
/// computes `parse_items`.
fn parse_items_exec(v: &Vec<char>, i: usize) -> (r: Option<(Vec<String>, usize)>)
    requires
        i <= v@.len(),
    ensures
        (match r {
            Some(p) => i <= p.1 <= v@.len() && parse_items(v@.skip(i as int)) == Some(
                (p.0.deep_view(), v@.skip(p.1 as int)),
            ),
            None => parse_items(v@.skip(i as int)) is None,
        }),
    decreases v@.len() - i,
{
    match parse_string_exec(v, i) {
        None => None,
        Some((val, j1)) => {
            let lit_comma = str_to_chars(",");
            proof {
                reveal_strlit(",");
                reveal_strlit("]");
            }
            match tok_exec(v, j1, &lit_comma) {
                Some(j2) => {
                    match parse_items_exec(v, j2) {
                        Some((items, j3)) => {
                            let ghost old_items = items.deep_view();
                            let s = chars_to_string(&val);
                            let mut items = items;
                            items.insert(0, s);
                            proof {
                                assert(items.deep_view() =~= seq![val@] + old_items);
                            }
                            Some((items, j3))
                        },
                        None => None,
                    }
                },
                None => {
                    let lit_close = str_to_chars("]");
                    match tok_exec(v, j1, &lit_close) {
                        Some(j2) => {
                            let s = chars_to_string(&val);
                            let mut items: Vec<String> = Vec::new();
                            items.push(s);
                            proof {
                                assert(items.deep_view() =~= seq![val@]);
                            }
                            Some((items, j2))
                        },
                        None => None,
                    }
                },
            }
        },
    }
}

/// Consumes a JSON string array; computes `parse_list`.
fn parse_list_exec(v: &Vec<char>, i: usize) -> (r: Option<(Vec<String>, usize)>)
    requires
        i <= v@.len(),
    ensures
        (match r {
            Some(p) => i <= p.1 <= v@.len() && parse_list(v@.skip(i as int)) == Some(
                (p.0.deep_view(), v@.skip(p.1 as int)),
            ),
            None => parse_list(v@.skip(i as int)) is None,
        }),
{
    let lit_open = str_to_chars("[");
    match tok_exec(v, i, &lit_open) {
        None => None,
        Some(j1) => {
            let lit_close = str_to_chars("]");
            match tok_exec(v, j1, &lit_close) {
                Some(j2) => {
                    let items: Vec<String> = Vec::new();
                    proof {
                        assert(items.deep_view() =~= Seq::<Seq<char>>::empty());
                    }
                    Some((items, j2))
                },
                None => parse_items_exec(v, j1),
            }
        },
    }
}

/// Consumes a key literal and a colon; computes `key_colon`.
fn key_colon_exec(v: &Vec<char>, i: usize, key: &str) -> (r: Option<usize>)
    requires
        i <= v@.len(),
    ensures
        (match r {
            Some(j) => i <= j <= v@.len() && key_colon(v@.skip(i as int), key@) == Some(
                v@.skip(j as int),
            ),
            None => key_colon(v@.skip(i as int), key@) is None,
        }),
{
    let lit = str_to_chars(key);
    match tok_exec(v, i, &lit) {
        None => None,
        Some(j1) => {
            let colon = str_to_chars(":");
            tok_exec(v, j1, &colon)
        },
    }
}

/// Consumes one boolean member (comma, key, colon, value); computes
/// `parse_flag`.
fn parse_flag_exec(v: &Vec<char>, i: usize, key: &str) -> (r: Option<(bool, usize)>)
    requires
        i <= v@.len(),
    ensures
        (match r {
            Some(p) => i <= p.1 <= v@.len() && parse_flag(v@.skip(i as int), key@) == Some(
                (p.0, v@.skip(p.1 as int)),
            ),
            None => parse_flag(v@.skip(i as int), key@) is None,
        }),
{
    let comma = str_to_chars(",");
    match tok_exec(v, i, &comma) {
        None => None,
        Some(j1) => match key_colon_exec(v, j1, key) {
            None => None,
            Some(j2) => parse_bool_exec(v, j2),
        },
    }
}

/// Consumes the whole `filesystem` member; computes `parse_fs_block`.
fn parse_fs_block_exec(v: &Vec<char>, i: usize) -> (r: Option<(FSAccess, usize)>)
    requires
        i <= v@.len(),
    ensures
        (match r {
            Some(p) => i <= p.1 <= v@.len() && parse_fs_block(v@.skip(i as int)) == Some(
                (p.0@, v@.skip(p.1 as int)),
            ),
            None => parse_fs_block(v@.skip(i as int)) is None,
        }),
{
    let comma = str_to_chars(",");
    match tok_exec(v, i, &comma) {
        None => None,
        Some(j) => match key_colon_exec(v, j, "\"filesystem\"") {
            None => None,
            Some(j) => {
                let brace = str_to_chars("{");
                match tok_exec(v, j, &brace) {
                    None => None,
                    Some(j) => match key_colon_exec(v, j, "\"read\"") {
                        None => None,
                        Some(j) => match parse_list_exec(v, j) {
                            None => None,
                            Some((read, j)) => match tok_exec(v, j, &comma) {
                                None => None,
                                Some(j) => match key_colon_exec(v, j, "\"write\"") {
                                    None => None,
                                    Some(j) => match parse_list_exec(v, j) {
                                        None => None,
                                        Some((write, j)) => match tok_exec(v, j, &comma) {
                                            None => None,
                                            Some(j) => match key_colon_exec(v, j, "\"delete\"") {
                                                None => None,
                                                Some(j) => match parse_list_exec(v, j) {
                                                    None => None,
                                                    Some((delete, j)) => {
                                                        let close = str_to_chars("}");
                                                        match tok_exec(v, j, &close) {
                                                            None => None,
                                                            Some(j) => {
                                                                let fs = FSAccess {
                                                                    read,
                                                                    write,
                                                                    delete,
                                                                };
                                                                Some((fs, j))
                                                            },
                                                        }
                                                    },
                                                },
                                            },
                                        },
                                    },
                                },
                            },
                        },
                    },
                }
            },
        },
    }
}

/// Parses a whole manifest document from characters; computes
/// `parse_manifest`.
fn parse_manifest_exec(v: &Vec<char>) -> (r: Option<CapabilityManifest>)
    ensures
        (match r {
            Some(m) => parse_manifest(v@) == Some(m@),
            None => parse_manifest(v@) is None,
        }),
{
    proof {
        assert(v@.skip(0) =~= v@);
    }
    let brace = str_to_chars("{");
    match tok_exec(v, 0, &brace) {
        None => None,
        Some(j) => match key_colon_exec(v, j, "\"skill_name\"") {
            None => None,
            Some(j) => match parse_string_exec(v, j) {
                None => None,
                Some((name_chars, j)) => match parse_fs_block_exec(v, j) {
                    None => None,
                    Some((fs, j)) => match parse_flag_exec(v, j, "\"network\"") {
                        None => None,
                        Some((network, j)) => match parse_flag_exec(v, j, "\"gpu\"") {
                            None => None,
                            Some((gpu, j)) => match parse_flag_exec(v, j, "\"sensors\"") {
                                None => None,
                                Some((sensors, j)) => match parse_flag_exec(v, j, "\"camera\"") {
                                    None => None,
                                    Some((camera, j)) => {
                                        let close = str_to_chars("}");
                                        match tok_exec(v, j, &close) {
                                            None => None,
                                            Some(j) => {
                                                let j2 = skip_ws_exec(v, j);
                                                if j2 != v.len() {
                                                    assert(skip_ws(v@.skip(j as int)).len() != 0);
                                                    None
                                                } else {
                                                    assert(skip_ws(v@.skip(j as int)).len() == 0);
                                                    let skill_name = chars_to_string(&name_chars);
                                                    let m = CapabilityManifest {
                                                        skill_name,
                                                        filesystem: fs,
                                                        network,
                                                        gpu,
                                                        sensors,
                                                        camera,
                                                    };
                                                    Some(m)
                                                }
                                            },
                                        }
                                    },
                                },
                            },
                        },
                    },
                },
            },
        },
    }
}

// ---------------------------------------------------------------------------
// Round trip: parsing inverts serialization
// ---------------------------------------------------------------------------
/// Every character of `w` is insignificant whitespace.
pub open spec fn all_ws(w: Seq<char>) -> bool {
    forall|k: int| 0 <= k < w.len() ==> is_ws(#[trigger] w[k])
}

proof fn lemma_skip_ws_concat(w: Seq<char>, rest: Seq<char>)
    requires
        all_ws(w),
        rest.len() == 0 || !is_ws(rest[0]),
    ensures
        skip_ws(w + rest) == rest,
    decreases w.len(),
{
    if w.len() == 0 {
        assert(w + rest =~= rest);
    } else {
        assert((w + rest)[0] == w[0]);
        assert(is_ws(w[0]));
        assert((w + rest).skip(1) =~= w.skip(1) + rest);
        assert(all_ws(w.skip(1)));
        lemma_skip_ws_concat(w.skip(1), rest);
    }
}

proof fn lemma_tok_concat(w: Seq<char>, lit: Seq<char>, rest: Seq<char>)
    requires
        all_ws(w),
        lit.len() > 0,
        !is_ws(lit[0]),
    ensures
        tok(w + (lit + rest), lit) == Some(rest),
{
    assert((lit + rest)[0] == lit[0]);
    lemma_skip_ws_concat(w, lit + rest);
    assert((lit + rest).take(lit.len() as int) =~= lit);
    assert((lit + rest).skip(lit.len() as int) =~= rest);
}

proof fn lemma_key_colon_of(w: Seq<char>, key: Seq<char>, rest: Seq<char>)
    requires
        all_ws(w),
        key.len() > 0,
        !is_ws(key[0]),
    ensures
        key_colon(w + (key + (":"@ + rest)), key) == Some(rest),
{
    reveal_strlit(":");
    lemma_tok_concat(w, key, ":"@ + rest);
    assert(":"@ + rest =~= Seq::<char>::empty() + (":"@ + rest));
    lemma_tok_concat(Seq::empty(), ":"@, rest);
}

proof fn lemma_parse_str_body_of_esc(x: Seq<char>, rest: Seq<char>)
    ensures
        parse_str_body(esc(x) + ("\""@ + rest)) == Some((x, rest)),
    decreases x.len(),
{
    reveal_strlit("\"");
    let s = esc(x) + ("\""@ + rest);
    if x.len() == 0 {
        assert(s =~= "\""@ + rest);
        assert(s[0] == '"');
        assert(s.skip(1) =~= rest);
        assert(x =~= Seq::<char>::empty());
    } else {
        let c = x[0];
        assert(esc(x) == esc_char(c) + esc(x.skip(1)));
        lemma_parse_str_body_of_esc(x.skip(1), rest);
        assert(seq![c] + x.skip(1) =~= x);
        if c == '"' || c == '\\' || c == '\n' || c == '\r' || c == '\t' {
            let e = if c == '"' {
                '"'
            } else if c == '\\' {
                '\\'
            } else if c == '\n' {
                'n'
            } else if c == '\r' {
                'r'
            } else {
                't'
            };
            assert(esc_char(c) =~= seq!['\\', e]);
            assert(s[0] == '\\');
            assert(s.len() >= 2 && s[1] == e);
            assert(unesc_char(e) == Some(c));
            assert(s.skip(2) =~= esc(x.skip(1)) + ("\""@ + rest));
        } else {
            assert(esc_char(c) =~= seq![c]);
            assert(s[0] == c);
            assert(s.skip(1) =~= esc(x.skip(1)) + ("\""@ + rest));
        }
    }
}

proof fn lemma_parse_string_of_ser(w: Seq<char>, x: Seq<char>, rest: Seq<char>)
    requires
        all_ws(w),
    ensures
        parse_string(w + (ser_string(x) + rest)) == Some((x, rest)),
{
    reveal_strlit("\"");
    let t = ser_string(x) + rest;
    assert(t[0] == '"');
    assert(!is_ws('"'));
    lemma_skip_ws_concat(w, t);
    assert(t.skip(1) =~= esc(x) + ("\""@ + rest));
    lemma_parse_str_body_of_esc(x, rest);
}

proof fn lemma_parse_bool_of_ser(w: Seq<char>, b: bool, rest: Seq<char>)
    requires
        all_ws(w),
    ensures
        parse_bool(w + (ser_bool(b) + rest)) == Some((b, rest)),
{
    reveal_strlit("true");
    reveal_strlit("false");
    let s = w + (ser_bool(b) + rest);
    if b {
        assert(s =~= w + ("true"@ + rest));
        lemma_tok_concat(w, "true"@, rest);
    } else {
        assert(s =~= w + ("false"@ + rest));
        let t = "false"@ + rest;
        assert(t[0] == 'f');
        lemma_skip_ws_concat(w, t);
        assert(t.take(4)[0] == 'f');
        assert(t.take(4) != "true"@);
        lemma_tok_concat(w, "false"@, rest);
    }
}
proof fn lemma_tok_at(lit: Seq<char>, rest: Seq<char>)
    requires
        lit.len() > 0,
        !is_ws(lit[0]),
    ensures
        tok(lit + rest, lit) == Some(rest),
{
    let s = lit + rest;
    assert(s[0] == lit[0]);
    assert(skip_ws(s) == s);
    assert(s.take(lit.len() as int) =~= lit);
    assert(s.skip(lit.len() as int) =~= rest);
}

// Continuation-style serializations: the same text as the `ser_*` functions
// followed by exactly the continuation `k`, grouped the way the parser
// consumes it. They exist for the round-trip proof alone.
spec fn ser_items_k(l: Seq<Seq<char>>, k: Seq<char>) -> Seq<char>
    decreases l.len(),
{
    if l.len() == 0 {
        k
    } else if l.len() == 1 {
        "\n      "@ + (ser_string(l[0]) + ("\n    "@ + k))
    } else {
        "\n      "@ + (ser_string(l[0]) + (","@ + ser_items_k(l.skip(1), k)))
    }
}

spec fn ser_list_k(l: Seq<Seq<char>>, k: Seq<char>) -> Seq<char> {
    if l.len() == 0 {
        "["@ + ("]"@ + k)
    } else {
        "["@ + ser_items_k(l, "]"@ + k)
    }
}

spec fn ser_flag_k(key: Seq<char>, b: bool, k: Seq<char>) -> Seq<char> {
    ","@ + ("\n  "@ + (key + (":"@ + (" "@ + (ser_bool(b) + k)))))
}

spec fn ser_fs_k(fs: FsView, k: Seq<char>) -> Seq<char> {
    let k3 = "\n  "@ + ("}"@ + k);
    let k2 = ","@ + ("\n    "@ + ("\"delete\""@ + (":"@ + (" "@ + ser_list_k(fs.delete, k3)))));
    let k1 = ","@ + ("\n    "@ + ("\"write\""@ + (":"@ + (" "@ + ser_list_k(fs.write, k2)))));
    ","@ + ("\n  "@ + ("\"filesystem\""@ + (":"@ + (" "@ + ("{"@ + ("\n    "@ + ("\"read\""@ + (
    ":"@ + (" "@ + ser_list_k(fs.read, k1))))))))))
}

spec fn ser_manifest_k(m: ManifestView, k: Seq<char>) -> Seq<char> {
    let k5 = "\n"@ + ("}"@ + k);
    let k4 = ser_flag_k("\"camera\""@, m.camera, k5);
    let k3 = ser_flag_k("\"sensors\""@, m.sensors, k4);
    let k2 = ser_flag_k("\"gpu\""@, m.gpu, k3);
    let k1 = ser_flag_k("\"network\""@, m.network, k2);
    "{"@ + ("\n  "@ + ("\"skill_name\""@ + (":"@ + (" "@ + (ser_string(m.skill_name) + ser_fs_k(
        m.filesystem,
        k1,
    ))))))
}

broadcast proof fn lemma_concat_assoc_chars(a: Seq<char>, b: Seq<char>, c: Seq<char>)
    ensures
        #[trigger] ((a + b) + c) == a + (b + c),
{
    vstd::seq_lib::lemma_concat_associative(a, b, c);
}

proof fn lemma_ser_items_k(l: Seq<Seq<char>>, k: Seq<char>)
    ensures
        ser_items(l) + k == ser_items_k(l, k),
    decreases l.len(),
{
    if l.len() == 0 {
        assert(ser_items(l) + k =~= k);
    } else if l.len() == 1 {
        assert(ser_items(l) + k =~= "\n      "@ + (ser_string(l[0]) + ("\n    "@ + k)));
    } else {
        lemma_ser_items_k(l.skip(1), k);
        assert(ser_items(l) + k =~= "\n      "@ + (ser_string(l[0]) + (","@ + (ser_items(
            l.skip(1),
        ) + k))));
    }
}

proof fn lemma_ser_list_k(l: Seq<Seq<char>>, k: Seq<char>)
    ensures
        ser_list(l) + k == ser_list_k(l, k),
{
    if l.len() == 0 {
        reveal_strlit("[]");
        reveal_strlit("[");
        reveal_strlit("]");
        assert(ser_list(l) + k =~= "["@ + ("]"@ + k));
    } else {
        lemma_ser_items_k(l, "]"@ + k);
        assert(ser_list(l) + k =~= "["@ + (ser_items(l) + ("]"@ + k)));
    }
}

proof fn lemma_ser_flag_k(key: Seq<char>, b: bool, k: Seq<char>)
    ensures
        ser_flag(key, b) + k == ser_flag_k(key, b, k),
{
    assert(ser_flag(key, b) + k =~= ","@ + ("\n  "@ + (key + (":"@ + (" "@ + (ser_bool(b)
        + k))))));
}

#[verifier::rlimit(100)]
proof fn lemma_ser_fs_k(fs: FsView, k: Seq<char>)
    ensures
        ser_fs(fs) + k == ser_fs_k(fs, k),
{
    broadcast use lemma_concat_assoc_chars;

    let k3 = "\n  "@ + ("}"@ + k);
    let k2 = ","@ + ("\n    "@ + ("\"delete\""@ + (":"@ + (" "@ + ser_list_k(fs.delete, k3)))));
    let k1 = ","@ + ("\n    "@ + ("\"write\""@ + (":"@ + (" "@ + ser_list_k(fs.write, k2)))));
    lemma_ser_list_k(fs.delete, k3);
    lemma_ser_list_k(fs.write, k2);
    lemma_ser_list_k(fs.read, k1);
    assert(ser_fs(fs) + k == ser_fs_k(fs, k));
}

#[verifier::rlimit(100)]
proof fn lemma_ser_manifest_k(m: ManifestView)
    ensures
        ser_manifest(m) == ser_manifest_k(m, Seq::<char>::empty()),
{
    broadcast use lemma_concat_assoc_chars;

    let e = Seq::<char>::empty();
    let k5 = "\n"@ + ("}"@ + e);
    let k4 = ser_flag_k("\"camera\""@, m.camera, k5);
    let k3 = ser_flag_k("\"sensors\""@, m.sensors, k4);
    let k2 = ser_flag_k("\"gpu\""@, m.gpu, k3);
    let k1 = ser_flag_k("\"network\""@, m.network, k2);
    lemma_ser_flag_k("\"camera\""@, m.camera, k5);
    lemma_ser_flag_k("\"sensors\""@, m.sensors, k4);
    lemma_ser_flag_k("\"gpu\""@, m.gpu, k3);
    lemma_ser_flag_k("\"network\""@, m.network, k2);
    lemma_ser_fs_k(m.filesystem, k1);
    assert("\n"@ + ("}"@ + e) =~= "\n"@ + "}"@);
    assert(ser_manifest(m) == ser_manifest_k(m, e));
}

proof fn lemma_parse_items_of_ser_k(l: Seq<Seq<char>>, k: Seq<char>)
    requires
        l.len() > 0,
    ensures
        parse_items(ser_items_k(l, "]"@ + k)) == Some((l, k)),
    decreases l.len(),
{
    reveal_strlit("\n      ");
    reveal_strlit("\n    ");
    reveal_strlit(",");
    reveal_strlit("]");
    assert(all_ws("\n      "@));
    assert(all_ws("\n    "@));
    let kk = "]"@ + k;
    if l.len() == 1 {
        let tail = "\n    "@ + kk;
        lemma_parse_string_of_ser("\n      "@, l[0], tail);
        assert(kk[0] == ']');
        lemma_skip_ws_concat("\n    "@, kk);
        assert(kk.take(1)[0] == ']');
        assert(kk.take(1) != ","@);
        lemma_tok_concat("\n    "@, "]"@, k);
        assert(seq![l[0]] =~= l);
    } else {
        let tail = ","@ + ser_items_k(l.skip(1), kk);
        lemma_parse_string_of_ser("\n      "@, l[0], tail);
        lemma_tok_at(","@, ser_items_k(l.skip(1), kk));
        lemma_parse_items_of_ser_k(l.skip(1), k);
        assert(seq![l[0]] + l.skip(1) =~= l);
    }
}

proof fn lemma_parse_list_of_ser_k(w: Seq<char>, l: Seq<Seq<char>>, k: Seq<char>)
    requires
        all_ws(w),
    ensures
        parse_list(w + ser_list_k(l, k)) == Some((l, k)),
{
    reveal_strlit("[");
    reveal_strlit("]");
    reveal_strlit("\n      ");
    reveal_strlit("\"");
    if l.len() == 0 {
        lemma_tok_concat(w, "["@, "]"@ + k);
        lemma_tok_at("]"@, k);
        assert(l =~= Seq::<Seq<char>>::empty());
    } else {
        let body = ser_items_k(l, "]"@ + k);
        lemma_tok_concat(w, "["@, body);
        let x = if l.len() == 1 {
            "\n    "@ + ("]"@ + k)
        } else {
            ","@ + ser_items_k(l.skip(1), "]"@ + k)
        };
        assert(body == "\n      "@ + (ser_string(l[0]) + x));
        assert((ser_string(l[0]) + x)[0] == '"');
        assert(all_ws("\n      "@));
        lemma_skip_ws_concat("\n      "@, ser_string(l[0]) + x);
        assert(skip_ws(body).take(1)[0] == '"');
        assert(skip_ws(body).take(1) != "]"@);
        lemma_parse_items_of_ser_k(l, k);
    }
}

proof fn lemma_parse_flag_of_ser_k(key: Seq<char>, b: bool, k: Seq<char>)
    requires
        key.len() > 0,
        !is_ws(key[0]),
    ensures
        parse_flag(ser_flag_k(key, b, k), key) == Some((b, k)),
{
    reveal_strlit(",");
    reveal_strlit("\n  ");
    reveal_strlit(" ");
    assert(all_ws("\n  "@));
    assert(all_ws(" "@));
    let after = "\n  "@ + (key + (":"@ + (" "@ + (ser_bool(b) + k))));
    lemma_tok_at(","@, after);
    lemma_key_colon_of("\n  "@, key, " "@ + (ser_bool(b) + k));
    lemma_parse_bool_of_ser(" "@, b, k);
}

#[verifier::rlimit(100)]
proof fn lemma_parse_fs_of_ser_k(fs: FsView, k: Seq<char>)
    ensures
        parse_fs_block(ser_fs_k(fs, k)) == Some((fs, k)),
{
    reveal_strlit(",");
    reveal_strlit("\n  ");
    reveal_strlit("\n    ");
    reveal_strlit(" ");
    reveal_strlit("{");
    reveal_strlit("}");
    reveal_strlit("\"filesystem\"");
    reveal_strlit("\"read\"");
    reveal_strlit("\"write\"");
    reveal_strlit("\"delete\"");
    assert(all_ws("\n  "@));
    assert(all_ws("\n    "@));
    assert(all_ws(" "@));
    let k3 = "\n  "@ + ("}"@ + k);
    let k2 = ","@ + ("\n    "@ + ("\"delete\""@ + (":"@ + (" "@ + ser_list_k(fs.delete, k3)))));
    let k1 = ","@ + ("\n    "@ + ("\"write\""@ + (":"@ + (" "@ + ser_list_k(fs.write, k2)))));
    let x3 = "\n    "@ + ("\"read\""@ + (":"@ + (" "@ + ser_list_k(fs.read, k1))));
    let x2 = " "@ + ("{"@ + x3);
    let after_comma = "\n  "@ + ("\"filesystem\""@ + (":"@ + x2));
    lemma_tok_at(","@, after_comma);
    lemma_key_colon_of("\n  "@, "\"filesystem\""@, x2);
    lemma_tok_concat(" "@, "{"@, x3);
    lemma_key_colon_of("\n    "@, "\"read\""@, " "@ + ser_list_k(fs.read, k1));
    lemma_parse_list_of_ser_k(" "@, fs.read, k1);
    lemma_tok_at(","@, "\n    "@ + ("\"write\""@ + (":"@ + (" "@ + ser_list_k(fs.write, k2)))));
    lemma_key_colon_of("\n    "@, "\"write\""@, " "@ + ser_list_k(fs.write, k2));
    lemma_parse_list_of_ser_k(" "@, fs.write, k2);
    lemma_tok_at(","@, "\n    "@ + ("\"delete\""@ + (":"@ + (" "@ + ser_list_k(fs.delete, k3)))));
    lemma_key_colon_of("\n    "@, "\"delete\""@, " "@ + ser_list_k(fs.delete, k3));
    lemma_parse_list_of_ser_k(" "@, fs.delete, k3);
    lemma_tok_concat("\n  "@, "}"@, k);
    assert((FsView { read: fs.read, write: fs.write, delete: fs.delete }) == fs);
}

#[verifier::rlimit(100)]
proof fn lemma_parse_members_of_ser(m: ManifestView)
    ensures
        ({
            let k5 = "\n"@ + ("}"@ + Seq::<char>::empty());
            let k4 = ser_flag_k("\"camera\""@, m.camera, k5);
            let k3 = ser_flag_k("\"sensors\""@, m.sensors, k4);
            let k2 = ser_flag_k("\"gpu\""@, m.gpu, k3);
            let k1 = ser_flag_k("\"network\""@, m.network, k2);
            parse_members(ser_fs_k(m.filesystem, k1), m.skill_name) == Some(m)
        }),
{
    reveal_strlit("\n");
    reveal_strlit("}");
    reveal_strlit("\"network\"");
    reveal_strlit("\"gpu\"");
    reveal_strlit("\"sensors\"");
    reveal_strlit("\"camera\"");
    assert(all_ws("\n"@));
    let e = Seq::<char>::empty();
    let k5 = "\n"@ + ("}"@ + e);
    let k4 = ser_flag_k("\"camera\""@, m.camera, k5);
    let k3 = ser_flag_k("\"sensors\""@, m.sensors, k4);
    let k2 = ser_flag_k("\"gpu\""@, m.gpu, k3);
    let k1 = ser_flag_k("\"network\""@, m.network, k2);
    lemma_parse_fs_of_ser_k(m.filesystem, k1);
    lemma_parse_flag_of_ser_k("\"network\""@, m.network, k2);
    lemma_parse_flag_of_ser_k("\"gpu\""@, m.gpu, k3);
    lemma_parse_flag_of_ser_k("\"sensors\""@, m.sensors, k4);
    lemma_parse_flag_of_ser_k("\"camera\""@, m.camera, k5);
    lemma_tok_concat("\n"@, "}"@, e);
    assert(skip_ws(e).len() == 0);
    assert((ManifestView {
        skill_name: m.skill_name,
        filesystem: m.filesystem,
        network: m.network,
        gpu: m.gpu,
        sensors: m.sensors,
        camera: m.camera,
    }) == m);
}

/// Round trip: parsing a serialized manifest yields exactly the manifest
/// that was serialized, for every manifest value.
#[verifier::rlimit(100)]
pub proof fn lemma_parse_inverts_serialize(m: ManifestView)
    ensures
        parse_manifest(ser_manifest(m)) == Some(m),
{
    reveal_strlit("{");
    reveal_strlit("\n  ");
    reveal_strlit(" ");
    reveal_strlit("\"skill_name\"");
    assert(all_ws("\n  "@));
    assert(all_ws(" "@));
    let e = Seq::<char>::empty();
    let k5 = "\n"@ + ("}"@ + e);
    let k4 = ser_flag_k("\"camera\""@, m.camera, k5);
    let k3 = ser_flag_k("\"sensors\""@, m.sensors, k4);
    let k2 = ser_flag_k("\"gpu\""@, m.gpu, k3);
    let k1 = ser_flag_k("\"network\""@, m.network, k2);
    lemma_ser_manifest_k(m);
    let tail2 = " "@ + (ser_string(m.skill_name) + ser_fs_k(m.filesystem, k1));
    let tail1 = "\n  "@ + ("\"skill_name\""@ + (":"@ + tail2));
    lemma_tok_at("{"@, tail1);
    lemma_key_colon_of("\n  "@, "\"skill_name\""@, tail2);
    lemma_parse_string_of_ser(" "@, m.skill_name, ser_fs_k(m.filesystem, k1));
    lemma_parse_members_of_ser(m);
}
impl CapabilityManifest {
    /// Parses a manifest from a JSON document. A document that does not
    /// follow the schema is reported as `MalformedManifest`, never replaced
    /// by a default.
    pub fn parse(text: &str) -> (r: Result<CapabilityManifest, ParseError>)
        ensures
            r matches Ok(m) ==> parse_manifest(text@) == Some(m@),
            r matches Err(e) ==> parse_manifest(text@) is None && e
                == ParseError::MalformedManifest,
            (r is Ok) == (parse_manifest(text@) is Some),
    {
        let chars = str_to_chars(text);
        match parse_manifest_exec(&chars) {
            Some(m) => Ok(m),
            None => Err(ParseError::MalformedManifest),
        }
    }
}

} // verus!
