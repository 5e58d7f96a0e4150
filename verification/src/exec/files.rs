//! Workspace file requests: content encodings, size limits and the shape of
//! directory listings.
use vstd::prelude::*;

use crate::common::error::{api_error, ApiError};
use crate::common::jail::{display_under_workspace, shown_under};
use crate::num::{dec_text, nat_string};
use crate::text::{chars_of, eq_ignore_case, eq_nocase, extend_str, lower, lower_all, string_of};

verus! {

#[verifier::external_type_specification]
#[verifier::external_body]
pub struct ExDecodeError(base64::DecodeError);

/// The character of the standard base64 alphabet for a six-bit value.
pub open spec fn b64_digit(v: int) -> char {
    if v < 26 {
        (65 + v) as char
    } else if v < 52 {
        (97 + v - 26) as char
    } else if v < 62 {
        (48 + v - 52) as char
    } else if v == 62 {
        '+'
    } else {
        '/'
    }
}

/// Standard padded base64 text of some bytes: each group of three bytes
/// gives four characters of six bits each, high bits first; a last group of
/// one or two bytes is filled with zero bits and padded with `=`.
pub open spec fn base64_text(bytes: Seq<u8>) -> Seq<char>
    decreases bytes.len(),
{
    if bytes.len() == 0 {
        seq![]
    } else {
        let a = bytes[0] as int;
        let b = if bytes.len() > 1 { bytes[1] as int } else { 0 };
        let c = if bytes.len() > 2 { bytes[2] as int } else { 0 };
        let group = seq![
            b64_digit(a / 4),
            b64_digit((a % 4) * 16 + b / 16),
            if bytes.len() > 1 { b64_digit((b % 16) * 4 + c / 64) } else { '=' },
            if bytes.len() > 2 { b64_digit(c % 64) } else { '=' },
        ];
        if bytes.len() <= 3 {
            group
        } else {
            group + base64_text(bytes.skip(3))
        }
    }
}

/// What standard padded base64 decoding makes of some bytes, if they are
/// valid base64.
pub uninterp spec fn base64_decoded(input: Seq<u8>) -> Option<Seq<u8>>;

/// A character of the standard base64 alphabet, padding included.
pub open spec fn b64_char(c: char) -> bool {
    ('A' <= c && c <= 'Z') || ('a' <= c && c <= 'z') || ('0' <= c && c <= '9') || c == '+' || c
        == '/' || c == '='
}

/// `base64::engine::general_purpose::STANDARD.encode`: the standard padded
/// base64 text of the input; the same engine decodes that text back to the
/// input (its output is canonical). It panics only when the output length
/// overflows `usize`.
#[verifier::external_body]
fn standard_encode(input: &[u8]) -> (s: String)
    requires
        input@.len() < usize::MAX / 2,
    ensures
        s@ == base64_text(input@),
        base64_decoded(vstd::utf8::encode_utf8(s@)) == Some(input@),
{
    base64::Engine::encode(&base64::engine::general_purpose::STANDARD, input)
}

proof fn lemma_b64_digit(v: int)
    requires
        0 <= v < 64,
    ensures
        b64_char(b64_digit(v)),
        b64_digit(v) != '=',
{
}

/// Base64 text has four characters per started group of three bytes, all of
/// the standard alphabet.
pub proof fn lemma_base64_shape(bytes: Seq<u8>)
    ensures
        base64_text(bytes).len() == 4 * ((bytes.len() + 2) / 3),
        forall|i: int| 0 <= i < base64_text(bytes).len() ==> b64_char(#[trigger] base64_text(bytes)[i]),
    decreases bytes.len(),
{
    if bytes.len() > 0 {
        let a = bytes[0] as int;
        let b = if bytes.len() > 1 { bytes[1] as int } else { 0 };
        let c = if bytes.len() > 2 { bytes[2] as int } else { 0 };
        lemma_b64_digit(a / 4);
        lemma_b64_digit((a % 4) * 16 + b / 16);
        lemma_b64_digit((b % 16) * 4 + c / 64);
        lemma_b64_digit(c % 64);
        if bytes.len() > 3 {
            let rest = bytes.skip(3);
            lemma_base64_shape(rest);
            let t = base64_text(bytes);
            let r = base64_text(rest);
            assert forall|i: int| 0 <= i < t.len() implies b64_char(#[trigger] t[i]) by {
                if i >= 4 {
                    assert(t[i] == r[i - 4]);
                }
            }
        }
    }
}

/// Standard padded base64 of the bytes.
pub fn b64_encode(input: &[u8]) -> (s: String)
    requires
        input@.len() < usize::MAX / 2,
    ensures
        s@ == base64_text(input@),
        s@.len() == 4 * ((input@.len() + 2) / 3),
        forall|i: int| 0 <= i < s@.len() ==> b64_char(#[trigger] s@[i]),
        base64_decoded(vstd::utf8::encode_utf8(s@)) == Some(input@),
{
    proof {
        lemma_base64_shape(input@);
    }
    standard_encode(input)
}

/// `base64::engine::general_purpose::STANDARD.decode`.
#[verifier::external_body]
fn b64_decode_raw(input: &[u8]) -> (r: Result<Vec<u8>, base64::DecodeError>)
    ensures
        match r {
            Ok(v) => base64_decoded(input@) == Some(v@),
            Err(_) => base64_decoded(input@) is None,
        },
{
    base64::Engine::decode(&base64::engine::general_purpose::STANDARD, input)
}

/// ASCII whitespace as `u8::is_ascii_whitespace` knows it.
pub open spec fn ascii_ws(b: u8) -> bool {
    b == 0x20 || b == 0x09 || b == 0x0a || b == 0x0c || b == 0x0d
}

/// The bytes that are not ASCII whitespace, in order.
pub open spec fn strip_ws(s: Seq<u8>) -> Seq<u8>
    decreases s.len(),
{
    if s.len() == 0 {
        s
    } else if ascii_ws(s.last()) {
        strip_ws(s.drop_last())
    } else {
        strip_ws(s.drop_last()).push(s.last())
    }
}

/// Decode base64 after dropping ASCII whitespace.
pub fn b64_decode(input: &str) -> (r: Result<Vec<u8>, &'static str>)
    ensures
        match base64_decoded(strip_ws(vstd::utf8::encode_utf8(input@))) {
            Some(v) => r is Ok && r->Ok_0@ == v,
            None => r == Err::<Vec<u8>, &'static str>("invalid base64"),
        },
{
    let b = input.as_bytes();
    let mut filtered: Vec<u8> = Vec::new();
    let mut i: usize = 0;
    while i < b.len()
        invariant
            i <= b@.len(),
            filtered@ == strip_ws(b@.take(i as int)),
        decreases b@.len() - i,
    {
        assert(b@.take(i + 1).drop_last() =~= b@.take(i as int));
        let c = b[i];
        if !(c == 0x20 || c == 0x09 || c == 0x0a || c == 0x0c || c == 0x0d) {
            filtered.push(c);
        }
        i = i + 1;
    }
    assert(b@.take(b@.len() as int) =~= b@);
    match b64_decode_raw(filtered.as_slice()) {
        Ok(v) => Ok(v),
        Err(_) => Err("invalid base64"),
    }
}

/// The text `String::from_utf8` gives, when the bytes are valid UTF-8.
#[verifier::external_body]
fn utf8_string(bytes: Vec<u8>) -> (r: Result<String, Vec<u8>>)
    ensures
        match r {
            Ok(s) => vstd::utf8::valid_utf8(bytes@) && s@ == vstd::utf8::decode_utf8(bytes@),
            Err(b) => !vstd::utf8::valid_utf8(bytes@) && b@ == bytes@,
        },
{
    String::from_utf8(bytes).map_err(|e| e.into_bytes())
}

/// How file content is sent back, as the contracts see it.
pub open spec fn content_of(bytes: Seq<u8>, want: Seq<char>) -> Option<(Seq<char>, Seq<char>)> {
    if eq_nocase(want, "base64"@) {
        Some(("base64"@, base64_text(bytes)))
    } else if eq_nocase(want, "utf8"@) || eq_nocase(want, "text"@) {
        if vstd::utf8::valid_utf8(bytes) {
            Some(("utf8"@, vstd::utf8::decode_utf8(bytes)))
        } else {
            Some(("base64"@, base64_text(bytes)))
        }
    } else {
        None
    }
}

fn eq_nocase_str(a: &str, b: &str) -> (r: bool)
    ensures
        r == eq_nocase(a@, b@),
{
    let ca = chars_of(a);
    let cb = chars_of(b);
    eq_ignore_case(ca.as_slice(), cb.as_slice())
}

/// The bytes a `PUT` writes for `content` in `encoding`, or `None` when it
/// refuses them.
pub open spec fn put_decoded(content: Seq<char>, encoding: Seq<char>) -> Option<Seq<u8>> {
    if eq_nocase(encoding, "utf8"@) || eq_nocase(encoding, "text"@) {
        Some(vstd::utf8::encode_utf8(content))
    } else if eq_nocase(encoding, "base64"@) {
        base64_decoded(strip_ws(vstd::utf8::encode_utf8(content)))
    } else {
        None
    }
}

/// Text written with `encoding: utf8` (or `text`) is read back with the same
/// encoding exactly as it was written.
pub proof fn law_text_written_reads_back(content: Seq<char>, encoding: Seq<char>)
    requires
        eq_nocase(encoding, "utf8"@) || eq_nocase(encoding, "text"@),
    ensures
        put_decoded(content, encoding) == Some(vstd::utf8::encode_utf8(content)),
        content_of(vstd::utf8::encode_utf8(content), encoding) == Some(("utf8"@, content)),
{
    reveal_strlit("base64");
    reveal_strlit("utf8");
    reveal_strlit("text");
    vstd::utf8::encode_utf8_valid_utf8(content);
    vstd::utf8::encode_utf8_decode_utf8(content);
    assert(!eq_nocase(encoding, "base64"@)) by {
        if eq_nocase(encoding, "base64"@) {
            assert(lower("base64"@).len() != lower("utf8"@).len());
            assert(lower("base64"@).len() != lower("text"@).len());
        }
    }
}

proof fn lemma_strip_ws_none(s: Seq<u8>)
    requires
        forall|i: int| 0 <= i < s.len() ==> !ascii_ws(#[trigger] s[i]),
    ensures
        strip_ws(s) == s,
    decreases s.len(),
{
    if s.len() > 0 {
        let d = s.drop_last();
        assert forall|i: int| 0 <= i < d.len() implies !ascii_ws(#[trigger] d[i]) by {
            assert(d[i] == s[i]);
        }
        lemma_strip_ws_none(d);
        assert(!ascii_ws(s[s.len() - 1]));
        assert(d.push(s.last()) =~= s);
    }
}

proof fn lemma_b64_text_unchanged(t: Seq<char>)
    requires
        forall|i: int| 0 <= i < t.len() ==> b64_char(#[trigger] t[i]),
    ensures
        strip_ws(vstd::utf8::encode_utf8(t)) == vstd::utf8::encode_utf8(t),
{
    assert(vstd::utf8::is_ascii_chars(t)) by {
        assert forall|i: int| 0 <= i < t.len() implies '\0' <= #[trigger] t[i] <= '\u{7f}' by {
            assert(b64_char(t[i]));
        }
    }
    vstd::utf8::is_ascii_chars_encode_utf8(t);
    let e = vstd::utf8::encode_utf8(t);
    assert forall|i: int| 0 <= i < e.len() implies !ascii_ws(#[trigger] e[i]) by {
        assert(b64_char(t[i]));
        assert(t[i] as u8 == e[i]);
    }
    lemma_strip_ws_none(e);
}

/// A file's content in the encoding asked for: base64, or UTF-8 text that
/// falls back to base64 when the bytes are not UTF-8; any other encoding is
/// refused.
pub fn encode_content(bytes: Vec<u8>, want: &str) -> (r: Result<(&'static str, String), ApiError>)
    requires
        bytes@.len() < usize::MAX / 2,
    ensures
        match content_of(bytes@, want@) {
            Some((e, c)) => r is Ok && r->Ok_0.0@ == e && r->Ok_0.1@ == c,
            None => r is Err && api_error(
                r->Err_0,
                400,
                "invalid_request"@,
                "unsupported encoding '"@ + want@ + "'"@,
            ),
        },
        r matches Ok((e, c)) ==> put_decoded(c@, e@) == Some(bytes@),
{
    proof {
        reveal_strlit("base64");
        reveal_strlit("utf8");
        reveal_strlit("text");
        assert(!eq_nocase("base64"@, "utf8"@)) by {
            assert(lower("base64"@).len() != lower("utf8"@).len());
        }
        assert(!eq_nocase("base64"@, "text"@)) by {
            assert(lower("base64"@).len() != lower("text"@).len());
        }
    }
    if eq_nocase_str(want, "base64") {
        let c = b64_encode(bytes.as_slice());
        proof {
            lemma_b64_text_unchanged(c@);
        }
        return Ok(("base64", c));
    }
    if eq_nocase_str(want, "utf8") || eq_nocase_str(want, "text") {
        let ghost bv = bytes@;
        return match utf8_string(bytes) {
            Ok(text) => {
                proof {
                    vstd::utf8::decode_utf8_encode_utf8(bv);
                }
                Ok(("utf8", text))
            },
            Err(raw) => {
                let c = b64_encode(raw.as_slice());
                proof {
                    lemma_b64_text_unchanged(c@);
                }
                Ok(("base64", c))
            },
        };
    }
    let mut v: Vec<char> = Vec::new();
    extend_str(&mut v, "unsupported encoding '");
    extend_str(&mut v, want);
    extend_str(&mut v, "'");
    Err(ApiError::invalid_request(string_of(v.as_slice())))
}

/// The bytes to write for a `PUT`: the text as is for `utf8`/`text`, decoded
/// for `base64`; any other encoding is refused.
pub fn decode_put_content(content: String, encoding: &str) -> (r: Result<Vec<u8>, ApiError>)
    ensures
        match put_decoded(content@, encoding@) {
            Some(b) => r is Ok && r->Ok_0@ == b,
            None => r is Err,
        },
        (eq_nocase(encoding@, "utf8"@) || eq_nocase(encoding@, "text"@)) ==> r is Ok && r->Ok_0@
            == vstd::utf8::encode_utf8(content@),
        !(eq_nocase(encoding@, "utf8"@) || eq_nocase(encoding@, "text"@)) && eq_nocase(
            encoding@,
            "base64"@,
        ) ==> match base64_decoded(strip_ws(vstd::utf8::encode_utf8(content@))) {
            Some(v) => r is Ok && r->Ok_0@ == v,
            None => r is Err && api_error(r->Err_0, 400, "invalid_request"@, "invalid base64"@),
        },
        !(eq_nocase(encoding@, "utf8"@) || eq_nocase(encoding@, "text"@) || eq_nocase(
            encoding@,
            "base64"@,
        )) ==> r is Err && api_error(
            r->Err_0,
            400,
            "invalid_request"@,
            "unsupported encoding '"@ + encoding@ + "'"@,
        ),
{
    if eq_nocase_str(encoding, "utf8") || eq_nocase_str(encoding, "text") {
        return Ok(string_bytes(content));
    }
    if eq_nocase_str(encoding, "base64") {
        return match b64_decode(content.as_str()) {
            Ok(v) => Ok(v),
            Err(m) => Err(ApiError::invalid_request(m.to_owned())),
        };
    }
    let mut v: Vec<char> = Vec::new();
    extend_str(&mut v, "unsupported encoding '");
    extend_str(&mut v, encoding);
    extend_str(&mut v, "'");
    Err(ApiError::invalid_request(string_of(v.as_slice())))
}

/// `String::into_bytes`: the UTF-8 encoding of the text.
#[verifier::external_body]
fn string_bytes(s: String) -> (b: Vec<u8>)
    ensures
        b@ == vstd::utf8::encode_utf8(s@),
{
    s.into_bytes()
}

/// A file or payload larger than the limit is refused.
pub fn check_size(what: &str, len: u64, max: u64) -> (r: Result<(), ApiError>)
    ensures
        len <= max ==> r is Ok,
        len > max ==> r is Err && api_error(
            r->Err_0,
            413,
            "payload_too_large"@,
            what@ + " is "@ + dec_text(len as nat) + " bytes; max is "@ + dec_text(max as nat),
        ),
{
    if len <= max {
        return Ok(());
    }
    let mut v: Vec<char> = Vec::new();
    extend_str(&mut v, what);
    extend_str(&mut v, " is ");
    extend_str(&mut v, nat_string(len).as_str());
    extend_str(&mut v, " bytes; max is ");
    extend_str(&mut v, nat_string(max).as_str());
    Err(ApiError::payload_too_large(string_of(v.as_slice())))
}

/// `recursive=1`, `true` or `yes`, in any case.
pub open spec fn recursive_on(raw: Option<Seq<char>>) -> bool {
    match raw {
        Some(r) => lower(r) == "1"@ || lower(r) == "true"@ || lower(r) == "yes"@,
        None => false,
    }
}

pub fn recursive_flag(raw: Option<&str>) -> (b: bool)
    ensures
        b == recursive_on(
            match raw {
                Some(r) => Some(r@),
                None => None,
            },
        ),
{
    match raw {
        None => false,
        Some(r) => {
            let l = lower_all(chars_of(r).as_slice());
            let one = chars_of("1");
            let t = chars_of("true");
            let y = chars_of("yes");
            crate::text::chars_eq(l.as_slice(), one.as_slice()) || crate::text::chars_eq(
                l.as_slice(),
                t.as_slice(),
            ) || crate::text::chars_eq(l.as_slice(), y.as_slice())
        },
    }
}

/// One entry of a directory listing.
#[derive(Debug, Clone)]
pub struct DirEntry {
    pub name: String,
    pub kind: &'static str,
    pub size: Option<u64>,
}

/// What a directory entry is.
pub fn entry_kind(is_dir: bool, is_symlink: bool) -> (k: &'static str)
    ensures
        is_dir ==> k@ == "directory"@,
        !is_dir && is_symlink ==> k@ == "symlink"@,
        !is_dir && !is_symlink ==> k@ == "file"@,
{
    if is_dir {
        "directory"
    } else if is_symlink {
        "symlink"
    } else {
        "file"
    }
}

/// `a` sorts before or with `b`: lexicographic order of code points, which
/// is the byte order of their UTF-8 text.
pub open spec fn name_le(a: Seq<char>, b: Seq<char>) -> bool
    decreases a.len(),
{
    if a.len() == 0 {
        true
    } else if b.len() == 0 {
        false
    } else if a[0] != b[0] {
        (a[0] as u32) < (b[0] as u32)
    } else {
        name_le(a.drop_first(), b.drop_first())
    }
}

pub open spec fn names_sorted(s: Seq<DirEntry>) -> bool {
    forall|i: int, j: int| 0 <= i < j < s.len() ==> name_le(#[trigger] s[i].name@, #[trigger] s[j].name@)
}

/// `slice::sort_by` on the names: a stable sort by `String` order, which
/// is the order of `name_le`.
#[verifier::external_body]
fn sort_entries(entries: &mut Vec<DirEntry>)
    ensures
        final(entries)@.to_multiset() == old(entries)@.to_multiset(),
        names_sorted(final(entries)@),
{
    entries.sort_by(|a, b| a.name.cmp(&b.name))
}

/// A file request's kind of response, as sent back.
#[derive(Debug)]
pub enum FileGetResponse {
    File { path: String, size: u64, encoding: &'static str, content: String },
    Directory { path: String, entries: Vec<DirEntry> },
}

/// A directory listing as sent back: the directory shown under the
/// workspace, and its entries sorted by name.
pub fn directory_response(workspace: &str, resolved: &str, entries: Vec<DirEntry>) -> (r:
    FileGetResponse)
    ensures
        (r matches FileGetResponse::Directory { path, entries: out } && path@ == shown_under(
            workspace@,
            resolved@,
        ) && out@.to_multiset() == entries@.to_multiset() && names_sorted(out@)),
{
    let mut entries = entries;
    sort_entries(&mut entries);
    FileGetResponse::Directory { path: display_under_workspace(workspace, resolved), entries }
}

/// The encoding a file request asks for; `utf8` when it names none.
pub open spec fn wanted_encoding(encoding: Option<Seq<char>>) -> Seq<char> {
    match encoding {
        Some(e) => e,
        None => "utf8"@,
    }
}

/// A file as sent back: shown under the workspace, its size, and its
/// content in the encoding asked for.
pub fn file_response(
    workspace: &str,
    resolved: &str,
    size: u64,
    bytes: Vec<u8>,
    encoding: Option<&str>,
) -> (r: Result<FileGetResponse, ApiError>)
    requires
        bytes@.len() < usize::MAX / 2,
    ensures
        match content_of(
            bytes@,
            wanted_encoding(
                match encoding {
                    Some(e) => Some(e@),
                    None => None,
                },
            ),
        ) {
            Some((e, c)) => (r matches Ok(FileGetResponse::File { path, size: n, encoding: en, content })
                && path@ == shown_under(workspace@, resolved@) && n == size && en@ == e && content@
                == c),
            None => r is Err && api_error(
                r->Err_0,
                400,
                "invalid_request"@,
                "unsupported encoding '"@ + wanted_encoding(
                    match encoding {
                        Some(e) => Some(e@),
                        None => None,
                    },
                ) + "'"@,
            ),
        },
{
    let want = match encoding {
        Some(e) => e,
        None => "utf8",
    };
    proof {
        reveal_strlit("utf8");
    }
    let (enc, content) = encode_content(bytes, want)?;
    Ok(FileGetResponse::File { path: display_under_workspace(workspace, resolved), size, encoding: enc, content })
}

#[derive(Debug)]
pub struct FileQuery {
    pub path: Option<String>,
    pub encoding: Option<String>,
}

#[derive(Debug)]
pub struct FilePutRequest {
    pub path: String,
    pub content: String,
    pub encoding: Option<String>,
    pub create_dirs: Option<bool>,
}

#[derive(Debug)]
pub struct FilePutResponse {
    pub path: String,
    pub bytes_written: u64,
}

#[derive(Debug)]
pub struct FileDeleteQuery {
    pub path: Option<String>,
    pub recursive: Option<String>,
}

#[derive(Debug)]
pub struct FileDeleteResponse {
    pub path: String,
    pub deleted: bool,
}

#[derive(Debug)]
pub struct MkdirRequest {
    pub path: String,
    pub parents: Option<bool>,
}

#[derive(Debug)]
pub struct MkdirResponse {
    pub path: String,
    pub created: bool,
}

#[derive(Debug)]
pub struct RenameRequest {
    pub from: String,
    pub to: String,
}

#[derive(Debug)]
pub struct RenameResponse {
    pub from: String,
    pub to: String,
}

} // verus!
