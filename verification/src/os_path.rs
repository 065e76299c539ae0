//! File paths as texts that say which platform wrote them.

use vstd::prelude::*;
use vstd::string::StringExecFns;

use crate::data::{z85_bytes, z85_decode, z85_encode, z85_text};
use crate::text::{chars_of, joined, str_eq, text_between};

verus! {

broadcast use vstd::string::group_string_axioms;

/// The tag of a platform: the version of the compiler, and its target.
pub open spec fn platform_tag(version: Seq<char>, target: Seq<char>) -> Seq<char> {
    version + "/"@ + target
}

/// The tag of a platform.
pub fn format_tag(version: &str, target: &str) -> (r: String)
    ensures
        r@ == platform_tag(version@, target@),
{
    let mut out = joined(version, "/");
    out.append(target);
    out
}

/// A file path.
#[derive(Debug, Clone)]
pub enum OsPath {
    Text(String),
    /// Bytes that only the platform understands.
    Bytes(Vec<u8>),
}

/// Why a stored path cannot be read.
#[derive(Debug, Clone)]
pub enum PathError {
    /// The text, which has no tag.
    Invalid(String),
    /// The message of the decoder.
    Encoding(String),
    /// The tag of this platform, and that of the one that wrote the path.
    Incompatible(String, String),
}

impl PathError {
    /// The message of the error.
    pub open spec fn text(self) -> Seq<char> {
        match self {
            PathError::Invalid(path) => "Invalid path "@ + path@,
            PathError::Encoding(message) => message@,
            PathError::Incompatible(expected, version) => "Incompatible path format\nExpected "@
                + expected@ + "\nGot "@ + version@,
        }
    }

    /// The message of the error.
    pub fn message(&self) -> (r: String)
        ensures
            r@ == self.text(),
    {
        match self {
            PathError::Invalid(path) => joined("Invalid path ", path.as_str()),
            PathError::Encoding(message) => message.clone(),
            PathError::Incompatible(expected, version) => {
                let mut out = joined("Incompatible path format\nExpected ", expected.as_str());
                out.append("\nGot ");
                out.append(version.as_str());
                out
            },
        }
    }
}

/// The position of the first comma, or the length where there is none.
pub open spec fn first_comma(text: Seq<char>) -> int
    decreases text.len(),
{
    if text.len() == 0 {
        0
    } else if text[0] == ',' {
        0
    } else {
        1 + first_comma(text.drop_first())
    }
}

/// The first comma is one, and nothing before it is.
proof fn lemma_first_comma(text: Seq<char>)
    ensures
        0 <= first_comma(text) <= text.len(),
        first_comma(text) < text.len() ==> text[first_comma(text)] == ',',
        forall|k: int| 0 <= k < first_comma(text) ==> #[trigger] text[k] != ',',
    decreases text.len(),
{
    if text.len() > 0 && text[0] != ',' {
        let rest = text.drop_first();
        lemma_first_comma(rest);
        assert forall|k: int| 0 <= k < first_comma(text) implies #[trigger] text[k] != ',' by {
            if k > 0 {
                assert(rest[k - 1] == text[k]);
            }
        }
    }
}

/// The only position of a comma that has none before it is the first.
proof fn lemma_first_comma_unique(text: Seq<char>, at: int)
    requires
        0 <= at < text.len(),
        text[at] == ',',
        forall|k: int| 0 <= k < at ==> #[trigger] text[k] != ',',
    ensures
        first_comma(text) == at,
{
    lemma_first_comma(text);
    if first_comma(text) < at {
        assert(text[first_comma(text)] != ',');
    }
}

/// Whether a path is what the given bytes stand for.
pub open spec fn path_of(bytes: Seq<u8>, path: OsPath) -> bool {
    if vstd::utf8::valid_utf8(bytes) {
        path is Text && path->Text_0@ == vstd::utf8::decode_utf8(bytes)
    } else {
        path is Bytes && path->Bytes_0@ == bytes
    }
}

/// Whether `outcome` is what a stored text means to a platform.
pub open spec fn decodes_to(
    stored: Seq<char>,
    tag: Seq<char>,
    outcome: Result<OsPath, PathError>,
) -> bool {
    let at = first_comma(stored);
    if at == stored.len() {
        &&& outcome is Err
        &&& outcome->Err_0 is Invalid
        &&& outcome->Err_0->Invalid_0@ == stored
    } else {
        let version = stored.take(at);
        match z85_bytes(vstd::utf8::encode_utf8(stored.skip(at + 1))) {
            Err(message) => {
                &&& outcome is Err
                &&& outcome->Err_0 is Encoding
                &&& outcome->Err_0->Encoding_0@ == message
            },
            Ok(bytes) => if vstd::utf8::valid_utf8(bytes) || version == tag {
                outcome is Ok && path_of(bytes, outcome->Ok_0)
            } else {
                &&& outcome is Err
                &&& outcome->Err_0 is Incompatible
                &&& outcome->Err_0->Incompatible_0@ == tag
                &&& outcome->Err_0->Incompatible_1@ == version
            },
        }
    }
}

/// The bytes of a path.
pub open spec fn path_bytes(path: OsPath) -> Seq<u8> {
    match path {
        OsPath::Text(text) => vstd::utf8::encode_utf8(text@),
        OsPath::Bytes(bytes) => bytes@,
    }
}

/// `String::from_utf8`: the text where the bytes are valid UTF-8, and the bytes
/// as they were where they are not.
#[verifier::external_body]
fn text_from_utf8(bytes: Vec<u8>) -> (r: Result<String, Vec<u8>>)
    ensures
        match r {
            Ok(text) => vstd::utf8::valid_utf8(bytes@) && text@ == vstd::utf8::decode_utf8(bytes@),
            Err(same) => !vstd::utf8::valid_utf8(bytes@) && same@ == bytes@,
        },
{
    String::from_utf8(bytes).map_err(|err| err.into_bytes())
}

fn copy_bytes(bytes: &[u8]) -> (r: Vec<u8>)
    ensures
        r@ == bytes@,
{
    let mut out: Vec<u8> = Vec::new();
    let mut i: usize = 0;
    while i < bytes.len()
        invariant
            i <= bytes@.len(),
            out@ == bytes@.take(i as int),
        decreases bytes@.len() - i,
    {
        out.push(bytes[i]);
        i += 1;
        assert(out@ =~= bytes@.take(i as int));
    }
    assert(bytes@.take(i as int) =~= bytes@);
    out
}

/// Packs a path into a text that can be stored. A platform whose tag has no
/// comma reads from it what it has written.
pub fn encode_path(path: &OsPath, tag: &str) -> (r: String)
    ensures
        r@ == tag@ + ","@ + z85_text(path_bytes(*path)),
        !tag@.contains(',') ==> forall|outcome: Result<OsPath, PathError>| #[trigger]
            decodes_to(r@, tag@, outcome) ==> outcome is Ok && path_of(
                path_bytes(*path),
                outcome->Ok_0,
            ),
{
    let bytes = match path {
        OsPath::Text(text) => copy_bytes(text.as_str().as_bytes()),
        OsPath::Bytes(bytes) => bytes.clone(),
    };
    assert(bytes@ =~= path_bytes(*path));
    let packed = z85_encode(&bytes);
    let mut out = joined(tag, ",");
    out.append(packed.as_str());
    proof {
        reveal_strlit(",");
        if !tag@.contains(',') {
            assert forall|k: int| 0 <= k < tag@.len() implies #[trigger] out@[k] != ',' by {
                assert(out@[k] == tag@[k]);
            }
            lemma_first_comma_unique(out@, tag@.len() as int);
            assert(out@.skip(tag@.len() as int + 1) =~= packed@);
            assert(out@.take(tag@.len() as int) =~= tag@);
        }
    }
    out
}

/// Unpacks a stored path. Bytes that are not text are only taken from the same
/// platform.
pub fn decode_path(path: &str, tag: &str) -> (r: Result<OsPath, PathError>)
    ensures
        decodes_to(path@, tag@, r),
{
    let chars = chars_of(path);
    let mut at: usize = 0;
    proof {
        lemma_first_comma(path@);
    }
    while at < chars.len() && chars[at] != ','
        invariant
            chars@ == path@,
            at <= first_comma(path@) <= path@.len(),
            first_comma(path@) < path@.len() ==> path@[first_comma(path@)] == ',',
        decreases chars@.len() - at,
    {
        at += 1;
    }
    proof {
        if at < chars@.len() {
            assert(at == first_comma(path@));
        }
    }
    if at == chars.len() {
        return Err(PathError::Invalid(path.to_owned()));
    }
    let version = text_between(&chars, 0, at);
    assert(version@ =~= path@.take(at as int));
    let text = text_between(&chars, at + 1, chars.len());
    assert(text@ =~= path@.skip(at + 1));
    let bytes = match z85_decode(text.as_str()) {
        Ok(bytes) => bytes,
        Err(message) => {
            return Err(PathError::Encoding(message));
        },
    };
    match text_from_utf8(bytes) {
        Ok(text) => Ok(OsPath::Text(text)),
        Err(bytes) => {
            if !str_eq(version.as_str(), tag) {
                return Err(PathError::Incompatible(tag.to_owned(), version));
            }
            Ok(OsPath::Bytes(bytes))
        },
    }
}

/// A path that is text comes back as the same text.
pub proof fn law_text_is_kept(text: String, path: OsPath)
    requires
        path_of(path_bytes(OsPath::Text(text)), path),
    ensures
        path is Text,
        path->Text_0@ == text@,
{
    vstd::utf8::encode_utf8_valid_utf8(text@);
    vstd::utf8::encode_utf8_decode_utf8(text@);
}

/// What is stored of a path: the tag, a comma, and the packed bytes of the path,
/// which are those of its text where it is text.
pub proof fn law_stored_path_has_the_tag(path: &OsPath, tag: &str, r: String)
    requires
        call_ensures(encode_path, (path, tag), r),
    ensures
        r@ == tag@ + ","@ + z85_text(
            match path {
                OsPath::Text(text) => vstd::utf8::encode_utf8(text@),
                OsPath::Bytes(bytes) => bytes@,
            },
        ),
{
}

/// What a platform has stored it reads back, text as text; and bytes that are not
/// text as the same bytes.
pub proof fn law_stored_path_comes_back(
    path: &OsPath,
    tag: &str,
    stored: String,
    text: &str,
    r: Result<OsPath, PathError>,
)
    requires
        !tag@.contains(','),
        call_ensures(encode_path, (path, tag), stored),
        text@ == stored@,
        call_ensures(decode_path, (text, tag), r),
    ensures
        r is Ok,
        path is Text ==> r->Ok_0 is Text && r->Ok_0->Text_0@ == path->Text_0@,
        path is Bytes && !vstd::utf8::valid_utf8(path->Bytes_0@) ==> r->Ok_0 is Bytes
            && r->Ok_0->Bytes_0@ == path->Bytes_0@,
        path is Bytes && vstd::utf8::valid_utf8(path->Bytes_0@) ==> r->Ok_0 is Text
            && vstd::utf8::encode_utf8(r->Ok_0->Text_0@) == path->Bytes_0@,
{
    assert(decodes_to(stored@, tag@, r));
    match path {
        OsPath::Text(text) => {
            vstd::utf8::encode_utf8_valid_utf8(text@);
            vstd::utf8::encode_utf8_decode_utf8(text@);
        },
        OsPath::Bytes(bytes) => {
            if vstd::utf8::valid_utf8(bytes@) {
                vstd::utf8::decode_utf8_encode_utf8(bytes@);
            }
        },
    }
}

/// How a stored text is read. What stands before the first comma is the tag of the
/// platform that wrote it. Without a comma it is no stored path; bytes that are not
/// text are taken from the same platform only, and text from any.
pub proof fn law_how_a_stored_path_is_read(
    stored: &str,
    tag: &str,
    at: int,
    r: Result<OsPath, PathError>,
)
    requires
        call_ensures(decode_path, (stored, tag), r),
        0 <= at <= stored@.len(),
        forall|k: int| 0 <= k < at ==> #[trigger] stored@[k] != ',',
        at < stored@.len() ==> stored@[at] == ',',
    ensures
        at == stored@.len() ==> r is Err && r->Err_0 is Invalid && r->Err_0->Invalid_0@ == stored@,
        at < stored@.len() ==> match z85_bytes(vstd::utf8::encode_utf8(stored@.skip(at + 1))) {
            Err(message) => r is Err && r->Err_0 is Encoding && r->Err_0->Encoding_0@ == message,
            Ok(bytes) => {
                let same = stored@.take(at) == tag@;
                &&& vstd::utf8::valid_utf8(bytes) ==> r is Ok && r->Ok_0 is Text
                    && r->Ok_0->Text_0@ == vstd::utf8::decode_utf8(bytes)
                &&& !vstd::utf8::valid_utf8(bytes) && same ==> r is Ok && r->Ok_0 is Bytes
                    && r->Ok_0->Bytes_0@ == bytes
                &&& !vstd::utf8::valid_utf8(bytes) && !same ==> r is Err && r->Err_0 is Incompatible
                    && r->Err_0->Incompatible_0@ == tag@ && r->Err_0->Incompatible_1@
                    == stored@.take(at)
            },
        },
{
    lemma_first_comma(stored@);
    if at < stored@.len() {
        lemma_first_comma_unique(stored@, at);
    } else if first_comma(stored@) < stored@.len() {
        assert(stored@[first_comma(stored@)] != ',');
    }
}

/// The tag of a platform names the compiler and the target. What is said of a path
/// that cannot be read names the path, the decoder's complaint, or both tags.
pub proof fn law_tags_and_messages(
    version: &str,
    target: &str,
    tag: String,
    error: &PathError,
    r: String,
)
    requires
        call_ensures(format_tag, (version, target), tag),
        call_ensures(PathError::message, (error,), r),
    ensures
        tag@ == version@ + "/"@ + target@,
        error is Invalid ==> r@ == "Invalid path "@ + error->Invalid_0@,
        error is Encoding ==> r@ == error->Encoding_0@,
        error is Incompatible ==> r@ == "Incompatible path format\nExpected "@
            + error->Incompatible_0@ + "\nGot "@ + error->Incompatible_1@,
{
}

} // verus!
