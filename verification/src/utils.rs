//! Text helpers and the rules for serving static files.

use crate::response::{content_type, content_type_header, HttpResponse, ResponseView};
use vstd::prelude::*;
use vstd::string::*;
use vstd::utf8::{decode_utf8, valid_utf8};

verus! {

/// Calls `str::starts_with` with a string pattern: whether the characters
/// of `prefix` stand at the start of `text`.
#[verifier::external_body]
pub(crate) fn starts_with(text: &str, prefix: &str) -> (b: bool)
    ensures
        b == prefix@.is_prefix_of(text@),
{
    text.starts_with(prefix)
}

/// Calls `str::ends_with` with a string pattern: whether the characters
/// of `suffix` stand at the end of `text`.
#[verifier::external_body]
pub(crate) fn ends_with(text: &str, suffix: &str) -> (b: bool)
    ensures
        b == suffix@.is_suffix_of(text@),
{
    text.ends_with(suffix)
}

/// The text that `String::from_utf8_lossy` makes of `bytes`.
pub uninterp spec fn utf8_lossy(bytes: Seq<u8>) -> Seq<char>;

/// Calls `String::from_utf8_lossy`: the text of `bytes`, in which each
/// invalid sequence is replaced. The result is only named, but for valid
/// UTF-8, which is decoded as it stands.
#[verifier::external_body]
pub(crate) fn lossy_text(bytes: &[u8]) -> (text: String)
    ensures
        text@ == utf8_lossy(bytes@),
        valid_utf8(bytes@) ==> text@ == decode_utf8(bytes@),
{
    String::from_utf8_lossy(bytes).into_owned()
}

/// Calls `std::str::from_utf8`: the text that `bytes` encode, where they
/// are valid UTF-8, and nothing where they are not.
#[verifier::external_body]
pub(crate) fn decode(bytes: &[u8]) -> (text: Option<&str>)
    ensures
        text is Some <==> valid_utf8(bytes@),
        text matches Some(s) ==> s@ == decode_utf8(bytes@),
{
    std::str::from_utf8(bytes).ok()
}

/// `s` without its occurrences of `..`, taken from the left and without
/// overlap. This removes characters; it does not resolve a path.
pub open spec fn without_parent_refs(s: Seq<char>) -> Seq<char>
    decreases s.len(),
{
    if s.len() == 0 {
        s
    } else if s.len() >= 2 && s[0] == '.' && s[1] == '.' {
        without_parent_refs(s.subrange(2, s.len() as int))
    } else {
        seq![s[0]] + without_parent_refs(s.drop_first())
    }
}

/// Two dots stand side by side somewhere in `s`.
pub open spec fn has_parent_ref(s: Seq<char>) -> bool {
    exists|i: int| 0 <= i < s.len() - 1 && s[i] == '.' && #[trigger] s[i + 1] == '.'
}

/// What is left after the removal holds no `..`.
pub proof fn lemma_no_parent_ref_left(s: Seq<char>)
    ensures
        !has_parent_ref(without_parent_refs(s)),
    decreases s.len(),
{
    let out = without_parent_refs(s);
    if s.len() == 0 {
    } else if s.len() >= 2 && s[0] == '.' && s[1] == '.' {
        lemma_no_parent_ref_left(s.subrange(2, s.len() as int));
    } else {
        let rest = s.drop_first();
        let tail = without_parent_refs(rest);
        lemma_no_parent_ref_left(rest);
        assert(out == seq![s[0]] + tail);
        if rest.len() > 0 && !(rest.len() >= 2 && rest[0] == '.' && rest[1] == '.') {
            assert(tail[0] == rest[0]);
        }
        assert forall|i: int| 0 <= i < out.len() - 1 && out[i] == '.' implies #[trigger] out[i
            + 1] != '.' by {
            if i == 0 {
                if s.len() >= 2 && s[1] == '.' {
                    assert(s[0] != '.');
                } else if tail.len() > 0 {
                    assert(rest.len() > 0);
                    assert(rest[0] == s[1]);
                    if rest.len() >= 2 && rest[0] == '.' && rest[1] == '.' {
                    } else {
                        assert(out[1] == tail[0]);
                    }
                }
            } else {
                assert(out[i] == tail[i - 1]);
                assert(out[i + 1] == tail[i - 1 + 1]);
            }
        }
    }
}

/// A path without `..` is left as it is.
pub proof fn lemma_clean_path_unchanged(s: Seq<char>)
    requires
        !has_parent_ref(s),
    ensures
        without_parent_refs(s) == s,
    decreases s.len(),
{
    if s.len() == 0 {
    } else {
        if s.len() >= 2 {
            assert(s[0int + 1] == s[1]);
        }
        let rest = s.drop_first();
        assert forall|i: int| 0 <= i < rest.len() - 1 && rest[i] == '.' implies #[trigger] rest[i
            + 1] != '.' by {
            assert(rest[i] == s[i + 1]);
            assert(rest[i + 1] == s[i + 1 + 1]);
        }
        lemma_clean_path_unchanged(rest);
        assert(seq![s[0]] + rest =~= s);
    }
}

/// The location of the file for `sub_path`.
pub open spec fn file_path_of(sub_path: Seq<char>) -> Seq<char> {
    "./static"@ + without_parent_refs(sub_path)
}

/// `path` without its occurrences of `..`.
pub fn sanitize_path(path: &str) -> (clean: String)
    ensures
        clean@ == without_parent_refs(path@),
{
    let n: usize = path.unicode_len();
    let mut clean = String::new();
    let mut i: usize = 0;
    proof {
        assert(path@.subrange(0, n as int) =~= path@);
        assert(clean@ + without_parent_refs(path@) =~= without_parent_refs(path@));
    }
    while i < n
        invariant
            n == path@.len(),
            i <= n,
            without_parent_refs(path@) == clean@ + without_parent_refs(
                path@.subrange(i as int, n as int),
            ),
        decreases n - i,
    {
        let ghost cur = path@.subrange(i as int, n as int);
        assert(cur[0] == path@[i as int]);
        if n - i >= 2 && path.get_char(i) == '.' && path.get_char(i + 1) == '.' {
            proof {
                assert(cur[1] == path@[i + 1]);
                assert(cur.subrange(2, cur.len() as int) =~= path@.subrange(i + 2, n as int));
            }
            i += 2;
        } else {
            proof {
                if n - i >= 2 {
                    assert(cur[1] == path@[i + 1]);
                }
                assert(cur.drop_first() =~= path@.subrange(i + 1, n as int));
                assert(path@.subrange(i as int, i + 1) =~= seq![cur[0]]);
                assert(clean@ + (seq![cur[0]] + without_parent_refs(cur.drop_first())) =~= clean@
                    + seq![cur[0]] + without_parent_refs(cur.drop_first()));
            }
            clean.append(path.substring_char(i, i + 1));
            i += 1;
        }
    }
    proof {
        assert(clean@ + without_parent_refs(path@.subrange(n as int, n as int)) =~= clean@);
    }
    clean
}

/// Where the file for `sub_path` lies: below `./static`, the sub-path
/// without its occurrences of `..`.
pub fn static_file_path(sub_path: &str) -> (file_path: String)
    ensures
        file_path@ == file_path_of(sub_path@),
{
    let clean = sanitize_path(sub_path);
    let mut file_path = String::from_str("./static");
    file_path.append(clean.as_str());
    file_path
}

/// The media type that the end of `path` stands for.
pub open spec fn media_type(path: Seq<char>) -> Seq<char> {
    if ".html"@.is_suffix_of(path) {
        "text/html"@
    } else if ".css"@.is_suffix_of(path) {
        "text/css"@
    } else if ".js"@.is_suffix_of(path) {
        "application/javascript"@
    } else {
        "application/octet-stream"@
    }
}

/// The media type of the file at `path`, by the suffix of its name.
pub fn content_type_of(path: &str) -> (media: &'static str)
    ensures
        media@ == media_type(path@),
{
    if ends_with(path, ".html") {
        "text/html"
    } else if ends_with(path, ".css") {
        "text/css"
    } else if ends_with(path, ".js") {
        "application/javascript"
    } else {
        "application/octet-stream"
    }
}

/// What came of reading a file.
pub enum FileRead {
    /// The file was read: its bytes.
    Contents(Vec<u8>),
    /// The file is there and could not be read.
    ReadFailed,
    /// There is no such file.
    NotFound,
}

/// The answer that carries the text `body` of the file at `file_path`.
pub open spec fn file_found_view(file_path: Seq<char>, body: Seq<char>) -> ResponseView {
    ResponseView {
        status: "200 OK"@,
        headers: content_type_header(media_type(file_path)),
        body: body,
    }
}

/// The answer for a file that could not be read.
pub open spec fn read_failed_view() -> ResponseView {
    ResponseView {
        status: "500 Internal Server Error"@,
        headers: Seq::empty(),
        body: "Failed to read file"@,
    }
}

/// The answer for a file that is not there.
pub open spec fn file_not_found_view() -> ResponseView {
    ResponseView { status: "404 Not Found"@, headers: Seq::empty(), body: "File not found"@ }
}

/// The answer that carries the text `body` of the file at `file_path`.
pub fn file_found(file_path: &str, body: &str) -> (r: HttpResponse)
    ensures
        r@ == file_found_view(file_path@, body@),
{
    HttpResponse::new("200 OK", content_type(content_type_of(file_path)), body)
}

/// The answer to a request for the file at `file_path`, given what came
/// of reading it.
pub fn serve_static_file(file_path: &str, read: FileRead) -> (r: HttpResponse)
    ensures
        r@ == match read {
            FileRead::Contents(bytes) => file_found_view(file_path@, utf8_lossy(bytes@)),
            FileRead::ReadFailed => read_failed_view(),
            FileRead::NotFound => file_not_found_view(),
        },
        read matches FileRead::Contents(bytes) ==> (valid_utf8(bytes@) ==> r@.body == decode_utf8(
            bytes@,
        )),
{
    match read {
        FileRead::Contents(bytes) => {
            let body = lossy_text(bytes.as_slice());
            file_found(file_path, body.as_str())
        },
        FileRead::ReadFailed => {
            let r = HttpResponse::new("500 Internal Server Error", Vec::new(), "Failed to read file");
            proof {
                assert(r@.headers =~= Seq::empty());
            }
            r
        },
        FileRead::NotFound => {
            let r = HttpResponse::new("404 Not Found", Vec::new(), "File not found");
            proof {
                assert(r@.headers =~= Seq::empty());
            }
            r
        },
    }
}

} // verus!
