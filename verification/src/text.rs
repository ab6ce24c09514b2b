use vstd::prelude::*;
use vstd::utf8::{decode_utf8, valid_utf8};

verus! {

/// The text that `String::from_utf8_lossy` makes of a byte sequence: the
/// UTF-8 decoding of the bytes, where each invalid part stands as U+FFFD.
pub uninterp spec fn lossy_text(bytes: Seq<u8>) -> Seq<char>;

/// Decodes bytes as UTF-8, replacing what is not valid UTF-8.
///
/// Calls `String::from_utf8_lossy`.  Its result is named `lossy_text`; its
/// documentation states that valid UTF-8 is decoded unchanged, which the
/// second clause says.  How invalid parts are replaced is left to the name.
#[verifier::external_body]
pub(crate) fn decode_lossy(bytes: &[u8]) -> (r: String)
    ensures
        r@ == lossy_text(bytes@),
        valid_utf8(bytes@) ==> r@ == decode_utf8(bytes@),
{
    String::from_utf8_lossy(bytes).into_owned()
}

/// Unicode's White_Space property, which `char::is_whitespace` and
/// `str::trim` go by.
pub open spec fn is_white_space(c: char) -> bool {
    let n = c as u32;
    ||| 0x09 <= n <= 0x0d
    ||| n == 0x20
    ||| n == 0x85
    ||| n == 0xa0
    ||| n == 0x1680
    ||| 0x2000 <= n <= 0x200a
    ||| n == 0x2028
    ||| n == 0x2029
    ||| n == 0x202f
    ||| n == 0x205f
    ||| n == 0x3000
}

/// `r` is `s` without its leading and trailing white space.
pub open spec fn trims_to(s: Seq<char>, r: Seq<char>) -> bool {
    exists|a: int, b: int|
        #![trigger s.subrange(a, b)]
        0 <= a <= b <= s.len() && r == s.subrange(a, b) && (forall|i: int|
            0 <= i < a ==> is_white_space(#[trigger] s[i])) && (forall|i: int|
            b <= i < s.len() ==> is_white_space(#[trigger] s[i])) && (a < b ==> !is_white_space(
            s[a],
        ) && !is_white_space(s[b - 1]))
}

/// Removes leading and trailing white space.
///
/// Calls `str::trim`, whose documentation says that it removes the leading
/// and trailing characters with the White_Space property and nothing else.
#[verifier::external_body]
pub(crate) fn trim_text(s: &str) -> (r: &str)
    ensures
        trims_to(s@, r@),
{
    s.trim()
}

/// What a finished process wrote to its two streams.
pub struct ProcessOutput {
    pub stdout: Vec<u8>,
    pub stderr: Vec<u8>,
}

/// The text of a process's output as the server shows it: what it wrote to
/// its error stream, then what it wrote to its output stream, each decoded
/// leniently.
pub open spec fn combined_text(stderr: Seq<u8>, stdout: Seq<u8>) -> Seq<char> {
    lossy_text(stderr) + lossy_text(stdout)
}

/// Decodes a process's error and output streams and puts them one after
/// the other, error stream first.
pub fn combine_output(stderr: &[u8], stdout: &[u8]) -> (r: String)
    ensures
        r@ == combined_text(stderr@, stdout@),
        r@ == lossy_text(stderr@) + lossy_text(stdout@),
        valid_utf8(stderr@) && valid_utf8(stdout@) ==> r@ == decode_utf8(stderr@) + decode_utf8(
            stdout@,
        ),
{
    let mut combined = decode_lossy(stderr);
    let out = decode_lossy(stdout);
    combined.append(out.as_str());
    combined
}

/// The shown text of a process's output is the lenient decoding of the
/// whole error stream followed by that of the whole output stream.
pub proof fn lemma_combined_text_is_both_whole_streams(stderr: Seq<u8>, stdout: Seq<u8>)
    ensures
        combined_text(stderr, stdout) == lossy_text(stderr) + lossy_text(stdout),
        combined_text(stderr, stdout).subrange(0, lossy_text(stderr).len() as int) == lossy_text(stderr),
        combined_text(stderr, stdout).subrange(
            lossy_text(stderr).len() as int,
            combined_text(stderr, stdout).len() as int,
        ) == lossy_text(stdout),
{
    let c = lossy_text(stderr) + lossy_text(stdout);
    assert(c.subrange(0, lossy_text(stderr).len() as int) =~= lossy_text(stderr));
    assert(c.subrange(lossy_text(stderr).len() as int, c.len() as int) =~= lossy_text(stdout));
}

/// `prefix` followed by `detail`, as one string.
pub fn prefixed(prefix: &str, detail: &str) -> (r: String)
    ensures
        r@ == prefix@ + detail@,
{
    let mut r = prefix.to_owned();
    r.append(detail);
    r
}

/// Uses the rendered page, or, where rendering failed, the description of
/// the failure in its place.
pub fn page_text(rendered: &Result<String, String>) -> (r: String)
    ensures
        r@ == rendered_text(*rendered),
{
    match rendered {
        Ok(page) => page.clone(),
        Err(description) => description.clone(),
    }
}

/// The rendered page, or the description of why rendering failed.
pub open spec fn rendered_text(rendered: Result<String, String>) -> Seq<char> {
    match rendered {
        Ok(page) => page@,
        Err(description) => description@,
    }
}

} // verus!
