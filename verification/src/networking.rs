use vstd::prelude::*;
use vstd::string::StringSliceAdditionalSpecFns;
use vstd::utf8::{decode_utf8, valid_utf8};

use crate::replay::Replay;

verus! {

/// A request to the highscore server.
#[allow(inconsistent_fields)]
pub enum ServerMessage {
    /// Stores a played game under a player's name and tag.
    UploadReplay { name: String, idtag: String, replay: Replay },
    /// Asks for the list of games, best scores first or newest first, of one
    /// player's tag or of everyone.
    RequestHighscores { by_score: bool, idtag: Option<String>, from: usize, to: usize },
    /// Asks for stored games by their numbers.
    RequestReplays { ids: Vec<usize> },
}

/// The bytes that standard base64 (with padding) reads in `text`, or `None`
/// where `text` is not such base64.
pub uninterp spec fn base64_decoded(text: Seq<char>) -> Option<Seq<u8>>;

/// The standard base64 text (with padding) of `data`.
pub uninterp spec fn base64_encoded(data: Seq<u8>) -> Seq<char>;

/// `c` has Unicode's White_Space property (what `char::is_whitespace` tests).
pub open spec fn is_white_space(c: char) -> bool {
    let v = c as u32;
    ||| 0x9 <= v <= 0xd
    ||| v == 0x20
    ||| v == 0x85
    ||| v == 0xa0
    ||| v == 0x1680
    ||| 0x2000 <= v <= 0x200a
    ||| v == 0x2028
    ||| v == 0x2029
    ||| v == 0x202f
    ||| v == 0x205f
    ||| v == 0x3000
}

/// `text` without its leading white space.
pub open spec fn trim_start(text: Seq<char>) -> Seq<char>
    decreases text.len(),
{
    if text.len() > 0 && is_white_space(text[0]) {
        trim_start(text.drop_first())
    } else {
        text
    }
}

/// `text` without its trailing white space.
pub open spec fn trim_end(text: Seq<char>) -> Seq<char>
    decreases text.len(),
{
    if text.len() > 0 && is_white_space(text.last()) {
        trim_end(text.drop_last())
    } else {
        text
    }
}

/// `text` without its leading and trailing white space.
pub open spec fn trimmed(text: Seq<char>) -> Seq<char> {
    trim_end(trim_start(text))
}

/// `base64::decode`: the bytes of a standard base64 text. Claimed: `Some` exactly
/// where the crate decodes `text`, and then the bytes are `base64_decoded(text)`.
#[verifier::external_body]
fn base64_decode(text: &str) -> (result: Option<Vec<u8>>)
    ensures
        match result {
            Some(b) => base64_decoded(text@) == Some(b@),
            None => base64_decoded(text@) is None,
        },
{
    base64::decode(text).ok()
}

/// `base64::encode`: the standard base64 text of `data`. Claimed: it is
/// `base64_encoded(data)`, four characters for every three bytes begun. The
/// crate panics where that length overflows `usize`, which `requires` leaves out.
#[verifier::external_body]
fn base64_encode(data: &[u8]) -> (result: String)
    requires
        data@.len() / 3 * 4 + 4 <= usize::MAX,
    ensures
        result@ == base64_encoded(data@),
        result@.len() == (data@.len() + 2) / 3 * 4,
{
    base64::encode(data)
}

/// `String::from_utf8`: `Some` of the text that `bytes` encode exactly where
/// they are valid UTF-8.
#[verifier::external_body]
fn utf8_text(bytes: Vec<u8>) -> (result: Option<String>)
    ensures
        match result {
            Some(s) => valid_utf8(bytes@) && s@ == decode_utf8(bytes@),
            None => !valid_utf8(bytes@),
        },
{
    String::from_utf8(bytes).ok()
}

/// `str::trim`: `text` without leading and trailing white space, the characters
/// with Unicode's White_Space property. Claimed: the result is `trimmed(text)`.
#[verifier::external_body]
fn trim_text(text: &str) -> (result: String)
    ensures
        result@ == trimmed(text@),
{
    text.trim().to_string()
}

/// Why a message text could not be read.
#[derive(Debug, PartialEq, Eq, Structural)]
pub enum DecodeTextError {
    /// The text is not standard base64.
    NotBase64,
    /// The decoded bytes are not UTF-8.
    NotUtf8,
}

/// What `decode_text` gives for `message`: the UTF-8 text of its base64 bytes.
pub open spec fn decoded_text(message: Seq<char>) -> Result<Seq<char>, DecodeTextError> {
    match base64_decoded(message) {
        None => Err(DecodeTextError::NotBase64),
        Some(b) => if valid_utf8(b) {
            Ok(decode_utf8(b))
        } else {
            Err(DecodeTextError::NotUtf8)
        },
    }
}

/// The text that travels base64-encoded in `message`.
pub fn decode_text(message: &str) -> (result: Result<String, DecodeTextError>)
    ensures
        match result {
            Ok(s) => decoded_text(message@) == Ok::<Seq<char>, DecodeTextError>(s@),
            Err(e) => decoded_text(message@) == Err::<Seq<char>, DecodeTextError>(e),
        },
{
    match base64_decode(message) {
        None => Err(DecodeTextError::NotBase64),
        Some(bytes) => match utf8_text(bytes) {
            None => Err(DecodeTextError::NotUtf8),
            Some(s) => Ok(s),
        },
    }
}

/// `text` as it travels: base64 of its UTF-8 bytes.
pub fn encode_text(text: &str) -> (result: String)
    requires
        text.spec_bytes().len() / 3 * 4 + 4 <= usize::MAX,
    ensures
        result@ == base64_encoded(text.spec_bytes()),
{
    base64_encode(text.as_bytes())
}

/// The index of the first zero byte of `b`, or its length where there is none.
pub open spec fn text_end(b: Seq<u8>) -> nat
    decreases b.len(),
{
    if b.len() == 0 {
        0
    } else if b[0] == 0 {
        0
    } else {
        1 + text_end(b.drop_first())
    }
}

proof fn lemma_text_end(b: Seq<u8>, n: int)
    requires
        0 <= n <= b.len(),
        forall|k: int| 0 <= k < n ==> b[k] != 0,
        n == b.len() || b[n] == 0,
    ensures
        text_end(b) == n,
    decreases n,
{
    if n > 0 {
        let t = b.drop_first();
        assert forall|k: int| 0 <= k < n - 1 implies t[k] != 0 by {
            assert(t[k] == b[k + 1]);
        }
        if n < b.len() {
            assert(t[n - 1] == b[n]);
        }
        lemma_text_end(t, n - 1);
    }
}

/// What the server's reply to a request amounts to so far.
pub enum ResponseText {
    /// The fetch is not done, or it brought no bytes.
    Waiting,
    /// The bytes before the first zero byte are not UTF-8.
    NotText,
    /// The reply's text, trimmed: the bytes before the first zero byte, as UTF-8.
    Text(String),
}

/// The reply to a request: waiting while the fetch is not done or brought no
/// bytes; else the bytes up to the first zero byte, read as UTF-8 and trimmed.
pub fn response_text(done: bool, data: Option<Vec<u8>>) -> (result: ResponseText)
    ensures
        (!done || data is None || data.unwrap()@.len() == 0) <==> result is Waiting,
        result is NotText <==> (done && data is Some && data.unwrap()@.len() > 0 && !valid_utf8(
            data.unwrap()@.take(text_end(data.unwrap()@) as int),
        )),
        result matches ResponseText::Text(s) ==> s@ == trimmed(
            decode_utf8(data.unwrap()@.take(text_end(data.unwrap()@) as int)),
        ),
{
    if !done {
        return ResponseText::Waiting;
    }
    let data = match data {
        None => {
            return ResponseText::Waiting;
        },
        Some(d) => d,
    };
    if data.len() == 0 {
        return ResponseText::Waiting;
    }
    let mut text: Vec<u8> = Vec::new();
    let mut i: usize = 0;
    while i < data.len() && data[i] != 0
        invariant
            i <= data@.len(),
            text@ == data@.take(i as int),
            forall|k: int| 0 <= k < i ==> data@[k] != 0,
        decreases data@.len() - i,
    {
        text.push(data[i]);
        i = i + 1;
        assert(text@ =~= data@.take(i as int));
    }
    proof {
        lemma_text_end(data@, i as int);
    }
    match utf8_text(text) {
        None => ResponseText::NotText,
        Some(s) => ResponseText::Text(trim_text(s.as_str())),
    }
}

} // verus!
