//! Request bodies, responses and path segments.
//!
//! Bodies arrive in chunks, each of which may fail. What is read of a body never exceeds the
//! length announced for it.

use crate::json::{json_text, Json, JsonView};
use crate::web::error::{
    client_error, plain, status_error, ApiError, ApiErrorView, Error, ErrorView, BAD_REQUEST,
    INTERNAL_SERVER_ERROR, OK,
};
use vstd::prelude::*;
use vstd::string::StringSliceAdditionalSpecFns;
use vstd::utf8::{
    decode_utf8, encode_utf8, encode_utf8_decode_utf8, encode_utf8_valid_utf8, valid_utf8,
};

verus! {

broadcast use vstd::string::group_string_axioms;

/// A chunk of a body, or the error that came in its place.
pub open spec fn chunk_view(chunk: Result<Vec<u8>, Error>) -> Result<Seq<u8>, ErrorView> {
    match chunk {
        Ok(bytes) => Ok(bytes@),
        Err(err) => Err(err@),
    }
}

/// The chunks of a body.
pub open spec fn chunk_views(chunks: Seq<Result<Vec<u8>, Error>>) -> Seq<
    Result<Seq<u8>, ErrorView>,
> {
    chunks.map_values(|chunk: Result<Vec<u8>, Error>| chunk_view(chunk))
}

/// How many bytes of a body may come, given the length announced for it; nothing where the length
/// does not fit 63 bits.
pub open spec fn allowance(content_length: u64) -> Option<nat> {
    if content_length <= i64::MAX {
        Some(content_length as nat)
    } else {
        None
    }
}

/// The allowance that is left after a chunk.
pub open spec fn allowance_after(left: Option<nat>, chunk: Result<Seq<u8>, ErrorView>) -> Option<
    nat,
> {
    match (left, chunk) {
        (Some(n), Ok(bytes)) => if bytes.len() <= n {
            Some((n - bytes.len()) as nat)
        } else {
            None
        },
        (_, _) => left,
    }
}

/// What becomes of a chunk, given the allowance that is left.
pub open spec fn limited_chunk(left: Option<nat>, chunk: Result<Seq<u8>, ErrorView>) -> Result<
    Seq<u8>,
    ErrorView,
> {
    match chunk {
        Ok(bytes) => if left is Some && bytes.len() <= left->0 {
            Ok(bytes)
        } else {
            Err(plain("Input data too large"@))
        },
        Err(err) => Err(err),
    }
}

/// The chunks of a body with each one that exceeds the allowance, and all that follow, turned into
/// errors.
pub open spec fn limited(
    chunks: Seq<Result<Seq<u8>, ErrorView>>,
    left: Option<nat>,
) -> Seq<Result<Seq<u8>, ErrorView>>
    decreases chunks.len(),
{
    if chunks.len() == 0 {
        Seq::empty()
    } else {
        seq![limited_chunk(left, chunks[0])] + limited(
            chunks.drop_first(),
            allowance_after(left, chunks[0]),
        )
    }
}

/// How a failure to read a chunk is reported.
pub open spec fn read_failure(err: ErrorView) -> ErrorView {
    err.with_context("Failed to read body"@).with_status(BAD_REQUEST)
}

/// What reading all chunks comes to: all bytes in their order, or the first error.
pub open spec fn buffered(chunks: Seq<Result<Seq<u8>, ErrorView>>) -> Result<Seq<u8>, ErrorView>
    decreases chunks.len(),
{
    if chunks.len() == 0 {
        Ok(Seq::empty())
    } else {
        match chunks[0] {
            Err(err) => Err(read_failure(err)),
            Ok(bytes) => match buffered(chunks.drop_first()) {
                Ok(rest) => Ok(bytes + rest),
                Err(err) => Err(err),
            },
        }
    }
}

/// Why a body of the announced length is not read at all, if it is not.
pub open spec fn length_refusal(content_length: u64, max_body_size: u64) -> Option<ErrorView> {
    if content_length == 0 {
        Some(status_error(BAD_REQUEST, "Empty input data"@))
    } else if content_length > max_body_size {
        Some(status_error(BAD_REQUEST, "The given request data is too large"@))
    } else {
        None
    }
}

/// What reading a body comes to.
pub open spec fn body(
    chunks: Seq<Result<Seq<u8>, ErrorView>>,
    content_length: u64,
    max_body_size: u64,
) -> Result<Seq<u8>, ErrorView> {
    match length_refusal(content_length, max_body_size) {
        Some(err) => Err(err),
        None => buffered(limited(chunks, allowance(content_length))),
    }
}

/// Refuses a body that is announced as empty or as larger than allowed.
pub fn check_content_length(content_length: u64, max_body_size: u64) -> (r: Result<(), Error>)
    ensures
        match r {
            Ok(_) => length_refusal(content_length, max_body_size) is None,
            Err(err) => length_refusal(content_length, max_body_size) == Some(err@),
        },
{
    if content_length == 0 {
        return Err(client_error("Empty input data"));
    }
    if content_length > max_body_size {
        return Err(client_error("The given request data is too large"));
    }
    Ok(())
}

/// Keeps a body within the length announced for it.
pub struct SizeLimiter {
    remaining_bytes: Option<u64>,
}

impl View for SizeLimiter {
    type V = Option<nat>;

    closed spec fn view(&self) -> Option<nat> {
        match self.remaining_bytes {
            Some(n) => Some(n as nat),
            None => None,
        }
    }
}

impl SizeLimiter {
    /// A limiter for a body of the given length.
    pub fn new(content_length: u64) -> (r: SizeLimiter)
        ensures
            r@ == allowance(content_length),
    {
        if content_length <= 0x7fff_ffff_ffff_ffff {
            SizeLimiter { remaining_bytes: Some(content_length) }
        } else {
            SizeLimiter { remaining_bytes: None }
        }
    }

    /// Takes the next chunk and hands it on, or an error in its place where the body has become
    /// longer than announced.
    pub fn limit(&mut self, chunk: Result<Vec<u8>, Error>) -> (r: Result<Vec<u8>, Error>)
        ensures
            final(self)@ == allowance_after(old(self)@, chunk_view(chunk)),
            chunk_view(r) == limited_chunk(old(self)@, chunk_view(chunk)),
    {
        match chunk {
            Ok(bytes) => {
                let len: u64 = bytes.len() as u64;
                match self.remaining_bytes {
                    Some(n) if len <= n => {
                        self.remaining_bytes = Some(n - len);
                        Ok(bytes)
                    },
                    _ => {
                        self.remaining_bytes = None;
                        Err(Error::new("Input data too large"))
                    },
                }
            },
            Err(err) => Err(err),
        }
    }
}

/// Keeps the chunks of a body within the length announced for it.
pub fn as_size_limited_stream(
    chunks: Vec<Result<Vec<u8>, Error>>,
    content_length: u64,
) -> (r: Vec<Result<Vec<u8>, Error>>)
    ensures
        chunk_views(r@) == limited(chunk_views(chunks@), allowance(content_length)),
{
    let ghost all = chunk_views(chunks@);
    let ghost given = chunks@;
    let mut limiter = SizeLimiter::new(content_length);
    let mut r: Vec<Result<Vec<u8>, Error>> = Vec::new();
    proof {
        assert(all.skip(0) =~= all);
        assert(chunk_views(r@) =~= Seq::empty());
        assert(Seq::<Result<Seq<u8>, ErrorView>>::empty() + limited(all, limiter@) =~= limited(
            all,
            limiter@,
        ));
    }
    for chunk in it: chunks
        invariant
            it.seq() == given,
            all == chunk_views(given),
            chunk_views(r@) + limited(all.skip(it.index() as int), limiter@) == limited(
                all,
                allowance(content_length),
            ),
    {
        let ghost i = it.index() as int;
        let ghost left = limiter@;
        let ghost done = r@;
        assert(all.skip(i)[0] == chunk_view(chunk));
        assert(all.skip(i).drop_first() =~= all.skip(i + 1));
        let next = limiter.limit(chunk);
        r.push(next);
        proof {
            assert(chunk_views(r@) =~= chunk_views(done).push(chunk_view(next)));
            let rest = limited(all.skip(i + 1), limiter@);
            assert(chunk_views(done) + (seq![chunk_view(next)] + rest) =~= chunk_views(r@) + rest);
        }
    }
    proof {
        assert(all.skip(all.len() as int) =~= Seq::empty());
        assert(chunk_views(r@) + Seq::<Result<Seq<u8>, ErrorView>>::empty() =~= chunk_views(r@));
    }
    r
}

/// Appends a chunk to what has been read of a body, or reports why it cannot be read.
pub fn read_chunk(data: &mut Vec<u8>, chunk: Result<Vec<u8>, Error>) -> (r: Result<(), Error>)
    ensures
        match chunk {
            Ok(bytes) => r is Ok && final(data)@ == old(data)@ + bytes@,
            Err(err) => r is Err && r->Err_0@ == read_failure(err@) && final(data)@ == old(data)@,
        },
{
    match chunk {
        Ok(bytes) => {
            let mut bytes = bytes;
            data.append(&mut bytes);
            Ok(())
        },
        Err(err) => Err(err.context("Failed to read body").with_status(BAD_REQUEST)),
    }
}

/// Reads the chunks of a body into a buffer.
pub fn read_into_buffer(chunks: Vec<Result<Vec<u8>, Error>>) -> (r: Result<Vec<u8>, Error>)
    ensures
        chunk_view(r) == buffered(chunk_views(chunks@)),
{
    let ghost all = chunk_views(chunks@);
    let ghost given = chunks@;
    let mut data: Vec<u8> = Vec::new();
    proof {
        assert(all.skip(0) =~= all);
        if buffered(all) is Ok {
            assert(Seq::<u8>::empty() + buffered(all)->Ok_0 =~= buffered(all)->Ok_0);
        }
    }
    for chunk in it: chunks
        invariant
            it.seq() == given,
            all == chunk_views(given),
            match buffered(all.skip(it.index() as int)) {
                Ok(rest) => buffered(all) == Ok::<Seq<u8>, ErrorView>(data@ + rest),
                Err(err) => buffered(all) == Err::<Seq<u8>, ErrorView>(err),
            },
    {
        let ghost i = it.index() as int;
        let ghost done = data@;
        assert(all.skip(i)[0] == chunk_view(chunk));
        assert(all.skip(i).drop_first() =~= all.skip(i + 1));
        let read = read_chunk(&mut data, chunk);
        if let Err(err) = read {
            return Err(err);
        }
        proof {
            if buffered(all.skip(i + 1)) is Ok {
                let rest = buffered(all.skip(i + 1))->Ok_0;
                assert(done + (chunk_view(chunk)->Ok_0 + rest) =~= data@ + rest);
            }
        }
    }
    proof {
        assert(all.skip(all.len() as int) =~= Seq::empty());
        assert(data@ + Seq::<u8>::empty() =~= data@);
    }
    Ok(data)
}

/// Reads the body of a request into a buffer, enforcing size limits.
pub fn body_as_buffer(
    chunks: Vec<Result<Vec<u8>, Error>>,
    content_length: u64,
    max_body_size: u64,
) -> (r: Result<Vec<u8>, Error>)
    ensures
        chunk_view(r) == body(chunk_views(chunks@), content_length, max_body_size),
{
    if let Err(err) = check_content_length(content_length, max_body_size) {
        return Err(err);
    }
    read_into_buffer(as_size_limited_stream(chunks, content_length))
}

/// The chunks of a body as they are, for whoever reads them one by one, where the length announced
/// for it is within limits. That they stay within that length is for [`as_size_limited_stream`].
pub fn as_stream(
    chunks: Vec<Result<Vec<u8>, Error>>,
    content_length: u64,
    max_body_size: u64,
) -> (r: Result<Vec<Result<Vec<u8>, Error>>, Error>)
    ensures
        match r {
            Ok(stream) => length_refusal(content_length, max_body_size) is None && stream@
                == chunks@,
            Err(err) => length_refusal(content_length, max_body_size) == Some(err@),
        },
{
    if let Err(err) = check_content_length(content_length, max_body_size) {
        return Err(err);
    }
    Ok(chunks)
}

/// Why some bytes are no UTF-8.
pub uninterp spec fn utf8_error(bytes: Seq<u8>) -> Seq<char>;

/// `String::from_utf8`: the text that the bytes encode if they are valid UTF-8, else the message
/// of the error.
#[verifier::external_body]
fn text_from_utf8(bytes: Vec<u8>) -> (r: Result<String, String>)
    ensures
        match r {
            Ok(text) => valid_utf8(bytes@) && text@ == decode_utf8(bytes@),
            Err(err) => !valid_utf8(bytes@) && err@ == utf8_error(bytes@),
        },
{
    String::from_utf8(bytes).map_err(|err| err.to_string())
}

/// How input that cannot be understood is reported: what was attempted and what the error was.
pub open spec fn input_error(attempt: Seq<char>, message: Seq<char>) -> ErrorView {
    plain(message).with_context(attempt).with_status(BAD_REQUEST)
}

/// The result of an attempt to understand input, with a failure reported as a client's mistake.
pub fn client_input<T>(result: Result<T, String>, attempt: &str) -> (r: Result<T, Error>)
    ensures
        match result {
            Ok(t) => r == Ok::<T, Error>(t),
            Err(message) => r is Err && r->Err_0@ == input_error(attempt@, message@),
        },
{
    match result {
        Ok(t) => Ok(t),
        Err(message) => Err(
            Error::new(message.as_str()).context(attempt).with_status(BAD_REQUEST),
        ),
    }
}

/// What becomes of the text of a body.
pub open spec fn body_text(data: Result<Seq<u8>, ErrorView>) -> Result<Seq<char>, ErrorView> {
    match data {
        Ok(bytes) => if valid_utf8(bytes) {
            Ok(decode_utf8(bytes))
        } else {
            Err(input_error("Received invalid UTF-8 data"@, utf8_error(bytes)))
        },
        Err(err) => Err(err),
    }
}

/// The text of a body that has been read.
pub fn text_of_body(data: Result<Vec<u8>, Error>) -> (r: Result<String, Error>)
    ensures
        match (r, body_text(chunk_view(data))) {
            (Ok(text), Ok(exact)) => text@ == exact,
            (Err(err), Err(exact)) => err@ == exact,
            _ => false,
        },
{
    match data {
        Ok(bytes) => client_input(text_from_utf8(bytes), "Received invalid UTF-8 data"),
        Err(err) => Err(err),
    }
}

/// Reads the body of a request as a UTF-8 string, enforcing size limits.
pub fn body_as_string(
    chunks: Vec<Result<Vec<u8>, Error>>,
    content_length: u64,
    max_body_size: u64,
) -> (r: Result<String, Error>)
    ensures
        match (r, body_text(body(chunk_views(chunks@), content_length, max_body_size))) {
            (Ok(text), Ok(exact)) => text@ == exact,
            (Err(err), Err(exact)) => err@ == exact,
            _ => false,
        },
{
    text_of_body(body_as_buffer(chunks, content_length, max_body_size))
}

/// Takes what the parser made of a JSON body.
pub fn decode_json<T>(parsed: Result<T, String>) -> (r: Result<T, Error>)
    ensures
        match parsed {
            Ok(t) => r == Ok::<T, Error>(t),
            Err(message) => r is Err && r->Err_0@ == input_error("Invalid JSON input"@, message@),
        },
{
    client_input(parsed, "Invalid JSON input")
}

/// Takes what the parser made of a URL-encoded form.
pub fn decode_form<T>(parsed: Result<T, String>) -> (r: Result<T, Error>)
    ensures
        match parsed {
            Ok(t) => r == Ok::<T, Error>(t),
            Err(message) => r is Err && r->Err_0@ == input_error(
                "Invalid url-encoded data input"@,
                message@,
            ),
        },
{
    client_input(parsed, "Invalid url-encoded data input")
}

/// A response with a JSON body.
#[derive(Debug)]
pub struct JsonResponse {
    /// The HTTP status code.
    pub status: u16,
    /// The type of the body.
    pub content_type: &'static str,
    /// The body.
    pub body: Vec<u8>,
}

/// The result of a request, serialized where it is a success.
pub open spec fn answer_error(
    response: Result<(u16, Result<Vec<u8>, String>), Error>,
) -> Option<ErrorView> {
    match response {
        Ok((_, Ok(_))) => None,
        Ok((_, Err(message))) => Some(
            plain(message@).with_context("Failed to serialize data"@),
        ),
        Err(err) => Some(err@),
    }
}

/// Converts a result into a JSON response with status 200 OK.
pub fn into_response(result: Result<Result<Vec<u8>, String>, Error>) -> (r: Result<
    JsonResponse,
    ApiError,
>)
    ensures
        match r {
            Ok(reply) => {
                &&& result is Ok && result->Ok_0 is Ok
                &&& reply.body == result->Ok_0->Ok_0
                &&& reply.status == OK
                &&& reply.content_type@ == "application/json"@
            },
            Err(api) => {
                let response = match result {
                    Ok(data) => Ok((OK, data)),
                    Err(err) => Err(err),
                };
                answer_error(response) is Some && api@ == answer_error(response)->0.response()
            },
        },
{
    into_response_with_status(
        match result {
            Ok(data) => Ok((OK, data)),
            Err(err) => Err(err),
        },
    )
}

/// Converts a result into a JSON response with a custom status code.
pub fn into_response_with_status(
    response: Result<(u16, Result<Vec<u8>, String>), Error>,
) -> (r: Result<JsonResponse, ApiError>)
    ensures
        match r {
            Ok(reply) => {
                &&& response is Ok
                &&& response->Ok_0 == (reply.status, Ok::<Vec<u8>, String>(reply.body))
                &&& reply.content_type@ == "application/json"@
            },
            Err(api) => answer_error(response) is Some && api@ == answer_error(
                response,
            )->0.response(),
        },
{
    match response {
        Ok((status, Ok(body))) => Ok(
            JsonResponse { status, content_type: "application/json", body },
        ),
        Ok((_, Err(message))) => Err(
            into_rejection(Error::new(message.as_str()).context("Failed to serialize data")),
        ),
        Err(err) => Err(into_rejection(err)),
    }
}

/// Converts an error into the error to respond with: the [`ApiError`] that it carries, else one
/// with status 500 and all messages.
pub fn into_rejection(err: Error) -> (r: ApiError)
    ensures
        r@ == err@.response(),
{
    match err.api_error() {
        Some(api) => api.clone(),
        None => ApiError::new(INTERNAL_SERVER_ERROR, err.full_message().as_str()),
    }
}

/// The JSON object that an error is answered with: its message, and its code where it has one.
pub open spec fn error_text(api: ApiErrorView) -> Seq<char> {
    let message = "{\"message\":"@ + json_text(JsonView::Text(api.message));
    match api.code {
        Some(code) => message + ",\"code\":"@ + json_text(JsonView::Text(code)) + "}"@,
        None => message + "}"@,
    }
}

/// Answers the error that a request was rejected with, where there is one: with its status, and
/// with its message and its code as JSON. Other rejections are left as they are.
pub fn handle_rejection(found: Option<&ApiError>) -> (r: Option<JsonResponse>)
    ensures
        match (found, r) {
            (Some(api), Some(reply)) => {
                &&& reply.status == api.status
                &&& reply.content_type@ == "application/json"@
                &&& reply.body@ == encode_utf8(error_text(api@))
            },
            (None, None) => true,
            _ => false,
        },
{
    match found {
        Some(api) => {
            let mut text = String::new();
            text.append("{\"message\":");
            text.append(Json::text(api.message.as_str()).to_text().as_str());
            if let Some(code) = &api.code {
                text.append(",\"code\":");
                text.append(Json::text(code.as_str()).to_text().as_str());
            }
            text.append("}");
            assert(text@ =~= error_text(api@));
            let mut body: Vec<u8> = Vec::new();
            body.extend_from_slice(text.as_str().as_bytes());
            assert(body@ =~= encode_utf8(error_text(api@)));
            Some(JsonResponse { status: api.status, content_type: "application/json", body })
        },
        None => None,
    }
}

/// The value of a hexadecimal digit.
pub open spec fn hex_digit(b: u8) -> Option<u8> {
    if '0' as u8 <= b <= '9' as u8 {
        Some((b - '0' as u8) as u8)
    } else if 'a' as u8 <= b <= 'f' as u8 {
        Some((b - 'a' as u8 + 10) as u8)
    } else if 'A' as u8 <= b <= 'F' as u8 {
        Some((b - 'A' as u8 + 10) as u8)
    } else {
        None
    }
}

/// Whether bytes start with a percent sign and two hexadecimal digits.
pub open spec fn starts_with_escape(bytes: Seq<u8>) -> bool {
    bytes.len() >= 3 && bytes[0] == '%' as u8 && hex_digit(bytes[1]) is Some && hex_digit(bytes[2])
        is Some
}

/// Bytes with each percent sign and the two hexadecimal digits after it replaced by the byte that
/// these stand for.
pub open spec fn unescaped(bytes: Seq<u8>) -> Seq<u8>
    decreases bytes.len(),
{
    if bytes.len() == 0 {
        Seq::empty()
    } else if starts_with_escape(bytes) {
        seq![(hex_digit(bytes[1])->0 * 16 + hex_digit(bytes[2])->0) as u8] + unescaped(
            bytes.skip(3),
        )
    } else {
        seq![bytes[0]] + unescaped(bytes.drop_first())
    }
}

/// The text that a percent-encoded text stands for.
pub uninterp spec fn percent_decoded(text: Seq<char>) -> Seq<char>;

/// `percent_decode_str` and `decode_utf8_lossy`: the text whose bytes are those of the argument
/// with the escapes replaced, where these are valid UTF-8. How others are made valid is left
/// unsaid.
#[verifier::external_body]
fn percent_decode(text: &str) -> (r: String)
    ensures
        r@ == percent_decoded(text@),
        valid_utf8(unescaped(text.spec_bytes())) ==> r@ == decode_utf8(
            unescaped(text.spec_bytes()),
        ),
{
    percent_encoding::percent_decode_str(text).decode_utf8_lossy().into_owned()
}

/// A URL path segment that has been percent-decoded.
///
/// Use in route patterns to automatically decode path segments like `%20` to a space.
#[derive(Debug)]
pub struct DecodedSegment(pub String);

impl Clone for DecodedSegment {
    fn clone(&self) -> (r: DecodedSegment)
        ensures
            r == *self,
    {
        DecodedSegment(self.0.clone())
    }
}

proof fn lemma_nothing_escaped(bytes: Seq<u8>)
    requires
        forall|i: int| 0 <= i < bytes.len() ==> bytes[i] != '%' as u8,
    ensures
        unescaped(bytes) == bytes,
    decreases bytes.len(),
{
    if bytes.len() > 0 {
        lemma_nothing_escaped(bytes.drop_first());
        assert(bytes =~= seq![bytes[0]] + bytes.drop_first());
    } else {
        assert(bytes =~= Seq::empty());
    }
}

impl DecodedSegment {
    /// Decodes a path segment. One without a percent sign stays as it is.
    pub fn decode(s: &str) -> (r: DecodedSegment)
        ensures
            r.0@ == percent_decoded(s@),
            valid_utf8(unescaped(s.spec_bytes())) ==> r.0@ == decode_utf8(
                unescaped(s.spec_bytes()),
            ),
            (forall|i: int| 0 <= i < s.spec_bytes().len() ==> s.spec_bytes()[i] != '%' as u8)
                ==> r.0@ == s@,
    {
        proof {
            let bytes = s.spec_bytes();
            encode_utf8_valid_utf8(s@);
            encode_utf8_decode_utf8(s@);
            if forall|i: int| 0 <= i < bytes.len() ==> bytes[i] != '%' as u8 {
                lemma_nothing_escaped(bytes);
            }
        }
        DecodedSegment(percent_decode(s))
    }
}

impl std::str::FromStr for DecodedSegment {
    type Err = std::convert::Infallible;

    /// Decodes a path segment, which always succeeds.
    fn from_str(s: &str) -> (r: Result<Self, Self::Err>)
        ensures
            r is Ok,
            r->Ok_0.0@ == percent_decoded(s@),
            valid_utf8(unescaped(s.spec_bytes())) ==> r->Ok_0.0@ == decode_utf8(
                unescaped(s.spec_bytes()),
            ),
            (forall|i: int| 0 <= i < s.spec_bytes().len() ==> s.spec_bytes()[i] != '%' as u8)
                ==> r->Ok_0.0@ == s@,
    {
        Ok(DecodedSegment::decode(s))
    }
}

impl From<DecodedSegment> for String {
    fn from(value: DecodedSegment) -> (r: String) {
        value.0
    }
}

impl vstd::std_specs::convert::FromSpecImpl<DecodedSegment> for String {
    open spec fn obeys_from_spec() -> bool {
        true
    }

    open spec fn from_spec(value: DecodedSegment) -> String {
        value.0
    }
}

proof fn lemma_limited(chunks: Seq<Result<Seq<u8>, ErrorView>>, left: Option<nat>)
    ensures
        buffered(limited(chunks, left)) is Ok ==> (chunks.len() > 0 ==> left is Some) && (left
            is Some ==> buffered(limited(chunks, left))->Ok_0.len() <= left->0) && buffered(
            limited(chunks, left),
        ) == buffered(chunks),
    decreases chunks.len(),
{
    if chunks.len() > 0 {
        let first = limited_chunk(left, chunks[0]);
        let rest = limited(chunks.drop_first(), allowance_after(left, chunks[0]));
        let all = limited(chunks, left);
        assert(all[0] == first);
        assert(all.drop_first() =~= rest);
        lemma_limited(chunks.drop_first(), allowance_after(left, chunks[0]));
        if chunks.drop_first().len() == 0 {
            assert(rest =~= Seq::empty());
            assert(chunks.drop_first() =~= Seq::empty());
        }
    }
}

/// A body that is read is no longer than announced and no longer than allowed, and is made of the
/// bytes of all chunks in their order.
pub proof fn law_body_is_whole_and_within_limits(
    chunks: Seq<Result<Seq<u8>, ErrorView>>,
    content_length: u64,
    max_body_size: u64,
)
    requires
        body(chunks, content_length, max_body_size) is Ok,
    ensures
        body(chunks, content_length, max_body_size)->Ok_0.len() <= content_length,
        content_length <= max_body_size,
        body(chunks, content_length, max_body_size) == buffered(chunks),
{
    lemma_limited(chunks, allowance(content_length));
    if chunks.len() == 0 {
        assert(limited(chunks, allowance(content_length)) =~= Seq::empty());
    }
}

proof fn lemma_within_limits(chunks: Seq<Result<Seq<u8>, ErrorView>>, left: nat)
    requires
        buffered(chunks) is Ok,
        buffered(chunks)->Ok_0.len() <= left,
    ensures
        buffered(limited(chunks, Some(left))) == buffered(chunks),
    decreases chunks.len(),
{
    if chunks.len() > 0 {
        let bytes = chunks[0]->Ok_0;
        let all = limited(chunks, Some(left));
        let next = (left - bytes.len()) as nat;
        lemma_within_limits(chunks.drop_first(), next);
        assert(all.drop_first() =~= limited(chunks.drop_first(), Some(next)));
        assert(all[0] == chunks[0]);
    } else {
        assert(limited(chunks, Some(left)) =~= chunks);
    }
}

/// A body that comes in full and keeps to the length announced for it is read, if that is within
/// the limit.
pub proof fn law_honest_body_is_read(
    chunks: Seq<Result<Seq<u8>, ErrorView>>,
    content_length: u64,
    max_body_size: u64,
)
    requires
        buffered(chunks) is Ok,
        buffered(chunks)->Ok_0.len() <= content_length,
        0 < content_length <= max_body_size,
        content_length <= i64::MAX,
    ensures
        body(chunks, content_length, max_body_size) == buffered(chunks),
{
    lemma_within_limits(chunks, content_length as nat);
}

proof fn lemma_first_failure(chunks: Seq<Result<Seq<u8>, ErrorView>>, left: Option<nat>)
    requires
        buffered(limited(chunks, left)) is Err,
    ensures
        buffered(limited(chunks, left))->Err_0.response().status == BAD_REQUEST,
    decreases chunks.len(),
{
    if chunks.len() > 0 {
        let all = limited(chunks, left);
        let left2 = allowance_after(left, chunks[0]);
        assert(all.drop_first() =~= limited(chunks.drop_first(), left2));
        if all[0] is Ok {
            lemma_first_failure(chunks.drop_first(), left2);
        }
    }
}

/// A body that is refused is reported as a client's mistake.
pub proof fn law_refused_body_is_a_client_error(
    chunks: Seq<Result<Seq<u8>, ErrorView>>,
    content_length: u64,
    max_body_size: u64,
)
    requires
        body(chunks, content_length, max_body_size) is Err,
    ensures
        body(chunks, content_length, max_body_size)->Err_0.response().status == BAD_REQUEST,
{
    if length_refusal(content_length, max_body_size) is None {
        lemma_first_failure(chunks, allowance(content_length));
    }
}

/// The number of bytes in those chunks that came.
pub open spec fn total(chunks: Seq<Result<Seq<u8>, ErrorView>>) -> nat
    decreases chunks.len(),
{
    if chunks.len() == 0 {
        0
    } else {
        total(chunks.drop_last()) + match chunks.last() {
            Ok(bytes) => bytes.len(),
            Err(_) => 0,
        }
    }
}

proof fn lemma_total_first(chunks: Seq<Result<Seq<u8>, ErrorView>>)
    requires
        chunks.len() > 0,
    ensures
        total(chunks) == total(chunks.drop_first()) + match chunks[0] {
            Ok(bytes) => bytes.len(),
            Err(_) => 0,
        },
    decreases chunks.len(),
{
    if chunks.len() > 1 {
        lemma_total_first(chunks.drop_last());
        assert(chunks.drop_first().drop_last() =~= chunks.drop_last().drop_first());
        assert(chunks.drop_first().last() == chunks.last());
    } else {
        assert(chunks.drop_first() =~= Seq::empty());
        assert(chunks.drop_last() =~= Seq::empty());
    }
}

proof fn lemma_limited_at(chunks: Seq<Result<Seq<u8>, ErrorView>>, left: Option<nat>, i: int)
    requires
        0 <= i < chunks.len(),
    ensures
        limited(chunks, left).len() == chunks.len(),
        chunks[i] is Err ==> limited(chunks, left)[i] == chunks[i],
        chunks[i] is Ok && left is Some && total(chunks.take(i + 1)) <= left->0 ==> limited(
            chunks,
            left,
        )[i] == chunks[i],
        chunks[i] is Ok && !(left is Some && total(chunks.take(i + 1)) <= left->0) ==> limited(
            chunks,
            left,
        )[i] is Err,
    decreases chunks.len(),
{
    let rest = chunks.drop_first();
    let next = allowance_after(left, chunks[0]);
    let tail = limited(rest, next);
    let part = chunks.take(i + 1);
    lemma_total_first(part);
    assert(part[0] == chunks[0]);
    assert(limited(chunks, left) == seq![limited_chunk(left, chunks[0])] + tail);
    if rest.len() > 0 {
        lemma_limited_at(rest, next, if i > 0 { i - 1 } else { 0 });
    }
    assert(tail.len() == rest.len());
    if i > 0 {
        assert(part.drop_first() =~= rest.take(i));
        assert(limited(chunks, left)[i] == tail[i - 1]);
        assert(rest[i - 1] == chunks[i]);
    } else {
        assert(part.drop_first() =~= Seq::empty());
        assert(limited(chunks, left)[0] == limited_chunk(left, chunks[0]));
    }
}

/// Chunk by chunk, a body is handed on as it comes for as long as it keeps to the length announced for
/// it; from the chunk on that exceeds it, errors come in place of the chunks. Errors stay errors.
pub proof fn law_chunks_keep_to_the_length(
    chunks: Vec<Result<Vec<u8>, Error>>,
    content_length: u64,
    r: Vec<Result<Vec<u8>, Error>>,
    i: int,
)
    requires
        call_ensures(as_size_limited_stream, (chunks, content_length), r),
        content_length <= i64::MAX,
        0 <= i < chunks@.len(),
    ensures
        r@.len() == chunks@.len(),
        ({
            let so_far = total(chunk_views(chunks@).take(i + 1));
            &&& chunks@[i] is Err ==> r@[i] is Err && r@[i]->Err_0@ == chunks@[i]->Err_0@
            &&& chunks@[i] is Ok && so_far <= content_length ==> r@[i] is Ok && r@[i]->Ok_0@
                == chunks@[i]->Ok_0@
            &&& chunks@[i] is Ok && so_far > content_length ==> r@[i] is Err
        }),
{
    let all = chunk_views(chunks@);
    lemma_limited_at(all, allowance(content_length), i);
    assert(chunk_views(r@).len() == r@.len());
    assert(all[i] == chunk_view(chunks@[i]));
    assert(chunk_views(r@)[i] == chunk_view(r@[i]));
}

/// The bytes of all chunks, one after the other.
pub open spec fn glued(chunks: Seq<Seq<u8>>) -> Seq<u8>
    decreases chunks.len(),
{
    if chunks.len() == 0 {
        Seq::empty()
    } else {
        glued(chunks.drop_last()) + chunks.last()
    }
}

proof fn lemma_glued_first(chunks: Seq<Seq<u8>>)
    requires
        chunks.len() > 0,
    ensures
        glued(chunks) == chunks[0] + glued(chunks.drop_first()),
    decreases chunks.len(),
{
    if chunks.len() > 1 {
        lemma_glued_first(chunks.drop_last());
        assert(chunks.drop_first().drop_last() =~= chunks.drop_last().drop_first());
        assert(chunks.drop_first().last() == chunks.last());
        assert(chunks[0] + glued(chunks.drop_last().drop_first()) + chunks.last() =~= chunks[0] + (
        glued(chunks.drop_last().drop_first()) + chunks.last()));
    } else {
        assert(chunks.drop_first() =~= Seq::empty());
        assert(chunks.drop_last() =~= Seq::empty());
        assert(glued(chunks) =~= chunks[0] + glued(chunks.drop_first()));
    }
}

proof fn lemma_buffered(chunks: Seq<Result<Seq<u8>, ErrorView>>)
    requires
        forall|i: int| 0 <= i < chunks.len() ==> (#[trigger] chunks[i]) is Ok,
    ensures
        buffered(chunks) == Ok::<Seq<u8>, ErrorView>(
            glued(chunks.map_values(|chunk: Result<Seq<u8>, ErrorView>| chunk->Ok_0)),
        ),
    decreases chunks.len(),
{
    let bytes = chunks.map_values(|chunk: Result<Seq<u8>, ErrorView>| chunk->Ok_0);
    if chunks.len() > 0 {
        let rest = chunks.drop_first();
        assert forall|i: int| 0 <= i < rest.len() implies (#[trigger] rest[i]) is Ok by {
            assert(chunks[i + 1] is Ok);
        }
        lemma_buffered(rest);
        lemma_glued_first(bytes);
        assert(bytes.drop_first() =~= rest.map_values(
            |chunk: Result<Seq<u8>, ErrorView>| chunk->Ok_0,
        ));
        assert(chunks[0] is Ok);
        assert(bytes[0] == chunks[0]->Ok_0);
    }
}

proof fn lemma_buffered_failure(chunks: Seq<Result<Seq<u8>, ErrorView>>, i: int)
    requires
        0 <= i < chunks.len(),
        chunks[i] is Err,
        forall|k: int| 0 <= k < i ==> (#[trigger] chunks[k]) is Ok,
    ensures
        buffered(chunks) == Err::<Seq<u8>, ErrorView>(read_failure(chunks[i]->Err_0)),
    decreases chunks.len(),
{
    if i > 0 {
        let rest = chunks.drop_first();
        assert(chunks[0] is Ok);
        assert forall|k: int| 0 <= k < i - 1 implies (#[trigger] rest[k]) is Ok by {
            assert(chunks[k + 1] is Ok);
        }
        lemma_buffered_failure(rest, i - 1);
    }
}

/// A buffer that is read holds the bytes of all chunks in their order. Where a chunk could not be had,
/// the first such error is reported, as the client's mistake and with its cause.
pub proof fn law_buffers_hold_all_chunks(
    chunks: Vec<Result<Vec<u8>, Error>>,
    r: Result<Vec<u8>, Error>,
    i: int,
)
    requires
        call_ensures(read_into_buffer, (chunks,), r),
    ensures
        (forall|k: int| 0 <= k < chunks@.len() ==> (#[trigger] chunks@[k]) is Ok) ==> {
            &&& r is Ok
            &&& r->Ok_0@ == glued(
                chunks@.map_values(|chunk: Result<Vec<u8>, Error>| chunk->Ok_0@),
            )
        },
        0 <= i < chunks@.len() && chunks@[i] is Err && (forall|k: int|
            0 <= k < i ==> (#[trigger] chunks@[k]) is Ok) ==> {
            &&& r is Err
            &&& r->Err_0@.response().status == 400
            &&& r->Err_0@.messages.skip(2) == chunks@[i]->Err_0@.messages
        },
{
    let all = chunk_views(chunks@);
    assert forall|k: int| 0 <= k < all.len() implies #[trigger] all[k] == chunk_view(
        chunks@[k],
    ) by {}
    if forall|k: int| 0 <= k < chunks@.len() ==> (#[trigger] chunks@[k]) is Ok {
        assert forall|k: int| 0 <= k < all.len() implies (#[trigger] all[k]) is Ok by {
            assert(chunks@[k] is Ok);
        }
        lemma_buffered(all);
        assert(all.map_values(|chunk: Result<Seq<u8>, ErrorView>| chunk->Ok_0)
            =~= chunks@.map_values(|chunk: Result<Vec<u8>, Error>| chunk->Ok_0@));
    }
    if 0 <= i < chunks@.len() && chunks@[i] is Err && (forall|k: int|
        0 <= k < i ==> (#[trigger] chunks@[k]) is Ok) {
        assert forall|k: int| 0 <= k < i implies (#[trigger] all[k]) is Ok by {
            assert(chunks@[k] is Ok);
        }
        assert(all[i] is Err);
        lemma_buffered_failure(all, i);
        assert(r->Err_0@.messages.skip(2) =~= chunks@[i]->Err_0@.messages);
    }
}

/// A body is refused exactly if it is announced as empty or as longer than allowed, and that is the
/// client's mistake; its chunks are handed on as they are.
pub proof fn law_announced_lengths_are_checked(
    content_length: u64,
    max_body_size: u64,
    checked: Result<(), Error>,
    chunks: Vec<Result<Vec<u8>, Error>>,
    stream: Result<Vec<Result<Vec<u8>, Error>>, Error>,
    buffer: Result<Vec<u8>, Error>,
)
    requires
        call_ensures(check_content_length, (content_length, max_body_size), checked),
        call_ensures(as_stream, (chunks, content_length, max_body_size), stream),
        call_ensures(body_as_buffer, (chunks, content_length, max_body_size), buffer),
    ensures
        checked is Ok <==> 0 < content_length <= max_body_size,
        checked is Err ==> checked->Err_0@.response().status == 400,
        stream is Ok <==> 0 < content_length <= max_body_size,
        stream is Ok ==> stream->Ok_0@ == chunks@,
        stream is Err ==> stream->Err_0@.response().status == 400,
        buffer is Ok ==> 0 < content_length <= max_body_size && buffer->Ok_0@.len()
            <= content_length,
        buffer is Err ==> buffer->Err_0@.response().status == 400,
{
    let all = chunk_views(chunks@);
    if buffer is Ok {
        law_body_is_whole_and_within_limits(all, content_length, max_body_size);
    } else {
        law_refused_body_is_a_client_error(all, content_length, max_body_size);
    }
}

/// A body that keeps to its length is read as it came, and no other is read.
pub proof fn law_bodies_are_read_whole(
    chunks: Vec<Result<Vec<u8>, Error>>,
    content_length: u64,
    max_body_size: u64,
    r: Result<Vec<u8>, Error>,
)
    requires
        call_ensures(body_as_buffer, (chunks, content_length, max_body_size), r),
        0 < content_length <= max_body_size,
        content_length <= i64::MAX,
    ensures
        ({
            let bytes = glued(chunks@.map_values(|chunk: Result<Vec<u8>, Error>| chunk->Ok_0@));
            let all_came = forall|k: int|
                0 <= k < chunks@.len() ==> (#[trigger] chunks@[k]) is Ok;
            &&& r is Ok <==> all_came && bytes.len() <= content_length
            &&& r is Ok ==> r->Ok_0@ == bytes
        }),
{
    let all = chunk_views(chunks@);
    let bytes = glued(chunks@.map_values(|chunk: Result<Vec<u8>, Error>| chunk->Ok_0@));
    assert forall|k: int| 0 <= k < all.len() implies #[trigger] all[k] == chunk_view(
        chunks@[k],
    ) by {}
    if forall|k: int| 0 <= k < chunks@.len() ==> (#[trigger] chunks@[k]) is Ok {
        assert forall|k: int| 0 <= k < all.len() implies (#[trigger] all[k]) is Ok by {
            assert(chunks@[k] is Ok);
        }
        lemma_buffered(all);
        assert(all.map_values(|chunk: Result<Seq<u8>, ErrorView>| chunk->Ok_0)
            =~= chunks@.map_values(|chunk: Result<Vec<u8>, Error>| chunk->Ok_0@));
        if bytes.len() <= content_length {
            law_honest_body_is_read(all, content_length, max_body_size);
        } else if r is Ok {
            law_body_is_whole_and_within_limits(all, content_length, max_body_size);
        }
    } else if r is Ok {
        law_body_is_whole_and_within_limits(all, content_length, max_body_size);
        let k = choose|k: int| 0 <= k < chunks@.len() && (#[trigger] chunks@[k]) is Err;
        lemma_some_failure(all, k);
    }
}

proof fn lemma_some_failure(chunks: Seq<Result<Seq<u8>, ErrorView>>, i: int)
    requires
        0 <= i < chunks.len(),
        chunks[i] is Err,
    ensures
        buffered(chunks) is Err,
    decreases chunks.len(),
{
    if i > 0 && chunks[0] is Ok {
        assert(chunks.drop_first()[i - 1] == chunks[i]);
        lemma_some_failure(chunks.drop_first(), i - 1);
    }
}

/// Text that was encoded is read as it was written; bytes that encode no text are the client's
/// mistake, and a body that could not be read stays unread.
pub proof fn law_text_is_read_as_written(
    data: Result<Vec<u8>, Error>,
    r: Result<String, Error>,
    text: Seq<char>,
)
    requires
        call_ensures(text_of_body, (data,), r),
    ensures
        data is Ok && data->Ok_0@ == encode_utf8(text) ==> r is Ok && r->Ok_0@ == text,
        data is Ok && !valid_utf8(data->Ok_0@) ==> r is Err && r->Err_0@.response().status == 400,
        data is Err ==> r is Err && r->Err_0@ == data->Err_0@,
{
    encode_utf8_valid_utf8(text);
    encode_utf8_decode_utf8(text);
}

/// What the parser made of the input is handed on; what it could not parse is the client's mistake, and
/// is told in its words.
pub proof fn law_unparsed_input_is_a_client_error<T>(
    parsed: Result<T, String>,
    json: Result<T, Error>,
    form: Result<T, Error>,
)
    requires
        call_ensures(decode_json::<T>, (parsed,), json),
        call_ensures(decode_form::<T>, (parsed,), form),
    ensures
        parsed is Ok ==> json is Ok && json->Ok_0 == parsed->Ok_0 && form is Ok && form->Ok_0
            == parsed->Ok_0,
        parsed is Err ==> {
            &&& json is Err && json->Err_0@.response().status == 400
            &&& json->Err_0@.messages.last() == parsed->Err_0@
            &&& form is Err && form->Err_0@.response().status == 400
            &&& form->Err_0@.messages.last() == parsed->Err_0@
        },
{
}

/// A success is answered with its status and its body, a failure with the error to respond with.
pub proof fn law_results_are_answered(
    response: Result<(u16, Result<Vec<u8>, String>), Error>,
    r: Result<JsonResponse, ApiError>,
    err: Error,
    rejection: ApiError,
)
    requires
        call_ensures(into_response_with_status, (response,), r),
        call_ensures(into_rejection, (err,), rejection),
    ensures
        r is Ok <==> response is Ok && (response->Ok_0).1 is Ok,
        r is Ok ==> r->Ok_0.status == (response->Ok_0).0 && r->Ok_0.body@ == (
        response->Ok_0).1->Ok_0@,
        response is Err ==> r->Err_0@ == response->Err_0@.response(),
        response is Ok && (response->Ok_0).1 is Err ==> r->Err_0@.status == 500,
        rejection@ == err@.response(),
        err@.api is None ==> rejection@.status == 500,
        err@.api is Some ==> Some(rejection@) == err@.api,
{
}

/// An error is answered with its own status and with its message and its code; anything else is left
/// to others.
pub proof fn law_rejections_are_answered(found: Option<&ApiError>, r: Option<JsonResponse>)
    requires
        call_ensures(handle_rejection, (found,), r),
    ensures
        r is Some <==> found is Some,
        r is Some ==> {
            let api = found->0;
            let message = "{\"message\":"@ + json_text(JsonView::Text(api.message@));
            &&& r->0.status == api.status
            &&& r->0.content_type@ == "application/json"@
            &&& api.code is None ==> r->0.body@ == encode_utf8(message + "}"@)
            &&& api.code is Some ==> r->0.body@ == encode_utf8(
                message + ",\"code\":"@ + json_text(JsonView::Text(api.code->0@)) + "}"@,
            )
        },
{
}

/// A percent sign and two hexadecimal digits stand for the byte that has these digits; all other bytes
/// stand for themselves.
pub proof fn law_escapes_stand_for_bytes(byte: u8, high: u8, low: u8, rest: Seq<u8>)
    requires
        hex_digit(high) == Some((byte / 16) as u8),
        hex_digit(low) == Some((byte % 16) as u8),
    ensures
        unescaped(seq!['%' as u8, high, low] + rest) == seq![byte] + unescaped(rest),
        byte != '%' as u8 ==> unescaped(seq![byte] + rest) == seq![byte] + unescaped(rest),
{
    let escape = seq!['%' as u8, high, low] + rest;
    assert(escape[0] == '%' as u8 && escape[1] == high && escape[2] == low);
    assert(escape.skip(3) =~= rest);
    assert((byte / 16) * 16 + byte % 16 == byte);
    assert((seq![byte] + rest).drop_first() =~= rest);
    assert((seq![byte] + rest)[0] == byte);
}

/// The limiter hands a chunk on as long as it is within what is left, of which it takes its length. A
/// longer one is an error, and so is every chunk after it; errors are handed on and take nothing.
pub proof fn law_limiters_count_down(
    content_length: u64,
    fresh: SizeLimiter,
    limiter: &mut SizeLimiter,
    chunk: Result<Vec<u8>, Error>,
    r: Result<Vec<u8>, Error>,
)
    requires
        call_ensures(SizeLimiter::new, (content_length,), fresh),
        call_ensures(SizeLimiter::limit, (limiter, chunk), r),
    ensures
        content_length <= i64::MAX ==> fresh@ == Some(content_length as nat),
        content_length > i64::MAX ==> fresh@ is None,
        chunk is Err ==> r is Err && r->Err_0@ == chunk->Err_0@ && final(limiter)@ == old(limiter)@,
        chunk is Ok && old(limiter)@ is Some && chunk->Ok_0@.len() <= old(limiter)@->0 ==> {
            &&& r is Ok && r->Ok_0@ == chunk->Ok_0@
            &&& final(limiter)@ == Some((old(limiter)@->0 - chunk->Ok_0@.len()) as nat)
        },
        chunk is Ok && old(limiter)@ is Some && chunk->Ok_0@.len() > old(limiter)@->0 ==> r is Err
            && final(limiter)@ is None,
        chunk is Ok && old(limiter)@ is None ==> r is Err && final(limiter)@ is None,
{
}

/// A chunk is put behind what has been read; one that could not be had is the client's mistake.
pub proof fn law_chunks_are_appended(
    data: &mut Vec<u8>,
    chunk: Result<Vec<u8>, Error>,
    r: Result<(), Error>,
)
    requires
        call_ensures(read_chunk, (data, chunk), r),
    ensures
        r is Ok <==> chunk is Ok,
        chunk is Ok ==> final(data)@ == old(data)@ + chunk->Ok_0@,
        chunk is Err ==> final(data)@ == old(data)@ && r->Err_0@.response().status == 400
            && r->Err_0@.messages.skip(2) == chunk->Err_0@.messages,
{
    if chunk is Err {
        assert(r->Err_0@.messages.skip(2) =~= chunk->Err_0@.messages);
    }
}

/// A length that does not fit 63 bits is never kept: nothing of such a body is read.
pub proof fn law_huge_bodies_are_not_read(
    chunks: Vec<Result<Vec<u8>, Error>>,
    content_length: u64,
    r: Vec<Result<Vec<u8>, Error>>,
    i: int,
)
    requires
        call_ensures(as_size_limited_stream, (chunks, content_length), r),
        content_length > i64::MAX,
        0 <= i < chunks@.len(),
    ensures
        r@.len() == chunks@.len(),
        r@[i] is Err,
{
    let all = chunk_views(chunks@);
    lemma_limited_at(all, allowance(content_length), i);
    assert(chunk_views(r@).len() == r@.len());
    assert(all[i] == chunk_view(chunks@[i]));
    assert(chunk_views(r@)[i] == chunk_view(r@[i]));
}

/// A body that holds an encoded text and keeps to its length is read as that text.
pub proof fn law_text_bodies_are_read(
    chunks: Vec<Result<Vec<u8>, Error>>,
    content_length: u64,
    max_body_size: u64,
    r: Result<String, Error>,
    text: Seq<char>,
)
    requires
        call_ensures(body_as_string, (chunks, content_length, max_body_size), r),
    ensures
        r is Err ==> r->Err_0@.response().status == 400,
        r is Ok ==> 0 < content_length <= max_body_size,
        0 < content_length <= max_body_size && content_length <= i64::MAX && (forall|k: int|
            0 <= k < chunks@.len() ==> (#[trigger] chunks@[k]) is Ok) && glued(
            chunks@.map_values(|chunk: Result<Vec<u8>, Error>| chunk->Ok_0@),
        ) == encode_utf8(text) && encode_utf8(text).len() <= content_length ==> r is Ok
            && r->Ok_0@ == text,
{
    let all = chunk_views(chunks@);
    encode_utf8_valid_utf8(text);
    encode_utf8_decode_utf8(text);
    if body(all, content_length, max_body_size) is Err {
        law_refused_body_is_a_client_error(all, content_length, max_body_size);
    }
    if forall|k: int| 0 <= k < chunks@.len() ==> (#[trigger] chunks@[k]) is Ok {
        assert forall|k: int| 0 <= k < all.len() implies (#[trigger] all[k]) is Ok by {
            assert(all[k] == chunk_view(chunks@[k]));
            assert(chunks@[k] is Ok);
        }
        lemma_buffered(all);
        assert(all.map_values(|chunk: Result<Seq<u8>, ErrorView>| chunk->Ok_0)
            =~= chunks@.map_values(|chunk: Result<Vec<u8>, Error>| chunk->Ok_0@));
        if 0 < content_length <= max_body_size && content_length <= i64::MAX && glued(
            chunks@.map_values(|chunk: Result<Vec<u8>, Error>| chunk->Ok_0@),
        ).len() <= content_length {
            law_honest_body_is_read(all, content_length, max_body_size);
        }
    }
}

/// A plain success is answered with the status 200.
pub proof fn law_successes_are_ok(
    result: Result<Result<Vec<u8>, String>, Error>,
    r: Result<JsonResponse, ApiError>,
)
    requires
        call_ensures(into_response, (result,), r),
    ensures
        r is Ok <==> result is Ok && result->Ok_0 is Ok,
        r is Ok ==> r->Ok_0.status == 200 && r->Ok_0.body@ == result->Ok_0->Ok_0@
            && r->Ok_0.content_type@ == "application/json"@,
        result is Err ==> r->Err_0@ == result->Err_0@.response(),
        result is Ok && result->Ok_0 is Err ==> r->Err_0@.status == 500,
{
}

/// A path segment is the text whose encoding it stands for; one without a percent sign stands for
/// itself.
pub proof fn law_segments_are_decoded(s: &str, r: DecodedSegment, text: Seq<char>)
    requires
        call_ensures(DecodedSegment::decode, (s,), r),
    ensures
        unescaped(s.spec_bytes()) == encode_utf8(text) ==> r.0@ == text,
        (forall|i: int| 0 <= i < s.spec_bytes().len() ==> s.spec_bytes()[i] != '%' as u8) ==> r.0@
            == s@,
{
    encode_utf8_valid_utf8(text);
    encode_utf8_decode_utf8(text);
}

} // verus!
