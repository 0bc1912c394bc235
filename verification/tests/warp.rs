use std::collections::HashMap;
use std::str::FromStr;
use wasabi::web::error::{
    ApiError, Error, ResultExt, BAD_REQUEST, CREATED, INTERNAL_SERVER_ERROR, NOT_FOUND, OK,
};
use wasabi::web::warp::{
    as_size_limited_stream, as_stream, body_as_buffer, body_as_string, decode_form, decode_json,
    handle_rejection, into_rejection, into_response, into_response_with_status, read_into_buffer,
    DecodedSegment, SizeLimiter,
};
use wasabi::web::DEFAULT_MAX_JSON_BODY_SIZE;

fn chunks(texts: &[&str]) -> Vec<Result<Vec<u8>, Error>> {
    texts.iter().map(|text| Ok(text.as_bytes().to_vec())).collect()
}

#[test]
fn as_size_limited_stream_allows_valid_size() {
    let result = as_size_limited_stream(chunks(&["hello"]), 5);

    assert!(result.iter().all(Result::is_ok));
}

#[test]
fn as_size_limited_stream_rejects_oversize_input() {
    let result = as_size_limited_stream(chunks(&["hello", "world", "foobar"]), 5);

    assert_eq!(result.iter().filter(|res| res.is_ok()).count(), 1);
    assert_eq!(result.iter().filter(|res| res.is_err()).count(), 2);
}

#[test]
fn as_size_limited_stream_handles_empty_input() {
    let result = as_size_limited_stream(chunks(&[""]), 0);

    assert!(result.iter().all(|res| res.is_ok()));
}

#[test]
fn as_size_limited_stream_propagates_stream_errors() {
    let result = as_size_limited_stream(vec![Err(Error::new("Test error"))], 5);

    assert!(result.iter().any(|res| res.is_err()));
}

#[test]
fn a_limiter_stays_shut() {
    let mut limiter = SizeLimiter::new(4);
    assert!(limiter.limit(Ok(vec![1, 2])).is_ok());
    assert_eq!(
        limiter.limit(Err(Error::new("lost"))).unwrap_err().message(),
        "lost"
    );
    assert_eq!(limiter.limit(Ok(vec![3, 4])).unwrap(), vec![3, 4]);
    assert!(limiter.limit(Ok(vec![])).is_ok());
    assert_eq!(
        limiter.limit(Ok(vec![5])).unwrap_err().message(),
        "Input data too large"
    );
    assert!(limiter.limit(Ok(vec![])).is_err());

    let mut limiter = SizeLimiter::new(1 << 63);
    assert!(limiter.limit(Ok(vec![])).is_err());
}

#[test]
fn into_rejection_preserves_api_error_status() {
    // Create an error with ApiError context
    let err = Error::new("root cause").context_api(ApiError::new(NOT_FOUND, "Not found"));

    let found = into_rejection(err);

    assert_eq!(found.status, NOT_FOUND);
    assert_eq!(found.message, "Not found");
}

#[test]
fn into_rejection_defaults_to_500_for_plain_errors() {
    let err = Error::new("Something went wrong");

    let found = into_rejection(err);

    assert_eq!(found.status, INTERNAL_SERVER_ERROR);
    assert!(found.message.contains("Something went wrong"));
}

#[test]
fn decoded_segment_decodes_percent_encoding() {
    let segment = DecodedSegment::from_str("hello%20world").unwrap();
    assert_eq!(segment.0, "hello world");
}

#[test]
fn decoded_segment_decodes_special_chars() {
    let segment = DecodedSegment::from_str("foo%2Fbar").unwrap();
    assert_eq!(segment.0, "foo/bar");

    let segment = DecodedSegment::from_str("a%3Db").unwrap();
    assert_eq!(segment.0, "a=b");
}

#[test]
fn decoded_segment_passes_through_plain_text() {
    let segment = DecodedSegment::from_str("hello").unwrap();
    assert_eq!(segment.0, "hello");
}

#[test]
fn decoded_segment_converts_to_string() {
    let segment = DecodedSegment::from_str("test").unwrap();
    let s: String = segment.into();
    assert_eq!(s, "test");
}

#[test]
fn segments_with_odd_escapes() {
    assert_eq!(DecodedSegment::decode("100%").0, "100%");
    assert_eq!(DecodedSegment::decode("%zz%4").0, "%zz%4");
    assert_eq!(DecodedSegment::decode("%25%32%35").0, "%25");
    assert_eq!(DecodedSegment::decode("%c3%A4").0, "ä");
    assert_eq!(DecodedSegment::decode("ü+%e2%82%ac").clone().0, "ü+€");
    assert_eq!(DecodedSegment::decode("a%ffb").0, "a\u{fffd}b");
}

#[test]
fn read_into_buffer_collects_chunks() {
    let result = read_into_buffer(chunks(&["hel", "lo"])).unwrap();
    assert_eq!(result, b"hello");
}

#[test]
fn read_into_buffer_handles_empty_stream() {
    let result = read_into_buffer(Vec::new()).unwrap();
    assert!(result.is_empty());
}

#[test]
fn a_failing_stream_is_a_client_error() {
    let err = read_into_buffer(vec![Ok(vec![1]), Err(Error::new("lost"))]).unwrap_err();
    assert_eq!(err.message(), "Failed to read body: lost");
    assert_eq!(into_rejection(err).status, BAD_REQUEST);
}

#[test]
fn body_as_buffer_reads_valid_body() {
    let result = body_as_buffer(chunks(&["hello", " world"]), 11, 100).unwrap();
    assert_eq!(result, b"hello world");
}

#[test]
fn body_as_buffer_rejects_empty_content_length() {
    let result = body_as_buffer(chunks(&[""]), 0, 100);

    assert!(result.is_err());
    assert!(result.unwrap_err().message().contains("Empty"));
}

#[test]
fn body_as_buffer_rejects_oversized_content_length() {
    let result = body_as_buffer(chunks(&["data"]), 1000, 100);

    assert!(result.is_err());
    assert!(result.unwrap_err().message().contains("too large"));
}

#[test]
fn a_body_longer_than_announced_is_refused() {
    let err = body_as_buffer(chunks(&["hello", " world"]), 10, 100).unwrap_err();
    assert_eq!(err.message(), "Failed to read body: Input data too large");
    let api = into_rejection(err);
    assert_eq!(api.status, BAD_REQUEST);

    assert_eq!(body_as_buffer(chunks(&["ab"]), 9, 9).unwrap(), b"ab");
}

#[test]
fn as_stream_returns_stream_for_valid_input() {
    let result = as_stream(chunks(&["test"]), 4, 100);

    assert!(result.is_ok());
    let mut stream = result.unwrap().into_iter();
    let first = stream.next().unwrap().unwrap();
    assert_eq!(first, b"test");
}

#[test]
fn as_stream_rejects_empty_content_length() {
    let result = as_stream(chunks(&[""]), 0, 100);

    assert!(result.is_err());
    assert!(result.err().unwrap().message().contains("Empty"));
}

#[test]
fn as_stream_rejects_oversized_content() {
    let result = as_stream(chunks(&["data"]), 1000, 100);

    assert!(result.is_err());
    assert!(result.err().unwrap().message().contains("too large"));
}

#[test]
fn a_stream_is_handed_on_and_limited_before_that() {
    let stream = as_stream(chunks(&["ab", "c"]), 1, 100).unwrap();
    let bytes: Vec<Vec<u8>> = stream.into_iter().map(Result::unwrap).collect();
    assert_eq!(bytes, [b"ab".to_vec(), b"c".to_vec()]);

    let limited = as_size_limited_stream(chunks(&["a", "bc"]), 2);
    let stream = as_stream(limited, 2, 100).unwrap();
    assert_eq!(stream[0].as_ref().unwrap(), b"a");
    assert_eq!(stream[1].as_ref().unwrap_err().message(), "Input data too large");
}

#[test]
fn body_as_string_reads_valid_utf8() {
    let result = body_as_string(chunks(&["hello"]), 5, 100).unwrap();
    assert_eq!(result, "hello");
}

#[test]
fn body_as_string_rejects_invalid_utf8() {
    let result = body_as_string(vec![Ok(vec![0xff, 0xfe, 0x00, 0x01])], 4, 100);

    assert!(result.is_err());
    assert!(result.unwrap_err().message().contains("UTF-8"));
}

#[test]
fn a_character_may_be_cut_by_chunks() {
    let euro = "€".as_bytes();
    let parts = vec![Ok(euro[..1].to_vec()), Ok(euro[1..].to_vec())];
    assert_eq!(body_as_string(parts, 3, 3).unwrap(), "€");
}

#[test]
fn decode_json_parses_valid_json() {
    let json = r#"{"name": "test", "value": 42}"#;
    let data = body_as_buffer(chunks(&[json]), json.len() as u64, 1000).unwrap();
    let parsed = serde_json::from_slice(&data).map_err(|err| err.to_string());
    let result: HashMap<String, serde_json::Value> = decode_json(parsed).unwrap();

    assert_eq!(result.len(), 2);
    assert_eq!(result["name"], "test");
    assert_eq!(result["value"], 42);
}

#[test]
fn decode_json_rejects_invalid_json() {
    let data = body_as_buffer(chunks(&["not json"]), 8, 1000).unwrap();
    let parsed = serde_json::from_slice(&data).map_err(|err| err.to_string());
    let result: Result<HashMap<String, serde_json::Value>, _> = decode_json(parsed);

    assert!(result.is_err());
    assert!(result.err().unwrap().message().contains("Invalid JSON"));
}

#[test]
fn decode_form_parses_valid_form_data() {
    let form = "username=alice&password=secret";
    let data = body_as_string(chunks(&[form]), form.len() as u64, 1000).unwrap();
    let parsed = serde_urlencoded::from_str(&data).map_err(|err| err.to_string());
    let result: HashMap<String, String> = decode_form(parsed).unwrap();

    assert_eq!(result.len(), 2);
    assert_eq!(result["username"], "alice");
    assert_eq!(result["password"], "secret");
}

#[test]
fn decode_form_handles_url_encoded_values() {
    let form = "query=hello%20world";
    let data = body_as_string(chunks(&[form]), form.len() as u64, 1000).unwrap();
    let parsed = serde_urlencoded::from_str(&data).map_err(|err| err.to_string());
    let result: HashMap<String, String> = decode_form(parsed).unwrap();

    assert_eq!(result.len(), 1);
    assert_eq!(result["query"], "hello world");
}

#[test]
fn parsed_input_is_handed_on() {
    assert_eq!(decode_json::<u8>(Ok(4)).unwrap(), 4);
    let err = decode_json::<u8>(Err("expected ident".to_string())).unwrap_err();
    assert_eq!(err.message(), "Invalid JSON input: expected ident");
    assert_eq!(into_rejection(err).status, BAD_REQUEST);
    let err = decode_form::<u8>(Err("missing field".to_string())).unwrap_err();
    assert_eq!(err.message(), "Invalid url-encoded data input: missing field");
}

#[test]
fn into_response_serializes_success() {
    let response = into_response(Ok(Ok(b"{\"message\":\"ok\"}".to_vec()))).unwrap();

    assert_eq!(response.status, OK);
    assert_eq!(response.content_type, "application/json");
    assert_eq!(response.body, b"{\"message\":\"ok\"}");
}

#[test]
fn into_response_converts_error_to_rejection() {
    let response = into_response(Err(Error::new("Something failed")));

    assert!(response.is_err());
}

#[test]
fn into_response_with_status_uses_custom_status() {
    let response = into_response_with_status(Ok((CREATED, Ok(b"{\"id\":123}".to_vec())))).unwrap();

    assert_eq!(response.status, CREATED);
}

#[test]
fn into_response_with_status_preserves_api_error() {
    // Create an error with ApiError via the ResultExt trait
    let result: Result<(u16, Result<Vec<u8>, String>), Error> =
        Err(Error::new("root cause").context("wrapped"));

    let response = into_response_with_status(result.with_status(BAD_REQUEST));

    assert!(response.is_err());
    let api_error = response.err().unwrap();
    assert_eq!(api_error.status, BAD_REQUEST);
}

#[test]
fn data_that_cannot_be_serialized_is_the_servers_fault() {
    let api = into_response(Ok(Err("key must be a string".to_string()))).unwrap_err();
    assert_eq!(api.status, INTERNAL_SERVER_ERROR);
    assert_eq!(api.message, "Failed to serialize data: key must be a string");
}

#[test]
fn the_default_limit_is_ten_megabytes() {
    assert_eq!(DEFAULT_MAX_JSON_BODY_SIZE, 10 * 1000 * 1000);
}

#[test]
fn rejections_are_answered_with_status_message_and_code() {
    let reply = handle_rejection(Some(&ApiError::new(NOT_FOUND, "No \"x\""))).unwrap();
    assert_eq!(reply.status, 404);
    assert_eq!(reply.content_type, "application/json");
    assert_eq!(reply.body, b"{\"message\":\"No \\\"x\\\"\"}");

    let api = ApiError::with_code(BAD_REQUEST, "auth.invalid", "Ungültig");
    let reply = handle_rejection(Some(&api)).unwrap();
    assert_eq!(reply.status, 400);
    assert_eq!(
        String::from_utf8(reply.body).unwrap(),
        "{\"message\":\"Ungültig\",\"code\":\"auth.invalid\"}"
    );

    let plain = into_rejection(Error::new("cause").context("Something failed"));
    let reply = handle_rejection(Some(&plain)).unwrap();
    assert_eq!(reply.status, 500);
    assert_eq!(reply.body, b"{\"message\":\"Something failed: cause\"}");

    assert!(handle_rejection(None).is_none());
}
