//! Tests of tag filters, percent-decoding, URI templates, list cursors and
//! the naming rules of mounting.
use fastmcp_server::mcp::McpErrorCode;
use fastmcp_server::oauth::url_encode;
use fastmcp_server::router::{
    apply_prefix, decode_cursor_offset, encode_cursor_offset, from_hex, list_page, mount_entries,
    percent_decode, validate_prefix, MountResult, TagFilters, UriTemplate, UriTemplateError,
};
use fastmcp_server::store::StrMap;


#[test]
fn uri_template_matches_simple_param() {
    let matcher = UriTemplate::new("file://{path}");
    let params = matcher.matches("file://foo").expect("match");
    assert_eq!(params.get("path").map(String::as_str), Some("foo"));
}

#[test]
fn uri_template_allows_slash_in_trailing_param() {
    let matcher = UriTemplate::new("file://{path}");
    let params = matcher.matches("file://foo/bar").expect("match");
    assert_eq!(params.get("path").map(String::as_str), Some("foo/bar"));
}

#[test]
fn uri_template_matches_multiple_params() {
    let matcher = UriTemplate::new("db://{table}/{id}");
    let params = matcher.matches("db://users/42").expect("match");
    assert_eq!(params.get("table").map(String::as_str), Some("users"));
    assert_eq!(params.get("id").map(String::as_str), Some("42"));
}

#[test]
fn uri_template_rejects_extra_segments() {
    let matcher = UriTemplate::new("db://{table}/{id}");
    assert!(matcher.matches("db://users/42/extra").is_none());
}

#[test]
fn uri_template_rejects_extra_segments_with_literal_path() {
    let matcher = UriTemplate::new("db://{table}/items/{id}");
    let params = matcher.matches("db://users/items/42").expect("match");
    assert_eq!(params.get("table").map(String::as_str), Some("users"));
    assert_eq!(params.get("id").map(String::as_str), Some("42"));
    assert!(matcher.matches("db://users/items/42/extra").is_none());
}

#[test]
fn uri_template_decodes_percent_encoded_values() {
    let matcher = UriTemplate::new("file://{path}");
    let params = matcher.matches("file://foo%2Fbar").expect("match");
    assert_eq!(params.get("path").map(String::as_str), Some("foo/bar"));
}

#[test]
fn uri_template_supports_escaped_braces() {
    let matcher = UriTemplate::new("file://{{literal}}/{id}");
    let params = matcher.matches("file://{literal}/123").expect("match");
    assert_eq!(params.get("id").map(String::as_str), Some("123"));
}

#[test]
fn uri_template_rejects_empty_param() {
    let err = UriTemplate::parse("file://{}/x").unwrap_err();
    assert_eq!(err, UriTemplateError::EmptyParam);
}

#[test]
fn uri_template_rejects_unmatched_close() {
    let err = UriTemplate::parse("file://}x").unwrap_err();
    assert_eq!(err, UriTemplateError::UnmatchedClose);
}

#[test]
fn uri_template_rejects_duplicate_params() {
    let err = UriTemplate::parse("db://{id}/{id}").unwrap_err();
    assert_eq!(err, UriTemplateError::DuplicateParam("id".to_string()));
}

#[test]
fn uri_template_rejects_unclosed_param() {
    let err = UriTemplate::parse("file://{path").unwrap_err();
    assert_eq!(err, UriTemplateError::UnclosedParam);
}

#[test]
fn uri_template_specificity_literal_only() {
    let t = UriTemplate::new("file://exact/path");
    let (lit_len, lit_segs, total_segs) = t.specificity();
    assert_eq!(lit_len, "file://exact/path".len());
    assert_eq!(lit_segs, 1);
    assert_eq!(total_segs, 1);
}

#[test]
fn uri_template_specificity_with_params() {
    let t = UriTemplate::new("db://{table}/items/{id}");
    let (lit_len, lit_segs, total_segs) = t.specificity();
    assert_eq!(lit_len, "db://".len() + "/items/".len());
    assert_eq!(lit_segs, 2);
    assert_eq!(total_segs, 4); // "db://", {table}, "/items/", {id}
}

#[test]
fn uri_template_no_match_on_literal_mismatch() {
    let t = UriTemplate::new("file://exact");
    assert!(t.matches("file://other").is_none());
}

#[test]
fn uri_template_rejects_empty_param_value() {
    let t = UriTemplate::new("db://{table}/items/{id}");
    // table would be empty
    assert!(t.matches("db:///items/42").is_none());
}

#[test]
fn uri_template_debug_and_clone() {
    let t = UriTemplate::new("file://{path}");
    let debug = format!("{:?}", t);
    assert!(debug.contains("file://{path}"));
    let cloned = t.clone();
    assert!(cloned.matches("file://test").is_some());
}

#[test]
fn uri_template_escaped_close_brace() {
    let t = UriTemplate::new("file://{{a}}/{id}");
    let params = t.matches("file://{a}/42").expect("match");
    assert_eq!(params.get("id").map(String::as_str), Some("42"));
}

#[test]
fn uri_template_try_new_ok() {
    let t = UriTemplate::try_new("file://{path}");
    assert!(t.is_ok());
}

#[test]
fn uri_template_try_new_err() {
    let t = UriTemplate::try_new("file://{");
    assert!(t.is_err());
}

#[test]
fn uri_template_new_invalid_returns_non_matching() {
    // Invalid template: UriTemplate::new should log a warning and return
    // a template that never matches any URI (fail-safe).
    let t = UriTemplate::new("file://{");
    assert!(t.matches("file://anything").is_none());
    assert!(t.matches("").is_none());
}

#[test]
fn uri_template_literal_only_no_match_empty() {
    let t = UriTemplate::new("file://exact");
    assert!(t.matches("").is_none());
    assert!(t.matches("file://exact").is_some());
}

#[test]
fn uri_template_multiple_params_empty_last() {
    // Last param must not be empty
    let t = UriTemplate::new("db://{table}/{id}");
    assert!(t.matches("db://users/").is_none());
}

#[test]
fn uri_template_adjacent_params_not_supported() {
    // Two adjacent params (no literal between them) should fail to match
    let t = UriTemplate::new("{a}{b}");
    assert!(t.matches("xy").is_none());
}

#[test]
fn uri_template_escaped_double_close_brace() {
    // Escaped closing braces: }} -> }
    let t = UriTemplate::new("a}}b/{id}");
    let params = t.matches("a}b/42").expect("match");
    assert_eq!(params.get("id").map(String::as_str), Some("42"));
}

#[test]
fn uri_template_specificity_param_only() {
    let t = UriTemplate::new("{all}");
    let (lit_len, lit_segs, total_segs) = t.specificity();
    assert_eq!(lit_len, 0);
    assert_eq!(lit_segs, 0);
    assert_eq!(total_segs, 1);
}


#[test]
fn no_percent_passthrough() {
    assert_eq!(percent_decode("hello"), Some("hello".to_string()));
}

#[test]
fn basic_percent_decode() {
    assert_eq!(percent_decode("foo%20bar"), Some("foo bar".to_string()));
}

#[test]
fn truncated_percent_returns_none() {
    assert!(percent_decode("foo%2").is_none());
}

#[test]
fn invalid_hex_returns_none() {
    assert!(percent_decode("foo%GG").is_none());
}

#[test]
fn from_hex_digits() {
    assert_eq!(from_hex(b'0'), Some(0));
    assert_eq!(from_hex(b'9'), Some(9));
    assert_eq!(from_hex(b'a'), Some(10));
    assert_eq!(from_hex(b'f'), Some(15));
    assert_eq!(from_hex(b'A'), Some(10));
    assert_eq!(from_hex(b'F'), Some(15));
    assert_eq!(from_hex(b'G'), None);
}


#[test]
fn roundtrip_zero() {
    let encoded = encode_cursor_offset(0);
    let decoded = decode_cursor_offset(Some(&encoded)).unwrap();
    assert_eq!(decoded, 0);
}

#[test]
fn roundtrip_large_offset() {
    let encoded = encode_cursor_offset(12345);
    let decoded = decode_cursor_offset(Some(&encoded)).unwrap();
    assert_eq!(decoded, 12345);
}

#[test]
fn none_cursor_returns_zero() {
    assert_eq!(decode_cursor_offset(None).unwrap(), 0);
}

#[test]
fn invalid_base64_returns_error() {
    let err = decode_cursor_offset(Some("not-valid-base64!!!")).unwrap_err();
    assert!(err.message.contains("base64"));
}

#[test]
fn valid_base64_but_not_json_returns_error() {
    let encoded =
        base64::Engine::encode(&base64::engine::general_purpose::STANDARD, b"not json");
    let err = decode_cursor_offset(Some(&encoded)).unwrap_err();
    assert!(err.message.contains("JSON"));
}

#[test]
fn valid_json_but_no_offset_returns_error() {
    let bytes = b"{\"other\":1}".to_vec();
    let encoded = base64::Engine::encode(&base64::engine::general_purpose::STANDARD, &bytes);
    let err = decode_cursor_offset(Some(&encoded)).unwrap_err();
    assert!(err.message.contains("offset"));
}


#[test]
fn no_filters_matches_anything() {
    let f = TagFilters::default();
    assert!(f.matches(&[]));
    assert!(f.matches(&["a".to_string()]));
}

#[test]
fn include_filter_requires_all_tags() {
    let wanted = vec!["a".to_string(), "b".to_string()];
    let f = TagFilters::new(Some(&wanted), None);
    assert!(f.matches(&["a".to_string(), "b".to_string(), "c".to_string()]));
    assert!(!f.matches(&["a".to_string()])); // missing "b"
}

#[test]
fn exclude_filter_rejects_any_tag() {
    let unwanted = vec!["x".to_string()];
    let f = TagFilters::new(None, Some(&unwanted));
    assert!(f.matches(&["a".to_string(), "b".to_string()]));
    assert!(!f.matches(&["a".to_string(), "x".to_string()]));
}

#[test]
fn include_and_exclude_combined() {
    let wanted = vec!["a".to_string()];
    let unwanted = vec!["b".to_string()];
    let f = TagFilters::new(Some(&wanted), Some(&unwanted));
    assert!(f.matches(&["a".to_string()]));
    assert!(!f.matches(&["a".to_string(), "b".to_string()])); // excluded
    assert!(!f.matches(&["c".to_string()])); // missing "a"
}

#[test]
fn case_insensitive_matching() {
    let wanted = vec!["Alpha".to_string()];
    let f = TagFilters::new(Some(&wanted), None);
    assert!(f.matches(&["alpha".to_string()]));
    assert!(f.matches(&["ALPHA".to_string()]));
}

#[test]
fn empty_include_array_passes_all() {
    let wanted: Vec<String> = vec![];
    let f = TagFilters::new(Some(&wanted), None);
    assert!(f.matches(&[]));
    assert!(f.matches(&["anything".to_string()]));
}

#[test]
fn tag_filters_debug() {
    let f = TagFilters::default();
    let debug = format!("{:?}", f);
    assert!(debug.contains("TagFilters"));
}
#[test]
fn mount_result_default_has_no_components() {
    let r = MountResult::default();
    assert!(!r.has_components());
    assert!(r.is_success());
}

#[test]
fn mount_result_with_tools_has_components() {
    let mut r = MountResult::default();
    r.tools = 1;
    assert!(r.has_components());
}

#[test]
fn mount_result_debug() {
    let r = MountResult::default();
    let debug = format!("{:?}", r);
    assert!(debug.contains("MountResult"));
}

#[test]
fn mount_result_with_resources_has_components() {
    let mut r = MountResult::default();
    r.resources = 1;
    assert!(r.has_components());
}

#[test]
fn mount_result_with_templates_has_components() {
    let mut r = MountResult::default();
    r.resource_templates = 1;
    assert!(r.has_components());
}

#[test]
fn mount_result_with_prompts_has_components() {
    let mut r = MountResult::default();
    r.prompts = 1;
    assert!(r.has_components());
}

#[test]
fn mount_result_is_success_with_warnings() {
    let mut r = MountResult::default();
    r.warnings.push("something".to_string());
    assert!(r.is_success()); // always true
}

#[test]
fn tag_filters_clone() {
    let wanted = vec!["a".to_string()];
    let f = TagFilters::new(Some(&wanted), None);
    let cloned = f.clone();
    assert!(cloned.matches(&["a".to_string()]));
    assert!(!cloned.matches(&["b".to_string()]));
}

#[test]
fn mount_result_is_success_always_true() {
    let result = MountResult {
        tools: 0,
        resources: 0,
        resource_templates: 0,
        prompts: 0,
        warnings: vec!["something".to_string()],
    };
    assert!(result.is_success());
    assert!(!result.has_components());
}

#[test]
fn apply_prefix_joins_with_slash() {
    assert_eq!(apply_prefix("query", Some("db")), "db/query");
    assert_eq!(apply_prefix("query", Some("")), "query");
    assert_eq!(apply_prefix("query", None), "query");
}

#[test]
fn validate_prefix_rules() {
    assert!(validate_prefix("").is_ok());
    assert!(validate_prefix("db_v2-x").is_ok());
    assert_eq!(
        validate_prefix("a/b").unwrap_err(),
        "Prefix cannot contain slashes: 'a/b'"
    );
    assert_eq!(
        validate_prefix("a.b").unwrap_err(),
        "Prefix contains invalid character '.': 'a.b'"
    );
}

#[test]
fn list_page_without_page_size_returns_everything() {
    let page = list_page(5, None, Some("garbage")).unwrap();
    assert_eq!((page.start, page.end), (0, 5));
    assert!(page.next_cursor.is_none());
}

#[test]
fn list_page_walks_the_list_with_cursors() {
    let first = list_page(5, Some(2), None).unwrap();
    assert_eq!((first.start, first.end), (0, 2));
    let cursor = first.next_cursor.unwrap();
    assert_eq!(decode_cursor_offset(Some(&cursor)).unwrap(), 2);
    let second = list_page(5, Some(2), Some(&cursor)).unwrap();
    assert_eq!((second.start, second.end), (2, 4));
    let third = list_page(5, Some(2), Some(&second.next_cursor.unwrap())).unwrap();
    assert_eq!((third.start, third.end), (4, 5));
    assert!(third.next_cursor.is_none());
}

#[test]
fn list_page_rejects_bad_cursor() {
    let err = list_page(5, Some(2), Some("not-valid-base64!!!")).unwrap_err();
    assert_eq!(err.code, McpErrorCode::InvalidParams);
    assert_eq!(err.message, "Invalid cursor (base64 decode failed)");
}

#[test]
fn encode_cursor_offset_exact_text() {
    // base64 of {"offset":3}
    assert_eq!(encode_cursor_offset(3), "eyJvZmZzZXQiOjN9");
}

#[test]
fn uri_template_invalid_matches_nothing_but_marker() {
    let t = UriTemplate::new("a}b");
    assert!(t.matches("a}b").is_none());
    assert!(t.matches("\0INVALID\0").is_some());
}

#[test]
fn apply_prefix_with_prefix() {
    assert_eq!(apply_prefix("tool", Some("ns")), "ns/tool");
}

#[test]
fn apply_prefix_no_prefix() {
    assert_eq!(apply_prefix("tool", None), "tool");
}

#[test]
fn apply_prefix_empty_prefix() {
    assert_eq!(apply_prefix("tool", Some("")), "tool");
}

#[test]
fn validate_prefix_valid() {
    assert!(validate_prefix("my-prefix_1").is_ok());
}

#[test]
fn validate_prefix_empty_is_ok() {
    assert!(validate_prefix("").is_ok());
}

#[test]
fn validate_prefix_rejects_slashes() {
    let err = validate_prefix("a/b").unwrap_err();
    assert!(err.contains("slashes"));
}

#[test]
fn validate_prefix_rejects_special_chars() {
    let err = validate_prefix("a@b").unwrap_err();
    assert!(err.contains("invalid character"));
}

fn registry(entries: &[(&str, u32)]) -> StrMap<u32> {
    let mut m = StrMap::new();
    for (k, v) in entries {
        m.insert(k.to_string(), *v);
    }
    m
}

#[test]
fn mount_entries_prefixes_names_in_order() {
    let mut dest = registry(&[("local", 1)]);
    let source = registry(&[("query", 2), ("insert", 3)]);
    let (count, warnings) = mount_entries(&mut dest, source, Some("db"), "Tool");
    assert_eq!(count, 2);
    assert!(warnings.is_empty());
    assert_eq!(dest.get("db/query"), Some(&2));
    assert_eq!(dest.get("db/insert"), Some(&3));
    assert_eq!(dest.get("local"), Some(&1));
    let keys: Vec<&String> = (0..dest.len()).map(|i| dest.key_at(i)).collect();
    assert_eq!(keys, vec!["local", "db/query", "db/insert"]);
}

#[test]
fn mount_entries_warns_and_replaces_on_conflict() {
    let mut dest = registry(&[("a", 1), ("db/b", 2)]);
    let source = registry(&[("b", 20), ("c", 30)]);
    let (count, warnings) = mount_entries(&mut dest, source, Some("db"), "Prompt");
    assert_eq!(count, 2);
    assert_eq!(warnings, vec!["Prompt 'db/b' already exists, will be overwritten".to_string()]);
    assert_eq!(dest.get("db/b"), Some(&20));
    // The replaced name keeps its place; the new one goes last.
    let keys: Vec<&String> = (0..dest.len()).map(|i| dest.key_at(i)).collect();
    assert_eq!(keys, vec!["a", "db/b", "db/c"]);
}

#[test]
fn mount_entries_without_prefix_keeps_names() {
    let mut dest: StrMap<u32> = StrMap::new();
    let source = registry(&[("x", 1)]);
    let (count, warnings) = mount_entries(&mut dest, source, None, "Resource");
    assert_eq!(count, 1);
    assert!(warnings.is_empty());
    assert_eq!(dest.get("x"), Some(&1));
}

#[test]
fn url_encode_then_percent_decode_gives_text_back() {
    for text in ["", "plain", "a b/c?d=e&f", "caf\u{e9} \u{1f600}", "100%"] {
        assert_eq!(percent_decode(&url_encode(text)), Some(text.to_string()));
    }
    assert_eq!(url_encode("a b"), "a%20b");
}

#[test]
fn url_encode_uses_only_the_encoded_alphabet() {
    assert_eq!(url_encode("hello world"), "hello%20world");
    assert_eq!(url_encode("a=b&c=d"), "a%3Db%26c%3Dd");
    assert_eq!(url_encode("safe-_~."), "safe-_~.");
    for text in ["a b/c?d=e&f", "caf\u{e9} \u{1f600}", "100%", "\u{0}\u{7f}"] {
        let e: Vec<char> = url_encode(text).chars().collect();
        for (i, c) in e.iter().enumerate() {
            if *c == '%' {
                assert!(e[i + 1].is_ascii_hexdigit() && !e[i + 1].is_ascii_lowercase());
                assert!(e[i + 2].is_ascii_hexdigit() && !e[i + 2].is_ascii_lowercase());
            } else {
                assert!(c.is_ascii_alphanumeric() || "-_.~".contains(*c));
            }
        }
    }
}
