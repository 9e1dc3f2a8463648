use http_engine::tokenizer::{InvalidToken, Tag, Tokenizer};
use http_engine::uri::{HttpSchemeEnum, Uri};

#[test]
fn test_parse_easy() {
    let test_uri = String::from("https://telemakos.io");
    let mut tokenizer = Tokenizer::new(test_uri.clone());

    let parsed_uri = Uri::parse_tokens(&mut tokenizer).ok().unwrap();
    assert_eq!(parsed_uri.scheme(), HttpSchemeEnum::HTTPS);
    assert_eq!(parsed_uri.host(), "telemakos.io");
    assert_eq!(parsed_uri.port(), 443);
    assert_eq!(parsed_uri.query(), None);
}

#[test]
fn test_parse_with_port() {
    let test_uri = String::from("https://telemakos.io:600");
    let mut tokenizer = Tokenizer::new(test_uri.clone());

    let parsed_uri = Uri::parse_tokens(&mut tokenizer).ok().unwrap();
    assert_eq!(parsed_uri.scheme(), HttpSchemeEnum::HTTPS);
    assert_eq!(parsed_uri.host(), "telemakos.io");
    assert_eq!(parsed_uri.port(), 600);
    assert_eq!(parsed_uri.query(), None);
}

#[test]
fn test_parse_with_port_and_query() {
    let test_uri = String::from("https://telemakos.io:600/?test_query");
    let mut tokenizer = Tokenizer::new(test_uri.clone());

    let parsed_uri = Uri::parse_tokens(&mut tokenizer).ok().unwrap();
    assert_eq!(parsed_uri.scheme(), HttpSchemeEnum::HTTPS);
    assert_eq!(parsed_uri.host(), "telemakos.io");
    assert_eq!(parsed_uri.port(), 600);
    assert_eq!(parsed_uri.query(), Some("test_query"));
}

#[test]
fn test_parse_with_port_and_query_and_fragment() {
    let test_uri = String::from("https://telemakos.io:600/?test_query#bruh-fragment");
    let mut tokenizer = Tokenizer::new(test_uri.clone());

    let parsed_uri = Uri::parse_tokens(&mut tokenizer).ok().unwrap();
    assert_eq!(parsed_uri.scheme(), HttpSchemeEnum::HTTPS);
    assert_eq!(parsed_uri.host(), "telemakos.io");
    assert_eq!(parsed_uri.port(), 600);
    assert_eq!(parsed_uri.query(), Some("test_query"));
}

#[test]
fn test_tokenizer() {
    let test_uri = String::from("https://telemakos.io");
    let mut tokenizer = Tokenizer::new(test_uri.clone());

    let tokens = tokenizer.tokens().ok().unwrap();
    for token in tokens {
        let token_str = tokenizer.token_text(&token);
        match token.tag() {
            Tag::Scheme => assert_eq!(token_str, "https"),
            Tag::Authority => assert_eq!(token_str, "telemakos.io"),
            Tag::Path => assert_eq!(token_str, ""),
            _ => panic!("failed on tag {:?}", token.tag()),
        }
    }
}

#[test]
fn test_tokenizer_port() {
    let test_uri = String::from("https://telemakos.io:90");
    let mut tokenizer = Tokenizer::new(test_uri.clone());

    let tokens = tokenizer.tokens().ok().unwrap();
    for token in tokens {
        let token_str = tokenizer.token_text(&token);
        match token.tag() {
            Tag::Scheme => assert_eq!(token_str, "https"),
            Tag::Authority => assert_eq!(token_str, "telemakos.io"),
            Tag::Port => assert_eq!(token_str, "90"),
            _ => panic!("failed on tag {:?}", token.tag()),
        }
    }
}

#[test]
fn test_tokenizer_port_query() {
    let test_uri = String::from("https://telemakos.io:90/?kendric_tpabf");
    let mut tokenizer = Tokenizer::new(test_uri.clone());

    let tokens = tokenizer.tokens().ok().unwrap();
    for token in tokens {
        let token_str = tokenizer.token_text(&token);
        match token.tag() {
            Tag::Scheme => assert_eq!(token_str, "https"),
            Tag::Authority => assert_eq!(token_str, "telemakos.io"),
            Tag::Port => assert_eq!(token_str, "90"),
            Tag::Query => assert_eq!(token_str, "kendric_tpabf"),
            Tag::Path => assert_eq!(token_str, ""),
            _ => panic!("failed on tag {:?}", token.tag()),
        }
    }
}

#[test]
fn test_tokenizer_port_query_fragment() {
    let test_uri = String::from("https://telemakos.io:90/?kendric_tpabf#bruh!");
    let mut tokenizer = Tokenizer::new(test_uri.clone());

    let tokens = tokenizer.tokens().ok().unwrap();
    for token in tokens {
        let token_str = tokenizer.token_text(&token);
        match token.tag() {
            Tag::Scheme => assert_eq!(token_str, "https"),
            Tag::Authority => assert_eq!(token_str, "telemakos.io"),
            Tag::Port => assert_eq!(token_str, "90"),
            Tag::Query => assert_eq!(token_str, "kendric_tpabf"),
            Tag::Path => assert_eq!(token_str, ""),
            Tag::Fragment => assert_eq!(token_str, "bruh!"),
            _ => panic!("failed on tag {:?}", token.tag()),
        }
    }
}

#[test]
fn test_tokenizer_invalid_scheme() {
    let test_uri = String::from("htLtps://telemakos.io:90/?kendric_tpabf#bruh!");
    let mut tokenizer = Tokenizer::new(test_uri.clone());

    match tokenizer.tokens() {
        Ok(_) => assert!(false),
        Err(e) => assert_eq!(e, InvalidToken {}),
    };
}

#[test]
fn test_tokenizer_invalid_auth() {
    let test_uri = String::from("https://tele%makos.io:90/?kendric_tpabf#bruh!");
    let mut tokenizer = Tokenizer::new(test_uri.clone());

    match tokenizer.tokens() {
        Ok(_) => assert!(false),
        Err(e) => assert_eq!(e, InvalidToken {}),
    };
}

#[test]
fn test_tokenizer_invalid_port() {
    let test_uri = String::from("https://telemakos.io:90a/?kendric_tpabf#bruh!");
    let mut tokenizer = Tokenizer::new(test_uri.clone());

    match tokenizer.tokens() {
        Ok(_) => assert!(false),
        Err(e) => assert_eq!(e, InvalidToken {}),
    };
}

// The tokenizer stops at the first disallowed character: the machine
// is still in the state that met it, having consumed nothing further.
#[test]
fn test_tokenizer_invalid_scheme_consumes_nothing_further() {
    let test_uri = String::from("htLtps://x");
    let mut tokenizer = Tokenizer::new(test_uri);
    assert!(tokenizer.tokens().is_err());
    // The failing character is the `L`, met while scanning the scheme.
    assert_eq!(tokenizer.current_tag(), Tag::Scheme);
}

// Every token of the full form, spans read back as text.
#[test]
fn test_tokenizer_full_uri_components() {
    let test_uri = String::from("https://telemakos.io:600/?test_query#frag");
    let mut tokenizer = Tokenizer::new(test_uri);
    let tokens = tokenizer.tokens().ok().unwrap();
    let texts: Vec<(Tag, String)> = tokens
        .iter()
        .map(|t| (t.tag(), tokenizer.token_text(t)))
        .collect();
    assert_eq!(
        texts,
        vec![
            (Tag::Scheme, "https".to_string()),
            (Tag::Authority, "telemakos.io".to_string()),
            (Tag::Port, "600".to_string()),
            (Tag::Path, "".to_string()),
            (Tag::Query, "test_query".to_string()),
            (Tag::Fragment, "frag".to_string()),
        ]
    );
}

// A user-info section closes its own token and the host follows.
#[test]
fn test_tokenizer_userinfo() {
    let test_uri = String::from("https://user@host/");
    let mut tokenizer = Tokenizer::new(test_uri);
    let tokens = tokenizer.tokens().ok().unwrap();
    let texts: Vec<(Tag, String)> = tokens
        .iter()
        .map(|t| (t.tag(), tokenizer.token_text(t)))
        .collect();
    assert_eq!(
        texts,
        vec![
            (Tag::Scheme, "https".to_string()),
            (Tag::UserInfo, "user".to_string()),
            (Tag::Authority, "host".to_string()),
            (Tag::Path, "".to_string()),
        ]
    );
}

// The default-port policy is the URI parser's, not the tokenizer's:
// no port token at all for `http`, and 80 is filled in.
#[test]
fn test_parse_http_default_port() {
    let test_uri = String::from("http://example.org");
    let mut tokenizer = Tokenizer::new(test_uri);
    let parsed_uri = Uri::parse_tokens(&mut tokenizer).ok().unwrap();
    assert_eq!(parsed_uri.scheme(), HttpSchemeEnum::HTTP);
    assert_eq!(parsed_uri.port(), 80);
}

// A port whose digits do not fit in sixteen bits is rejected instead
// of wrapping or panicking.
#[test]
fn test_parse_port_overflow() {
    let test_uri = String::from("https://example.org:99999/");
    let mut tokenizer = Tokenizer::new(test_uri);
    assert!(Uri::parse_tokens(&mut tokenizer).is_err());
}

// A scheme the parser does not know (here `htp`, which the tokenizer
// accepts) is rejected by the URI parser.
#[test]
fn test_parse_unknown_scheme() {
    let test_uri = String::from("htp://example.org");
    let mut tokenizer = Tokenizer::new(test_uri);
    assert!(Uri::parse_tokens(&mut tokenizer).is_err());
}

// An authority followed directly by the end of the buffer is followed
// by a zero-length Path token, not an omitted one.
#[test]
fn test_tokenizer_empty_path_token_at_end() {
    let test_uri = String::from("https://telemakos.io");
    let mut tokenizer = Tokenizer::new(test_uri);
    let tokens = tokenizer.tokens().ok().unwrap();
    let texts: Vec<(Tag, String)> = tokens
        .iter()
        .map(|t| (t.tag(), tokenizer.token_text(t)))
        .collect();
    assert_eq!(
        texts,
        vec![
            (Tag::Scheme, "https".to_string()),
            (Tag::Authority, "telemakos.io".to_string()),
            (Tag::Path, "".to_string()),
        ]
    );
}

// `?` and `#` are outside the authority's allowed set (unreserved plus
// sub-delimiters): meeting one there aborts the whole pass.
#[test]
fn test_tokenizer_question_mark_in_authority_fails() {
    let mut tokenizer = Tokenizer::new(String::from("https://a?b"));
    match tokenizer.tokens() {
        Ok(_) => assert!(false),
        Err(e) => assert_eq!(e, InvalidToken {}),
    };
    assert_eq!(tokenizer.current_tag(), Tag::Authority);
}

#[test]
fn test_tokenizer_hash_in_authority_fails() {
    let mut tokenizer = Tokenizer::new(String::from("https://a#b"));
    assert!(tokenizer.tokens().is_err());
}
