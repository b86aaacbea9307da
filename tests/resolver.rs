use cder::{
    resolve_directive, resolve_env, resolve_ref, resolve_tags, try_consume, Environment,
    NameRegistry, ParseResult, ResolveError, TextMap,
};

fn text_map(pairs: &[(&str, &str)]) -> TextMap {
    let mut map = TextMap::new();
    for (name, value) in pairs {
        map.insert(name.to_string(), value.to_string());
    }
    map
}

fn found(directive: &str, key: &str, default: Option<&str>, start: usize, end: usize) -> ParseResult {
    ParseResult::Found {
        directive: directive.to_string(),
        key: key.to_string(),
        default: default.map(|d| d.to_string()),
        start,
        end,
    }
}

#[test]
fn test_resolve_tags() {
    let raw_text =
        "The quick brown ${{ ENV(FOX) }} jumps over\nthe lazy ${{ REF(dog) }}".to_string();

    // when the corresponding variable is set
    let env = text_map(&[("FOX", "🦊")]);
    // when the ref is successfully resolved
    let dict = text_map(&[("swan", "🦢"), ("dog", "🐕")]);
    let parsed_text = resolve_tags(&raw_text, &dict, &env).unwrap();
    assert_eq!(parsed_text, "The quick brown 🦊 jumps over\nthe lazy 🐕");

    // when the ref is undefined
    let dict = text_map(&[("swan", "🦢"), ("dolphin", "🐬")]);
    let parsed_text = resolve_tags(&raw_text, &dict, &env);
    assert!(parsed_text.is_err());

    // when the dict is empty
    let dict = NameRegistry::new();
    let parsed_text = resolve_tags(&raw_text, &dict, &env);
    assert!(parsed_text.is_err());

    // when the corresponding variable is NOT set
    let env = Environment::new();
    let dict = text_map(&[("swan", "🦢"), ("dog", "🐕")]);
    let parsed_text = resolve_tags(&raw_text, &dict, &env);
    assert!(parsed_text.is_err());

    // when the tag cannot be recognized (due to incorrect format)
    let raw_text = "The quick brown ${{ENV(FOX?)}} jumps over\nthe lazy {REF(dog)}".to_string();
    let parsed_text = resolve_tags(&raw_text, &dict, &env).unwrap();
    // it simply outputs the text as it is
    assert_eq!(
        parsed_text,
        "The quick brown ${{ENV(FOX?)}} jumps over\nthe lazy {REF(dog)}".to_string()
    );

    // when the tag contains unsupported directive name
    let raw_text = "The quick brown ${{REFERENCE(fox_id)}} jumps over the lazy dog".to_string();
    let parsed_text = resolve_tags(&raw_text, &dict, &env);
    assert!(parsed_text.is_err());
}

#[test]
fn test_resolve_ref() {
    let dict = text_map(&[("foo", "bar"), ("umi", "yama")]);

    let value = resolve_ref("foo", &dict).unwrap();
    assert_eq!(value, "bar");

    let value = resolve_ref("BAZ", &dict);
    assert!(value.is_err());

    let dict = NameRegistry::new();
    let value = resolve_ref("foo", &dict);
    assert!(value.is_err());
}

#[test]
fn test_resolve_env() {
    let key = "FOO";

    // when the corresponding variable is NOT set
    let env = Environment::new();
    assert!(resolve_env(key, None, &env).is_err());

    let value = resolve_env(key, Some("default".to_string()), &env).unwrap();
    assert_eq!(value, "default");

    // when the corresponding variable is set
    let env = text_map(&[(key, "SOME_VALUE")]);
    assert_eq!(resolve_env(key, None, &env).unwrap(), "SOME_VALUE");

    let value = resolve_env(key, Some("default".to_string()), &env).unwrap();
    assert_eq!(value, "SOME_VALUE");
}

#[test]
fn test_try_consume() {
    let source_text = "abc${{ SomeDirective(key-is-here)  }}xyz";
    let result = try_consume(source_text);
    // extracts the directive and the key surrounded between double braces ${{ }}
    assert_eq!(result, found("SomeDirective", "key-is-here", None, 3, 37));

    // when default value is provided after the key
    let source_text = r#"abc${{ SomeDirective(key-is-here:-DEFAULT1)  }}xyz"#;
    let result = try_consume(source_text);
    assert_eq!(result, found("SomeDirective", "key-is-here", Some("DEFAULT1"), 3, 47));

    // the default value may contain any non-control characters surrounded by double quotes
    // (be it a non-ascii character or punctuation)
    let source_text = r#"abc${{ SomeDirective(key-is-here:-"See? th|s @lso fa!!s b/\ck to .. `default` value 🏡")  }}xyz"#;
    let result = try_consume(source_text);
    assert_eq!(
        result,
        found(
            "SomeDirective",
            "key-is-here",
            Some(r#""See? th|s @lso fa!!s b/\ck to .. `default` value 🏡""#),
            3,
            94
        )
    );

    // when there is multiple "directive-key" matches
    let source_text =
        "abc${{ SomeDirective(key-is-here)  }}xyz${{ SomeOtherDirective(key) }}pqrs${{FOO(bar)}}";
    let result = try_consume(source_text);
    // it captures the first one
    assert_eq!(result, found("SomeDirective", "key-is-here", None, 3, 37));

    // spaces inside double braces are ignored
    let source_text = "${{　　　 FOOOOO( \t bar )   \t  }}";
    let result = try_consume(source_text);
    assert_eq!(result, found("FOOOOO", "bar", None, 0, 36));

    // when parsing the whole text (without offset)
    let source_text = "123456789${{Hoge(fuga)}}";
    let result = try_consume(source_text);
    assert_eq!(result, found("Hoge", "fuga", None, 9, 24));
    // when parsing the text from certain offset index
    let result = try_consume(&source_text[9..]);
    assert_eq!(result, found("Hoge", "fuga", None, 0, 15));

    // it detects the closest tag that appears after the offset
    let source_text = "${{A1(key1)}}  ${{A2(key2)}} ${{A3(key3)}}";
    let result = try_consume(source_text);
    assert_eq!(result, found("A1", "key1", None, 0, 13));
    let result = try_consume(&source_text[1..]);
    assert_eq!(result, found("A2", "key2", None, 14, 27));
    let result = try_consume(&source_text[16..]);
    assert_eq!(result, found("A3", "key3", None, 13, 26));
    let result = try_consume(&source_text[30..]);
    assert_eq!(result, ParseResult::Nothing);

    // does NOT capture the tag that is inside a pair of single braces
    let source_text = "foo bar baz{ hoge: fuga }";
    let result = try_consume(source_text);
    assert_eq!(result, ParseResult::Nothing);

    // does NOT capture the tag surrounded by non-pairing braces, or non-consecutive braces
    let source_text = "{not(a-tag)}} ${{not(a-tag-too)} }";
    let result = try_consume(source_text);
    assert_eq!(result, ParseResult::Nothing);

    // non-alphanumeric characters are not recognized as directive
    let source_text = "${{F-O-O(Bar)}}";
    let result = try_consume(source_text);
    assert_eq!(result, ParseResult::Nothing);

    // does NOT capture a tag that has no keys surrounded by parenthesis
    let source_text = "${{no-directive-here}}";
    let result = try_consume(source_text);
    assert_eq!(result, ParseResult::Nothing);

    // does NOT capture a tag that has mal-formatted key/parenthesis
    let source_text = "${{foo(bar)(baz)}}  ${{foo(hoge}}";
    let result = try_consume(source_text);
    assert_eq!(result, ParseResult::Nothing);
}

#[test]
fn substitute_end_to_end_with_emoji() {
    let raw_text = "The quick ${{ENV(FOX)}} jumps ${{REF(dog)}}";
    let env = text_map(&[("FOX", "🦊")]);
    let dict = text_map(&[("dog", "🐕")]);
    assert_eq!(resolve_tags(raw_text, &dict, &env).unwrap(), "The quick 🦊 jumps 🐕");
}

#[test]
fn substitute_missing_reference_fails_with_key() {
    let raw_text = "The quick ${{ENV(FOX)}} jumps ${{REF(dog)}}";
    let env = text_map(&[("FOX", "🦊")]);
    let dict = NameRegistry::new();
    assert_eq!(
        resolve_tags(raw_text, &dict, &env),
        Err(ResolveError::UnresolvedReference("dog".to_string()))
    );
}

#[test]
fn text_without_tags_is_unchanged() {
    let env = text_map(&[("A", "1")]);
    let dict = text_map(&[("b", "2")]);
    for text in ["", "plain text", "$ { { } }", "${{", "}}${{A(b)", "ünïcödé ✓"] {
        assert_eq!(resolve_tags(text, &dict, &env).unwrap(), text);
    }
}

#[test]
fn malformed_tags_pass_through() {
    let env = text_map(&[("FOO", "x")]);
    let dict = text_map(&[("dog", "y"), ("bar", "z")]);
    for text in ["${{ENV(FOO?)}}", "{REF(dog)}", "${{foo(bar)(baz)}}", "${{foo(hoge}}"] {
        assert_eq!(resolve_tags(text, &dict, &env).unwrap(), text);
    }
}

#[test]
fn env_value_wins_over_default() {
    let env = text_map(&[("K", "v")]);
    let dict = NameRegistry::new();
    assert_eq!(resolve_tags("${{ENV(K:-D)}}", &dict, &env).unwrap(), "v");
    let env = Environment::new();
    assert_eq!(resolve_tags("${{ENV(K:-D)}}", &dict, &env).unwrap(), "D");
    assert_eq!(
        resolve_tags("${{ENV(K)}}", &dict, &env),
        Err(ResolveError::MissingEnvironmentVariable("K".to_string()))
    );
}

#[test]
fn quoted_default_keeps_its_quotes() {
    let env = Environment::new();
    let dict = NameRegistry::new();
    let text = r#"<${{ ENV( HOME :- "ça va? (oui) 🏡" ) }}>"#;
    assert_eq!(resolve_tags(text, &dict, &env).unwrap(), r#"<"ça va? (oui) 🏡">"#);
}

#[test]
fn quoted_default_rejects_quote_and_control() {
    let env = Environment::new();
    let dict = NameRegistry::new();
    for text in [
        "${{ENV(K:-\"a\"b\")}}",
        "${{ENV(K:-\"a\tb\")}}",
        "${{ENV(K:-\"\")}}",
        "${{ENV(K:-a b)}}",
    ] {
        assert_eq!(try_consume(text), ParseResult::Nothing);
        assert_eq!(resolve_tags(text, &dict, &env).unwrap(), text);
    }
}

#[test]
fn default_does_not_serve_ref() {
    let env = Environment::new();
    let dict = NameRegistry::new();
    assert_eq!(
        resolve_tags("${{REF(dog:-fallback)}}", &dict, &env),
        Err(ResolveError::UnresolvedReference("dog".to_string()))
    );
}

#[test]
fn unsupported_directive_names_directive() {
    let env = Environment::new();
    let dict = NameRegistry::new();
    assert_eq!(
        resolve_tags("x ${{env(FOO)}} y", &dict, &env),
        Err(ResolveError::UnsupportedDirective("env".to_string()))
    );
    assert_eq!(
        resolve_directive("REFERENCE", "fox_id", None, &dict, &env),
        Err(ResolveError::UnsupportedDirective("REFERENCE".to_string()))
    );
}

#[test]
fn first_failing_tag_decides_the_error() {
    let env = Environment::new();
    let dict = NameRegistry::new();
    assert_eq!(
        resolve_tags("${{REF(a)}} ${{ENV(B)}}", &dict, &env),
        Err(ResolveError::UnresolvedReference("a".to_string()))
    );
    assert_eq!(
        resolve_tags("${{ENV(B)}} ${{REF(a)}}", &dict, &env),
        Err(ResolveError::MissingEnvironmentVariable("B".to_string()))
    );
}

#[test]
fn leftmost_tag_then_remainder() {
    let source = "x${{A(k1)}}y${{B ( k2 :- v2 ) }}z";
    match try_consume(source) {
        ParseResult::Found { directive, end, .. } => {
            assert_eq!(directive, "A");
            assert_eq!(end, 11);
            assert_eq!(
                try_consume(&source[end..]),
                found("B", "k2", Some("v2"), 1, 21)
            );
        }
        ParseResult::Nothing => panic!("a tag was expected"),
    }
}

#[test]
fn replacement_text_is_not_scanned_again() {
    let env = text_map(&[("A", "${{ENV(A)}}")]);
    let dict = NameRegistry::new();
    assert_eq!(resolve_tags("<${{ENV(A)}}>", &dict, &env).unwrap(), "<${{ENV(A)}}>");
}

#[test]
fn dollar_run_before_tag() {
    let env = text_map(&[("A", "1")]);
    let dict = NameRegistry::new();
    assert_eq!(resolve_tags("$$${{ENV(A)}}}", &dict, &env).unwrap(), "$$1}");
    assert_eq!(resolve_tags("${{{ENV(A)}}", &dict, &env).unwrap(), "${{{ENV(A)}}");
}

#[test]
fn offsets_count_bytes_of_multibyte_text() {
    assert_eq!(try_consume("é${{A(b)}}"), found("A", "b", None, 2, 11));
    assert_eq!(try_consume("🦊 ${{A(b)}}!"), found("A", "b", None, 5, 14));
}

#[test]
fn spaces_allowed_around_every_token() {
    let source = "${{\tREF \u{3000}( \u{a0}dog_1 :- \"x y\" \u{2028}) \n}}";
    assert_eq!(
        try_consume(source),
        found("REF", "dog_1", Some("\"x y\""), 0, source.len())
    );
    let env = Environment::new();
    let dict = text_map(&[("dog_1", "7")]);
    assert_eq!(resolve_tags(source, &dict, &env).unwrap(), "7");
}

#[test]
fn key_may_hold_underscore_and_dash() {
    let env = text_map(&[("A_B-c9", "ok")]);
    let dict = NameRegistry::new();
    assert_eq!(resolve_tags("${{ENV(A_B-c9)}}", &dict, &env).unwrap(), "ok");
    assert_eq!(resolve_tags("${{ENV(A.B)}}", &dict, &env).unwrap(), "${{ENV(A.B)}}");
}
