use hls_multivariant::error::SyntaxError;
use hls_multivariant::parser::{
    parse_attributes, parse_line, AttributeMap, AttributeValue, ParsedLine,
};
use regex::Regex;

#[test]
fn empty_line() {
    assert!(matches!(parse_line(""), Ok(ParsedLine::Empty)));
}

#[test]
fn header_line_is_exact() {
    assert!(matches!(parse_line("#EXTM3U"), Ok(ParsedLine::ExtM3U)));
    assert!(matches!(parse_line("#EXTM3U "), Err(SyntaxError::LineClassification)));
    assert!(matches!(parse_line(" #EXTM3U"), Err(SyntaxError::LineClassification)));
    assert!(matches!(parse_line("#EXTM3U\r"), Err(SyntaxError::LineClassification)));
    assert!(matches!(parse_line("#extm3u"), Err(SyntaxError::LineClassification)));
    assert!(matches!(parse_line("EXTM3U"), Ok(ParsedLine::Uri(_))));
}

#[test]
fn bare_tag() {
    match parse_line("#EXT-X-INDEPENDENT-SEGMENTS") {
        Ok(ParsedLine::Tag(name)) => assert_eq!(name, "EXT-X-INDEPENDENT-SEGMENTS"),
        other => panic!("{:?}", other),
    }
    match parse_line("#EXT-X-a") {
        Ok(ParsedLine::Tag(name)) => assert_eq!(name, "EXT-X-a"),
        other => panic!("{:?}", other),
    }
}

#[test]
fn tag_with_a_colon_and_nothing_after_it_is_a_bare_tag() {
    match parse_line("#EXT-X-MEDIA:") {
        Ok(ParsedLine::Tag(name)) => assert_eq!(name, "EXT-X-MEDIA"),
        other => panic!("{:?}", other),
    }
}

#[test]
fn tag_with_attributes() {
    match parse_line("#EXT-X-STREAM-INF:BANDWIDTH=100,AUDIO=\"a\"") {
        Ok(ParsedLine::TagWithAttributes(name, attributes)) => {
            assert_eq!(name, "EXT-X-STREAM-INF");
            assert!(matches!(attributes.get("BANDWIDTH"), Some(AttributeValue::Integer(100))));
            match attributes.get("AUDIO") {
                Some(AttributeValue::QuotedString(s)) => assert_eq!(s, "a"),
                other => panic!("{:?}", other),
            }
            assert!(attributes.get("CODECS").is_none());
            assert!(attributes.get("bandwidth").is_none());
        }
        other => panic!("{:?}", other),
    }
}

#[test]
fn tag_name_needs_a_letter_or_hyphen_after_the_prefix() {
    assert!(matches!(parse_line("#EXT-X-"), Err(SyntaxError::LineClassification)));
    assert!(matches!(parse_line("#EXT-X-:A=1"), Err(SyntaxError::LineClassification)));
    assert!(matches!(parse_line("#EXT-X-1"), Err(SyntaxError::LineClassification)));
    assert!(matches!(parse_line("#EXT-X"), Err(SyntaxError::LineClassification)));
    assert!(matches!(parse_line("#EXTINF:10"), Err(SyntaxError::LineClassification)));
    assert!(matches!(parse_line("# a comment"), Err(SyntaxError::LineClassification)));
}

#[test]
fn tag_name_ends_at_the_end_or_at_a_colon() {
    assert!(matches!(parse_line("#EXT-X-MEDIA TYPE=AUDIO"), Err(SyntaxError::LineClassification)));
    assert!(matches!(parse_line("#EXT-X-MEDIA=1"), Err(SyntaxError::LineClassification)));
    assert!(matches!(parse_line("#EXT-X-VERSION2"), Err(SyntaxError::LineClassification)));
}

#[test]
fn tag_whose_attributes_cannot_be_read_is_no_line() {
    assert!(matches!(parse_line("#EXT-X-MEDIA:TYPE"), Err(SyntaxError::AttributeSyntax)));
    assert!(matches!(parse_line("#EXT-X-MEDIA:=AUDIO"), Err(SyntaxError::AttributeSyntax)));
    assert!(matches!(parse_line("#EXT-X-MEDIA:TYPE=AUDIO;A=1"), Err(SyntaxError::AttributeSyntax)));
    assert!(matches!(parse_line("#EXT-X-MEDIA:TYPE="), Err(SyntaxError::Lex)));
    assert!(matches!(parse_line("#EXT-X-MEDIA:TYPE=\"open"), Err(SyntaxError::Lex)));
    assert!(matches!(parse_line("#EXT-X-VERSION:7.x"), Err(SyntaxError::AttributeSyntax)));
}

#[test]
fn uri_line() {
    match parse_line("hdr10/unenc/1650k/vod.m3u8") {
        Ok(ParsedLine::Uri(uri)) => assert_eq!(uri, "hdr10/unenc/1650k/vod.m3u8"),
        other => panic!("{:?}", other),
    }
    match parse_line("https://example.com:8080/a/b.m3u8") {
        Ok(ParsedLine::Uri(uri)) => assert_eq!(uri, "https://example.com:8080/a/b.m3u8"),
        other => panic!("{:?}", other),
    }
}

#[test]
fn uri_line_has_letters_digits_slash_point_and_colon_only() {
    assert!(matches!(parse_line("audio/aac_128k/vod.m3u8"), Err(SyntaxError::LineClassification)));
    assert!(matches!(parse_line("vod-iframe.m3u8"), Err(SyntaxError::LineClassification)));
    assert!(matches!(parse_line("a b"), Err(SyntaxError::LineClassification)));
    assert!(matches!(parse_line("vod.m3u8?x=1"), Err(SyntaxError::LineClassification)));
    assert!(matches!(parse_line("vod.m3u8\r"), Err(SyntaxError::LineClassification)));
    assert!(matches!(parse_line("caf\u{e9}.m3u8"), Err(SyntaxError::LineClassification)));
    assert!(matches!(parse_line(" "), Err(SyntaxError::LineClassification)));
}

#[test]
fn attribute_list_of_one() {
    let attributes = parse_attributes("BANDWIDTH=100").unwrap();
    assert!(matches!(attributes.get("BANDWIDTH"), Some(AttributeValue::Integer(100))));
}

#[test]
fn empty_text_is_no_attribute_list() {
    assert!(matches!(parse_attributes(""), Err(SyntaxError::AttributeSyntax)));
}

#[test]
fn attribute_list_may_not_end_on_a_comma() {
    assert!(matches!(parse_attributes("BANDWIDTH=1,"), Err(SyntaxError::AttributeSyntax)));
    assert!(matches!(parse_attributes("A=1,"), Err(SyntaxError::AttributeSyntax)));
    assert!(matches!(parse_attributes("A=1,B=\"b\","), Err(SyntaxError::AttributeSyntax)));
    assert!(matches!(parse_attributes("A=1,,"), Err(SyntaxError::AttributeSyntax)));
    assert!(matches!(parse_attributes("A=1,,B=2"), Err(SyntaxError::AttributeSyntax)));
    assert!(matches!(parse_attributes(","), Err(SyntaxError::AttributeSyntax)));
    assert!(parse_attributes("A=1,B=2").is_ok());
}

#[test]
fn tag_whose_attribute_list_ends_on_a_comma_is_no_line() {
    assert!(matches!(
        parse_line("#EXT-X-STREAM-INF:BANDWIDTH=100,"),
        Err(SyntaxError::AttributeSyntax)
    ));
    assert!(matches!(
        parse_line("#EXT-X-STREAM-INF:BANDWIDTH=100"),
        Ok(ParsedLine::TagWithAttributes(_, _))
    ));
}

#[test]
fn later_attribute_of_the_same_name_wins() {
    let attributes = parse_attributes("A=1,B=x,A=\"two\",A=3.0").unwrap();
    match attributes.get("A") {
        Some(AttributeValue::Float(d)) => assert_eq!(d.as_str(), "3.0"),
        other => panic!("{:?}", other),
    }
    match attributes.get("B") {
        Some(AttributeValue::EnumeratedString(s)) => assert_eq!(s, "x"),
        other => panic!("{:?}", other),
    }
}

#[test]
fn attribute_list_counts_each_name_once() {
    assert_eq!(AttributeMap::new().len(), 0);
    assert_eq!(parse_attributes("A=1").unwrap().len(), 1);
    assert_eq!(parse_attributes("A=1,B=2,C=3").unwrap().len(), 3);
    assert_eq!(parse_attributes("A=1,B=2,A=3,A=4,B=5").unwrap().len(), 2);
}

#[test]
fn attribute_map_is_filled_name_by_name() {
    let mut attributes = AttributeMap::new();
    assert_eq!(attributes.len(), 0);
    assert!(attributes.get("A").is_none());
    attributes.insert("A".to_string(), AttributeValue::Integer(1));
    attributes.insert("B".to_string(), AttributeValue::Integer(2));
    assert_eq!(attributes.len(), 2);
    attributes.insert("A".to_string(), AttributeValue::Integer(3));
    assert_eq!(attributes.len(), 2);
    assert!(matches!(attributes.get("A"), Some(AttributeValue::Integer(3))));
    assert!(matches!(attributes.get("B"), Some(AttributeValue::Integer(2))));
    assert!(attributes.get("C").is_none());
}

#[test]
fn attribute_names_are_told_apart_exactly() {
    let attributes = parse_attributes("BANDWIDTH=1,AVERAGE-BANDWIDTH=2,bandwidth=3").unwrap();
    assert!(matches!(attributes.get("BANDWIDTH"), Some(AttributeValue::Integer(1))));
    assert!(matches!(attributes.get("AVERAGE-BANDWIDTH"), Some(AttributeValue::Integer(2))));
    assert!(matches!(attributes.get("bandwidth"), Some(AttributeValue::Integer(3))));
    assert!(attributes.get("BANDWIDT").is_none());
    assert!(attributes.get("BANDWIDTHS").is_none());
}

#[test]
fn attribute_syntax_errors() {
    assert!(matches!(parse_attributes("A"), Err(SyntaxError::AttributeSyntax)));
    assert!(matches!(parse_attributes("A1=1"), Err(SyntaxError::AttributeSyntax)));
    assert!(matches!(parse_attributes("=1"), Err(SyntaxError::AttributeSyntax)));
    assert!(matches!(parse_attributes(" A=1"), Err(SyntaxError::AttributeSyntax)));
    assert!(matches!(parse_attributes("A=1 ,B=2"), Err(SyntaxError::AttributeSyntax)));
    assert!(matches!(parse_attributes("A=1;B=2"), Err(SyntaxError::AttributeSyntax)));
    assert!(matches!(parse_attributes("A=1, B=2"), Err(SyntaxError::AttributeSyntax)));
    assert!(matches!(parse_attributes("A=12.5.1"), Err(SyntaxError::AttributeSyntax)));
}

#[test]
fn attribute_lex_errors() {
    assert!(matches!(parse_attributes("A="), Err(SyntaxError::Lex)));
    assert!(matches!(parse_attributes("A=,B=1"), Err(SyntaxError::Lex)));
    assert!(matches!(parse_attributes("A=\"\""), Err(SyntaxError::Lex)));
    assert!(matches!(parse_attributes("A=1,B=18446744073709551616"), Err(SyntaxError::Lex)));
    assert!(matches!(parse_attributes("A= 1"), Err(SyntaxError::Lex)));
}

#[test]
fn first_error_of_an_attribute_list_is_reported() {
    assert!(matches!(parse_attributes("A=,B"), Err(SyntaxError::Lex)));
    assert!(matches!(parse_attributes("A,B="), Err(SyntaxError::AttributeSyntax)));
}

/// Every text of up to `len` characters over `alphabet`.
fn texts(alphabet: &[char], len: usize) -> Vec<String> {
    let mut all = vec![String::new()];
    let mut last = vec![String::new()];
    for _ in 0..len {
        let mut next = Vec::new();
        for text in &last {
            for c in alphabet {
                let mut longer = text.clone();
                longer.push(*c);
                next.push(longer);
            }
        }
        all.extend(next.iter().cloned());
        last = next;
    }
    all
}

#[test]
fn classifier_agrees_with_the_regular_expressions_of_tag_and_uri() {
    let tag = Regex::new(r#"^#(EXT-X-[[:alpha:]-]+)($|:)"#).unwrap();
    let uri = Regex::new(r#"^([[:alnum:]/.:])+$"#).unwrap();
    let mut lines = Vec::new();
    for text in texts(&['#', 'E', '-', ':', '1', '/', ' ', '\u{e9}', '\u{663}'], 4) {
        lines.push(format!("#EXT-X-{}", text));
        lines.push(format!("#EXT-X{}", text));
        lines.push(text);
    }
    for line in lines {
        let got = parse_line(&line);
        if line.is_empty() {
            assert!(matches!(got, Ok(ParsedLine::Empty)));
        } else if let Some(found) = tag.captures(&line) {
            let name = found.get(1).unwrap().as_str();
            let tail = &line[found.get(0).unwrap().end()..];
            if tail.is_empty() {
                match got {
                    Ok(ParsedLine::Tag(got)) => assert_eq!(got, name, "on {:?}", line),
                    other => panic!("{:?} on {:?}", other, line),
                }
            } else {
                match (got, parse_attributes(tail)) {
                    (Ok(ParsedLine::TagWithAttributes(got, _)), Ok(_)) => {
                        assert_eq!(got, name, "on {:?}", line)
                    }
                    (Err(got), Err(expected)) => assert_eq!(got, expected, "on {:?}", line),
                    (got, _) => panic!("{:?} on {:?}", got, line),
                }
            }
        } else if uri.is_match(&line) {
            match got {
                Ok(ParsedLine::Uri(got)) => assert_eq!(got, line),
                other => panic!("{:?} on {:?}", other, line),
            }
        } else {
            assert!(matches!(got, Err(SyntaxError::LineClassification)), "on {:?}", line);
        }
    }
}

#[test]
fn attribute_parser_agrees_with_the_regular_expression_of_names() {
    let name = Regex::new(r#"^([[:alpha:]-]+)="#).unwrap();
    for text in texts(&['A', '-', '=', '1', ',', '"'], 6) {
        let got = parse_attributes(&text);
        if name.captures(&text).is_none() {
            assert!(matches!(got, Err(SyntaxError::AttributeSyntax)), "on {:?}", text);
        } else {
            assert!(!matches!(got, Err(SyntaxError::LineClassification)), "on {:?}", text);
        }
        if got.is_ok() {
            assert!(!text.is_empty() && !text.ends_with(','), "on {:?}", text);
        }
    }
}
