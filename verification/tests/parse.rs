use esi::{parse_tags, Event, ExecutionError, Tag};

#[test]
fn parse_basic_include() -> Result<(), ExecutionError> {
    let input = "<html><body><esi:include src=\"https://example.com/hello\"/></body></html>";
    let mut parsed = false;

    for event in parse_tags("esi", input)? {
        if let Event::ESI(Tag::Include { src, alt, continue_on_error }) = event {
            assert_eq!(src, "https://example.com/hello");
            assert_eq!(alt, None);
            assert!(!continue_on_error);
            parsed = true;
        }
    }

    assert!(parsed);

    Ok(())
}

#[test]
fn parse_advanced_include_with_namespace() -> Result<(), ExecutionError> {
    let input = "<app:include src=\"abc\" alt=\"def\" onerror=\"continue\"/>";
    let mut parsed = false;

    for event in parse_tags("app", input)? {
        if let Event::ESI(Tag::Include { src, alt, continue_on_error }) = event {
            assert_eq!(src, "abc");
            assert_eq!(alt, Some("def".to_string()));
            assert!(continue_on_error);
            parsed = true;
        }
    }

    assert!(parsed);

    Ok(())
}

#[test]
fn parse_open_include() -> Result<(), ExecutionError> {
    let input = "<esi:include src=\"abc\" alt=\"def\" onerror=\"continue\"></esi:include>";
    let mut parsed = false;

    for event in parse_tags("esi", input)? {
        if let Event::ESI(Tag::Include { src, alt, continue_on_error }) = event {
            assert_eq!(src, "abc");
            assert_eq!(alt, Some("def".to_string()));
            assert!(continue_on_error);
            parsed = true;
        }
    }

    assert!(parsed);

    Ok(())
}

#[test]
fn parse_invalid_include() -> Result<(), ExecutionError> {
    let input = "<esi:include/>";

    let res = parse_tags("esi", input);

    assert!(matches!(res, Err(ExecutionError::MissingRequiredParameter(_, _))));

    Ok(())
}

#[test]
fn parse_basic_include_with_onerror() -> Result<(), ExecutionError> {
    let input = "<esi:include src=\"/_fragments/content.html\" onerror=\"continue\"/>";
    let mut parsed = false;

    for event in parse_tags("esi", input)? {
        if let Event::ESI(Tag::Include { src, alt, continue_on_error }) = event {
            assert_eq!(src, "/_fragments/content.html");
            assert_eq!(alt, None);
            assert!(continue_on_error);
            parsed = true;
        }
    }

    assert!(parsed);

    Ok(())
}

#[test]
fn parse_try_accept_only_include() -> Result<(), ExecutionError> {
    let input = "<esi:try><esi:attempt><esi:include src=\"abc\" alt=\"def\" onerror=\"continue\"/></esi:attempt></esi:try>";
    let mut parsed = false;

    for event in parse_tags("esi", input)? {
        if let Event::ESI(Tag::Include { src, alt, continue_on_error }) = event {
            assert_eq!(src, "abc");
            assert_eq!(alt, Some("def".to_string()));
            assert!(continue_on_error);
            parsed = true;
        }
    }

    // the include sits inside the try block, so no top-level include event
    assert!(!parsed);

    Ok(())
}

#[test]
fn parse_try_accept_except_include() -> Result<(), ExecutionError> {
    let input = r#"
<esi:try>
    <esi:attempt>
        <esi:include src="/abc"/>
    </esi:attempt>
    <esi:except>
        <esi:include src="/xyz"/>
        <a href="/efg"/>
        just text
    </esi:except>
</esi:try>"#;
    let mut plain_include_parsed = false;
    let mut accept_include_parsed = false;
    let mut except_include_parsed = false;

    for event in parse_tags("esi", input)? {
        println!("Event - {event:?}");
        if let Event::ESI(Tag::Include { ref src, ref alt, ref continue_on_error }) = event {
            assert_eq!(src, &"/foo");
            assert_eq!(alt, &None);
            assert!(!continue_on_error);
            plain_include_parsed = true;
        }
        if let Event::ESI(Tag::Try { attempt_events, except_events }) = event {
            for attempt_event in attempt_events {
                if let Event::ESI(Tag::Include { src, alt, continue_on_error }) = attempt_event {
                    assert_eq!(src, "/abc");
                    assert_eq!(alt, None);
                    assert!(!continue_on_error);
                    accept_include_parsed = true;
                }
            }
            for except_event in except_events {
                if let Event::ESI(Tag::Include { src, alt, continue_on_error }) = except_event {
                    assert_eq!(src, "/xyz");
                    assert_eq!(alt, None);
                    assert!(!continue_on_error);
                    except_include_parsed = true;
                }
            }
        }
    }

    assert!(!plain_include_parsed);
    assert!(accept_include_parsed);
    assert!(except_include_parsed);

    Ok(())
}

#[test]
fn parse_try_nested() -> Result<(), ExecutionError> {
    let input = r#"<esi:try>
    <esi:attempt>
        <esi:include src="/abc"/>
        <esi:try>
            <esi:attempt>
                <esi:include src="/foo"/>
            </esi:attempt>
                <esi:except>
                <esi:include src="/bar"/>
                </esi:except>
        </esi:try>
    </esi:attempt>
    <esi:except>
        <esi:include src="/xyz"/>
        <a href="/efg"/>
        just text
    </esi:except>
</esi:try>"#;

    let mut accept_include_parsed_level1 = false;
    let mut except_include_parsed_level1 = false;
    let mut accept_include_parsed_level2 = false;
    let mut except_include_parsed_level2 = false;

    for event in parse_tags("esi", input)? {
        println!("{event:?}");
        if let Event::ESI(Tag::Try { attempt_events, except_events }) = event {
            for event in attempt_events {
                if let Event::ESI(Tag::Include { ref src, ref alt, ref continue_on_error }) = event
                {
                    assert_eq!(src, &"/abc");
                    assert_eq!(alt, &None);
                    assert!(!continue_on_error);
                    accept_include_parsed_level1 = true;
                }
                if let Event::ESI(Tag::Try { attempt_events, except_events }) = event {
                    for event in attempt_events {
                        if let Event::ESI(
                            Tag::Include { ref src, ref alt, ref continue_on_error },
                        ) = event {
                            assert_eq!(src, &"/foo");
                            assert_eq!(alt, &None);
                            assert!(!continue_on_error);
                            accept_include_parsed_level2 = true;
                        }
                    }
                    for event in except_events {
                        if let Event::ESI(
                            Tag::Include { ref src, ref alt, ref continue_on_error },
                        ) = event {
                            assert_eq!(src, &"/bar");
                            assert_eq!(alt, &None);
                            assert!(!continue_on_error);
                            except_include_parsed_level2 = true;
                        }
                    }
                }
            }

            for event in except_events {
                if let Event::ESI(Tag::Include { ref src, ref alt, ref continue_on_error }) = event
                {
                    assert_eq!(src, &"/xyz");
                    assert_eq!(alt, &None);
                    assert!(!continue_on_error);
                    except_include_parsed_level1 = true;
                }
            }
        }
    }

    assert!(accept_include_parsed_level1);
    assert!(accept_include_parsed_level2);
    assert!(except_include_parsed_level1);
    assert!(except_include_parsed_level2);

    Ok(())
}

#[test]
fn parse_passthrough_keeps_bytes() -> Result<(), ExecutionError> {
    let input = "<html><body><p class=\"x\">text &amp; entities</p><!-- note --></body></html>";
    let mut collected = Vec::new();
    for event in parse_tags("esi", input)? {
        match event {
            Event::XML(raw) => collected.extend_from_slice(&raw),
            Event::ESI(_) => panic!("no directive expected"),
        }
    }
    assert_eq!(collected, input.as_bytes());
    Ok(())
}

#[test]
fn parse_foreign_namespace_passes_through() -> Result<(), ExecutionError> {
    let input = "<app:include src=\"abc\"/>";
    let mut collected = Vec::new();
    for event in parse_tags("esi", input)? {
        match event {
            Event::XML(raw) => collected.extend_from_slice(&raw),
            Event::ESI(_) => panic!("tags of another namespace must pass through"),
        }
    }
    assert_eq!(collected, input.as_bytes());
    Ok(())
}

#[test]
fn parse_unexpected_closing_tags_error() {
    assert!(matches!(
        parse_tags("esi", "x</esi:remove>"),
        Err(ExecutionError::UnexpectedClosingTag(_))
    ));
    assert!(matches!(
        parse_tags("esi", "</esi:try>"),
        Err(ExecutionError::UnexpectedClosingTag(_))
    ));
    assert!(matches!(
        parse_tags("esi", "</esi:include>"),
        Err(ExecutionError::UnexpectedClosingTag(_))
    ));
}

#[test]
fn parse_unexpected_opening_tag_errors() {
    assert!(matches!(
        parse_tags("esi", "<esi:attempt>x</esi:attempt>"),
        Err(ExecutionError::UnexpectedOpeningTag(_))
    ));
}

#[test]
fn parse_unclosed_markup_errors() {
    assert!(matches!(
        parse_tags("esi", "<p attr=\"x"),
        Err(ExecutionError::XmlParseError(_))
    ));
}
